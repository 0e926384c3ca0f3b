//! How detailed the terrain is at a distance from the player, and how far
//! the terrain can be loaded within a polygon budget.
use vstd::prelude::*;
use crate::terrain::LOD_QUALITY;
use crate::lod_map::LOD;

verus! {

/// The distances up to which each level of detail is used.
pub const LOD_THRESHOLDS: [i32; 3] = [1, 8, 32];

/// The level of detail used at `distance`: the number of thresholds below it.
pub open spec fn lod_index_spec(distance: int) -> int {
    if distance <= 1 {
        0
    } else if distance <= 8 {
        1
    } else if distance <= 32 {
        2
    } else {
        3
    }
}

/// The polygons drawn per block at distance `k`: four per sample of the
/// block's level of detail.
pub open spec fn polygons_per_block(k: int) -> int {
    let q: int = if lod_index_spec(k) == 0 {
        8
    } else if lod_index_spec(k) == 1 {
        4
    } else if lod_index_spec(k) == 2 {
        2
    } else {
        1
    };
    q * q * 4
}

/// The polygons of the blocks at distance exactly `k` from the player: the
/// blocks of a square ring of width `2k + 1`.
pub open spec fn layer_polygons(k: int) -> int {
    if k == 0 {
        polygons_per_block(0)
    } else {
        8 * k * polygons_per_block(k)
    }
}

/// The polygons of the blocks at distance below `n`.
pub open spec fn load_cost(n: int) -> int
    decreases n,
{
    if n <= 0 {
        0
    } else {
        load_cost(n - 1) + layer_polygons(n - 1)
    }
}

/// The level of detail index to use at `distance` from the player.
pub fn lod_index(distance: i32) -> (lod: u32)
    ensures
        lod == lod_index_spec(distance as int),
        lod == (if LOD_THRESHOLDS[0] < distance { 1int } else { 0int }) + (if LOD_THRESHOLDS[1]
            < distance { 1int } else { 0int }) + (if LOD_THRESHOLDS[2] < distance { 1int } else { 0int }),
{
    let mut lod: usize = 0;
    while lod < 3 && LOD_THRESHOLDS[lod] < distance
        invariant
            0 <= lod <= 3,
            lod == 0 || LOD_THRESHOLDS[lod - 1] < distance,
            LOD_THRESHOLDS == [1i32, 8, 32],
        decreases 3 - lod,
    {
        lod = lod + 1;
    }
    lod as u32
}

/// The area of the square of blocks at distance below `n`.
pub open spec fn square_below(n: int) -> int {
    if n <= 0 {
        0
    } else {
        (2 * n - 1) * (2 * n - 1)
    }
}

/// The ring at distance `k` adds `layer_polygons(k)` polygons to the square
/// below it.
proof fn lemma_layer(k: int, ppb: int)
    requires
        k >= 0,
        ppb == polygons_per_block(k),
    ensures
        ((2 * k + 1) * (2 * k + 1) - square_below(k)) * ppb == layer_polygons(k),
        ((2 * k + 1) * (2 * k + 1) - square_below(k)) * ppb >= 4,
{
    if k > 0 {
        assert(((2 * k + 1) * (2 * k + 1) - (2 * k - 1) * (2 * k - 1)) * ppb == 8 * k * ppb)
            by (nonlinear_arith);
        assert(8 * k * ppb >= 4) by (nonlinear_arith)
            requires
                k >= 1,
                ppb >= 4,
        ;
    } else {
        assert(((2 * k + 1) * (2 * k + 1) - 0) * ppb == ppb) by (nonlinear_arith)
            requires
                k == 0,
        ;
    }
}

/// Loading up to distance `n` costs at least `n * (n - 1)` polygons.
proof fn lemma_cost_grows(n: int)
    requires
        n >= 0,
    ensures
        load_cost(n) >= n * (n - 1),
        load_cost(n + 1) > load_cost(n),
    decreases n,
{
    if n > 0 {
        lemma_cost_grows(n - 1);
        assert(layer_polygons(n - 1) >= 2 * (n - 1)) by (nonlinear_arith)
            requires
                n >= 1,
                layer_polygons(n - 1) == if n - 1 == 0 {
                    polygons_per_block(0)
                } else {
                    8 * (n - 1) * polygons_per_block(n - 1)
                },
                polygons_per_block(n - 1) >= 4,
        ;
        assert((n - 1) * (n - 2) + 2 * (n - 1) == n * (n - 1)) by (nonlinear_arith);
    }
    assert(layer_polygons(n) > 0) by (nonlinear_arith)
        requires
            n >= 0,
            layer_polygons(n) == if n == 0 {
                polygons_per_block(0)
            } else {
                8 * n * polygons_per_block(n)
            },
            polygons_per_block(n) >= 4,
    ;
}

/// The distance up to which terrain can be loaded without drawing more than
/// `polygon_budget` polygons: the largest `d` such that the blocks at distance
/// below `d` take at most `polygon_budget` polygons, each block drawn at the
/// level of detail of its distance.
pub fn load_distance(polygon_budget: i32) -> (d: i32)
    ensures
        d >= 0,
        d == 0 || load_cost(d as int) <= polygon_budget,
        load_cost(d + 1) > polygon_budget,
{
    let ghost budget = polygon_budget as int;
    let mut remaining: i64 = polygon_budget as i64;
    let mut load_distance: i64 = 0;
    let mut prev_threshold: i64 = 0;
    let mut prev_square: i64 = 0;
    let mut band: usize = 0;
    proof {
        reveal_with_fuel(load_cost, 2);
        assert(load_cost(1) == 256);
    }
    while band < 3
        invariant
            0 <= band <= 3,
            band == 0 ==> prev_threshold == 0,
            band == 1 ==> prev_threshold == 2,
            band == 2 ==> prev_threshold == 9,
            band == 3 ==> prev_threshold == 33,
            0 <= load_distance <= prev_threshold,
            prev_square == square_below(load_distance as int),
            load_distance == 0 || load_cost(load_distance as int) <= budget,
            remaining >= 0 ==> load_distance == prev_threshold && remaining == budget - load_cost(
                load_distance as int,
            ),
            remaining < 0 ==> load_cost(load_distance + 1) > budget,
            remaining >= i32::MIN - band * 0x200000,
            budget == polygon_budget,
            LOD_THRESHOLDS == [1i32, 8, 32],
            LOD_QUALITY == [8u32, 4, 2, 1],
        decreases 3 - band,
    {
        let threshold = LOD_THRESHOLDS[band] as i64;
        let quality = LOD_QUALITY[band] as i64;
        proof {
            assert(band == 0 ==> threshold == 1 && quality == 8);
            assert(band == 1 ==> threshold == 8 && quality == 4);
            assert(band == 2 ==> threshold == 32 && quality == 2);
        }
        let per_block = quality * quality * 4;
        let mut i: i64 = prev_threshold;
        while i <= threshold
            invariant_except_break
                remaining >= 0 ==> load_distance == i && remaining == budget - load_cost(
                    load_distance as int,
                ),
                remaining < 0 ==> i == prev_threshold,
                remaining >= i32::MIN - band * 0x200000,
            invariant
                prev_threshold <= i <= threshold + 1,
                band < 3,
                band == 0 ==> prev_threshold == 0 && threshold == 1 && per_block == 256,
                band == 1 ==> prev_threshold == 2 && threshold == 8 && per_block == 64,
                band == 2 ==> prev_threshold == 9 && threshold == 32 && per_block == 16,
                0 <= load_distance <= i,
                prev_square == square_below(load_distance as int),
                load_distance == 0 || load_cost(load_distance as int) <= budget,
                remaining < 0 ==> load_cost(load_distance + 1) > budget,
                budget == polygon_budget,
            ensures
                remaining >= 0 ==> load_distance == threshold + 1 && remaining == budget - load_cost(
                    load_distance as int,
                ),
                remaining < 0 ==> load_cost(load_distance + 1) > budget,
                remaining >= i32::MIN - (band + 1) * 0x200000,
                0 <= load_distance <= threshold + 1,
                prev_square == square_below(load_distance as int),
                load_distance == 0 || load_cost(load_distance as int) <= budget,
            decreases threshold + 1 - i,
        {
            let w = 2 * i + 1;
            proof {
                assert(w * w <= 4225) by (nonlinear_arith)
                    requires
                        0 <= i <= 32,
                        w == 2 * i + 1,
                ;
            }
            let square = w * w;
            proof {
                assert(per_block == polygons_per_block(i as int));
                lemma_layer(i as int, per_block as int);
                assert(square_below(load_distance as int) <= square_below(i as int)) by (nonlinear_arith)
                    requires
                        0 <= load_distance <= i,
                        square_below(load_distance as int) == if load_distance <= 0 {
                            0
                        } else {
                            (2 * load_distance - 1) * (2 * load_distance - 1)
                        },
                        square_below(i as int) == if i <= 0 {
                            0
                        } else {
                            (2 * i - 1) * (2 * i - 1)
                        },
                ;
                assert(square <= 4225) by (nonlinear_arith)
                    requires
                        0 <= i <= 32,
                        square == (2 * i + 1) * (2 * i + 1),
                ;
                assert((square - prev_square) * per_block <= 4225 * 256) by (nonlinear_arith)
                    requires
                        0 <= prev_square <= square <= 4225,
                        0 < per_block <= 256,
                ;
                assert((square - prev_square) * per_block >= (square - square_below(
                    i as int,
                )) * per_block) by (nonlinear_arith)
                    requires
                        prev_square <= square_below(i as int),
                        per_block > 0,
                ;
            }
            let polygons_in_layer = (square - prev_square) * per_block;
            remaining = remaining - polygons_in_layer;
            if remaining < 0 {
                proof {
                    if i != load_distance {
                        assert(remaining < 0);
                    }
                }
                break;
            }
            load_distance = load_distance + 1;
            prev_square = square;
            i = i + 1;
        }
        prev_threshold = threshold + 1;
        band = band + 1;
    }
    let mut width: i64 = 2 * prev_threshold + 1;
    proof {
        lemma_cost_grows(load_distance as int);
    }
    loop
        invariant_except_break
            remaining >= i32::MIN - 3 * 0x200000,
        invariant
            width == 2 * (width / 2) + 1,
            33 <= width / 2,
            0 <= load_distance <= width / 2,
            load_distance < 46342,
            width / 2 < 46342,
            prev_square == square_below(load_distance as int),
            load_distance == 0 || load_cost(load_distance as int) <= budget,
            remaining >= 0 ==> load_distance == width / 2 && remaining == budget - load_cost(
                load_distance as int,
            ),
            remaining < 0 ==> load_cost(load_distance + 1) > budget,
            budget == polygon_budget,
            LOD_QUALITY == [8u32, 4, 2, 1],
        ensures
            0 <= load_distance < 46342,
            load_distance == 0 || load_cost(load_distance as int) <= budget,
            load_cost(load_distance + 1) > budget,
        decreases if remaining < 0 {
            0
        } else {
            remaining + 1
        },
    {
        let ghost i = width / 2;
        proof {
            assert(width * width <= 0x3_0000_0000) by (nonlinear_arith)
                requires
                    0 <= i < 46342,
                    width == 2 * i + 1,
            ;
        }
        let square = width * width;
        // The "to infinity and beyond" quality.
        let quality = LOD_QUALITY[3] as i64;
        proof {
            assert(quality == 1);
        }
        let per_block = quality * quality * 4;
        proof {
            assert(per_block == polygons_per_block(i));
            lemma_layer(i, per_block as int);
            assert(square_below(load_distance as int) <= square_below(i)) by (nonlinear_arith)
                requires
                    0 <= load_distance <= i,
                    square_below(load_distance as int) == if load_distance <= 0 {
                        0
                    } else {
                        (2 * load_distance - 1) * (2 * load_distance - 1)
                    },
                    square_below(i) == if i <= 0 {
                        0
                    } else {
                        (2 * i - 1) * (2 * i - 1)
                    },
            ;
            assert(square <= 0x3_0000_0000) by (nonlinear_arith)
                requires
                    0 <= i < 46342,
                    width == 2 * i + 1,
                    square == width * width,
            ;
            assert((square - prev_square) * per_block >= (square - square_below(i))
                * per_block) by (nonlinear_arith)
                requires
                    prev_square <= square_below(i),
                    per_block > 0,
            ;
        }
        let polygons_in_layer = (square - prev_square) * per_block;
        if remaining < 0 {
            remaining = remaining - polygons_in_layer;
            break;
        }
        remaining = remaining - polygons_in_layer;
        if remaining < 0 {
            break;
        }
        proof {
            lemma_cost_grows(load_distance + 1);
            assert(load_distance + 1 < 46342) by (nonlinear_arith)
                requires
                    load_cost(load_distance + 1) >= (load_distance + 1) * load_distance,
                    load_cost(load_distance + 1) <= budget <= i32::MAX,
                    load_distance >= 0,
            ;
        }
        width = width + 2;
        load_distance = load_distance + 1;
        prev_square = square;
    }
    load_distance as i32
}

/// Farther away, the terrain is never more detailed: the level of detail
/// index never decreases with the distance.
pub proof fn farther_is_never_more_detailed(a: int, b: int)
    requires
        a <= b,
    ensures
        lod_index_spec(a) <= lod_index_spec(b),
        0 <= lod_index_spec(a) <= 3,
{
}

/// Loading farther never costs fewer polygons.
pub proof fn load_cost_monotonic(i: int, j: int)
    requires
        0 <= i <= j,
    ensures
        load_cost(i) <= load_cost(j),
    decreases j - i,
{
    if i < j {
        load_cost_monotonic(i, j - 1);
        lemma_cost_grows(j - 1);
    }
}

/// The level of detail that the player's surroundings are loaded at, at
/// `distance` from the player.
pub fn surroundings_lod(distance: i32) -> (l: LOD)
    ensures
        l == LOD::LodIndex(lod_index_spec(distance as int) as u32),
{
    LOD::LodIndex(lod_index(distance))
}

/// The level of detail of the solid boundary around the player: an
/// invisible solid block at every distance.
pub fn solid_boundary_lod(distance: i32) -> (l: LOD)
    ensures
        l == LOD::Placeholder,
{
    LOD::Placeholder
}

} // verus!
