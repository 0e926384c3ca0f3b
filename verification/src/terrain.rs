//! Terrain constants and kinds.
use vstd::prelude::*;
use std::collections::HashMap;
use crate::block_position::{BlockPosition, position_key, position_key_injective};

verus! {

broadcast use vstd::std_specs::hash::group_hash_axioms;

/// Quality is the number of times the noise function is sampled along each
/// axis, for each level of detail.
pub const LOD_QUALITY: [u32; 4] = [8, 4, 2, 1];

/// The kinds of terrain.
#[derive(Clone, Copy, Debug, PartialEq, Eq, Structural, Hash)]
pub enum TerrainType {
    Grass,
    Dirt,
    Stone,
    Wood,
    Leaf,
}

/// `lods` extended with empty levels so that it has a level `lod_index`.
pub open spec fn padded<B>(lods: Seq<Option<B>>, lod_index: int) -> Seq<Option<B>> {
    if lods.len() > lod_index {
        lods
    } else {
        lods + Seq::new((lod_index + 1 - lods.len()) as nat, |i: int| None::<B>)
    }
}

/// The meshes of one block, one per level of detail, each generated when
/// first needed.
pub struct TerrainMipMesh<B> {
    pub lods: Vec<Option<B>>,
}

impl<B> TerrainMipMesh<B> {
    /// Makes sure the mesh of level `lod_index` is there, generating it when
    /// it is not.
    pub fn ensure_lod<G: FnOnce() -> B>(&mut self, lod_index: u32, generate: G)
        requires
            call_requires(generate, ()),
        ensures
            ({
                let p = padded(old(self).lods@, lod_index as int);
                &&& final(self).lods@.len() == p.len()
                &&& forall|i: int|
                    0 <= i < p.len() && i != lod_index ==> #[trigger] final(self).lods@[i] == p[i]
                &&& p[lod_index as int] is Some ==> final(self).lods@[lod_index as int] == p[lod_index as int]
                &&& p[lod_index as int] is None ==> (final(self).lods@[lod_index as int] matches Some(
                    g,
                ) && call_ensures(generate, (), g))
            }),
    {
        let ghost p = padded(self.lods@, lod_index as int);
        let lod = lod_index as usize;
        let ghost before = self.lods@;
        while self.lods.len() <= lod
            invariant
                before == old(self).lods@,
                p == padded(before, lod as int),
                lod == lod_index,
                before.len() <= self.lods@.len(),
                self.lods@.len() <= p.len(),
                self.lods@ == p.take(self.lods@.len() as int),
            decreases lod + 1 - self.lods@.len(),
        {
            self.lods.push(None);
            proof {
                assert(self.lods@ =~= p.take(self.lods@.len() as int));
            }
        }
        proof {
            assert(self.lods@ =~= p);
        }
        if self.lods[lod].is_none() {
            let mesh = generate();
            self.lods.set(lod, Some(mesh));
        }
    }

    /// The mesh of level `lod_index`, if it is there.
    pub fn get(&self, lod_index: u32) -> (r: Option<&B>)
        ensures
            (lod_index as int) < self.lods@.len() && self.lods@[lod_index as int] is Some ==> r
                == Some(&self.lods@[lod_index as int].unwrap()),
            !((lod_index as int) < self.lods@.len() && self.lods@[lod_index as int] is Some) ==> r is None,
    {
        let lod = lod_index as usize;
        if lod < self.lods.len() {
            match &self.lods[lod] {
                Some(b) => Some(b),
                None => None,
            }
        } else {
            None
        }
    }
}

/// All the meshes that have ever been created, by block.
pub struct TerrainMeshes<B> {
    all_blocks: HashMap<u128, TerrainMipMesh<B>>,
}

impl<B> TerrainMeshes<B> {
    /// The meshes of each block that has some, by level of detail.
    pub closed spec fn view(&self) -> Map<BlockPosition, Seq<Option<B>>> {
        Map::new(
            |p: BlockPosition| self.all_blocks@.contains_key(position_key(p)),
            |p: BlockPosition| self.all_blocks@[position_key(p)].lods@,
        )
    }

    /// No mesh yet.
    pub fn new() -> (m: TerrainMeshes<B>)
        ensures
            m.view() == Map::<BlockPosition, Seq<Option<B>>>::empty(),
    {
        let m = TerrainMeshes { all_blocks: HashMap::new() };
        proof {
            assert(m.view() =~= Map::<BlockPosition, Seq<Option<B>>>::empty());
        }
        m
    }

    /// Makes sure the mesh of level `lod_index` of the block at `position` is
    /// there, generating it when it is not, then hands it to `f` and returns
    /// what `f` returns.
    pub fn load<T, G: FnOnce() -> B, F: FnOnce(&B) -> T>(
        &mut self,
        position: &BlockPosition,
        lod_index: u32,
        generate: G,
        f: F,
    ) -> (r: T)
        requires
            call_requires(generate, ()),
            forall|b: &B| call_requires(f, (b,)),
        ensures
            ({
                let before = if old(self).view().contains_key(*position) {
                    old(self).view()[*position]
                } else {
                    Seq::empty()
                };
                let p = padded(before, lod_index as int);
                let lods = final(self).view()[*position];
                &&& final(self).view().contains_key(*position)
                &&& final(self).view().remove(*position) == old(self).view().remove(*position)
                &&& lods.len() == p.len()
                &&& forall|i: int| 0 <= i < p.len() && i != lod_index ==> #[trigger] lods[i] == p[i]
                &&& p[lod_index as int] is Some ==> lods[lod_index as int] == p[lod_index as int]
                &&& p[lod_index as int] is None ==> (lods[lod_index as int] matches Some(g)
                    && call_ensures(generate, (), g))
                &&& lods[lod_index as int] is Some
                &&& call_ensures(f, (&lods[lod_index as int].unwrap(),), r)
            }),
    {
        let k = position.key();
        let mut mesh = match self.all_blocks.remove(&k) {
            Some(mesh) => mesh,
            None => TerrainMipMesh { lods: Vec::new() },
        };
        proof {
            assert(mesh.lods@ == if old(self).view().contains_key(*position) {
                old(self).view()[*position]
            } else {
                Seq::empty()
            });
        }
        mesh.ensure_lod(lod_index, generate);
        let r = f(mesh.get(lod_index).unwrap());
        let ghost lods = mesh.lods@;
        self.all_blocks.insert(k, mesh);
        proof {
            assert forall|q: BlockPosition| q != *position implies position_key(q) != k by {
                position_key_injective(q, *position);
            }
            assert(self.view().remove(*position) =~= old(self).view().remove(*position));
            assert(self.view()[*position] == lods);
        }
        r
    }
}

} // verus!
