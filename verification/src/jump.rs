//! The player's jumping: whether it is trying to jump, and the fuel that
//! keeps a jump going. While it jumps, an upward boost is added to its
//! acceleration; each change below says how the boost changes, in boosts.
use vstd::prelude::*;

verus! {

/// How many updates a jump lasts at most.
pub const MAX_JUMP_FUEL: u32 = 4;

/// Whether the player is jumping, and for how many more updates it can.
#[derive(Clone, Copy, Debug, PartialEq, Eq, Structural)]
pub struct JumpState {
    /// this is depleted as we jump and replenished as we stand.
    pub jump_fuel: u32,
    /// are we currently trying to jump? (e.g. holding the key).
    pub is_jumping: bool,
}

/// The number of upward boosts in the player's acceleration in a state:
/// one while it jumps.
pub open spec fn boosts(s: JumpState) -> int {
    if s.is_jumping {
        1
    } else {
        0
    }
}

impl JumpState {
    /// Standing, with no fuel.
    pub fn new() -> (s: JumpState)
        ensures
            s == (JumpState { jump_fuel: 0, is_jumping: false }),
    {
        JumpState { jump_fuel: 0, is_jumping: false }
    }

    /// The jump key is pressed: a jump starts, unless one is going on.
    pub fn start_jump(&mut self) -> (boost: i32)
        ensures
            final(self).is_jumping,
            final(self).jump_fuel == old(self).jump_fuel,
            boost == (if old(self).is_jumping { 0i32 } else { 1i32 }),
            boosts(*final(self)) == boosts(*old(self)) + boost,
    {
        if !self.is_jumping {
            self.is_jumping = true;
            1
        } else {
            0
        }
    }

    /// The jump key is released: the jump stops, if one is going on.
    pub fn stop_jump(&mut self) -> (boost: i32)
        ensures
            !final(self).is_jumping,
            final(self).jump_fuel == old(self).jump_fuel,
            boost == (if old(self).is_jumping { -1i32 } else { 0i32 }),
            boosts(*final(self)) == boosts(*old(self)) + boost,
    {
        if self.is_jumping {
            self.is_jumping = false;
            -1
        } else {
            0
        }
    }

    /// One update of the player: a jump burns one unit of fuel, and stops
    /// when there is none left.
    pub fn update(&mut self) -> (boost: i32)
        ensures
            old(self).is_jumping && old(self).jump_fuel > 0 ==> *final(self) == (JumpState {
                jump_fuel: (old(self).jump_fuel - 1) as u32,
                is_jumping: true,
            }) && boost == 0,
            old(self).is_jumping && old(self).jump_fuel == 0 ==> *final(self) == (JumpState {
                jump_fuel: 0,
                is_jumping: false,
            }) && boost == -1,
            !old(self).is_jumping ==> *final(self) == *old(self) && boost == 0,
            boosts(*final(self)) == boosts(*old(self)) + boost,
    {
        if self.is_jumping {
            if self.jump_fuel > 0 {
                self.jump_fuel = self.jump_fuel - 1;
                0
            } else {
                // this code is duplicated in a few places
                self.is_jumping = false;
                -1
            }
        } else {
            0
        }
    }

    /// The player has moved, downwards or not, and hit something or not: a
    /// player that lands on something gets its fuel back, one that falls
    /// freely has none.
    pub fn moved(&mut self, downwards: bool, collided: bool)
        ensures
            final(self).is_jumping == old(self).is_jumping,
            final(self).jump_fuel == (if downwards {
                if collided { MAX_JUMP_FUEL } else { 0 }
            } else {
                old(self).jump_fuel
            }),
    {
        if collided {
            if downwards {
                self.jump_fuel = MAX_JUMP_FUEL;
            }
        } else {
            if downwards {
                self.jump_fuel = 0;
            }
        }
    }
}

/// However the jump key, the updates and the landings interleave, the
/// player's acceleration holds one boost while it jumps and none otherwise:
/// a boost is never added twice nor taken away twice. Stated of a run of
/// changes from a standing start, each of which adds what it returns.
pub proof fn boosts_stay_balanced(states: Seq<JumpState>, returned: Seq<int>)
    requires
        states.len() == returned.len() + 1,
        !states[0].is_jumping,
        forall|i: int|
            0 <= i < returned.len() ==> boosts(#[trigger] states[i + 1]) == boosts(states[i])
                + returned[i],
    ensures
        forall|k: int|
            0 <= k < states.len() ==> sum_prefix(returned, k) == boosts(#[trigger] states[k])
                && 0 <= sum_prefix(returned, k) <= 1,
    decreases returned.len(),
{
    if returned.len() > 0 {
        let n = returned.len() - 1;
        boosts_stay_balanced(states.take(n + 1), returned.take(n));
        assert forall|k: int| 0 <= k < states.len() implies sum_prefix(returned, k) == boosts(
            #[trigger] states[k],
        ) && 0 <= sum_prefix(returned, k) <= 1 by {
            if k <= n {
                lemma_sum_prefix_take(returned, n, k);
                assert(states.take(n + 1)[k] == states[k]);
                assert(sum_prefix(returned.take(n), k) == boosts(states.take(n + 1)[k]));
            } else {
                lemma_sum_prefix_take(returned, n, n);
                assert(states.take(n + 1)[n] == states[n]);
                assert(sum_prefix(returned.take(n), n) == boosts(states.take(n + 1)[n]));
                assert(boosts(states[n + 1]) == boosts(states[n]) + returned[n]);
            }
        }
    }
}

/// The sum of the first `k` changes.
pub open spec fn sum_prefix(changes: Seq<int>, k: int) -> int
    decreases k,
{
    if k <= 0 {
        0
    } else {
        sum_prefix(changes, k - 1) + changes[k - 1]
    }
}

/// Dropping changes after the first `n` keeps the sums of up to `n` of them.
pub proof fn lemma_sum_prefix_take(changes: Seq<int>, n: int, k: int)
    requires
        0 <= n <= changes.len(),
        0 <= k,
    ensures
        k <= n ==> sum_prefix(changes.take(n), k) == sum_prefix(changes, k),
    decreases k,
{
    if k > 0 && k <= n {
        lemma_sum_prefix_take(changes, n, k - 1);
    }
}

} // verus!
