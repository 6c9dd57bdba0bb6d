//! An information-set node: per-action regret sums and strategy sums, kept
//! as fixed-point integers (a value `x` is stored as `x * SCALE`).
//! Regret sums follow CFR+: every update floors them at zero.

use vstd::prelude::*;

verus! {

/// Fixed-point scale: 1.0 is stored as 1_000_000.
pub const SCALE: i64 = 1_000_000;

pub const MAX_ACTIONS: usize = 4;

pub struct InfosetNode {
    num_actions: usize,
    regret_sum: [i64; 4],
    strategy_sum: [i64; 4],
}

pub open spec fn max0(x: int) -> int {
    if x > 0 {
        x
    } else {
        0
    }
}

impl InfosetNode {
    #[verifier::type_invariant]
    spec fn node_inv(self) -> bool {
        &&& self.num_actions <= MAX_ACTIONS
        &&& forall|i: int| 0 <= i < 4 ==> #[trigger] self.regret_sum@[i] >= 0
    }

    /// How many actions the node has (at most four).
    pub closed spec fn action_count(self) -> nat {
        self.num_actions as nat
    }

    /// The regret sums of the four action slots.
    pub closed spec fn regrets(self) -> Seq<i64> {
        self.regret_sum@
    }

    /// The strategy sums of the four action slots.
    pub closed spec fn strategy_sums(self) -> Seq<i64> {
        self.strategy_sum@
    }

    /// How many actions the node has.
    pub fn num_actions(&self) -> (n: usize)
        ensures
            n == self.action_count(),
            n <= MAX_ACTIONS,
    {
        proof {
            use_type_invariant(self);
        }
        self.num_actions
    }

    /// A node for `num_actions` (at most four) actions, all sums zero.
    pub fn new(num_actions: usize) -> (node: Self)
        requires
            num_actions <= MAX_ACTIONS,
        ensures
            node.action_count() == num_actions,
            node.regrets() == seq![0i64, 0i64, 0i64, 0i64],
            node.strategy_sums() == seq![0i64, 0i64, 0i64, 0i64],
    {
        let node = InfosetNode { num_actions, regret_sum: [0i64; 4], strategy_sum: [0i64; 4] };
        assert(node.regrets() =~= seq![0i64, 0i64, 0i64, 0i64]);
        assert(node.strategy_sums() =~= seq![0i64, 0i64, 0i64, 0i64]);
        node
    }

    /// Adds the (fixed-point) regrets of the node's actions, flooring each sum
    /// at zero (CFR+). Entries of `regrets` past the node's actions are ignored.
    pub fn update_regrets_cfr_plus(&mut self, regrets: &[i64])
        requires
            forall|i: int|
                0 <= i < regrets@.len() && i < old(self).action_count() ==> #[trigger] old(
                    self,
                ).regrets()[i] + regrets@[i] <= i64::MAX && old(self).regrets()[i] + regrets@[i]
                    >= i64::MIN,
        ensures
            final(self).action_count() == old(self).action_count(),
            final(self).strategy_sums() == old(self).strategy_sums(),
            final(self).regrets().len() == 4,
            forall|i: int|
                0 <= i < 4 ==> #[trigger] final(self).regrets()[i] == if i < regrets@.len() && i
                    < old(self).action_count() {
                    max0(old(self).regrets()[i] + regrets@[i]) as i64
                } else {
                    old(self).regrets()[i]
                },
            forall|i: int| 0 <= i < 4 ==> #[trigger] final(self).regrets()[i] >= 0,
    {
        proof {
            use_type_invariant(&*self);
        }
        let n = if regrets.len() < self.num_actions {
            regrets.len()
        } else {
            self.num_actions
        };
        let ghost before = self.regret_sum@;
        assert forall|k: int|
            0 <= k < regrets@.len() && k < self.num_actions implies #[trigger] before[k] + regrets@[k]
            <= i64::MAX && before[k] + regrets@[k] >= i64::MIN by {
            assert(old(self).regrets()[k] == before[k]);
        }
        let mut i: usize = 0;
        while i < n
            invariant
                n <= regrets@.len(),
                n <= self.num_actions,
                self.num_actions <= MAX_ACTIONS,
                self.num_actions == old(self).action_count(),
                self.strategy_sum == old(self).strategy_sum,
                before == old(self).regret_sum@,
                forall|k: int| 0 <= k < 4 ==> #[trigger] before[k] >= 0,
                0 <= i <= n,
                forall|k: int|
                    0 <= k < regrets@.len() && k < self.num_actions ==> #[trigger] before[k]
                        + regrets@[k] <= i64::MAX && before[k] + regrets@[k] >= i64::MIN,
                forall|k: int|
                    0 <= k < 4 ==> #[trigger] self.regret_sum@[k] == if k < i {
                        max0(before[k] + regrets@[k]) as i64
                    } else {
                        before[k]
                    },
            decreases n - i,
        {
            let updated = self.regret_sum[i] + regrets[i];
            self.regret_sum[i] = if updated > 0 {
                updated
            } else {
                0
            };
            i = i + 1;
        }
    }

    /// Adds the (fixed-point) strategy weights of the node's actions, with
    /// wrap-around on overflow. Entries past the node's actions are ignored.
    pub fn accumulate_strategy(&mut self, weights: &[i64])
        ensures
            final(self).action_count() == old(self).action_count(),
            final(self).regrets() == old(self).regrets(),
            final(self).strategy_sums().len() == 4,
            forall|i: int|
                0 <= i < 4 ==> #[trigger] final(self).strategy_sums()[i] == if i < weights@.len()
                    && i < old(self).action_count() {
                    old(self).strategy_sums()[i].wrapping_add(weights@[i])
                } else {
                    old(self).strategy_sums()[i]
                },
    {
        proof {
            use_type_invariant(&*self);
        }
        let n = if weights.len() < self.num_actions {
            weights.len()
        } else {
            self.num_actions
        };
        let ghost before = self.strategy_sum@;
        let mut i: usize = 0;
        while i < n
            invariant
                n <= weights@.len(),
                n <= self.num_actions,
                self.num_actions <= MAX_ACTIONS,
                self.num_actions == old(self).action_count(),
                self.regret_sum == old(self).regret_sum,
                forall|k: int| 0 <= k < 4 ==> #[trigger] self.regret_sum@[k] >= 0,
                before == old(self).strategy_sum@,
                0 <= i <= n,
                forall|k: int|
                    0 <= k < 4 ==> #[trigger] self.strategy_sum@[k] == if k < i {
                        before[k].wrapping_add(weights@[k])
                    } else {
                        before[k]
                    },
            decreases n - i,
        {
            let s = self.strategy_sum[i];
            self.strategy_sum[i] = s.wrapping_add(weights[i]);
            i = i + 1;
        }
    }

    /// The regret-matching weights of the node's actions: each regret sum
    /// floored at zero. The current strategy is these weights normalised (or
    /// uniform when they are all zero).
    pub fn get_strategy_weights(&self) -> (w: Vec<i64>)
        ensures
            w@.len() == self.action_count(),
            forall|i: int| 0 <= i < self.action_count() ==> #[trigger] w@[i] == max0(self.regrets()[i] as int),
    {
        proof {
            use_type_invariant(self);
        }
        positive_parts(&self.regret_sum, self.num_actions)
    }

    /// The average-strategy weights of the node's actions: each strategy sum
    /// floored at zero. The average strategy is these weights normalised (or
    /// uniform when they are all zero).
    pub fn get_average_weights(&self) -> (w: Vec<i64>)
        ensures
            w@.len() == self.action_count(),
            forall|i: int|
                0 <= i < self.action_count() ==> #[trigger] w@[i] == max0(self.strategy_sums()[i] as int),
    {
        proof {
            use_type_invariant(self);
        }
        positive_parts(&self.strategy_sum, self.num_actions)
    }
}

/// The first `n` entries of `sums`, each floored at zero.
fn positive_parts(sums: &[i64; 4], n: usize) -> (w: Vec<i64>)
    requires
        n <= 4,
    ensures
        w@.len() == n,
        forall|i: int| 0 <= i < n ==> #[trigger] w@[i] == max0(sums@[i] as int),
{
    let mut w: Vec<i64> = Vec::new();
    let mut i: usize = 0;
    while i < n
        invariant
            n <= 4,
            0 <= i <= n,
            w@.len() == i,
            forall|k: int| 0 <= k < i ==> #[trigger] w@[k] == max0(sums@[k] as int),
        decreases n - i,
    {
        let s = sums[i];
        w.push(
            if s > 0 {
                s
            } else {
                0
            },
        );
        i = i + 1;
    }
    w
}

} // verus!
