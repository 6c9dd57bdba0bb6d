//! Counts of an opponent's actions, from which its fold, call and raise
//! frequencies (and how often it voluntarily enters a pot) are read.

use vstd::prelude::*;

verus! {

#[derive(Debug, Clone, Copy)]
pub struct OpponentTracker {
    pub total_hands: u64,
    pub vpip_hands: u64,
    pub fold_count: u64,
    pub call_count: u64,
    pub raise_count: u64,
}

impl Default for OpponentTracker {
    fn default() -> (t: Self)
        ensures
            t == OpponentTracker::fresh(),
    {
        Self::new()
    }
}

impl OpponentTracker {
    /// A tracker that has seen nothing.
    pub open spec fn fresh() -> OpponentTracker {
        OpponentTracker {
            total_hands: 0,
            vpip_hands: 0,
            fold_count: 0,
            call_count: 0,
            raise_count: 0,
        }
    }

    /// The counters that recording `action` increments stay below `u64::MAX`.
    pub open spec fn can_record(self, action: u8, is_preflop: bool) -> bool {
        &&& action == 0 ==> self.fold_count < u64::MAX
        &&& action == 1 ==> self.call_count < u64::MAX
        &&& (action == 2 || action == 3) ==> self.raise_count < u64::MAX
        &&& (is_preflop && 1 <= action <= 3) ==> self.vpip_hands < u64::MAX
    }

    /// The counters after recording `action`: a fold, call (1) or raise (2
    /// or 3) is counted; a call or raise preflop also counts as voluntarily
    /// putting money in; other codes are ignored.
    pub open spec fn after_action(self, action: u8, is_preflop: bool) -> OpponentTracker {
        let voluntary = is_preflop && 1 <= action <= 3;
        OpponentTracker {
            total_hands: self.total_hands,
            vpip_hands: if voluntary {
                (self.vpip_hands + 1) as u64
            } else {
                self.vpip_hands
            },
            fold_count: if action == 0 {
                (self.fold_count + 1) as u64
            } else {
                self.fold_count
            },
            call_count: if action == 1 {
                (self.call_count + 1) as u64
            } else {
                self.call_count
            },
            raise_count: if action == 2 || action == 3 {
                (self.raise_count + 1) as u64
            } else {
                self.raise_count
            },
        }
    }

    /// The counters after one more finished hand.
    pub open spec fn after_hand(self) -> OpponentTracker {
        OpponentTracker { total_hands: (self.total_hands + 1) as u64, ..self }
    }

    /// The counters after a run of calls: `Some((action, is_preflop))` for
    /// `record_action`, `None` for `end_hand`.
    pub open spec fn after_events(self, evs: Seq<Option<(u8, bool)>>) -> OpponentTracker
        decreases evs.len(),
    {
        if evs.len() == 0 {
            self
        } else {
            let prev = self.after_events(evs.drop_last());
            match evs[evs.len() - 1] {
                Some((a, p)) => prev.after_action(a, p),
                None => prev.after_hand(),
            }
        }
    }

    /// Every call of the run is one that `record_action` or `end_hand`
    /// accepts in the state it meets: no counter is already at `u64::MAX`.
    pub open spec fn run_allowed(self, evs: Seq<Option<(u8, bool)>>) -> bool
        decreases evs.len(),
    {
        if evs.len() == 0 {
            true
        } else {
            let prev = self.after_events(evs.drop_last());
            &&& self.run_allowed(evs.drop_last())
            &&& match evs[evs.len() - 1] {
                Some((a, p)) => prev.can_record(a, p),
                None => prev.total_hands < u64::MAX,
            }
        }
    }

    pub fn new() -> (t: Self)
        ensures
            t == OpponentTracker::fresh(),
    {
        OpponentTracker { total_hands: 0, vpip_hands: 0, fold_count: 0, call_count: 0, raise_count: 0 }
    }

    /// Records one opponent action.
    pub fn record_action(&mut self, action: u8, is_preflop: bool)
        requires
            old(self).can_record(action, is_preflop),
        ensures
            *final(self) == old(self).after_action(action, is_preflop),
    {
        if action == 0 {
            self.fold_count = self.fold_count + 1;
        } else if action == 1 {
            self.call_count = self.call_count + 1;
            if is_preflop {
                self.vpip_hands = self.vpip_hands + 1;
            }
        } else if action == 2 || action == 3 {
            self.raise_count = self.raise_count + 1;
            if is_preflop {
                self.vpip_hands = self.vpip_hands + 1;
            }
        }
    }

    /// Counts one finished hand.
    pub fn end_hand(&mut self)
        requires
            old(self).total_hands < u64::MAX,
        ensures
            *final(self) == old(self).after_hand(),
    {
        self.total_hands = self.total_hands + 1;
    }

    /// How many actions have been recorded.
    pub fn total_actions(&self) -> (n: u64)
        requires
            self.fold_count + self.call_count + self.raise_count <= u64::MAX,
        ensures
            n == self.fold_count + self.call_count + self.raise_count,
    {
        self.fold_count + self.call_count + self.raise_count
    }
}

/// Recording an action adds exactly one to the action total (unknown codes
/// add none), and never changes the hand count.
pub proof fn lemma_record_counts_one(t: OpponentTracker, action: u8, is_preflop: bool)
    requires
        t.can_record(action, is_preflop),
    ensures
        ({
            let n = t.after_action(action, is_preflop);
            &&& n.fold_count + n.call_count + n.raise_count == t.fold_count + t.call_count
                + t.raise_count + (if action <= 3 {
                1int
            } else {
                0
            })
            &&& n.total_hands == t.total_hands
            &&& n.vpip_hands <= t.vpip_hands + 1
        }),
{
}

/// How many of the events are actions with a known code (0 to 3).
pub open spec fn known_actions(evs: Seq<Option<(u8, bool)>>) -> int
    decreases evs.len(),
{
    if evs.len() == 0 {
        0
    } else {
        known_actions(evs.drop_last()) + match evs[evs.len() - 1] {
            Some((a, p)) => if a <= 3 { 1int } else { 0 },
            None => 0,
        }
    }
}

/// How many of the events are preflop calls or raises.
pub open spec fn voluntary_actions(evs: Seq<Option<(u8, bool)>>) -> int
    decreases evs.len(),
{
    if evs.len() == 0 {
        0
    } else {
        voluntary_actions(evs.drop_last()) + match evs[evs.len() - 1] {
            Some((a, p)) => if p && 1 <= a <= 3 { 1int } else { 0 },
            None => 0,
        }
    }
}

/// How many of the events end a hand.
pub open spec fn hands_ended(evs: Seq<Option<(u8, bool)>>) -> int
    decreases evs.len(),
{
    if evs.len() == 0 {
        0
    } else {
        hands_ended(evs.drop_last()) + if evs[evs.len() - 1] is None { 1int } else { 0 }
    }
}

/// Over any run of calls from a fresh tracker that the calls accept, the
/// action total counts the actions with a known code,
/// the voluntary count counts the preflop calls and raises (never more than
/// the action total), and the hand count counts the finished hands.
pub proof fn lemma_tracker_counts(evs: Seq<Option<(u8, bool)>>)
    requires
        OpponentTracker::fresh().run_allowed(evs),
    ensures
        ({
            let t = OpponentTracker::fresh().after_events(evs);
            &&& t.fold_count + t.call_count + t.raise_count == known_actions(evs)
            &&& t.vpip_hands == voluntary_actions(evs)
            &&& t.vpip_hands <= t.fold_count + t.call_count + t.raise_count
            &&& t.total_hands == hands_ended(evs)
            &&& t.fold_count + t.call_count + t.raise_count + t.total_hands <= evs.len()
        }),
    decreases evs.len(),
{
    if evs.len() > 0 {
        let pre = evs.drop_last();
        lemma_tracker_counts(pre);
    }
}

} // verus!
