//! Telling single, double and triple clicks apart.
//!
//! The classifier remembers the last few clicks, newest first. A click is
//! the `n`-th of a run when it and the `n - 1` clicks before it follow one
//! another closely, both in place and in time.

use std::collections::VecDeque;
use vstd::prelude::*;
use crate::geometry::{Vec2, UNIT};

verus! {

/// Most clicks that are remembered.
pub const MAX_ENTRIES: usize = 4;

/// Farthest that a click may lie from the one before it and still continue
/// its run: two layout units.
pub const MAX_DISTANCE: u16 = 128;

/// Longest pause, in milliseconds, after which a click still continues the
/// run of the one before it.
pub const MAX_INTERVAL: u64 = 500;

/// One remembered click.
#[derive(Clone, Copy, Debug, PartialEq, Eq, Structural)]
pub struct ClickHistoryEntry {
    /// Where the click fell.
    pub position: Vec2,
    /// When it fell, in milliseconds of a clock that does not run backward.
    pub time: u64,
}

/// Whether `newer` continues the run of `older`: it lies within
/// [`MAX_DISTANCE`] of it and came at most [`MAX_INTERVAL`] later. A click
/// stamped earlier than the one before it counts as simultaneous.
pub open spec fn follows(newer: ClickHistoryEntry, older: ClickHistoryEntry) -> bool {
    &&& newer.position.distance_squared(older.position) <= MAX_DISTANCE * MAX_DISTANCE
    &&& newer.time - older.time <= MAX_INTERVAL
}

/// Whether the newest click of `history` is the `n`-th of a run: there are
/// `n` clicks, and each of the newest `n` follows the one before it.
pub open spec fn nth_click(history: Seq<ClickHistoryEntry>, n: nat) -> bool {
    &&& n <= history.len()
    &&& forall|i: int| 0 <= i < n - 1 ==> follows(#[trigger] history[i], history[i + 1])
}

/// `history` after a click: the click in front, then the newest clicks of
/// before, as many as there is room for.
pub open spec fn recorded(history: Seq<ClickHistoryEntry>, entry: ClickHistoryEntry) -> Seq<
    ClickHistoryEntry,
> {
    let room = MAX_ENTRIES - 1;
    if history.len() <= room {
        seq![entry] + history
    } else {
        seq![entry] + history.take(room)
    }
}

/// How many clicks a click counts for.
#[derive(Clone, Copy, Debug, PartialEq, Eq, Structural)]
pub enum ClickKind {
    /// An isolated click, or the first of a run.
    Single,
    /// The second click of a run.
    Double,
    /// The third click of a run, or a later one.
    Triple,
}

/// The kind of the newest click of a history that is not empty. The longest
/// run decides: a third click is also a second and a first one.
pub open spec fn kind_of(history: Seq<ClickHistoryEntry>) -> ClickKind {
    if nth_click(history, 3) {
        ClickKind::Triple
    } else if nth_click(history, 2) {
        ClickKind::Double
    } else {
        ClickKind::Single
    }
}

/// The last clicks, newest first, never more than [`MAX_ENTRIES`].
#[derive(Debug)]
pub struct ClickHistory {
    history: VecDeque<ClickHistoryEntry>,
}

impl View for ClickHistory {
    type V = Seq<ClickHistoryEntry>;

    closed spec fn view(&self) -> Seq<ClickHistoryEntry> {
        self.history@
    }
}

impl ClickHistory {
    #[verifier::type_invariant]
    spec fn inv(self) -> bool {
        self.history@.len() <= MAX_ENTRIES
    }

    /// A history without clicks.
    pub fn new() -> (history: ClickHistory)
        ensures
            history@ == Seq::<ClickHistoryEntry>::empty(),
    {
        ClickHistory { history: VecDeque::with_capacity(MAX_ENTRIES) }
    }

    /// Number of clicks remembered.
    pub fn len(&self) -> (n: usize)
        ensures
            n == self@.len(),
            n <= MAX_ENTRIES,
    {
        proof {
            use_type_invariant(self);
        }
        self.history.len()
    }

    /// Remembers a click at `position`, made at `time`. The oldest click is
    /// forgotten first where the history is full.
    pub fn record(&mut self, position: Vec2, time: u64)
        ensures
            final(self)@ == recorded(old(self)@, ClickHistoryEntry { position, time }),
            final(self)@.len() <= MAX_ENTRIES,
    {
        proof {
            use_type_invariant(&*self);
        }
        let mut history = VecDeque::new();
        std::mem::swap(&mut history, &mut self.history);
        if history.len() >= MAX_ENTRIES {
            history.pop_back();
        }
        history.push_front(ClickHistoryEntry { position, time });
        assert(history@ =~= recorded(old(self)@, ClickHistoryEntry { position, time }));
        self.history = history;
    }

    /// Whether the newest click is the `n`-th of a run.
    pub fn is_nth_click(&self, n: usize) -> (yes: bool)
        ensures
            yes == nth_click(self@, n as nat),
    {
        proof {
            use_type_invariant(self);
        }
        if self.history.len() < n {
            return false;
        }
        let mut i: usize = 0;
        while i + 1 < n
            invariant
                i <= n <= self.history@.len() <= MAX_ENTRIES,
                forall|j: int| 0 <= j < i ==> follows(#[trigger] self.history@[j], self.history@[j + 1]),
            decreases n - i,
        {
            let newer = self.history[i];
            let older = self.history[i + 1];
            let near = newer.position.within(older.position, MAX_DISTANCE);
            let soon = newer.time <= older.time || newer.time - older.time <= MAX_INTERVAL;
            if !near || !soon {
                assert(!follows(self.history@[i as int], self.history@[i + 1]));
                return false;
            }
            i += 1;
        }
        true
    }

    /// The kind of the newest click, or nothing where no click is
    /// remembered. Longer runs are looked for first.
    pub fn classify(&self) -> (kind: Option<ClickKind>)
        ensures
            kind is Some <==> self@.len() > 0,
            kind matches Some(k) ==> k == kind_of(self@),
    {
        if self.is_nth_click(3) {
            Some(ClickKind::Triple)
        } else if self.is_nth_click(2) {
            Some(ClickKind::Double)
        } else if self.is_nth_click(1) {
            Some(ClickKind::Single)
        } else {
            None
        }
    }
}

impl Default for ClickHistory {
    fn default() -> (history: ClickHistory)
        ensures
            history@ == Seq::<ClickHistoryEntry>::empty(),
    {
        ClickHistory::new()
    }
}

/// A run of `n` clicks holds every shorter run too.
pub proof fn lemma_nth_click_shorter(history: Seq<ClickHistoryEntry>, n: nat, m: nat)
    requires
        nth_click(history, n),
        m <= n,
    ensures
        nth_click(history, m),
{
}

/// Three clicks in a row, each within a layout unit of the one before and at
/// most a tenth of a second after it, make a triple click, whatever was
/// remembered before. A further click more than [`MAX_INTERVAL`] later
/// starts anew: it is not a second click.
pub proof fn lemma_triple_then_pause(
    before: Seq<ClickHistoryEntry>,
    a: ClickHistoryEntry,
    b: ClickHistoryEntry,
    c: ClickHistoryEntry,
    d: ClickHistoryEntry,
)
    requires
        before.len() <= MAX_ENTRIES,
        b.position.distance_squared(a.position) <= UNIT * UNIT,
        c.position.distance_squared(b.position) <= UNIT * UNIT,
        a.time <= b.time <= a.time + 100,
        b.time <= c.time <= b.time + 100,
        d.time > c.time + MAX_INTERVAL,
    ensures
        ({
            let three = recorded(recorded(recorded(before, a), b), c);
            &&& nth_click(three, 3)
            &&& nth_click(three, 2)
            &&& nth_click(three, 1)
            &&& kind_of(three) == ClickKind::Triple
            &&& !nth_click(recorded(three, d), 2)
            &&& kind_of(recorded(three, d)) == ClickKind::Single
        }),
{
    let one = recorded(before, a);
    let two = recorded(one, b);
    let three = recorded(two, c);
    let four = recorded(three, d);
    assert(two[0] == b && two[1] == a);
    assert(three[0] == c && three[1] == b && three[2] == a);
    assert(four[0] == d && four[1] == c);
    assert(!follows(four[0], four[0int + 1]));
}

} // verus!
