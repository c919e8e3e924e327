//! A wall-clock timer with named splits, for instrumenting pipeline stages.
//! What the clock returns is outside any contract; what is tracked — the map
//! from split names to recorded durations — is specified exactly.

use vstd::prelude::*;

verus! {

#[verifier::external_type_specification]
#[verifier::external_body]
pub struct ExInstant(std::time::Instant);

/// Relies on std::time::Instant::now: an opaque reading of a monotonic
/// clock.  Nothing is promised of the value.
pub assume_specification[ std::time::Instant::now ]() -> std::time::Instant;

/// Relies on std::time::Instant::duration_since: the elapsed time between
/// two readings (zero if `earlier` is later).  Nothing is promised of the
/// value.
pub assume_specification[ std::time::Instant::duration_since ](
    this: &std::time::Instant,
    earlier: std::time::Instant,
) -> core::time::Duration;

/// Relies on str's `PartialEq`: two string slices are equal exactly when
/// their character sequences are.
#[verifier::external_body]
fn str_eq(a: &str, b: &str) -> (r: bool)
    ensures
        r == (a@ == b@),
{
    a == b
}

/// The name-to-duration map that a sequence of recorded splits denotes;
/// a later record of the same name overwrites an earlier one.
pub open spec fn splits_map(s: Seq<(String, core::time::Duration)>) -> Map<
    Seq<char>,
    core::time::Duration,
>
    decreases s.len(),
{
    if s.len() == 0 {
        Map::empty()
    } else {
        splits_map(s.drop_last()).insert(s.last().0@, s.last().1)
    }
}

/// A timer that measures the time since it was created or reset, and records
/// named splits: the duration from the previous split (or the start) to the
/// moment the split is taken.
pub struct Timer {
    start: std::time::Instant,
    splits: Vec<(String, core::time::Duration)>,
    last_split: std::time::Instant,
}

impl Timer {
    /// The recorded splits, as a map from name to duration.
    pub closed spec fn splits_view(&self) -> Map<Seq<char>, core::time::Duration> {
        splits_map(self.splits@)
    }

    /// A fresh timer with no splits, started now.
    pub fn new() -> (t: Timer)
        ensures
            t.splits_view() == Map::<Seq<char>, core::time::Duration>::empty(),
    {
        let now = std::time::Instant::now();
        Timer { start: now, splits: Vec::new(), last_split: now }
    }

    /// Records the time since the previous split (or the start) under
    /// `name`, overwriting an earlier split of the same name, and restarts
    /// the split clock.
    pub fn split(&mut self, name: &str)
        ensures
            exists|d: core::time::Duration|
                final(self).splits_view() == old(self).splits_view().insert(name@, d),
    {
        let now = std::time::Instant::now();
        let duration = now.duration_since(self.last_split);
        self.splits.push((name.to_owned(), duration));
        self.last_split = now;
        proof {
            assert(self.splits@.drop_last() =~= old(self).splits@);
            assert(self.splits_view() == old(self).splits_view().insert(name@, duration));
        }
    }

    /// The time since the timer was created or last reset.
    pub fn elapsed(&self) -> core::time::Duration {
        std::time::Instant::now().duration_since(self.start)
    }

    /// The duration recorded under `name`, if a split of that name was
    /// taken since the last reset.
    pub fn get_split(&self, name: &str) -> (r: Option<core::time::Duration>)
        ensures
            match r {
                Some(d) => self.splits_view().contains_key(name@) && self.splits_view()[name@]
                    == d,
                None => !self.splits_view().contains_key(name@),
            },
    {
        let n = self.splits.len();
        let mut i: usize = n;
        proof {
            assert(self.splits@.take(n as int) =~= self.splits@);
        }
        while i > 0
            invariant
                i <= n,
                n == self.splits@.len(),
                splits_map(self.splits@).contains_key(name@) == splits_map(
                    self.splits@.take(i as int),
                ).contains_key(name@),
                splits_map(self.splits@).contains_key(name@) ==> splits_map(
                    self.splits@.take(i as int),
                )[name@] == splits_map(self.splits@)[name@],
            decreases i,
        {
            proof {
                assert(self.splits@.take(i as int).drop_last() =~= self.splits@.take(i - 1));
                assert(self.splits@.take(i as int).last() == self.splits@[i - 1]);
            }
            let hit = str_eq(self.splits[i - 1].0.as_str(), name);
            if hit {
                return Some(self.splits[i - 1].1);
            }
            i = i - 1;
        }
        proof {
            assert(self.splits@.take(0) =~= Seq::<(String, core::time::Duration)>::empty());
        }
        None
    }

    /// Forgets all splits and restarts the timer from now.
    pub fn reset(&mut self)
        ensures
            final(self).splits_view() == Map::<Seq<char>, core::time::Duration>::empty(),
    {
        let now = std::time::Instant::now();
        self.start = now;
        self.last_split = now;
        self.splits.clear();
    }
}

} // verus!
