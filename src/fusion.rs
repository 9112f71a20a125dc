//! Decisions of the fusion loop: the session reference, which ticks run the
//! filter, which sensors take part in an update, and the tick cadence.
use vstd::prelude::*;
use crate::registry::Entry;

verus! {

/// The fusion loop runs once per this many nanoseconds.
pub const TICK_PERIOD_NS: u64 = 50_000_000;

/// The filter update needs at least this many admissible sensors.
pub const MIN_SENSORS: usize = 3;

/// What one tick of the fusion loop does after taking its snapshot.
#[derive(Clone, Copy, Debug, PartialEq, Eq)]
pub enum TickAction {
    /// No report sees the target: the filter is left alone.
    NoDetection,
    /// The target is seen by fewer than `MIN_SENSORS` modules.
    TooFewModules,
    /// Predict and update the filter, then publish.
    Fuse,
}

pub open spec fn has_detection<P>(s: Seq<Entry<P>>) -> bool {
    exists|i: int| 0 <= i < s.len() && #[trigger] s[i].module.drone
}

pub open spec fn tick_action<P>(s: Seq<Entry<P>>) -> TickAction {
    if !has_detection(s) {
        TickAction::NoDetection
    } else if s.len() < MIN_SENSORS {
        TickAction::TooFewModules
    } else {
        TickAction::Fuse
    }
}

/// The fusion session: the reference point of the local frame, taken from
/// the first snapshot that holds a report and kept from then on.
pub struct Session<P> {
    reference: Option<P>,
}

impl<P> View for Session<P> {
    type V = Option<P>;

    closed spec fn view(&self) -> Option<P> {
        self.reference
    }
}

impl<P: Copy> Session<P> {
    pub fn new() -> (r: Self)
        ensures
            r@ is None,
    {
        Session { reference: None }
    }

    /// The reading the local frame is anchored at, once chosen.
    pub fn reference(&self) -> (r: Option<P>)
        ensures
            r == self@,
    {
        self.reference
    }

    /// Plans one tick on a snapshot of fresh reports: anchors the frame at
    /// the first report if no anchor is set yet, and says whether the filter
    /// runs.
    pub fn tick(&mut self, snapshot: &Vec<Entry<P>>) -> (a: TickAction)
        ensures
            old(self)@ is Some ==> final(self)@ == old(self)@,
            old(self)@ is None && snapshot@.len() > 0 ==> final(self)@ == Some(
                snapshot@[0].module.reading,
            ),
            old(self)@ is None && snapshot@.len() == 0 ==> final(self)@ is None,
            a == tick_action(snapshot@),
            a == TickAction::Fuse ==> final(self)@ is Some,
    {
        if self.reference.is_none() && snapshot.len() > 0 {
            self.reference = Some(snapshot[0].module.reading);
        }
        let n = snapshot.len();
        let mut detection = false;
        let mut i: usize = 0;
        while i < n
            invariant
                n == snapshot@.len(),
                0 <= i <= n,
                detection <==> exists|k: int| 0 <= k < i && #[trigger] snapshot@[k].module.drone,
            decreases n - i,
        {
            if snapshot[i].module.drone {
                detection = true;
            }
            i += 1;
        }
        if !detection {
            TickAction::NoDetection
        } else if n < MIN_SENSORS {
            TickAction::TooFewModules
        } else {
            TickAction::Fuse
        }
    }
}

/// How long to sleep after a tick that took `elapsed`: the rest of the
/// period, or nothing once it is used up.
pub fn sleep_budget(period: u64, elapsed: u64) -> (r: u64)
    ensures
        r == if elapsed < period {
            period - elapsed
        } else {
            0
        },
{
    if elapsed < period {
        period - elapsed
    } else {
        0
    }
}

/// The positions of the admissible sensors, in order.
pub open spec fn admitted_positions(admissible: Seq<bool>) -> Seq<int>
    decreases admissible.len(),
{
    if admissible.len() == 0 {
        Seq::empty()
    } else {
        let p = admitted_positions(admissible.drop_last());
        if admissible.last() {
            p.push(admissible.len() - 1)
        } else {
            p
        }
    }
}

/// The sensors that an update uses, given which of them are admissible
/// (positive range, within the cap if there is one): their positions, or
/// `None` where fewer than `MIN_SENSORS` are admissible and the update
/// keeps the prediction.
pub fn select_measurements(admissible: &Vec<bool>) -> (r: Option<Vec<usize>>)
    ensures
        r is None <==> admitted_positions(admissible@).len() < MIN_SENSORS,
        r matches Some(v) ==> v@.map_values(|k: usize| k as int) == admitted_positions(
            admissible@,
        ),
{
    let n = admissible.len();
    let mut picked: Vec<usize> = Vec::new();
    let mut i: usize = 0;
    while i < n
        invariant
            n == admissible@.len(),
            0 <= i <= n,
            picked@.map_values(|k: usize| k as int) == admitted_positions(
                admissible@.subrange(0, i as int),
            ),
        decreases n - i,
    {
        let ghost before = picked@.map_values(|k: usize| k as int);
        proof {
            let next = admissible@.subrange(0, i + 1);
            assert(next.drop_last() =~= admissible@.subrange(0, i as int));
            assert(next.last() == admissible@[i as int]);
        }
        if admissible[i] {
            picked.push(i);
            proof {
                assert(picked@.map_values(|k: usize| k as int) =~= before.push(i as int));
            }
        }
        i += 1;
    }
    proof {
        assert(admissible@.subrange(0, n as int) =~= admissible@);
    }
    if picked.len() < MIN_SENSORS {
        None
    } else {
        Some(picked)
    }
}

} // verus!
