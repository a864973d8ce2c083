//! Technical indicators computed over series of bars.

use vstd::prelude::*;

verus! {

/// One bar of a price series, held by the integers that order and identify
/// it: its opening time in nanoseconds since the Unix epoch and its volume.
#[derive(Clone, Copy, Debug, PartialEq, Eq, Structural)]
pub struct Bar {
    pub ts_nanos: i64,
    pub volume: u64,
}

/// The bars of `bars` that open after `last` (all of them when `last` is `None`).
pub open spec fn bars_after(bars: Seq<Bar>, last: Option<i64>) -> Seq<Bar> {
    bars.filter(|b: Bar| after(b, last))
}

/// Whether bar `b` opens after the time `last`; every bar does when `last` is `None`.
pub open spec fn after(b: Bar, last: Option<i64>) -> bool {
    match last {
        Some(t) => b.ts_nanos > t,
        None => true,
    }
}

/// Opening times rise strictly along `bars`.
pub open spec fn strictly_increasing(bars: Seq<Bar>) -> bool {
    forall|i: int, j: int| 0 <= i < j < bars.len() ==> bars[i].ts_nanos < bars[j].ts_nanos
}

/// The opening time of the last bar of `bars`, if there is one.
pub open spec fn last_time(bars: Seq<Bar>) -> Option<i64> {
    if bars.len() == 0 {
        None
    } else {
        Some(bars.last().ts_nanos)
    }
}

/// The identifier of the extremum indicator.
pub open spec fn extremum_id() -> Seq<char> {
    "Extremum"@
}

/// The display name of the extremum indicator.
pub open spec fn extremum_name() -> Seq<char> {
    "Extremum"@
}

/// State of the extremum indicator. This is a stand-in: it keeps the bars it
/// has taken in, in order, and computes no extremum of them.
#[derive(Debug)]
pub struct ExtremumData {
    processed: Vec<Bar>,
}

impl ExtremumData {
    /// The bars this indicator has taken in, oldest first.
    pub closed spec fn processed(self) -> Seq<Bar> {
        self.processed@
    }

    /// An indicator that has taken in no bar yet.
    pub fn new() -> (r: Self)
        ensures
            r.processed() == Seq::<Bar>::empty(),
    {
        ExtremumData { processed: Vec::new() }
    }

    /// The bars this indicator has taken in, oldest first.
    pub fn bars(&self) -> (r: &[Bar])
        ensures
            r@ == self.processed(),
    {
        self.processed.as_slice()
    }

    pub fn id(&self) -> (r: &'static str)
        ensures
            r@ == extremum_id(),
    {
        "Extremum"
    }

    pub fn name(&self) -> (r: &'static str)
        ensures
            r@ == extremum_name(),
    {
        "Extremum"
    }

    /// The opening time of the last bar taken in.
    fn last_ts(&self) -> (r: Option<i64>)
        ensures
            r == last_time(self.processed()),
    {
        let n = self.processed.len();
        if n == 0 {
            None
        } else {
            Some(self.processed[n - 1].ts_nanos)
        }
    }

    /// Starts over on `bars`: the indicator then holds exactly these bars.
    pub fn init(&mut self, bars: &[Bar])
        ensures
            final(self).processed() == bars@,
    {
        let mut processed: Vec<Bar> = Vec::new();
        let mut i: usize = 0;
        while i < bars.len()
            invariant
                0 <= i <= bars@.len(),
                processed@ == bars@.take(i as int),
            decreases bars@.len() - i,
        {
            processed.push(bars[i]);
            i = i + 1;
            assert(processed@ =~= bars@.take(i as int));
        }
        assert(bars@.take(bars@.len() as int) =~= bars@);
        self.processed = processed;
    }

    /// Takes in the bars of `bars` that open after the last bar already held.
    pub fn update(&mut self, bars: &[Bar])
        ensures
            final(self).processed() == old(self).processed() + bars_after(
                bars@,
                last_time(old(self).processed()),
            ),
    {
        let last = self.last_ts();
        let ghost start = self.processed@;
        let mut i: usize = 0;
        while i < bars.len()
            invariant
                0 <= i <= bars@.len(),
                last == last_time(start),
                start == old(self).processed(),
                self.processed@ == start + bars_after(bars@.take(i as int), last),
            decreases bars@.len() - i,
        {
            let b = bars[i];
            let newer = match last {
                Some(t) => b.ts_nanos > t,
                None => true,
            };
            proof {
                assert(bars@.take(i + 1) =~= bars@.take(i as int).push(b));
                bars@.take(i as int).lemma_filter_push(b, |x: Bar| after(x, last));
            }
            if newer {
                self.processed.push(b);
                assert(self.processed@ =~= start + bars_after(bars@.take(i + 1), last));
            }
            i = i + 1;
        }
        assert(bars@.take(bars@.len() as int) =~= bars@);
    }
}

/// No bar of `bars` opens after `t` when none opens later than `t`.
proof fn lemma_none_after(bars: Seq<Bar>, t: i64)
    requires
        forall|i: int| 0 <= i < bars.len() ==> bars[i].ts_nanos <= t,
    ensures
        bars_after(bars, Some(t)) == Seq::<Bar>::empty(),
    decreases bars.len(),
{
    reveal(Seq::filter);
    if bars.len() > 0 {
        lemma_none_after(bars.drop_last(), t);
    }
}

/// Filtering keeps every bar when every bar opens after `last`.
proof fn lemma_all_after(bars: Seq<Bar>, last: Option<i64>)
    requires
        forall|i: int| 0 <= i < bars.len() ==> after(#[trigger] bars[i], last),
    ensures
        bars_after(bars, last) == bars,
    decreases bars.len(),
{
    reveal(Seq::filter);
    if bars.len() > 0 {
        lemma_all_after(bars.drop_last(), last);
        assert(bars.drop_last().push(bars.last()) =~= bars);
    }
}

/// Initialising on `a` and then updating on `a + b` leaves the indicator
/// holding `a + b`, as initialising on `a + b` would, when opening times rise
/// strictly along `a + b`.
pub proof fn lemma_update_continues_init(a: Seq<Bar>, b: Seq<Bar>)
    requires
        strictly_increasing(a + b),
    ensures
        a + bars_after(a + b, last_time(a)) == a + b,
{
    let last = last_time(a);
    Seq::filter_distributes_over_add(a, b, |x: Bar| after(x, last));
    if a.len() == 0 {
        lemma_all_after(b, last);
        assert(a + b =~= b);
        lemma_all_after(a + b, last);
    } else {
        let t = a.last().ts_nanos;
        assert forall|i: int| 0 <= i < a.len() implies a[i].ts_nanos <= t by {
            if i < a.len() - 1 {
                assert((a + b)[i] == a[i] && (a + b)[a.len() - 1] == a.last());
            }
        }
        lemma_none_after(a, t);
        assert forall|i: int| 0 <= i < b.len() implies after(#[trigger] b[i], last) by {
            assert((a + b)[a.len() + i] == b[i] && (a + b)[a.len() - 1] == a.last());
        }
        lemma_all_after(b, last);
        assert(Seq::<Bar>::empty() + b =~= b);
    }
}

/// Updating twice on the same bars leaves the indicator as one update does,
/// when opening times rise strictly along those bars.
pub proof fn lemma_update_idempotent(held: Seq<Bar>, bars: Seq<Bar>)
    requires
        strictly_increasing(bars),
    ensures
        ({
            let once = held + bars_after(bars, last_time(held));
            once + bars_after(bars, last_time(once)) == once
        }),
{
    let last = last_time(held);
    let fresh = bars_after(bars, last);
    let once = held + fresh;
    if bars.len() == 0 {
        reveal(Seq::filter);
        assert(once =~= held);
    } else if after(bars.last(), last) {
        reveal(Seq::filter);
        assert(fresh == bars.drop_last().filter(|x: Bar| after(x, last)).push(bars.last()));
        assert(once.last() == bars.last());
        let t = bars.last().ts_nanos;
        assert forall|i: int| 0 <= i < bars.len() implies bars[i].ts_nanos <= t by {
            if i < bars.len() - 1 {
                assert(bars[i].ts_nanos < bars[bars.len() - 1].ts_nanos);
            }
        }
        lemma_none_after(bars, t);
        assert(once + Seq::<Bar>::empty() =~= once);
    } else {
        let t = last->0;
        assert forall|i: int| 0 <= i < bars.len() implies bars[i].ts_nanos <= t by {
            if i < bars.len() - 1 {
                assert(bars[i].ts_nanos < bars[bars.len() - 1].ts_nanos);
            }
        }
        lemma_none_after(bars, t);
        assert(once =~= held);
        assert(once + Seq::<Bar>::empty() =~= once);
    }
}

/// A technical indicator computed over a series of bars.
#[derive(Debug)]
pub enum Indicator {
    Extremum(ExtremumData),
}

impl Indicator {
    /// The identifier of this indicator's kind.
    pub open spec fn spec_id(self) -> Seq<char> {
        match self {
            Indicator::Extremum(_) => extremum_id(),
        }
    }

    /// The display name of this indicator's kind.
    pub open spec fn spec_name(self) -> Seq<char> {
        match self {
            Indicator::Extremum(_) => extremum_name(),
        }
    }

    /// The bars this indicator has taken in, oldest first.
    pub open spec fn processed(self) -> Seq<Bar> {
        match self {
            Indicator::Extremum(d) => d.processed(),
        }
    }

    /// The bars this indicator has taken in, oldest first.
    pub fn bars(&self) -> (r: &[Bar])
        ensures
            r@ == self.processed(),
    {
        match self {
            Self::Extremum(i) => i.bars(),
        }
    }

    pub fn id(&self) -> (r: &'static str)
        ensures
            r@ == self.spec_id(),
    {
        match self {
            Self::Extremum(i) => i.id(),
        }
    }

    pub fn name(&self) -> (r: &'static str)
        ensures
            r@ == self.spec_name(),
    {
        match self {
            Self::Extremum(i) => i.name(),
        }
    }

    pub fn init(&mut self, bars: &[Bar])
        ensures
            final(self).processed() == bars@,
            final(self).spec_id() == old(self).spec_id(),
            final(self).spec_name() == old(self).spec_name(),
    {
        match self {
            Self::Extremum(i) => i.init(bars),
        }
    }

    pub fn update(&mut self, bars: &[Bar])
        ensures
            final(self).processed() == old(self).processed() + bars_after(
                bars@,
                last_time(old(self).processed()),
            ),
            final(self).spec_id() == old(self).spec_id(),
            final(self).spec_name() == old(self).spec_name(),
    {
        match self {
            Self::Extremum(i) => i.update(bars),
        }
    }
}

} // verus!
