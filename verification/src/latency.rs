//! The unloaded latency: a few probes in a row, of which the first only opens the connection.

use crate::binary64::{in_order, lemma_sorted, sort, sorted, Binary64};
use vstd::prelude::*;
use vstd::relations::sorted_by;

verus! {

/// How many probes are sent.
pub const PROBES: usize = 4;

/// The byte range that a probe asks for.
pub const PROBE_RANGE: &'static str = "bytes=0-0";

/// A latency measurement under way.
#[derive(Debug)]
pub struct LatencyProbe {
    sent: usize,
    kept: Vec<Binary64>,
}

/// A latency measurement under way: how many probes have been answered, and the times that count,
/// in milliseconds.
pub struct ProbeView {
    pub sent: int,
    pub kept: Seq<Binary64>,
}

impl View for LatencyProbe {
    type V = ProbeView;

    closed spec fn view(&self) -> ProbeView {
        ProbeView { sent: self.sent as int, kept: self.kept@ }
    }
}

/// The middle one of an odd number of numbers, the upper of the two middle ones else.
pub open spec fn median(s: Seq<Binary64>) -> Binary64 {
    sorted(s)[s.len() as int / 2]
}

impl ProbeView {
    /// No probe has been answered yet.
    pub open spec fn start() -> ProbeView {
        ProbeView { sent: 0, kept: Seq::empty() }
    }

    /// Probes are still to be sent, and all answers but the first count.
    pub open spec fn wf(self) -> bool {
        &&& 0 <= self.sent < PROBES
        &&& self.kept.len() == if self.sent == 0 {
            0
        } else {
            self.sent - 1
        }
    }

    /// The measurement once a further probe has been answered after `millis`.
    pub open spec fn answered(self, millis: Binary64) -> ProbeView {
        ProbeView {
            sent: self.sent + 1,
            kept: if self.sent > 0 {
                self.kept.push(millis)
            } else {
                self.kept
            },
        }
    }

    /// The latency, in whole milliseconds, once no probe is left to send.
    pub open spec fn outcome(self) -> Option<u64> {
        if self.sent < PROBES {
            None
        } else {
            Some(median(self.kept).nearest() as u64)
        }
    }
}

impl LatencyProbe {
    /// A measurement with no probe answered yet.
    pub fn start() -> (r: LatencyProbe)
        ensures
            r@ == ProbeView::start(),
            r@.wf(),
    {
        let r = LatencyProbe { sent: 0, kept: Vec::new() };
        proof {
            assert(r@.kept =~= Seq::empty());
        }
        r
    }

    /// Takes the time, in milliseconds, that the next probe was answered after. The latency comes
    /// with the last of them.
    pub fn answered(self, millis: Binary64) -> (r: (LatencyProbe, Option<u64>))
        requires
            self@.wf(),
        ensures
            r.0@ == self@.answered(millis),
            r.1 == self@.answered(millis).outcome(),
            r.1 is None ==> r.0@.wf(),
    {
        let sent: usize = self.sent + 1;
        let mut kept = self.kept;
        if sent > 1 {
            kept.push(millis);
        }
        if sent < PROBES {
            (LatencyProbe { sent, kept }, None)
        } else {
            let mut copy: Vec<Binary64> = Vec::new();
            let mut i: usize = 0;
            while i < kept.len()
                invariant
                    i <= kept.len(),
                    copy@ == kept@.take(i as int),
                decreases kept.len() - i,
            {
                copy.push(kept[i]);
                i = i + 1;
            }
            proof {
                assert(copy@ =~= kept@);
                lemma_sorted(kept@, kept@);
            }
            let ordered = sort(copy);
            let latency: u64 = ordered[ordered.len() / 2].to_nearest();
            (LatencyProbe { sent, kept }, Some(latency))
        }
    }
}

/// The first probe only warms up the connection: the latency is the median of the other answers,
/// whatever the first one was.
pub proof fn lemma_first_probe_does_not_count(
    a: Binary64,
    b: Binary64,
    c: Binary64,
    d: Binary64,
)
    ensures
        ProbeView::start().answered(a).answered(b).answered(c).answered(d).outcome() == Some(
            median(seq![b, c, d]).nearest() as u64,
        ),
        ProbeView::start().answered(a).answered(b).answered(c).outcome() is None,
        ProbeView::start().answered(a).answered(b).outcome() is None,
        ProbeView::start().answered(a).outcome() is None,
{
    assert(Seq::<Binary64>::empty().push(b).push(c).push(d) =~= seq![b, c, d]);
}

/// Three answers in order have the second of them as the median of any arrangement.
proof fn lemma_median_in_order(s: Seq<Binary64>, x: Binary64, y: Binary64, z: Binary64)
    requires
        x.rank() <= y.rank() <= z.rank(),
        s == seq![x, y, z] || s == seq![x, z, y] || s == seq![y, x, z] || s == seq![y, z, x] || s
            == seq![z, x, y] || s == seq![z, y, x],
    ensures
        median(s) == y,
{
    broadcast use vstd::seq_lib::group_to_multiset_ensures;
    broadcast use vstd::multiset::group_multiset_axioms;

    let t = seq![x, y, z];
    let e = Seq::<Binary64>::empty();
    assert(t =~= e.push(x).push(y).push(z));
    assert(s =~= e.push(s[0]).push(s[1]).push(s[2]));
    assert(t.to_multiset() =~= s.to_multiset());
    assert(sorted_by(t, in_order()));
    lemma_sorted(s, t);
}

/// The median of three answers is the one of them that lies between the other two.
pub proof fn lemma_median_of_three(b: Binary64, c: Binary64, d: Binary64)
    ensures
        c.rank() <= b.rank() <= d.rank() || d.rank() <= b.rank() <= c.rank() ==> median(
            seq![b, c, d],
        ) == b,
        b.rank() <= c.rank() <= d.rank() || d.rank() <= c.rank() <= b.rank() ==> median(
            seq![b, c, d],
        ) == c,
        b.rank() <= d.rank() <= c.rank() || c.rank() <= d.rank() <= b.rank() ==> median(
            seq![b, c, d],
        ) == d,
{
    let s = seq![b, c, d];
    if c.rank() <= b.rank() <= d.rank() {
        lemma_median_in_order(s, c, b, d);
    }
    if d.rank() <= b.rank() <= c.rank() {
        lemma_median_in_order(s, d, b, c);
    }
    if b.rank() <= c.rank() <= d.rank() {
        lemma_median_in_order(s, b, c, d);
    }
    if d.rank() <= c.rank() <= b.rank() {
        lemma_median_in_order(s, d, c, b);
    }
    if b.rank() <= d.rank() <= c.rank() {
        lemma_median_in_order(s, b, d, c);
    }
    if c.rank() <= d.rank() <= b.rank() {
        lemma_median_in_order(s, c, d, b);
    }
}

} // verus!
