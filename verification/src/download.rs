//! The download: which server each worker loads from, how the speed is read off a sliding window,
//! and which readings count.

use crate::binary64::{
    in_order, lemma_patterns, lemma_sorted, sort, sorted, Binary64,
};
use crate::speedtest::{Target, TargetView};
use std::collections::VecDeque;
use vstd::prelude::*;
use vstd::relations::sorted_by;

verus! {

/// How many downloads run side by side.
pub const WORKERS: usize = 6;

/// A second, in nanoseconds.
pub const SECOND: u128 = 1_000_000_000;

/// How long the download runs, in nanoseconds.
pub const TEST_DURATION: u128 = 10_000_000_000;

/// From when on a reading counts, in nanoseconds.
pub const WARM_UP: u128 = 2_000_000_000;

/// How long the pause between two readings is, in milliseconds.
pub const TICK_MILLIS: u64 = 200;

/// What came in over a stretch of time.
#[derive(Clone, Copy, Debug, PartialEq, Eq, Structural)]
pub struct Stretch {
    /// The bytes.
    pub bytes: u64,
    /// The time, in nanoseconds, above zero.
    pub nanos: u128,
}

/// The state of a running download: the recent counts, each with the moment it was taken at in
/// nanoseconds, and the readings that count.
#[derive(Debug)]
pub struct Meter {
    window: VecDeque<(u128, u64)>,
    stable: Vec<Binary64>,
}

/// The state of a running download.
pub struct MeterView {
    pub window: Seq<(u128, u64)>,
    pub stable: Seq<Binary64>,
}

impl View for Meter {
    type V = MeterView;

    closed spec fn view(&self) -> MeterView {
        MeterView { window: self.window@, stable: self.stable@ }
    }
}

/// How much time lies between `past` and `now`; none if `now` is the earlier one.
pub open spec fn since(past: u128, now: u128) -> u128 {
    if past <= now {
        (now - past) as u128
    } else {
        0
    }
}

/// The window without the counts from its front that are older than a second, but with at least
/// two counts where it had them.
pub open spec fn trimmed(window: Seq<(u128, u64)>, now: u128) -> Seq<(u128, u64)>
    decreases window.len(),
{
    if window.len() > 2 && since(window[0].0, now) > SECOND {
        trimmed(window.drop_first(), now)
    } else {
        window
    }
}

/// What came in since the oldest count of the window, if that is not from this very moment.
pub open spec fn stretch_of(window: Seq<(u128, u64)>, now: u128, total: u64) -> Option<Stretch> {
    let nanos = since(window[0].0, now);
    if nanos == 0 {
        None
    } else {
        Some(Stretch { bytes: (total - window[0].1) as u64, nanos })
    }
}

impl MeterView {
    /// Nothing has been counted yet.
    pub open spec fn start() -> MeterView {
        MeterView { window: Seq::empty(), stable: Seq::empty() }
    }

    /// The counts never fall.
    pub open spec fn wf(self) -> bool {
        forall|i: int, j: int|
            0 <= i < j < self.window.len() ==> self.window[i].1 <= self.window[j].1
    }

    /// The latest count.
    pub open spec fn latest(self) -> u64 {
        if self.window.len() == 0 {
            0
        } else {
            self.window.last().1
        }
    }

    /// The state once `total` bytes have been counted at `now`.
    pub open spec fn observed(self, now: u128, total: u64) -> MeterView {
        MeterView { window: trimmed(self.window.push((now, total)), now), ..self }
    }

    /// Whether no time has passed since the oldest count of the window.
    pub open spec fn idle(self) -> bool {
        self.window.len() > 0 && stretch_of(
            self.window,
            self.window.last().0,
            self.window.last().1,
        ) is None
    }

    /// The speed since the oldest count of the window, if it was worked out as `speed`: where no
    /// time has passed it is zero.
    pub open spec fn rated(self, speed: Binary64) -> Binary64 {
        if self.idle() {
            Binary64 { bits: 0 }
        } else {
            speed
        }
    }

    /// Whether a reading counts: the download has warmed up and something has come in.
    pub open spec fn counts(elapsed: u128, speed: Binary64) -> bool {
        elapsed >= WARM_UP && !speed.nan() && speed.value() > 0
    }

    /// The state once the speed has been read.
    pub open spec fn recorded(self, elapsed: u128, speed: Binary64) -> MeterView {
        MeterView {
            stable: if Self::counts(elapsed, speed) {
                self.stable.push(speed)
            } else {
                self.stable
            },
            ..self
        }
    }
}

/// The readings in ascending order, without the tenth of them at either end.
pub open spec fn kept(stable: Seq<Binary64>) -> Seq<Binary64> {
    let cut = stable.len() as int / 10;
    sorted(stable).subrange(cut, stable.len() - cut)
}

impl Meter {
    /// A download that nothing has been counted of yet.
    pub fn start() -> (r: Meter)
        ensures
            r@ == MeterView::start(),
            r@.wf(),
    {
        let r = Meter { window: VecDeque::new(), stable: Vec::new() };
        proof {
            assert(r@.window =~= Seq::empty());
            assert(r@.stable =~= Seq::empty());
        }
        r
    }

    /// The latest count.
    pub fn latest(&self) -> (r: u64)
        ensures
            r == self@.latest(),
    {
        let n: usize = self.window.len();
        if n == 0 {
            0
        } else {
            self.window[n - 1].1
        }
    }

    /// Takes the count of all bytes so far and tells what came in over the last second, or since
    /// the count before where that is longer ago. Nothing, if no time has passed.
    pub fn observe(&mut self, now: u128, total: u64) -> (r: Option<Stretch>)
        requires
            old(self)@.wf(),
            old(self)@.latest() <= total,
        ensures
            final(self)@ == old(self)@.observed(now, total),
            final(self)@.wf(),
            final(self)@.latest() == total,
            r == stretch_of(final(self)@.window, now, total),
            r is None <==> now <= final(self)@.window[0].0,
            r matches Some(stretch) ==> stretch.bytes + final(self)@.window[0].1 == total
                && stretch.nanos + final(self)@.window[0].0 == now,
    {
        let ghost full = self.window@.push((now, total));
        let ghost stable = self.stable@;
        self.window.push_back((now, total));
        loop
            invariant
                self.window@.len() > 0,
                self.window@.last() == (now, total),
                self.stable@ == stable,
                trimmed(self.window@, now) == trimmed(full, now),
                forall|i: int, j: int|
                    0 <= i < j < self.window@.len() ==> self.window@[i].1 <= self.window@[j].1,
            ensures
                self.window@ == trimmed(full, now),
            decreases self.window@.len(),
        {
            if self.window.len() <= 2 {
                break;
            }
            let past: u128 = self.window[0].0;
            if now <= past || now - past <= SECOND {
                break;
            }
            proof {
                assert(self.window@.subrange(1, self.window@.len() as int)
                    =~= self.window@.drop_first());
            }
            self.window.pop_front();
        }
        let front: (u128, u64) = self.window[0];
        proof {
            let w = self.window@;
            assert(w[0].1 <= w[w.len() - 1].1);
        }
        if now <= front.0 {
            None
        } else {
            Some(Stretch { bytes: total - front.1, nanos: now - front.0 })
        }
    }

    /// The speed since the oldest count of the window, if it was worked out as `speed`: where no
    /// time has passed it is zero.
    pub fn rate(&self, speed: Binary64) -> (r: Binary64)
        ensures
            r == self@.rated(speed),
    {
        let n: usize = self.window.len();
        if n > 0 && self.window[n - 1].0 <= self.window[0].0 {
            Binary64 { bits: 0 }
        } else {
            speed
        }
    }

    /// Takes the speed that was read when the download had been running for `elapsed`, and tells
    /// whether it has run long enough.
    pub fn record(&mut self, elapsed: u128, speed: Binary64) -> (r: bool)
        ensures
            final(self)@ == old(self)@.recorded(elapsed, speed),
            r == (elapsed >= TEST_DURATION),
    {
        if elapsed >= WARM_UP && speed.is_positive() {
            self.stable.push(speed);
        }
        elapsed >= TEST_DURATION
    }

    /// The readings whose mean is the speed of the download; none if no reading counts.
    pub fn finish(self) -> (r: Option<Vec<Binary64>>)
        ensures
            r is None <==> self@.stable.len() == 0,
            r matches Some(readings) ==> readings@ == kept(self@.stable),
    {
        let n: usize = self.stable.len();
        if n == 0 {
            return None;
        }
        proof {
            lemma_sorted(self@.stable, self@.stable);
        }
        let ordered = sort(self.stable);
        let cut: usize = n / 10;
        let mut readings: Vec<Binary64> = Vec::new();
        let mut i: usize = cut;
        while i < n - cut
            invariant
                cut == n / 10,
                n == ordered.len(),
                n > 0,
                cut <= i <= n - cut,
                readings@ == ordered@.subrange(cut as int, i as int),
            decreases n - cut - i,
        {
            readings.push(ordered[i]);
            proof {
                assert(ordered@.subrange(cut as int, i + 1) =~= ordered@.subrange(
                    cut as int,
                    i as int,
                ).push(ordered@[i as int]));
            }
            i = i + 1;
        }
        Some(readings)
    }
}

/// After a count, the window ends with it, holds only counts it held before, keeps them in order,
/// and reaches back no further than a second, unless it is down to two counts. Whatever it drops
/// is older than a second.
pub proof fn lemma_window(window: Seq<(u128, u64)>, now: u128)
    ensures
        trimmed(window, now).is_suffix_of(window),
        trimmed(window, now).len() > 2 ==> since(trimmed(window, now)[0].0, now) <= SECOND,
        window.len() >= 2 ==> trimmed(window, now).len() >= 2,
        window.len() > 0 ==> trimmed(window, now).len() > 0 && trimmed(window, now).last()
            == window.last(),
        forall|i: int|
            0 <= i < window.len() - trimmed(window, now).len() ==> since(
                (#[trigger] window[i]).0,
                now,
            ) > SECOND,
    decreases window.len(),
{
    if window.len() > 2 && since(window[0].0, now) > SECOND {
        let rest = window.drop_first();
        lemma_window(rest, now);
        let t = trimmed(rest, now);
        assert(t =~= window.subrange(window.len() - t.len(), window.len() as int));
        assert forall|i: int| 0 <= i < window.len() - t.len() implies since(
            (#[trigger] window[i]).0,
            now,
        ) > SECOND by {
            if i > 0 {
                assert(window[i] == rest[i - 1]);
            }
        }
    } else {
        assert(window =~= window.subrange(0, window.len() as int));
    }
}

/// Dropping the ends never drops everything: one reading is left at least, more than three
/// quarters of them are, and they are in order.
pub proof fn lemma_kept(stable: Seq<Binary64>)
    requires
        stable.len() > 0,
    ensures
        kept(stable).len() > 0,
        4 * kept(stable).len() > 3 * stable.len(),
        sorted_by(kept(stable), in_order()),
        forall|x: Binary64| #[trigger] kept(stable).contains(x) ==> stable.contains(x),
{
    broadcast use vstd::seq_lib::group_to_multiset_ensures;

    lemma_sorted(stable, stable);
    let k = kept(stable);
    let cut = stable.len() as int / 10;
    assert forall|i: int, j: int| 0 <= i < j < k.len() implies #[trigger] in_order()(k[i], k[j]) by {
        assert(in_order()(sorted(stable)[i + cut], sorted(stable)[j + cut]));
    }
    assert forall|x: Binary64| #[trigger] k.contains(x) implies stable.contains(x) by {
        let i = choose|i: int| 0 <= i < k.len() && k[i] == x;
        assert(sorted(stable)[i + cut] == x);
        assert(sorted(stable).contains(x));
        assert(sorted(stable).to_multiset().count(x) > 0);
    }
}

/// The address that worker number `worker` loads from: the servers take turns.
pub open spec fn worker_address(targets: Seq<TargetView>, worker: int) -> Seq<char> {
    targets[worker % targets.len() as int].url
}

/// The addresses that the workers load from, one for each.
pub fn worker_urls(targets: &Vec<Target>) -> (r: Vec<String>)
    requires
        targets.len() > 0,
    ensures
        r.len() == WORKERS,
        forall|w: int|
            0 <= w < WORKERS ==> #[trigger] r@[w]@ == worker_address(
                targets@.map_values(|t: Target| t@),
                w,
            ),
{
    let mut r: Vec<String> = Vec::new();
    let mut w: usize = 0;
    while w < WORKERS
        invariant
            targets.len() > 0,
            w <= WORKERS,
            r.len() == w,
            forall|v: int|
                0 <= v < w ==> #[trigger] r@[v]@ == worker_address(
                    targets@.map_values(|t: Target| t@),
                    v,
                ),
        decreases WORKERS - w,
    {
        r.push(targets[w % targets.len()].url.clone());
        w = w + 1;
    }
    r
}

/// What a worker does next.
#[derive(Clone, Copy, Debug, PartialEq, Eq, Structural)]
pub enum WorkerStep {
    /// Ask for the file again, from its beginning.
    Request,
    /// Read on in the answer.
    Read,
    /// Leave.
    Quit,
}

/// What a worker does next, once it has been told whether to stop: `streaming` while the answer
/// to its request goes on.
pub fn worker_step(streaming: bool, stop: bool) -> (r: WorkerStep)
    ensures
        stop <==> r is Quit,
        !stop && streaming <==> r is Read,
        !stop && !streaming <==> r is Request,
{
    if stop {
        WorkerStep::Quit
    } else if streaming {
        WorkerStep::Read
    } else {
        WorkerStep::Request
    }
}

/// What is handed out for rating covers exactly what came in: with the count at the front of the
/// window its bytes make up the new total, and with the moment there its time makes up now. It is
/// handed out exactly where time has passed since then.
pub proof fn lemma_stretch(window: Seq<(u128, u64)>, now: u128, total: u64)
    requires
        window.len() > 0,
        window[0].1 <= total,
    ensures
        now <= window[0].0 ==> stretch_of(window, now, total) is None,
        window[0].0 < now ==> (stretch_of(window, now, total) matches Some(stretch) && stretch.bytes
            + window[0].1 == total && stretch.nanos + window[0].0 == now),
{
}

/// Whether `gone` is how many counts have to go from the front of `all` at `now`: those that are
/// more than a second old, until one is younger or two are left.
pub open spec fn have_to_go(all: Seq<(u128, u64)>, now: u128, gone: int) -> bool {
    &&& 0 <= gone < all.len()
    &&& gone == 0 || gone <= all.len() - 2
    &&& forall|i: int| 0 <= i < gone ==> now - (#[trigger] all[i]).0 > 1_000_000_000
    &&& gone < all.len() - 2 ==> now - all[gone].0 <= 1_000_000_000
}

/// A count is put behind the others, and from the front those go that are more than a second old,
/// until one is younger or two are left. The readings stay.
pub proof fn lemma_observed(meter: MeterView, now: u128, total: u64)
    ensures
        meter.observed(now, total).stable == meter.stable,
        exists|gone: int| #[trigger]
            have_to_go(meter.window.push((now, total)), now, gone) && meter.observed(
                now,
                total,
            ).window == meter.window.push((now, total)).skip(gone),
{
    let all = meter.window.push((now, total));
    let window = meter.observed(now, total).window;
    lemma_window(all, now);
    let gone = all.len() - window.len();
    assert(window =~= all.skip(gone)) by {
        assert(window =~= all.subrange(gone, all.len() as int));
    }
    assert forall|i: int| 0 <= i < gone implies now - (#[trigger] all[i]).0 > 1_000_000_000 by {
        assert(since(all[i].0, now) > SECOND);
    }
    if all.len() < 2 {
        assert(gone == 0);
    }
    if gone < all.len() - 2 {
        assert(window[0] == all[gone]);
    }
    assert(have_to_go(all, now, gone));
}

/// A reading is kept exactly if it was taken two seconds into the download or later and is a number above zero,
/// which is told by its bits; it goes behind the others, and the window stays.
pub proof fn lemma_recorded(meter: MeterView, elapsed: u128, speed: Binary64)
    ensures
        meter.recorded(elapsed, speed).window == meter.window,
        meter.recorded(elapsed, speed).stable == if elapsed >= 2_000_000_000 && 0 < speed.bits
            <= 0x7ff0_0000_0000_0000 {
            meter.stable.push(speed)
        } else {
            meter.stable
        },
{
    lemma_patterns(speed);
}

/// The speed that was worked out stands where time has passed between the first and the last
/// count of the window; else it is zero, whatever was worked out.
pub proof fn lemma_rated(meter: MeterView, speed: Binary64)
    requires
        meter.window.len() > 0,
    ensures
        meter.window[0].0 < meter.window.last().0 ==> meter.rated(speed) == speed,
        meter.window[0].0 >= meter.window.last().0 ==> meter.rated(speed).bits == 0,
{
}

/// Whether `low`, `middle` and `high` are together the numbers of `all` in ascending order, `low`
/// and `high` being a tenth of them each, rounded down.
pub open spec fn is_cut(
    low: Seq<Binary64>,
    middle: Seq<Binary64>,
    high: Seq<Binary64>,
    all: Seq<Binary64>,
) -> bool {
    let whole = low + middle + high;
    &&& whole.to_multiset() == all.to_multiset()
    &&& forall|i: int, j: int|
        0 <= i < j < whole.len() ==> (#[trigger] whole[i]).rank() <= (#[trigger] whole[j]).rank()
    &&& low.len() == high.len()
    &&& 10 * low.len() <= all.len() < 10 * low.len() + 10
}

/// Of the readings exactly the lowest tenth and the highest tenth are left out, each rounded down,
/// and the others stay, in ascending order.
pub proof fn lemma_kept_is_the_middle(stable: Seq<Binary64>)
    ensures
        exists|low: Seq<Binary64>, high: Seq<Binary64>| #[trigger]
            is_cut(low, kept(stable), high, stable),
        kept(stable).len() == stable.len() - 2 * (stable.len() / 10),
{
    lemma_sorted(stable, stable);
    let n = stable.len() as int;
    let cut = n / 10;
    let s = sorted(stable);
    let low = s.take(cut);
    let high = s.skip(n - cut);
    let whole = low + kept(stable) + high;
    assert(whole =~= s);
    assert forall|i: int, j: int| 0 <= i < j < whole.len() implies (#[trigger] whole[i]).rank() <= (
    #[trigger] whole[j]).rank() by {
        assert(in_order()(s[i], s[j]));
    }
    assert(is_cut(low, kept(stable), high, stable));
}

/// There is only one way to cut: whatever is the middle of some readings is what is kept of them.
pub proof fn lemma_middle_is_kept(
    low: Seq<Binary64>,
    middle: Seq<Binary64>,
    high: Seq<Binary64>,
    stable: Seq<Binary64>,
)
    requires
        is_cut(low, middle, high, stable),
    ensures
        middle == kept(stable),
{
    broadcast use vstd::seq_lib::group_to_multiset_ensures;

    let whole = low + middle + high;
    assert forall|i: int, j: int| 0 <= i < j < whole.len() implies #[trigger] in_order()(
        whole[i],
        whole[j],
    ) by {
        assert(whole[i].rank() <= whole[j].rank());
    }
    assert(sorted_by(whole, in_order()));
    lemma_sorted(stable, whole);
    assert(whole.len() == stable.len());
    assert(kept(stable) =~= middle);
}

/// The servers take turns: the workers begin with the first, each takes the one behind that of the
/// worker before, and behind the last comes the first again.
pub proof fn lemma_servers_take_turns(targets: Seq<TargetView>, worker: int)
    requires
        targets.len() > 0,
        0 <= worker,
    ensures
        worker < targets.len() ==> worker_address(targets, worker) == targets[worker].url,
        worker_address(targets, worker + targets.len()) == worker_address(targets, worker),
{
    let n = targets.len() as int;
    vstd::arithmetic::div_mod::lemma_mod_add_multiples_vanish(worker, n);
    if worker < n {
        vstd::arithmetic::div_mod::lemma_small_mod(worker as nat, n as nat);
    }
    assert((n + worker) % n == worker % n);
}

/// The speed is read five times a second, fifty times in the time of a test, and the first ten of
/// these readings do not count.
pub proof fn lemma_pace()
    ensures
        5 * TICK_MILLIS * 1_000_000 == SECOND,
        50 * TICK_MILLIS * 1_000_000 == TEST_DURATION,
        10 * TICK_MILLIS * 1_000_000 == WARM_UP,
{
}

} // verus!
