//! Releasing finished segments in the order in which they were spoken.
//!
//! Every segment is recognised on its own, so a short one is often finished while a longer one
//! before it is not. A finished segment waits for those before it, but not for ever.

use crate::audio::channel::CaptureChannel;
use crate::audio::transcript::TranscriptSegment;
use vstd::prelude::*;

verus! {

/// How long, in milliseconds, a finished segment waits for one before it.
pub const ORDER_HOLD_LIMIT_MS: u64 = 3_000;

/// A finished segment that waits.
#[derive(Debug)]
pub struct HeldSegment {
    pub segment: TranscriptSegment,
    /// When it was finished, in milliseconds.
    pub finished_at_ms: u64,
}

/// The segments of one channel. All are known by the time at which they start.
#[derive(Debug)]
pub struct ChannelOrder {
    /// The starts of the segments that are being recognised.
    pub in_flight: Vec<u64>,
    /// The finished segments that wait, by their starts, in order and each start once.
    pub held: Vec<(u64, HeldSegment)>,
}

/// The segments of both channels, each in an order of its own: the channels count their time from
/// different moments.
#[derive(Debug)]
pub struct TranscriptOrderGate {
    pub system: ChannelOrder,
    pub microphone: ChannelOrder,
}

// What the operations mean.

/// The earliest of the given starts, or the latest there can be where there is none.
pub open spec fn earliest(starts: Seq<u64>) -> u64
    decreases starts.len(),
{
    if starts.len() == 0 {
        u64::MAX
    } else {
        let rest = earliest(starts.drop_last());
        if starts.last() < rest {
            starts.last()
        } else {
            rest
        }
    }
}

/// The place of the first of the given starts that is `start`, from `from` on.
pub open spec fn place_of(starts: Seq<u64>, start: u64, from: int) -> Option<int>
    decreases starts.len() - from,
{
    if from < 0 || from >= starts.len() {
        None
    } else if starts[from] == start {
        Some(from)
    } else {
        place_of(starts, start, from + 1)
    }
}

/// The starts without the first that is `start`.
pub open spec fn without(starts: Seq<u64>, start: u64) -> Seq<u64> {
    match place_of(starts, start, 0) {
        Some(i) => starts.remove(i),
        None => starts,
    }
}

/// The starts are in order, and each stands once.
pub open spec fn ascending(held: Seq<(u64, HeldSegment)>) -> bool {
    forall|i: int, j: int| 0 <= i < j < held.len() ==> (#[trigger] held[i]).0 < (#[trigger] held[j]).0
}

/// How many of the first waiting segments start before `start`.
pub open spec fn count_before(held: Seq<(u64, HeldSegment)>, start: u64) -> nat
    decreases held.len(),
{
    if held.len() == 0 || held[0].0 >= start {
        0
    } else {
        1 + count_before(held.skip(1), start)
    }
}

/// The waiting segments with one more in its place. One with the same start is replaced.
pub open spec fn with_held(
    held: Seq<(u64, HeldSegment)>,
    start: u64,
    segment: HeldSegment,
) -> Seq<(u64, HeldSegment)> {
    let n = count_before(held, start) as int;
    let rest = if n < held.len() && held[n].0 == start {
        held.skip(n + 1)
    } else {
        held.skip(n)
    };
    held.take(n).push((start, segment)) + rest
}

/// How many of the first waiting segments start at `bound` or before.
pub open spec fn count_ready(held: Seq<(u64, HeldSegment)>, bound: u64) -> nat
    decreases held.len(),
{
    if held.len() == 0 || held[0].0 > bound {
        0
    } else {
        1 + count_ready(held.skip(1), bound)
    }
}

/// The segments themselves.
pub open spec fn segments(held: Seq<(u64, HeldSegment)>) -> Seq<TranscriptSegment> {
    held.map_values(|entry: (u64, HeldSegment)| entry.1.segment)
}

/// The segment has waited long enough.
pub open spec fn expired(held: HeldSegment, now_ms: u64) -> bool {
    now_ms >= held.finished_at_ms + ORDER_HOLD_LIMIT_MS
}

/// Those of the waiting segments that have waited long enough, in order, or those that have not.
pub open spec fn waited(held: Seq<(u64, HeldSegment)>, now_ms: u64, long_enough: bool) -> Seq<
    (u64, HeldSegment),
>
    decreases held.len(),
{
    if held.len() == 0 {
        Seq::empty()
    } else if expired(held.last().1, now_ms) == long_enough {
        waited(held.drop_last(), now_ms, long_enough).push(held.last())
    } else {
        waited(held.drop_last(), now_ms, long_enough)
    }
}

/// What is released, and what waits on, where the given segments are being recognised and the
/// given ones wait: all that start no later than any that is being recognised.
pub open spec fn releases(
    in_flight: Seq<u64>,
    held: Seq<(u64, HeldSegment)>,
    released: Seq<TranscriptSegment>,
    after: Seq<(u64, HeldSegment)>,
) -> bool {
    let n = count_ready(held, earliest(in_flight)) as int;
    released == segments(held.take(n)) && after == held.skip(n)
}

// Lemmas.

proof fn lemma_earliest(starts: Seq<u64>)
    ensures
        forall|i: int| 0 <= i < starts.len() ==> earliest(starts) <= #[trigger] starts[i],
        starts.len() > 0 ==> starts.contains(earliest(starts)),
    decreases starts.len(),
{
    if starts.len() > 0 {
        let init = starts.drop_last();
        lemma_earliest(init);
        assert forall|i: int| 0 <= i < starts.len() implies earliest(starts)
            <= #[trigger] starts[i] by {
            if i < init.len() {
                assert(init[i] == starts[i]);
            }
        }
        if starts.last() < earliest(init) {
            assert(starts[starts.len() - 1] == earliest(starts));
        } else if init.len() > 0 {
            let k = init.index_of(earliest(init));
            assert(starts[k] == earliest(starts));
        } else {
            assert(starts[0] == u64::MAX);
        }
    }
}

proof fn lemma_place_of(starts: Seq<u64>, start: u64, from: int)
    requires
        0 <= from,
    ensures
        match place_of(starts, start, from) {
            Some(i) => from <= i < starts.len() && starts[i] == start,
            None => forall|i: int| from <= i < starts.len() ==> starts[i] != start,
        },
    decreases starts.len() - from,
{
    if from < starts.len() && starts[from] != start {
        lemma_place_of(starts, start, from + 1);
    }
}

proof fn lemma_count_before(held: Seq<(u64, HeldSegment)>, start: u64)
    requires
        ascending(held),
    ensures
        count_before(held, start) <= held.len(),
        forall|i: int| 0 <= i < count_before(held, start) ==> (#[trigger] held[i]).0 < start,
        forall|i: int|
            count_before(held, start) <= i < held.len() ==> (#[trigger] held[i]).0 >= start,
    decreases held.len(),
{
    if held.len() == 0 {
    } else if held[0].0 >= start {
        assert forall|i: int| 0 <= i < held.len() implies (#[trigger] held[i]).0 >= start by {
            if i > 0 {
                assert(held[0].0 < held[i].0);
            }
        }
    } else {
        let rest = held.skip(1);
        lemma_ascending_skip(held, 1);
        lemma_count_before(rest, start);
        assert forall|i: int| 0 <= i < count_before(held, start) implies (#[trigger] held[i]).0
            < start by {
            if i > 0 {
                assert(rest[i - 1] == held[i]);
            }
        }
        assert forall|i: int| count_before(held, start) <= i < held.len() implies (
        #[trigger] held[i]).0 >= start by {
            assert(rest[i - 1] == held[i]);
        }
    }
}

proof fn lemma_count_ready(held: Seq<(u64, HeldSegment)>, bound: u64)
    requires
        ascending(held),
    ensures
        count_ready(held, bound) <= held.len(),
        forall|i: int| 0 <= i < count_ready(held, bound) ==> (#[trigger] held[i]).0 <= bound,
        forall|i: int|
            count_ready(held, bound) <= i < held.len() ==> (#[trigger] held[i]).0 > bound,
    decreases held.len(),
{
    if held.len() == 0 {
    } else if held[0].0 > bound {
        assert forall|i: int| 0 <= i < held.len() implies (#[trigger] held[i]).0 > bound by {
            if i > 0 {
                assert(held[0].0 < held[i].0);
            }
        }
    } else {
        let rest = held.skip(1);
        lemma_ascending_skip(held, 1);
        lemma_count_ready(rest, bound);
        assert forall|i: int| 0 <= i < count_ready(held, bound) implies (#[trigger] held[i]).0
            <= bound by {
            if i > 0 {
                assert(rest[i - 1] == held[i]);
            }
        }
        assert forall|i: int| count_ready(held, bound) <= i < held.len() implies (
        #[trigger] held[i]).0 > bound by {
            assert(rest[i - 1] == held[i]);
        }
    }
}

proof fn lemma_ascending_skip(held: Seq<(u64, HeldSegment)>, n: int)
    requires
        ascending(held),
        0 <= n <= held.len(),
    ensures
        ascending(held.skip(n)),
        ascending(held.take(n)),
{
    let rest = held.skip(n);
    assert forall|i: int, j: int| 0 <= i < j < rest.len() implies (#[trigger] rest[i]).0 < (
    #[trigger] rest[j]).0 by {
        assert(held[n + i].0 < held[n + j].0);
    }
    let first = held.take(n);
    assert forall|i: int, j: int| 0 <= i < j < first.len() implies (#[trigger] first[i]).0 < (
    #[trigger] first[j]).0 by {
        assert(held[i].0 < held[j].0);
    }
}

proof fn lemma_with_held(held: Seq<(u64, HeldSegment)>, start: u64, segment: HeldSegment)
    requires
        ascending(held),
    ensures
        ascending(with_held(held, start, segment)),
        forall|i: int|
            0 <= i < with_held(held, start, segment).len() ==> (#[trigger] with_held(
                held,
                start,
                segment,
            )[i]).0 == start || exists|k: int|
                0 <= k < held.len() && #[trigger] held[k] == with_held(held, start, segment)[i],
{
    let n = count_before(held, start) as int;
    lemma_count_before(held, start);
    let all = with_held(held, start, segment);
    let skipped: int = if n < held.len() && held[n].0 == start {
        n + 1
    } else {
        n
    };
    assert forall|i: int| 0 <= i < all.len() implies (i < n && #[trigger] all[i] == held[i]) || (i
        == n && all[i].0 == start) || (i > n && all[i] == held[i - n - 1 + skipped]) by {}
    assert forall|i: int, j: int| 0 <= i < j < all.len() implies (#[trigger] all[i]).0 < (
    #[trigger] all[j]).0 by {
        if i < n && j > n {
            assert(held[i].0 < held[j - n - 1 + skipped].0);
        } else if j < n {
            assert(held[i].0 < held[j].0);
        } else if i > n {
            assert(held[i - n - 1 + skipped].0 < held[j - n - 1 + skipped].0);
        } else if i == n {
            let k = j - n - 1 + skipped;
            assert(held[k].0 >= start);
            if skipped == n + 1 {
                assert(held[n].0 < held[k].0);
            } else if k > n {
                assert(held[n].0 < held[k].0);
            }
        }
    }
    assert forall|i: int| 0 <= i < all.len() implies (#[trigger] all[i]).0 == start || exists|k: int|
        0 <= k < held.len() && #[trigger] held[k] == all[i] by {
        if i < n {
            assert(held[i] == all[i]);
        } else if i > n {
            assert(held[i - n - 1 + skipped] == all[i]);
        }
    }
}

proof fn lemma_waited(held: Seq<(u64, HeldSegment)>, now_ms: u64, long_enough: bool)
    requires
        ascending(held),
    ensures
        ascending(waited(held, now_ms, long_enough)),
        forall|i: int|
            0 <= i < waited(held, now_ms, long_enough).len() ==> exists|k: int|
                0 <= k < held.len() && #[trigger] held[k] == #[trigger] waited(
                    held,
                    now_ms,
                    long_enough,
                )[i],
    decreases held.len(),
{
    if held.len() > 0 {
        let init = held.drop_last();
        lemma_ascending_skip(held, held.len() - 1);
        assert(init =~= held.take(held.len() - 1));
        lemma_waited(init, now_ms, long_enough);
        let before = waited(init, now_ms, long_enough);
        let all = waited(held, now_ms, long_enough);
        assert forall|i: int| 0 <= i < all.len() implies exists|k: int|
            0 <= k < held.len() && #[trigger] held[k] == #[trigger] all[i] by {
            if i < before.len() {
                assert(all[i] == before[i]);
                let k = choose|k: int| 0 <= k < init.len() && #[trigger] init[k] == before[i];
                assert(held[k] == all[i]);
            } else {
                assert(held[held.len() - 1] == all[i]);
            }
        }
        assert forall|i: int, j: int| 0 <= i < j < all.len() implies (#[trigger] all[i]).0 < (
        #[trigger] all[j]).0 by {
            if j < before.len() {
                assert(before[i].0 < before[j].0);
            } else {
                assert(all[i] == before[i]);
                let k = choose|k: int| 0 <= k < init.len() && #[trigger] init[k] == before[i];
                assert(held[k].0 < held[held.len() - 1].0);
            }
        }
    }
}

// The operations.

fn remove_in_flight(in_flight: &mut Vec<u64>, start_ms: u64)
    ensures
        final(in_flight)@ == without(old(in_flight)@, start_ms),
{
    let ghost before = in_flight@;
    let mut i: usize = 0;
    while i < in_flight.len()
        invariant
            i <= in_flight@.len(),
            in_flight@ == before,
            before == old(in_flight)@,
            place_of(before, start_ms, 0) == place_of(before, start_ms, i as int),
        decreases in_flight@.len() - i,
    {
        if in_flight[i] == start_ms {
            in_flight.remove(i);
            return;
        }
        i = i + 1;
    }
}

impl ChannelOrder {
    /// The waiting segments are in order.
    pub open spec fn wf(&self) -> bool {
        ascending(self.held@)
    }

    /// Nothing is being recognised and nothing waits.
    pub open spec fn is_empty(&self) -> bool {
        self.in_flight@.len() == 0 && self.held@.len() == 0
    }

    fn new() -> (order: ChannelOrder)
        ensures
            order.wf(),
            order.is_empty(),
    {
        ChannelOrder { in_flight: Vec::new(), held: Vec::new() }
    }

    /// Adds a finished segment to those that wait.
    fn hold(&mut self, start_ms: u64, segment: HeldSegment)
        requires
            old(self).wf(),
        ensures
            final(self).wf(),
            final(self).in_flight == old(self).in_flight,
            final(self).held@ == with_held(old(self).held@, start_ms, segment),
    {
        let ghost before = self.held@;
        let mut n: usize = 0;
        assert(before.skip(0) =~= before);
        while n < self.held.len() && self.held[n].0 < start_ms
            invariant
                n <= self.held@.len(),
                self.held@ == before,
                self.in_flight == old(self).in_flight,
                before == old(self).held@,
                ascending(before),
                count_before(before, start_ms) == n + count_before(
                    before.skip(n as int),
                    start_ms,
                ),
            decreases self.held@.len() - n,
        {
            assert(before.skip(n as int).skip(1) =~= before.skip(n + 1));
            n = n + 1;
        }
        proof {
            lemma_with_held(before, start_ms, segment);
        }
        if n < self.held.len() && self.held[n].0 == start_ms {
            self.held.set(n, (start_ms, segment));
        } else {
            self.held.insert(n, (start_ms, segment));
        }
        assert(self.held@ =~= with_held(before, start_ms, segment));
    }

    /// Releases all that wait for nothing before them.
    fn release_ready(&mut self) -> (released: Vec<TranscriptSegment>)
        requires
            old(self).wf(),
        ensures
            final(self).wf(),
            final(self).in_flight == old(self).in_flight,
            releases(old(self).in_flight@, old(self).held@, released@, final(self).held@),
    {
        let mut bound: u64 = u64::MAX;
        let mut i: usize = 0;
        while i < self.in_flight.len()
            invariant
                i <= self.in_flight@.len(),
                *self == *old(self),
                bound == earliest(self.in_flight@.take(i as int)),
            decreases self.in_flight@.len() - i,
        {
            assert(self.in_flight@.take(i + 1).drop_last() =~= self.in_flight@.take(i as int));
            if self.in_flight[i] < bound {
                bound = self.in_flight[i];
            }
            i = i + 1;
        }
        assert(self.in_flight@.take(self.in_flight@.len() as int) =~= self.in_flight@);
        let ghost before = self.held@;
        let ghost total = count_ready(before, bound) as int;
        proof {
            lemma_count_ready(before, bound);
        }
        let mut released: Vec<TranscriptSegment> = Vec::new();
        let ghost mut n: int = 0;
        assert(before.skip(0) =~= before);
        assert(released@ =~= segments(before.take(0)));
        while self.held.len() > 0 && self.held[0].0 <= bound
            invariant
                0 <= n <= before.len(),
                self.held@ == before.skip(n),
                self.in_flight == old(self).in_flight,
                released@ == segments(before.take(n)),
                total == n + count_ready(self.held@, bound),
            decreases self.held@.len(),
        {
            let ghost rest = self.held@;
            let (_, held): (u64, HeldSegment) = self.held.remove(0);
            assert(self.held@ =~= rest.skip(1));
            assert(self.held@ =~= before.skip(n + 1));
            let ghost so_far = released@;
            released.push(held.segment);
            assert(released@ =~= segments(before.take(n + 1)));
            proof {
                n = n + 1;
            }
        }
        proof {
            lemma_ascending_skip(before, n);
        }
        released
    }

    fn release_expired(&mut self, now_ms: u64) -> (released: Vec<TranscriptSegment>)
        requires
            old(self).wf(),
        ensures
            final(self).wf(),
            final(self).in_flight == old(self).in_flight,
            released@ == segments(waited(old(self).held@, now_ms, true)),
            final(self).held@ == waited(old(self).held@, now_ms, false),
    {
        let ghost before = self.held@;
        let mut released: Vec<TranscriptSegment> = Vec::new();
        let mut kept: Vec<(u64, HeldSegment)> = Vec::new();
        let ghost mut n: int = 0;
        assert(before.skip(0) =~= before);
        assert(before.take(0).len() == 0);
        assert(released@ =~= segments(waited(before.take(0), now_ms, true)));
        while self.held.len() > 0
            invariant
                0 <= n <= before.len(),
                self.held@ == before.skip(n),
                self.in_flight == old(self).in_flight,
                released@ == segments(waited(before.take(n), now_ms, true)),
                kept@ == waited(before.take(n), now_ms, false),
            decreases self.held@.len(),
        {
            let ghost rest = self.held@;
            let (start_ms, held): (u64, HeldSegment) = self.held.remove(0);
            assert(self.held@ =~= before.skip(n + 1));
            assert(before.take(n + 1).drop_last() =~= before.take(n));
            assert(before.take(n + 1).last() == rest[0]);
            let ghost released_before = waited(before.take(n), now_ms, true);
            if now_ms >= held.finished_at_ms && now_ms - held.finished_at_ms
                >= ORDER_HOLD_LIMIT_MS {
                released.push(held.segment);
                assert(released@ =~= segments(released_before.push(rest[0])));
            } else {
                kept.push((start_ms, held));
            }
            proof {
                n = n + 1;
            }
        }
        assert(before.take(n) =~= before);
        proof {
            lemma_waited(before, now_ms, false);
        }
        self.held = kept;
        released
    }
}

impl TranscriptOrderGate {
    /// The waiting segments of both channels are in order.
    pub open spec fn wf(&self) -> bool {
        self.system.wf() && self.microphone.wf()
    }

    /// The order of a channel.
    pub open spec fn order(&self, channel: CaptureChannel) -> ChannelOrder {
        match channel {
            CaptureChannel::System => self.system,
            CaptureChannel::Microphone => self.microphone,
        }
    }

    /// The other channel is as it was.
    pub open spec fn other_unchanged(
        &self,
        before: &TranscriptOrderGate,
        channel: CaptureChannel,
    ) -> bool {
        match channel {
            CaptureChannel::System => self.microphone == before.microphone,
            CaptureChannel::Microphone => self.system == before.system,
        }
    }

    /// Nothing is being recognised and nothing waits.
    pub fn new() -> (gate: TranscriptOrderGate)
        ensures
            gate.wf(),
            gate.system.is_empty(),
            gate.microphone.is_empty(),
    {
        TranscriptOrderGate { system: ChannelOrder::new(), microphone: ChannelOrder::new() }
    }

    /// The recognition of a segment begins.
    pub fn begin(&mut self, channel: CaptureChannel, start_ms: u64)
        requires
            old(self).wf(),
        ensures
            final(self).wf(),
            final(self).other_unchanged(old(self), channel),
            final(self).order(channel).in_flight@ == old(self).order(channel).in_flight@.push(
                start_ms,
            ),
            final(self).order(channel).held == old(self).order(channel).held,
    {
        match channel {
            CaptureChannel::System => self.system.in_flight.push(start_ms),
            CaptureChannel::Microphone => self.microphone.in_flight.push(start_ms),
        }
    }

    /// A segment has been recognised. It is released, with those that waited for it, unless it has
    /// to wait itself.
    pub fn finish(
        &mut self,
        channel: CaptureChannel,
        start_ms: u64,
        segment: TranscriptSegment,
        now_ms: u64,
    ) -> (released: Vec<TranscriptSegment>)
        requires
            old(self).wf(),
        ensures
            final(self).wf(),
            final(self).other_unchanged(old(self), channel),
            final(self).order(channel).in_flight@ == without(
                old(self).order(channel).in_flight@,
                start_ms,
            ),
            releases(
                without(old(self).order(channel).in_flight@, start_ms),
                with_held(
                    old(self).order(channel).held@,
                    start_ms,
                    HeldSegment { segment, finished_at_ms: now_ms },
                ),
                released@,
                final(self).order(channel).held@,
            ),
    {
        let held: HeldSegment = HeldSegment { segment, finished_at_ms: now_ms };
        match channel {
            CaptureChannel::System => {
                remove_in_flight(&mut self.system.in_flight, start_ms);
                self.system.hold(start_ms, held);
                self.system.release_ready()
            },
            CaptureChannel::Microphone => {
                remove_in_flight(&mut self.microphone.in_flight, start_ms);
                self.microphone.hold(start_ms, held);
                self.microphone.release_ready()
            },
        }
    }

    /// The recognition of a segment has come to nothing. Those that waited for it are released.
    pub fn abandon(&mut self, channel: CaptureChannel, start_ms: u64) -> (released: Vec<
        TranscriptSegment,
    >)
        requires
            old(self).wf(),
        ensures
            final(self).wf(),
            final(self).other_unchanged(old(self), channel),
            final(self).order(channel).in_flight@ == without(
                old(self).order(channel).in_flight@,
                start_ms,
            ),
            releases(
                without(old(self).order(channel).in_flight@, start_ms),
                old(self).order(channel).held@,
                released@,
                final(self).order(channel).held@,
            ),
    {
        match channel {
            CaptureChannel::System => {
                remove_in_flight(&mut self.system.in_flight, start_ms);
                self.system.release_ready()
            },
            CaptureChannel::Microphone => {
                remove_in_flight(&mut self.microphone.in_flight, start_ms);
                self.microphone.release_ready()
            },
        }
    }

    /// The recognition of a segment is over. Whatever came of it, it is no longer waited for.
    pub fn settle(
        &mut self,
        channel: CaptureChannel,
        start_ms: u64,
        outcome: Option<TranscriptSegment>,
        now_ms: u64,
    ) -> (released: Vec<TranscriptSegment>)
        requires
            old(self).wf(),
        ensures
            final(self).wf(),
            final(self).other_unchanged(old(self), channel),
            final(self).order(channel).in_flight@ == without(
                old(self).order(channel).in_flight@,
                start_ms,
            ),
            releases(
                without(old(self).order(channel).in_flight@, start_ms),
                match outcome {
                    Some(segment) => with_held(
                        old(self).order(channel).held@,
                        start_ms,
                        HeldSegment { segment, finished_at_ms: now_ms },
                    ),
                    None => old(self).order(channel).held@,
                },
                released@,
                final(self).order(channel).held@,
            ),
    {
        match outcome {
            Some(segment) => self.finish(channel, start_ms, segment, now_ms),
            None => self.abandon(channel, start_ms),
        }
    }

    /// Releases what has waited long enough, whatever is still being recognised before it.
    pub fn release_expired(&mut self, channel: CaptureChannel, now_ms: u64) -> (released: Vec<
        TranscriptSegment,
    >)
        requires
            old(self).wf(),
        ensures
            final(self).wf(),
            final(self).other_unchanged(old(self), channel),
            final(self).order(channel).in_flight == old(self).order(channel).in_flight,
            released@ == segments(waited(old(self).order(channel).held@, now_ms, true)),
            final(self).order(channel).held@ == waited(
                old(self).order(channel).held@,
                now_ms,
                false,
            ),
    {
        match channel {
            CaptureChannel::System => self.system.release_expired(now_ms),
            CaptureChannel::Microphone => self.microphone.release_expired(now_ms),
        }
    }

    /// Whether a segment of the channel waits.
    pub fn has_held(&self, channel: CaptureChannel) -> (yes: bool)
        ensures
            yes == (self.order(channel).held@.len() > 0),
    {
        match channel {
            CaptureChannel::System => self.system.held.len() > 0,
            CaptureChannel::Microphone => self.microphone.held.len() > 0,
        }
    }

    /// Drops everything, so that nothing of a past session holds back the next.
    pub fn reset(&mut self)
        ensures
            final(self).wf(),
            final(self).system.is_empty(),
            final(self).microphone.is_empty(),
    {
        self.system = ChannelOrder::new();
        self.microphone = ChannelOrder::new();
    }
}

// Laws.

/// What is released is in order, and starts no later than anything that is still being recognised.
/// What waits on starts later than something that is still being recognised.
pub proof fn law_releases_are_in_order(
    in_flight: Seq<u64>,
    held: Seq<(u64, HeldSegment)>,
    released: Seq<TranscriptSegment>,
    after: Seq<(u64, HeldSegment)>,
)
    requires
        ascending(held),
        releases(in_flight, held, released, after),
    ensures
        released + segments(after) == segments(held),
        forall|i: int, k: int|
            0 <= i < released.len() && 0 <= k < in_flight.len() ==> (#[trigger] held[i]).0
                <= #[trigger] in_flight[k],
        forall|i: int| 0 <= i < after.len() ==> has_earlier(in_flight, (#[trigger] after[i]).0),
        ascending(held.take(released.len() as int)),
        ascending(after),
{
    let bound = earliest(in_flight);
    lemma_earliest(in_flight);
    lemma_count_ready(held, bound);
    let n = count_ready(held, bound) as int;
    lemma_ascending_skip(held, n);
    assert(released + segments(after) =~= segments(held));
    assert forall|i: int| 0 <= i < after.len() implies has_earlier(
        in_flight,
        (#[trigger] after[i]).0,
    ) by {
        assert(after[i] == held[n + i]);
        let k = in_flight.index_of(bound);
        assert(in_flight[k] == bound);
    }
}

/// One of the given starts is before `start`.
pub open spec fn has_earlier(starts: Seq<u64>, start: u64) -> bool {
    exists|k: int| 0 <= k < starts.len() && #[trigger] starts[k] < start
}

/// Once nothing is being recognised, nothing waits: a segment that came to nothing does not stall
/// those behind it.
pub proof fn law_nothing_waits_for_nothing(
    held: Seq<(u64, HeldSegment)>,
    released: Seq<TranscriptSegment>,
    after: Seq<(u64, HeldSegment)>,
)
    requires
        ascending(held),
        releases(Seq::empty(), held, released, after),
    ensures
        after.len() == 0,
        released == segments(held),
{
    law_releases_are_in_order(Seq::empty(), held, released, after);
    if after.len() > 0 {
        assert(has_earlier(Seq::empty(), after[0].0));
    }
    assert(released + segments(after) =~= released);
}

/// Nothing of the order starts before `start`.
pub open spec fn nothing_before(in_flight: Seq<u64>, held: Seq<(u64, HeldSegment)>, start: u64) -> bool {
    &&& forall|i: int| 0 <= i < in_flight.len() ==> start <= #[trigger] in_flight[i]
    &&& forall|i: int| 0 <= i < held.len() ==> start <= (#[trigger] held[i]).0
}

/// The order holds from one release to the next: where nothing starts before what was released
/// last, nothing that is released now does, and afterwards nothing starts before what is released
/// now. As segments begin in the order of their starts, everything is released in that order, but
/// for what has waited too long.
pub proof fn law_order_is_kept(
    in_flight: Seq<u64>,
    held: Seq<(u64, HeldSegment)>,
    start: u64,
    segment: HeldSegment,
    last: u64,
    released: Seq<TranscriptSegment>,
    after: Seq<(u64, HeldSegment)>,
)
    requires
        ascending(held),
        in_flight.contains(start),
        nothing_before(in_flight, held, last),
        releases(
            without(in_flight, start),
            with_held(held, start, segment),
            released,
            after,
        ),
    ensures
        forall|i: int|
            0 <= i < released.len() ==> last <= (#[trigger] with_held(held, start, segment)[i]).0,
        released.len() > 0 ==> nothing_before(
            without(in_flight, start),
            after,
            with_held(held, start, segment)[released.len() - 1].0,
        ),
        released.len() == 0 ==> nothing_before(without(in_flight, start), after, last),
{
    let all = with_held(held, start, segment);
    let rest = without(in_flight, start);
    lemma_with_held(held, start, segment);
    lemma_place_of(in_flight, start, 0);
    let at = in_flight.index_of(start);
    assert(in_flight[at] == start);
    assert forall|i: int| 0 <= i < rest.len() implies last <= #[trigger] rest[i] by {
        match place_of(in_flight, start, 0) {
            Some(p) => {
                if i < p {
                    assert(rest[i] == in_flight[i]);
                } else {
                    assert(rest[i] == in_flight[i + 1]);
                }
            },
            None => {},
        }
    }
    assert forall|i: int| 0 <= i < all.len() implies last <= (#[trigger] all[i]).0 by {
        if all[i].0 != start {
            let k = choose|k: int| 0 <= k < held.len() && #[trigger] held[k] == all[i];
            assert(last <= held[k].0);
        }
    }
    law_releases_are_in_order(rest, all, released, after);
    let n = released.len() as int;
    lemma_count_ready(all, earliest(rest));
    assert(after =~= all.skip(n));
    assert forall|i: int| 0 <= i < after.len() implies last <= (#[trigger] after[i]).0 by {
        assert(after[i] == all[n + i]);
    }
    if n > 0 {
        assert forall|i: int| 0 <= i < after.len() implies all[n - 1].0 <= (#[trigger] after[i]).0 by {
            assert(after[i] == all[n + i]);
            assert(all[n - 1].0 < all[n + i].0);
        }
        assert forall|i: int| 0 <= i < rest.len() implies all[n - 1].0 <= #[trigger] rest[i] by {
            assert(all[n - 1].0 <= rest[i]);
        }
    }
}

/// Whatever waits is released, at the latest, once it has waited as long as it may.
pub proof fn law_nothing_waits_for_ever(held: Seq<(u64, HeldSegment)>, now_ms: u64)
    requires
        forall|i: int|
            0 <= i < held.len() ==> (#[trigger] held[i]).1.finished_at_ms + ORDER_HOLD_LIMIT_MS
                <= now_ms,
    ensures
        waited(held, now_ms, true) == held,
        waited(held, now_ms, false).len() == 0,
    decreases held.len(),
{
    if held.len() > 0 {
        let init = held.drop_last();
        assert forall|i: int| 0 <= i < init.len() implies (#[trigger] init[i]).1.finished_at_ms
            + ORDER_HOLD_LIMIT_MS <= now_ms by {
            assert(init[i] == held[i]);
        }
        law_nothing_waits_for_ever(init, now_ms);
        assert(held[held.len() - 1].1.finished_at_ms + ORDER_HOLD_LIMIT_MS <= now_ms);
        assert(init.push(held.last()) =~= held);
    } else {
        assert(waited(held, now_ms, true) =~= held);
    }
}

// What is held and what goes.

/// A segment that was being recognised is no longer, once, and all others still are.
pub proof fn law_one_segment_is_no_longer_awaited(starts: Seq<u64>, start: u64, other: u64)
    ensures
        starts.contains(start) ==> without(starts, start).len() == starts.len() - 1,
        !starts.contains(start) ==> without(starts, start) == starts,
        starts.contains(start) ==> without(starts, start).to_multiset() == starts.to_multiset().remove(
            start,
        ),
        other != start ==> (without(starts, start).contains(other) <==> starts.contains(other)),
{
    lemma_place_of(starts, start, 0);
    if let Some(i) = place_of(starts, start, 0) {
        starts.to_multiset_ensures();
        without(starts, start).to_multiset_ensures();
        let rest = starts.remove(i);
        assert(starts.to_multiset().remove(start) =~= rest.to_multiset()) by {
            vstd::seq_lib::to_multiset_remove(starts, i);
        }
        if other != start {
            if starts.contains(other) {
                let k = choose|k: int| 0 <= k < starts.len() && starts[k] == other;
                if k < i {
                    assert(rest[k] == other);
                } else {
                    assert(rest[k - 1] == other);
                }
            }
            if rest.contains(other) {
                let k = choose|k: int| 0 <= k < rest.len() && rest[k] == other;
                if k < i {
                    assert(starts[k] == other);
                } else {
                    assert(starts[k + 1] == other);
                }
            }
        }
    }
}

/// The earliest start is one of the starts, and none is earlier.
pub proof fn law_the_earliest_start(starts: Seq<u64>, i: int)
    requires
        0 <= i < starts.len(),
    ensures
        earliest(starts) <= starts[i],
        starts.contains(earliest(starts)),
{
    lemma_earliest(starts);
}

/// A finished segment is held under its start, in the place of one of the same start, and every other
/// segment stays held as it was. What is held stays in order.
pub proof fn law_finished_segments_are_held(
    held: Seq<(u64, HeldSegment)>,
    start: u64,
    segment: HeldSegment,
    i: int,
)
    requires
        ascending(held),
    ensures
        ({
            let all = with_held(held, start, segment);
            &&& ascending(all)
            &&& all.contains((start, segment))
            &&& 0 <= i < held.len() && held[i].0 != start ==> all.contains(held[i])
            &&& 0 <= i < all.len() ==> all[i] == (start, segment) || (held.contains(all[i]) && all[i].0
                != start)
        }),
{
    let all = with_held(held, start, segment);
    let n = count_before(held, start) as int;
    lemma_count_before(held, start);
    lemma_with_held(held, start, segment);
    assert(all[n] == (start, segment));
    let dropped = if n < held.len() && held[n].0 == start {
        1int
    } else {
        0
    };
    if 0 <= i < held.len() && held[i].0 != start {
        if i < n {
            assert(all[i] == held[i]);
        } else {
            assert(i >= n + dropped);
            assert(all[i + 1 - dropped] == held[i]);
        }
    }
    if 0 <= i < all.len() && i != n {
        if i < n {
            assert(all[i] == held[i]);
        } else {
            assert(all[i] == held[i - 1 + dropped]);
            if held[i - 1 + dropped].0 == start {
                assert(dropped == 0 ==> held[n].0 != start);
                assert(held[n].0 <= held[i - 1 + dropped].0);
            }
        }
    }
}

/// A held segment goes once it has waited for three seconds, and not before; what goes and what stays
/// keep their order.
pub proof fn law_segments_wait_three_seconds(
    a: Seq<(u64, HeldSegment)>,
    entry: (u64, HeldSegment),
    b: Seq<(u64, HeldSegment)>,
    now_ms: u64,
    long_enough: bool,
)
    ensures
        waited(a + b, now_ms, long_enough) == waited(a, now_ms, long_enough) + waited(
            b,
            now_ms,
            long_enough,
        ),
        now_ms >= entry.1.finished_at_ms + 3000 ==> waited(seq![entry], now_ms, true) == seq![entry]
            && waited(seq![entry], now_ms, false).len() == 0,
        now_ms < entry.1.finished_at_ms + 3000 ==> waited(seq![entry], now_ms, false) == seq![entry]
            && waited(seq![entry], now_ms, true).len() == 0,
    decreases b.len(),
{
    let none = Seq::<(u64, HeldSegment)>::empty();
    assert(waited(none, now_ms, true) =~= none && waited(none, now_ms, false) =~= none);
    assert(seq![entry].drop_last() =~= none);
    assert(seq![entry].last() == entry);
    assert(none.push(entry) =~= seq![entry]);
    if b.len() == 0 {
        assert(a + b =~= a);
        assert(waited(b, now_ms, long_enough) =~= none);
        assert(waited(a, now_ms, long_enough) + none =~= waited(a, now_ms, long_enough));
    } else {
        law_segments_wait_three_seconds(a, entry, b.drop_last(), now_ms, long_enough);
        assert((a + b).drop_last() =~= a + b.drop_last());
        assert(waited(a + b, now_ms, long_enough) =~= waited(a, now_ms, long_enough) + waited(
            b,
            now_ms,
            long_enough,
        ));
    }
}

/// What is released of a held segment is the segment itself, and each channel has its own order.
pub proof fn law_what_is_released_is_what_was_held(
    held: Seq<(u64, HeldSegment)>,
    i: int,
    gate: TranscriptOrderGate,
)
    ensures
        segments(held).len() == held.len(),
        0 <= i < held.len() ==> segments(held)[i] == held[i].1.segment,
        gate.order(CaptureChannel::System) == gate.system,
        gate.order(CaptureChannel::Microphone) == gate.microphone,
{
}

/// A segment goes as soon as nothing earlier is awaited, and stays as long as something is.
pub proof fn law_segments_go_in_turn(
    in_flight: Seq<u64>,
    held: Seq<(u64, HeldSegment)>,
    released: Seq<TranscriptSegment>,
    after: Seq<(u64, HeldSegment)>,
    i: int,
)
    requires
        ascending(held),
        releases(in_flight, held, released, after),
        0 <= i < held.len(),
    ensures
        (forall|k: int| 0 <= k < in_flight.len() ==> held[i].0 <= #[trigger] in_flight[k]) ==> i
            < released.len() && released[i] == held[i].1.segment,
        (exists|k: int| 0 <= k < in_flight.len() && #[trigger] in_flight[k] < held[i].0) ==> i
            >= released.len() && after[i - released.len()] == held[i],
{
    let n = count_ready(held, earliest(in_flight)) as int;
    lemma_earliest(in_flight);
    lemma_count_ready(held, earliest(in_flight));
    if forall|k: int| 0 <= k < in_flight.len() ==> held[i].0 <= #[trigger] in_flight[k] {
        if in_flight.len() > 0 {
            let k = choose|k: int| 0 <= k < in_flight.len() && in_flight[k] == earliest(in_flight);
            assert(held[i].0 <= in_flight[k]);
        }
        assert(i < n);
    }
    if exists|k: int| 0 <= k < in_flight.len() && #[trigger] in_flight[k] < held[i].0 {
        assert(held[i].0 > earliest(in_flight));
        assert(i >= n);
    }
}

/// The channels are ordered apart: what is done on one leaves the other as it was.
pub proof fn law_channels_are_ordered_apart(
    before: TranscriptOrderGate,
    after: TranscriptOrderGate,
    channel: CaptureChannel,
    other: CaptureChannel,
)
    requires
        after.other_unchanged(&before, channel),
        other != channel,
    ensures
        after.order(other) == before.order(other),
{
}

/// An order that holds nothing waits for nothing.
pub proof fn law_empty_orders_wait_for_nothing(order: ChannelOrder, start: u64)
    requires
        order.is_empty(),
    ensures
        !order.in_flight@.contains(start),
        segments(order.held@).len() == 0,
{
}

} // verus!
