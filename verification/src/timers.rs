//! Send times and the smoothed round-trip estimate.
//!
//! Time is counted in whole nanoseconds from an origin the caller chooses.
//! The send times form an ordered mapping from sequence number to instant,
//! kept as records in strictly ascending order of sequence number (compared
//! as plain integers), so that no number occurs twice.

use vstd::prelude::*;
use crate::seqnum::{is_between_wrapped, strictly_between};

verus! {

/// The estimate a fresh connection starts from: 60 seconds.
pub const INITIAL_SRTT: u64 = 60_000_000_000;

/// No segment is retransmitted before it has waited longer than this: 1 second.
pub const RTO_FLOOR: u64 = 1_000_000_000;

/// When a segment with a given sequence number was last handed to the network.
#[derive(Clone, Copy, Debug, PartialEq, Eq)]
pub struct SendRecord {
    pub seq: u32,
    pub at: u64,
}

/// The retransmission state of one connection.
#[derive(Clone, Debug, PartialEq, Eq)]
pub struct Timers {
    /// One record per sequence number a segment was sent with, ascending.
    pub send_times: Vec<SendRecord>,
    /// Smoothed round-trip time in nanoseconds, never zero.
    pub srtt: u64,
}

/// The records are in strictly ascending order of sequence number.
pub open spec fn ascending(s: Seq<SendRecord>) -> bool {
    forall|i: int, j: int| 0 <= i < j < s.len() ==> s[i].seq < s[j].seq
}

/// The number of leading records whose sequence number is below `key`; in an
/// ascending sequence, the position of the first record at or after `key`.
pub open spec fn rank(s: Seq<SendRecord>, key: u32) -> nat
    decreases s.len(),
{
    if s.len() == 0 || s[0].seq >= key {
        0
    } else {
        1 + rank(s.skip(1), key)
    }
}

/// The mapping after `seq` has been stamped with `at`: the record of `seq`
/// is replaced if there is one, and added in its place otherwise.
pub open spec fn recorded(s: Seq<SendRecord>, seq: u32, at: u64) -> Seq<SendRecord> {
    let i = rank(s, seq) as int;
    let record = SendRecord { seq, at };
    if i < s.len() && s[i].seq == seq {
        s.update(i, record)
    } else {
        s.insert(i, record)
    }
}

/// The send time of the first record at or after `key`, if there is one.
pub open spec fn earliest_from(s: Seq<SendRecord>, key: u32) -> Option<u64> {
    let i = rank(s, key) as int;
    if i < s.len() {
        Some(s[i].at)
    } else {
        None
    }
}

/// Time passed from `at` to `now`; zero if `now` is the earlier one.
pub open spec fn elapsed(now: u64, at: u64) -> u64 {
    if now >= at {
        (now - at) as u64
    } else {
        0
    }
}

/// The estimate after one more sample: four fifths of the old estimate plus
/// one fifth of the sample, rounded up to a whole nanosecond.
pub open spec fn smoothed(srtt: u64, sample: u64) -> u64 {
    ((4 * srtt + sample + 4) / 5) as u64
}

/// A segment that has waited for `waited` is due for retransmission: it has
/// waited longer than the floor and longer than one and a half estimates.
pub open spec fn overdue(waited: u64, srtt: u64) -> bool {
    waited > RTO_FLOOR && 2 * waited > 3 * srtt
}

/// Whether the first segment at or after `una` is due for retransmission.
pub open spec fn retransmission_due(s: Seq<SendRecord>, srtt: u64, una: u32, now: u64) -> bool {
    match earliest_from(s, una) {
        Some(at) => overdue(elapsed(now, at), srtt),
        None => false,
    }
}

/// A record that an acknowledgment of `ackn` settles: its sequence number
/// lies strictly between `una` and `ackn`.
pub open spec fn settled(r: SendRecord, una: u32, ackn: u32) -> bool {
    strictly_between(una, r.seq, ackn)
}

/// The records that an acknowledgment of `ackn` leaves in place.
pub open spec fn retained(s: Seq<SendRecord>, una: u32, ackn: u32) -> Seq<SendRecord>
    decreases s.len(),
{
    if s.len() == 0 {
        s
    } else if settled(s.last(), una, ackn) {
        retained(s.drop_last(), una, ackn)
    } else {
        retained(s.drop_last(), una, ackn).push(s.last())
    }
}

/// The estimate after every settled record, in ascending order, has
/// contributed the time since it was sent as a sample.
pub open spec fn srtt_after(s: Seq<SendRecord>, una: u32, ackn: u32, now: u64, srtt: u64) -> u64
    decreases s.len(),
{
    if s.len() == 0 {
        srtt
    } else {
        let before = srtt_after(s.drop_last(), una, ackn, now, srtt);
        if settled(s.last(), una, ackn) {
            smoothed(before, elapsed(now, s.last().at))
        } else {
            before
        }
    }
}

/// In an ascending sequence every record before position `rank(s, key)` is
/// below `key`, and the record at that position, if any, is not.
pub proof fn lemma_rank(s: Seq<SendRecord>, key: u32)
    requires
        ascending(s),
    ensures
        rank(s, key) <= s.len(),
        forall|j: int| 0 <= j < rank(s, key) ==> s[j].seq < key,
        forall|j: int| rank(s, key) <= j < s.len() ==> s[j].seq >= key,
    decreases s.len(),
{
    if s.len() == 0 || s[0].seq >= key {
    } else {
        let t = s.skip(1);
        assert(ascending(t)) by {
            assert forall|i: int, j: int| 0 <= i < j < t.len() implies t[i].seq < t[j].seq by {
                assert(t[i] == s[i + 1] && t[j] == s[j + 1]);
            }
        }
        lemma_rank(t, key);
        assert forall|j: int| 0 <= j < rank(s, key) implies s[j].seq < key by {
            if j > 0 {
                assert(s[j] == t[j - 1]);
            }
        }
        assert forall|j: int| rank(s, key) <= j < s.len() implies s[j].seq >= key by {
            assert(s[j] == t[j - 1]);
        }
    }
}

/// A position that splits an ascending sequence at `key` is its rank.
pub proof fn lemma_rank_is(s: Seq<SendRecord>, key: u32, i: int)
    requires
        ascending(s),
        0 <= i <= s.len(),
        forall|j: int| 0 <= j < i ==> s[j].seq < key,
        i < s.len() ==> s[i].seq >= key,
    ensures
        rank(s, key) == i,
{
    lemma_rank(s, key);
    let r = rank(s, key) as int;
    if r < i {
        assert(s[r].seq < key);
    } else if r > i {
        assert(s[i].seq < key);
    }
}

/// Stamping a sequence number keeps the order.
pub proof fn lemma_recorded_ascending(s: Seq<SendRecord>, seq: u32, at: u64)
    requires
        ascending(s),
    ensures
        ascending(recorded(s, seq, at)),
{
    lemma_rank(s, seq);
    let i = rank(s, seq) as int;
    let t = recorded(s, seq, at);
    assert forall|a: int, b: int| 0 <= a < b < t.len() implies t[a].seq < t[b].seq by {
        if i < s.len() && s[i].seq == seq {
            assert(t[a].seq == s[a].seq && t[b].seq == s[b].seq);
        } else {
            if a < i && b > i {
                assert(t[a] == s[a] && t[b] == s[b - 1]);
            } else if a == i {
                assert(t[b] == s[b - 1]);
            } else if b == i {
                assert(t[a] == s[a]);
            } else if b < i {
                assert(t[a] == s[a] && t[b] == s[b]);
            } else {
                assert(t[a] == s[a - 1] && t[b] == s[b - 1]);
            }
        }
    }
}

/// What an acknowledgment retains is drawn from the records in order: each
/// retained record is one of `s`, and none is above the last record of `s`.
pub proof fn lemma_retained_ascending(s: Seq<SendRecord>, una: u32, ackn: u32)
    requires
        ascending(s),
    ensures
        ascending(retained(s, una, ackn)),
        retained(s, una, ackn).len() <= s.len(),
        forall|k: int|
            0 <= k < retained(s, una, ackn).len() ==> s.len() > 0 && (#[trigger] retained(
                s,
                una,
                ackn,
            )[k]).seq <= s.last().seq,
    decreases s.len(),
{
    if s.len() > 0 {
        let d = s.drop_last();
        lemma_retained_ascending(d, una, ackn);
        let rd = retained(d, una, ackn);
        assert forall|k: int| 0 <= k < rd.len() implies (#[trigger] rd[k]).seq < s.last().seq by {
            assert(d.len() > 0);
            assert(d.last() == s[s.len() - 2]);
        }
    }
}

/// The estimate stays positive under any sample.
pub proof fn lemma_smoothed_positive(srtt: u64, sample: u64)
    requires
        srtt > 0,
    ensures
        smoothed(srtt, sample) > 0,
        smoothed(srtt, sample) <= if srtt >= sample { srtt } else { sample },
{
}

/// The estimate stays positive under any acknowledgment.
pub proof fn lemma_srtt_after_positive(s: Seq<SendRecord>, una: u32, ackn: u32, now: u64, srtt: u64)
    requires
        srtt > 0,
    ensures
        srtt_after(s, una, ackn, now, srtt) > 0,
    decreases s.len(),
{
    if s.len() > 0 {
        lemma_srtt_after_positive(s.drop_last(), una, ackn, now, srtt);
        lemma_smoothed_positive(
            srtt_after(s.drop_last(), una, ackn, now, srtt),
            elapsed(now, s.last().at),
        );
    }
}

/// An acknowledgment that settles nothing leaves records and estimate alone.
pub proof fn lemma_nothing_settled(s: Seq<SendRecord>, una: u32, ackn: u32, now: u64, srtt: u64)
    requires
        forall|i: int| 0 <= i < s.len() ==> !settled(#[trigger] s[i], una, ackn),
    ensures
        retained(s, una, ackn) == s,
        srtt_after(s, una, ackn, now, srtt) == srtt,
    decreases s.len(),
{
    if s.len() > 0 {
        let d = s.drop_last();
        assert forall|i: int| 0 <= i < d.len() implies !settled(#[trigger] d[i], una, ackn) by {
            assert(d[i] == s[i]);
        }
        lemma_nothing_settled(d, una, ackn, now, srtt);
        assert(d.push(s.last()) =~= s);
    }
}

/// Time passed from `at` to `now`, saturating at zero.
pub fn time_since(now: u64, at: u64) -> (d: u64)
    ensures
        d == elapsed(now, at),
{
    if now >= at {
        now - at
    } else {
        0
    }
}

/// Folds one round-trip sample into the estimate.
pub fn smooth(srtt: u64, sample: u64) -> (r: u64)
    ensures
        r == smoothed(srtt, sample),
{
    let sum: u128 = 4u128 * (srtt as u128) + (sample as u128) + 4u128;
    (sum / 5u128) as u64
}

/// Whether a wait of `waited` exceeds the retransmission timeout.
pub fn is_overdue(waited: u64, srtt: u64) -> (r: bool)
    ensures
        r == overdue(waited, srtt),
{
    waited > RTO_FLOOR && 2u128 * (waited as u128) > 3u128 * (srtt as u128)
}

impl Timers {
    /// The records are ascending and the estimate is positive.
    pub open spec fn wf(&self) -> bool {
        ascending(self.send_times@) && self.srtt > 0
    }

    /// No segment sent yet, and the initial estimate.
    pub fn new() -> (t: Timers)
        ensures
            t.send_times@ == Seq::<SendRecord>::empty(),
            t.srtt == INITIAL_SRTT,
            t.wf(),
    {
        Timers { send_times: Vec::new(), srtt: INITIAL_SRTT }
    }

    /// The position of the first record at or after `key`.
    fn position(&self, key: u32) -> (i: usize)
        requires
            self.wf(),
        ensures
            i == rank(self.send_times@, key),
            i <= self.send_times@.len(),
    {
        let mut i: usize = 0;
        while i < self.send_times.len() && self.send_times[i].seq < key
            invariant
                i <= self.send_times@.len(),
                forall|j: int| 0 <= j < i ==> self.send_times@[j].seq < key,
            decreases self.send_times@.len() - i,
        {
            i += 1;
        }
        proof {
            lemma_rank_is(self.send_times@, key, i as int);
        }
        i
    }

    /// Stamps `seq` with the instant `now`.
    pub fn record(&mut self, seq: u32, now: u64)
        requires
            old(self).wf(),
        ensures
            final(self).send_times@ == recorded(old(self).send_times@, seq, now),
            final(self).srtt == old(self).srtt,
            final(self).wf(),
    {
        let i = self.position(seq);
        let record = SendRecord { seq, at: now };
        proof {
            lemma_recorded_ascending(self.send_times@, seq, now);
        }
        if i < self.send_times.len() && self.send_times[i].seq == seq {
            self.send_times[i] = record;
        } else {
            self.send_times.insert(i, record);
        }
    }

    /// When the first segment at or after `key` was sent.
    pub fn earliest(&self, key: u32) -> (r: Option<u64>)
        requires
            self.wf(),
        ensures
            r == earliest_from(self.send_times@, key),
    {
        let i = self.position(key);
        if i < self.send_times.len() {
            Some(self.send_times[i].at)
        } else {
            None
        }
    }

    /// Whether the first segment at or after `una` has waited past the
    /// retransmission timeout.
    pub fn due(&self, una: u32, now: u64) -> (r: bool)
        requires
            self.wf(),
        ensures
            r == retransmission_due(self.send_times@, self.srtt, una, now),
    {
        match self.earliest(una) {
            Some(at) => is_overdue(time_since(now, at), self.srtt),
            None => false,
        }
    }

    /// Settles every record strictly between `una` and `ackn`: the record is
    /// dropped and its age becomes a sample for the estimate.
    pub fn acknowledge(&mut self, una: u32, ackn: u32, now: u64)
        requires
            old(self).wf(),
        ensures
            final(self).send_times@ == retained(old(self).send_times@, una, ackn),
            final(self).srtt == srtt_after(
                old(self).send_times@,
                una,
                ackn,
                now,
                old(self).srtt,
            ),
            final(self).wf(),
    {
        let ghost s = self.send_times@;
        let ghost srtt0 = self.srtt;
        let mut kept: Vec<SendRecord> = Vec::new();
        let mut srtt = self.srtt;
        let n = self.send_times.len();
        let mut i: usize = 0;
        assert(s.take(0) =~= Seq::<SendRecord>::empty());
        while i < n
            invariant
                i <= n,
                n == s.len(),
                s == self.send_times@,
                kept@ == retained(s.take(i as int), una, ackn),
                srtt == srtt_after(s.take(i as int), una, ackn, now, srtt0),
            decreases n - i,
        {
            let r = self.send_times[i];
            proof {
                let t = s.take(i + 1);
                assert(t.drop_last() =~= s.take(i as int));
                assert(t.last() == r);
            }
            if is_between_wrapped(una, r.seq, ackn) {
                srtt = smooth(srtt, time_since(now, r.at));
            } else {
                kept.push(r);
            }
            i += 1;
        }
        proof {
            assert(s.take(n as int) =~= s);
            lemma_retained_ascending(s, una, ackn);
            lemma_srtt_after_positive(s, una, ackn, now, srtt0);
        }
        self.send_times = kept;
        self.srtt = srtt;
    }
}

} // verus!
