//! Filtering primitives for raw ADC channels.

use vstd::prelude::*;
use vstd::relations::{sorted_by, total_ordering};
use vstd::seq_lib::lemma_sorted_unique;

verus! {

/// Minimum `ref_diff` (ADC counts) for a valid ratio computation.
/// Pairs with a smaller `ref_diff` are dropped.
pub const REF_DIFF_MIN: u16 = 40;

/// Low-rail threshold (10-bit ADC).  Samples at or below it are railed.
pub const RAIL_LOW: u16 = 8;

/// High-rail threshold (10-bit ADC).  Samples at or above it are railed.
pub const RAIL_HIGH: u16 = 1015;

/// Number of samples the median window holds.
pub const MEDIAN_LEN: usize = 5;

/// A reading is railed when it lies at or beyond one of the rail thresholds.
pub open spec fn railed(v: u16) -> bool {
    v <= RAIL_LOW || v >= RAIL_HIGH
}

/// Returns `true` if any of the three raw ADC readings is near a supply rail.
pub fn near_rail(act: u16, reference: u16, temp: u16) -> (r: bool)
    ensures
        r == (railed(act) || railed(reference) || railed(temp)),
        r == (act <= RAIL_LOW || act >= RAIL_HIGH || reference <= RAIL_LOW || reference >= RAIL_HIGH
            || temp <= RAIL_LOW || temp >= RAIL_HIGH),
{
    let r = |v: u16| -> (b: bool)
        ensures
            b == railed(v),
        { v <= RAIL_LOW || v >= RAIL_HIGH };
    r(act) || r(reference) || r(temp)
}

/// A reading is railed exactly at or beyond a threshold: strictly between
/// the two thresholds it is clear.
pub proof fn lemma_railed_only_at_thresholds(v: u16)
    ensures
        RAIL_LOW < v < RAIL_HIGH ==> !railed(v),
        v <= RAIL_LOW || v >= RAIL_HIGH ==> railed(v),
        railed(v) ==> v <= 8 || v >= 1015,
{
}

/// The rail flag is clear exactly when all three readings lie strictly
/// between the thresholds.
pub proof fn lemma_near_rail_clear_between_thresholds(act: u16, reference: u16, temp: u16)
    ensures
        !(railed(act) || railed(reference) || railed(temp)) <==> (RAIL_LOW < act < RAIL_HIGH
            && RAIL_LOW < reference < RAIL_HIGH && RAIL_LOW < temp < RAIL_HIGH),
{
}

/// The order on samples.
pub open spec fn sample_le() -> spec_fn(u16, u16) -> bool {
    |a: u16, b: u16| a <= b
}

/// The median of a non-empty window: the middle element (the upper one
/// for an even count) of its samples in ascending order.
pub open spec fn median(w: Seq<u16>) -> u16 {
    w.sort_by(sample_le())[w.len() as int / 2]
}

/// The window after a new sample: the sample is appended and, once the
/// window already holds `MEDIAN_LEN` samples, the oldest one leaves.
pub open spec fn push_window(w: Seq<u16>, x: u16) -> Seq<u16> {
    if w.len() < MEDIAN_LEN {
        w.push(x)
    } else {
        w.drop_first().push(x)
    }
}

proof fn lemma_sample_le_total()
    ensures
        total_ordering(sample_le()),
{
}

/// The window that a history of pushed samples leaves behind: its last
/// `MEDIAN_LEN` samples (all of them while there are fewer).
pub open spec fn last_samples(history: Seq<u16>) -> Seq<u16> {
    if history.len() <= MEDIAN_LEN {
        history
    } else {
        history.subrange(history.len() - MEDIAN_LEN, history.len() as int)
    }
}

/// The window always holds the most recent samples: pushing a sample onto
/// the window of a history gives the window of the extended history.
pub proof fn lemma_window_tracks_history(history: Seq<u16>, x: u16)
    ensures
        push_window(last_samples(history), x) == last_samples(history.push(x)),
{
    assert(push_window(last_samples(history), x) =~= last_samples(history.push(x)));
}

/// Count of `v` in a sequence is at most its length.
proof fn lemma_count_le_len(s: Seq<u16>, v: u16)
    ensures
        s.to_multiset().count(v) <= s.len(),
    decreases s.len(),
{
    broadcast use vstd::seq_lib::group_to_multiset_ensures;
    broadcast use vstd::multiset::group_multiset_axioms;

    if s.len() > 0 {
        lemma_count_le_len(s.drop_last(), v);
        assert(s.drop_last().push(s.last()) =~= s);
    }
}

/// When every occurrence of `v` in `s` lies in `[a, b)`, `v` occurs at most
/// `b - a` times.
proof fn lemma_count_within(s: Seq<u16>, v: u16, a: int, b: int)
    requires
        0 <= a <= b <= s.len(),
        forall|i: int| 0 <= i < s.len() && s[i] == v ==> a <= i < b,
    ensures
        s.to_multiset().count(v) <= b - a,
{
    broadcast use vstd::seq_lib::group_to_multiset_ensures;
    broadcast use vstd::multiset::group_multiset_axioms;

    let x = s.subrange(0, a);
    let y = s.subrange(a, b);
    let z = s.subrange(b, s.len() as int);
    assert(s =~= x + y + z);
    vstd::seq_lib::lemma_multiset_commutative(x, y);
    vstd::seq_lib::lemma_multiset_commutative(x + y, z);
    assert(!x.contains(v)) by {
        if x.contains(v) {
            let i = choose|i: int| 0 <= i < x.len() && x[i] == v;
            assert(s[i] == v);
        }
    }
    assert(!z.contains(v)) by {
        if z.contains(v) {
            let i = choose|i: int| 0 <= i < z.len() && z[i] == v;
            assert(s[b + i] == v);
        }
    }
    lemma_count_le_len(y, v);
}

/// The median is one of the window's samples.
pub proof fn lemma_median_in_window(w: Seq<u16>)
    requires
        w.len() > 0,
    ensures
        w.contains(median(w)),
{
    broadcast use vstd::seq_lib::group_to_multiset_ensures;

    lemma_sample_le_total();
    w.lemma_sort_by_ensures(sample_le());
    let s = w.sort_by(sample_le());
    assert(s.to_multiset().len() == w.to_multiset().len());
    assert(s.len() == w.len());
    assert(s.contains(s[w.len() as int / 2]));
}

/// The median does not depend on the order in which the samples arrived:
/// two windows with the same samples have the same median.
pub proof fn lemma_median_order_independent(w1: Seq<u16>, w2: Seq<u16>)
    requires
        w1.to_multiset() == w2.to_multiset(),
    ensures
        median(w1) == median(w2),
{
    broadcast use vstd::seq_lib::group_to_multiset_ensures;

    lemma_sample_le_total();
    w1.lemma_sort_by_ensures(sample_le());
    w2.lemma_sort_by_ensures(sample_le());
    lemma_sorted_unique(w1.sort_by(sample_le()), w2.sort_by(sample_le()), sample_le());
    assert(w1.to_multiset().len() == w1.len());
    assert(w2.to_multiset().len() == w2.len());
    assert(w1.sort_by(sample_le()).to_multiset().len() == w1.sort_by(sample_le()).len());
}

/// Spike rejection: a value held by more than half of the window is the
/// median, whatever the remaining samples are.
pub proof fn lemma_median_majority(w: Seq<u16>, v: u16)
    requires
        w.to_multiset().count(v) > w.len() / 2,
    ensures
        median(w) == v,
{
    broadcast use vstd::seq_lib::group_to_multiset_ensures;

    lemma_sample_le_total();
    w.lemma_sort_by_ensures(sample_le());
    let s = w.sort_by(sample_le());
    let k = w.len() as int / 2;
    assert(s.to_multiset().count(v) == w.to_multiset().count(v));
    assert(s.to_multiset().len() == w.to_multiset().len());
    assert(s.len() == w.len());
    if s[k] < v {
        assert forall|i: int| 0 <= i < s.len() && s[i] == v implies k + 1 <= i < s.len() by {
            if i <= k {
                if i < k {
                    assert((sample_le())(s[i], s[k]));
                }
            }
        }
        lemma_count_within(s, v, k + 1, s.len() as int);
    } else if s[k] > v {
        assert forall|i: int| 0 <= i < s.len() && s[i] == v implies 0 <= i < k by {
            if i >= k {
                if i > k {
                    assert((sample_le())(s[k], s[i]));
                }
            }
        }
        lemma_count_within(s, v, 0, k);
    }
}

/// Count of samples in `s` that are at most `y`.
pub open spec fn count_at_most(s: Seq<u16>, y: u16) -> nat
    decreases s.len(),
{
    if s.len() == 0 {
        0
    } else {
        count_at_most(s.drop_last(), y) + if s.last() <= y {
            1nat
        } else {
            0nat
        }
    }
}

proof fn lemma_count_at_most_append(a: Seq<u16>, b: Seq<u16>, y: u16)
    ensures
        count_at_most(a + b, y) == count_at_most(a, y) + count_at_most(b, y),
    decreases b.len(),
{
    if b.len() == 0 {
        assert(a + b =~= a);
    } else {
        assert((a + b).drop_last() =~= a + b.drop_last());
        lemma_count_at_most_append(a, b.drop_last(), y);
    }
}

proof fn lemma_count_at_most_le_len(s: Seq<u16>, y: u16)
    ensures
        count_at_most(s, y) <= s.len(),
    decreases s.len(),
{
    if s.len() > 0 {
        lemma_count_at_most_le_len(s.drop_last(), y);
    }
}

/// When every sample of `s` is at most `y`, all of them count.
proof fn lemma_count_at_most_all(s: Seq<u16>, y: u16)
    requires
        forall|i: int| 0 <= i < s.len() ==> s[i] <= y,
    ensures
        count_at_most(s, y) == s.len(),
    decreases s.len(),
{
    if s.len() > 0 {
        lemma_count_at_most_all(s.drop_last(), y);
    }
}

/// When no sample of `s` is at most `y`, none counts.
proof fn lemma_count_at_most_none(s: Seq<u16>, y: u16)
    requires
        forall|i: int| 0 <= i < s.len() ==> s[i] > y,
    ensures
        count_at_most(s, y) == 0,
    decreases s.len(),
{
    if s.len() > 0 {
        lemma_count_at_most_none(s.drop_last(), y);
    }
}

proof fn lemma_count_at_most_remove(s: Seq<u16>, i: int, y: u16)
    requires
        0 <= i < s.len(),
    ensures
        count_at_most(s, y) == count_at_most(s.remove(i), y) + if s[i] <= y {
            1nat
        } else {
            0nat
        },
{
    let a = s.subrange(0, i);
    let b = s.subrange(i + 1, s.len() as int);
    assert(s =~= a + seq![s[i]] + b);
    assert(s.remove(i) =~= a + b);
    lemma_count_at_most_append(a + seq![s[i]], b, y);
    lemma_count_at_most_append(a, seq![s[i]], y);
    lemma_count_at_most_append(a, b, y);
    let one = seq![s[i]];
    assert(one.drop_last() =~= Seq::<u16>::empty());
    assert(count_at_most(one.drop_last(), y) == 0);
    assert(one.last() == s[i]);
    assert(count_at_most(one, y) == if s[i] <= y {
        1nat
    } else {
        0nat
    });
}

/// The count depends only on which samples there are, not on their order.
proof fn lemma_count_at_most_multiset(s1: Seq<u16>, s2: Seq<u16>, y: u16)
    requires
        s1.to_multiset() == s2.to_multiset(),
    ensures
        count_at_most(s1, y) == count_at_most(s2, y),
    decreases s1.len(),
{
    broadcast use vstd::seq_lib::group_to_multiset_ensures;
    broadcast use vstd::multiset::group_multiset_axioms;

    assert(s1.to_multiset().len() == s1.len());
    assert(s2.to_multiset().len() == s2.len());
    if s1.len() > 0 {
        let e = s1.last();
        let rest = s1.drop_last();
        assert(rest.push(e) =~= s1);
        assert(s1.to_multiset() =~= rest.to_multiset().insert(e));
        assert(s2.to_multiset().count(e) > 0);
        assert(s2.contains(e));
        let i = choose|i: int| 0 <= i < s2.len() && s2[i] == e;
        assert(s2.remove(i).to_multiset() =~= s2.to_multiset().remove(e));
        assert(rest.to_multiset() =~= s2.remove(i).to_multiset());
        lemma_count_at_most_multiset(rest, s2.remove(i), y);
        lemma_count_at_most_remove(s2, i, y);
    }
}

/// Monotonicity: with the same earlier samples, a larger new sample never
/// gives a smaller median.
pub proof fn lemma_median_monotone_in_new_sample(w: Seq<u16>, x1: u16, x2: u16)
    requires
        x1 <= x2,
    ensures
        median(push_window(w, x1)) <= median(push_window(w, x2)),
{
    broadcast use vstd::seq_lib::group_to_multiset_ensures;

    let base = if w.len() < MEDIAN_LEN {
        w
    } else {
        w.drop_first()
    };
    let v1 = push_window(w, x1);
    let v2 = push_window(w, x2);
    assert(v1 == base.push(x1));
    assert(v2 == base.push(x2));
    lemma_sample_le_total();
    v1.lemma_sort_by_ensures(sample_le());
    v2.lemma_sort_by_ensures(sample_le());
    let s1 = v1.sort_by(sample_le());
    let s2 = v2.sort_by(sample_le());
    assert(s1.to_multiset().len() == v1.to_multiset().len());
    assert(s2.to_multiset().len() == v2.to_multiset().len());
    let k = v1.len() as int / 2;
    assert(s1.len() == v1.len() && s2.len() == v2.len() && v1.len() == v2.len());
    let y = s2[k];
    // At least k + 1 samples of the second window are at most y.
    let pre = s2.subrange(0, k + 1);
    assert forall|i: int| 0 <= i < pre.len() implies pre[i] <= y by {
        if i < k {
            assert((sample_le())(s2[i], s2[k]));
        }
    }
    lemma_count_at_most_all(pre, y);
    assert(s2 =~= pre + s2.subrange(k + 1, s2.len() as int));
    lemma_count_at_most_append(pre, s2.subrange(k + 1, s2.len() as int), y);
    lemma_count_at_most_multiset(s2, v2, y);
    // The first window has at least as many.
    assert(v1.drop_last() == v2.drop_last());
    lemma_count_at_most_multiset(s1, v1, y);
    if s1[k] > y {
        let head = s1.subrange(0, k);
        let tail = s1.subrange(k, s1.len() as int);
        assert forall|i: int| 0 <= i < tail.len() implies tail[i] > y by {
            if i > 0 {
                assert((sample_le())(s1[k], s1[k + i]));
            }
        }
        lemma_count_at_most_none(tail, y);
        lemma_count_at_most_le_len(head, y);
        assert(s1 =~= head + tail);
        lemma_count_at_most_append(head, tail, y);
    }
}

/// Circular buffer of 5 samples; returns the median on each `update()`.
/// Before the window fills, returns the median of however many samples exist.
pub struct Median5 {
    buf: [u16; 5],
    idx: usize,
    filled: u8,
}

impl View for Median5 {
    /// The samples in the window, oldest first.
    type V = Seq<u16>;

    closed spec fn view(&self) -> Seq<u16> {
        if self.filled < 5 {
            self.buf@.subrange(0, self.filled as int)
        } else {
            self.buf@.subrange(self.idx as int, 5) + self.buf@.subrange(0, self.idx as int)
        }
    }
}

/// Sorts `s[..n]` in place by insertion, leaving `s[n..]` alone.
fn insertion_sort(s: &mut [u16; 5], n: usize)
    requires
        1 <= n <= 5,
    ensures
        sorted_by(final(s)@.subrange(0, n as int), sample_le()),
        final(s)@.subrange(0, n as int).to_multiset() == old(s)@.subrange(0, n as int).to_multiset(),
{
    broadcast use vstd::seq_lib::group_to_multiset_ensures;
    broadcast use vstd::multiset::group_multiset_axioms;
    broadcast use vstd::seq_lib::lemma_multiset_commutative;

    let ghost orig = s@;
    let mut i: usize = 1;
    while i < n
        invariant
            1 <= i <= n <= 5,
            s@.len() == 5,
            sorted_by(s@.subrange(0, i as int), sample_le()),
            s@.subrange(0, n as int).to_multiset() == orig.subrange(0, n as int).to_multiset(),
        decreases n - i,
    {
        let ghost t = s@;
        let key = s[i];
        let mut j: usize = i;
        while j > 0 && s[j - 1] > key
            invariant
                0 <= j <= i < n <= 5,
                s@.len() == 5,
                t.len() == 5,
                key == t[i as int],
                sorted_by(t.subrange(0, i as int), sample_le()),
                forall|k: int| 0 <= k < j ==> s@[k] == t[k],
                forall|k: int| j < k <= i ==> s@[k] == t[k - 1] && t[k - 1] > key,
                forall|k: int| i < k < 5 ==> s@[k] == t[k],
            decreases j,
        {
            s[j] = s[j - 1];
            j = j - 1;
        }
        s[j] = key;
        proof {
            let a = t.subrange(0, j as int);
            let b = t.subrange(j as int, i as int);
            let c = t.subrange(i as int + 1, n as int);
            assert(s@.subrange(0, n as int) =~= a + seq![key] + b + c);
            assert(t.subrange(0, n as int) =~= a + b + seq![key] + c);
            vstd::seq_lib::lemma_multiset_commutative(a, seq![key]);
            vstd::seq_lib::lemma_multiset_commutative(a + seq![key], b);
            vstd::seq_lib::lemma_multiset_commutative(a + seq![key] + b, c);
            vstd::seq_lib::lemma_multiset_commutative(a, b);
            vstd::seq_lib::lemma_multiset_commutative(a + b, seq![key]);
            vstd::seq_lib::lemma_multiset_commutative(a + b + seq![key], c);
            assert(s@.subrange(0, n as int).to_multiset() =~= t.subrange(0, n as int).to_multiset());
            assert forall|p: int, q: int| 0 <= p < q < i + 1 implies #[trigger] (sample_le())(
                s@.subrange(0, i as int + 1)[p],
                s@.subrange(0, i as int + 1)[q],
            ) by {
                if q < j {
                    assert((sample_le())(t.subrange(0, i as int)[p], t.subrange(0, i as int)[q]));
                } else if q == j {
                    if p < j - 1 {
                        assert((sample_le())(
                            t.subrange(0, i as int)[p],
                            t.subrange(0, i as int)[j - 1],
                        ));
                    }
                } else if p < j {
                    if p < j - 1 {
                        assert((sample_le())(
                            t.subrange(0, i as int)[p],
                            t.subrange(0, i as int)[j - 1],
                        ));
                    }
                } else if p > j {
                    assert((sample_le())(
                        t.subrange(0, i as int)[p - 1],
                        t.subrange(0, i as int)[q - 1],
                    ));
                }
            }
        }
        i = i + 1;
    }
}

impl Median5 {
    /// The buffer's bookkeeping is consistent.
    pub closed spec fn wf(&self) -> bool {
        &&& self.idx < 5
        &&& self.filled <= 5
        &&& self.filled < 5 ==> self.idx == self.filled as usize
    }

    pub fn new() -> (r: Self)
        ensures
            r.wf(),
            r@ == Seq::<u16>::empty(),
    {
        let r = Self { buf: [0; 5], idx: 0, filled: 0 };
        assert(r@ =~= Seq::<u16>::empty());
        r
    }

    /// Push a new ADC sample; return the current window median.
    pub fn update(&mut self, x: u16) -> (r: u16)
        requires
            old(self).wf(),
        ensures
            final(self).wf(),
            final(self)@ == push_window(old(self)@, x),
            r == median(final(self)@),
    {
        broadcast use vstd::seq_lib::lemma_multiset_commutative;

        let ghost old_buf = self.buf@;
        let ghost old_idx = self.idx;
        let i = self.idx;
        self.buf[i] = x;
        self.idx = (self.idx + 1) % 5;
        if self.filled < 5 {
            self.filled += 1;
        }
        proof {
            if old(self).filled < 5 {
                assert(self@ =~= old(self)@.push(x));
            } else {
                assert(self@ =~= old(self)@.drop_first().push(x));
            }
        }
        let n = self.filled as usize;
        let mut s = self.buf;
        proof {
            if n < 5 {
                assert(s@.subrange(0, n as int) =~= self@);
            } else {
                let a = self.buf@.subrange(self.idx as int, 5);
                let b = self.buf@.subrange(0, self.idx as int);
                assert(s@.subrange(0, n as int) =~= b + a);
                vstd::seq_lib::lemma_multiset_commutative(b, a);
                vstd::seq_lib::lemma_multiset_commutative(a, b);
                assert(self@ == a + b);
                assert((b + a).to_multiset() =~= (a + b).to_multiset());
            }
        }
        let ghost before = s@.subrange(0, n as int);
        assert(before.to_multiset() == self@.to_multiset());
        insertion_sort(&mut s, n);
        proof {
            let w = self@;
            lemma_sample_le_total();
            w.lemma_sort_by_ensures(sample_le());
            lemma_sorted_unique(s@.subrange(0, n as int), w.sort_by(sample_le()), sample_le());
        }
        s[n / 2]
    }
}

} // verus!
