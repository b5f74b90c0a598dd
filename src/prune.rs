//! The prune policy: which snapshots of a group a keep specification keeps.
use vstd::prelude::*;

use crate::ext::local_time_of;

verus! {

/// The local calendar fields of a snapshot time that the prune buckets use.
#[derive(Clone, Copy, Debug, PartialEq, Eq, Structural)]
pub struct LocalTime {
    pub year: i32,
    pub month: u32,
    pub day: u32,
    pub hour: u32,
    pub iso_year: i32,
    pub iso_week: u32,
}

/// One snapshot of a group, as the prune policy sees it.
#[derive(Clone, Copy, Debug, PartialEq, Eq, Structural)]
pub struct PruneEntry {
    pub time: LocalTime,
    pub protected: bool,
}

/// Common pruning options: how many of each kind of snapshot to keep.
#[derive(Clone, Copy, Debug, PartialEq, Eq, Structural)]
pub struct PruneOptions {
    pub keep_last: Option<u64>,
    pub keep_hourly: Option<u64>,
    pub keep_daily: Option<u64>,
    pub keep_weekly: Option<u64>,
    pub keep_monthly: Option<u64>,
    pub keep_yearly: Option<u64>,
}

/// The calendar buckets a snapshot falls in.
#[derive(Clone, Copy, Debug, PartialEq, Eq, Structural)]
pub enum PruneBucket {
    Hourly,
    Daily,
    Weekly,
    Monthly,
    Yearly,
}

pub type BucketKey = (i64, i64, i64, i64);

/// The bucket of `t`: `YYYY-MM-DD HH`, `YYYY-MM-DD`, ISO `YYYY-Www`,
/// `YYYY-MM` or `YYYY`.
pub open spec fn bucket_of(d: PruneBucket, t: LocalTime) -> BucketKey {
    match d {
        PruneBucket::Hourly => (t.year as i64, t.month as i64, t.day as i64, t.hour as i64),
        PruneBucket::Daily => (t.year as i64, t.month as i64, t.day as i64, 0),
        PruneBucket::Weekly => (t.iso_year as i64, t.iso_week as i64, 0, 0),
        PruneBucket::Monthly => (t.year as i64, t.month as i64, 0, 0),
        PruneBucket::Yearly => (t.year as i64, 0, 0, 0),
    }
}

/// A snapshot that a bucket dimension may still select: one not kept yet.
pub open spec fn eligible(d: PruneBucket, s: Seq<PruneEntry>, m: Seq<bool>, i: int) -> bool {
    !m[i]
}

/// The buckets of the eligible snapshots before position `n`, in order.
pub open spec fn eligible_keys(d: PruneBucket, s: Seq<PruneEntry>, m: Seq<bool>, n: int) -> Seq<BucketKey>
    decreases n,
{
    if n <= 0 {
        Seq::empty()
    } else if eligible(d, s, m, n - 1) {
        eligible_keys(d, s, m, n - 1).push(bucket_of(d, s[n - 1].time))
    } else {
        eligible_keys(d, s, m, n - 1)
    }
}

/// The new buckets met before position `i`.
pub open spec fn keys_before(d: PruneBucket, s: Seq<PruneEntry>, m: Seq<bool>, i: int) -> Set<BucketKey> {
    eligible_keys(d, s, m, i).to_set()
}

/// Whether the snapshot at `i` is the first snapshot not kept yet of its
/// bucket, while fewer than `n` new buckets have been met among the
/// snapshots not kept yet before it. Buckets of kept snapshots do not
/// count.
pub open spec fn selected(d: PruneBucket, s: Seq<PruneEntry>, m: Seq<bool>, n: u64, i: int) -> bool {
    &&& eligible(d, s, m, i)
    &&& !keys_before(d, s, m, i).contains(bucket_of(d, s[i].time))
    &&& keys_before(d, s, m, i).len() < n
}

/// The keep marks after applying a bucket dimension with count `n`.
pub open spec fn apply_bucket(d: PruneBucket, s: Seq<PruneEntry>, m: Seq<bool>, n: Option<u64>) -> Seq<bool> {
    match n {
        Some(n) => Seq::new(m.len(), |i: int| m[i] || selected(d, s, m, n, i)),
        None => m,
    }
}

/// The number of snapshots not kept before position `i`.
pub open spec fn unkept_before(m: Seq<bool>, i: int) -> nat
    decreases i,
{
    if i <= 0 { 0 } else { unkept_before(m, i - 1) + if m[i - 1] { 0nat } else { 1nat } }
}

/// The keep marks after `keep_last`: the first `n` snapshots not kept yet.
pub open spec fn apply_last(m: Seq<bool>, n: Option<u64>) -> Seq<bool> {
    match n {
        Some(n) => Seq::new(m.len(), |i: int| m[i] || unkept_before(m, i) < n),
        None => m,
    }
}

pub open spec fn keeps_all(o: PruneOptions) -> bool {
    &&& o.keep_last is None
    &&& o.keep_hourly is None
    &&& o.keep_daily is None
    &&& o.keep_weekly is None
    &&& o.keep_monthly is None
    &&& o.keep_yearly is None
}

/// The keep marks of the list `s` (newest first): everything when no count
/// is set; otherwise the protected snapshots, then `keep_last`, then each
/// calendar dimension in turn, each walking only the snapshots not kept yet.
pub open spec fn prune_marks(s: Seq<PruneEntry>, o: PruneOptions) -> Seq<bool> {
    if keeps_all(o) {
        Seq::new(s.len(), |i: int| true)
    } else {
        let m0 = Seq::new(s.len(), |i: int| s[i].protected);
        let m1 = apply_last(m0, o.keep_last);
        let m2 = apply_bucket(PruneBucket::Hourly, s, m1, o.keep_hourly);
        let m3 = apply_bucket(PruneBucket::Daily, s, m2, o.keep_daily);
        let m4 = apply_bucket(PruneBucket::Weekly, s, m3, o.keep_weekly);
        let m5 = apply_bucket(PruneBucket::Monthly, s, m4, o.keep_monthly);
        apply_bucket(PruneBucket::Yearly, s, m5, o.keep_yearly)
    }
}

/// Whether the snapshot at `i` is kept.
pub open spec fn keep_spec(s: Seq<PruneEntry>, o: PruneOptions, i: int) -> bool {
    prune_marks(s, o)[i]
}

fn bucket_key(d: PruneBucket, t: &LocalTime) -> (r: BucketKey)
    ensures
        r == bucket_of(d, *t),
{
    match d {
        PruneBucket::Hourly => (t.year as i64, t.month as i64, t.day as i64, t.hour as i64),
        PruneBucket::Daily => (t.year as i64, t.month as i64, t.day as i64, 0),
        PruneBucket::Weekly => (t.iso_year as i64, t.iso_week as i64, 0, 0),
        PruneBucket::Monthly => (t.year as i64, t.month as i64, 0, 0),
        PruneBucket::Yearly => (t.year as i64, 0, 0, 0),
    }
}

fn contains_key(seen: &Vec<BucketKey>, k: BucketKey) -> (r: bool)
    ensures
        r == seen@.contains(k),
{
    let mut i: usize = 0;
    while i < seen.len()
        invariant
            i <= seen@.len(),
            forall|j: int| 0 <= j < i ==> seen@[j] != k,
        decreases seen@.len() - i,
    {
        let e = seen[i];
        if e.0 == k.0 && e.1 == k.1 && e.2 == k.2 && e.3 == k.3 {
            assert(seen@[i as int] == k);
            return true;
        }
        i += 1;
    }
    false
}

/// Keeps, in list order, the first snapshot not kept yet of each bucket,
/// until `keep` new buckets have been met among those snapshots.
fn mark_selections(mark: &mut Vec<bool>, list: &Vec<PruneEntry>, keep: u64, d: PruneBucket)
    requires
        old(mark)@.len() == list@.len(),
    ensures
        final(mark)@ == apply_bucket(d, list@, old(mark)@, Some(keep)),
{
    let ghost orig = mark@;
    let mut seen: Vec<BucketKey> = Vec::new();
    let mut i: usize = 0;
    proof {
        assert(seen@.to_set() =~= Set::<BucketKey>::empty());
    }
    while i < list.len()
        invariant
            i <= list@.len(),
            mark@.len() == list@.len(),
            orig.len() == list@.len(),
            seen@.no_duplicates(),
            seen@.to_set() == keys_before(d, list@, orig, i as int),
            forall|j: int| 0 <= j < i ==> #[trigger] mark@[j] == (orig[j] || selected(d, list@, orig, keep, j)),
            forall|j: int| i <= j < list@.len() ==> #[trigger] mark@[j] == orig[j],
        decreases list@.len() - i,
    {
        let ghost old_seen = seen@;
        let ghost old_mark = mark@;
        let k = bucket_key(d, &list[i].time);
        proof {
            assert(list@[i as int].time == list[i as int].time);
            old_seen.unique_seq_to_set();
            let ek = eligible_keys(d, list@, orig, i as int);
            if eligible(d, list@, orig, i as int) {
                assert(eligible_keys(d, list@, orig, i + 1) == ek.push(k));
                ek.lemma_push_to_set_commute(k);
            } else {
                assert(eligible_keys(d, list@, orig, i + 1) == ek);
            }
        }
        if !mark[i] {
            let found = contains_key(&seen, k);
            proof {
                assert(old_seen.to_set().contains(k) == old_seen.contains(k));
                assert(selected(d, list@, orig, keep, i as int) == (!found && old_seen.len() < keep));
            }
            if !found {
                if (seen.len() as u64) < keep {
                    mark.set(i, true);
                }
                seen.push(k);
                proof {
                    old_seen.lemma_push_to_set_commute(k);
                    assert forall|a: int, b: int| 0 <= a < seen@.len() && 0 <= b < seen@.len() && a != b
                        implies seen@[a] != seen@[b] by {
                        if a == seen@.len() - 1 {
                            assert(old_seen[b] == seen@[b]);
                            assert(old_seen.contains(seen@[b]));
                        } else if b == seen@.len() - 1 {
                            assert(old_seen[a] == seen@[a]);
                            assert(old_seen.contains(seen@[a]));
                        } else {
                            assert(old_seen[a] == seen@[a]);
                            assert(old_seen[b] == seen@[b]);
                        }
                    }
                }
            } else {
                proof {
                    assert(old_seen.to_set().insert(k) =~= old_seen.to_set());
                }
            }
        }
        assert(mark@[i as int] == (orig[i as int] || selected(d, list@, orig, keep, i as int)));
        assert forall|j: int| 0 <= j <= i implies #[trigger] mark@[j] == (orig[j] || selected(d, list@, orig, keep, j)) by {
            if j < i {
                assert(mark@[j] == old_mark[j]);
            }
        }
        i += 1;
    }
    assert(mark@ =~= apply_bucket(d, list@, orig, Some(keep)));
}

/// Keeps the first `keep` snapshots that are not kept yet.
fn mark_last(mark: &mut Vec<bool>, keep: u64)
    ensures
        final(mark)@ == apply_last(old(mark)@, Some(keep)),
{
    let ghost orig = mark@;
    let mut unkept: u64 = 0;
    let mut i: usize = 0;
    while i < mark.len()
        invariant
            i <= mark@.len(),
            mark@.len() == orig.len(),
            unkept as nat == unkept_before(orig, i as int),
            unkept <= i,
            forall|j: int| 0 <= j < i ==> #[trigger] mark@[j] == (orig[j] || unkept_before(orig, j) < keep),
            forall|j: int| i <= j < mark@.len() ==> #[trigger] mark@[j] == orig[j],
        decreases mark@.len() - i,
    {
        let ghost old_mark = mark@;
        if !mark[i] {
            if unkept < keep {
                mark.set(i, true);
            }
            unkept = unkept + 1;
        }
        assert forall|j: int| 0 <= j <= i implies #[trigger] mark@[j] == (orig[j] || unkept_before(orig, j) < keep) by {
            if j < i {
                assert(mark@[j] == old_mark[j]);
            }
        }
        i += 1;
    }
    assert(mark@ =~= apply_last(orig, Some(keep)));
}

/// Which snapshots of `list` (ordered newest first) the options keep.
pub fn compute_prune_info(list: &Vec<PruneEntry>, options: &PruneOptions) -> (r: Vec<bool>)
    ensures
        r@ == prune_marks(list@, *options),
        r@.len() == list@.len(),
        forall|i: int| 0 <= i < list@.len() ==> r@[i] == keep_spec(list@, *options, i),
{
    let n = list.len();
    let all = options.keep_last.is_none() && options.keep_hourly.is_none() && options.keep_daily.is_none()
        && options.keep_weekly.is_none() && options.keep_monthly.is_none() && options.keep_yearly.is_none();
    let mut mark: Vec<bool> = Vec::new();
    let mut i: usize = 0;
    while i < n
        invariant
            i <= n,
            n == list@.len(),
            mark@.len() == i,
            forall|j: int| 0 <= j < i ==> mark@[j] == (all || list@[j].protected),
        decreases n - i,
    {
        mark.push(all || list[i].protected);
        i += 1;
    }
    if all {
        assert(mark@ =~= prune_marks(list@, *options));
        return mark;
    }
    assert(mark@ =~= Seq::new(list@.len(), |i: int| list@[i].protected));
    if let Some(k) = options.keep_last {
        mark_last(&mut mark, k);
    }
    if let Some(k) = options.keep_hourly {
        mark_selections(&mut mark, list, k, PruneBucket::Hourly);
    }
    if let Some(k) = options.keep_daily {
        mark_selections(&mut mark, list, k, PruneBucket::Daily);
    }
    if let Some(k) = options.keep_weekly {
        mark_selections(&mut mark, list, k, PruneBucket::Weekly);
    }
    if let Some(k) = options.keep_monthly {
        mark_selections(&mut mark, list, k, PruneBucket::Monthly);
    }
    if let Some(k) = options.keep_yearly {
        mark_selections(&mut mark, list, k, PruneBucket::Yearly);
    }
    mark
}

/// The snapshots of `s` at the positions `idx`.
pub open spec fn sublist(s: Seq<PruneEntry>, idx: Seq<int>) -> Seq<PruneEntry> {
    idx.map_values(|x: int| s[x])
}

/// Positions `idx` that strictly increase inside `s`.
pub open spec fn increasing_in(idx: Seq<int>, n: int) -> bool {
    &&& forall|a: int| 0 <= a < idx.len() ==> 0 <= #[trigger] idx[a] < n
    &&& forall|a: int, b: int| 0 <= a < b < idx.len() ==> idx[a] < idx[b]
}

/// Marks `mk` on the sublist keep at least what `ms` keeps on the list.
pub open spec fn covers(ms: Seq<bool>, mk: Seq<bool>, idx: Seq<int>) -> bool {
    forall|j: int| 0 <= j < idx.len() ==> (ms[#[trigger] idx[j]] ==> mk[j])
}

proof fn lemma_unkept_mono(m: Seq<bool>, a: int, b: int)
    requires
        0 <= a <= b,
    ensures
        unkept_before(m, a) <= unkept_before(m, b),
    decreases b - a,
{
    if a < b {
        lemma_unkept_mono(m, a, b - 1);
    }
}

proof fn lemma_unkept_sub(ms: Seq<bool>, mk: Seq<bool>, idx: Seq<int>, n: int, j: int)
    requires
        increasing_in(idx, n),
        covers(ms, mk, idx),
        0 <= j <= idx.len(),
    ensures
        j < idx.len() ==> unkept_before(mk, j) <= unkept_before(ms, idx[j]),
        j == idx.len() && j > 0 ==> unkept_before(mk, j) <= unkept_before(ms, idx[j - 1] + 1),
    decreases j,
{
    if j > 0 {
        lemma_unkept_sub(ms, mk, idx, n, j - 1);
        assert(ms[idx[j - 1]] ==> mk[j - 1]);
        if j < idx.len() {
            lemma_unkept_mono(ms, idx[j - 1] + 1, idx[j]);
        }
    } else if idx.len() > 0 {
        assert(unkept_before(mk, 0) == 0);
    }
}

proof fn lemma_last_covers(ms: Seq<bool>, mk: Seq<bool>, idx: Seq<int>, n: Option<u64>)
    requires
        increasing_in(idx, ms.len() as int),
        mk.len() == idx.len(),
        covers(ms, mk, idx),
    ensures
        covers(apply_last(ms, n), apply_last(mk, n), idx),
        apply_last(mk, n).len() == mk.len(),
{
    if let Some(k) = n {
        assert forall|j: int| 0 <= j < idx.len() implies (apply_last(ms, n)[#[trigger] idx[j]] ==> apply_last(mk, n)[j]) by {
            lemma_unkept_sub(ms, mk, idx, ms.len() as int, j);
        }
    }
}

proof fn lemma_keys_contains(d: PruneBucket, s: Seq<PruneEntry>, m: Seq<bool>, i: int, k: BucketKey)
    requires
        0 <= i,
    ensures
        keys_before(d, s, m, i).contains(k) <==> exists|p: int| 0 <= p < i && !m[p] && #[trigger] bucket_of(d, s[p].time) == k,
    decreases i,
{
    if i > 0 {
        lemma_keys_contains(d, s, m, i - 1, k);
        let ek = eligible_keys(d, s, m, i - 1);
        if eligible(d, s, m, i - 1) {
            ek.lemma_push_to_set_commute(bucket_of(d, s[i - 1].time));
        }
        if exists|p: int| 0 <= p < i && !m[p] && #[trigger] bucket_of(d, s[p].time) == k {
            let p = choose|p: int| 0 <= p < i && !m[p] && #[trigger] bucket_of(d, s[p].time) == k;
            if p < i - 1 {
                assert(exists|q: int| 0 <= q < i - 1 && !m[q] && #[trigger] bucket_of(d, s[q].time) == k);
            }
        }
    } else {
        assert(eligible_keys(d, s, m, 0).to_set() =~= Set::<BucketKey>::empty());
    }
}

proof fn lemma_bucket_covers(d: PruneBucket, s: Seq<PruneEntry>, idx: Seq<int>, ms: Seq<bool>, mk: Seq<bool>, n: Option<u64>)
    requires
        increasing_in(idx, s.len() as int),
        ms.len() == s.len(),
        mk.len() == idx.len(),
        covers(ms, mk, idx),
    ensures
        covers(apply_bucket(d, s, ms, n), apply_bucket(d, sublist(s, idx), mk, n), idx),
        apply_bucket(d, sublist(s, idx), mk, n).len() == mk.len(),
{
    let k = sublist(s, idx);
    if let Some(c) = n {
        assert forall|j: int| 0 <= j < idx.len() implies
            (apply_bucket(d, s, ms, n)[#[trigger] idx[j]] ==> apply_bucket(d, k, mk, n)[j]) by {
            let i = idx[j];
            if apply_bucket(d, s, ms, n)[i] && !mk[j] {
                assert(!ms[i]);
                assert(selected(d, s, ms, c, i));
                let sub = keys_before(d, k, mk, j);
                let sup = keys_before(d, s, ms, i);
                assert forall|key: BucketKey| sub.contains(key) implies sup.contains(key) by {
                    lemma_keys_contains(d, k, mk, j, key);
                    lemma_keys_contains(d, s, ms, i, key);
                    let p = choose|p: int| 0 <= p < j && !mk[p] && #[trigger] bucket_of(d, k[p].time) == key;
                    assert(ms[idx[p]] ==> mk[p]);
                    assert(k[p] == s[idx[p]]);
                    assert(idx[p] < idx[j]);
                    assert(bucket_of(d, s[idx[p]].time) == key);
                }
                lemma_keys_contains(d, k, mk, j, bucket_of(d, k[j].time));
                lemma_keys_contains(d, s, ms, i, bucket_of(d, s[i].time));
                assert(k[j] == s[i]);
                eligible_keys(d, s, ms, i).lemma_cardinality_of_set();
                vstd::set_lib::lemma_len_subset(sub, sup);
                assert(selected(d, k, mk, c, j));
            }
        }
    }
}

/// Pruning is idempotent: the snapshots that a keep specification keeps
/// are all kept again when the same specification is applied to them
/// alone. The kept list is any sublist `idx` (increasing positions) of kept
/// snapshots of `s`; the list that a prune leaves behind is one.
pub proof fn lemma_prune_idempotent(s: Seq<PruneEntry>, o: PruneOptions, idx: Seq<int>)
    requires
        increasing_in(idx, s.len() as int),
        forall|a: int| 0 <= a < idx.len() ==> keep_spec(s, o, #[trigger] idx[a]),
    ensures
        forall|j: int| 0 <= j < idx.len() ==> #[trigger] keep_spec(sublist(s, idx), o, j),
{
    let k = sublist(s, idx);
    if !keeps_all(o) {
        let s0 = Seq::new(s.len(), |i: int| s[i].protected);
        let k0 = Seq::new(k.len(), |i: int| k[i].protected);
        assert(covers(s0, k0, idx));
        lemma_last_covers(s0, k0, idx, o.keep_last);
        let s1 = apply_last(s0, o.keep_last);
        let k1 = apply_last(k0, o.keep_last);
        lemma_bucket_covers(PruneBucket::Hourly, s, idx, s1, k1, o.keep_hourly);
        let s2 = apply_bucket(PruneBucket::Hourly, s, s1, o.keep_hourly);
        let k2 = apply_bucket(PruneBucket::Hourly, k, k1, o.keep_hourly);
        lemma_bucket_covers(PruneBucket::Daily, s, idx, s2, k2, o.keep_daily);
        let s3 = apply_bucket(PruneBucket::Daily, s, s2, o.keep_daily);
        let k3 = apply_bucket(PruneBucket::Daily, k, k2, o.keep_daily);
        lemma_bucket_covers(PruneBucket::Weekly, s, idx, s3, k3, o.keep_weekly);
        let s4 = apply_bucket(PruneBucket::Weekly, s, s3, o.keep_weekly);
        let k4 = apply_bucket(PruneBucket::Weekly, k, k3, o.keep_weekly);
        lemma_bucket_covers(PruneBucket::Monthly, s, idx, s4, k4, o.keep_monthly);
        let s5 = apply_bucket(PruneBucket::Monthly, s, s4, o.keep_monthly);
        let k5 = apply_bucket(PruneBucket::Monthly, k, k4, o.keep_monthly);
        lemma_bucket_covers(PruneBucket::Yearly, s, idx, s5, k5, o.keep_yearly);
        assert forall|j: int| 0 <= j < idx.len() implies #[trigger] keep_spec(k, o, j) by {
            assert(keep_spec(s, o, idx[j]));
        }
    }
}

/// The positions not kept, from the last (oldest) to the first.
pub open spec fn removal_seq(mark: Seq<bool>, n: int) -> Seq<usize>
    decreases n,
{
    if n <= 0 {
        Seq::empty()
    } else if !mark[n - 1] {
        seq![(n - 1) as usize] + removal_seq(mark, n - 1)
    } else {
        removal_seq(mark, n - 1)
    }
}

/// The positions of the snapshots to remove, oldest first.
pub fn removal_order(mark: &Vec<bool>) -> (r: Vec<usize>)
    ensures
        r@ == removal_seq(mark@, mark@.len() as int),
{
    let mut r: Vec<usize> = Vec::new();
    let mut n: usize = mark.len();
    while n > 0
        invariant
            n <= mark@.len(),
            r@ + removal_seq(mark@, n as int) == removal_seq(mark@, mark@.len() as int),
        decreases n,
    {
        let ghost rest = removal_seq(mark@, n - 1);
        if !mark[n - 1] {
            r.push(n - 1);
            assert(r@ + rest =~= r@.drop_last() + (seq![(n - 1) as usize] + rest));
        } else {
            assert(r@ + rest =~= r@ + removal_seq(mark@, n as int));
        }
        n -= 1;
    }
    assert(r@ + removal_seq(mark@, 0) =~= r@);
    r
}

/// The prune entries of a list of snapshot times (UNIX seconds, newest
/// first) with their protection flags, read in the local time zone; `None`
/// where a time has no local reading.
pub fn prune_entries(backup_times: &Vec<i64>, protected: &Vec<bool>) -> (r: Option<Vec<PruneEntry>>)
    requires
        backup_times@.len() == protected@.len(),
    ensures
        backup_times@.len() == 0 ==> r is Some,
        r matches Some(v) ==> v@.len() == backup_times@.len()
            && forall|i: int| 0 <= i < v@.len() ==> v@[i].protected == protected@[i],
{
    let mut v: Vec<PruneEntry> = Vec::new();
    let mut i: usize = 0;
    while i < backup_times.len()
        invariant
            i <= backup_times@.len(),
            backup_times@.len() == protected@.len(),
            v@.len() == i,
            forall|j: int| 0 <= j < i ==> v@[j].protected == protected@[j],
        decreases backup_times@.len() - i,
    {
        let t = local_time_of(backup_times[i])?;
        v.push(PruneEntry { time: t, protected: protected[i] });
        i += 1;
    }
    Some(v)
}


/// The positions of `times` ordered from the newest to the oldest; equal
/// times keep their order.
pub fn newest_first(times: &Vec<i64>) -> (r: Vec<usize>)
    ensures
        r@.len() == times@.len(),
        r@.no_duplicates(),
        forall|k: int| 0 <= k < r@.len() ==> (#[trigger] r@[k]) < times@.len(),
        forall|a: int, b: int| 0 <= a < b < r@.len() ==> times@[r@[a] as int] >= times@[r@[b] as int],
        forall|a: int, b: int| 0 <= a < b < r@.len() && times@[r@[a] as int] == times@[r@[b] as int] ==> r@[a] < r@[b],
{
    let mut r: Vec<usize> = Vec::new();
    let mut i: usize = 0;
    while i < times.len()
        invariant
            i <= times@.len(),
            r@.len() == i,
            r@.no_duplicates(),
            forall|k: int| 0 <= k < r@.len() ==> (#[trigger] r@[k]) < i,
            forall|a: int, b: int| 0 <= a < b < r@.len() ==> times@[r@[a] as int] >= times@[r@[b] as int],
            forall|a: int, b: int| 0 <= a < b < r@.len() && times@[r@[a] as int] == times@[r@[b] as int] ==> r@[a] < r@[b],
        decreases times@.len() - i,
    {
        let t = times[i];
        let mut p: usize = 0;
        while p < r.len() && times[r[p]] >= t
            invariant
                p <= r@.len(),
                r@.len() == i,
                i < times@.len(),
                forall|k: int| 0 <= k < r@.len() ==> (#[trigger] r@[k]) < i,
                forall|q: int| 0 <= q < p ==> times@[r@[q] as int] >= t,
            decreases r@.len() - p,
        {
            p += 1;
        }
        let ghost old_r = r@;
        r.insert(p, i);
        proof {
            assert(r@ == old_r.insert(p as int, i));
            assert forall|k: int| 0 <= k < r@.len() implies (#[trigger] r@[k]) < i + 1 by {
                if k < p { assert(r@[k] == old_r[k]); } else if k > p { assert(r@[k] == old_r[k - 1]); }
            }
            assert forall|a: int, b: int| 0 <= a < b < r@.len() implies times@[r@[a] as int] >= times@[r@[b] as int] by {
                if b < p {
                    assert(r@[a] == old_r[a] && r@[b] == old_r[b]);
                } else if b == p {
                    assert(r@[a] == old_r[a]);
                } else if a == p {
                    assert(r@[b] == old_r[b - 1]);
                    if p < old_r.len() {
                        assert(times@[old_r[p as int] as int] < t);
                        if b - 1 > p {
                            assert(times@[old_r[p as int] as int] >= times@[old_r[b - 1] as int]);
                        }
                    }
                } else if a < p {
                    assert(r@[a] == old_r[a] && r@[b] == old_r[b - 1]);
                } else {
                    assert(r@[a] == old_r[a - 1] && r@[b] == old_r[b - 1]);
                }
            }
            assert forall|a: int, b: int| 0 <= a < b < r@.len() && times@[r@[a] as int] == times@[r@[b] as int] implies r@[a] < r@[b] by {
                if b < p {
                    assert(r@[a] == old_r[a] && r@[b] == old_r[b]);
                } else if b == p {
                    assert(r@[a] == old_r[a]);
                } else if a == p {
                    assert(r@[b] == old_r[b - 1]);
                    assert(times@[old_r[p as int] as int] < t);
                    if b - 1 > p {
                        assert(times@[old_r[p as int] as int] >= times@[old_r[b - 1] as int]);
                    }
                } else if a < p {
                    assert(r@[a] == old_r[a] && r@[b] == old_r[b - 1]);
                } else {
                    assert(r@[a] == old_r[a - 1] && r@[b] == old_r[b - 1]);
                }
            }
            assert forall|a: int, b: int| 0 <= a < r@.len() && 0 <= b < r@.len() && a != b implies r@[a] != r@[b] by {
                if a != p && b != p {
                    let oa = if a < p { a } else { a - 1 };
                    let ob = if b < p { b } else { b - 1 };
                    assert(r@[a] == old_r[oa] && r@[b] == old_r[ob]);
                } else if a == p {
                    let ob = if b < p { b } else { b - 1 };
                    assert(r@[b] == old_r[ob]);
                } else {
                    let oa = if a < p { a } else { a - 1 };
                    assert(r@[a] == old_r[oa]);
                }
            }
        }
        i += 1;
    }
    r
}

/// The ids of the unkept entries of `marks[..n]`, from the last to the first.
pub open spec fn unkept_ids(marks: Seq<(usize, bool)>, n: int) -> Seq<usize>
    decreases n,
{
    if n <= 0 {
        Seq::empty()
    } else if !marks[n - 1].1 {
        seq![marks[n - 1].0] + unkept_ids(marks, n - 1)
    } else {
        unkept_ids(marks, n - 1)
    }
}

pub open spec fn ids_of(v: Seq<usize>, order: Seq<usize>) -> Seq<usize> {
    v.map_values(|p: usize| order[p as int])
}

proof fn lemma_removal_bounds(m: Seq<bool>, n: int)
    requires
        0 <= n <= usize::MAX,
    ensures
        forall|k: int| 0 <= k < removal_seq(m, n).len() ==> (#[trigger] removal_seq(m, n)[k]) < n,
    decreases n,
{
    if n > 0 {
        lemma_removal_bounds(m, n - 1);
        let r = removal_seq(m, n);
        let p = removal_seq(m, n - 1);
        assert forall|k: int| 0 <= k < r.len() implies (#[trigger] r[k]) < n by {
            if !m[n - 1] {
                if k > 0 {
                    assert(r[k] == p[k - 1]);
                }
            } else {
                assert(r[k] == p[k]);
            }
        }
    }
}

proof fn lemma_removal_ids(keep: Seq<bool>, order: Seq<usize>, marks: Seq<(usize, bool)>, n: int)
    requires
        0 <= n <= marks.len(),
        n <= usize::MAX,
        n <= keep.len(),
        n <= order.len(),
        forall|k: int| 0 <= k < n ==> (#[trigger] marks[k]) == (order[k], keep[k]),
    ensures
        ids_of(removal_seq(keep, n), order) == unkept_ids(marks, n),
    decreases n,
{
    if n > 0 {
        lemma_removal_ids(keep, order, marks, n - 1);
        assert(marks[n - 1] == (order[n - 1], keep[n - 1]));
        if !keep[n - 1] {
            assert(ids_of(removal_seq(keep, n), order) =~= seq![order[n - 1]] + ids_of(removal_seq(keep, n - 1), order));
        }
    }
}

proof fn lemma_unkept_le(m: Seq<bool>, i: int)
    requires
        0 <= i,
    ensures
        unkept_before(m, i) <= i,
    decreases i,
{
    if i > 0 {
        lemma_unkept_le(m, i - 1);
    }
}

/// The prune decision for a group: the snapshots' UNIX times and
/// protection flags in any order; returns, in newest-first order, the
/// positions (into the given lists) with whether each is kept, and the
/// positions to remove: exactly the unkept ones, oldest first. `None` when
/// a time has no local calendar reading.
pub fn prune_group(backup_times: &Vec<i64>, protected: &Vec<bool>, options: &PruneOptions) -> (r: Option<(Vec<(usize, bool)>, Vec<usize>)>)
    requires
        backup_times@.len() == protected@.len(),
    ensures
        backup_times@.len() == 0 ==> r is Some,
        r matches Some((marks, remove)) ==> {
            &&& marks@.len() == backup_times@.len()
            &&& forall|a: int, b: int| 0 <= a < b < marks@.len() ==> backup_times@[marks@[a].0 as int] >= backup_times@[marks@[b].0 as int]
            &&& forall|k: int| 0 <= k < marks@.len() ==> (#[trigger] marks@[k]).0 < backup_times@.len()
                && (protected@[marks@[k].0 as int] ==> marks@[k].1)
            &&& remove@ == unkept_ids(marks@, marks@.len() as int)
            &&& keeps_all(*options) ==> forall|k: int| 0 <= k < marks@.len() ==> (#[trigger] marks@[k]).1
            &&& options.keep_last matches Some(n) ==> forall|k: int| 0 <= k < marks@.len() && k < n ==> (#[trigger] marks@[k]).1
        },
{
    let order = newest_first(backup_times);
    let mut sorted_times: Vec<i64> = Vec::new();
    let mut sorted_prot: Vec<bool> = Vec::new();
    let mut i: usize = 0;
    while i < order.len()
        invariant
            i <= order@.len(),
            order@.len() == backup_times@.len(),
            backup_times@.len() == protected@.len(),
            forall|k: int| 0 <= k < order@.len() ==> (#[trigger] order@[k]) < backup_times@.len(),
            sorted_times@.len() == i,
            sorted_prot@.len() == i,
            forall|k: int| 0 <= k < i ==> sorted_prot@[k] == protected@[order@[k] as int],
        decreases order@.len() - i,
    {
        sorted_times.push(backup_times[order[i]]);
        sorted_prot.push(protected[order[i]]);
        i += 1;
    }
    let entries = prune_entries(&sorted_times, &sorted_prot)?;
    let keep = compute_prune_info(&entries, options);
    proof {
        let s = entries@;
        let o = *options;
        assert forall|k: int| 0 <= k < keep@.len() && (keeps_all(o) || (o.keep_last matches Some(n) && k < n))
            implies #[trigger] keep@[k] by {
            if !keeps_all(o) {
                let m0 = Seq::new(s.len(), |i: int| s[i].protected);
                lemma_unkept_le(m0, k);
            }
        }
    }
    let removal = removal_order(&keep);
    let mut marks: Vec<(usize, bool)> = Vec::new();
    let mut j: usize = 0;
    while j < order.len()
        invariant
            j <= order@.len(),
            order@.len() == backup_times@.len(),
            keep@.len() == order@.len(),
            entries@.len() == order@.len(),
            sorted_prot@.len() == order@.len(),
            forall|k: int| 0 <= k < order@.len() ==> (#[trigger] order@[k]) < backup_times@.len(),
            forall|k: int| 0 <= k < entries@.len() ==> entries@[k].protected == sorted_prot@[k],
            forall|k: int| 0 <= k < order@.len() ==> sorted_prot@[k] == protected@[order@[k] as int],
            forall|k: int| 0 <= k < keep@.len() ==> keep@[k] == keep_spec(entries@, *options, k),
            forall|a: int, b: int| 0 <= a < b < order@.len() ==> backup_times@[order@[a] as int] >= backup_times@[order@[b] as int],
            marks@.len() == j,
            forall|k: int| 0 <= k < j ==> (#[trigger] marks@[k]) == (order@[k], keep@[k]),
            forall|k: int| 0 <= k < j ==> (#[trigger] marks@[k]).0 < backup_times@.len()
                && (protected@[marks@[k].0 as int] ==> marks@[k].1),
        decreases order@.len() - j,
    {
        marks.push((order[j], keep[j]));
        proof {
            let k = j as int;
            assert(keep@[k] == keep_spec(entries@, *options, k));
            assert(entries@[k].protected == sorted_prot@[k]);
        }
        j += 1;
    }
    let klen = keep.len();
    proof {
        lemma_removal_bounds(keep@, keep@.len() as int);
        lemma_removal_ids(keep@, order@, marks@, marks@.len() as int);
    }
    let mut remove: Vec<usize> = Vec::new();
    let mut q: usize = 0;
    while q < removal.len()
        invariant
            q <= removal@.len(),
            order@.len() == keep@.len(),
            removal@ == removal_seq(keep@, keep@.len() as int),
            forall|k: int| 0 <= k < removal@.len() ==> (#[trigger] removal@[k]) < order@.len(),
            remove@ == ids_of(removal@.subrange(0, q as int), order@),
        decreases removal@.len() - q,
    {
        let pos = removal[q];
        remove.push(order[pos]);
        assert(ids_of(removal@.subrange(0, q + 1), order@) =~= ids_of(removal@.subrange(0, q as int), order@).push(order@[pos as int]));
        q += 1;
    }
    assert(removal@.subrange(0, q as int) =~= removal@);
    Some((marks, remove))
}
} // verus!
