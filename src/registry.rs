//! The datastore registry and the listings of a datastore's snapshots.
use vstd::prelude::*;

use crate::bytes::str_eq;

verus! {

/// What to do when a datastore is looked up by name with its configured path.
#[derive(Clone, Copy, Debug, PartialEq, Eq, Structural)]
pub enum LookupAction {
    /// The open datastore at this position has the configured path: share it.
    Reuse(usize),
    /// The datastore at this position was opened on another path: open it
    /// again and replace the entry.
    Replace(usize),
    /// Not open yet: open it and add an entry.
    Insert,
}

/// The open datastores, by name and path, each name once. The caller keeps
/// the open handles in the same order.
pub struct DatastoreRegistry {
    entries: Vec<(String, String)>,
}

impl DatastoreRegistry {
    pub closed spec fn names(&self) -> Seq<Seq<char>> {
        self.entries@.map_values(|e: (String, String)| e.0@)
    }

    pub closed spec fn paths(&self) -> Seq<Seq<char>> {
        self.entries@.map_values(|e: (String, String)| e.1@)
    }

    pub closed spec fn wf(&self) -> bool {
        self.names().no_duplicates()
    }

    pub fn new() -> (r: Self)
        ensures
            r.wf(),
            r.names().len() == 0,
    {
        let r = DatastoreRegistry { entries: Vec::new() };
        assert(r.names() =~= Seq::<Seq<char>>::empty());
        r
    }

    /// Whether the datastore `name`, configured at `path`, is open already
    /// and on that path.
    pub fn lookup(&self, name: &str, path: &str) -> (r: LookupAction)
        requires
            self.wf(),
        ensures
            r matches LookupAction::Reuse(i) ==> i < self.names().len() && self.names()[i as int] == name@ && self.paths()[i as int] == path@,
            r matches LookupAction::Replace(i) ==> i < self.names().len() && self.names()[i as int] == name@ && self.paths()[i as int] != path@,
            r is Insert <==> !self.names().contains(name@),
    {
        let mut i: usize = 0;
        while i < self.entries.len()
            invariant
                i <= self.entries@.len(),
                forall|j: int| 0 <= j < i ==> self.names()[j] != name@,
            decreases self.entries@.len() - i,
        {
            if str_eq(self.entries[i].0.as_str(), name) {
                if str_eq(self.entries[i].1.as_str(), path) {
                    return LookupAction::Reuse(i);
                }
                return LookupAction::Replace(i);
            }
            i += 1;
        }
        proof {
            if self.names().contains(name@) {
                let k = choose|k: int| 0 <= k < self.names().len() && self.names()[k] == name@;
                assert(self.names()[k] != name@);
            }
        }
        LookupAction::Insert
    }

    /// Records that `name` is open on `path`, as `action` said.
    pub fn record(&mut self, action: LookupAction, name: String, path: String)
        requires
            old(self).wf(),
            action matches LookupAction::Replace(i) ==> i < old(self).names().len() && old(self).names()[i as int] == name@,
            action matches LookupAction::Reuse(i) ==> i < old(self).names().len() && old(self).names()[i as int] == name@,
            action is Insert ==> !old(self).names().contains(name@),
        ensures
            final(self).wf(),
            final(self).names().contains(name@),
            action is Insert ==> final(self).names() == old(self).names().push(name@) && final(self).paths() == old(self).paths().push(path@),
            action matches LookupAction::Replace(i) ==> final(self).names() == old(self).names() && final(self).paths() == old(self).paths().update(i as int, path@),
            action is Reuse ==> final(self).names() == old(self).names() && final(self).paths() == old(self).paths(),
    {
        let ghost old_names = self.names();
        let ghost old_paths = self.paths();
        match action {
            LookupAction::Insert => {
                self.entries.push((name, path));
                proof {
                    assert(self.names() =~= old_names.push(name@));
                    assert(self.paths() =~= old_paths.push(path@));
                    assert(self.names()[old_names.len() as int] == name@);
                    assert forall|a: int, b: int| 0 <= a < b < self.names().len() implies self.names()[a] != self.names()[b] by {
                        if b == old_names.len() {
                            assert(old_names.contains(self.names()[a]));
                        }
                    }
                }
            }
            LookupAction::Replace(i) => {
                self.entries.set(i, (name, path));
                proof {
                    assert(self.names() =~= old_names);
                    assert(self.paths() =~= old_paths.update(i as int, path@));
                    assert(self.names()[i as int] == name@);
                }
            }
            LookupAction::Reuse(i) => {
                proof {
                    assert(old_names[i as int] == name@);
                }
            }
        }
    }
}

/// The sum of the sizes that are known, if it fits 64 bits.
pub open spec fn size_sum(sizes: Seq<Option<u64>>) -> int
    decreases sizes.len(),
{
    if sizes.len() == 0 {
        0
    } else {
        size_sum(sizes.drop_last()) + match sizes.last() {
            Some(s) => s as int,
            None => 0int,
        }
    }
}

/// The size of a snapshot: the sum of its archives' sizes from the
/// manifest (archives without a size count nothing); `None` on overflow.
pub fn snapshot_size(sizes: &Vec<Option<u64>>) -> (r: Option<u64>)
    ensures
        r matches Some(s) ==> s == size_sum(sizes@),
        r is None ==> size_sum(sizes@) > u64::MAX,
{
    let mut total: u64 = 0;
    let mut i: usize = 0;
    while i < sizes.len()
        invariant
            i <= sizes@.len(),
            total == size_sum(sizes@.subrange(0, i as int)),
        decreases sizes@.len() - i,
    {
        let add = match sizes[i] {
            Some(s) => s,
            None => 0,
        };
        proof {
            assert(sizes@.subrange(0, i + 1).drop_last() =~= sizes@.subrange(0, i as int));
        }
        if add > u64::MAX - total {
            proof { lemma_size_sum_grows(sizes@, i + 1); }
            return None;
        }
        total = total + add;
        i += 1;
    }
    assert(sizes@.subrange(0, i as int) =~= sizes@);
    Some(total)
}

proof fn lemma_size_sum_grows(sizes: Seq<Option<u64>>, k: int)
    requires
        0 <= k <= sizes.len(),
    ensures
        size_sum(sizes) >= size_sum(sizes.subrange(0, k)),
    decreases sizes.len() - k,
{
    if k < sizes.len() {
        lemma_size_sum_grows(sizes, k + 1);
        assert(sizes.subrange(0, k + 1).drop_last() =~= sizes.subrange(0, k));
    } else {
        assert(sizes.subrange(0, k) =~= sizes);
    }
}

fn contains_str(list: &Vec<String>, s: &str) -> (r: bool)
    ensures
        r == exists|q: int| 0 <= q < list@.len() && (#[trigger] list@[q])@ == s@,
{
    let mut k: usize = 0;
    while k < list.len()
        invariant
            k <= list@.len(),
            forall|q: int| 0 <= q < k ==> (#[trigger] list@[q])@ != s@,
        decreases list@.len() - k,
    {
        if str_eq(list[k].as_str(), s) {
            return true;
        }
        k += 1;
    }
    false
}

/// Whether a list of strings holds `x`.
pub open spec fn listed_in(v: Seq<String>, x: Seq<char>) -> bool {
    exists|i: int| 0 <= i < v.len() && (#[trigger] v[i])@ == x
}

/// The files of a snapshot: those of its manifest, in order, then the files
/// found in its directory that the manifest does not list.
pub fn merge_file_lists(index_files: &Vec<String>, dir_files: &Vec<String>) -> (merged: Vec<String>)
    ensures
        merged@.len() >= index_files@.len(),
        forall|i: int| 0 <= i < index_files@.len() ==> (#[trigger] merged@[i])@ == index_files@[i]@,
        forall|i: int| index_files@.len() <= i < merged@.len() ==> listed_in(dir_files@, (#[trigger] merged@[i])@)
            && !listed_in(index_files@, merged@[i]@),
        forall|p: int| 0 <= p < dir_files@.len() ==> listed_in(merged@, (#[trigger] dir_files@[p])@),
{
    let mut out: Vec<String> = Vec::new();
    let mut i: usize = 0;
    while i < index_files.len()
        invariant
            i <= index_files@.len(),
            out@.len() == i,
            forall|k: int| 0 <= k < i ==> (#[trigger] out@[k])@ == index_files@[k]@,
        decreases index_files@.len() - i,
    {
        out.push(index_files[i].clone());
        i += 1;
    }
    let n = index_files.len();
    let mut j: usize = 0;
    let ghost mut src: Seq<int> = Seq::empty();
    let ghost mut pos: Seq<int> = Seq::empty();
    while j < dir_files.len()
        invariant
            j <= dir_files@.len(),
            n == index_files@.len(),
            out@.len() == n + src.len(),
            pos.len() == j,
            forall|k: int| 0 <= k < n ==> (#[trigger] out@[k])@ == index_files@[k]@,
            forall|q: int| 0 <= q < src.len() ==> 0 <= #[trigger] src[q] < dir_files@.len() && dir_files@[src[q]]@ == out@[n + q]@
                && forall|k: int| 0 <= k < n ==> index_files@[k]@ != out@[n + q]@,
            forall|p: int| 0 <= p < j ==> 0 <= #[trigger] pos[p] < out@.len() && out@[pos[p]]@ == dir_files@[p]@,
        decreases dir_files@.len() - j,
    {
        let listed = contains_str(index_files, dir_files[j].as_str());
        let ghost before = out@;
        if !listed {
            out.push(dir_files[j].clone());
            proof {
                src = src.push(j as int);
                pos = pos.push(before.len() as int);
                assert forall|q: int| 0 <= q < src.len() implies 0 <= #[trigger] src[q] < dir_files@.len() && dir_files@[src[q]]@ == out@[n + q]@
                    && forall|k: int| 0 <= k < n ==> index_files@[k]@ != out@[n + q]@ by {
                    if q < src.len() - 1 {
                        assert(out@[n + q] == before[n + q]);
                    }
                }
                assert forall|p: int| 0 <= p < j + 1 implies 0 <= #[trigger] pos[p] < out@.len() && out@[pos[p]]@ == dir_files@[p]@ by {
                    if p < j {
                        assert(out@[pos[p]] == before[pos[p]]);
                    }
                }
                assert forall|k: int| 0 <= k < n implies (#[trigger] out@[k])@ == index_files@[k]@ by {
                    assert(out@[k] == before[k]);
                }
            }
        } else {
            proof {
                let q = choose|q: int| 0 <= q < n && (#[trigger] index_files@[q])@ == dir_files@[j as int]@;
                assert(out@[q]@ == dir_files@[j as int]@);
                pos = pos.push(q);
            }
        }
        j += 1;
    }
    proof {
        assert forall|i: int| index_files@.len() <= i < out@.len() implies listed_in(dir_files@, (#[trigger] out@[i])@)
            && !listed_in(index_files@, out@[i]@) by {
            let q = i - n;
            assert(0 <= src[q] < dir_files@.len());
            assert(dir_files@[src[q]]@ == out@[i]@);
            if listed_in(index_files@, out@[i]@) {
                let k = choose|k: int| 0 <= k < index_files@.len() && (#[trigger] index_files@[k])@ == out@[i]@;
                assert(index_files@[k]@ != out@[n + q]@);
            }
        }
        assert forall|p: int| 0 <= p < dir_files@.len() implies listed_in(out@, (#[trigger] dir_files@[p])@) by {
            assert(out@[pos[p]]@ == dir_files@[p]@);
        }
    }
    out
}

/// The number of snapshots of group `g` among the first `n`.
pub open spec fn group_count(groups: Seq<String>, g: Seq<char>, n: int) -> nat
    decreases n,
{
    if n <= 0 {
        0
    } else {
        group_count(groups, g, n - 1) + if groups[n - 1]@ == g { 1nat } else { 0nat }
    }
}

/// One group of a snapshot list: its name, how many snapshots it has and
/// the position of its newest one.
pub struct GroupSummary {
    pub group: String,
    pub count: u64,
    pub newest: usize,
}

fn find_group(r: &Vec<GroupSummary>, name: &str) -> (res: Option<usize>)
    ensures
        res matches Some(a) ==> a < r@.len() && r@[a as int].group@ == name@,
        res is None ==> forall|b: int| 0 <= b < r@.len() ==> (#[trigger] r@[b]).group@ != name@,
{
    let mut a: usize = 0;
    while a < r.len()
        invariant
            a <= r@.len(),
            forall|b: int| 0 <= b < a ==> (#[trigger] r@[b]).group@ != name@,
        decreases r@.len() - a,
    {
        if str_eq(r[a].group.as_str(), name) {
            return Some(a);
        }
        a += 1;
    }
    None
}

/// Whether a summary list has an entry for group `g`.
pub open spec fn summarized(r: Seq<GroupSummary>, g: Seq<char>) -> bool {
    exists|a: int| 0 <= a < r.len() && (#[trigger] r[a]).group@ == g
}

fn count_group(groups: &Vec<String>, times: &Vec<i64>, g: &str) -> (res: (u64, usize))
    requires
        groups@.len() == times@.len(),
        exists|k: int| 0 <= k < groups@.len() && (#[trigger] groups@[k])@ == g@,
    ensures
        res.0 == group_count(groups@, g@, groups@.len() as int),
        res.1 < groups@.len(),
        groups@[res.1 as int]@ == g@,
        forall|k: int| 0 <= k < groups@.len() && (#[trigger] groups@[k])@ == g@ ==> times@[k] <= times@[res.1 as int],
{
    let mut count: u64 = 0;
    let mut newest: usize = 0;
    let mut seen = false;
    let mut i: usize = 0;
    while i < groups.len()
        invariant
            i <= groups@.len(),
            groups@.len() == times@.len(),
            count == group_count(groups@, g@, i as int),
            count <= i,
            seen <==> exists|k: int| 0 <= k < i && (#[trigger] groups@[k])@ == g@,
            seen ==> newest < i && groups@[newest as int]@ == g@,
            forall|k: int| 0 <= k < i && (#[trigger] groups@[k])@ == g@ ==> seen && times@[k] <= times@[newest as int],
        decreases groups@.len() - i,
    {
        if str_eq(groups[i].as_str(), g) {
            count = count + 1;
            if !seen || times[i] > times[newest] {
                newest = i;
            }
            seen = true;
        }
        i += 1;
    }
    (count, newest)
}

/// Groups a snapshot list (`groups[i]` is the group of snapshot `i`, taken
/// at `times[i]`): one summary per group, in order of first appearance,
/// with the group's snapshot count and its newest snapshot (the first of
/// equal times).
pub fn group_snapshots(groups: &Vec<String>, times: &Vec<i64>) -> (r: Vec<GroupSummary>)
    requires
        groups@.len() == times@.len(),
    ensures
        forall|a: int, b: int| 0 <= a < b < r@.len() ==> (#[trigger] r@[a]).group@ != (#[trigger] r@[b]).group@,
        forall|i: int| 0 <= i < groups@.len() ==> summarized(r@, (#[trigger] groups@[i])@),
        forall|a: int| 0 <= a < r@.len() ==> {
            &&& (#[trigger] r@[a]).newest < groups@.len()
            &&& groups@[r@[a].newest as int]@ == r@[a].group@
            &&& r@[a].count == group_count(groups@, r@[a].group@, groups@.len() as int)
            &&& forall|i: int| 0 <= i < groups@.len() && groups@[i]@ == r@[a].group@ ==> times@[i] <= times@[r@[a].newest as int]
        },
{
    let mut r: Vec<GroupSummary> = Vec::new();
    let mut i: usize = 0;
    while i < groups.len()
        invariant
            i <= groups@.len(),
            groups@.len() == times@.len(),
            forall|a: int, b: int| 0 <= a < b < r@.len() ==> (#[trigger] r@[a]).group@ != (#[trigger] r@[b]).group@,
            forall|k: int| 0 <= k < i ==> summarized(r@, (#[trigger] groups@[k])@),
            forall|a: int| 0 <= a < r@.len() ==> {
                &&& (#[trigger] r@[a]).newest < groups@.len()
                &&& groups@[r@[a].newest as int]@ == r@[a].group@
                &&& r@[a].count == group_count(groups@, r@[a].group@, groups@.len() as int)
                &&& forall|k: int| 0 <= k < groups@.len() && groups@[k]@ == r@[a].group@ ==> times@[k] <= times@[r@[a].newest as int]
            },
        decreases groups@.len() - i,
    {
        let ghost before = r@;
        let ghost gi = groups@[i as int]@;
        match find_group(&r, groups[i].as_str()) {
            Some(a) => {
                proof {
                    assert forall|k: int| 0 <= k < i + 1 implies summarized(r@, (#[trigger] groups@[k])@) by {
                        if k == i {
                            assert(r@[a as int].group@ == gi);
                        }
                    }
                }
            }
            None => {
                let (count, newest) = count_group(groups, times, groups[i].as_str());
                r.push(GroupSummary { group: groups[i].clone(), count, newest });
                proof {
                    let n = before.len() as int;
                    assert forall|x: int, y: int| 0 <= x < y < r@.len() implies (#[trigger] r@[x]).group@ != (#[trigger] r@[y]).group@ by {
                        if y < n {
                            assert(r@[x] == before[x] && r@[y] == before[y]);
                        } else {
                            assert(r@[x] == before[x]);
                        }
                    }
                    assert forall|k: int| 0 <= k < i + 1 implies summarized(r@, (#[trigger] groups@[k])@) by {
                        if k < i {
                            assert(summarized(before, groups@[k]@));
                            let c = choose|c: int| 0 <= c < before.len() && (#[trigger] before[c]).group@ == groups@[k]@;
                            assert(r@[c] == before[c]);
                        } else {
                            assert(r@[n].group@ == gi);
                        }
                    }
                    assert forall|a: int| 0 <= a < r@.len() implies {
                        &&& (#[trigger] r@[a]).newest < groups@.len()
                        &&& groups@[r@[a].newest as int]@ == r@[a].group@
                        &&& r@[a].count == group_count(groups@, r@[a].group@, groups@.len() as int)
                        &&& forall|k: int| 0 <= k < groups@.len() && groups@[k]@ == r@[a].group@ ==> times@[k] <= times@[r@[a].newest as int]
                    } by {
                        if a < n {
                            assert(r@[a] == before[a]);
                        }
                    }
                }
            }
        }
        i += 1;
    }
    r
}

} // verus!
