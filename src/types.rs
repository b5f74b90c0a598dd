//! Records that the datastore reports: listings, prune results, counts and
//! status.
use vstd::prelude::*;

use crate::crypt::CryptMode;
use crate::gc::GarbageCollectionStatus;

verus! {

/// The order to sort chunks by.
#[derive(Clone, Copy, Debug, PartialEq, Eq, Structural)]
pub enum ChunkOrder {
    /// Iterate chunks in the index order.
    Index,
    /// Iterate chunks in inode order.
    Inode,
}

/// Datastore tuning options.
#[derive(Clone, Copy, Debug, PartialEq, Eq, Structural)]
pub struct DatastoreTuning {
    /// Iterate chunks in this order.
    pub chunk_order: Option<ChunkOrder>,
}

/// Basic information about a datastore.
pub struct DataStoreListItem {
    pub store: String,
    pub comment: Option<String>,
}

/// Basic information about an archive file inside a backup snapshot.
pub struct BackupContent {
    pub filename: String,
    /// Whether the file is encrypted, signed, or neither.
    pub crypt_mode: Option<CryptMode>,
    /// Archive size (from the backup manifest).
    pub size: Option<u64>,
}

/// Result of a verify operation.
#[derive(Clone, Copy, Debug, PartialEq, Eq, Structural)]
pub enum VerifyState {
    /// Verification was successful.
    Success,
    /// Verification reported one or more errors.
    Failed,
}

/// Result of the last verify task of a snapshot.
pub struct SnapshotVerifyState {
    /// UPID of the verify task.
    pub upid: String,
    /// State of the verification.
    pub state: VerifyState,
}

/// Basic information about a backup snapshot.
pub struct SnapshotListItem {
    pub backup_type: String,
    pub backup_id: String,
    pub backup_time: i64,
    /// The first line of the manifest notes.
    pub comment: Option<String>,
    /// The result of the last verify task.
    pub verification: Option<SnapshotVerifyState>,
    /// Fingerprint of the encryption key.
    pub fingerprint: Option<String>,
    /// List of contained archive files.
    pub files: Vec<BackupContent>,
    /// Overall snapshot size (sum of all archive sizes).
    pub size: Option<u64>,
    /// The owner of the snapshot's group.
    pub owner: Option<String>,
    /// Protection from prunes.
    pub protected: bool,
}

/// Basic information about a backup group.
pub struct GroupListItem {
    pub backup_type: String,
    pub backup_id: String,
    pub last_backup: i64,
    /// Number of contained snapshots.
    pub backup_count: u64,
    /// List of contained archive files.
    pub files: Vec<String>,
    /// The owner of the group.
    pub owner: Option<String>,
    /// The first line of the group notes.
    pub comment: Option<String>,
}

/// Prune result for one snapshot.
pub struct PruneListItem {
    pub backup_type: String,
    pub backup_id: String,
    pub backup_time: i64,
    /// Keep snapshot.
    pub keep: bool,
}

/// Backup type group/snapshot counts.
#[derive(Clone, Copy, Debug, PartialEq, Eq, Structural)]
pub struct TypeCounts {
    /// The number of groups of the type.
    pub groups: u64,
    /// The number of snapshots of the type.
    pub snapshots: u64,
}

/// Counts of groups and snapshots per backup type.
#[derive(Clone, Copy, Debug, PartialEq, Eq, Structural)]
pub struct Counts {
    pub ct: Option<TypeCounts>,
    pub host: Option<TypeCounts>,
    pub vm: Option<TypeCounts>,
    pub other: Option<TypeCounts>,
}

/// Overall datastore status.
pub struct DataStoreStatus {
    /// Total space (bytes).
    pub total: u64,
    /// Used space (bytes).
    pub used: u64,
    /// Available space (bytes).
    pub avail: u64,
    /// Status of the last garbage collection.
    pub gc_status: Option<GarbageCollectionStatus>,
    /// Group and snapshot counts.
    pub counts: Option<Counts>,
}

/// Why a datastore is in maintenance.
#[derive(Clone, Copy, Debug, PartialEq, Eq, Structural)]
pub enum MaintenanceType {
    /// Only reading is allowed.
    ReadOnly,
    /// Neither reading nor writing is allowed.
    Offline,
}

/// A maintenance mode with its optional message.
pub struct MaintenanceMode {
    pub ty: MaintenanceType,
    pub message: Option<String>,
}

/// Datastore configuration properties.
pub struct DataStoreConfig {
    pub name: String,
    pub path: String,
    pub comment: Option<String>,
    pub gc_schedule: Option<String>,
    pub prune_schedule: Option<String>,
    pub keep_last: Option<u64>,
    pub keep_hourly: Option<u64>,
    pub keep_daily: Option<u64>,
    pub keep_weekly: Option<u64>,
    pub keep_monthly: Option<u64>,
    pub keep_yearly: Option<u64>,
    /// Verify every new backup right after completion.
    pub verify_new: Option<bool>,
    /// Send job email notification to this user.
    pub notify_user: Option<String>,
    /// Send notification only for job errors.
    pub notify: Option<String>,
    /// Datastore tuning options.
    pub tuning: Option<String>,
    /// Maintenance mode: `type=offline` or `type=read-only`, with an
    /// optional `message`.
    pub maintenance_mode: Option<String>,
}


/// The position of the first `,` in `s`, or its length.
pub open spec fn first_comma(s: Seq<char>, from: int) -> int
    decreases s.len() - from,
{
    if from >= s.len() {
        s.len() as int
    } else if s[from] == ',' {
        from
    } else {
        first_comma(s, from + 1)
    }
}

pub open spec fn offline_text() -> Seq<char> {
    seq!['o', 'f', 'f', 'l', 'i', 'n', 'e']
}

pub open spec fn read_only_text() -> Seq<char> {
    seq!['r', 'e', 'a', 'd', '-', 'o', 'n', 'l', 'y']
}

pub open spec fn type_key() -> Seq<char> {
    seq!['t', 'y', 'p', 'e', '=']
}

pub open spec fn message_key() -> Seq<char> {
    seq!['m', 'e', 's', 's', 'a', 'g', 'e', '=']
}

/// The maintenance type that `type=T` or a bare `T` names.
pub open spec fn type_item(t: Seq<char>) -> Option<MaintenanceType> {
    let v = if t.len() >= 5 && t.subrange(0, 5) == type_key() { t.subrange(5, t.len() as int) } else { t };
    if v == offline_text() {
        Some(MaintenanceType::Offline)
    } else if v == read_only_text() {
        Some(MaintenanceType::ReadOnly)
    } else {
        None
    }
}

/// The text of a `message=M` item: `M` without surrounding double quotes.
pub open spec fn message_item(t: Seq<char>) -> Option<Seq<char>> {
    if t.len() >= 8 && t.subrange(0, 8) == message_key() {
        let v = t.subrange(8, t.len() as int);
        if v.len() >= 2 && v[0] == '"' && v[v.len() - 1] == '"' {
            Some(v.subrange(1, v.len() - 1))
        } else if v.len() >= 1 && v[0] == '"' {
            None
        } else {
            Some(v)
        }
    } else {
        None
    }
}

/// A maintenance mode written `[type=]offline` or `[type=]read-only`,
/// optionally followed by `,message=M` (`M` possibly in double quotes).
pub open spec fn parse_maintenance(s: Seq<char>) -> Option<(MaintenanceType, Option<Seq<char>>)> {
    let k = first_comma(s, 0);
    match type_item(s.subrange(0, k)) {
        None => None,
        Some(t) => if k == s.len() {
            Some((t, None))
        } else {
            match message_item(s.subrange(k + 1, s.len() as int)) {
                Some(m) => Some((t, Some(m))),
                None => None,
            }
        },
    }
}

fn chars_eq(s: &str, from: usize, to: usize, text: &str) -> (r: bool)
    requires
        from <= to <= s@.len(),
    ensures
        r == (s@.subrange(from as int, to as int) == text@),
{
    let ghost lit = text@;
    let n = text.unicode_len();
    if to - from != n {
        return false;
    }
    let mut i: usize = 0;
    while i < n
        invariant
            i <= n,
            n == lit.len(),
            to - from == n,
            from <= to <= s@.len(),
            text@ == lit,
            forall|j: int| 0 <= j < i ==> s@[from + j] == lit[j],
        decreases n - i,
    {
        if s.get_char(from + i) != text.get_char(i) {
            assert(s@.subrange(from as int, to as int)[i as int] != lit[i as int]);
            return false;
        }
        i += 1;
    }
    assert(s@.subrange(from as int, to as int) =~= lit);
    true
}

fn substring(s: &str, from: usize, to: usize) -> (r: String)
    requires
        from <= to <= s@.len(),
    ensures
        r@ == s@.subrange(from as int, to as int),
{
    let mut r = String::new();
    let mut i: usize = from;
    while i < to
        invariant
            from <= i <= to,
            to <= s@.len(),
            r@ == s@.subrange(from as int, i as int),
        decreases to - i,
    {
        r.push(s.get_char(i));
        assert(r@ =~= s@.subrange(from as int, i + 1));
        i += 1;
    }
    r
}

fn parse_type(s: &str, from: usize, to: usize) -> (r: Option<MaintenanceType>)
    requires
        from <= to <= s@.len(),
    ensures
        r == type_item(s@.subrange(from as int, to as int)),
{
    let ghost t = s@.subrange(from as int, to as int);
    let mut start = from;
    proof {
        reveal_strlit("type=");
        reveal_strlit("offline");
        reveal_strlit("read-only");
        assert("type="@ =~= type_key());
        assert("offline"@ =~= offline_text());
        assert("read-only"@ =~= read_only_text());
    }
    if to - from >= 5 && chars_eq(s, from, from + 5, "type=") {
        assert(t.subrange(0, 5) =~= s@.subrange(from as int, from + 5));
        start = from + 5;
        assert(t.subrange(5, t.len() as int) =~= s@.subrange(start as int, to as int));
    } else {
        proof {
            if t.len() >= 5 {
                assert(t.subrange(0, 5) =~= s@.subrange(from as int, from + 5));
            }
        }
    }
    if chars_eq(s, start, to, "offline") {
        Some(MaintenanceType::Offline)
    } else if chars_eq(s, start, to, "read-only") {
        Some(MaintenanceType::ReadOnly)
    } else {
        None
    }
}

fn parse_message(s: &str, from: usize, to: usize) -> (r: Option<String>)
    requires
        from <= to <= s@.len(),
    ensures
        match r {
            Some(m) => message_item(s@.subrange(from as int, to as int)) == Some(m@),
            None => message_item(s@.subrange(from as int, to as int)) is None,
        },
{
    let ghost t = s@.subrange(from as int, to as int);
    proof {
        reveal_strlit("message=");
        assert("message="@ =~= message_key());
    }
    if to - from < 8 || !chars_eq(s, from, from + 8, "message=") {
        proof {
            if t.len() >= 8 {
                assert(t.subrange(0, 8) =~= s@.subrange(from as int, from + 8));
            }
        }
        return None;
    }
    assert(t.subrange(0, 8) =~= s@.subrange(from as int, from + 8));
    let v0 = from + 8;
    let ghost v = t.subrange(8, t.len() as int);
    assert(v =~= s@.subrange(v0 as int, to as int));
    if to - v0 >= 2 && s.get_char(v0) == '"' && s.get_char(to - 1) == '"' {
        let m = substring(s, v0 + 1, to - 1);
        assert(v.subrange(1, v.len() - 1) =~= s@.subrange(v0 + 1, to - 1));
        Some(m)
    } else if to - v0 >= 1 && s.get_char(v0) == '"' {
        None
    } else {
        Some(substring(s, v0, to))
    }
}

impl DataStoreConfig {
    /// The maintenance mode, when one is set and it parses.
    pub fn get_maintenance_mode(&self) -> (r: Option<MaintenanceMode>)
        ensures
            match self.maintenance_mode {
                None => r is None,
                Some(s) => match parse_maintenance(s@) {
                    None => r is None,
                    Some((t, m)) => r matches Some(mm) && mm.ty == t && match m {
                        None => mm.message is None,
                        Some(text) => mm.message matches Some(x) && x@ == text,
                    },
                },
            },
    {
        let s = match &self.maintenance_mode {
            Some(s) => s.as_str(),
            None => return None,
        };
        let n = s.unicode_len();
        let mut k: usize = 0;
        while k < n && s.get_char(k) != ','
            invariant
                k <= n,
                n == s@.len(),
                first_comma(s@, k as int) == first_comma(s@, 0),
            decreases n - k,
        {
            k += 1;
        }
        let ty = parse_type(s, 0, k)?;
        if k == n {
            return Some(MaintenanceMode { ty, message: None });
        }
        let message = parse_message(s, k + 1, n)?;
        Some(MaintenanceMode { ty, message: Some(message) })
    }
}

} // verus!
