//! Decisions of exporting part of an archive as tar: the entry type of
//! each archive entry, and hardlinks whose target lies outside the
//! exported part, where the first occurrence becomes a full file.
use vstd::prelude::*;

use crate::bytes::copy_range;
use crate::extract::EntryKind;

verus! {

/// The tar entry written for an archive entry.
#[derive(Clone, Copy, Debug, PartialEq, Eq, Structural)]
pub enum TarEntryType {
    Regular,
    Directory,
    Link,
    Symlink,
    Fifo,
    Char,
    Block,
}

/// The tar entry type of an archive entry; sockets and goodbye tables are
/// not exported.
pub fn tar_entry_type(kind: EntryKind, is_chardev: bool) -> (r: Option<TarEntryType>)
    ensures
        r == match kind {
            EntryKind::File => Some(TarEntryType::Regular),
            EntryKind::Directory => Some(TarEntryType::Directory),
            EntryKind::Hardlink => Some(TarEntryType::Link),
            EntryKind::Symlink => Some(TarEntryType::Symlink),
            EntryKind::Fifo => Some(TarEntryType::Fifo),
            EntryKind::Device => Some(if is_chardev { TarEntryType::Char } else { TarEntryType::Block }),
            _ => None::<TarEntryType>,
        },
{
    match kind {
        EntryKind::File => Some(TarEntryType::Regular),
        EntryKind::Directory => Some(TarEntryType::Directory),
        EntryKind::Hardlink => Some(TarEntryType::Link),
        EntryKind::Symlink => Some(TarEntryType::Symlink),
        EntryKind::Fifo => Some(TarEntryType::Fifo),
        EntryKind::Device => Some(if is_chardev { TarEntryType::Char } else { TarEntryType::Block }),
        _ => None,
    }
}

/// Whether an archive entry goes into a zip archive, and whether with
/// content: files and hardlinks carry content, directories do not, other
/// kinds are not exported.
pub fn zip_entry_kind(kind: EntryKind) -> (r: Option<bool>)
    ensures
        r == match kind {
            EntryKind::File | EntryKind::Hardlink => Some(true),
            EntryKind::Directory => Some(false),
            _ => None::<bool>,
        },
{
    match kind {
        EntryKind::File | EntryKind::Hardlink => Some(true),
        EntryKind::Directory => Some(false),
        _ => None,
    }
}

/// What to write for a hardlink whose target is outside the exported part.
#[derive(Clone, Debug, PartialEq, Eq)]
pub enum HardlinkAction {
    /// The first occurrence: write the file's content under its own path.
    WriteFile,
    /// A later occurrence: link to the path written first.
    LinkTo(Vec<u8>),
}

/// Paths already written for hardlink targets outside the exported part:
/// real path to in-archive path, each real path once.
pub struct HardlinkMap {
    entries: Vec<(Vec<u8>, Vec<u8>)>,
}

impl HardlinkMap {
    /// The in-archive path recorded for `realpath`.
    pub closed spec fn lookup(&self, realpath: Seq<u8>) -> Option<Seq<u8>> {
        if exists|i: int| 0 <= i < self.entries@.len() && (#[trigger] self.entries@[i]).0@ == realpath {
            let i = choose|i: int| 0 <= i < self.entries@.len() && (#[trigger] self.entries@[i]).0@ == realpath;
            Some(self.entries@[i].1@)
        } else {
            None
        }
    }

    pub closed spec fn wf(&self) -> bool {
        forall|i: int, j: int| 0 <= i < j < self.entries@.len() ==> (#[trigger] self.entries@[i]).0@ != (#[trigger] self.entries@[j]).0@
    }

    pub fn new() -> (r: Self)
        ensures
            r.wf(),
            forall|p: Seq<u8>| r.lookup(p) is None,
    {
        HardlinkMap { entries: Vec::new() }
    }

    fn find(&self, realpath: &[u8]) -> (r: Option<usize>)
        ensures
            r matches Some(i) ==> i < self.entries@.len() && self.entries@[i as int].0@ == realpath@,
            r is None ==> forall|i: int| 0 <= i < self.entries@.len() ==> (#[trigger] self.entries@[i]).0@ != realpath@,
    {
        let mut i: usize = 0;
        while i < self.entries.len()
            invariant
                i <= self.entries@.len(),
                forall|j: int| 0 <= j < i ==> (#[trigger] self.entries@[j]).0@ != realpath@,
            decreases self.entries@.len() - i,
        {
            if bytes_eq(self.entries[i].0.as_slice(), realpath) {
                return Some(i);
            }
            i += 1;
        }
        None
    }

    /// The first time a real path shows up, its file is written (and the
    /// path remembered); afterwards it becomes a link to that path.
    pub fn resolve(&mut self, realpath: &[u8], path: &[u8]) -> (r: HardlinkAction)
        requires
            old(self).wf(),
        ensures
            final(self).wf(),
            match old(self).lookup(realpath@) {
                Some(p) => r matches HardlinkAction::LinkTo(t) && t@ == p && final(self).lookup(realpath@) == Some(p),
                None => r == HardlinkAction::WriteFile && final(self).lookup(realpath@) == Some(path@),
            },
    {
        match self.find(realpath) {
            Some(i) => {
                let t = self.entries[i].1.clone();
                proof {
                    let j = choose|j: int| 0 <= j < self.entries@.len() && (#[trigger] self.entries@[j]).0@ == realpath@;
                    assert(j == i as int);
                }
                HardlinkAction::LinkTo(t)
            }
            None => {
                let ghost before = self.entries@;
                let rp = copy_range(realpath, 0, realpath.len());
                let pp = copy_range(path, 0, path.len());
                assert(rp@ =~= realpath@);
                assert(pp@ =~= path@);
                self.entries.push((rp, pp));
                proof {
                    let n = before.len() as int;
                    assert forall|i: int, j: int| 0 <= i < j < self.entries@.len() implies (#[trigger] self.entries@[i]).0@ != (#[trigger] self.entries@[j]).0@ by {
                        assert(self.entries@[i] == before[i]);
                        if j < n {
                            assert(self.entries@[j] == before[j]);
                        }
                    }
                    assert(self.entries@[n].0@ == realpath@);
                    let k = choose|k: int| 0 <= k < self.entries@.len() && (#[trigger] self.entries@[k]).0@ == realpath@;
                    assert(k == n);
                }
                HardlinkAction::WriteFile
            }
        }
    }
}

fn bytes_eq(a: &[u8], b: &[u8]) -> (r: bool)
    ensures
        r == (a@ == b@),
{
    if a.len() != b.len() {
        return false;
    }
    let r = crate::bytes::bytes_at(a, 0, b);
    assert(a@.subrange(0, b@.len() as int) =~= a@);
    r
}

} // verus!
