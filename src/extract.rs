//! Decisions of archive extraction: name safety, include/exclude matching
//! with inherited state, and the directory stack whose directories are
//! created lazily and get their metadata when they are left. The caller
//! reads the archive, performs the actions and reports each entry.
use vstd::prelude::*;

verus! {

/// Feature flag: create device nodes.
pub const WITH_DEVICE_NODES: u64 = 0x1000;
/// Feature flag: create FIFOs.
pub const WITH_FIFOS: u64 = 0x2000;
/// Feature flag: create sockets.
pub const WITH_SOCKETS: u64 = 0x4000;

/// The verdict of the match list for one path.
#[derive(Clone, Copy, Debug, PartialEq, Eq, Structural)]
pub enum MatchType {
    Include,
    Exclude,
}

/// The kind of an archive entry.
#[derive(Clone, Copy, Debug, PartialEq, Eq, Structural)]
pub enum EntryKind {
    Directory,
    GoodbyeTable,
    File,
    Symlink,
    Hardlink,
    Device,
    Fifo,
    Socket,
}

/// Why extraction stopped.
#[derive(Clone, Copy, Debug, PartialEq, Eq, Structural)]
pub enum ExtractError {
    /// A file name with a `/`.
    SlashInName,
    /// A file name with a NUL byte.
    NulInName,
    /// A goodbye table with no open directory.
    StackUnderrun,
    /// The archive ended inside a directory.
    UnexpectedEof,
    /// A file's content was not as long as its entry said.
    SizeMismatch,
    /// A device node's mode does not fit 32 bits.
    IllegalMode,
    /// The archive holds no entry.
    EmptyArchive,
    /// The archive's first entry is not a directory.
    RootNotDirectory,
}

/// Checks the first entry of an archive (`None`: the archive is empty),
/// which must be the root directory.
pub fn check_root(first: Option<EntryKind>) -> (r: Result<(), ExtractError>)
    ensures
        r == match first {
            None => Err::<(), ExtractError>(ExtractError::EmptyArchive),
            Some(EntryKind::Directory) => Ok::<(), ExtractError>(()),
            Some(_) => Err::<(), ExtractError>(ExtractError::RootNotDirectory),
        },
{
    match first {
        None => Err(ExtractError::EmptyArchive),
        Some(EntryKind::Directory) => Ok(()),
        Some(_) => Err(ExtractError::RootNotDirectory),
    }
}

/// How a regular file is created.
#[derive(Clone, Copy, Debug, PartialEq, Eq, Structural)]
pub enum FileOpenMode {
    /// Truncate an existing file.
    Truncate,
    /// Fail if the file exists.
    Exclusive,
}

/// Files are created write-only, close-on-exec, mode 0600; an existing file
/// is truncated only when overwriting.
pub fn file_open_mode(overwrite: bool) -> (r: FileOpenMode)
    ensures
        r == if overwrite { FileOpenMode::Truncate } else { FileOpenMode::Exclusive },
{
    if overwrite { FileOpenMode::Truncate } else { FileOpenMode::Exclusive }
}

/// Checks a sparse copy of a file of `size` bytes that wrote `written`
/// bytes; `Ok(true)` when the copy ended on a hole, so the file must be
/// truncated to `size`.
pub fn check_copied(size: u64, written: u64, seeked_last: bool) -> (r: Result<bool, ExtractError>)
    ensures
        r == if size != written { Err::<bool, ExtractError>(ExtractError::SizeMismatch) } else { Ok::<bool, ExtractError>(seeked_last) },
{
    if size != written {
        return Err(ExtractError::SizeMismatch);
    }
    Ok(seeked_last)
}

/// The mode of a device node, FIFO or socket, which must fit 32 bits.
pub fn special_mode(mode: u64) -> (r: Result<u32, ExtractError>)
    ensures
        mode <= u32::MAX ==> r == Ok::<u32, ExtractError>(mode as u32),
        mode > u32::MAX ==> r == Err::<u32, ExtractError>(ExtractError::IllegalMode),
{
    if mode > u32::MAX as u64 {
        return Err(ExtractError::IllegalMode);
    }
    Ok(mode as u32)
}

/// The nesting level of a sub-directory extraction after one entry, and
/// whether the extraction is over: it ends when it leaves the directory it
/// started in.
pub fn seq_level_step(level: i64, kind: EntryKind) -> (r: (i64, bool))
    requires
        i64::MIN < level < i64::MAX,
    ensures
        r.0 == match kind {
            EntryKind::Directory => level + 1,
            EntryKind::GoodbyeTable => level - 1,
            _ => level as int,
        },
        r.1 == (r.0 < 0),
{
    let next = match kind {
        EntryKind::Directory => level + 1,
        EntryKind::GoodbyeTable => level - 1,
        _ => level,
    };
    (next, next < 0)
}

/// What the caller does for one archive entry, in order.
#[derive(Clone, Copy, Debug, PartialEq, Eq, Structural)]
pub enum ExtractAction {
    /// Create the directory at this depth of the stack (0 is the root).
    CreateDir(usize),
    /// Apply the saved metadata of the directory just left.
    ApplyDirMetadata,
    /// Create the entry in the innermost directory and apply its metadata.
    Extract(EntryKind),
}

/// A file name that may be extracted: no `/`, no NUL.
pub open spec fn file_name_spec(name: Seq<u8>) -> Result<(), ExtractError> {
    if exists|i: int| 0 <= i < name.len() && name[i] == 47u8 {
        Err(ExtractError::SlashInName)
    } else if exists|i: int| 0 <= i < name.len() && name[i] == 0u8 {
        Err(ExtractError::NulInName)
    } else {
        Ok(())
    }
}

/// Checks a file name: a `/` or a NUL would let an archive escape or
/// truncate its path.
pub fn check_file_name(name: &[u8]) -> (r: Result<(), ExtractError>)
    ensures
        r == file_name_spec(name@),
{
    let mut i: usize = 0;
    while i < name.len()
        invariant
            i <= name@.len(),
            forall|j: int| 0 <= j < i ==> name@[j] != 47u8,
        decreases name@.len() - i,
    {
        if name[i] == 47u8 {
            assert(name@[i as int] == 47u8);
            return Err(ExtractError::SlashInName);
        }
        i += 1;
    }
    let mut i: usize = 0;
    while i < name.len()
        invariant
            i <= name@.len(),
            forall|j: int| 0 <= j < name@.len() ==> name@[j] != 47u8,
            forall|j: int| 0 <= j < i ==> name@[j] != 0u8,
        decreases name@.len() - i,
    {
        if name[i] == 0u8 {
            assert(name@[i as int] == 0u8);
            return Err(ExtractError::NulInName);
        }
        i += 1;
    }
    Ok(())
}

pub open spec fn did_match_spec(result: Option<MatchType>, current: bool) -> bool {
    match result {
        Some(MatchType::Include) => true,
        Some(MatchType::Exclude) => false,
        None => current,
    }
}

/// Whether an entry is kept: an explicit verdict wins, else the state
/// inherited from the enclosing directory.
pub fn did_match(result: Option<MatchType>, current: bool) -> (r: bool)
    ensures
        r == did_match_spec(result, current),
{
    match result {
        Some(MatchType::Include) => true,
        Some(MatchType::Exclude) => false,
        None => current,
    }
}

/// Whether the feature flags allow creating an entry of this kind.
pub open spec fn kind_allowed(flags: u64, kind: EntryKind) -> bool {
    match kind {
        EntryKind::Device => flags & WITH_DEVICE_NODES != 0,
        EntryKind::Fifo => flags & WITH_FIFOS != 0,
        EntryKind::Socket => flags & WITH_SOCKETS != 0,
        _ => true,
    }
}

/// Actions that create the directories from depth `from` up to depth `n - 1`.
pub open spec fn create_actions(from: int, n: int) -> Seq<ExtractAction>
    decreases n - from,
{
    if from >= n {
        Seq::empty()
    } else {
        seq![ExtractAction::CreateDir(from as usize)] + create_actions(from + 1, n)
    }
}

/// The state of an extraction: the directory stack (names and whether each
/// exists yet), the inherited match state and its saved values.
pub struct Extractor {
    feature_flags: u64,
    allow_existing_dirs: bool,
    overwrite: bool,
    names: Vec<Vec<u8>>,
    created: usize,
    current_match: bool,
    match_stack: Vec<bool>,
    current_path: Vec<u8>,
}

impl Extractor {
    /// The depth of the directory stack (the root counts).
    pub closed spec fn depth(&self) -> nat {
        self.names@.len()
    }

    /// How many directories of the stack, from the root, exist.
    pub closed spec fn created_count(&self) -> nat {
        self.created as nat
    }

    pub closed spec fn spec_current_match(&self) -> bool {
        self.current_match
    }

    pub closed spec fn spec_flags(&self) -> u64 {
        self.feature_flags
    }

    pub closed spec fn dir_name(&self, i: int) -> Seq<u8> {
        self.names@[i]@
    }

    /// Directories exist from the root up; the saved match states follow
    /// the stack below the innermost directory.
    pub closed spec fn wf(&self) -> bool {
        &&& self.created <= self.names@.len()
        &&& self.names@.len() > 0 ==> self.created > 0
        &&& self.match_stack@.len() + 1 == self.names@.len() || self.names@.len() == 0
    }

    /// An extraction into a root directory that exists already.
    pub fn new(allow_existing_dirs: bool, overwrite: bool, feature_flags: u64, extract_match_default: bool) -> (r: Self)
        ensures
            r.wf(),
            r.depth() == 1,
            r.created_count() == 1,
            r.spec_current_match() == extract_match_default,
            r.spec_flags() == feature_flags,
    {
        let mut names: Vec<Vec<u8>> = Vec::new();
        names.push(Vec::new());
        Extractor {
            feature_flags,
            allow_existing_dirs,
            overwrite,
            names,
            created: 1,
            current_match: extract_match_default,
            match_stack: Vec::new(),
            current_path: Vec::new(),
        }
    }

    pub closed spec fn spec_path(&self) -> Seq<u8> {
        self.current_path@
    }

    /// Records the path of the entry being extracted, for error messages.
    pub fn set_path(&mut self, path: Vec<u8>)
        requires
            old(self).wf(),
        ensures
            final(self).wf(),
            final(self).spec_path() == path@,
            final(self).depth() == old(self).depth(),
            final(self).created_count() == old(self).created_count(),
            final(self).spec_current_match() == old(self).spec_current_match(),
            final(self).spec_flags() == old(self).spec_flags(),
    {
        self.current_path = path;
    }

    /// The path of the entry being extracted.
    pub fn clone_path(&self) -> (r: Vec<u8>)
        ensures
            r@ == self.spec_path(),
    {
        crate::bytes::copy_range(self.current_path.as_slice(), 0, self.current_path.len())
    }

    pub fn allow_existing_dirs(&self) -> bool {
        self.allow_existing_dirs
    }

    pub fn overwrite(&self) -> bool {
        self.overwrite
    }

    /// Whether all bits of `flag` are set.
    pub fn contains_flags(&self, flag: u64) -> (r: bool)
        ensures
            r == (self.spec_flags() & flag == flag),
    {
        self.feature_flags & flag == flag
    }

    /// Creates the missing directories of the stack: returns their actions.
    fn create_missing(&mut self) -> (r: Vec<ExtractAction>)
        requires
            old(self).wf(),
        ensures
            final(self).wf(),
            r@ == create_actions(old(self).created_count() as int, old(self).depth() as int),
            final(self).created_count() == old(self).depth(),
            final(self).depth() == old(self).depth(),
            final(self).spec_current_match() == old(self).spec_current_match(),
            final(self).spec_flags() == old(self).spec_flags(),
            forall|i: int| 0 <= i < old(self).depth() ==> final(self).dir_name(i) == old(self).dir_name(i),
            final(self).names@ == old(self).names@,
            final(self).match_stack@ == old(self).match_stack@,
    {
        let mut actions: Vec<ExtractAction> = Vec::new();
        let ghost from = self.created as int;
        let n = self.names.len();
        while self.created < n
            invariant
                self.wf(),
                n == self.names@.len(),
                from <= self.created <= n,
                actions@ + create_actions(self.created as int, n as int) == create_actions(from, n as int),
                self.names@ == old(self).names@,
                self.match_stack@ == old(self).match_stack@,
                self.current_match == old(self).current_match,
                self.feature_flags == old(self).feature_flags,
            decreases n - self.created,
        {
            let ghost c = self.created as int;
            actions.push(ExtractAction::CreateDir(self.created));
            self.created = self.created + 1;
            assert(actions@ + create_actions(c + 1, n as int) =~= actions@.drop_last() + create_actions(c, n as int));
        }
        assert(actions@ + create_actions(n as int, n as int) =~= actions@);
        actions
    }

    /// Enters a directory named `file_name`; with `create` it (and any
    /// missing parent) is created now, else only once a kept child shows up.
    pub fn enter_directory(&mut self, file_name: Vec<u8>, create: bool) -> (r: Vec<ExtractAction>)
        requires
            old(self).wf(),
            old(self).depth() > 0,
        ensures
            final(self).wf(),
            final(self).depth() == old(self).depth() + 1,
            final(self).dir_name(old(self).depth() as int) == file_name@,
            forall|i: int| 0 <= i < old(self).depth() ==> final(self).dir_name(i) == old(self).dir_name(i),
            create ==> final(self).created_count() == final(self).depth()
                && r@ == create_actions(old(self).created_count() as int, final(self).depth() as int),
            !create ==> final(self).created_count() == old(self).created_count() && r@.len() == 0,
            final(self).spec_current_match() == old(self).spec_current_match(),
            final(self).spec_flags() == old(self).spec_flags(),
    {
        let ghost before = self.names@;
        self.names.push(file_name);
        self.match_stack.push(self.current_match);
        proof {
            assert forall|i: int| 0 <= i < before.len() implies self.names@[i] == before[i] by {}
        }
        if create {
            self.create_missing()
        } else {
            Vec::new()
        }
    }

    /// Leaves the innermost directory: its metadata is applied if it was
    /// created.
    pub fn leave_directory(&mut self) -> (r: Result<Option<ExtractAction>, ExtractError>)
        requires
            old(self).wf(),
        ensures
            final(self).wf(),
            old(self).depth() == 0 <==> r is Err,
            r matches Err(e) ==> e == ExtractError::StackUnderrun && final(self).depth() == 0,
            r is Ok ==> final(self).depth() + 1 == old(self).depth(),
            r is Ok ==> (r->Ok_0 is Some <==> old(self).created_count() == old(self).depth()),
            r matches Ok(Some(a)) ==> a == ExtractAction::ApplyDirMetadata,
            r is Ok ==> final(self).created_count() == if old(self).created_count() == old(self).depth() {
                final(self).depth()
            } else {
                old(self).created_count()
            },
            forall|i: int| 0 <= i < final(self).depth() ==> final(self).dir_name(i) == old(self).dir_name(i),
            final(self).spec_flags() == old(self).spec_flags(),
    {
        let n = self.names.len();
        if n == 0 {
            return Err(ExtractError::StackUnderrun);
        }
        let was_created = self.created == n;
        self.names.pop();
        self.current_match = match self.match_stack.pop() {
            Some(m) => m,
            None => true,
        };
        if was_created {
            self.created = n - 1;
            if n == 1 {
                self.created = 0;
            }
            Ok(Some(ExtractAction::ApplyDirMetadata))
        } else {
            Ok(None)
        }
    }

    /// Handles one archive entry after the root: checks its name, decides
    /// with the match list and the inherited state whether it is kept, and
    /// returns what to do.
    pub fn step(&mut self, kind: EntryKind, file_name: Vec<u8>, match_result: Option<MatchType>) -> (r: Result<Vec<ExtractAction>, ExtractError>)
        requires
            old(self).wf(),
        ensures
            final(self).wf(),
            file_name_spec(file_name@) is Err ==> r == Err::<Vec<ExtractAction>, ExtractError>(file_name_spec(file_name@)->Err_0),
            file_name_spec(file_name@) is Ok && kind == EntryKind::Directory && old(self).depth() > 0 ==> {
                &&& r is Ok
                &&& final(self).depth() == old(self).depth() + 1
                &&& final(self).dir_name(old(self).depth() as int) == file_name@
                &&& final(self).spec_current_match() == did_match_spec(match_result, old(self).spec_current_match())
                &&& if old(self).spec_current_match() && match_result != Some(MatchType::Exclude) {
                    r->Ok_0@ == create_actions(old(self).created_count() as int, old(self).depth() as int + 1)
                } else {
                    r->Ok_0@.len() == 0
                }
            },
            file_name_spec(file_name@) is Ok && kind == EntryKind::GoodbyeTable ==> {
                &&& (r is Err <==> old(self).depth() == 0)
                &&& r is Ok ==> final(self).depth() + 1 == old(self).depth()
                &&& r is Ok ==> (r->Ok_0@ == if old(self).created_count() == old(self).depth() {
                    seq![ExtractAction::ApplyDirMetadata]
                } else {
                    Seq::<ExtractAction>::empty()
                })
            },
            file_name_spec(file_name@) is Ok && kind != EntryKind::Directory && kind != EntryKind::GoodbyeTable
                && old(self).depth() > 0 ==> {
                &&& r is Ok
                &&& final(self).depth() == old(self).depth()
                &&& (did_match_spec(match_result, old(self).spec_current_match()) && kind_allowed(old(self).spec_flags(), kind)
                    ==> r->Ok_0@ == create_actions(old(self).created_count() as int, old(self).depth() as int)
                        + seq![ExtractAction::Extract(kind)])
                &&& (!(did_match_spec(match_result, old(self).spec_current_match()) && kind_allowed(old(self).spec_flags(), kind))
                    ==> r->Ok_0@.len() == 0)
            },
    {
        check_file_name(file_name.as_slice())?;
        let keep = did_match(match_result, self.current_match);
        match kind {
            EntryKind::Directory => {
                if self.names.len() == 0 {
                    return Err(ExtractError::StackUnderrun);
                }
                let excluded = match match_result {
                    Some(MatchType::Exclude) => true,
                    _ => false,
                };
                let create = self.current_match && !excluded;
                let actions = self.enter_directory(file_name, create);
                self.current_match = keep;
                Ok(actions)
            }
            EntryKind::GoodbyeTable => {
                match self.leave_directory()? {
                    Some(a) => {
                        let mut v: Vec<ExtractAction> = Vec::new();
                        v.push(a);
                        assert(v@ =~= seq![ExtractAction::ApplyDirMetadata]);
                        Ok(v)
                    }
                    None => {
                        let v: Vec<ExtractAction> = Vec::new();
                        assert(v@ =~= Seq::<ExtractAction>::empty());
                        Ok(v)
                    }
                }
            }
            _ => {
                if self.names.len() == 0 {
                    return Err(ExtractError::StackUnderrun);
                }
                let allowed = match kind {
                    EntryKind::Device => self.feature_flags & WITH_DEVICE_NODES != 0,
                    EntryKind::Fifo => self.feature_flags & WITH_FIFOS != 0,
                    EntryKind::Socket => self.feature_flags & WITH_SOCKETS != 0,
                    _ => true,
                };
                if keep && allowed {
                    let mut actions = self.create_missing();
                    actions.push(ExtractAction::Extract(kind));
                    Ok(actions)
                } else {
                    Ok(Vec::new())
                }
            }
        }
    }

    /// Ends the extraction: every directory must have been closed.
    pub fn finish(&self) -> (r: Result<(), ExtractError>)
        ensures
            r is Ok <==> self.depth() == 0,
            r matches Err(e) ==> e == ExtractError::UnexpectedEof,
    {
        if self.names.len() != 0 {
            return Err(ExtractError::UnexpectedEof);
        }
        Ok(())
    }
}

} // verus!
