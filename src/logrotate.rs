//! Log rotation: which names the rotated files of a log have, and the
//! renames, compressions and removals that one rotation performs.
use vstd::prelude::*;

verus! {

/// The decimal digits of `n`.
pub open spec fn decimal(n: nat) -> Seq<char>
    decreases n,
{
    if n < 10 {
        seq![(('0' as u8) + n as u8) as char]
    } else {
        decimal(n / 10) + seq![(('0' as u8) + (n % 10) as u8) as char]
    }
}

/// Appends the decimal digits of `n`.
pub fn push_decimal(s: &mut String, n: usize)
    ensures
        final(s)@ == old(s)@ + decimal(n as nat),
    decreases n,
{
    if n >= 10 {
        push_decimal(s, n / 10);
    }
    let d = (n % 10) as u8;
    s.push((48u8 + d) as char);
    proof {
        if n >= 10 {
            assert(final(s)@ =~= old(s)@ + decimal(n as nat));
        } else {
            assert(final(s)@ =~= old(s)@ + decimal(n as nat));
        }
    }
}

/// The start of the path component that ends at `n`.
pub open spec fn seg_start(p: Seq<char>, n: int) -> int
    decreases n,
{
    if n <= 0 { 0 } else if p[n - 1] == '/' { n } else { seg_start(p, n - 1) }
}

/// Whether the first `n` characters of a path end in a file name: trailing
/// `/` and `.` components are skipped; a final `..`, a root or an empty
/// path has none.
pub open spec fn has_file_name(p: Seq<char>, n: int) -> bool
    decreases n
    via has_file_name_decreases
{
    if n <= 0 {
        false
    } else if p[n - 1] == '/' {
        has_file_name(p, n - 1)
    } else {
        let s = seg_start(p, n);
        if n - s == 1 && p[s] == '.' {
            has_file_name(p, s)
        } else if n - s == 2 && p[s] == '.' && p[s + 1] == '.' {
            false
        } else {
            true
        }
    }
}

proof fn lemma_seg_start_le(p: Seq<char>, n: int)
    ensures
        n >= 0 ==> 0 <= seg_start(p, n) <= n,
    decreases n,
{
    if n > 0 && p[n - 1] != '/' {
        lemma_seg_start_le(p, n - 1);
    }
}

#[via_fn]
proof fn has_file_name_decreases(p: Seq<char>, n: int) {
    if n > 0 && p[n - 1] != '/' {
        lemma_seg_start_le(p, n - 1);
    }
}

proof fn lemma_seg_start_bounds(p: Seq<char>, n: int)
    requires
        0 <= n <= p.len(),
    ensures
        0 <= seg_start(p, n) <= n,
        forall|i: int| seg_start(p, n) <= i < n ==> p[i] != '/',
        seg_start(p, n) > 0 ==> p[seg_start(p, n) - 1] == '/',
    decreases n,
{
    if n > 0 && p[n - 1] != '/' {
        lemma_seg_start_bounds(p, n - 1);
    }
}

/// The name of rotated file `n` of `base`: `base` itself for 0, else
/// `base.n`, with `.zst` when compressed.
pub open spec fn rotated_name(base: Seq<char>, n: nat, zst: bool) -> Seq<char> {
    if n == 0 {
        base
    } else {
        base + seq!['.'] + decimal(n) + if zst { seq!['.', 'z', 's', 't'] } else { Seq::empty() }
    }
}

/// The names held by a list of strings.
pub open spec fn names_of(v: Seq<String>) -> Seq<Seq<char>> {
    v.map_values(|f: String| f@)
}

/// Rotates a log file and names its rotated copies.
pub struct LogRotate {
    base_path: String,
    compress: bool,
}

/// The names that the rotated files of a log may have, from the newest.
pub struct LogRotateFileNames {
    base_path: String,
    count: usize,
    compress: bool,
}

/// The rotated files of a log, from the newest; the caller opens each name
/// (decompressing `.zst` files).
pub struct LogRotateFiles {
    file_names: LogRotateFileNames,
}

/// What one rotation does, in this order: renames (each file one step
/// older), compressions of rotated files that are not yet compressed, and
/// removals beyond the maximum count.
pub struct RotatePlan {
    pub renames: Vec<(String, String)>,
    pub compress: Vec<String>,
    pub remove: Vec<String>,
}

fn has_file_name_exec(p: &str) -> (r: bool)
    ensures
        r == has_file_name(p@, p@.len() as int),
{
    let len = p.unicode_len();
    let mut n: usize = len;
    loop
        invariant
            n <= len,
            len == p@.len(),
            has_file_name(p@, n as int) == has_file_name(p@, len as int),
        decreases n,
    {
        if n == 0 {
            return false;
        }
        if p.get_char(n - 1) == '/' {
            n = n - 1;
            continue;
        }
        let mut s: usize = n;
        while s > 0 && p.get_char(s - 1) != '/'
            invariant
                s <= n,
                n <= len,
                len == p@.len(),
                seg_start(p@, s as int) == seg_start(p@, n as int),
            decreases s,
        {
            s = s - 1;
        }
        proof {
            lemma_seg_start_bounds(p@, n as int);
            assert(seg_start(p@, s as int) == s);
            assert(seg_start(p@, n as int) == s);
        }
        if n - s == 1 && p.get_char(s) == '.' {
            n = s;
            continue;
        }
        if n - s == 2 && p.get_char(s) == '.' && p.get_char(s + 1) == '.' {
            return false;
        }
        return true;
    }
}

fn rotated_name_exec(base: &str, n: usize, zst: bool) -> (r: String)
    ensures
        r@ == rotated_name(base@, n as nat, zst),
{
    let mut s = base.to_owned();
    if n == 0 {
        return s;
    }
    s.push('.');
    push_decimal(&mut s, n);
    if zst {
        s.push('.');
        s.push('z');
        s.push('s');
        s.push('t');
    }
    assert(s@ =~= rotated_name(base@, n as nat, zst));
    s
}

/// Whether a name ends in `.zst`.
pub open spec fn is_zst(p: Seq<char>) -> bool {
    p.len() >= 4 && p.subrange(p.len() - 4, p.len() as int) == seq!['.', 'z', 's', 't']
}

fn is_zst_exec(p: &str) -> (r: bool)
    ensures
        r == is_zst(p@),
{
    let n = p.unicode_len();
    if n < 4 {
        return false;
    }
    let r = p.get_char(n - 4) == '.' && p.get_char(n - 3) == 'z' && p.get_char(n - 2) == 's' && p.get_char(n - 1) == 't';
    proof {
        let t = p@.subrange(n - 4, n as int);
        if r {
            assert(t =~= seq!['.', 'z', 's', 't']);
        } else {
            if t == seq!['.', 'z', 's', 't'] {
                assert(t[0] == p@[n - 4]);
                assert(t[1] == p@[n - 3]);
                assert(t[2] == p@[n - 2]);
                assert(t[3] == p@[n - 1]);
            }
        }
    }
    r
}

impl LogRotate {
    pub closed spec fn spec_base(&self) -> Seq<char> {
        self.base_path@
    }

    pub closed spec fn spec_compress(&self) -> bool {
        self.compress
    }

    /// A rotator for the log at `path`, if the path names a file (does not
    /// end in `..`, is not a root, is not empty). With `compress`, rotated
    /// files are compressed and `.zst` names are searched too.
    pub fn new(path: &str, compress: bool) -> (r: Option<Self>)
        ensures
            r is Some <==> has_file_name(path@, path@.len() as int),
            r matches Some(l) ==> l.spec_base() == path@ && l.spec_compress() == compress,
    {
        if has_file_name_exec(path) {
            Some(LogRotate { base_path: path.to_owned(), compress })
        } else {
            None
        }
    }

    /// The names of the rotated files, from the log itself onwards.
    pub fn file_names(&self) -> (r: LogRotateFileNames)
        ensures
            r.spec_base() == self.spec_base(),
            r.spec_count() == 0,
            r.spec_compress() == self.spec_compress(),
    {
        LogRotateFileNames { base_path: self.base_path.clone(), count: 0, compress: self.compress }
    }

    /// The rotated files, from the log itself onwards.
    pub fn files(&self) -> (r: LogRotateFiles)
        ensures
            r.spec_names().spec_base() == self.spec_base(),
            r.spec_names().spec_count() == 0,
            r.spec_names().spec_compress() == self.spec_compress(),
    {
        LogRotateFiles { file_names: self.file_names() }
    }

    /// Whether a log of `len` bytes (`None`: no log) is due for rotation.
    pub fn needs_rotation(len: Option<u64>, max_size: u64) -> (r: bool)
        ensures
            r == (len matches Some(l) && l > max_size),
    {
        match len {
            Some(l) => l > max_size,
            None => false,
        }
    }

    /// The rotation of the existing files `filenames` (newest first, the
    /// log itself first): each moves one place older, into a new last name
    /// `canonical.N` (`.N.zst` when compressing); with compression, the
    /// moved files from position 2 on that are not `.zst` yet are
    /// compressed; files from position `max_files` on are removed.
    pub fn rotate_plan(&self, canonical: &str, filenames: &Vec<String>, max_files: Option<usize>) -> (r: RotatePlan)
        requires
            filenames@.len() < usize::MAX,
        ensures
            filenames@.len() == 0 ==> r.renames@.len() == 0 && r.compress@.len() == 0 && r.remove@.len() == 0,
            filenames@.len() > 0 ==> {
                let all = names_of(filenames@).push(rotated_name(canonical@, filenames@.len() as nat, self.spec_compress()));
                &&& r.renames@.len() == filenames@.len()
                &&& forall|k: int| 0 <= k < r.renames@.len() ==> {
                    let i = filenames@.len() - 1 - k;
                    &&& (#[trigger] r.renames@[k]).0@ == all[i]
                    &&& r.renames@[k].1@ == all[i + 1]
                }
                &&& names_of(r.remove@) == match max_files {
                    Some(m) => if m < all.len() { all.subrange(m as int, all.len() as int) } else { Seq::empty() },
                    None => Seq::empty(),
                }
                &&& !self.spec_compress() ==> r.compress@.len() == 0
            },
    {
        let mut renames: Vec<(String, String)> = Vec::new();
        let mut compress: Vec<String> = Vec::new();
        let mut remove: Vec<String> = Vec::new();
        if filenames.len() == 0 {
            return RotatePlan { renames, compress, remove };
        }
        let ghost names = names_of(filenames@);
        let mut all: Vec<String> = Vec::new();
        let mut i: usize = 0;
        while i < filenames.len()
            invariant
                i <= filenames@.len(),
                all@.len() == i,
                forall|j: int| 0 <= j < i ==> (#[trigger] all@[j])@ == filenames@[j]@,
            decreases filenames@.len() - i,
        {
            all.push(filenames[i].clone());
            i += 1;
        }
        all.push(rotated_name_exec(canonical, filenames.len(), self.compress));
        let ghost spec_all = names.push(rotated_name(canonical@, filenames@.len() as nat, self.compress));
        assert(forall|j: int| 0 <= j < all@.len() ==> (#[trigger] all@[j])@ == spec_all[j]);
        let count = all.len();
        let mut k: usize = 0;
        while k < count - 1
            invariant
                count == all@.len(),
                count == filenames@.len() + 1,
                spec_all.len() == count,
                k <= count - 1,
                renames@.len() == k,
                forall|j: int| 0 <= j < all@.len() ==> (#[trigger] all@[j])@ == spec_all[j],
                forall|q: int| 0 <= q < k ==> {
                    let i = filenames@.len() - 1 - q;
                    &&& (#[trigger] renames@[q]).0@ == spec_all[i]
                    &&& renames@[q].1@ == spec_all[i + 1]
                },
            decreases count - 1 - k,
        {
            let i = count - 2 - k;
            renames.push((all[i].clone(), all[i + 1].clone()));
            k += 1;
        }
        if self.compress {
            let mut i: usize = 2;
            while i < count - 1
                invariant
                    count == all@.len(),
                    count >= 1,
                    2 <= i,
                decreases count - i,
            {
                if !is_zst_exec(all[i].as_str()) {
                    compress.push(all[i].clone());
                }
                i += 1;
            }
        }
        if let Some(m) = max_files {
            if m < count {
                let mut i: usize = m;
                assert(names_of(remove@) =~= spec_all.subrange(m as int, m as int));
                while i < count
                    invariant
                        m <= i <= count,
                        count == all@.len(),
                        spec_all.len() == count,
                        forall|j: int| 0 <= j < all@.len() ==> (#[trigger] all@[j])@ == spec_all[j],
                        names_of(remove@) == spec_all.subrange(m as int, i as int),
                    decreases count - i,
                {
                    let ghost before = remove@;
                    remove.push(all[i].clone());
                    proof {
                        assert(names_of(remove@) =~= names_of(before).push(all@[i as int]@));
                        assert(names_of(remove@) =~= spec_all.subrange(m as int, i + 1));
                    }
                    i += 1;
                }
            } else {
                assert(names_of(remove@) =~= Seq::<Seq<char>>::empty());
            }
        } else {
            assert(names_of(remove@) =~= Seq::<Seq<char>>::empty());
        }
        RotatePlan { renames, compress, remove }
    }
}

impl LogRotateFileNames {
    pub closed spec fn spec_base(&self) -> Seq<char> {
        self.base_path@
    }

    pub closed spec fn spec_count(&self) -> nat {
        self.count as nat
    }

    pub closed spec fn spec_compress(&self) -> bool {
        self.compress
    }

    /// The names to look for next: `base.N` and, when compressing,
    /// `base.N.zst` (for the log itself just `base`).
    pub fn candidates(&self) -> (r: (String, Option<String>))
        ensures
            r.0@ == rotated_name(self.spec_base(), self.spec_count(), false),
            self.spec_count() > 0 && self.spec_compress() ==> (r.1 matches Some(z) && z@ == rotated_name(self.spec_base(), self.spec_count(), true)),
            !(self.spec_count() > 0 && self.spec_compress()) ==> r.1 is None,
    {
        let plain = rotated_name_exec(self.base_path.as_str(), self.count, false);
        if self.count > 0 && self.compress {
            (plain, Some(rotated_name_exec(self.base_path.as_str(), self.count, true)))
        } else {
            (plain, None)
        }
    }

    /// How many names have been passed.
    pub fn count(&self) -> (r: usize)
        ensures
            r == self.spec_count(),
    {
        self.count
    }

    /// Moves on to the next older name.
    pub fn advance(&mut self)
        requires
            old(self).spec_count() < usize::MAX,
        ensures
            final(self).spec_count() == old(self).spec_count() + 1,
            final(self).spec_base() == old(self).spec_base(),
            final(self).spec_compress() == old(self).spec_compress(),
    {
        self.count = self.count + 1;
    }
}

impl LogRotateFiles {
    pub closed spec fn spec_names(&self) -> LogRotateFileNames {
        self.file_names
    }

    /// The names that produce the files.
    pub fn file_names(&mut self) -> (r: &mut LogRotateFileNames)
        ensures
            *r == old(self).spec_names(),
            final(self).spec_names() == *final(r),
    {
        &mut self.file_names
    }
}

} // verus!
