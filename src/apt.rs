//! Changelog URLs of packages from their origin, version and package-file
//! name.
use vstd::prelude::*;

use crate::bytes::str_eq;

verus! {

/// Why no changelog URL can be given.
#[derive(Clone, Copy, Debug, PartialEq, Eq, Structural)]
pub enum AptError {
    /// The package has no origin.
    NoOrigin,
    /// The source package name is too short for its archive prefix.
    NoPrefix,
    /// The package-file name is not `.../<host>_<path>_Packages`.
    BadFilename,
    /// Neither a Debian nor a Proxmox package.
    UnknownOrigin,
}

pub open spec fn is_digit(c: char) -> bool {
    '0' <= c && c <= '9'
}

/// The end of the run of ASCII digits starting at `i`.
pub open spec fn digits_end(v: Seq<char>, i: int) -> int
    decreases v.len() - i,
{
    if 0 <= i < v.len() && is_digit(v[i]) { digits_end(v, i + 1) } else { i }
}

/// A version without its epoch (`^[0-9]+:` removed).
pub open spec fn strip_epoch(v: Seq<char>) -> Seq<char> {
    let k = digits_end(v, 0);
    if 0 < k < v.len() && v[k] == ':' { v.subrange(k + 1, v.len() as int) } else { v }
}

/// The archive prefix of a source package: `libX` for `lib*`, else the
/// first character.
pub open spec fn debian_prefix(src: Seq<char>) -> Option<Seq<char>> {
    if src.len() >= 3 && src[0] == 'l' && src[1] == 'i' && src[2] == 'b' {
        if src.len() >= 4 { Some(src.subrange(0, 4)) } else { None }
    } else if src.len() >= 1 {
        Some(src.subrange(0, 1))
    } else {
        None
    }
}

pub open spec fn packages_suffix() -> Seq<char> {
    seq!['_', 'P', 'a', 'c', 'k', 'a', 'g', 'e', 's']
}

/// The first `_` at or after `from`, or the length.
pub open spec fn first_underscore(f: Seq<char>, from: int) -> int
    decreases f.len() - from,
{
    if from >= f.len() { f.len() as int } else if f[from] == '_' { from } else { first_underscore(f, from + 1) }
}

/// A `/` at `s` after which a `_` comes before the `_Packages` suffix.
pub open spec fn slash_ok(f: Seq<char>, s: int) -> bool {
    0 <= s < f.len() && f[s] == '/' && first_underscore(f, s + 1) <= f.len() - 10
}

/// The last position before `n` where `slash_ok` holds, or -1.
pub open spec fn last_ok_slash(f: Seq<char>, n: int) -> int
    decreases n,
{
    if n <= 0 { -1 } else if slash_ok(f, n - 1) { n - 1 } else { last_ok_slash(f, n - 1) }
}

/// The repository path in a package-file name, as the pattern
/// `^.*/.*?_(.*)_Packages$` captures it (the last fitting `/`, then the
/// first `_` after it), with `_` turned into `/`.
pub open spec fn proxmox_base(f: Seq<char>) -> Option<Seq<char>> {
    if f.len() < 9 || f.subrange(f.len() - 9, f.len() as int) != packages_suffix() {
        None
    } else {
        let s = last_ok_slash(f, f.len() as int);
        if s < 0 {
            None
        } else {
            let u = first_underscore(f, s + 1);
            Some(slashed(f.subrange(u + 1, f.len() - 9)))
        }
    }
}

/// The characters with every `_` turned into `/`.
pub open spec fn slashed(x: Seq<char>) -> Seq<char> {
    x.map_values(|c: char| if c == '_' { '/' } else { c })
}

pub open spec fn debian_text() -> Seq<char> {
    seq!['D', 'e', 'b', 'i', 'a', 'n']
}

pub open spec fn proxmox_text() -> Seq<char> {
    seq!['P', 'r', 'o', 'x', 'm', 'o', 'x']
}

/// The changelog URL of a package.
pub open spec fn changelog_url_spec(package: Seq<char>, filename: Seq<char>, source_pkg: Seq<char>, version: Seq<char>, source_version: Seq<char>, origin: Seq<char>) -> Result<Seq<char>, AptError> {
    if origin.len() == 0 {
        Err(AptError::NoOrigin)
    } else if origin == debian_text() {
        match debian_prefix(source_pkg) {
            None => Err(AptError::NoPrefix),
            Some(p) => Ok("https://metadata.ftp-master.debian.org/changelogs/main/"@ + p + "/"@ + source_pkg + "/"@
                + source_pkg + "_"@ + strip_epoch(source_version) + "_changelog"@),
        }
    } else if origin == proxmox_text() {
        match proxmox_base(filename) {
            None => Err(AptError::BadFilename),
            Some(b) => Ok("http://download.proxmox.com/"@ + b + "/"@ + package + "_"@ + strip_epoch(version) + ".changelog"@),
        }
    } else {
        Err(AptError::UnknownOrigin)
    }
}

fn push_range(out: &mut String, s: &str, from: usize, to: usize)
    requires
        from <= to <= s@.len(),
    ensures
        final(out)@ == old(out)@ + s@.subrange(from as int, to as int),
{
    let mut i: usize = from;
    while i < to
        invariant
            from <= i <= to,
            to <= s@.len(),
            out@ == old(out)@ + s@.subrange(from as int, i as int),
        decreases to - i,
    {
        out.push(s.get_char(i));
        assert(out@ =~= old(out)@ + s@.subrange(from as int, i + 1));
        i += 1;
    }
}

fn push_strip_epoch(out: &mut String, v: &str)
    ensures
        final(out)@ == old(out)@ + strip_epoch(v@),
{
    let n = v.unicode_len();
    let mut k: usize = 0;
    while k < n && v.get_char(k) >= '0' && v.get_char(k) <= '9'
        invariant
            k <= n,
            n == v@.len(),
            digits_end(v@, k as int) == digits_end(v@, 0),
        decreases n - k,
    {
        k += 1;
    }
    if k > 0 && k < n && v.get_char(k) == ':' {
        push_range(out, v, k + 1, n);
    } else {
        push_range(out, v, 0, n);
        assert(v@.subrange(0, n as int) =~= v@);
    }
}

/// The changelog URL of a package: Debian packages link to the Debian
/// changelog service by source package and version, Proxmox packages to
/// the repository path taken from the package-file name.
pub fn get_changelog_url(package: &str, filename: &str, source_pkg: &str, version: &str, source_version: &str, origin: &str, component: &str) -> (r: Result<String, AptError>)
    ensures
        match r {
            Ok(u) => changelog_url_spec(package@, filename@, source_pkg@, version@, source_version@, origin@) == Ok::<Seq<char>, AptError>(u@),
            Err(e) => changelog_url_spec(package@, filename@, source_pkg@, version@, source_version@, origin@) == Err::<Seq<char>, AptError>(e),
        },
{
    proof {
        reveal_strlit("Debian");
        reveal_strlit("Proxmox");
        assert("Debian"@ =~= debian_text());
        assert("Proxmox"@ =~= proxmox_text());
    }
    if origin.unicode_len() == 0 {
        return Err(AptError::NoOrigin);
    }
    if str_eq(origin, "Debian") {
        let n = source_pkg.unicode_len();
        let plen: usize = if n >= 3 && source_pkg.get_char(0) == 'l' && source_pkg.get_char(1) == 'i' && source_pkg.get_char(2) == 'b' {
            if n >= 4 { 4 } else { return Err(AptError::NoPrefix); }
        } else if n >= 1 {
            1
        } else {
            return Err(AptError::NoPrefix);
        };
        let mut url = String::new();
        url.push_str("https://metadata.ftp-master.debian.org/changelogs/main/");
        push_range(&mut url, source_pkg, 0, plen);
        url.push_str("/");
        url.push_str(source_pkg);
        url.push_str("/");
        url.push_str(source_pkg);
        url.push_str("_");
        push_strip_epoch(&mut url, source_version);
        url.push_str("_changelog");
        return Ok(url);
    }
    if str_eq(origin, "Proxmox") {
        let ghost f = filename@;
        let n = filename.unicode_len();
        if n < 9 {
            return Err(AptError::BadFilename);
        }
        let mut ok = true;
        let mut i: usize = 0;
        let suffix = "_Packages";
        proof {
            reveal_strlit("_Packages");
            assert(suffix@ =~= packages_suffix());
        }
        while i < 9
            invariant
                i <= 9,
                n == f.len(),
                f == filename@,
                n >= 9,
                suffix@ == packages_suffix(),
                ok == forall|j: int| 0 <= j < i ==> f[n - 9 + j] == packages_suffix()[j],
            decreases 9 - i,
        {
            if filename.get_char(n - 9 + i) != suffix.get_char(i) {
                ok = false;
            }
            i += 1;
        }
        if !ok {
            proof {
                let j = choose|j: int| 0 <= j < 9 && f[n - 9 + j] != packages_suffix()[j];
                assert(f.subrange(n - 9, n as int)[j] != packages_suffix()[j]);
            }
            return Err(AptError::BadFilename);
        }
        assert(f.subrange(n - 9, n as int) =~= packages_suffix());
        // last slash that has an underscore before the suffix
        let mut s: usize = n;
        let mut found = false;
        let mut u: usize = 0;
        while s > 0 && !found
            invariant
                s <= n,
                n == f.len(),
                f == filename@,
                n >= 9,
                !found ==> last_ok_slash(f, s as int) == last_ok_slash(f, n as int),
                found ==> s < n && last_ok_slash(f, n as int) == s as int && u == first_underscore(f, s + 1) && u <= n - 10,
            decreases s, if found { 0int } else { 1int },
        {
            let c = s - 1;
            if filename.get_char(c) == '/' {
                let mut j = c + 1;
                while j < n && filename.get_char(j) != '_'
                    invariant
                        c + 1 <= j <= n,
                        n == f.len(),
                        f == filename@,
                        first_underscore(f, j as int) == first_underscore(f, c + 1),
                    decreases n - j,
                {
                    j += 1;
                }
                assert(j as int == first_underscore(f, c + 1));
                if n >= 10 && j <= n - 10 {
                    assert(slash_ok(f, c as int));
                    found = true;
                    u = j;
                    s = c;
                } else {
                    assert(!slash_ok(f, c as int));
                    s = c;
                }
            } else {
                assert(!slash_ok(f, c as int));
                s = c;
            }
        }
        if !found {
            return Err(AptError::BadFilename);
        }
        let mut url = String::new();
        url.push_str("http://download.proxmox.com/");
        let ghost before = url@;
        let mut k: usize = u + 1;
        while k < n - 9
            invariant
                u + 1 <= k <= n - 9,
                n == f.len(),
                f == filename@,
                n >= 9,
                url@ == before + slashed(f.subrange(u + 1, k as int)),
            decreases n - 9 - k,
        {
            let c = filename.get_char(k);
            url.push(if c == '_' { '/' } else { c });
            assert(slashed(f.subrange(u + 1, k + 1)) =~= slashed(f.subrange(u + 1, k as int)).push(if c == '_' { '/' } else { c }));
            k += 1;
        }
        url.push_str("/");
        url.push_str(package);
        url.push_str("_");
        push_strip_epoch(&mut url, version);
        url.push_str(".changelog");
        return Ok(url);
    }
    Err(AptError::UnknownOrigin)
}

} // verus!
