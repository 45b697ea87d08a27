use vstd::prelude::*;

use crate::order::views;

verus! {

/// `s` ends with `suffix`.
pub open spec fn ends_with(s: Seq<char>, suffix: Seq<char>) -> bool {
    suffix.len() <= s.len() && s.subrange(s.len() - suffix.len(), s.len() as int) == suffix
}

/// The name of a toolchain qualified with a target triple: `-<target>` is
/// appended unless the name already ends with it.
pub open spec fn qualified(toolchain: Seq<char>, target: Seq<char>) -> Seq<char> {
    let suffix = seq!['-'] + target;
    if ends_with(toolchain, suffix) {
        toolchain
    } else {
        toolchain + suffix
    }
}

/// Whether `s` ends with `suffix`, comparing character by character.
pub(crate) fn str_ends_with(s: &str, suffix: &str) -> (r: bool)
    ensures
        r == ends_with(s@, suffix@),
{
    let n = s.unicode_len();
    let m = suffix.unicode_len();
    if m > n {
        return false;
    }
    let off = n - m;
    let mut i: usize = 0;
    while i < m
        invariant
            n == s@.len(),
            m == suffix@.len(),
            off + m == n,
            i <= m,
            forall|j: int| 0 <= j < i ==> s@[off + j] == suffix@[j],
        decreases m - i,
    {
        if s.get_char(off + i) != suffix.get_char(i) {
            assert(s@.subrange(off as int, n as int)[i as int] != suffix@[i as int]);
            return false;
        }
        i += 1;
    }
    assert(s@.subrange(off as int, n as int) =~= suffix@);
    true
}

/// Qualifies a toolchain name with the target triple `target`, unless it
/// already carries it: `"stable"` becomes `"stable-<target>"`.
pub fn qualify_with_target(toolchain: &str, target: &str) -> (r: String)
    ensures
        r@ == qualified(toolchain@, target@),
{
    let mut suffix = String::from_str("-");
    suffix.append(target);
    proof {
        reveal_strlit("-");
        assert(suffix@ =~= seq!['-'] + target@);
    }
    if str_ends_with(toolchain, suffix.as_str()) {
        String::from_str(toolchain)
    } else {
        let mut r = String::from_str(toolchain);
        r.append(suffix.as_str());
        r
    }
}

/// The path of the in-flight twin of `path`: `path` with `.tmp` appended.
pub fn with_tmp(path: &str) -> (r: String)
    ensures
        r@ == path@ + ".tmp"@,
{
    let mut r = String::from_str(path);
    r.append(".tmp");
    r
}

/// The URL of the channel manifest of `channel`.
pub fn manifest_url(channel: &str) -> (r: String)
    ensures
        r@ == "https://static.rust-lang.org/dist/channel-rust-"@ + channel@ + ".toml"@,
{
    let mut r = String::from_str("https://static.rust-lang.org/dist/channel-rust-");
    r.append(channel);
    r.append(".toml");
    r
}

/// The URL of the installer binary of the given version for `target`, whose
/// executables end in `exe_suffix` (empty but on Windows).
pub fn rustup_url(version: &str, target: &str, exe_suffix: &str) -> (r: String)
    ensures
        r@ == "https://static.rust-lang.org/rustup/archive/"@ + version@ + "/"@ + target@
            + "/rustup-init"@ + exe_suffix@,
{
    let mut r = String::from_str("https://static.rust-lang.org/rustup/archive/");
    r.append(version);
    r.append("/");
    r.append(target);
    r.append("/rustup-init");
    r.append(exe_suffix);
    r
}

/// A line without the `'\r'` of a `"\r\n"` ending.
pub open spec fn strip_cr(line: Seq<char>) -> Seq<char> {
    if line.len() > 0 && line.last() == '\r' {
        line.drop_last()
    } else {
        line
    }
}

/// The finished lines of `s` and the unfinished one after the last `'\n'`.
pub open spec fn scan_lines(s: Seq<char>) -> (Seq<Seq<char>>, Seq<char>)
    decreases s.len(),
{
    if s.len() == 0 {
        (Seq::empty(), Seq::empty())
    } else {
        let (done, cur) = scan_lines(s.drop_last());
        if s.last() == '\n' {
            (done.push(strip_cr(cur)), Seq::empty())
        } else {
            (done, cur.push(s.last()))
        }
    }
}

/// The lines of `s`: split at each `'\n'`, each without its `"\r\n"` or
/// `"\n"` ending, and no empty line after a final ending.
pub open spec fn lines(s: Seq<char>) -> Seq<Seq<char>> {
    let (done, cur) = scan_lines(s);
    if cur.len() == 0 {
        done
    } else {
        done.push(cur)
    }
}

/// The lines of `text`, as [`lines`] gives them.
pub fn split_lines(text: &str) -> (r: Vec<String>)
    ensures
        views(r@) == lines(text@),
{
    let n = text.unicode_len();
    let mut out: Vec<String> = Vec::new();
    let mut start: usize = 0;
    let mut i: usize = 0;
    while i < n
        invariant
            n == text@.len(),
            start <= i <= n,
            scan_lines(text@.take(i as int)) == (
                views(out@),
                text@.subrange(start as int, i as int),
            ),
        decreases n - i,
    {
        let c = text.get_char(i);
        assert(text@.take(i + 1).drop_last() =~= text@.take(i as int));
        if c == '\n' {
            let end = if i > start && text.get_char(i - 1) == '\r' {
                i - 1
            } else {
                i
            };
            let ghost prev = views(out@);
            let line = String::from_str(text.substring_char(start, end));
            proof {
                let cur = text@.subrange(start as int, i as int);
                assert(line@ =~= strip_cr(cur));
            }
            out.push(line);
            assert(views(out@) =~= prev.push(line@));
            start = i + 1;
            assert(text@.subrange(start as int, i + 1) =~= Seq::<char>::empty());
        } else {
            assert(text@.subrange(start as int, i + 1) =~= text@.subrange(
                start as int,
                i as int,
            ).push(c));
        }
        i += 1;
    }
    assert(text@.take(n as int) =~= text@);
    if start < n {
        let ghost prev = views(out@);
        let line = String::from_str(text.substring_char(start, n));
        out.push(line);
        assert(views(out@) =~= prev.push(line@));
    }
    out
}

} // verus!
