//! Lexical path algebra: splitting into segments, `cleanname`-style cleanup,
//! relative-path construction, the recognized source-extension list, and the
//! extension rewriting used when probing candidate paths.
//!
//! Cleanup and relative-path construction are performed by outside crates;
//! their exact lexical behaviour is stated here as spec functions.

use vstd::prelude::*;
use crate::text::{ends_with_seq, last_pos, starts_with_seq};
use crate::text::{ends_with_str, rlast_pos, starts_with_str, str_eq, substr_copy};

verus! {

/// The segments of `s` split on `/`, keeping empty segments.
pub open spec fn split_segs(s: Seq<char>) -> Seq<Seq<char>>
    decreases s.len(),
{
    if s.len() == 0 {
        seq![Seq::<char>::empty()]
    } else if s.last() == '/' {
        split_segs(s.drop_last()).push(Seq::<char>::empty())
    } else {
        let r = split_segs(s.drop_last());
        r.update(r.len() - 1, r.last().push(s.last()))
    }
}

/// Segments that name a real step: neither empty nor `.`.
pub open spec fn real_segments(s: Seq<char>) -> Seq<Seq<char>> {
    split_segs(s).filter(|seg: Seq<char>| seg.len() > 0 && seg != "."@)
}

/// One left-to-right pass of `..` elimination over a segment list, mirroring
/// the Plan 9 `cleanname` rules: `..` after a normal segment removes that
/// segment, `..` at the start of a rooted path disappears, and `..` at the
/// start of an unrooted path (or after another `..`) is kept.
pub open spec fn clean_fold(segs: Seq<Seq<char>>, rooted: bool) -> Seq<Seq<char>>
    decreases segs.len(),
{
    if segs.len() == 0 {
        Seq::<Seq<char>>::empty()
    } else {
        let prev = clean_fold(segs.drop_last(), rooted);
        let s = segs.last();
        if s == ".."@ {
            if prev.len() == 0 {
                if rooted {
                    prev
                } else {
                    prev.push(s)
                }
            } else if prev.last() == ".."@ {
                prev.push(s)
            } else {
                prev.drop_last()
            }
        } else {
            prev.push(s)
        }
    }
}

/// Segment list joined with `/` separators.
pub open spec fn join_segs(segs: Seq<Seq<char>>) -> Seq<char>
    decreases segs.len(),
{
    if segs.len() == 0 {
        Seq::<char>::empty()
    } else if segs.len() == 1 {
        segs[0]
    } else {
        join_segs(segs.drop_last()) + "/"@ + segs.last()
    }
}

pub open spec fn is_rooted(s: Seq<char>) -> bool {
    s.len() > 0 && s[0] == '/'
}

/// The lexical cleanup of a path string: repeated separators reduced, `.`
/// segments removed, `..` segments resolved; an empty result is `.`.
pub open spec fn spec_clean(s: Seq<char>) -> Seq<char> {
    let out = clean_fold(real_segments(s), is_rooted(s));
    if is_rooted(s) {
        "/"@ + join_segs(out)
    } else if out.len() == 0 {
        "."@
    } else {
        join_segs(out)
    }
}

/// An absolute path already in cleaned form.
pub open spec fn is_clean_abs(s: Seq<char>) -> bool {
    is_rooted(s) && spec_clean(s) == s
}

/// Relies on `path_clean::clean`, the lexical `cleanname` cleanup: it reduces
/// repeated separators, drops `.` segments, resolves `..` against the segment
/// before it (and drops `..` at the root), and turns an empty result into
/// `.`. It is idempotent and keeps a rooted path rooted.
#[verifier::external_body]
pub(crate) fn clean_path(s: &str) -> (r: String)
    ensures
        r@ == spec_clean(s@),
        spec_clean(r@) == r@,
        is_rooted(s@) ==> is_rooted(r@),
{
    path_clean::clean(s).to_string_lossy().into_owned()
}

/// Length of the longest common segment prefix of `a` and `b`.
pub open spec fn common_prefix_len(a: Seq<Seq<char>>, b: Seq<Seq<char>>) -> int
    decreases a.len(),
{
    if a.len() == 0 || b.len() == 0 || a[0] != b[0] {
        0
    } else {
        1 + common_prefix_len(a.drop_first(), b.drop_first())
    }
}

/// The relative path from directory `base` to `path`, both absolute and
/// clean: one `..` per base segment past the common prefix, then the
/// remaining path segments.
pub open spec fn spec_diff(path: Seq<char>, base: Seq<char>) -> Seq<char> {
    let pa = real_segments(path);
    let ba = real_segments(base);
    let k = common_prefix_len(pa, ba);
    join_segs(Seq::new((ba.len() - k) as nat, |i: int| ".."@) + pa.subrange(k, pa.len() as int))
}

/// Relies on `pathdiff::diff_paths`: for two absolute paths in cleaned form
/// it skips their common segment prefix, then climbs with one `..` per
/// remaining base segment and descends with the remaining path segments;
/// with both arguments absolute it always returns a path.
#[verifier::external_body]
pub(crate) fn diff_paths_str(path: &str, base: &str) -> (r: Option<String>)
    requires
        is_clean_abs(path@),
        is_clean_abs(base@),
    ensures
        match r {
            Some(d) => d@ == spec_diff(path@, base@),
            None => false,
        },
{
    pathdiff::diff_paths(path, base).map(|p| p.to_string_lossy().into_owned())
}

/// The recognized source extensions, in resolution priority order.
pub open spec fn spec_extensions() -> Seq<Seq<char>> {
    seq![".tsx"@, ".ts"@, ".jsx"@, ".js"@, ".mjs"@, ".cjs"@, ".mdx"@, ".md"@]
}

/// `s` ends in one of the recognized source extensions.
pub open spec fn has_recognized_ext(s: Seq<char>) -> bool {
    exists|k: int| 0 <= k < spec_extensions().len() && ends_with_seq(s, spec_extensions()[k])
}

pub fn extension_count() -> (r: usize)
    ensures
        r == spec_extensions().len(),
{
    8
}

pub fn extension_at(k: usize) -> (r: &'static str)
    requires
        k < spec_extensions().len(),
    ensures
        r@ == spec_extensions()[k as int],
{
    if k == 0 {
        ".tsx"
    } else if k == 1 {
        ".ts"
    } else if k == 2 {
        ".jsx"
    } else if k == 3 {
        ".js"
    } else if k == 4 {
        ".mjs"
    } else if k == 5 {
        ".cjs"
    } else if k == 6 {
        ".mdx"
    } else {
        ".md"
    }
}

pub fn has_recognized_extension(s: &str) -> (r: bool)
    ensures
        r == has_recognized_ext(s@),
{
    let n = extension_count();
    let mut k: usize = 0;
    while k < n
        invariant
            n == spec_extensions().len(),
            0 <= k <= n,
            forall|j: int| 0 <= j < k ==> !ends_with_seq(s@, spec_extensions()[j]),
        decreases n - k,
    {
        if ends_with_str(s, extension_at(k)) {
            return true;
        }
        k += 1;
    }
    false
}

/// The final segment of `p`: everything after the last `/`, or all of `p`.
pub open spec fn spec_file_name(p: Seq<char>) -> Seq<char> {
    match last_pos(p, "/"@) {
        None => p,
        Some(i) => p.subrange(i + 1, p.len() as int),
    }
}

pub fn file_name_of(p: &str) -> (r: String)
    ensures
        r@ == spec_file_name(p@),
{
    proof {
        reveal_strlit("/");
    }
    let p_len: usize = p.unicode_len();
    match rlast_pos(p, "/") {
        None => String::from_str(p),
        Some(i) => substr_copy(p, i + 1, p_len),
    }
}

/// The extension of file name `f`: the part after the last `.`, provided
/// that dot is not the first character of the name.
pub open spec fn spec_ext_of_name(f: Seq<char>) -> Option<Seq<char>> {
    match last_pos(f, "."@) {
        None => None,
        Some(i) => if i == 0 {
            None
        } else {
            Some(f.subrange(i + 1, f.len() as int))
        },
    }
}

/// An extension token `e` counts as recognized when some recognized
/// extension ends with it (so `js` is covered by `.js`).
pub open spec fn ext_token_recognized(e: Seq<char>) -> bool {
    exists|k: int| 0 <= k < spec_extensions().len() && ends_with_seq(spec_extensions()[k], e)
}

pub fn ext_token_is_recognized(e: &str) -> (r: bool)
    ensures
        r == ext_token_recognized(e@),
{
    let n = extension_count();
    let mut k: usize = 0;
    while k < n
        invariant
            n == spec_extensions().len(),
            0 <= k <= n,
            forall|j: int| 0 <= j < k ==> !ends_with_seq(spec_extensions()[j], e@),
        decreases n - k,
    {
        if ends_with_str(extension_at(k), e) {
            return true;
        }
        k += 1;
    }
    false
}

/// The candidate actually probed for path `p` under extension `ext`: a path
/// whose file name carries an unrecognized extension gets `ext` appended, a
/// path without an extension gets `ext` appended, a recognized extension is
/// left alone, and a path without a file name (empty, `.` or `..` final
/// segment) is left alone.
pub open spec fn spec_probe_path(p: Seq<char>, ext: Seq<char>) -> Seq<char> {
    let f = spec_file_name(p);
    if f.len() == 0 || f == "."@ || f == ".."@ {
        p
    } else {
        match spec_ext_of_name(f) {
            Some(e) => if ext_token_recognized(e) {
                p
            } else {
                p + ext
            },
            None => p + ext,
        }
    }
}

pub fn probe_path(p: &str, ext: &str) -> (r: String)
    ensures
        r@ == spec_probe_path(p@, ext@),
{
    let f = file_name_of(p);
    if f.as_str().is_empty() || str_eq(f.as_str(), ".") || str_eq(f.as_str(), "..") {
        return String::from_str(p);
    }
    proof {
        reveal_strlit(".");
    }
    let f_len: usize = f.as_str().unicode_len();
    let appended = match rlast_pos(f.as_str(), ".") {
        None => true,
        Some(i) => if i == 0 {
            true
        } else {
            let e = substr_copy(f.as_str(), i + 1, f_len);
            !ext_token_is_recognized(e.as_str())
        },
    };
    if appended {
        crate::text::concat2(p, ext)
    } else {
        String::from_str(p)
    }
}

/// `base` joined with `rel`: `rel` itself when it is rooted or `base` is
/// empty, otherwise the two separated by `/`.
pub open spec fn spec_join(base: Seq<char>, rel: Seq<char>) -> Seq<char> {
    if is_rooted(rel) {
        rel
    } else if base.len() == 0 {
        rel
    } else if base.last() == '/' {
        base + rel
    } else {
        base + "/"@ + rel
    }
}

pub fn join_path(base: &str, rel: &str) -> (r: String)
    ensures
        r@ == spec_join(base@, rel@),
{
    if !rel.is_empty() && rel.get_char(0) == '/' {
        return String::from_str(rel);
    }
    if base.is_empty() {
        return String::from_str(rel);
    }
    let base_len: usize = base.unicode_len();
    if base.get_char(base_len - 1) == '/' {
        return crate::text::concat2(base, rel);
    }
    crate::text::concat3(base, "/", rel)
}

/// The parent directory of `p`: everything before the last `/`; `/` for a
/// top-level absolute entry; the empty path for a bare name; nothing for the
/// empty path or the root itself.
pub open spec fn spec_parent(p: Seq<char>) -> Option<Seq<char>> {
    if p.len() == 0 {
        None
    } else {
        match last_pos(p, "/"@) {
            None => Some(Seq::<char>::empty()),
            Some(i) => if i == 0 {
                if p.len() == 1 {
                    None
                } else {
                    Some("/"@)
                }
            } else {
                Some(p.subrange(0, i))
            },
        }
    }
}

pub fn parent_of(p: &str) -> (r: Option<String>)
    ensures
        match r {
            Some(q) => spec_parent(p@) == Some(q@),
            None => spec_parent(p@) is None,
        },
{
    proof {
        reveal_strlit("/");
    }
    if p.is_empty() {
        return None;
    }
    match rlast_pos(p, "/") {
        None => Some(String::new()),
        Some(i) => if i == 0 {
            if p.unicode_len() == 1 {
                None
            } else {
                Some(String::from_str("/"))
            }
        } else {
            Some(substr_copy(p, 0, i))
        },
    }
}

/// `p` with the extension of its file name removed: characters from the
/// last `.` of the final segment onward are dropped, provided that dot is
/// not the first character of the segment.
pub open spec fn spec_strip_ext(p: Seq<char>) -> Seq<char> {
    let f = spec_file_name(p);
    if f.len() == 0 || f == "."@ || f == ".."@ {
        p
    } else {
        match last_pos(f, "."@) {
            None => p,
            Some(i) => if i == 0 {
                p
            } else {
                p.subrange(0, p.len() - (f.len() - i))
            },
        }
    }
}

pub fn strip_ext(p: &str) -> (r: String)
    ensures
        r@ == spec_strip_ext(p@),
{
    let f = file_name_of(p);
    if f.as_str().is_empty() || str_eq(f.as_str(), ".") || str_eq(f.as_str(), "..") {
        return String::from_str(p);
    }
    proof {
        reveal_strlit(".");
    }
    let p_len: usize = p.unicode_len();
    let f_len: usize = f.as_str().unicode_len();
    match rlast_pos(f.as_str(), ".") {
        None => String::from_str(p),
        Some(i) => if i == 0 {
            String::from_str(p)
        } else {
            proof {
                reveal_strlit("/");
                crate::text::lemma_last_pos(p@, "/"@);
                assert(f@.len() <= p@.len());
            }
            substr_copy(p, 0, p_len - (f_len - i))
        },
    }
}

/// The remainder of `s` after prefix `pre`, when `s` starts with it.
pub fn strip_prefix_str(s: &str, pre: &str) -> (r: Option<String>)
    ensures
        match r {
            Some(rest) => starts_with_seq(s@, pre@) && rest@ == s@.subrange(
                pre@.len() as int,
                s@.len() as int,
            ),
            None => !starts_with_seq(s@, pre@),
        },
{
    if starts_with_str(s, pre) {
        let pre_len: usize = pre.unicode_len();
        Some(substr_copy(s, pre_len, s.unicode_len()))
    } else {
        None
    }
}

} // verus!
