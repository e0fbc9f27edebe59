//! The exports-field resolver: given a package's `exports` map and a
//! requested sub-path, select the best-matching physical file among the
//! advertised entries. Matching is best-effort over common single-string and
//! condition-object targets; an unrecognized shape is reported as an explicit
//! `Unsupported` outcome rather than a hard failure.

use vstd::prelude::*;
use crate::fs_model::{find_closest_package_json_folder, spec_find_pkg_folder, FileSystem};
use crate::package::{exports_view, str_views, ExportsTarget, ResolveError, TargetView};
use crate::paths::{join_path, spec_join, spec_strip_ext, strip_ext};
use crate::text::{contains_seq, contains_sub, ends_with_seq, ends_with_str};

verus! {

/// The priority rank of an export target path; lower is preferred. Plain
/// `.js`-style targets come first, then CommonJS `.cjs`, then ESM-only
/// `.mjs`, then everything else. This encodes a dual-package build
/// convention, not a requirement of the exports field: it is the default
/// tie-break policy, kept in one place so it can be replaced.
pub open spec fn spec_target_rank(s: Seq<char>) -> int {
    if ends_with_seq(s, ".js"@) {
        0
    } else if ends_with_seq(s, ".cjs"@) {
        1
    } else if ends_with_seq(s, ".mjs"@) {
        2
    } else {
        3
    }
}

pub fn target_rank(s: &str) -> (r: usize)
    ensures
        r == spec_target_rank(s@),
{
    if ends_with_str(s, ".js") {
        0
    } else if ends_with_str(s, ".cjs") {
        1
    } else if ends_with_str(s, ".mjs") {
        2
    } else {
        3
    }
}

/// The physical paths one export target offers, in file order.
pub open spec fn targets_of(t: TargetView) -> Seq<Seq<char>> {
    match t {
        TargetView::Single(s) => seq![s],
        TargetView::Conditional(m) => m.map_values(|p: (Seq<char>, Seq<char>)| p.1),
    }
}

/// Every target path of the first `i` entries, flattened in file order.
pub open spec fn flatten_upto(entries: Seq<(Seq<char>, TargetView)>, i: int) -> Seq<Seq<char>>
    decreases i,
{
    if i <= 0 {
        Seq::<Seq<char>>::empty()
    } else {
        flatten_upto(entries, i - 1) + targets_of(entries[i - 1].1)
    }
}

pub open spec fn flatten_targets(entries: Seq<(Seq<char>, TargetView)>) -> Seq<Seq<char>> {
    flatten_upto(entries, entries.len() as int)
}

pub fn targets_of_exec(t: &ExportsTarget) -> (r: Vec<String>)
    ensures
        str_views(r@) == targets_of(t@),
{
    match t {
        ExportsTarget::Single(s) => {
            let mut out: Vec<String> = Vec::new();
            out.push(s.clone());
            proof {
                assert(str_views(out@) =~= targets_of(t@));
            }
            out
        },
        ExportsTarget::Conditional(m) => {
            let mut out: Vec<String> = Vec::new();
            let mut j: usize = 0;
            while j < m.len()
                invariant
                    0 <= j <= m@.len(),
                    out@.len() == j,
                    forall|k: int| 0 <= k < j ==> (#[trigger] out@[k])@ == m@[k].1@,
                decreases m@.len() - j,
            {
                out.push(m[j].1.clone());
                j += 1;
            }
            proof {
                assert(str_views(out@) =~= targets_of(t@));
            }
            out
        },
    }
}

/// All export target paths of the map, flattened in file order.
pub fn flatten_exports(exports: &Vec<(String, ExportsTarget)>) -> (r: Vec<String>)
    ensures
        str_views(r@) == flatten_targets(exports_view(exports@)),
{
    let mut out: Vec<String> = Vec::new();
    let mut i: usize = 0;
    while i < exports.len()
        invariant
            0 <= i <= exports@.len(),
            str_views(out@) == flatten_upto(exports_view(exports@), i as int),
        decreases exports@.len() - i,
    {
        let mut ts = targets_of_exec(&exports[i].1);
        let ghost prev = out@;
        let mut k: usize = 0;
        let ghost ts0 = ts@;
        while k < ts.len()
            invariant
                0 <= k <= ts0.len(),
                ts@ == ts0,
                out@.len() == prev.len() + k,
                forall|j: int| 0 <= j < prev.len() ==> out@[j] == prev[j],
                forall|j: int| 0 <= j < k ==> out@[prev.len() + j] == ts0[j],
            decreases ts0.len() - k,
        {
            let item = ts[k].clone();
            proof {
                assert(item@ == ts0[k as int]@);
            }
            out.push(item);
            k += 1;
        }
        proof {
            assert(str_views(out@) =~= str_views(prev) + str_views(ts0));
            assert(exports_view(exports@)[i as int].1 == exports@[i as int].1@);
            assert(str_views(out@) =~= flatten_upto(exports_view(exports@), i + 1));
        }
        i += 1;
    }
    proof {
        assert(str_views(out@) =~= flatten_targets(exports_view(exports@)));
    }
    out
}

/// The best candidate among the first `i` that contains `token`: lowest
/// priority rank wins, and the earliest candidate wins within a rank.
/// Equivalent to a stable sort by rank followed by taking the first match.
pub open spec fn spec_best_upto(cands: Seq<Seq<char>>, i: int, token: Seq<char>) -> Option<
    Seq<char>,
>
    decreases i,
{
    if i <= 0 {
        None
    } else {
        let prev = spec_best_upto(cands, i - 1, token);
        let x = cands[i - 1];
        if !contains_seq(x, token) {
            prev
        } else {
            match prev {
                None => Some(x),
                Some(b) => if spec_target_rank(x) < spec_target_rank(b) {
                    Some(x)
                } else {
                    Some(b)
                },
            }
        }
    }
}

pub open spec fn spec_best_target(cands: Seq<Seq<char>>, token: Seq<char>) -> Option<Seq<char>> {
    spec_best_upto(cands, cands.len() as int, token)
}

pub fn best_target(cands: &Vec<String>, token: &str) -> (r: Option<String>)
    ensures
        match r {
            Some(s) => spec_best_target(str_views(cands@), token@) == Some(s@),
            None => spec_best_target(str_views(cands@), token@) is None,
        },
{
    let mut best: Option<String> = None;
    let mut i: usize = 0;
    while i < cands.len()
        invariant
            0 <= i <= cands@.len(),
            match best {
                Some(b) => spec_best_upto(str_views(cands@), i as int, token@) == Some(b@),
                None => spec_best_upto(str_views(cands@), i as int, token@) is None,
            },
        decreases cands@.len() - i,
    {
        let x = &cands[i];
        if contains_sub(x.as_str(), token) {
            let replace = match &best {
                None => true,
                Some(b) => target_rank(x.as_str()) < target_rank(b.as_str()),
            };
            if replace {
                best = Some(x.clone());
            }
        }
        i += 1;
    }
    best
}

/// Lexicographic order on character sequences.
pub open spec fn lex_le(a: Seq<char>, b: Seq<char>) -> bool
    decreases a.len(),
{
    if a.len() == 0 {
        true
    } else if b.len() == 0 {
        false
    } else if a[0] == b[0] {
        lex_le(a.drop_first(), b.drop_first())
    } else {
        (a[0] as u32) < (b[0] as u32)
    }
}

pub fn str_lex_le(a: &str, b: &str) -> (r: bool)
    ensures
        r == lex_le(a@, b@),
{
    let a_len: usize = a.unicode_len();
    let b_len: usize = b.unicode_len();
    proof {
        assert(a@.skip(0) =~= a@);
        assert(b@.skip(0) =~= b@);
    }
    let mut i: usize = 0;
    loop
        invariant
            a_len == a@.len(),
            b_len == b@.len(),
            0 <= i <= a_len,
            0 <= i <= b_len,
            lex_le(a@, b@) == lex_le(
                a@.skip(i as int),
                b@.skip(i as int),
            ),
        decreases a_len - i,
    {
        if i == a_len {
            return true;
        }
        if i == b_len {
            return false;
        }
        let ca = a.get_char(i);
        let cb = b.get_char(i);
        if ca != cb {
            return (ca as u32) < (cb as u32);
        }
        proof {
            assert(a@.skip(i as int).drop_first() =~= a@.skip(i + 1));
            assert(b@.skip(i as int).drop_first() =~= b@.skip(i + 1));
        }
        i += 1;
    }
}

/// The first target stored under `key`, scanning the map in order.
pub open spec fn spec_lookup_target(
    entries: Seq<(Seq<char>, TargetView)>,
    key: Seq<char>,
) -> Option<TargetView>
    decreases entries.len(),
{
    if entries.len() == 0 {
        None
    } else if entries[0].0 == key {
        Some(entries[0].1)
    } else {
        spec_lookup_target(entries.drop_first(), key)
    }
}

pub fn lookup_target<'a>(exports: &'a Vec<(String, ExportsTarget)>, key: &str) -> (r: Option<
    &'a ExportsTarget,
>)
    ensures
        match r {
            Some(t) => spec_lookup_target(exports_view(exports@), key@) == Some(t@),
            None => spec_lookup_target(exports_view(exports@), key@) is None,
        },
{
    proof {
        assert(exports_view(exports@).subrange(0, exports_view(exports@).len() as int)
            =~= exports_view(exports@));
    }
    let mut i: usize = 0;
    while i < exports.len()
        invariant
            0 <= i <= exports@.len(),
            spec_lookup_target(exports_view(exports@), key@) == spec_lookup_target(
                exports_view(exports@).subrange(i as int, exports_view(exports@).len() as int),
                key@,
            ),
        decreases exports@.len() - i,
    {
        proof {
            assert(exports_view(exports@).subrange(
                i as int,
                exports_view(exports@).len() as int,
            ).drop_first() =~= exports_view(exports@).subrange(
                i + 1,
                exports_view(exports@).len() as int,
            ));
        }
        if crate::text::str_eq(exports[i].0.as_str(), key) {
            return Some(&exports[i].1);
        }
        i += 1;
    }
    None
}

/// Whether the entry stored under `key` offers at least one target path.
pub open spec fn key_has_targets(entries: Seq<(Seq<char>, TargetView)>, key: Seq<char>) -> bool {
    match spec_lookup_target(entries, key) {
        Some(t) => targets_of(t).len() > 0,
        None => false,
    }
}

/// The winning key among the first `i` entries: a key that contains `token`
/// and stores at least one target; the lexicographically greatest such key
/// wins, the later entry winning among equals. Equivalent to iterating the
/// keys in sorted order and letting the last match stand.
pub open spec fn spec_best_key_upto(
    entries: Seq<(Seq<char>, TargetView)>,
    i: int,
    token: Seq<char>,
) -> Option<Seq<char>>
    decreases i,
{
    if i <= 0 {
        None
    } else {
        let prev = spec_best_key_upto(entries, i - 1, token);
        let x = entries[i - 1].0;
        if contains_seq(x, token) && key_has_targets(entries, x) {
            match prev {
                None => Some(x),
                Some(b) => if lex_le(b, x) {
                    Some(x)
                } else {
                    Some(b)
                },
            }
        } else {
            prev
        }
    }
}

pub open spec fn spec_best_key(entries: Seq<(Seq<char>, TargetView)>, token: Seq<char>) -> Option<
    Seq<char>,
> {
    spec_best_key_upto(entries, entries.len() as int, token)
}

pub fn best_key(exports: &Vec<(String, ExportsTarget)>, token: &str) -> (r: Option<String>)
    ensures
        match r {
            Some(k) => spec_best_key(exports_view(exports@), token@) == Some(k@),
            None => spec_best_key(exports_view(exports@), token@) is None,
        },
{
    let mut best: Option<String> = None;
    let mut i: usize = 0;
    while i < exports.len()
        invariant
            0 <= i <= exports@.len(),
            match best {
                Some(b) => spec_best_key_upto(exports_view(exports@), i as int, token@) == Some(
                    b@,
                ),
                None => spec_best_key_upto(exports_view(exports@), i as int, token@) is None,
            },
        decreases exports@.len() - i,
    {
        let x = &exports[i].0;
        let mut eligible = contains_sub(x.as_str(), token);
        if eligible {
            eligible = match lookup_target(exports, x.as_str()) {
                Some(t) => match t {
                    ExportsTarget::Single(_) => true,
                    ExportsTarget::Conditional(m) => m.len() > 0,
                },
                None => false,
            };
        }
        if eligible {
            let replace = match &best {
                None => true,
                Some(b) => str_lex_le(b.as_str(), x.as_str()),
            };
            if replace {
                best = Some(x.clone());
            }
        }
        i += 1;
    }
    best
}

/// A successful exports lookup carries the selected path; `Unsupported`
/// means the map's shape offered no match and the caller must fall back.
pub enum ExportsResolution {
    Resolved(String),
    Unsupported,
}

/// The token matched against export entries: the requested sub-path with
/// its extension stripped, the empty sub-path standing for an index entry.
pub open spec fn spec_norm_token(subpath: Seq<char>) -> Seq<char> {
    let t = spec_strip_ext(subpath);
    if t.len() == 0 {
        "index."@
    } else {
        t
    }
}

/// The exports-field selection for a sub-path against a package rooted at
/// `pkg_folder`: first the best target path that contains the token; then,
/// by key, the best target of the winning key; otherwise nothing.
pub open spec fn spec_resolve_exports(
    exports: Seq<(Seq<char>, TargetView)>,
    pkg_folder: Seq<char>,
    subpath: Seq<char>,
) -> Option<Seq<char>> {
    let token = spec_norm_token(subpath);
    match spec_best_target(flatten_targets(exports), token) {
        Some(v) => Some(spec_join(pkg_folder, v)),
        None => match spec_best_key(exports, token) {
            Some(k) => match spec_lookup_target(exports, k) {
                Some(t) => match spec_best_target(targets_of(t), Seq::<char>::empty()) {
                    Some(v) => Some(spec_join(pkg_folder, v)),
                    None => None,
                },
                None => None,
            },
            None => None,
        },
    }
}

/// Resolve a sub-path against a package's `exports` map. The package root
/// is the nearest directory holding a `package.json` at or above
/// `resolved_node_modules_path`; with no such directory the descriptor
/// is missing and resolution cannot proceed.
pub fn resolve_package_json_exports(
    potential_import_segment_path: &str,
    exports: &Vec<(String, ExportsTarget)>,
    resolved_node_modules_path: &str,
    fs: &FileSystem,
) -> (r: Result<ExportsResolution, ResolveError>)
    ensures
        match spec_find_pkg_folder(*fs, resolved_node_modules_path@) {
            Some(folder) => match r {
                Ok(ExportsResolution::Resolved(p)) => spec_resolve_exports(
                    exports_view(exports@),
                    folder,
                    potential_import_segment_path@,
                ) == Some(p@),
                Ok(ExportsResolution::Unsupported) => spec_resolve_exports(
                    exports_view(exports@),
                    folder,
                    potential_import_segment_path@,
                ) is None,
                Err(_) => false,
            },
            None => (r matches Err(ResolveError::MalformedPackageDescriptor { dir }) && dir@
                == resolved_node_modules_path@),
        },
{
    let stripped = strip_ext(potential_import_segment_path);
    let token = if stripped.as_str().is_empty() {
        String::from_str("index.")
    } else {
        stripped
    };
    let folder = match find_closest_package_json_folder(fs, resolved_node_modules_path) {
        Some(f) => f,
        None => {
            return Err(
                ResolveError::MalformedPackageDescriptor {
                    dir: String::from_str(resolved_node_modules_path),
                },
            );
        },
    };
    let cands = flatten_exports(exports);
    if let Some(v) = best_target(&cands, token.as_str()) {
        return Ok(ExportsResolution::Resolved(join_path(folder.as_str(), v.as_str())));
    }
    match best_key(exports, token.as_str()) {
        Some(k) => match lookup_target(exports, k.as_str()) {
            Some(t) => {
                let ts = targets_of_exec(t);
                match best_target(&ts, "") {
                    Some(v) => {
                        proof {
                            reveal_strlit("");
                            assert(""@ =~= Seq::<char>::empty());
                        }
                        Ok(ExportsResolution::Resolved(join_path(folder.as_str(), v.as_str())))
                    },
                    None => {
                        proof {
                            reveal_strlit("");
                            assert(""@ =~= Seq::<char>::empty());
                        }
                        Ok(ExportsResolution::Unsupported)
                    },
                }
            },
            None => Ok(ExportsResolution::Unsupported),
        },
        None => Ok(ExportsResolution::Unsupported),
    }
}

} // verus!
