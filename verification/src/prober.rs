//! The bare-specifier and alias prober: alias substitution against the alias
//! table, upward `node_modules` discovery tolerating hoisted and
//! content-addressed (pnpm-style) layouts, and selection of a package's entry
//! file through its descriptor.

use vstd::prelude::*;
use crate::exports::{
    resolve_package_json_exports, spec_resolve_exports, ExportsResolution,
};
use crate::fs_model::{lemma_parent_shorter, spec_find_pkg_folder, FileSystem};
use crate::package::{
    cache_consistent, exports_view, get_package_json, str_views, PackageDescriptorCache,
    ResolveError,
};
use crate::paths::{
    clean_path, extension_at, extension_count, join_path, spec_clean, spec_extensions, spec_join,
    spec_parent, parent_of, strip_prefix_str,
};
use crate::text::{
    concat2, concat3, ffirst_pos, first_pos, last_pos, rlast_pos, starts_with_seq,
    starts_with_str, str_eq, substr_copy,
};

verus! {

/// The first recognized extension from index `k` on whose addition to `c`
/// names an existing file.
pub open spec fn spec_try_exts(fs: FileSystem, c: Seq<char>, k: int) -> Option<Seq<char>>
    decreases spec_extensions().len() - k,
{
    if k < 0 || k >= spec_extensions().len() {
        None
    } else if fs.spec_file_exists(c + spec_extensions()[k]) {
        Some(c + spec_extensions()[k])
    } else {
        spec_try_exts(fs, c, k + 1)
    }
}

/// The existing file named by target `t`: `t` cleaned if that file exists,
/// else the first cleaned-plus-extension candidate that exists.
pub open spec fn spec_try_file(fs: FileSystem, t: Seq<char>) -> Option<Seq<char>> {
    let c = spec_clean(t);
    if fs.spec_file_exists(c) {
        Some(c)
    } else {
        spec_try_exts(fs, c, 0)
    }
}

fn try_exts(fs: &FileSystem, c: &str) -> (r: Option<String>)
    ensures
        match r {
            Some(p) => spec_try_exts(*fs, c@, 0) == Some(p@),
            None => spec_try_exts(*fs, c@, 0) is None,
        },
{
    let n = extension_count();
    let mut k: usize = 0;
    while k < n
        invariant
            n == spec_extensions().len(),
            0 <= k <= n,
            spec_try_exts(*fs, c@, 0) == spec_try_exts(*fs, c@, k as int),
        decreases n - k,
    {
        let cand = concat2(c, extension_at(k));
        if fs.file_exists(cand.as_str()) {
            return Some(cand);
        }
        k += 1;
    }
    None
}

fn try_file(fs: &FileSystem, t: &str) -> (r: Option<String>)
    ensures
        match r {
            Some(p) => spec_try_file(*fs, t@) == Some(p@),
            None => spec_try_file(*fs, t@) is None,
        },
{
    let c = clean_path(t);
    if fs.file_exists(c.as_str()) {
        return Some(c);
    }
    try_exts(fs, c.as_str())
}

/// The part of `specifier` an alias key captures: the remainder after the
/// key's prefix for a trailing-`*` pattern, the empty string for an exact
/// match, nothing otherwise.
pub open spec fn spec_match_alias(key: Seq<char>, specifier: Seq<char>) -> Option<Seq<char>> {
    if key.len() > 0 && key.last() == '*' {
        if starts_with_seq(specifier, key.drop_last()) {
            Some(specifier.skip(key.len() - 1))
        } else {
            None
        }
    } else if key == specifier {
        Some(Seq::<char>::empty())
    } else {
        None
    }
}

/// An alias value with its trailing `*` replaced by the captured remainder.
pub open spec fn spec_subst(value: Seq<char>, rest: Seq<char>) -> Seq<char> {
    if value.len() > 0 && value.last() == '*' {
        value.drop_last() + rest
    } else {
        value
    }
}

/// The first alias value from index `j` on whose substitution names an
/// existing file.
pub open spec fn spec_try_values_from(
    fs: FileSystem,
    values: Seq<Seq<char>>,
    j: int,
    rest: Seq<char>,
) -> Option<Seq<char>>
    decreases values.len() - j,
{
    if j < 0 || j >= values.len() {
        None
    } else {
        match spec_try_file(fs, spec_subst(values[j], rest)) {
            Some(p) => Some(p),
            None => spec_try_values_from(fs, values, j + 1, rest),
        }
    }
}

pub open spec fn alias_view(a: Seq<(String, Vec<String>)>) -> Seq<(Seq<char>, Seq<Seq<char>>)> {
    a.map_values(|p: (String, Vec<String>)| (p.0@, str_views(p.1@)))
}

/// The first alias entry from index `i` on that matches `specifier` and
/// whose values yield an existing file.
pub open spec fn spec_alias_from(
    fs: FileSystem,
    aliases: Seq<(Seq<char>, Seq<Seq<char>>)>,
    i: int,
    specifier: Seq<char>,
) -> Option<Seq<char>>
    decreases aliases.len() - i,
{
    if i < 0 || i >= aliases.len() {
        None
    } else {
        match spec_match_alias(aliases[i].0, specifier) {
            Some(rest) => match spec_try_values_from(fs, aliases[i].1, 0, rest) {
                Some(p) => Some(p),
                None => spec_alias_from(fs, aliases, i + 1, specifier),
            },
            None => spec_alias_from(fs, aliases, i + 1, specifier),
        }
    }
}

fn alias_rest(key: &str, specifier: &str) -> (r: Option<String>)
    ensures
        match r {
            Some(rest) => spec_match_alias(key@, specifier@) == Some(rest@),
            None => spec_match_alias(key@, specifier@) is None,
        },
{
    let key_len: usize = key.unicode_len();
    if key_len > 0 && key.get_char(key_len - 1) == '*' {
        let pre = substr_copy(key, 0, key_len - 1);
        proof {
            assert(pre@ =~= key@.drop_last());
        }
        match strip_prefix_str(specifier, pre.as_str()) {
            Some(rest) => {
                proof {
                    assert(rest@ =~= specifier@.skip(key@.len() - 1));
                }
                Some(rest)
            },
            None => None,
        }
    } else if str_eq(key, specifier) {
        Some(String::new())
    } else {
        None
    }
}

fn subst_value(value: &str, rest: &str) -> (r: String)
    ensures
        r@ == spec_subst(value@, rest@),
{
    let v_len: usize = value.unicode_len();
    if v_len > 0 && value.get_char(v_len - 1) == '*' {
        let head = substr_copy(value, 0, v_len - 1);
        proof {
            assert(head@ =~= value@.drop_last());
        }
        concat2(head.as_str(), rest)
    } else {
        String::from_str(value)
    }
}

fn try_alias_values(fs: &FileSystem, values: &Vec<String>, rest: &str) -> (r: Option<String>)
    ensures
        match r {
            Some(p) => spec_try_values_from(*fs, str_views(values@), 0, rest@) == Some(p@),
            None => spec_try_values_from(*fs, str_views(values@), 0, rest@) is None,
        },
{
    let mut j: usize = 0;
    while j < values.len()
        invariant
            0 <= j <= values@.len(),
            spec_try_values_from(*fs, str_views(values@), 0, rest@) == spec_try_values_from(
                *fs,
                str_views(values@),
                j as int,
                rest@,
            ),
        decreases values@.len() - j,
    {
        let target = subst_value(values[j].as_str(), rest);
        if let Some(p) = try_file(fs, target.as_str()) {
            return Some(p);
        }
        j += 1;
    }
    None
}

/// The path the alias table maps `specifier` to, when some matching alias
/// entry names an existing file.
pub fn resolve_alias(
    fs: &FileSystem,
    aliases: &Vec<(String, Vec<String>)>,
    specifier: &str,
) -> (r: Option<String>)
    ensures
        match r {
            Some(p) => spec_alias_from(*fs, alias_view(aliases@), 0, specifier@) == Some(p@),
            None => spec_alias_from(*fs, alias_view(aliases@), 0, specifier@) is None,
        },
{
    let mut i: usize = 0;
    while i < aliases.len()
        invariant
            0 <= i <= aliases@.len(),
            spec_alias_from(*fs, alias_view(aliases@), 0, specifier@) == spec_alias_from(
                *fs,
                alias_view(aliases@),
                i as int,
                specifier@,
            ),
        decreases aliases@.len() - i,
    {
        if let Some(rest) = alias_rest(aliases[i].0.as_str(), specifier) {
            if let Some(p) = try_alias_values(fs, &aliases[i].1, rest.as_str()) {
                return Some(p);
            }
        }
        i += 1;
    }
    None
}

/// A bare specifier split into the package name and the requested sub-path:
/// scoped names (`@scope/name`) keep their first two segments.
pub open spec fn spec_package_name(s: Seq<char>) -> (Seq<char>, Seq<char>) {
    if s.len() > 0 && s[0] == '@' {
        match first_pos(s, "/"@) {
            Some(i) => match first_pos(s.skip(i + 1), "/"@) {
                Some(j) => (s.subrange(0, i + 1 + j), s.skip(i + 1 + j + 1)),
                None => (s, Seq::<char>::empty()),
            },
            None => (s, Seq::<char>::empty()),
        }
    } else {
        match first_pos(s, "/"@) {
            Some(i) => (s.subrange(0, i), s.skip(i + 1)),
            None => (s, Seq::<char>::empty()),
        }
    }
}

pub fn package_name_split(s: &str) -> (r: (String, String))
    ensures
        r.0@ == spec_package_name(s@).0,
        r.1@ == spec_package_name(s@).1,
{
    proof {
        reveal_strlit("/");
    }
    let s_len: usize = s.unicode_len();
    if s_len > 0 && s.get_char(0) == '@' {
        match ffirst_pos(s, "/") {
            Some(i) => {
                let tail = substr_copy(s, i + 1, s_len);
                proof {
                    assert(tail@ =~= s@.skip(i + 1));
                }
                match ffirst_pos(tail.as_str(), "/") {
                    Some(j) => {
                        let name = substr_copy(s, 0, i + 1 + j);
                        let sub = substr_copy(s, i + 1 + j + 1, s_len);
                        proof {
                            assert(sub@ =~= s@.skip(i + 1 + j + 1));
                        }
                        (name, sub)
                    },
                    None => (String::from_str(s), String::new()),
                }
            },
            None => (String::from_str(s), String::new()),
        }
    } else {
        match ffirst_pos(s, "/") {
            Some(i) => {
                let name = substr_copy(s, 0, i);
                let sub = substr_copy(s, i + 1, s_len);
                proof {
                    assert(sub@ =~= s@.skip(i + 1));
                }
                (name, sub)
            },
            None => (String::from_str(s), String::new()),
        }
    }
}

/// The install directory recovered from a content-addressed store: scanning
/// the files in order, the first one under `nm/.pnpm/` that passes through
/// `node_modules/<name>/` yields the prefix ending at that (last) marker.
pub open spec fn spec_pnpm_from(fs: FileSystem, i: int, nm: Seq<char>, name: Seq<char>) -> Option<
    Seq<char>,
>
    decreases fs.file_paths().len() - i,
{
    if i < 0 || i >= fs.file_paths().len() {
        None
    } else {
        let f = fs.file_paths()[i];
        let marker = "/node_modules/"@ + name + "/"@;
        if starts_with_seq(f, nm + "/.pnpm/"@) && last_pos(f, marker) is Some {
            Some(f.subrange(0, last_pos(f, marker)->Some_0 + marker.len() - 1))
        } else {
            spec_pnpm_from(fs, i + 1, nm, name)
        }
    }
}

pub fn pnpm_package_dir(fs: &FileSystem, nm: &str, name: &str) -> (r: Option<String>)
    ensures
        match r {
            Some(d) => spec_pnpm_from(*fs, 0, nm@, name@) == Some(d@),
            None => spec_pnpm_from(*fs, 0, nm@, name@) is None,
        },
{
    let pre = concat2(nm, "/.pnpm/");
    let marker = concat3("/node_modules/", name, "/");
    let marker_len: usize = marker.as_str().unicode_len();
    proof {
        reveal_strlit("/node_modules/");
        reveal_strlit("/");
    }
    let mut i: usize = 0;
    while i < fs.files.len()
        invariant
            pre@ == nm@ + "/.pnpm/"@,
            marker@ == "/node_modules/"@ + name@ + "/"@,
            marker_len == marker@.len(),
            marker_len >= 1,
            0 <= i <= fs.files@.len(),
            spec_pnpm_from(*fs, 0, nm@, name@) == spec_pnpm_from(*fs, i as int, nm@, name@),
        decreases fs.files@.len() - i,
    {
        let f = &fs.files[i];
        if starts_with_str(f.as_str(), pre.as_str()) {
            let _f_len: usize = f.as_str().unicode_len();
            if let Some(p) = rlast_pos(f.as_str(), marker.as_str()) {
                proof {
                    assert(fs.file_paths()[i as int] == f@);
                }
                return Some(substr_copy(f.as_str(), 0, p + (marker_len - 1)));
            }
        }
        proof {
            assert(fs.file_paths()[i as int] == f@);
        }
        i += 1;
    }
    None
}

/// The install directory of package `name` for an import at `start_dir`:
/// each ancestor's `node_modules` is tried for a hoisted install first, then
/// for a content-addressed one.
pub open spec fn spec_find_package_dir(fs: FileSystem, start_dir: Seq<char>, name: Seq<char>) -> Option<
    Seq<char>,
>
    decreases start_dir.len(),
{
    let nm = spec_join(start_dir, "node_modules"@);
    let direct = spec_join(nm, name);
    if fs.spec_dir_exists(direct) {
        Some(direct)
    } else {
        match spec_pnpm_from(fs, 0, nm, name) {
            Some(d) => Some(d),
            None => match spec_parent(start_dir) {
                Some(pp) => if pp.len() < start_dir.len() {
                    spec_find_package_dir(fs, pp, name)
                } else {
                    None
                },
                None => None,
            },
        }
    }
}

pub fn find_package_dir(fs: &FileSystem, start_dir: &str, name: &str) -> (r: Option<String>)
    ensures
        match r {
            Some(d) => spec_find_package_dir(*fs, start_dir@, name@) == Some(d@),
            None => spec_find_package_dir(*fs, start_dir@, name@) is None,
        },
{
    let mut cur = String::from_str(start_dir);
    loop
        invariant
            spec_find_package_dir(*fs, start_dir@, name@) == spec_find_package_dir(
                *fs,
                cur@,
                name@,
            ),
        decreases cur@.len(),
    {
        let nm = join_path(cur.as_str(), "node_modules");
        let direct = join_path(nm.as_str(), name);
        if fs.dir_exists(direct.as_str()) {
            return Some(direct);
        }
        if let Some(d) = pnpm_package_dir(fs, nm.as_str(), name) {
            return Some(d);
        }
        match parent_of(cur.as_str()) {
            Some(p) => {
                proof {
                    lemma_parent_shorter(cur@);
                }
                cur = p;
            },
            None => {
                return None;
            },
        }
    }
}

/// The outcome of probing one package install directory.
pub ghost enum SpecProbe {
    Found(Seq<char>),
    Absent,
    Failed(Seq<char>),
}

/// The entry file a package rooted at `pkg_dir` offers for `subpath`: its
/// exports map decides first; a sub-path falls back to the plain join, the
/// empty sub-path to the declared `main` and then to `index`. A directory
/// without a stored descriptor yields nothing.
pub open spec fn spec_package_entry(fs: FileSystem, pkg_dir: Seq<char>, subpath: Seq<char>) -> SpecProbe {
    match fs.spec_descriptor(pkg_dir) {
        None => SpecProbe::Absent,
        Some(d) => {
            let fallback = if subpath.len() > 0 {
                SpecProbe::Found(spec_join(pkg_dir, subpath))
            } else {
                match d.main {
                    Some(m) => SpecProbe::Found(spec_join(pkg_dir, m)),
                    None => SpecProbe::Found(spec_join(pkg_dir, "index"@)),
                }
            };
            match d.exports {
                Some(e) => match spec_find_pkg_folder(fs, pkg_dir) {
                    Some(folder) => match spec_resolve_exports(e, folder, subpath) {
                        Some(p) => SpecProbe::Found(p),
                        None => fallback,
                    },
                    None => SpecProbe::Failed(pkg_dir),
                },
                None => fallback,
            }
        },
    }
}

pub fn package_entry(
    fs: &FileSystem,
    pkg_dir: &str,
    subpath: &str,
    package_json_seen: &mut PackageDescriptorCache,
) -> (r: Result<Option<String>, ResolveError>)
    requires
        cache_consistent(*old(package_json_seen), *fs),
    ensures
        cache_consistent(*final(package_json_seen), *fs),
        old(package_json_seen).entries@.is_prefix_of(final(package_json_seen).entries@),
        match spec_package_entry(*fs, pkg_dir@, subpath@) {
            SpecProbe::Found(p) => (r matches Ok(Some(q)) && q@ == p),
            SpecProbe::Absent => r matches Ok(None),
            SpecProbe::Failed(d) => (r matches Err(
                ResolveError::MalformedPackageDescriptor { dir },
            ) && dir@ == d),
        },
{
    let d = match get_package_json(pkg_dir, fs, package_json_seen) {
        Ok(d) => d,
        Err(_) => {
            return Ok(None);
        },
    };
    match &d.exports {
        Some(e) => match resolve_package_json_exports(subpath, e, pkg_dir, fs) {
            Ok(ExportsResolution::Resolved(p)) => Ok(Some(p)),
            Ok(ExportsResolution::Unsupported) => Ok(Some(package_entry_fallback(pkg_dir, subpath, &d))),
            Err(er) => Err(er),
        },
        None => Ok(Some(package_entry_fallback(pkg_dir, subpath, &d))),
    }
}

fn package_entry_fallback(pkg_dir: &str, subpath: &str, d: &crate::package::PackageDescriptor) -> (r:
    String)
    ensures
        SpecProbe::Found(r@) == (if subpath@.len() > 0 {
            SpecProbe::Found(spec_join(pkg_dir@, subpath@))
        } else {
            match d@.main {
                Some(m) => SpecProbe::Found(spec_join(pkg_dir@, m)),
                None => SpecProbe::Found(spec_join(pkg_dir@, "index"@)),
            }
        }),
{
    if !subpath.is_empty() {
        join_path(pkg_dir, subpath)
    } else {
        match &d.main {
            Some(m) => join_path(pkg_dir, m.as_str()),
            None => join_path(pkg_dir, "index"),
        }
    }
}

/// The outcome the prober reports for one specifier from one directory:
/// first a matching alias entry that names an existing file, then the bare
/// package walk through `node_modules`.
pub open spec fn spec_resolve_bare(
    fs: FileSystem,
    source_dir: Seq<char>,
    aliases: Seq<(Seq<char>, Seq<Seq<char>>)>,
    specifier: Seq<char>,
) -> SpecProbe {
    match spec_alias_from(fs, aliases, 0, specifier) {
        Some(p) => SpecProbe::Found(p),
        None => {
            let (name, sub) = spec_package_name(specifier);
            match spec_find_package_dir(fs, source_dir, name) {
                Some(dir) => spec_package_entry(fs, dir, sub),
                None => SpecProbe::Absent,
            }
        },
    }
}

/// Probe a bare or aliased specifier from `source_dir` against the alias
/// table and the `node_modules` layout.
pub fn resolve_bare(
    fs: &FileSystem,
    source_dir: &str,
    aliases: &Vec<(String, Vec<String>)>,
    specifier: &str,
    package_json_seen: &mut PackageDescriptorCache,
) -> (r: Result<Option<String>, ResolveError>)
    requires
        cache_consistent(*old(package_json_seen), *fs),
    ensures
        cache_consistent(*final(package_json_seen), *fs),
        old(package_json_seen).entries@.is_prefix_of(final(package_json_seen).entries@),
        match spec_resolve_bare(*fs, source_dir@, alias_view(aliases@), specifier@) {
            SpecProbe::Found(p) => (r matches Ok(Some(q)) && q@ == p),
            SpecProbe::Absent => r matches Ok(None),
            SpecProbe::Failed(d) => (r matches Err(
                ResolveError::MalformedPackageDescriptor { dir },
            ) && dir@ == d),
        },
{
    if let Some(p) = resolve_alias(fs, aliases, specifier) {
        return Ok(Some(p));
    }
    let (name, sub) = package_name_split(specifier);
    match find_package_dir(fs, source_dir, name.as_str()) {
        Some(dir) => package_entry(fs, dir.as_str(), sub.as_str(), package_json_seen),
        None => Ok(None),
    }
}

} // verus!
