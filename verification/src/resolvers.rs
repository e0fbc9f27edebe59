//! The top-level resolution engine: classify an import specifier (relative,
//! absolute, aliased or bare), build candidate paths, and return the first
//! candidate that exists, probing the recognized extensions in priority
//! order. Absolute resolved paths are rewritten into portable, root-relative
//! strings through the package-boundary machinery.

use vstd::prelude::*;
use crate::exports::{
    resolve_package_json_exports, spec_resolve_exports, ExportsResolution,
};
use crate::fs_model::{
    find_closest_node_modules, find_closest_package_json_folder, spec_find_closest,
    spec_find_pkg_folder, FileSystem,
};
use crate::package::{
    cache_consistent, get_package_json, str_views, PackageDescriptorCache, ResolveError,
};
use crate::paths::{
    clean_path, extension_at, extension_count, has_recognized_ext, has_recognized_extension,
    is_clean_abs, is_rooted, join_path, parent_of, probe_path, spec_clean, spec_extensions,
    spec_join, spec_parent, spec_probe_path, strip_prefix_str,
};
use crate::prober::{
    alias_view, find_package_dir, package_entry, resolve_bare, spec_find_package_dir,
    spec_package_entry, spec_package_name, spec_resolve_bare, package_name_split, SpecProbe,
};
use crate::text::{
    concat2, concat3, contains_seq, contains_sub, ends_with_seq, ends_with_str, last_pos,
    rlast_pos, starts_with_seq, starts_with_str, str_eq, substr_copy,
};
use crate::utils::{relative_path, spec_relative_path};

verus! {

/// Everything up to and including the last `node_modules` of `p` replaced by
/// the bare token `node_modules`, recovering a portable path; `p` unchanged
/// when it has none.
pub open spec fn spec_replace_to_node_modules(p: Seq<char>) -> Seq<char> {
    match last_pos(p, "node_modules"@) {
        Some(i) => "node_modules"@ + p.skip(i + "node_modules"@.len()),
        None => p,
    }
}

fn replace_to_node_modules(p: &str) -> (r: String)
    ensures
        r@ == spec_replace_to_node_modules(p@),
{
    proof {
        reveal_strlit("node_modules");
    }
    let p_len: usize = p.unicode_len();
    match rlast_pos(p, "node_modules") {
        Some(i) => {
            let tail = substr_copy(p, i + 12, p_len);
            concat2("node_modules", tail.as_str())
        },
        None => String::from_str(p),
    }
}

/// The portable path the exports machinery yields for the resolved entry
/// `path` of a package and a requested sub-path: the package's `exports`
/// field decides when present; without one, the path is rewritten from its
/// last `node_modules` on. `Absent` marks an exports map whose shape offered
/// no match.
pub open spec fn spec_resolve_exports_path(fs: FileSystem, path: Seq<char>, sub: Seq<char>) -> SpecProbe {
    match spec_find_pkg_folder(fs, path) {
        None => SpecProbe::Failed(path),
        Some(folder) => match fs.spec_descriptor(folder) {
            None => SpecProbe::Failed(folder),
            Some(d) => match d.exports {
                Some(e) => match spec_resolve_exports(e, folder, sub) {
                    Some(p) => SpecProbe::Found(p),
                    None => SpecProbe::Absent,
                },
                None => SpecProbe::Found(spec_replace_to_node_modules(path)),
            },
        },
    }
}

/// Resolve a sub-path against the package governing `real_resolved_node_modules_path`.
pub fn resolve_exports_path(
    fs: &FileSystem,
    real_resolved_node_modules_path: &str,
    potential_file_path: &str,
    package_json_seen: &mut PackageDescriptorCache,
) -> (r: Result<Option<String>, ResolveError>)
    requires
        cache_consistent(*old(package_json_seen), *fs),
    ensures
        cache_consistent(*final(package_json_seen), *fs),
        old(package_json_seen).entries@.is_prefix_of(final(package_json_seen).entries@),
        match spec_resolve_exports_path(*fs, real_resolved_node_modules_path@, potential_file_path@) {
            SpecProbe::Found(p) => (r matches Ok(Some(q)) && q@ == p),
            SpecProbe::Absent => r matches Ok(None),
            SpecProbe::Failed(d) => (r matches Err(
                ResolveError::MalformedPackageDescriptor { dir },
            ) && dir@ == d),
        },
{
    let folder = match find_closest_package_json_folder(fs, real_resolved_node_modules_path) {
        Some(f) => f,
        None => {
            return Err(
                ResolveError::MalformedPackageDescriptor {
                    dir: String::from_str(real_resolved_node_modules_path),
                },
            );
        },
    };
    let d = match get_package_json(folder.as_str(), fs, package_json_seen) {
        Ok(d) => d,
        Err(e) => {
            return Err(e);
        },
    };
    match &d.exports {
        Some(e) => match resolve_package_json_exports(
            potential_file_path,
            e,
            real_resolved_node_modules_path,
            fs,
        ) {
            Ok(ExportsResolution::Resolved(p)) => Ok(Some(p)),
            Ok(ExportsResolution::Unsupported) => Ok(None),
            Err(er) => {
                proof {
                    assert(false);
                }
                Err(er)
            },
        },
        None => Ok(Some(replace_to_node_modules(real_resolved_node_modules_path))),
    }
}

/// The portable entry of the package a closest-`node_modules` walk from
/// `file_name` can attribute `name` to: the nearest `node_modules` joined
/// with the name (hoisted) or recovered from the content-addressed store,
/// its declared name re-read from its own descriptor, and the path prefix
/// before the first `node_modules` of `file_name` stripped off the result.
pub open spec fn spec_get_potential(fs: FileSystem, file_name: Seq<char>, name: Seq<char>) -> SpecProbe {
    let nm_base = match spec_find_closest(fs, file_name, "node_modules"@) {
        Some(nm) => nm,
        None => file_name,
    };
    let pot = spec_join(nm_base, name);
    let dir_opt = if fs.spec_dir_exists(pot) {
        Some(pot)
    } else {
        crate::prober::spec_pnpm_from(fs, 0, nm_base, name)
    };
    match dir_opt {
        None => SpecProbe::Absent,
        Some(dir) => match fs.spec_descriptor(dir) {
            None => SpecProbe::Failed(dir),
            Some(d) => match d.name {
                None => SpecProbe::Failed(dir),
                Some(pkg_name) => {
                    let remainder = match last_pos(name, pkg_name) {
                        Some(k) => name.skip(k + pkg_name.len()),
                        None => name,
                    };
                    match spec_resolve_exports_path(fs, dir, remainder) {
                        SpecProbe::Failed(x) => SpecProbe::Failed(x),
                        SpecProbe::Absent => SpecProbe::Absent,
                        SpecProbe::Found(p) => {
                            let root_subst = match crate::text::first_pos(
                                file_name,
                                "node_modules"@,
                            ) {
                                Some(i) => file_name.subrange(0, i),
                                None => file_name,
                            };
                            SpecProbe::Found(
                                if starts_with_seq(p, root_subst) {
                                    p.skip(root_subst.len() as int)
                                } else {
                                    p
                                },
                            )
                        },
                    }
                },
            },
        },
    }
}

/// Recover a package entry from a `node_modules` layout the plain walk did
/// not see, re-reading the installed package's own descriptor for its
/// declared name.
pub fn get_potential_node_modules_path(
    fs: &FileSystem,
    file_name: &str,
    name: &str,
    package_json_seen: &mut PackageDescriptorCache,
) -> (r: Result<Option<String>, ResolveError>)
    requires
        cache_consistent(*old(package_json_seen), *fs),
    ensures
        cache_consistent(*final(package_json_seen), *fs),
        old(package_json_seen).entries@.is_prefix_of(final(package_json_seen).entries@),
        match spec_get_potential(*fs, file_name@, name@) {
            SpecProbe::Found(p) => (r matches Ok(Some(q)) && q@ == p),
            SpecProbe::Absent => r matches Ok(None),
            SpecProbe::Failed(d) => (r matches Err(
                ResolveError::MalformedPackageDescriptor { dir },
            ) && dir@ == d),
        },
{
    let nm_base = match find_closest_node_modules(fs, file_name) {
        Some(nm) => nm,
        None => String::from_str(file_name),
    };
    let pot = join_path(nm_base.as_str(), name);
    let dir = if fs.dir_exists(pot.as_str()) {
        pot
    } else {
        match crate::prober::pnpm_package_dir(fs, nm_base.as_str(), name) {
            Some(d) => d,
            None => {
                return Ok(None);
            },
        }
    };
    let desc = match get_package_json(dir.as_str(), fs, package_json_seen) {
        Ok(d) => d,
        Err(_) => {
            return Err(ResolveError::MalformedPackageDescriptor { dir });
        },
    };
    let pkg_name = match &desc.name {
        Some(n) => n,
        None => {
            return Err(ResolveError::MalformedPackageDescriptor { dir });
        },
    };
    let name_len: usize = name.unicode_len();
    let pkg_name_len: usize = pkg_name.as_str().unicode_len();
    let remainder = match rlast_pos(name, pkg_name.as_str()) {
        Some(k) => substr_copy(name, k + pkg_name_len, name_len),
        None => String::from_str(name),
    };
    let p = match resolve_exports_path(fs, dir.as_str(), remainder.as_str(), package_json_seen) {
        Ok(Some(p)) => p,
        Ok(None) => {
            return Ok(None);
        },
        Err(e) => {
            return Err(e);
        },
    };
    proof {
        reveal_strlit("node_modules");
    }
    let root_subst = match crate::text::ffirst_pos(file_name, "node_modules") {
        Some(i) => substr_copy(file_name, 0, i),
        None => String::from_str(file_name),
    };
    match strip_prefix_str(p.as_str(), root_subst.as_str()) {
        Some(rest) => Ok(Some(rest)),
        None => Ok(Some(p)),
    }
}

/// The entry file for dependency `name`, resolved from `cwd`: the plain
/// `node_modules` walk first, kept only when its result passes through a
/// `node_modules` directory; a walk that finds nothing falls back to the
/// layout-recovering search.
pub open spec fn spec_get_node_modules_path(fs: FileSystem, cwd: Seq<char>, name: Seq<char>) -> SpecProbe {
    let pn = spec_package_name(name);
    match spec_find_package_dir(fs, cwd, pn.0) {
        Some(dir) => match spec_package_entry(fs, dir, pn.1) {
            SpecProbe::Found(p) => if contains_seq(p, "node_modules/"@) {
                SpecProbe::Found(p)
            } else {
                SpecProbe::Absent
            },
            SpecProbe::Absent => spec_get_potential(fs, cwd, name),
            SpecProbe::Failed(d) => SpecProbe::Failed(d),
        },
        None => spec_get_potential(fs, cwd, name),
    }
}

pub fn get_node_modules_path(
    fs: &FileSystem,
    file_name: &str,
    name: &str,
    package_json_seen: &mut PackageDescriptorCache,
) -> (r: Result<Option<String>, ResolveError>)
    requires
        cache_consistent(*old(package_json_seen), *fs),
    ensures
        cache_consistent(*final(package_json_seen), *fs),
        old(package_json_seen).entries@.is_prefix_of(final(package_json_seen).entries@),
        match spec_get_node_modules_path(*fs, file_name@, name@) {
            SpecProbe::Found(p) => (r matches Ok(Some(q)) && q@ == p),
            SpecProbe::Absent => r matches Ok(None),
            SpecProbe::Failed(d) => (r matches Err(
                ResolveError::MalformedPackageDescriptor { dir },
            ) && dir@ == d),
        },
{
    let pn = package_name_split(name);
    match find_package_dir(fs, file_name, pn.0.as_str()) {
        Some(dir) => match package_entry(fs, dir.as_str(), pn.1.as_str(), package_json_seen) {
            Ok(Some(p)) => {
                if contains_sub(p.as_str(), "node_modules/") {
                    Ok(Some(p))
                } else {
                    Ok(None)
                }
            },
            Ok(None) => get_potential_node_modules_path(fs, file_name, name, package_json_seen),
            Err(e) => Err(e),
        },
        None => get_potential_node_modules_path(fs, file_name, name, package_json_seen),
    }
}

/// `section` names a complete path segment of `rel`.
pub open spec fn spec_has_segment(rel: Seq<char>, section: Seq<char>) -> bool {
    rel == section || starts_with_seq(rel, section + "/"@) || ends_with_seq(rel, "/"@ + section)
        || contains_seq(rel, "/"@ + section + "/"@)
}

fn has_segment(rel: &str, section: &str) -> (r: bool)
    ensures
        r == spec_has_segment(rel@, section@),
{
    if str_eq(rel, section) {
        return true;
    }
    let with_trailing = concat2(section, "/");
    if starts_with_str(rel, with_trailing.as_str()) {
        return true;
    }
    let with_leading = concat2("/", section);
    if ends_with_str(rel, with_leading.as_str()) {
        return true;
    }
    let both = concat3("/", section, "/");
    contains_sub(rel, both.as_str())
}

/// Attribution of `rel` to the declared dependencies of the root package,
/// scanning from index `i` on: the first dependency whose final name
/// segment occurs as a segment of `rel` (followed by a remainder or closing
/// the path) is resolved through the `node_modules` machinery; its result,
/// or the literal `node_modules/<name><remainder>` path when that machinery
/// yields nothing, stands for the import.
pub open spec fn spec_attr_from(
    fs: FileSystem,
    root: Seq<char>,
    rel: Seq<char>,
    deps: Seq<Seq<char>>,
    i: int,
) -> SpecProbe
    decreases deps.len() - i,
{
    if i < 0 || i >= deps.len() {
        SpecProbe::Absent
    } else {
        let dep = deps[i];
        let section = match last_pos(dep, "/"@) {
            Some(k) => dep.skip(k + 1),
            None => dep,
        };
        if spec_has_segment(rel, section) {
            let after = match last_pos(rel, section) {
                Some(k) => rel.skip(k + section.len()),
                None => rel,
            };
            if after.len() > 0 || ends_with_seq(rel, "/"@ + section) {
                match spec_get_node_modules_path(fs, root, dep) {
                    SpecProbe::Failed(d) => SpecProbe::Failed(d),
                    SpecProbe::Found(p) => match spec_resolve_exports_path(fs, p, after) {
                        SpecProbe::Failed(d) => SpecProbe::Failed(d),
                        SpecProbe::Found(q) => SpecProbe::Found(q),
                        SpecProbe::Absent => SpecProbe::Found(
                            "node_modules/"@ + dep + after,
                        ),
                    },
                    SpecProbe::Absent => SpecProbe::Found("node_modules/"@ + dep + after),
                }
            } else {
                spec_attr_from(fs, root, rel, deps, i + 1)
            }
        } else {
            spec_attr_from(fs, root, rel, deps, i + 1)
        }
    }
}

/// Attribution of `rel` against the root package's descriptor.
pub open spec fn spec_attribution(fs: FileSystem, root: Seq<char>, rel: Seq<char>) -> SpecProbe {
    match fs.spec_descriptor(root) {
        None => SpecProbe::Failed(root),
        Some(d) => spec_attr_from(fs, root, rel, d.dependencies, 0),
    }
}

/// Locate the declared dependency a root-relative path belongs to and
/// compute its portable entry path.
pub fn get_package_path_by_package_json(
    fs: &FileSystem,
    cwd: &str,
    relative_package_path: &str,
    package_json_seen: &mut PackageDescriptorCache,
) -> (r: Result<Option<String>, ResolveError>)
    requires
        cache_consistent(*old(package_json_seen), *fs),
    ensures
        cache_consistent(*final(package_json_seen), *fs),
        old(package_json_seen).entries@.is_prefix_of(final(package_json_seen).entries@),
        match spec_attribution(*fs, cwd@, relative_package_path@) {
            SpecProbe::Found(p) => (r matches Ok(Some(q)) && q@ == p),
            SpecProbe::Absent => r matches Ok(None),
            SpecProbe::Failed(d) => (r matches Err(
                ResolveError::MalformedPackageDescriptor { dir },
            ) && dir@ == d),
        },
{
    let desc = match get_package_json(cwd, fs, package_json_seen) {
        Ok(d) => d,
        Err(e) => {
            return Err(e);
        },
    };
    let rel_len: usize = relative_package_path.unicode_len();
    let mut i: usize = 0;
    while i < desc.dependencies.len()
        invariant
            cache_consistent(*package_json_seen, *fs),
            old(package_json_seen).entries@.is_prefix_of(package_json_seen.entries@),
            fs.spec_descriptor(cwd@) == Some(desc@),
            0 <= i <= desc.dependencies@.len(),
            rel_len == relative_package_path@.len(),
            spec_attr_from(*fs, cwd@, relative_package_path@, desc@.dependencies, 0)
                == spec_attr_from(*fs, cwd@, relative_package_path@, desc@.dependencies, i as int),
        decreases desc.dependencies@.len() - i,
    {
        let dep = &desc.dependencies[i];
        proof {
            reveal_strlit("/");
            assert(desc@.dependencies[i as int] == dep@);
        }
        let dep_len: usize = dep.as_str().unicode_len();
        let section = match rlast_pos(dep.as_str(), "/") {
            Some(k) => substr_copy(dep.as_str(), k + 1, dep_len),
            None => dep.clone(),
        };
        if has_segment(relative_package_path, section.as_str()) {
            let section_len: usize = section.as_str().unicode_len();
            let after = match rlast_pos(relative_package_path, section.as_str()) {
                Some(k) => substr_copy(relative_package_path, k + section_len, rel_len),
                None => String::from_str(relative_package_path),
            };
            let closing = concat2("/", section.as_str());
            if !after.as_str().is_empty() || ends_with_str(
                relative_package_path,
                closing.as_str(),
            ) {
                let entry = match get_node_modules_path(fs, cwd, dep.as_str(), package_json_seen) {
                    Ok(v) => v,
                    Err(e) => {
                        return Err(e);
                    },
                };
                let pot = match entry {
                    Some(p) => {
                        match resolve_exports_path(
                            fs,
                            p.as_str(),
                            after.as_str(),
                            package_json_seen,
                        ) {
                            Ok(v) => v,
                            Err(e) => {
                                return Err(e);
                            },
                        }
                    },
                    None => None,
                };
                let result = match pot {
                    Some(p) => p,
                    None => {
                        let head = concat2("node_modules/", dep.as_str());
                        concat2(head.as_str(), after.as_str())
                    },
                };
                return Ok(Some(result));
            }
        }
        i += 1;
    }
    Ok(None)
}

/// An intermediate classification of a processing file's path: one that
/// still needs the root stripped and a cleanup, or one already portable.
pub enum BaseResolution {
    Cleanable(String),
    Verbatim(String),
}

pub ghost enum SpecBase {
    Cleanable(Seq<char>),
    Verbatim(Seq<char>),
    Absent,
    Failed(Seq<char>),
}

/// Classification of `file` against the root: under the root, the relative
/// remainder; outside the root but inside some `node_modules`, the portable
/// tail from its last `node_modules` on, taken verbatim; otherwise
/// attribution of the root-relative path to a declared dependency.
pub open spec fn spec_from_package_json(fs: FileSystem, file: Seq<char>, root: Seq<char>) -> SpecBase {
    if file == root {
        SpecBase::Cleanable(Seq::<char>::empty())
    } else if starts_with_seq(file, root + "/"@) {
        SpecBase::Cleanable(file.skip((root + "/"@).len() as int))
    } else {
        match last_pos(file, "node_modules"@) {
            Some(i) => SpecBase::Verbatim(file.skip(i)),
            None => match spec_attribution(fs, root, spec_relative_path(file, root)) {
                SpecProbe::Found(v) => SpecBase::Cleanable(v),
                SpecProbe::Absent => SpecBase::Absent,
                SpecProbe::Failed(d) => SpecBase::Failed(d),
            },
        }
    }
}

/// Classify a processing file's path against the session root.
pub fn resolve_from_package_json(
    fs: &FileSystem,
    processing_file: &str,
    root_dir: &str,
    package_json_seen: &mut PackageDescriptorCache,
) -> (r: Result<Option<BaseResolution>, ResolveError>)
    requires
        is_rooted(processing_file@),
        is_clean_abs(root_dir@),
        cache_consistent(*old(package_json_seen), *fs),
    ensures
        cache_consistent(*final(package_json_seen), *fs),
        old(package_json_seen).entries@.is_prefix_of(final(package_json_seen).entries@),
        match spec_from_package_json(*fs, processing_file@, root_dir@) {
            SpecBase::Cleanable(v) => (r matches Ok(Some(BaseResolution::Cleanable(q))) && q@
                == v),
            SpecBase::Verbatim(v) => (r matches Ok(Some(BaseResolution::Verbatim(q))) && q@ == v),
            SpecBase::Absent => r matches Ok(None),
            SpecBase::Failed(d) => (r matches Err(
                ResolveError::MalformedPackageDescriptor { dir },
            ) && dir@ == d),
        },
{
    if str_eq(processing_file, root_dir) {
        return Ok(Some(BaseResolution::Cleanable(String::new())));
    }
    let rooted = concat2(root_dir, "/");
    if let Some(rest) = strip_prefix_str(processing_file, rooted.as_str()) {
        return Ok(Some(BaseResolution::Cleanable(rest)));
    }
    proof {
        reveal_strlit("node_modules");
    }
    let file_len: usize = processing_file.unicode_len();
    if let Some(i) = rlast_pos(processing_file, "node_modules") {
        return Ok(Some(BaseResolution::Verbatim(substr_copy(processing_file, i, file_len))));
    }
    let rel = relative_path(processing_file, root_dir);
    match get_package_path_by_package_json(fs, root_dir, rel.as_str(), package_json_seen) {
        Ok(Some(p)) => Ok(Some(BaseResolution::Cleanable(p))),
        Ok(None) => Ok(None),
        Err(e) => Err(e),
    }
}

/// The final portable form of an intermediate path: the root prefix
/// stripped when present, then a lexical cleanup.
pub open spec fn spec_finish(v: Seq<char>, root: Seq<char>) -> Seq<char> {
    if v == root {
        spec_clean(Seq::<char>::empty())
    } else if starts_with_seq(v, root + "/"@) {
        spec_clean(v.skip((root + "/"@).len() as int))
    } else {
        spec_clean(v)
    }
}

fn finish_path(v: &str, root: &str) -> (r: String)
    ensures
        r@ == spec_finish(v@, root@),
{
    if str_eq(v, root) {
        proof {
            reveal_strlit("");
            assert(""@ =~= Seq::<char>::empty());
        }
        return clean_path("");
    }
    let rooted = concat2(root, "/");
    match strip_prefix_str(v, rooted.as_str()) {
        Some(rest) => clean_path(rest.as_str()),
        None => clean_path(v),
    }
}

/// The portable, root-relative form of a processing file's absolute path.
pub open spec fn spec_resolve_path(fs: FileSystem, file: Seq<char>, root: Seq<char>) -> SpecProbe {
    match spec_from_package_json(fs, file, root) {
        SpecBase::Cleanable(v) => SpecProbe::Found(spec_finish(v, root)),
        SpecBase::Verbatim(p) => SpecProbe::Found(p),
        SpecBase::Absent => SpecProbe::Absent,
        SpecBase::Failed(d) => SpecProbe::Failed(d),
    }
}

/// Rewrite the absolute path of a source file into the canonical portable
/// string used for code generation: root-relative, slash-normalized and
/// cleaned, with `node_modules` layouts recovered through the package
/// machinery. A path that cannot be attributed to the root or a declared
/// dependency is reported as not found.
pub fn resolve_path(
    fs: &FileSystem,
    processing_file: &str,
    root_dir: &str,
    package_json_seen: &mut PackageDescriptorCache,
) -> (r: Result<String, ResolveError>)
    requires
        has_recognized_ext(processing_file@),
        is_rooted(processing_file@),
        is_clean_abs(root_dir@),
        cache_consistent(*old(package_json_seen), *fs),
    ensures
        cache_consistent(*final(package_json_seen), *fs),
        old(package_json_seen).entries@.is_prefix_of(final(package_json_seen).entries@),
        match spec_resolve_path(*fs, processing_file@, root_dir@) {
            SpecProbe::Found(p) => (r matches Ok(q) && q@ == p),
            SpecProbe::Absent => (r matches Err(ResolveError::NotFound { specifier, importer })
                && specifier@ == processing_file@ && importer@ == root_dir@),
            SpecProbe::Failed(d) => (r matches Err(
                ResolveError::MalformedPackageDescriptor { dir },
            ) && dir@ == d),
        },
{
    match resolve_from_package_json(fs, processing_file, root_dir, package_json_seen) {
        Ok(Some(BaseResolution::Cleanable(v))) => Ok(finish_path(v.as_str(), root_dir)),
        Ok(Some(BaseResolution::Verbatim(p))) => Ok(p),
        Ok(None) => Err(
            ResolveError::NotFound {
                specifier: String::from_str(processing_file),
                importer: String::from_str(root_dir),
            },
        ),
        Err(e) => Err(e),
    }
}

/// A parent of a rooted path is rooted.
pub proof fn lemma_parent_rooted(p: Seq<char>)
    requires
        is_rooted(p),
    ensures
        match spec_parent(p) {
            Some(q) => is_rooted(q),
            None => true,
        },
{
    reveal_strlit("/");
    crate::text::lemma_last_pos(p, "/"@);
    match last_pos(p, "/"@) {
        Some(i) => {
            if i > 0 {
                assert(p.subrange(0, i)[0] == p[0]);
            }
        },
        None => {
            assert(p.subrange(0, 1) =~= "/"@);
            assert(crate::text::occurs_at(p, "/"@, 0));
        },
    }
}

/// Joining keeps the base's leading `/`.
pub proof fn lemma_join_rooted(base: Seq<char>, rel: Seq<char>)
    requires
        is_rooted(base),
    ensures
        is_rooted(spec_join(base, rel)),
{
}

/// Joining keeps the relative part's suffix.
pub proof fn lemma_join_keeps_suffix(base: Seq<char>, rel: Seq<char>, e: Seq<char>)
    requires
        ends_with_seq(rel, e),
    ensures
        ends_with_seq(spec_join(base, rel), e),
{
    let j = spec_join(base, rel);
    assert(rel.subrange(rel.len() - e.len(), rel.len() as int) == e);
    assert(j.subrange(j.len() - e.len(), j.len() as int) =~= rel.subrange(
        rel.len() - e.len(),
        rel.len() as int,
    ));
}

/// Candidate construction can end in a candidate list or in a failed
/// descriptor read, which aborts the whole resolution.
pub ghost enum SpecCands {
    Cands(Seq<Seq<char>>),
    Fail(Seq<char>),
}

/// The candidates for a relative, extensionless import: one resolved path
/// per recognized extension from index `k` on, skipping extensions whose
/// path cannot be attributed; a failed descriptor read aborts.
pub open spec fn spec_rel_cands(
    fs: FileSystem,
    sd: Seq<char>,
    import: Seq<char>,
    root: Seq<char>,
    k: int,
) -> SpecCands
    decreases spec_extensions().len() - k,
{
    if k < 0 || k >= spec_extensions().len() {
        SpecCands::Cands(Seq::<Seq<char>>::empty())
    } else {
        match spec_resolve_path(fs, spec_join(sd, import + spec_extensions()[k]), root) {
            SpecProbe::Failed(d) => SpecCands::Fail(d),
            SpecProbe::Absent => spec_rel_cands(fs, sd, import, root, k + 1),
            SpecProbe::Found(p) => match spec_rel_cands(fs, sd, import, root, k + 1) {
                SpecCands::Fail(d) => SpecCands::Fail(d),
                SpecCands::Cands(rest) => SpecCands::Cands(seq![p] + rest),
            },
        }
    }
}

/// The raw candidate paths for one import: a relative import resolves
/// against the importer's directory (with extension probing when it carries
/// none), an absolute one joins the root, and a bare or aliased one goes
/// through the prober.
pub open spec fn spec_candidates(
    fs: FileSystem,
    import: Seq<char>,
    sd: Seq<char>,
    root: Seq<char>,
    aliases: Seq<(Seq<char>, Seq<Seq<char>>)>,
) -> SpecCands {
    if import.len() > 0 && import[0] == '.' {
        if has_recognized_ext(import) {
            match spec_resolve_path(fs, spec_join(sd, import), root) {
                SpecProbe::Failed(d) => SpecCands::Fail(d),
                SpecProbe::Absent => SpecCands::Cands(Seq::<Seq<char>>::empty()),
                SpecProbe::Found(p) => SpecCands::Cands(seq![p]),
            }
        } else {
            spec_rel_cands(fs, sd, import, root, 0)
        }
    } else if import.len() > 0 && import[0] == '/' {
        SpecCands::Cands(seq![spec_join(root, import)])
    } else {
        match spec_resolve_bare(fs, sd, aliases, import) {
            SpecProbe::Failed(d) => SpecCands::Fail(d),
            SpecProbe::Absent => SpecCands::Cands(Seq::<Seq<char>>::empty()),
            SpecProbe::Found(p) => SpecCands::Cands(seq![p]),
        }
    }
}

/// One physical check of a transformed candidate `t`: a path that does not
/// mention the root is probed both joined under the root and re-rooted
/// under the root's `node_modules`; the path itself is checked first, and
/// an existing path is returned in cleaned form.
pub open spec fn spec_probe_pair(fs: FileSystem, t: Seq<char>, root: Seq<char>) -> Option<
    Seq<char>,
> {
    let in_root = contains_seq(t, root);
    let ptc = if in_root {
        t
    } else {
        spec_join(root, t)
    };
    let nm = if in_root {
        t
    } else if starts_with_seq(t, "node_modules"@) {
        spec_join(root, t)
    } else {
        spec_join(spec_join(root, "node_modules"@), t)
    };
    if fs.spec_file_exists(spec_clean(ptc)) {
        Some(spec_clean(ptc))
    } else if fs.spec_file_exists(spec_clean(nm)) {
        Some(spec_clean(nm))
    } else {
        None
    }
}

/// Probing of candidates from index `j` on under extension `k`.
pub open spec fn spec_probe_row(
    fs: FileSystem,
    cands: Seq<Seq<char>>,
    root: Seq<char>,
    k: int,
    j: int,
) -> Option<Seq<char>>
    decreases cands.len() - j,
{
    if j < 0 || j >= cands.len() {
        None
    } else {
        let t = spec_probe_path(spec_clean(cands[j]), spec_extensions()[k]);
        match spec_probe_pair(fs, t, root) {
            Some(p) => Some(p),
            None => spec_probe_row(fs, cands, root, k, j + 1),
        }
    }
}

/// Probing of every candidate under every recognized extension from index
/// `k` on, in (extension, candidate) order.
pub open spec fn spec_probe_all(
    fs: FileSystem,
    cands: Seq<Seq<char>>,
    root: Seq<char>,
    k: int,
) -> Option<Seq<char>>
    decreases spec_extensions().len() - k,
{
    if k < 0 || k >= spec_extensions().len() {
        None
    } else {
        match spec_probe_row(fs, cands, root, k, 0) {
            Some(p) => Some(p),
            None => spec_probe_all(fs, cands, root, k + 1),
        }
    }
}

/// The full resolution of one import specifier: candidates built by class,
/// then the first existing probe in (extension, candidate) order.
pub open spec fn spec_resolve_file_path(
    fs: FileSystem,
    import: Seq<char>,
    source: Seq<char>,
    root: Seq<char>,
    aliases: Seq<(Seq<char>, Seq<Seq<char>>)>,
) -> SpecProbe {
    match spec_parent(source) {
        None => SpecProbe::Absent,
        Some(sd) => match spec_candidates(fs, import, sd, root, aliases) {
            SpecCands::Fail(d) => SpecProbe::Failed(d),
            SpecCands::Cands(cs) => match spec_probe_all(fs, cs, root, 0) {
                Some(p) => SpecProbe::Found(p),
                None => SpecProbe::Absent,
            },
        },
    }
}

/// Resolve an import specifier written in `source_file_path` to the first
/// existing file, probing the recognized extensions in priority order. A
/// specifier with an explicit recognized extension is never probed with
/// further extensions; extension priority decides between otherwise equal
/// candidates; and a candidate outside the root is also tried re-rooted
/// under the root's `node_modules`.
#[verifier::rlimit(100)]
pub fn resolve_file_path(
    import_path_str: &str,
    source_file_path: &str,
    root_path: &str,
    aliases: &Vec<(String, Vec<String>)>,
    fs: &FileSystem,
    package_json_seen: &mut PackageDescriptorCache,
) -> (r: Result<String, ResolveError>)
    requires
        is_rooted(source_file_path@),
        is_clean_abs(root_path@),
        cache_consistent(*old(package_json_seen), *fs),
    ensures
        cache_consistent(*final(package_json_seen), *fs),
        old(package_json_seen).entries@.is_prefix_of(final(package_json_seen).entries@),
        match spec_resolve_file_path(
            *fs,
            import_path_str@,
            source_file_path@,
            root_path@,
            alias_view(aliases@),
        ) {
            SpecProbe::Found(p) => (r matches Ok(q) && q@ == p),
            SpecProbe::Absent => (r matches Err(ResolveError::NotFound { specifier, importer })
                && specifier@ == import_path_str@ && importer@ == source_file_path@),
            SpecProbe::Failed(d) => (r matches Err(
                ResolveError::MalformedPackageDescriptor { dir },
            ) && dir@ == d),
        },
{
    proof {
        lemma_parent_rooted(source_file_path@);
    }
    let source_dir = match parent_of(source_file_path) {
        Some(d) => d,
        None => {
            return Err(
                ResolveError::NotFound {
                    specifier: String::from_str(import_path_str),
                    importer: String::from_str(source_file_path),
                },
            );
        },
    };
    let import_len: usize = import_path_str.unicode_len();
    let mut cands: Vec<String> = Vec::new();
    if import_len > 0 && import_path_str.get_char(0) == '.' {
        if has_recognized_extension(import_path_str) {
            let joined = join_path(source_dir.as_str(), import_path_str);
            proof {
                lemma_join_rooted(source_dir@, import_path_str@);
                let k = choose|k: int|
                    0 <= k < spec_extensions().len() && ends_with_seq(
                        import_path_str@,
                        spec_extensions()[k],
                    );
                lemma_join_keeps_suffix(source_dir@, import_path_str@, spec_extensions()[k]);
            }
            match resolve_path(fs, joined.as_str(), root_path, package_json_seen) {
                Ok(p) => {
                    let ghost pv = p@;
                    cands.push(p);
                    proof {
                        assert(str_views(cands@) =~= seq![pv]);
                    }
                },
                Err(e) => {
                    match e {
                        ResolveError::NotFound { specifier: _, importer: _ } => {},
                        ResolveError::MalformedPackageDescriptor { dir: _ } => {
                            return Err(e);
                        },
                    }
                },
            }
        } else {
            let n = extension_count();
            let mut k: usize = 0;
            while k < n
                invariant
                    n == spec_extensions().len(),
                    0 <= k <= n,
                    is_rooted(source_dir@),
                    is_clean_abs(root_path@),
                    spec_parent(source_file_path@) == Some(source_dir@),
                    import_path_str@.len() > 0 && import_path_str@[0] == '.',
                    !has_recognized_ext(import_path_str@),
                    cache_consistent(*package_json_seen, *fs),
                    old(package_json_seen).entries@.is_prefix_of(package_json_seen.entries@),
                    match spec_rel_cands(*fs, source_dir@, import_path_str@, root_path@, k as int) {
                        SpecCands::Fail(d) => spec_rel_cands(
                            *fs,
                            source_dir@,
                            import_path_str@,
                            root_path@,
                            0,
                        ) == SpecCands::Fail(d),
                        SpecCands::Cands(rest) => spec_rel_cands(
                            *fs,
                            source_dir@,
                            import_path_str@,
                            root_path@,
                            0,
                        ) == SpecCands::Cands(str_views(cands@) + rest),
                    },
                decreases n - k,
            {
                let with_ext = concat2(import_path_str, extension_at(k));
                let joined = join_path(source_dir.as_str(), with_ext.as_str());
                proof {
                    lemma_join_rooted(source_dir@, with_ext@);
                    assert(with_ext@.subrange(
                        with_ext@.len() - spec_extensions()[k as int].len(),
                        with_ext@.len() as int,
                    ) =~= spec_extensions()[k as int]);
                    lemma_join_keeps_suffix(source_dir@, with_ext@, spec_extensions()[k as int]);
                }
                let ghost pre_views = str_views(cands@);
                match resolve_path(fs, joined.as_str(), root_path, package_json_seen) {
                    Ok(p) => {
                        let ghost pv = p@;
                        cands.push(p);
                        proof {
                            assert(str_views(cands@) =~= pre_views.push(pv));
                            let sr = spec_rel_cands(
                                *fs,
                                source_dir@,
                                import_path_str@,
                                root_path@,
                                k + 1,
                            );
                            if sr is Cands {
                                let rest = sr->Cands_0;
                                assert((pre_views + (seq![pv] + rest)) =~= (str_views(cands@)
                                + rest));
                            }
                        }
                    },
                    Err(e) => {
                        match e {
                            ResolveError::NotFound { specifier: _, importer: _ } => {},
                            ResolveError::MalformedPackageDescriptor { dir: _ } => {
                                return Err(e);
                            },
                        }
                    },
                }
                k += 1;
            }
            proof {
                assert((str_views(cands@) + Seq::<Seq<char>>::empty()) =~= str_views(cands@));
            }
        }
    } else if import_len > 0 && import_path_str.get_char(0) == '/' {
        let joined = join_path(root_path, import_path_str);
        let ghost jv = joined@;
        cands.push(joined);
        proof {
            assert(str_views(cands@) =~= seq![jv]);
        }
    } else {
        match resolve_bare(
            fs,
            source_dir.as_str(),
            aliases,
            import_path_str,
            package_json_seen,
        ) {
            Ok(Some(p)) => {
                let ghost pv = p@;
                cands.push(p);
                proof {
                    assert(str_views(cands@) =~= seq![pv]);
                }
            },
            Ok(None) => {},
            Err(e) => {
                return Err(e);
            },
        }
    }
    let ghost cs = str_views(cands@);
    proof {
        if cands@.len() == 0 {
            assert(cs =~= Seq::<Seq<char>>::empty());
        }
    }
    proof {
        assert(spec_candidates(
            *fs,
            import_path_str@,
            source_dir@,
            root_path@,
            alias_view(aliases@),
        ) == SpecCands::Cands(cs));
    }
    let n = extension_count();
    let mut k: usize = 0;
    while k < n
        invariant
            n == spec_extensions().len(),
            0 <= k <= n,
            cs == str_views(cands@),
            cache_consistent(*package_json_seen, *fs),
            old(package_json_seen).entries@.is_prefix_of(package_json_seen.entries@),
            spec_candidates(
                *fs,
                import_path_str@,
                source_dir@,
                root_path@,
                alias_view(aliases@),
            ) == SpecCands::Cands(cs),
            spec_parent(source_file_path@) == Some(source_dir@),
            spec_probe_all(*fs, cs, root_path@, 0) == spec_probe_all(*fs, cs, root_path@, k as int),
        decreases n - k,
    {
        let mut j: usize = 0;
        while j < cands.len()
            invariant
                n == spec_extensions().len(),
                0 <= k < n,
                0 <= j <= cands@.len(),
                cs == str_views(cands@),
                cache_consistent(*package_json_seen, *fs),
                old(package_json_seen).entries@.is_prefix_of(package_json_seen.entries@),
                spec_candidates(
                    *fs,
                    import_path_str@,
                    source_dir@,
                    root_path@,
                    alias_view(aliases@),
                ) == SpecCands::Cands(cs),
                spec_parent(source_file_path@) == Some(source_dir@),
                spec_probe_all(*fs, cs, root_path@, 0) == spec_probe_all(
                    *fs,
                    cs,
                    root_path@,
                    k as int,
                ),
                spec_probe_row(*fs, cs, root_path@, k as int, 0) == spec_probe_row(
                    *fs,
                    cs,
                    root_path@,
                    k as int,
                    j as int,
                ),
            decreases cands@.len() - j,
        {
            let c = clean_path(cands[j].as_str());
            let t = probe_path(c.as_str(), extension_at(k));
            let in_root = contains_sub(t.as_str(), root_path);
            let ptc: String;
            let nmp: String;
            if in_root {
                ptc = t.clone();
                nmp = t;
            } else {
                ptc = join_path(root_path, t.as_str());
                if starts_with_str(t.as_str(), "node_modules") {
                    nmp = join_path(root_path, t.as_str());
                } else {
                    let base = join_path(root_path, "node_modules");
                    nmp = join_path(base.as_str(), t.as_str());
                }
            }
            let pc = clean_path(ptc.as_str());
            if fs.file_exists(pc.as_str()) {
                return Ok(pc);
            }
            let nc = clean_path(nmp.as_str());
            if fs.file_exists(nc.as_str()) {
                return Ok(nc);
            }
            j += 1;
        }
        k += 1;
    }
    Err(
        ResolveError::NotFound {
            specifier: String::from_str(import_path_str),
            importer: String::from_str(source_file_path),
        },
    )
}

} // verus!
