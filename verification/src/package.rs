//! Package descriptors: the fields of a parsed `package.json` that resolution
//! consumes (`name`, `main`, `exports`, `dependencies`), the per-session
//! descriptor cache, and the resolution error taxonomy.

use vstd::prelude::*;
use crate::fs_model::FileSystem;
use crate::text::str_eq;

verus! {

/// One export target: a single physical path, or condition names (`import`,
/// `require`, `default`, ...) each mapped to a physical path.
pub enum ExportsTarget {
    Single(String),
    Conditional(Vec<(String, String)>),
}

pub ghost enum TargetView {
    Single(Seq<char>),
    Conditional(Seq<(Seq<char>, Seq<char>)>),
}

impl View for ExportsTarget {
    type V = TargetView;

    open spec fn view(&self) -> TargetView {
        match self {
            ExportsTarget::Single(s) => TargetView::Single(s@),
            ExportsTarget::Conditional(v) => TargetView::Conditional(
                v@.map_values(|p: (String, String)| (p.0@, p.1@)),
            ),
        }
    }
}

/// The entries of an exports map, as views.
pub open spec fn exports_view(e: Seq<(String, ExportsTarget)>) -> Seq<(Seq<char>, TargetView)> {
    e.map_values(|p: (String, ExportsTarget)| (p.0@, p.1@))
}

/// The views of a sequence of strings.
pub open spec fn str_views(v: Seq<String>) -> Seq<Seq<char>> {
    v.map_values(|s: String| s@)
}

/// The parsed content of one package descriptor: its declared `name`, its
/// `main` entry, its `exports` map in file order, and the names of its
/// declared dependencies in file order.
pub struct PackageDescriptor {
    pub name: Option<String>,
    pub main: Option<String>,
    pub exports: Option<Vec<(String, ExportsTarget)>>,
    pub dependencies: Vec<String>,
}

pub ghost struct DescriptorView {
    pub name: Option<Seq<char>>,
    pub main: Option<Seq<char>>,
    pub exports: Option<Seq<(Seq<char>, TargetView)>>,
    pub dependencies: Seq<Seq<char>>,
}

impl View for PackageDescriptor {
    type V = DescriptorView;

    open spec fn view(&self) -> DescriptorView {
        DescriptorView {
            name: match self.name {
                Some(n) => Some(n@),
                None => None,
            },
            main: match self.main {
                Some(m) => Some(m@),
                None => None,
            },
            exports: match self.exports {
                Some(e) => Some(exports_view(e@)),
                None => None,
            },
            dependencies: self.dependencies@.map_values(|s: String| s@),
        }
    }
}

impl ExportsTarget {
    /// A fresh copy with the same content.
    pub fn duplicate(&self) -> (r: ExportsTarget)
        ensures
            r@ == self@,
    {
        match self {
            ExportsTarget::Single(s) => ExportsTarget::Single(s.clone()),
            ExportsTarget::Conditional(v) => {
                let mut out: Vec<(String, String)> = Vec::new();
                let mut i: usize = 0;
                while i < v.len()
                    invariant
                        0 <= i <= v@.len(),
                        out@.len() == i,
                        forall|j: int|
                            0 <= j < i ==> (#[trigger] out@[j]).0@ == v@[j].0@ && out@[j].1@
                                == v@[j].1@,
                    decreases v@.len() - i,
                {
                    let (k, p) = (&v[i].0, &v[i].1);
                    out.push((k.clone(), p.clone()));
                    i += 1;
                }
                proof {
                    assert(out@.map_values(|p: (String, String)| (p.0@, p.1@)) =~= v@.map_values(
                        |p: (String, String)| (p.0@, p.1@),
                    ));
                }
                ExportsTarget::Conditional(out)
            },
        }
    }
}

impl PackageDescriptor {
    /// A fresh copy with the same content.
    pub fn duplicate(&self) -> (r: PackageDescriptor)
        ensures
            r@ == self@,
    {
        let name = match &self.name {
            Some(n) => Some(n.clone()),
            None => None,
        };
        let main = match &self.main {
            Some(m) => Some(m.clone()),
            None => None,
        };
        let exports = match &self.exports {
            Some(e) => {
                let mut out: Vec<(String, ExportsTarget)> = Vec::new();
                let mut i: usize = 0;
                while i < e.len()
                    invariant
                        0 <= i <= e@.len(),
                        out@.len() == i,
                        forall|j: int|
                            0 <= j < i ==> (#[trigger] out@[j]).0@ == e@[j].0@ && out@[j].1@
                                == e@[j].1@,
                    decreases e@.len() - i,
                {
                    let dup = e[i].1.duplicate();
                    out.push((e[i].0.clone(), dup));
                    i += 1;
                }
                proof {
                    assert(out@.map_values(|p: (String, ExportsTarget)| (p.0@, p.1@))
                        =~= e@.map_values(|p: (String, ExportsTarget)| (p.0@, p.1@)));
                }
                Some(out)
            },
            None => None,
        };
        let mut deps: Vec<String> = Vec::new();
        let mut i: usize = 0;
        while i < self.dependencies.len()
            invariant
                0 <= i <= self.dependencies@.len(),
                deps@.len() == i,
                forall|j: int| 0 <= j < i ==> (#[trigger] deps@[j])@ == self.dependencies@[j]@,
            decreases self.dependencies@.len() - i,
        {
            deps.push(self.dependencies[i].clone());
            i += 1;
        }
        let r = PackageDescriptor { name, main, exports, dependencies: deps };
        proof {
            assert(r@.dependencies =~= self@.dependencies);
            assert(r@ == self@);
        }
        r
    }
}

/// The errors resolution can end in: no candidate exists on disk, or a
/// consulted package descriptor is missing or unusable.
pub enum ResolveError {
    NotFound { specifier: String, importer: String },
    MalformedPackageDescriptor { dir: String },
}

/// The first descriptor stored under `key`, scanning in order.
pub open spec fn spec_lookup_descriptor(
    entries: Seq<(String, PackageDescriptor)>,
    key: Seq<char>,
) -> Option<DescriptorView>
    decreases entries.len(),
{
    if entries.len() == 0 {
        None
    } else if entries[0].0@ == key {
        Some(entries[0].1@)
    } else {
        spec_lookup_descriptor(entries.drop_first(), key)
    }
}

/// Memoized descriptors, keyed by the absolute directory path they were read
/// from. Write-once per key: entries are only ever appended.
pub struct PackageDescriptorCache {
    pub entries: Vec<(String, PackageDescriptor)>,
}

/// Every cached entry agrees with what the file system holds for its key.
pub open spec fn cache_consistent(c: PackageDescriptorCache, fs: FileSystem) -> bool {
    forall|i: int|
        0 <= i < c.entries@.len() ==> fs.spec_descriptor((#[trigger] c.entries@[i]).0@) == Some(
            c.entries@[i].1@,
        )
}

impl PackageDescriptorCache {
    pub fn new() -> (r: PackageDescriptorCache)
        ensures
            r.entries@.len() == 0,
    {
        PackageDescriptorCache { entries: Vec::new() }
    }

    /// The cached descriptor for `key`, if present, as a fresh copy.
    pub fn lookup(&self, key: &str) -> (r: Option<PackageDescriptor>)
        ensures
            match r {
                Some(d) => spec_lookup_descriptor(self.entries@, key@) == Some(d@),
                None => spec_lookup_descriptor(self.entries@, key@) is None,
            },
    {
        proof {
            assert(self.entries@.subrange(0, self.entries@.len() as int) =~= self.entries@);
        }
        let mut i: usize = 0;
        while i < self.entries.len()
            invariant
                0 <= i <= self.entries@.len(),
                spec_lookup_descriptor(self.entries@, key@) == spec_lookup_descriptor(
                    self.entries@.subrange(i as int, self.entries@.len() as int),
                    key@,
                ),
            decreases self.entries@.len() - i,
        {
            proof {
                assert(self.entries@.subrange(i as int, self.entries@.len() as int).drop_first()
                    =~= self.entries@.subrange(i + 1, self.entries@.len() as int));
            }
            if str_eq(self.entries[i].0.as_str(), key) {
                return Some(self.entries[i].1.duplicate());
            }
            i += 1;
        }
        None
    }
}

/// The cached descriptor for `dir`, or the one the file system holds there,
/// memoized on first access. Existing cache entries are never overwritten:
/// the cache only grows, and a consistent cache stays consistent.
pub fn get_package_json(
    dir: &str,
    fs: &FileSystem,
    seen: &mut PackageDescriptorCache,
) -> (r: Result<PackageDescriptor, ResolveError>)
    ensures
        old(seen).entries@.is_prefix_of(final(seen).entries@),
        cache_consistent(*old(seen), *fs) ==> cache_consistent(*final(seen), *fs),
        match r {
            Ok(d) => (spec_lookup_descriptor(old(seen).entries@, dir@) == Some(d@)
                || (spec_lookup_descriptor(old(seen).entries@, dir@) is None
                && fs.spec_descriptor(dir@) == Some(d@))),
            Err(e) => spec_lookup_descriptor(old(seen).entries@, dir@) is None
                && fs.spec_descriptor(dir@) is None && (e matches
            ResolveError::MalformedPackageDescriptor { dir: d } && d@ == dir@),
        },
        cache_consistent(*old(seen), *fs) ==> match r {
            Ok(d) => fs.spec_descriptor(dir@) == Some(d@),
            Err(_) => fs.spec_descriptor(dir@) is None,
        },
{
    if let Some(d) = seen.lookup(dir) {
        proof {
            if cache_consistent(*seen, *fs) {
                lemma_lookup_consistent(*seen, *fs, dir@);
            }
        }
        return Ok(d);
    }
    match fs.descriptor_at(dir) {
        Some(d) => {
            let dup = d.duplicate();
            let dup2 = dup.duplicate();
            let key = String::from_str(dir);
            seen.entries.push((key, dup2));
            proof {
                assert(seen.entries@ =~= old(seen).entries@.push(
                    (seen.entries@.last().0, seen.entries@.last().1),
                ));
                assert(old(seen).entries@.is_prefix_of(seen.entries@));
                if cache_consistent(*old(seen), *fs) {
                    assert forall|i: int| 0 <= i < seen.entries@.len() implies fs.spec_descriptor(
                        (#[trigger] seen.entries@[i]).0@,
                    ) == Some(seen.entries@[i].1@) by {
                        if i < old(seen).entries@.len() {
                            assert(seen.entries@[i] == old(seen).entries@[i]);
                            assert(fs.spec_descriptor(old(seen).entries@[i].0@) == Some(
                                old(seen).entries@[i].1@,
                            ));
                        } else {
                            assert(seen.entries@[i].0@ == dir@);
                            assert(seen.entries@[i].1@ == d@);
                        }
                    }
                }
            }
            Ok(dup)
        },
        None => Err(
            ResolveError::MalformedPackageDescriptor { dir: String::from_str(dir) },
        ),
    }
}

/// A hit in a consistent cache agrees with the file system.
proof fn lemma_lookup_consistent(c: PackageDescriptorCache, fs: FileSystem, key: Seq<char>)
    requires
        cache_consistent(c, fs),
        spec_lookup_descriptor(c.entries@, key) is Some,
    ensures
        fs.spec_descriptor(key) == spec_lookup_descriptor(c.entries@, key),
{
    lemma_lookup_consistent_rec(c.entries@, fs, key, 0);
}

proof fn lemma_lookup_consistent_rec(
    entries: Seq<(String, PackageDescriptor)>,
    fs: FileSystem,
    key: Seq<char>,
    depth: int,
)
    requires
        forall|i: int|
            0 <= i < entries.len() ==> fs.spec_descriptor((#[trigger] entries[i]).0@) == Some(
                entries[i].1@,
            ),
        spec_lookup_descriptor(entries, key) is Some,
    ensures
        fs.spec_descriptor(key) == spec_lookup_descriptor(entries, key),
    decreases entries.len(),
{
    if entries.len() == 0 {
    } else if entries[0].0@ == key {
        assert(fs.spec_descriptor(entries[0].0@) == Some(entries[0].1@));
    } else {
        assert(forall|i: int|
            0 <= i < entries.drop_first().len() ==> (#[trigger] entries.drop_first()[i])
                == entries[i + 1]);
        lemma_lookup_consistent_rec(entries.drop_first(), fs, key, depth + 1);
    }
}

} // verus!
