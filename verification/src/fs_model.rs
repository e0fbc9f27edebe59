//! The disk state a resolution session runs against, as an explicit value:
//! the set of existing files and the parsed package descriptors of the tree.
//! Existence checks and the upward directory search are verified functions
//! over this value.

use vstd::prelude::*;
use crate::package::{DescriptorView, PackageDescriptor, spec_lookup_descriptor};
use crate::paths::{join_path, parent_of, spec_join, spec_parent};
use crate::text::{concat2, starts_with_seq, starts_with_str, str_eq};

verus! {

/// One resolution session's view of the disk: every existing file, and the
/// descriptor of each directory that holds a `package.json`. A directory
/// exists when some file lies strictly below it.
pub struct FileSystem {
    pub files: Vec<String>,
    pub packages: Vec<(String, PackageDescriptor)>,
}

impl FileSystem {
    pub open spec fn file_paths(self) -> Seq<Seq<char>> {
        self.files@.map_values(|s: String| s@)
    }

    pub open spec fn spec_file_exists(self, p: Seq<char>) -> bool {
        self.file_paths().contains(p)
    }

    pub open spec fn spec_dir_exists(self, d: Seq<char>) -> bool {
        exists|i: int|
            0 <= i < self.file_paths().len() && starts_with_seq(
                self.file_paths()[i],
                d + "/"@,
            )
    }

    pub open spec fn spec_entry_exists(self, p: Seq<char>) -> bool {
        self.spec_file_exists(p) || self.spec_dir_exists(p)
    }

    pub open spec fn spec_descriptor(self, dir: Seq<char>) -> Option<DescriptorView> {
        spec_lookup_descriptor(self.packages@, dir)
    }

    pub fn file_exists(&self, p: &str) -> (r: bool)
        ensures
            r == self.spec_file_exists(p@),
    {
        let mut i: usize = 0;
        while i < self.files.len()
            invariant
                0 <= i <= self.files@.len(),
                forall|j: int| 0 <= j < i ==> self.file_paths()[j] != p@,
            decreases self.files@.len() - i,
        {
            if str_eq(self.files[i].as_str(), p) {
                proof {
                    assert(self.file_paths()[i as int] == p@);
                }
                return true;
            }
            i += 1;
        }
        false
    }

    pub fn dir_exists(&self, d: &str) -> (r: bool)
        ensures
            r == self.spec_dir_exists(d@),
    {
        let pre = concat2(d, "/");
        let mut i: usize = 0;
        while i < self.files.len()
            invariant
                pre@ == d@ + "/"@,
                0 <= i <= self.files@.len(),
                forall|j: int|
                    0 <= j < i ==> !starts_with_seq(self.file_paths()[j], d@ + "/"@),
            decreases self.files@.len() - i,
        {
            if starts_with_str(self.files[i].as_str(), pre.as_str()) {
                proof {
                    assert(starts_with_seq(self.file_paths()[i as int], d@ + "/"@));
                }
                return true;
            }
            i += 1;
        }
        false
    }

    pub fn entry_exists(&self, p: &str) -> (r: bool)
        ensures
            r == self.spec_entry_exists(p@),
    {
        if self.file_exists(p) {
            true
        } else {
            self.dir_exists(p)
        }
    }

    /// The descriptor stored for `dir`, if any.
    pub fn descriptor_at(&self, dir: &str) -> (r: Option<&PackageDescriptor>)
        ensures
            match r {
                Some(d) => self.spec_descriptor(dir@) == Some(d@),
                None => self.spec_descriptor(dir@) is None,
            },
    {
        proof {
            assert(self.packages@.subrange(0, self.packages@.len() as int) =~= self.packages@);
        }
        let mut i: usize = 0;
        while i < self.packages.len()
            invariant
                0 <= i <= self.packages@.len(),
                spec_lookup_descriptor(self.packages@, dir@) == spec_lookup_descriptor(
                    self.packages@.subrange(i as int, self.packages@.len() as int),
                    dir@,
                ),
            decreases self.packages@.len() - i,
        {
            proof {
                assert(self.packages@.subrange(i as int, self.packages@.len() as int).drop_first()
                    =~= self.packages@.subrange(i + 1, self.packages@.len() as int));
            }
            if str_eq(self.packages[i].0.as_str(), dir) {
                return Some(&self.packages[i].1);
            }
            i += 1;
        }
        None
    }
}

/// The nearest ancestor of `path` (including `path` itself) whose children
/// contain an entry named `target`, walking parent by parent until the walk
/// runs out of directories.
pub open spec fn spec_find_closest(fs: FileSystem, path: Seq<char>, target: Seq<char>) -> Option<
    Seq<char>,
>
    decreases path.len(),
{
    let cand = spec_join(path, target);
    if fs.spec_entry_exists(cand) {
        Some(cand)
    } else {
        match spec_parent(path) {
            Some(pp) => if pp.len() < path.len() {
                spec_find_closest(fs, pp, target)
            } else {
                None
            },
            None => None,
        }
    }
}

/// A parent path is strictly shorter than its child.
pub proof fn lemma_parent_shorter(p: Seq<char>)
    ensures
        match spec_parent(p) {
            Some(q) => q.len() < p.len(),
            None => true,
        },
{
    reveal_strlit("/");
    crate::text::lemma_last_pos(p, "/"@);
}

/// The nearest ancestor of `path` containing an entry named
/// `target_folder_name`, joined with that name.
pub fn find_closest_path(fs: &FileSystem, path: &str, target_folder_name: &str) -> (r: Option<
    String,
>)
    ensures
        match r {
            Some(p) => spec_find_closest(*fs, path@, target_folder_name@) == Some(p@),
            None => spec_find_closest(*fs, path@, target_folder_name@) is None,
        },
{
    let mut cur = String::from_str(path);
    loop
        invariant
            spec_find_closest(*fs, path@, target_folder_name@) == spec_find_closest(
                *fs,
                cur@,
                target_folder_name@,
            ),
        decreases cur@.len(),
    {
        let cand = join_path(cur.as_str(), target_folder_name);
        if fs.entry_exists(cand.as_str()) {
            return Some(cand);
        }
        match parent_of(cur.as_str()) {
            Some(p) => {
                proof {
                    lemma_parent_shorter(cur@);
                }
                cur = p;
            },
            None => {
                return None;
            },
        }
    }
}

/// The nearest directory at or above `path` whose children contain a
/// `package.json` file.
pub open spec fn spec_find_pkg_folder(fs: FileSystem, path: Seq<char>) -> Option<Seq<char>>
    decreases path.len(),
{
    if fs.spec_file_exists(spec_join(path, "package.json"@)) {
        Some(path)
    } else {
        match spec_parent(path) {
            Some(pp) => if pp.len() < path.len() {
                spec_find_pkg_folder(fs, pp)
            } else {
                None
            },
            None => None,
        }
    }
}

pub fn find_closest_package_json_folder(fs: &FileSystem, path: &str) -> (r: Option<String>)
    ensures
        match r {
            Some(p) => spec_find_pkg_folder(*fs, path@) == Some(p@),
            None => spec_find_pkg_folder(*fs, path@) is None,
        },
{
    let mut cur = String::from_str(path);
    loop
        invariant
            spec_find_pkg_folder(*fs, path@) == spec_find_pkg_folder(*fs, cur@),
        decreases cur@.len(),
    {
        let cand = join_path(cur.as_str(), "package.json");
        if fs.file_exists(cand.as_str()) {
            return Some(cur);
        }
        match parent_of(cur.as_str()) {
            Some(p) => {
                proof {
                    lemma_parent_shorter(cur@);
                }
                cur = p;
            },
            None => {
                return None;
            },
        }
    }
}

/// The nearest `node_modules` directory at or above `path`.
pub fn find_closest_node_modules(fs: &FileSystem, path: &str) -> (r: Option<String>)
    ensures
        match r {
            Some(p) => spec_find_closest(*fs, path@, "node_modules"@) == Some(p@),
            None => spec_find_closest(*fs, path@, "node_modules"@) is None,
        },
{
    find_closest_path(fs, path, "node_modules")
}

} // verus!
