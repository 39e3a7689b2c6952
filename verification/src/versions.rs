//! The version lifecycle operations: the command surface that a frontend
//! drives.
//!
//! Each command takes the data-directory root and version identifiers as
//! plain text, validates its preconditions (existence or absence of the
//! version directory), and delegates to the disk primitives.  Identifiers
//! are used verbatim as path segments, exactly as handed in.  On the
//! model disk the only failures are the guard failures; media failures
//! belong to the host layer that mirrors these operations on the real
//! filesystem.

use crate::disk::copy_tree_spec;
use crate::disk::exists_at;
use crate::disk::remove_tree_spec;
use crate::disk::Disk;
use crate::disk::DiskView;
use crate::errors::VdError;
use crate::paths::dir_closure;
use crate::paths::join;
use crate::paths::path_join;
use crate::schema::craving_dir;
use crate::schema::craving_dir_name;
use crate::schema::placeholder_entries;
use crate::schema::schema;
use vstd::prelude::*;

verus! {

/// The path of the version directory `v` inside the data directory `d`.
pub open spec fn version_path(d: Seq<char>, v: Seq<char>) -> Seq<char> {
    join(d, v)
}

/// `files` after the placeholder `entries` are written under the version
/// directory `vp`, in order: each entry's content at `vp` joined with its
/// relative path, later entries written later.
pub open spec fn put_all(
    files: Map<Seq<char>, Seq<char>>,
    vp: Seq<char>,
    entries: Seq<(Seq<char>, Seq<char>)>,
) -> Map<Seq<char>, Seq<char>>
    decreases entries.len(),
{
    if entries.len() == 0 {
        files
    } else {
        put_all(files, vp, entries.drop_last()).insert(
            join(vp, entries.last().0),
            entries.last().1,
        )
    }
}

/// What creating the version directory `v` under `d` produces: the
/// version directory and its `craving_system` subdirectory exist (with
/// any missing ancestors), and every schema file holds its default
/// content, overwriting whatever was there before.
pub open spec fn create_version_spec(fs: DiskView, d: Seq<char>, v: Seq<char>) -> DiskView {
    let vp = version_path(d, v);
    let cs = join(vp, craving_dir_name());
    DiskView {
        dirs: fs.dirs.union(dir_closure(vp)).union(dir_closure(cs)),
        files: put_all(fs.files, vp, schema()),
    }
}

impl Disk {
    /// Read the full content of the file at `file_path`, an arbitrary
    /// path with no restriction to the data directory.  Returns the
    /// content exactly when the file exists, and a not-found error naming
    /// the path otherwise.
    pub fn read_json_file(&self, file_path: &String) -> (r: Result<String, VdError>)
        requires
            self.wf(),
        ensures
            match r {
                Ok(c) => self@.files.dom().contains(file_path@) && c@ == self@.files[file_path@],
                Err(e) => !self@.files.dom().contains(file_path@) && (e matches VdError::NotFound(
                    x,
                ) && x@ == file_path@),
            },
    {
        match self.read_file(file_path) {
            Some(c) => Ok(c),
            None => Err(VdError::NotFound(file_path.clone())),
        }
    }

    /// Write `content` to the file at `file_path`, an arbitrary path,
    /// creating the file or overwriting its previous content.
    pub fn write_json_file(&mut self, file_path: &String, content: String) -> (r: Result<
        (),
        VdError,
    >)
        requires
            old(self).wf(),
        ensures
            final(self).wf(),
            r is Ok,
            final(self)@.files == old(self)@.files.insert(file_path@, content@),
            final(self)@.dirs == old(self)@.dirs,
    {
        self.put_file(file_path, content);
        Ok(())
    }

    /// Create the version directory `version_id` under `data_dir`:
    /// idempotent on the directories, and (re)writes every placeholder
    /// file with its default content.  Exactly `create_version_spec`.
    pub fn create_version_directory(&mut self, data_dir: &String, version_id: &String) -> (r:
        Result<(), VdError>)
        requires
            old(self).wf(),
        ensures
            final(self).wf(),
            r is Ok,
            final(self)@ == create_version_spec(old(self)@, data_dir@, version_id@),
    {
        let ghost fs0 = self@;
        let vp = path_join(data_dir, version_id);
        self.create_dir_all(&vp);
        let cs = path_join(&vp, &craving_dir());
        self.create_dir_all(&cs);
        let ghost target_dirs = fs0.dirs.union(dir_closure(vp@)).union(dir_closure(cs@));
        proof {
            assert(self@.dirs =~= target_dirs);
            assert(self@.files == fs0.files);
            assert(schema().take(0) =~= Seq::<(Seq<char>, Seq<char>)>::empty());
        }
        let entries = placeholder_entries();
        let n = entries.len();
        let mut k: usize = 0;
        while k < n
            invariant
                k <= n,
                n == schema().len(),
                entries@.len() == schema().len(),
                forall|a: int|
                    0 <= a < entries@.len() ==> (#[trigger] entries@[a]).0@ == schema()[a].0
                        && entries@[a].1@ == schema()[a].1,
                self.wf(),
                vp@ == version_path(data_dir@, version_id@),
                self@.dirs == target_dirs,
                self@.files == put_all(fs0.files, vp@, schema().take(k as int)),
            decreases n - k,
        {
            let fp = path_join(&vp, &entries[k].0);
            let c = entries[k].1.clone();
            self.put_file(&fp, c);
            proof {
                let pre = schema().take(k as int);
                let post = schema().take(k + 1);
                assert(post.drop_last() =~= pre);
                assert(post.last() == schema()[k as int]);
                assert(fp@ == join(vp@, schema()[k as int].0));
                assert(self@.files == put_all(fs0.files, vp@, post));
            }
            k = k + 1;
        }
        proof {
            assert(schema().take(n as int) =~= schema());
        }
        Ok(())
    }

    /// Clone the version directory `source_id` to `target_id` under
    /// `data_dir`.  Fails with a not-found error when the source is
    /// absent, with an already-exists error when the target is present
    /// (never overwriting silently), and otherwise copies the whole tree,
    /// leaving the disk as `copy_tree_spec` says.
    pub fn clone_version_directory(
        &mut self,
        data_dir: &String,
        source_id: &String,
        target_id: &String,
    ) -> (r: Result<(), VdError>)
        requires
            old(self).wf(),
        ensures
            final(self).wf(),
            ({
                let sp = version_path(data_dir@, source_id@);
                let tp = version_path(data_dir@, target_id@);
                if !exists_at(old(self)@, sp) {
                    &&& final(self)@ == old(self)@
                    &&& r matches Err(e) && (e matches VdError::NotFound(x) && x@ == source_id@)
                } else if exists_at(old(self)@, tp) {
                    &&& final(self)@ == old(self)@
                    &&& r matches Err(e) && (e matches VdError::AlreadyExists(x) && x@
                        == target_id@)
                } else {
                    &&& r is Ok
                    &&& final(self)@ == copy_tree_spec(old(self)@, sp, tp)
                }
            }),
    {
        let sp = path_join(data_dir, source_id);
        let tp = path_join(data_dir, target_id);
        if !self.path_exists(&sp) {
            return Err(VdError::NotFound(source_id.clone()));
        }
        if self.path_exists(&tp) {
            return Err(VdError::AlreadyExists(target_id.clone()));
        }
        self.copy_tree(&sp, &tp);
        Ok(())
    }

    /// Delete the version directory `version_id` under `data_dir`.
    /// Fails with a not-found error when nothing sits at that path;
    /// otherwise removes the whole tree, leaving the disk as
    /// `remove_tree_spec` says.
    pub fn delete_version_directory(&mut self, data_dir: &String, version_id: &String) -> (r:
        Result<(), VdError>)
        requires
            old(self).wf(),
        ensures
            final(self).wf(),
            ({
                let vp = version_path(data_dir@, version_id@);
                if !exists_at(old(self)@, vp) {
                    &&& final(self)@ == old(self)@
                    &&& r matches Err(e) && (e matches VdError::NotFound(x) && x@ == version_id@)
                } else {
                    &&& r is Ok
                    &&& final(self)@ == remove_tree_spec(old(self)@, vp)
                }
            }),
    {
        let vp = path_join(data_dir, version_id);
        if !self.path_exists(&vp) {
            return Err(VdError::NotFound(version_id.clone()));
        }
        self.remove_tree(&vp);
        Ok(())
    }
}

} // verus!
