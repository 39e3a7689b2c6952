//! The disk model: the explicit state that every version-directory
//! operation acts on.
//!
//! A [`Disk`] holds the set of directory paths that exist and a flat map
//! from file path to file content, both as text ([`crate::paths`]).  Its
//! mathematical view is a [`DiskView`]: a `Set` of directory paths and a
//! `Map` from file path to content.  All lifecycle operations are
//! specified as functions of this view, so what each call does to the
//! state is pinned down exactly.  A host layer mirrors each operation on
//! the real filesystem; media failures (permissions, disk errors) belong
//! to that layer, not to the model.

use crate::paths::descends;
use crate::paths::dir_closure;
use vstd::prelude::*;

verus! {

/// What the disk holds, as mathematics: the set of directory paths that
/// exist and the map from file path to file content.
pub struct DiskView {
    pub dirs: Set<Seq<char>>,
    pub files: Map<Seq<char>, Seq<char>>,
}

/// A path exists when a directory or a file sits at it.
pub open spec fn exists_at(fs: DiskView, p: Seq<char>) -> bool {
    fs.dirs.contains(p) || fs.files.dom().contains(p)
}

/// The empty disk: no directories, no files.
pub open spec fn empty_disk() -> DiskView {
    DiskView { dirs: Set::empty(), files: Map::empty() }
}

/// What removing the directory tree at `p` leaves behind: if a directory
/// sits at `p`, the directory itself and everything strictly inside it
/// are gone; otherwise nothing changes (the primitive is a silent no-op
/// on absent paths and on plain files).
pub open spec fn remove_tree_spec(fs: DiskView, p: Seq<char>) -> DiskView {
    if fs.dirs.contains(p) {
        DiskView {
            dirs: Set::new(|q: Seq<char>| fs.dirs.contains(q) && q != p && !descends(q, p)),
            files: Map::new(
                |q: Seq<char>| fs.files.dom().contains(q) && !descends(q, p),
                |q: Seq<char>| fs.files[q],
            ),
        }
    } else {
        fs
    }
}

/// The source path that the copied path `q` under `tp` came from: `q`
/// with the prefix `tp` replaced by `sp`.
pub open spec fn copied_src(q: Seq<char>, sp: Seq<char>, tp: Seq<char>) -> Seq<char> {
    sp + q.skip(tp.len() as int)
}

/// Where the entry at `q` under `sp` lands when the tree is copied to
/// `tp`: `q` with the prefix `sp` replaced by `tp`.
pub open spec fn copy_target(q: Seq<char>, sp: Seq<char>, tp: Seq<char>) -> Seq<char> {
    tp + q.skip(sp.len() as int)
}

/// The directories that copying the tree at `sp` to `tp` brings into
/// existence under `tp`: one for each directory strictly inside `sp`.
pub open spec fn copied_dirs(fs: DiskView, sp: Seq<char>, tp: Seq<char>) -> Set<Seq<char>> {
    Set::new(|q: Seq<char>| descends(q, tp) && fs.dirs.contains(copied_src(q, sp, tp)))
}

/// What copying the directory tree at `sp` to `tp` produces: the
/// destination directory is created (with missing ancestors) unless
/// something already sits at `tp`; every directory and file strictly
/// inside `sp` reappears at the corresponding path inside `tp`, files
/// overwriting whatever was there; everything else is untouched.
pub open spec fn copy_tree_spec(fs: DiskView, sp: Seq<char>, tp: Seq<char>) -> DiskView {
    let base = if exists_at(fs, tp) {
        fs.dirs
    } else {
        fs.dirs.union(dir_closure(tp))
    };
    DiskView {
        dirs: base.union(copied_dirs(fs, sp, tp)),
        files: Map::new(
            |q: Seq<char>|
                fs.files.dom().contains(q) || (descends(q, tp) && fs.files.dom().contains(
                    copied_src(q, sp, tp),
                )),
            |q: Seq<char>|
                if descends(q, tp) && fs.files.dom().contains(copied_src(q, sp, tp)) {
                    fs.files[copied_src(q, sp, tp)]
                } else {
                    fs.files[q]
                },
        ),
    }
}

/// The directory paths of `s`, as a set of path texts.
spec fn seq_to_path_set(s: Seq<String>) -> Set<Seq<char>>
    decreases s.len(),
{
    if s.len() == 0 {
        Set::empty()
    } else {
        seq_to_path_set(s.drop_last()).insert(s.last()@)
    }
}

/// The (path, content) pairs of `s`, as a map from path to content.
spec fn seq_to_file_map(s: Seq<(String, String)>) -> Map<Seq<char>, Seq<char>>
    decreases s.len(),
{
    if s.len() == 0 {
        Map::empty()
    } else {
        seq_to_file_map(s.drop_last()).insert(s.last().0@, s.last().1@)
    }
}

/// No two entries name the same directory path.
spec fn unique_paths(s: Seq<String>) -> bool {
    forall|i: int, j: int| 0 <= i < j < s.len() ==> s[i]@ != s[j]@
}

/// No two entries name the same file path.
spec fn unique_keys(s: Seq<(String, String)>) -> bool {
    forall|i: int, j: int| 0 <= i < j < s.len() ==> s[i].0@ != s[j].0@
}

proof fn lemma_path_set_contains(s: Seq<String>, x: Seq<char>)
    ensures
        seq_to_path_set(s).contains(x) <==> exists|i: int| 0 <= i < s.len() && s[i]@ == x,
    decreases s.len(),
{
    if s.len() == 0 {
    } else {
        lemma_path_set_contains(s.drop_last(), x);
        if s.last()@ == x {
            assert(s[s.len() - 1]@ == x);
        } else {
            if exists|i: int| 0 <= i < s.len() && s[i]@ == x {
                let i = choose|i: int| 0 <= i < s.len() && s[i]@ == x;
                assert(i < s.len() - 1);
                assert(s.drop_last()[i]@ == x);
            }
        }
    }
}

proof fn lemma_file_map_dom(s: Seq<(String, String)>, k: Seq<char>)
    ensures
        seq_to_file_map(s).dom().contains(k) <==> exists|i: int|
            0 <= i < s.len() && s[i].0@ == k,
    decreases s.len(),
{
    if s.len() == 0 {
    } else {
        lemma_file_map_dom(s.drop_last(), k);
        if s.last().0@ == k {
            assert(s[s.len() - 1].0@ == k);
        } else {
            if exists|i: int| 0 <= i < s.len() && s[i].0@ == k {
                let i = choose|i: int| 0 <= i < s.len() && s[i].0@ == k;
                assert(i < s.len() - 1);
                assert(s.drop_last()[i].0@ == k);
            }
        }
    }
}

proof fn lemma_file_map_value(s: Seq<(String, String)>, i: int)
    requires
        unique_keys(s),
        0 <= i < s.len(),
    ensures
        seq_to_file_map(s).dom().contains(s[i].0@),
        seq_to_file_map(s)[s[i].0@] == s[i].1@,
    decreases s.len(),
{
    if i == s.len() - 1 {
    } else {
        assert(unique_keys(s.drop_last())) by {
            assert(forall|a: int, b: int|
                0 <= a < b < s.len() - 1 ==> s.drop_last()[a] == s[a] && s.drop_last()[b] == s[b]);
        }
        lemma_file_map_value(s.drop_last(), i);
        assert(s.drop_last()[i] == s[i]);
        assert(s[i].0@ != s.last().0@);
    }
}

proof fn lemma_file_map_remove(s: Seq<(String, String)>, i: int)
    requires
        unique_keys(s),
        0 <= i < s.len(),
    ensures
        seq_to_file_map(s.remove(i)) == seq_to_file_map(s).remove(s[i].0@),
    decreases s.len(),
{
    assert(unique_keys(s.drop_last())) by {
        assert(forall|a: int, b: int|
            0 <= a < b < s.len() - 1 ==> s.drop_last()[a] == s[a] && s.drop_last()[b] == s[b]);
    }
    if i == s.len() - 1 {
        assert(s.remove(i) =~= s.drop_last());
        lemma_file_map_dom(s.drop_last(), s[i].0@);
        assert(forall|a: int| 0 <= a < s.len() - 1 ==> s.drop_last()[a] == s[a]);
        assert(!seq_to_file_map(s.drop_last()).dom().contains(s[i].0@));
        assert(seq_to_file_map(s.drop_last()) =~= seq_to_file_map(s).remove(s[i].0@));
    } else {
        lemma_file_map_remove(s.drop_last(), i);
        assert(s.remove(i).drop_last() =~= s.drop_last().remove(i));
        assert(s.remove(i).last() == s.last());
        assert(s.remove(i).len() == s.len() - 1);
        assert(seq_to_file_map(s.remove(i)) == seq_to_file_map(s.drop_last().remove(i)).insert(
            s.last().0@,
            s.last().1@,
        ));
        assert(s.drop_last()[i] == s[i]);
        assert(s[i].0@ != s.last().0@);
        assert(seq_to_file_map(s.drop_last()).remove(s[i].0@).insert(s.last().0@, s.last().1@)
            =~= seq_to_file_map(s).remove(s[i].0@));
    }
}

/// Compare two strings by content.
fn strings_equal(a: &String, b: &String) -> (r: bool)
    ensures
        r == (a@ == b@),
{
    *a == *b
}

/// The disk: the directory paths that exist and the files with their
/// content, each path named once.
pub struct Disk {
    dirs: Vec<String>,
    files: Vec<(String, String)>,
}

impl View for Disk {
    type V = DiskView;

    closed spec fn view(&self) -> DiskView {
        DiskView {
            dirs: seq_to_path_set(self.dirs@),
            files: seq_to_file_map(self.files@),
        }
    }
}

impl Disk {
    /// Internal invariant: no directory path and no file path is listed
    /// twice.
    pub closed spec fn wf(&self) -> bool {
        unique_paths(self.dirs@) && unique_keys(self.files@)
    }

    /// A disk holding nothing.
    pub fn new() -> (r: Disk)
        ensures
            r.wf(),
            r@ == empty_disk(),
    {
        let r = Disk { dirs: Vec::new(), files: Vec::new() };
        proof {
            assert(r@.dirs =~= empty_disk().dirs);
            assert(r@.files =~= empty_disk().files);
        }
        r
    }

    /// Index of `p` among the directories, if present.
    fn find_dir(&self, p: &String) -> (r: Option<usize>)
        ensures
            match r {
                Some(i) => i < self.dirs@.len() && self.dirs@[i as int]@ == p@,
                None => !self@.dirs.contains(p@),
            },
    {
        let n = self.dirs.len();
        let mut i: usize = 0;
        while i < n
            invariant
                i <= n,
                n == self.dirs@.len(),
                forall|j: int| 0 <= j < i ==> self.dirs@[j]@ != p@,
            decreases n - i,
        {
            if strings_equal(&self.dirs[i], p) {
                return Some(i);
            }
            i = i + 1;
        }
        proof {
            lemma_path_set_contains(self.dirs@, p@);
        }
        None
    }

    /// Index of the file at `p`, if present.
    fn find_file(&self, p: &String) -> (r: Option<usize>)
        ensures
            match r {
                Some(i) => i < self.files@.len() && self.files@[i as int].0@ == p@,
                None => !self@.files.dom().contains(p@),
            },
    {
        let n = self.files.len();
        let mut i: usize = 0;
        while i < n
            invariant
                i <= n,
                n == self.files@.len(),
                forall|j: int| 0 <= j < i ==> self.files@[j].0@ != p@,
            decreases n - i,
        {
            if strings_equal(&self.files[i].0, p) {
                return Some(i);
            }
            i = i + 1;
        }
        proof {
            lemma_file_map_dom(self.files@, p@);
        }
        None
    }

    /// Does a directory sit at `p`?
    pub fn dir_exists(&self, p: &String) -> (r: bool)
        ensures
            r == self@.dirs.contains(p@),
    {
        proof {
            lemma_path_set_contains(self.dirs@, p@);
        }
        match self.find_dir(p) {
            Some(_) => true,
            None => false,
        }
    }

    /// Does anything (directory or file) sit at `p`?
    pub fn path_exists(&self, p: &String) -> (r: bool)
        ensures
            r == exists_at(self@, p@),
    {
        if self.dir_exists(p) {
            return true;
        }
        match self.find_file(p) {
            Some(i) => {
                proof {
                    lemma_file_map_dom(self.files@, p@);
                }
                true
            },
            None => false,
        }
    }

    /// The content of the file at `p`, if one exists.
    pub fn read_file(&self, p: &String) -> (r: Option<String>)
        requires
            self.wf(),
        ensures
            match r {
                Some(c) => self@.files.dom().contains(p@) && c@ == self@.files[p@],
                None => !self@.files.dom().contains(p@),
            },
    {
        match self.find_file(p) {
            Some(i) => {
                proof {
                    lemma_file_map_value(self.files@, i as int);
                }
                Some(self.files[i].1.clone())
            },
            None => None,
        }
    }

    /// Record the directory `p`, a no-op when it is already there.
    fn add_dir(&mut self, p: &String)
        requires
            old(self).wf(),
        ensures
            final(self).wf(),
            final(self)@.dirs == old(self)@.dirs.insert(p@),
            final(self)@.files == old(self)@.files,
    {
        proof {
            lemma_path_set_contains(self.dirs@, p@);
        }
        match self.find_dir(p) {
            Some(_) => {
                proof {
                    assert(self@.dirs.contains(p@));
                    assert(self@.dirs =~= self@.dirs.insert(p@));
                }
            },
            None => {
                let ghost s0 = self.dirs@;
                self.dirs.push(p.clone());
                proof {
                    assert(self.dirs@.drop_last() =~= s0);
                    assert(self.dirs@.last()@ == p@);
                    assert(forall|j: int| 0 <= j < s0.len() ==> s0[j]@ != p@) by {
                        lemma_path_set_contains(s0, p@);
                    }
                    assert(forall|j: int| 0 <= j < s0.len() ==> self.dirs@[j] == s0[j]);
                }
            },
        }
    }

    /// Write `c` to the file at `p`, creating it or overwriting whatever
    /// content was there.
    pub fn put_file(&mut self, p: &String, c: String)
        requires
            old(self).wf(),
        ensures
            final(self).wf(),
            final(self)@.files == old(self)@.files.insert(p@, c@),
            final(self)@.dirs == old(self)@.dirs,
    {
        let ghost m0 = self@.files;
        match self.find_file(p) {
            Some(i) => {
                let ghost s0 = self.files@;
                proof {
                    lemma_file_map_remove(s0, i as int);
                }
                self.files.remove(i);
                proof {
                    assert(forall|a: int, b: int|
                        0 <= a < b < self.files@.len() ==> #[trigger] self.files@[a].0@
                            != #[trigger] self.files@[b].0@) by {
                        assert(forall|a: int|
                            0 <= a < self.files@.len() ==> exists|o: int|
                                0 <= o < s0.len() && #[trigger] self.files@[a] == s0[o]
                                    && (a < i ==> o == a) && (a >= i ==> o == a + 1));
                    }
                    assert(forall|a: int|
                        0 <= a < self.files@.len() ==> #[trigger] self.files@[a].0@ != p@) by {
                        assert(forall|a: int, b: int|
                            0 <= a < b < s0.len() ==> s0[a].0@ != s0[b].0@);
                    }
                }
                let ghost s1 = self.files@;
                self.files.push((p.clone(), c));
                proof {
                    assert(self.files@.drop_last() =~= s1);
                    assert(self@.files == seq_to_file_map(s1).insert(p@, c@));
                    assert(seq_to_file_map(s1) == m0.remove(p@));
                    assert(m0.remove(p@).insert(p@, c@) =~= m0.insert(p@, c@));
                    assert(forall|j: int| 0 <= j < s1.len() ==> self.files@[j] == s1[j]);
                }
            },
            None => {
                let ghost s0 = self.files@;
                self.files.push((p.clone(), c));
                proof {
                    assert(self.files@.drop_last() =~= s0);
                    assert(forall|j: int| 0 <= j < s0.len() ==> s0[j].0@ != p@) by {
                        lemma_file_map_dom(s0, p@);
                    }
                    assert(forall|j: int| 0 <= j < s0.len() ==> self.files@[j] == s0[j]);
                }
            },
        }
    }

    /// Bring the directory `p` into existence, together with every
    /// missing ancestor directory.  Idempotent: directories already there
    /// stay as they are, and files are never touched.
    pub fn create_dir_all(&mut self, p: &String)
        requires
            old(self).wf(),
        ensures
            final(self).wf(),
            final(self)@.dirs == old(self)@.dirs.union(crate::paths::dir_closure(p@)),
            final(self)@.files == old(self)@.files,
    {
        let ghost d0 = self@.dirs;
        let ghost f0 = self@.files;
        let n = p.as_str().unicode_len();
        let mut i: usize = 0;
        proof {
            assert(d0.union(
                Set::new(
                    |q: Seq<char>| exists|j: int| 0 < j < 0 && p@[j] == '/' && q == p@.take(j),
                ),
            ) =~= d0);
        }
        while i < n
            invariant
                i <= n,
                n == p@.len(),
                self.wf(),
                self@.files == f0,
                self@.dirs == d0.union(
                    Set::new(
                        |q: Seq<char>| exists|j: int|
                            0 < j < i && p@[j] == '/' && q == p@.take(j),
                    ),
                ),
            decreases n - i,
        {
            let ghost small = Set::new(
                |q: Seq<char>| exists|j: int| 0 < j < i && p@[j] == '/' && q == p@.take(j),
            );
            let ghost big = Set::new(
                |q: Seq<char>| exists|j: int| 0 < j < i + 1 && p@[j] == '/' && q == p@.take(j),
            );
            proof {
                assert forall|q: Seq<char>| #[trigger] small.contains(q) implies big.contains(
                    q,
                ) by {
                    let j = choose|j: int| 0 < j < i && p@[j] == '/' && q == p@.take(j);
                    assert(0 < j < i + 1 && p@[j] == '/' && q == p@.take(j));
                }
            }
            if i > 0 && p.as_str().get_char(i) == '/' {
                let anc = String::from_str(p.as_str().substring_char(0, i));
                proof {
                    assert(anc@ =~= p@.take(i as int));
                }
                self.add_dir(&anc);
                proof {
                    assert forall|q: Seq<char>| #[trigger] big.contains(q) implies small.contains(
                        q,
                    ) || q == p@.take(i as int) by {
                        let j = choose|j: int| 0 < j < i + 1 && p@[j] == '/' && q == p@.take(j);
                        if j < i {
                            assert(small.contains(q));
                        }
                    }
                    assert(0 < i < p@.len() && p@[i as int] == '/');
                    assert(big.contains(p@.take(i as int)));
                    assert(self@.dirs =~= d0.union(big));
                }
            } else {
                proof {
                    assert forall|q: Seq<char>| #[trigger] big.contains(q) implies small.contains(
                        q,
                    ) by {
                        let j = choose|j: int| 0 < j < i + 1 && p@[j] == '/' && q == p@.take(j);
                        assert(j < i);
                        assert(0 < j < i && p@[j] == '/' && q == p@.take(j));
                    }
                    assert(self@.dirs =~= d0.union(big));
                }
            }
            i = i + 1;
        }
        let ghost anc_set = Set::new(
            |q: Seq<char>| exists|j: int| 0 < j < n && p@[j] == '/' && q == p@.take(j),
        );
        if n > 0 {
            self.add_dir(p);
        }
        proof {
            let closure = crate::paths::dir_closure(p@);
            if n > 0 {
                assert forall|q: Seq<char>| #[trigger] closure.contains(q) implies q == p@
                    || anc_set.contains(q) by {
                    if q != p@ {
                        assert(descends(p@, q));
                        let j = q.len() as int;
                        assert(0 < j < p@.len() && p@[j] == '/' && q == p@.take(j));
                        assert(anc_set.contains(q));
                    }
                }
                assert forall|q: Seq<char>| #[trigger] anc_set.contains(q) implies closure.contains(
                    q,
                ) by {
                    let j = choose|j: int| 0 < j < n && p@[j] == '/' && q == p@.take(j);
                    assert(q.len() == j);
                    assert(descends(p@, q));
                }
                assert(p@.len() > 0);
                assert(closure.contains(p@));
                assert(self@.dirs =~= d0.union(closure));
            } else {
                assert(p@.len() == 0);
                assert forall|q: Seq<char>| !closure.contains(q) by {
                    assert(!(q.len() > 0 && (q == p@ || descends(p@, q))));
                }
                assert(self@.dirs =~= d0.union(closure));
            }
        }
    }

    /// Remove the directory tree at `p`: the directory and everything
    /// strictly inside it.  A silent no-op when no directory sits at `p`,
    /// exactly as `remove_tree_spec` says.
    pub fn remove_tree(&mut self, p: &String)
        requires
            old(self).wf(),
        ensures
            final(self).wf(),
            final(self)@ == remove_tree_spec(old(self)@, p@),
    {
        let ghost fs0 = self@;
        if !self.dir_exists(p) {
            return;
        }
        let ghost dirs0 = self.dirs@;
        let ghost files0 = self.files@;
        let mut kept_dirs: Vec<String> = Vec::new();
        let n = self.dirs.len();
        let mut i: usize = 0;
        while i < n
            invariant
                i <= n,
                n == self.dirs@.len(),
                self.dirs@ == dirs0,
                unique_paths(dirs0),
                forall|k: int|
                    0 <= k < kept_dirs@.len() ==> exists|idx: int|
                        0 <= idx < i && (#[trigger] kept_dirs@[k])@ == dirs0[idx]@,
                forall|idx: int|
                    0 <= idx < i && (#[trigger] dirs0[idx])@ != p@ && !descends(dirs0[idx]@, p@)
                        ==> exists|k: int|
                        0 <= k < kept_dirs@.len() && kept_dirs@[k]@ == dirs0[idx]@,
                forall|k: int|
                    0 <= k < kept_dirs@.len() ==> (#[trigger] kept_dirs@[k])@ != p@ && !descends(
                        kept_dirs@[k]@,
                        p@,
                    ),
                unique_paths(kept_dirs@),
            decreases n - i,
        {
            let keep = !strings_equal(&self.dirs[i], p) && !crate::paths::descends_check(
                &self.dirs[i],
                p,
            );
            if keep {
                let ghost kept_before = kept_dirs@;
                kept_dirs.push(self.dirs[i].clone());
                proof {
                    assert(kept_dirs@[kept_before.len() as int]@ == dirs0[i as int]@);
                    assert(forall|k: int|
                        0 <= k < kept_before.len() ==> kept_dirs@[k] == kept_before[k]);
                    assert forall|a: int, b: int|
                        0 <= a < b < kept_dirs@.len() implies kept_dirs@[a]@ != kept_dirs@[b]@ by {
                        if b == kept_dirs@.len() - 1 {
                            let idx = choose|idx: int|
                                0 <= idx < i && kept_dirs@[a]@ == dirs0[idx]@;
                            assert(dirs0[idx]@ != dirs0[i as int]@);
                        }
                    }
                }
            }
            i = i + 1;
        }
        let mut kept_files: Vec<(String, String)> = Vec::new();
        let m = self.files.len();
        let mut i2: usize = 0;
        while i2 < m
            invariant
                i2 <= m,
                m == self.files@.len(),
                self.files@ == files0,
                unique_keys(files0),
                forall|k: int|
                    0 <= k < kept_files@.len() ==> exists|idx: int|
                        0 <= idx < i2 && (#[trigger] kept_files@[k]).0@ == files0[idx].0@
                            && kept_files@[k].1@ == files0[idx].1@,
                forall|idx: int|
                    0 <= idx < i2 && !descends((#[trigger] files0[idx]).0@, p@) ==> exists|k: int|
                        0 <= k < kept_files@.len() && kept_files@[k].0@ == files0[idx].0@,
                forall|k: int|
                    0 <= k < kept_files@.len() ==> !descends((#[trigger] kept_files@[k]).0@, p@),
                unique_keys(kept_files@),
            decreases m - i2,
        {
            let keep = !crate::paths::descends_check(&self.files[i2].0, p);
            if keep {
                let ghost kept_before = kept_files@;
                kept_files.push((self.files[i2].0.clone(), self.files[i2].1.clone()));
                proof {
                    assert(kept_files@[kept_before.len() as int].0@ == files0[i2 as int].0@);
                    assert(forall|k: int|
                        0 <= k < kept_before.len() ==> kept_files@[k] == kept_before[k]);
                    assert forall|a: int, b: int|
                        0 <= a < b < kept_files@.len() implies kept_files@[a].0@
                            != kept_files@[b].0@ by {
                        if b == kept_files@.len() - 1 {
                            let idx = choose|idx: int|
                                0 <= idx < i2 && kept_files@[a].0@ == files0[idx].0@
                                    && kept_files@[a].1@ == files0[idx].1@;
                            assert(files0[idx].0@ != files0[i2 as int].0@);
                        }
                    }
                }
            }
            i2 = i2 + 1;
        }
        let ghost kd = kept_dirs@;
        let ghost kf = kept_files@;
        self.dirs = kept_dirs;
        self.files = kept_files;
        proof {
            assert(self.dirs@ == kd);
            assert(self.files@ == kf);
            let target = remove_tree_spec(fs0, p@);
            assert(self@.dirs =~= target.dirs) by {
                assert forall|q: Seq<char>| self@.dirs.contains(q) implies target.dirs.contains(
                    q,
                ) by {
                    lemma_path_set_contains(self.dirs@, q);
                    let k = choose|k: int| 0 <= k < self.dirs@.len() && self.dirs@[k]@ == q;
                    let idx = choose|idx: int|
                        0 <= idx < dirs0.len() && self.dirs@[k]@ == dirs0[idx]@;
                    lemma_path_set_contains(dirs0, q);
                }
                assert forall|q: Seq<char>| target.dirs.contains(q) implies self@.dirs.contains(
                    q,
                ) by {
                    lemma_path_set_contains(dirs0, q);
                    let idx = choose|idx: int| 0 <= idx < dirs0.len() && dirs0[idx]@ == q;
                    assert(exists|k: int|
                        0 <= k < self.dirs@.len() && self.dirs@[k]@ == dirs0[idx]@);
                    lemma_path_set_contains(self.dirs@, q);
                }
            }
            assert forall|q: Seq<char>| #[trigger] self@.files.dom().contains(q)
                implies target.files.dom().contains(q) && self@.files[q] == target.files[q] by {
                lemma_file_map_dom(self.files@, q);
                let k = choose|k: int| 0 <= k < self.files@.len() && self.files@[k].0@ == q;
                let idx = choose|idx: int|
                    0 <= idx < files0.len() && self.files@[k].0@ == files0[idx].0@
                        && self.files@[k].1@ == files0[idx].1@;
                lemma_file_map_dom(files0, q);
                lemma_file_map_value(files0, idx);
                lemma_file_map_value(self.files@, k);
            }
            assert forall|q: Seq<char>| #[trigger] target.files.dom().contains(q)
                implies self@.files.dom().contains(q) by {
                lemma_file_map_dom(files0, q);
                let idx = choose|idx: int| 0 <= idx < files0.len() && files0[idx].0@ == q;
                assert(exists|k: int|
                    0 <= k < self.files@.len() && self.files@[k].0@ == files0[idx].0@);
                lemma_file_map_dom(self.files@, q);
            }
            assert(self@.files.dom() =~= target.files.dom());
            assert(self@.files =~= target.files);
        }
    }

    /// Copy the directory tree at `sp` to `tp`: create the destination
    /// (and missing ancestors) unless something already sits there, then
    /// replicate every directory and copy every file strictly inside
    /// `sp`, overwriting files already present at the corresponding
    /// destination paths.  Exactly `copy_tree_spec`.
    pub fn copy_tree(&mut self, sp: &String, tp: &String)
        requires
            old(self).wf(),
        ensures
            final(self).wf(),
            final(self)@ == copy_tree_spec(old(self)@, sp@, tp@),
    {
        let ghost fs0 = self@;
        let ghost dirs0 = self.dirs@;
        let ghost files0 = self.files@;
        let spl = sp.as_str().unicode_len();
        let mut src_dirs: Vec<String> = Vec::new();
        let n = self.dirs.len();
        let mut i: usize = 0;
        while i < n
            invariant
                i <= n,
                n == dirs0.len(),
                self.dirs@ == dirs0,
                self.files@ == files0,
                forall|k: int|
                    0 <= k < src_dirs@.len() ==> descends((#[trigger] src_dirs@[k])@, sp@)
                        && seq_to_path_set(dirs0).contains(src_dirs@[k]@),
                forall|idx: int|
                    0 <= idx < i && descends((#[trigger] dirs0[idx])@, sp@) ==> exists|k: int|
                        0 <= k < src_dirs@.len() && src_dirs@[k]@ == dirs0[idx]@,
            decreases n - i,
        {
            if crate::paths::descends_check(&self.dirs[i], sp) {
                let ghost before = src_dirs@;
                src_dirs.push(self.dirs[i].clone());
                proof {
                    lemma_path_set_contains(dirs0, dirs0[i as int]@);
                    assert(src_dirs@[before.len() as int]@ == dirs0[i as int]@);
                    assert(forall|k: int| 0 <= k < before.len() ==> src_dirs@[k] == before[k]);
                }
            }
            i = i + 1;
        }
        let mut src_files: Vec<(String, String)> = Vec::new();
        let m = self.files.len();
        let mut i2: usize = 0;
        while i2 < m
            invariant
                i2 <= m,
                m == files0.len(),
                self.dirs@ == dirs0,
                self.files@ == files0,
                unique_keys(files0),
                forall|k: int|
                    0 <= k < src_files@.len() ==> descends((#[trigger] src_files@[k]).0@, sp@)
                        && seq_to_file_map(files0).dom().contains(src_files@[k].0@)
                        && seq_to_file_map(files0)[src_files@[k].0@] == src_files@[k].1@,
                forall|idx: int|
                    0 <= idx < i2 && descends((#[trigger] files0[idx]).0@, sp@) ==> exists|k: int|
                        0 <= k < src_files@.len() && src_files@[k].0@ == files0[idx].0@,
            decreases m - i2,
        {
            if crate::paths::descends_check(&self.files[i2].0, sp) {
                let ghost before = src_files@;
                src_files.push((self.files[i2].0.clone(), self.files[i2].1.clone()));
                proof {
                    lemma_file_map_value(files0, i2 as int);
                    assert(src_files@[before.len() as int].0@ == files0[i2 as int].0@);
                    assert(forall|k: int| 0 <= k < before.len() ==> src_files@[k] == before[k]);
                }
            }
            i2 = i2 + 1;
        }
        if !self.path_exists(tp) {
            self.create_dir_all(tp);
        }
        let ghost base = if exists_at(fs0, tp@) {
            fs0.dirs
        } else {
            fs0.dirs.union(dir_closure(tp@))
        };
        proof {
            assert(self@.dirs == base);
            assert(self@.files == fs0.files);
        }
        let nd = src_dirs.len();
        let mut j: usize = 0;
        proof {
            assert(self@.dirs =~= base.union(
                Set::new(
                    |q: Seq<char>| exists|k: int|
                        0 <= k < 0 && q == copy_target(src_dirs@[k]@, sp@, tp@),
                ),
            ));
        }
        while j < nd
            invariant
                j <= nd,
                nd == src_dirs@.len(),
                self.wf(),
                spl == sp@.len(),
                self@.files == fs0.files,
                forall|k: int|
                    0 <= k < src_dirs@.len() ==> descends((#[trigger] src_dirs@[k])@, sp@)
                        && fs0.dirs.contains(src_dirs@[k]@),
                self@.dirs == base.union(
                    Set::new(
                        |q: Seq<char>| exists|k: int|
                            0 <= k < j && q == copy_target(src_dirs@[k]@, sp@, tp@),
                    ),
                ),
            decreases nd - j,
        {
            let ghost small = Set::new(
                |q: Seq<char>| exists|k: int|
                    0 <= k < j && q == copy_target(src_dirs@[k]@, sp@, tp@),
            );
            let ghost big = Set::new(
                |q: Seq<char>| exists|k: int|
                    0 <= k < j + 1 && q == copy_target(src_dirs@[k]@, sp@, tp@),
            );
            let d = &src_dirs[j];
            let dl = d.as_str().unicode_len();
            let suffix = d.as_str().substring_char(spl, dl);
            let mut t = tp.clone();
            t.append(suffix);
            proof {
                assert(t@ =~= copy_target(d@, sp@, tp@));
            }
            self.add_dir(&t);
            proof {
                assert forall|q: Seq<char>| #[trigger] big.contains(q) implies small.contains(q)
                    || q == t@ by {
                    let k = choose|k: int|
                        0 <= k < j + 1 && q == copy_target(src_dirs@[k]@, sp@, tp@);
                    if k < j {
                        assert(small.contains(q));
                    }
                }
                assert forall|q: Seq<char>| #[trigger] small.contains(q) implies big.contains(
                    q,
                ) by {
                    let k = choose|k: int| 0 <= k < j && q == copy_target(src_dirs@[k]@, sp@, tp@);
                    assert(0 <= k < j + 1 && q == copy_target(src_dirs@[k]@, sp@, tp@));
                }
                assert(big.contains(t@));
                assert(self@.dirs =~= base.union(big));
            }
            j = j + 1;
        }
        proof {
            let copied = copied_dirs(fs0, sp@, tp@);
            let all = Set::new(
                |q: Seq<char>| exists|k: int|
                    0 <= k < src_dirs@.len() && q == copy_target(src_dirs@[k]@, sp@, tp@),
            );
            assert forall|q: Seq<char>| #[trigger] all.contains(q) implies copied.contains(q) by {
                let k = choose|k: int|
                    0 <= k < src_dirs@.len() && q == copy_target(src_dirs@[k]@, sp@, tp@);
                crate::paths::lemma_descends_transfer(src_dirs@[k]@, sp@, tp@);
                assert(copied_src(q, sp@, tp@) == src_dirs@[k]@);
            }
            assert forall|q: Seq<char>| #[trigger] copied.contains(q) implies all.contains(q) by {
                let sq = copied_src(q, sp@, tp@);
                crate::paths::lemma_descends_transfer(q, tp@, sp@);
                assert(descends(sq, sp@));
                lemma_path_set_contains(dirs0, sq);
                let idx = choose|idx: int| 0 <= idx < dirs0.len() && dirs0[idx]@ == sq;
                assert(descends(dirs0[idx]@, sp@));
                let k = choose|k: int|
                    0 <= k < src_dirs@.len() && src_dirs@[k]@ == dirs0[idx]@;
                assert(copy_target(src_dirs@[k]@, sp@, tp@) == q);
            }
            assert(self@.dirs =~= base.union(copied));
        }
        let ghost dirs_done = self@.dirs;
        let nf = src_files.len();
        let mut j2: usize = 0;
        proof {
            assert(self@.files =~= Map::new(
                |q: Seq<char>|
                    fs0.files.dom().contains(q) || (exists|k: int|
                        0 <= k < 0 && q == copy_target(src_files@[k].0@, sp@, tp@)),
                |q: Seq<char>|
                    if exists|k: int| 0 <= k < 0 && q == copy_target(src_files@[k].0@, sp@, tp@) {
                        fs0.files[copied_src(q, sp@, tp@)]
                    } else {
                        fs0.files[q]
                    },
            ));
        }
        while j2 < nf
            invariant
                j2 <= nf,
                nf == src_files@.len(),
                self.wf(),
                spl == sp@.len(),
                self@.dirs == dirs_done,
                forall|k: int|
                    0 <= k < src_files@.len() ==> descends((#[trigger] src_files@[k]).0@, sp@)
                        && fs0.files.dom().contains(src_files@[k].0@) && fs0.files[src_files@[k].0@]
                        == src_files@[k].1@,
                self@.files == Map::new(
                    |q: Seq<char>|
                        fs0.files.dom().contains(q) || (exists|k: int|
                            0 <= k < j2 && q == copy_target(src_files@[k].0@, sp@, tp@)),
                    |q: Seq<char>|
                        if exists|k: int|
                            0 <= k < j2 && q == copy_target(src_files@[k].0@, sp@, tp@) {
                            fs0.files[copied_src(q, sp@, tp@)]
                        } else {
                            fs0.files[q]
                        },
                ),
            decreases nf - j2,
        {
            let ghost small = Map::new(
                |q: Seq<char>|
                    fs0.files.dom().contains(q) || (exists|k: int|
                        0 <= k < j2 && q == copy_target(src_files@[k].0@, sp@, tp@)),
                |q: Seq<char>|
                    if exists|k: int| 0 <= k < j2 && q == copy_target(src_files@[k].0@, sp@, tp@) {
                        fs0.files[copied_src(q, sp@, tp@)]
                    } else {
                        fs0.files[q]
                    },
            );
            let ghost big = Map::new(
                |q: Seq<char>|
                    fs0.files.dom().contains(q) || (exists|k: int|
                        0 <= k < j2 + 1 && q == copy_target(src_files@[k].0@, sp@, tp@)),
                |q: Seq<char>|
                    if exists|k: int|
                        0 <= k < j2 + 1 && q == copy_target(src_files@[k].0@, sp@, tp@) {
                        fs0.files[copied_src(q, sp@, tp@)]
                    } else {
                        fs0.files[q]
                    },
            );
            let f = &src_files[j2].0;
            let fl = f.as_str().unicode_len();
            let suffix = f.as_str().substring_char(spl, fl);
            let mut t = tp.clone();
            t.append(suffix);
            proof {
                assert(t@ =~= copy_target(f@, sp@, tp@));
                crate::paths::lemma_descends_transfer(f@, sp@, tp@);
            }
            let c = src_files[j2].1.clone();
            self.put_file(&t, c);
            proof {
                assert forall|q: Seq<char>| #[trigger] big.dom().contains(q) implies
                    small.insert(t@, fs0.files[copied_src(t@, sp@, tp@)]).dom().contains(q)
                    && big[q] == small.insert(t@, fs0.files[copied_src(t@, sp@, tp@)])[q] by {
                    if q == t@ {
                        assert(copied_src(t@, sp@, tp@) == f@);
                        assert(exists|k: int|
                            0 <= k < j2 + 1 && q == copy_target(src_files@[k].0@, sp@, tp@));
                    } else {
                        if exists|k: int|
                            0 <= k < j2 + 1 && q == copy_target(src_files@[k].0@, sp@, tp@) {
                            let k = choose|k: int|
                                0 <= k < j2 + 1 && q == copy_target(src_files@[k].0@, sp@, tp@);
                            assert(k < j2);
                            assert(exists|k2: int|
                                0 <= k2 < j2 && q == copy_target(src_files@[k2].0@, sp@, tp@));
                        }
                    }
                }
                assert forall|q: Seq<char>|
                    #[trigger] small.insert(t@, fs0.files[copied_src(t@, sp@, tp@)]).dom().contains(
                    q,
                ) implies big.dom().contains(q) by {
                    if q == t@ {
                        assert(exists|k: int|
                            0 <= k < j2 + 1 && q == copy_target(src_files@[k].0@, sp@, tp@));
                    } else {
                        if exists|k: int|
                            0 <= k < j2 && q == copy_target(src_files@[k].0@, sp@, tp@) {
                            let k = choose|k: int|
                                0 <= k < j2 && q == copy_target(src_files@[k].0@, sp@, tp@);
                            assert(0 <= k < j2 + 1 && q == copy_target(src_files@[k].0@, sp@, tp@));
                        }
                    }
                }
                assert(c@ == fs0.files[copied_src(t@, sp@, tp@)]);
                assert(self@.files =~= big);
            }
            j2 = j2 + 1;
        }
        proof {
            let spec = copy_tree_spec(fs0, sp@, tp@);
            let all = Map::new(
                |q: Seq<char>|
                    fs0.files.dom().contains(q) || (exists|k: int|
                        0 <= k < src_files@.len() && q == copy_target(src_files@[k].0@, sp@, tp@)),
                |q: Seq<char>|
                    if exists|k: int|
                        0 <= k < src_files@.len() && q == copy_target(src_files@[k].0@, sp@, tp@) {
                        fs0.files[copied_src(q, sp@, tp@)]
                    } else {
                        fs0.files[q]
                    },
            );
            assert forall|q: Seq<char>|
                (exists|k: int|
                    0 <= k < src_files@.len() && q == copy_target(
                        (#[trigger] src_files@[k]).0@,
                        sp@,
                        tp@,
                    )) <==> (descends(q, tp@) && fs0.files.dom().contains(
                copied_src(q, sp@, tp@),
            )) by {
                if exists|k: int|
                    0 <= k < src_files@.len() && q == copy_target(src_files@[k].0@, sp@, tp@) {
                    let k = choose|k: int|
                        0 <= k < src_files@.len() && q == copy_target(src_files@[k].0@, sp@, tp@);
                    crate::paths::lemma_descends_transfer(src_files@[k].0@, sp@, tp@);
                    assert(copied_src(q, sp@, tp@) == src_files@[k].0@);
                }
                if descends(q, tp@) && fs0.files.dom().contains(copied_src(q, sp@, tp@)) {
                    let sq = copied_src(q, sp@, tp@);
                    crate::paths::lemma_descends_transfer(q, tp@, sp@);
                    assert(descends(sq, sp@));
                    lemma_file_map_dom(files0, sq);
                    let idx = choose|idx: int| 0 <= idx < files0.len() && files0[idx].0@ == sq;
                    assert(descends(files0[idx].0@, sp@));
                    let k = choose|k: int|
                        0 <= k < src_files@.len() && src_files@[k].0@ == files0[idx].0@;
                    assert(copy_target(src_files@[k].0@, sp@, tp@) == q);
                }
            }
            assert forall|q: Seq<char>| #[trigger] self@.files.dom().contains(q) implies
                spec.files.dom().contains(q) && self@.files[q] == spec.files[q] by {
                assert(all.dom().contains(q));
            }
            assert forall|q: Seq<char>| #[trigger] spec.files.dom().contains(q) implies
                self@.files.dom().contains(q) by {
                assert(all.dom().contains(q));
            }
            assert(self@.files =~= spec.files);
            assert(self@.dirs =~= spec.dirs);
        }
    }
}

} // verus!
