//! Laws of the version-directory operations, proved over the disk model.
//!
//! Each law is stated over the specification functions that the
//! operations' own contracts use, so it holds of every state the
//! operations can produce.

use crate::disk::copied_src;
use crate::disk::copy_tree_spec;
use crate::disk::exists_at;
use crate::disk::remove_tree_spec;
use crate::disk::DiskView;
use crate::paths::descends;
use crate::paths::dev_data_dir;
use crate::paths::join;
use crate::paths::lemma_join_right_injective;
use crate::paths::lemma_last_slash;
use crate::paths::parent_of;
use crate::schema::lemma_schema_distinct;
use crate::schema::schema;
use crate::versions::create_version_spec;
use crate::versions::put_all;
use crate::versions::version_path;
use vstd::prelude::*;

verus! {

proof fn lemma_put_all_dom(
    files: Map<Seq<char>, Seq<char>>,
    vp: Seq<char>,
    entries: Seq<(Seq<char>, Seq<char>)>,
    q: Seq<char>,
)
    ensures
        put_all(files, vp, entries).dom().contains(q) <==> (files.dom().contains(q) || exists|
            k: int,
        |
            0 <= k < entries.len() && q == join(vp, (#[trigger] entries[k]).0)),
    decreases entries.len(),
{
    if entries.len() == 0 {
    } else {
        let e = entries.drop_last();
        lemma_put_all_dom(files, vp, e, q);
        if q == join(vp, entries.last().0) {
            assert(q == join(vp, entries[entries.len() - 1].0));
        } else {
            if exists|k: int| 0 <= k < entries.len() && q == join(vp, (#[trigger] entries[k]).0) {
                let k = choose|k: int|
                    0 <= k < entries.len() && q == join(vp, (#[trigger] entries[k]).0);
                assert(k < entries.len() - 1);
                assert(e[k] == entries[k]);
                assert(0 <= k < e.len() && q == join(vp, e[k].0));
            }
            if exists|k: int| 0 <= k < e.len() && q == join(vp, (#[trigger] e[k]).0) {
                let k = choose|k: int| 0 <= k < e.len() && q == join(vp, (#[trigger] e[k]).0);
                assert(entries[k] == e[k]);
                assert(0 <= k < entries.len() && q == join(vp, entries[k].0));
            }
        }
    }
}

proof fn lemma_put_all_found(
    files: Map<Seq<char>, Seq<char>>,
    vp: Seq<char>,
    entries: Seq<(Seq<char>, Seq<char>)>,
    k: int,
)
    requires
        0 <= k < entries.len(),
        forall|a: int, b: int|
            0 <= a < b < entries.len() ==> (#[trigger] entries[a]).0 != (#[trigger] entries[b]).0,
    ensures
        put_all(files, vp, entries).dom().contains(join(vp, entries[k].0)),
        put_all(files, vp, entries)[join(vp, entries[k].0)] == entries[k].1,
    decreases entries.len(),
{
    if k == entries.len() - 1 {
    } else {
        let e = entries.drop_last();
        assert(forall|a: int, b: int|
            0 <= a < b < e.len() ==> (#[trigger] e[a]).0 != (#[trigger] e[b]).0) by {
            assert(forall|a: int| 0 <= a < e.len() ==> #[trigger] e[a] == entries[a]);
        }
        lemma_put_all_found(files, vp, e, k);
        assert(e[k] == entries[k]);
        assert(entries[k].0 != entries.last().0);
        if join(vp, entries[k].0) == join(vp, entries.last().0) {
            lemma_join_right_injective(vp, entries[k].0, entries.last().0);
            assert(false);
        }
    }
}

proof fn lemma_put_all_frame(
    files: Map<Seq<char>, Seq<char>>,
    vp: Seq<char>,
    entries: Seq<(Seq<char>, Seq<char>)>,
    q: Seq<char>,
)
    requires
        forall|k: int| 0 <= k < entries.len() ==> q != join(vp, (#[trigger] entries[k]).0),
    ensures
        put_all(files, vp, entries).dom().contains(q) == files.dom().contains(q),
        files.dom().contains(q) ==> put_all(files, vp, entries)[q] == files[q],
    decreases entries.len(),
{
    if entries.len() == 0 {
    } else {
        let e = entries.drop_last();
        assert(forall|k: int| 0 <= k < e.len() ==> q != join(vp, (#[trigger] e[k]).0)) by {
            assert(forall|k: int| 0 <= k < e.len() ==> #[trigger] e[k] == entries[k]);
        }
        lemma_put_all_frame(files, vp, e, q);
        assert(q != join(vp, entries[entries.len() - 1].0));
    }
}

/// Create then read: right after a version directory is created, every
/// schema file holds exactly its default content.
pub proof fn lemma_create_then_read(fs: DiskView, d: Seq<char>, v: Seq<char>, k: int)
    requires
        0 <= k < schema().len(),
    ensures
        ({
            let fs2 = create_version_spec(fs, d, v);
            let key = join(version_path(d, v), schema()[k].0);
            fs2.files.dom().contains(key) && fs2.files[key] == schema()[k].1
        }),
{
    lemma_schema_distinct();
    lemma_put_all_found(fs.files, version_path(d, v), schema(), k);
}

/// Idempotent creation: creating the same version directory twice leaves
/// exactly the state of creating it once — the directories are already
/// there and every placeholder file is overwritten with the same default
/// content, so any prior edits to those files are lost either way.
pub proof fn lemma_create_idempotent(fs: DiskView, d: Seq<char>, v: Seq<char>)
    ensures
        create_version_spec(create_version_spec(fs, d, v), d, v) == create_version_spec(fs, d, v),
{
    let fs1 = create_version_spec(fs, d, v);
    let fs2 = create_version_spec(fs1, d, v);
    let vp = version_path(d, v);
    assert(fs2.dirs =~= fs1.dirs);
    lemma_schema_distinct();
    assert forall|q: Seq<char>|
        #![trigger fs2.files.dom().contains(q), fs1.files.dom().contains(q)]
        (fs2.files.dom().contains(q) <==> fs1.files.dom().contains(q)) && (
        fs1.files.dom().contains(q) ==> fs2.files[q] == fs1.files[q]) by {
        lemma_put_all_dom(fs.files, vp, schema(), q);
        lemma_put_all_dom(fs1.files, vp, schema(), q);
        if exists|k: int| 0 <= k < schema().len() && q == join(vp, (#[trigger] schema()[k]).0) {
            let k = choose|k: int|
                0 <= k < schema().len() && q == join(vp, (#[trigger] schema()[k]).0);
            lemma_put_all_found(fs.files, vp, schema(), k);
            lemma_put_all_found(fs1.files, vp, schema(), k);
        } else {
            assert forall|k: int|
                0 <= k < schema().len() implies q != join(vp, (#[trigger] schema()[k]).0) by {}
            lemma_put_all_frame(fs.files, vp, schema(), q);
            lemma_put_all_frame(fs1.files, vp, schema(), q);
        }
    }
    assert(fs2.files =~= fs1.files);
    assert(fs2.files.dom() =~= fs1.files.dom());
}

/// Clone fidelity: when the clone target is fresh (nothing at or under
/// it), every path strictly inside the target tree afterwards mirrors
/// the corresponding path inside the source tree — same directories,
/// same files, byte-identical content — and nothing extra appears.
pub proof fn lemma_clone_fidelity(
    fs: DiskView,
    d: Seq<char>,
    s: Seq<char>,
    t: Seq<char>,
    rest: Seq<char>,
)
    requires
        rest.len() > 0,
        rest[0] == '/',
        !exists_at(fs, version_path(d, t)),
        forall|q: Seq<char>| #[trigger]
            fs.dirs.contains(q) ==> !descends(q, version_path(d, t)),
        forall|q: Seq<char>| #[trigger]
            fs.files.dom().contains(q) ==> !descends(q, version_path(d, t)),
    ensures
        ({
            let sp = version_path(d, s);
            let tp = version_path(d, t);
            let fs2 = copy_tree_spec(fs, sp, tp);
            &&& (fs2.dirs.contains(tp + rest) <==> fs.dirs.contains(sp + rest))
            &&& (fs2.files.dom().contains(tp + rest) <==> fs.files.dom().contains(sp + rest))
            &&& (fs.files.dom().contains(sp + rest) ==> fs2.files[tp + rest] == fs.files[sp
                + rest])
        }),
{
    let sp = version_path(d, s);
    let tp = version_path(d, t);
    let q = tp + rest;
    assert(q.take(tp.len() as int) =~= tp);
    assert(q[tp.len() as int] == rest[0]);
    assert(descends(q, tp));
    assert(q.skip(tp.len() as int) =~= rest);
    assert(copied_src(q, sp, tp) == sp + rest);
    assert(!crate::paths::dir_closure(tp).contains(q)) by {
        assert(q.len() > tp.len());
        assert(!descends(tp, q));
    }
}

/// Delete then absence: when no plain file sits at the version path,
/// removing the version directory leaves nothing at that path, so a
/// second delete of the same version reports not-found.
pub proof fn lemma_delete_then_absent(fs: DiskView, d: Seq<char>, v: Seq<char>)
    requires
        !fs.files.dom().contains(version_path(d, v)),
    ensures
        !exists_at(remove_tree_spec(fs, version_path(d, v)), version_path(d, v)),
{
}

/// Raw write/read round-trip: reading a path right after writing it
/// returns exactly the content written, whatever the content.
pub proof fn lemma_write_read_round_trip(fs: DiskView, p: Seq<char>, c: Seq<char>)
    ensures
        ({
            let files2 = fs.files.insert(p, c);
            files2.dom().contains(p) && files2[p] == c
        }),
{
}

/// Path resolution in development mode: the result is fixed by the
/// build-manifest location alone — two parent steps up, with the fixed
/// `data` subdirectory appended — so it always ends in `/data`.  The
/// application configuration directory plays no part: `dev_data_dir`
/// takes only the manifest location.
pub proof fn lemma_dev_data_dir_shape(m: Seq<char>)
    requires
        dev_data_dir(m) is Some,
    ensures
        parent_of(m) is Some,
        ({
            let p1 = parent_of(m).unwrap();
            let r = dev_data_dir(m).unwrap();
            &&& parent_of(p1) is Some
            &&& r == join(parent_of(p1).unwrap(), "data"@)
            &&& r.len() > 5
            &&& r.skip(r.len() - 5) == "/data"@
        }),
{
    reveal_strlit("data");
    reveal_strlit("/data");
    let p1 = parent_of(m).unwrap();
    let p2 = parent_of(p1).unwrap();
    let r = join(p2, "data"@);
    lemma_last_slash(p1);
    assert(p2.len() >= 1);
    assert(r.len() == p2.len() + 5);
    assert(r.skip(r.len() - 5) =~= "/data"@);
}

} // verus!
