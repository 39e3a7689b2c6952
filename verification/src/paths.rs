//! Textual path arithmetic.
//!
//! Paths are modeled purely as text: a path is its sequence of characters
//! and `'/'` is the separator.  No normalization, symlink resolution, or
//! platform-specific handling is performed; the caller hands paths in and
//! gets paths back verbatim.  A path with no separator has no parent in
//! this model, and the root `"/"` has none either.

use crate::errors::VdError;
use vstd::prelude::*;
use vstd::string::StrSliceExecFns;
use vstd::string::StringExecFns;

verus! {

/// `base` and `name` joined with a single separator: `base + "/" + name`.
pub open spec fn join(base: Seq<char>, name: Seq<char>) -> Seq<char> {
    base + seq!['/'] + name
}

/// `q` lies strictly inside the directory `p`: it extends `p` and the
/// first character past `p` is the separator.
pub open spec fn descends(q: Seq<char>, p: Seq<char>) -> bool {
    &&& q.len() > p.len()
    &&& q.take(p.len() as int) == p
    &&& q[p.len() as int] == '/'
}

/// The directory `p` together with every ancestor directory of it: the
/// nonempty prefixes of `p` that end just before a separator, and `p`
/// itself.  This is what creating `p` with all missing ancestors brings
/// into existence.
pub open spec fn dir_closure(p: Seq<char>) -> Set<Seq<char>> {
    Set::new(|q: Seq<char>| q.len() > 0 && (q == p || descends(p, q)))
}

/// Index of the last separator in `p`, if any.
pub open spec fn last_slash(p: Seq<char>) -> Option<int>
    decreases p.len(),
{
    if p.len() == 0 {
        None
    } else if p[p.len() - 1] == '/' {
        Some(p.len() - 1)
    } else {
        last_slash(p.take(p.len() - 1))
    }
}

/// The parent directory of `p`: the text before the last separator, with
/// the root `"/"` kept when the last separator is the first character.
/// Empty paths, the root itself, and bare names have no parent.
pub open spec fn parent_of(p: Seq<char>) -> Option<Seq<char>> {
    match last_slash(p) {
        None => None,
        Some(i) => if i == 0 {
            if p.len() == 1 {
                None
            } else {
                Some(p.take(1))
            }
        } else {
            Some(p.take(i))
        },
    }
}

/// `last_slash` indeed points at the last separator: the index is in
/// range, holds a separator, and nothing after it is one.
pub proof fn lemma_last_slash(p: Seq<char>)
    ensures
        match last_slash(p) {
            Some(i) => 0 <= i < p.len() && p[i] == '/' && forall|j: int|
                i < j < p.len() ==> p[j] != '/',
            None => forall|j: int| 0 <= j < p.len() ==> p[j] != '/',
        },
    decreases p.len(),
{
    if p.len() == 0 {
    } else if p[p.len() - 1] == '/' {
    } else {
        let q = p.take(p.len() - 1);
        lemma_last_slash(q);
        assert(forall|j: int| 0 <= j < q.len() ==> q[j] == p[j]);
        match last_slash(q) {
            Some(i) => {
                assert(p[i] == q[i]);
                assert forall|j: int| i < j < p.len() implies p[j] != '/' by {
                    if j < p.len() - 1 {
                        assert(q[j] != '/');
                    }
                }
            },
            None => {
                assert forall|j: int| 0 <= j < p.len() implies p[j] != '/' by {
                    if j < p.len() - 1 {
                        assert(q[j] != '/');
                    }
                }
            },
        }
    }
}

/// Joining distinct names under one directory gives distinct paths.
pub proof fn lemma_join_right_injective(vp: Seq<char>, a: Seq<char>, b: Seq<char>)
    requires
        join(vp, a) == join(vp, b),
    ensures
        a == b,
{
    assert(join(vp, a).skip(vp.len() + 1 as int) =~= a);
    assert(join(vp, b).skip(vp.len() + 1 as int) =~= b);
}

/// Moving a path from under one directory to under another keeps its
/// relative part: the moved path descends from the target, and moving it
/// back gives the original.
pub proof fn lemma_descends_transfer(q: Seq<char>, sp: Seq<char>, tp: Seq<char>)
    requires
        descends(q, sp),
    ensures
        descends(tp + q.skip(sp.len() as int), tp),
        sp + (tp + q.skip(sp.len() as int)).skip(tp.len() as int) == q,
{
    let r = tp + q.skip(sp.len() as int);
    assert(r.take(tp.len() as int) =~= tp);
    assert(r[tp.len() as int] == q[sp.len() as int]);
    assert(r.skip(tp.len() as int) =~= q.skip(sp.len() as int));
    assert(sp + q.skip(sp.len() as int) =~= q);
}

/// Exact `join` of two path fragments.
pub fn path_join(base: &String, name: &String) -> (r: String)
    ensures
        r@ == join(base@, name@),
{
    let mut r = base.clone();
    r.append("/");
    r.append(name.as_str());
    proof {
        reveal_strlit("/");
        assert(r@ =~= join(base@, name@));
    }
    r
}

/// Decide `descends(q, p)`: does `q` lie strictly inside the directory
/// `p`?
pub fn descends_check(q: &String, p: &String) -> (r: bool)
    ensures
        r == descends(q@, p@),
{
    let ql = q.as_str().unicode_len();
    let pl = p.as_str().unicode_len();
    if ql <= pl {
        return false;
    }
    if q.as_str().get_char(pl) != '/' {
        return false;
    }
    let mut k: usize = 0;
    while k < pl
        invariant
            k <= pl,
            ql == q@.len(),
            pl == p@.len(),
            ql > pl,
            forall|j: int| 0 <= j < k ==> q@[j] == p@[j],
        decreases pl - k,
    {
        if q.as_str().get_char(k) != p.as_str().get_char(k) {
            proof {
                assert(q@.take(pl as int)[k as int] != p@[k as int]);
            }
            return false;
        }
        k = k + 1;
    }
    proof {
        assert(q@.take(pl as int) =~= p@);
    }
    true
}

/// Index of the last separator of `p`, as `last_slash` gives it.
fn find_last_slash(p: &str) -> (r: Option<usize>)
    ensures
        match r {
            Some(i) => last_slash(p@) == Some(i as int),
            None => last_slash(p@) is None,
        },
{
    let n = p.unicode_len();
    let mut j = n;
    proof {
        assert(p@.take(n as int) =~= p@);
    }
    while j > 0
        invariant
            j <= n,
            n == p@.len(),
            last_slash(p@) == last_slash(p@.take(j as int)),
        decreases j,
    {
        let c = p.get_char(j - 1);
        if c == '/' {
            proof {
                assert(p@.take(j as int).len() == j);
                assert(p@.take(j as int)[j - 1] == '/');
            }
            return Some(j - 1);
        }
        proof {
            assert(p@.take(j as int).take(j - 1) =~= p@.take(j - 1));
            assert(p@.take(j as int)[j - 1] != '/');
        }
        j = j - 1;
    }
    proof {
        assert(p@.take(0) =~= Seq::<char>::empty());
    }
    None
}

/// The parent directory of `p`, exactly as `parent_of` describes it.
pub fn parent_dir(p: &String) -> (r: Option<String>)
    ensures
        match r {
            Some(s) => parent_of(p@) == Some(s@),
            None => parent_of(p@) is None,
        },
{
    match find_last_slash(p.as_str()) {
        None => None,
        Some(i) => {
            if i == 0 {
                if p.as_str().unicode_len() == 1 {
                    None
                } else {
                    let s = String::from_str(p.as_str().substring_char(0, 1));
                    proof {
                        assert(s@ =~= p@.take(1));
                    }
                    Some(s)
                }
            } else {
                proof {
                    lemma_last_slash(p@);
                }
                let s = String::from_str(p.as_str().substring_char(0, i));
                proof {
                    assert(s@ =~= p@.take(i as int));
                }
                Some(s)
            }
        },
    }
}

/// The data directory used in development mode: two parent steps up from
/// the build-manifest directory, then the fixed `data` subdirectory.
/// `None` when either parent step has no parent.
pub open spec fn dev_data_dir(manifest_dir: Seq<char>) -> Option<Seq<char>> {
    match parent_of(manifest_dir) {
        None => None,
        Some(p1) => match parent_of(p1) {
            None => None,
            Some(p2) => Some(join(p2, "data"@)),
        },
    }
}

/// Resolve the root data directory.
///
/// In development mode the result is fixed by the build-manifest location
/// alone: two parents up, then `data`.  In production mode it is the
/// injected application configuration directory with `data` appended, and
/// resolution fails exactly when that directory is unavailable.  Pure path
/// arithmetic: nothing is created on disk.
pub fn get_data_dir(dev_mode: bool, manifest_dir: &String, app_config_dir: Option<&String>) -> (r:
    Result<String, VdError>)
    ensures
        dev_mode ==> match r {
            Ok(s) => dev_data_dir(manifest_dir@) == Some(s@),
            Err(e) => dev_data_dir(manifest_dir@) is None && e is NoParent,
        },
        !dev_mode ==> match (r, app_config_dir) {
            (Ok(s), Some(c)) => s@ == join(c@, "data"@),
            (Err(e), None) => e is NoConfigDir,
            _ => false,
        },
{
    if dev_mode {
        match parent_dir(manifest_dir) {
            None => Err(VdError::NoParent),
            Some(p1) => match parent_dir(&p1) {
                None => Err(VdError::NoParent),
                Some(p2) => Ok(path_join(&p2, &String::from_str("data"))),
            },
        }
    } else {
        match app_config_dir {
            None => Err(VdError::NoConfigDir),
            Some(c) => Ok(path_join(c, &String::from_str("data"))),
        }
    }
}

} // verus!
