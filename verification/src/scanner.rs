//! Finding the EPUB files under a path.

use vstd::prelude::*;
use crate::error::EruError;
use crate::order::{sort_by_key, sorted_by_key};
use crate::paths::{dot, dotdot, is_epub_chars, is_epub_path, join_path};
use crate::text::{chars_of, string_of, string_views, views};

verus! {

/// Whether something exists at the path (`Path::exists`). It depends on the file system, so
/// nothing is claimed of the answer.
#[verifier::external_body]
fn path_exists(p: &str) -> bool {
    std::path::Path::new(p).exists()
}

/// Whether the path is a regular file (`Path::is_file`). Nothing is claimed of the answer.
#[verifier::external_body]
fn path_is_file(p: &str) -> bool {
    std::path::Path::new(p).is_file()
}

/// Whether the path is a directory (`Path::is_dir`). Nothing is claimed of the answer.
#[verifier::external_body]
fn path_is_dir(p: &str) -> bool {
    std::path::Path::new(p).is_dir()
}

/// A name that a directory listing can hold: not empty, without `/`, and neither `.` nor `..`.
pub open spec fn is_plain_name(n: Seq<char>) -> bool {
    n.len() > 0 && !n.contains('/') && n != dot() && n != dotdot()
}

/// `root` with the names `ns` joined onto it, one level each (as repeated `Path::join`).
pub open spec fn under(root: Seq<char>, ns: Seq<Seq<char>>) -> Seq<char>
    decreases ns.len(),
{
    if ns.len() == 0 {
        root
    } else {
        join_path(under(root, ns.drop_last()), ns.last())
    }
}

/// `p` is `root` itself or lies below it, at most `depth` levels down.
pub open spec fn reached(root: Seq<char>, p: Seq<char>, depth: nat) -> bool {
    exists|ns: Seq<Seq<char>>|
        ns.len() <= depth && (forall|j: int| 0 <= j < ns.len() ==> is_plain_name(#[trigger] ns[j]))
            && p == under(root, ns)
}

/// The entries that `walkdir::WalkDir` visits under `root` down to `max_depth`, without
/// following links: for each, its path (lossily as text) and whether it is a regular file, or
/// `None` where the walk reported an error. Which entries there are depends on the file
/// system and is not claimed. Claimed, as walkdir and `std::fs::read_dir` document: the root
/// has depth 0 and its path is `root`; every other entry's path is its directory's path
/// joined with its name, one level deeper; no entry deeper than `max_depth` is yielded.
#[verifier::external_body]
fn walk_entries(root: &str, max_depth: usize) -> (res: Vec<Option<(String, bool)>>)
    ensures
        forall|i: int|
            0 <= i < res.len() ==> match #[trigger] res@[i] {
                Some((p, _)) => reached(root@, p@, max_depth as nat),
                None => true,
            },
{
    walkdir::WalkDir::new(root).max_depth(max_depth).follow_links(false).into_iter().map(
        |e| e.ok().map(|e| (e.path().to_string_lossy().into_owned(), e.file_type().is_file())),
    ).collect()
}

/// Whether the path names a file with the extension `epub`, in any ASCII case.
pub fn is_epub(path: &str) -> (b: bool)
    ensures
        b == is_epub_path(path@),
{
    is_epub_chars(&chars_of(path))
}

/// The paths of the walked entries that are regular files with the `epub` extension, in walk
/// order.
pub open spec fn epub_files(entries: Seq<Option<(String, bool)>>) -> Seq<Seq<char>>
    decreases entries.len(),
{
    if entries.len() == 0 {
        seq![]
    } else {
        let r = epub_files(entries.drop_last());
        match entries.last() {
            Some((p, is_file)) => if is_file && is_epub_path(p@) {
                r.push(p@)
            } else {
                r
            },
            None => r,
        }
    }
}

/// The outcome of scanning `path`, given what the file system says of it: an error naming the
/// path when nothing is there, when it is a file without the `epub` extension, or when it is
/// neither file nor directory; the path itself for an EPUB file; for a directory, the EPUB
/// files among the walked entries, sorted in path order.
pub fn scan_outcome(
    path: &str,
    exists: bool,
    is_file: bool,
    is_dir: bool,
    entries: Vec<Option<(String, bool)>>,
) -> (res: Result<Vec<String>, EruError>)
    ensures
        !exists ==> (res matches Err(EruError::PathNotFound(p)) && p@ == path@),
        exists && is_file && is_epub_path(path@) ==> (res matches Ok(v) && string_views(v@)
            == seq![path@]),
        exists && is_file && !is_epub_path(path@) ==> (res matches Err(EruError::NotAnEpub(p))
            && p@ == path@),
        exists && !is_file && is_dir ==> (res matches Ok(v) && string_views(v@).to_multiset()
            == epub_files(entries@).to_multiset() && sorted_by_key(string_views(v@), true)),
        exists && !is_file && !is_dir ==> (res matches Err(EruError::InvalidPath(p)) && p@
            == path@),
{
    let pc = chars_of(path);
    if !exists {
        return Err(EruError::PathNotFound(string_of(&pc)));
    }
    if is_file {
        if is_epub_chars(&pc) {
            let mut v: Vec<String> = Vec::new();
            v.push(string_of(&pc));
            assert(string_views(v@) =~= seq![path@]);
            return Ok(v);
        } else {
            return Err(EruError::NotAnEpub(string_of(&pc)));
        }
    }
    if !is_dir {
        return Err(EruError::InvalidPath(string_of(&pc)));
    }
    let mut cands: Vec<Vec<char>> = Vec::new();
    let mut i: usize = 0;
    while i < entries.len()
        invariant
            i <= entries.len(),
            views(cands@) == epub_files(entries@.take(i as int)),
        decreases entries.len() - i,
    {
        assert(entries@.take(i + 1).drop_last() == entries@.take(i as int));
        assert(entries@.take(i + 1).last() == entries@[i as int]);
        match &entries[i] {
            Some((p, f)) => {
                let cs = chars_of(p.as_str());
                if *f && is_epub_chars(&cs) {
                    cands.push(cs);
                    assert(views(cands@) =~= epub_files(entries@.take(i as int)).push(p@));
                }
            },
            None => {},
        }
        i += 1;
    }
    assert(entries@.take(entries.len() as int) == entries@);
    let sorted = sort_by_key(cands, true);
    let mut out: Vec<String> = Vec::new();
    let mut k: usize = 0;
    while k < sorted.len()
        invariant
            k <= sorted.len(),
            out.len() == k,
            string_views(out@) == views(sorted@).take(k as int),
        decreases sorted.len() - k,
    {
        let sk = string_of(&sorted[k]);
        out.push(sk);
        assert(string_views(out@)[k as int] == views(sorted@)[k as int]);
        k += 1;
        assert(string_views(out@) =~= views(sorted@).take(k as int));
    }
    assert(views(sorted@).take(sorted.len() as int) == views(sorted@));
    Ok(out)
}

proof fn lemma_epub_files_are_epubs(entries: Seq<Option<(String, bool)>>)
    ensures
        forall|i: int|
            0 <= i < epub_files(entries).len() ==> is_epub_path(#[trigger] epub_files(entries)[i]),
    decreases entries.len(),
{
    if entries.len() > 0 {
        let init = entries.drop_last();
        lemma_epub_files_are_epubs(init);
        let r = epub_files(init);
        let all = epub_files(entries);
        assert forall|i: int| 0 <= i < all.len() implies is_epub_path(#[trigger] all[i]) by {
            match entries.last() {
                Some((p, f)) => {
                    if f && is_epub_path(p@) {
                        assert(all == r.push(p@));
                        if i < r.len() {
                            assert(all[i] == r[i]);
                        }
                    } else {
                        assert(all == r);
                    }
                },
                None => {
                    assert(all == r);
                },
            }
        }
    }
}

/// How deep a scan walks: without limit when recursive, else the directory's own entries.
pub open spec fn depth_for(recursive: bool) -> nat {
    if recursive {
        usize::MAX as nat
    } else {
        1
    }
}

/// How deep a scan walks (see `depth_for`).
pub fn walk_depth(recursive: bool) -> (d: usize)
    ensures
        d == depth_for(recursive),
        d == if recursive { usize::MAX } else { 1 },
{
    if recursive {
        usize::MAX
    } else {
        1
    }
}

proof fn lemma_epub_files_reached(entries: Seq<Option<(String, bool)>>, root: Seq<char>, d: nat)
    requires
        forall|i: int|
            0 <= i < entries.len() ==> match #[trigger] entries[i] {
                Some((p, _)) => reached(root, p@, d),
                None => true,
            },
    ensures
        forall|k: int|
            0 <= k < epub_files(entries).len() ==> reached(root, #[trigger] epub_files(entries)[k], d),
    decreases entries.len(),
{
    if entries.len() > 0 {
        let init = entries.drop_last();
        assert forall|i: int| 0 <= i < init.len() implies match #[trigger] init[i] {
            Some((p, _)) => reached(root, p@, d),
            None => true,
        } by {
            assert(init[i] == entries[i]);
        }
        lemma_epub_files_reached(init, root, d);
        let r = epub_files(init);
        let all = epub_files(entries);
        let last = entries[entries.len() - 1];
        assert(last == entries.last());
        assert forall|k: int| 0 <= k < all.len() implies reached(root, #[trigger] all[k], d) by {
            match last {
                Some((p, f)) => {
                    if f && is_epub_path(p@) {
                        assert(all == r.push(p@));
                        if k < r.len() {
                            assert(all[k] == r[k]);
                        }
                    } else {
                        assert(all == r);
                    }
                },
                None => {
                    assert(all == r);
                },
            }
        }
    }
}

/// A path that a scan of the directory's own entries may return is one that a recursive scan
/// of the same directory may return too.
pub proof fn lemma_shallow_reach_within_deep(root: Seq<char>, p: Seq<char>)
    requires
        reached(root, p, depth_for(false)),
    ensures
        reached(root, p, depth_for(true)),
{
    let ns = choose|ns: Seq<Seq<char>>|
        ns.len() <= depth_for(false) && (forall|j: int|
            0 <= j < ns.len() ==> is_plain_name(#[trigger] ns[j])) && p == under(root, ns);
    assert(ns.len() <= depth_for(true));
}

/// The EPUB files at `path`: the path itself when it is an EPUB file, else those found under
/// it as a directory (down to its immediate entries unless `recursive`), sorted in path order.
/// What the file system holds is not known here, so the contract states what holds of every
/// outcome; `scan_outcome` states the decision exactly.
pub fn scan_path(path: &str, recursive: bool) -> (res: Result<Vec<String>, EruError>)
    ensures
        res matches Ok(v) ==> sorted_by_key(string_views(v@), true) && forall|i: int|
            0 <= i < v.len() ==> is_epub_path(#[trigger] string_views(v@)[i]) && reached(
                path@,
                string_views(v@)[i],
                depth_for(recursive),
            ),
        res matches Err(e) ==> match e {
            EruError::PathNotFound(p) => p@ == path@,
            EruError::NotAnEpub(p) => p@ == path@ && !is_epub_path(path@),
            EruError::InvalidPath(p) => p@ == path@,
            _ => false,
        },
{
    let exists = path_exists(path);
    let is_file = if exists {
        path_is_file(path)
    } else {
        false
    };
    let is_dir = if exists && !is_file {
        path_is_dir(path)
    } else {
        false
    };
    let entries = if exists && !is_file && is_dir {
        walk_entries(path, walk_depth(recursive))
    } else {
        Vec::new()
    };
    let ghost es = entries@;
    let res = scan_outcome(path, exists, is_file, is_dir, entries);
    proof {
        if exists && is_file {
            if let Ok(v) = &res {
                assert(string_views(v@).len() == 1);
                assert(string_views(v@)[0] == path@);
                let ns = Seq::<Seq<char>>::empty();
                assert(under(path@, ns) == path@);
                assert(reached(path@, string_views(v@)[0], depth_for(recursive)));
            }
        }
        if exists && !is_file && is_dir {
            lemma_epub_files_are_epubs(es);
            lemma_epub_files_reached(es, path@, depth_for(recursive));
            if let Ok(v) = &res {
                let sv = string_views(v@);
                assert forall|i: int| 0 <= i < v.len() implies is_epub_path(
                    #[trigger] string_views(v@)[i],
                ) && reached(path@, string_views(v@)[i], depth_for(recursive)) by {
                    let ef = epub_files(es);
                    sv.to_multiset_ensures();
                    ef.to_multiset_ensures();
                    assert(sv.contains(sv[i]));
                    assert(sv.to_multiset().count(sv[i]) > 0);
                    assert(ef.to_multiset().count(sv[i]) > 0);
                    assert(ef.contains(sv[i]));
                    let k = choose|k: int| 0 <= k < ef.len() && ef[k] == sv[i];
                    assert(is_epub_path(ef[k]));
                    assert(reached(path@, ef[k], depth_for(recursive)));
                }
            }
        }
    }
    res
}

} // verus!
