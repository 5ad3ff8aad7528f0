//! File paths as `/`-separated character strings: their components, file name, extension,
//! parent directory, joining, and a key whose character order is the order of paths.

use vstd::prelude::*;
use crate::text::{append_chars, join, join_words, views};

verus! {

/// The pieces of `s` between `/` separators, empty pieces included (as `str::split('/')`).
pub open spec fn split_slash(s: Seq<char>) -> Seq<Seq<char>>
    decreases s.len(),
{
    if s.len() == 0 {
        seq![seq![]]
    } else {
        let w = split_slash(s.drop_last());
        if s.last() == '/' {
            w.push(seq![])
        } else {
            w.update(w.len() - 1, w.last().push(s.last()))
        }
    }
}

pub open spec fn dot() -> Seq<char> {
    seq!['.']
}

pub open spec fn dotdot() -> Seq<char> {
    seq!['.', '.']
}

/// The path begins at the root.
pub open spec fn is_absolute(s: Seq<char>) -> bool {
    s.len() > 0 && s[0] == '/'
}

/// The key of one piece: nothing for an empty piece or `.` (they are no component), a parent
/// marker for `..`, and otherwise a marker, the name and a NUL terminator.
pub open spec fn piece_key(p: Seq<char>) -> Seq<char> {
    if p.len() == 0 || p == dot() {
        seq![]
    } else if p == dotdot() {
        seq!['\u{3}', '\u{0}']
    } else {
        seq!['\u{4}'] + p + seq!['\u{0}']
    }
}

pub open spec fn pieces_key(ps: Seq<Seq<char>>) -> Seq<char>
    decreases ps.len(),
{
    if ps.len() == 0 {
        seq![]
    } else {
        pieces_key(ps.drop_last()) + piece_key(ps.last())
    }
}

/// The key of the leading component: the root of an absolute path, or the `.` that begins a
/// relative one.
pub open spec fn head_key(s: Seq<char>) -> Seq<char> {
    if is_absolute(s) {
        seq!['\u{1}', '\u{0}']
    } else if split_slash(s)[0] == dot() {
        seq!['\u{2}', '\u{0}']
    } else {
        seq![]
    }
}

/// The components of a path written one after the other, each as a kind marker (root <
/// current directory < parent directory < name), its name, and a NUL terminator. Two paths
/// have the same key when they have the same components (`Path` equality), and for paths
/// without NUL characters the character order of keys is the component order of paths
/// (`Path` ordering).
pub open spec fn path_key(s: Seq<char>) -> Seq<char> {
    head_key(s) + pieces_key(split_slash(s))
}

/// The last piece that is a component, if any.
pub open spec fn last_piece(ps: Seq<Seq<char>>) -> Option<Seq<char>>
    decreases ps.len(),
{
    if ps.len() == 0 {
        None
    } else if ps.last().len() == 0 || ps.last() == dot() {
        last_piece(ps.drop_last())
    } else {
        Some(ps.last())
    }
}

/// The final component of a path when it is a name (as `Path::file_name`).
pub open spec fn file_name(s: Seq<char>) -> Option<Seq<char>> {
    match last_piece(split_slash(s)) {
        Some(p) => if p == dotdot() {
            None
        } else {
            Some(p)
        },
        None => None,
    }
}

/// The index of the last occurrence of `c` in `s`, or -1.
pub open spec fn last_index_of(s: Seq<char>, c: char) -> int
    decreases s.len(),
{
    if s.len() == 0 {
        -1
    } else if s.last() == c {
        s.len() - 1
    } else {
        last_index_of(s.drop_last(), c)
    }
}

/// The extension of a file name: what follows its last `.`, unless that dot begins the name
/// or there is none (as `Path::extension`).
pub open spec fn extension(name: Seq<char>) -> Option<Seq<char>> {
    let i = last_index_of(name, '.');
    if name == dotdot() || i <= 0 {
        None
    } else {
        Some(name.skip(i + 1))
    }
}

/// `e` is `epub` in any mix of ASCII case.
pub open spec fn is_epub_ext(e: Seq<char>) -> bool {
    &&& e.len() == 4
    &&& (e[0] == 'e' || e[0] == 'E')
    &&& (e[1] == 'p' || e[1] == 'P')
    &&& (e[2] == 'u' || e[2] == 'U')
    &&& (e[3] == 'b' || e[3] == 'B')
}

/// The path names a file with the extension `epub`, in any ASCII case.
pub open spec fn is_epub_path(s: Seq<char>) -> bool {
    match file_name(s) {
        Some(n) => match extension(n) {
            Some(e) => is_epub_ext(e),
            None => false,
        },
        None => false,
    }
}

/// The pieces without trailing empty pieces and `.` pieces, the first piece always kept (as
/// `Path` drops trailing separators and `.` components).
pub open spec fn strip_trailing_pieces(ps: Seq<Seq<char>>) -> Seq<Seq<char>>
    decreases ps.len(),
{
    if ps.len() > 1 && (ps.last().len() == 0 || ps.last() == dot()) {
        strip_trailing_pieces(ps.drop_last())
    } else {
        ps
    }
}

/// The directory that holds a path (as `Path::parent`): trailing separators and `.`
/// components are passed over, the last component is dropped, and so are the separators and
/// `.` components that it leaves at the end; none for the empty path and the root, the empty
/// path for a single component, the root for a component just under it.
pub open spec fn parent_dir(s: Seq<char>) -> Option<Seq<char>> {
    let ps = strip_trailing_pieces(split_slash(s));
    if ps.len() <= 1 {
        if ps.len() == 0 || ps[0].len() == 0 {
            None
        } else {
            Some(seq![])
        }
    } else {
        let q = join(strip_trailing_pieces(ps.drop_last()), seq!['/']);
        if q.len() == 0 {
            Some(seq!['/'])
        } else {
            Some(q)
        }
    }
}

/// `name` placed under `base` (as `Path::join`): an absolute name stands alone.
pub open spec fn join_path(base: Seq<char>, name: Seq<char>) -> Seq<char> {
    if is_absolute(name) || base.len() == 0 {
        name
    } else if base.last() == '/' {
        base + name
    } else {
        base + seq!['/'] + name
    }
}

/// The pieces of `s` between `/` separators.
pub fn split_slash_exec(s: &Vec<char>) -> (res: Vec<Vec<char>>)
    ensures
        views(res@) == split_slash(s@),
        res.len() > 0,
{
    let mut res: Vec<Vec<char>> = Vec::new();
    res.push(Vec::new());
    let mut i: usize = 0;
    assert(views(res@) =~= split_slash(s@.take(0)));
    while i < s.len()
        invariant
            i <= s.len(),
            views(res@) == split_slash(s@.take(i as int)),
            res.len() > 0,
        decreases s.len() - i,
    {
        let ghost pre = s@.take(i as int);
        assert(s@.take(i + 1).drop_last() == pre);
        let c = s[i];
        if c == '/' {
            res.push(Vec::new());
            assert(views(res@) =~= split_slash(pre).push(seq![]));
        } else {
            let last = res.len() - 1;
            let mut w = res.remove(last);
            w.push(c);
            res.push(w);
            assert(views(res@) =~= split_slash(pre).update(
                split_slash(pre).len() - 1,
                split_slash(pre).last().push(c),
            ));
        }
        i += 1;
    }
    assert(s@.take(s.len() as int) == s@);
    res
}

fn is_dot(p: &Vec<char>) -> (b: bool)
    ensures
        b == (p@ == dot()),
{
    let b = p.len() == 1 && p[0] == '.';
    if b {
        assert(p@ =~= dot());
    }
    b
}

fn is_dotdot(p: &Vec<char>) -> (b: bool)
    ensures
        b == (p@ == dotdot()),
{
    let b = p.len() == 2 && p[0] == '.' && p[1] == '.';
    if b {
        assert(p@ =~= dotdot());
    }
    b
}

/// The key of a path (see `path_key`).
pub fn path_key_exec(s: &Vec<char>) -> (res: Vec<char>)
    ensures
        res@ == path_key(s@),
{
    let ps = split_slash_exec(s);
    let mut res: Vec<char> = Vec::new();
    if s.len() > 0 && s[0] == '/' {
        res.push('\u{1}');
        res.push('\u{0}');
    } else if is_dot(&ps[0]) {
        res.push('\u{2}');
        res.push('\u{0}');
    }
    let ghost head = res@;
    assert(head =~= head_key(s@));
    let mut i: usize = 0;
    while i < ps.len()
        invariant
            i <= ps.len(),
            views(ps@) == split_slash(s@),
            head == head_key(s@),
            res@ == head + pieces_key(views(ps@).take(i as int)),
        decreases ps.len() - i,
    {
        assert(views(ps@).take(i + 1).drop_last() == views(ps@).take(i as int));
        assert(views(ps@).take(i + 1).last() == ps@[i as int]@);
        let p = &ps[i];
        if p.len() == 0 || is_dot(p) {
        } else if is_dotdot(p) {
            res.push('\u{3}');
            res.push('\u{0}');
        } else {
            res.push('\u{4}');
            append_chars(&mut res, p);
            res.push('\u{0}');
        }
        i += 1;
        assert(res@ =~= head + pieces_key(views(ps@).take(i as int)));
    }
    assert(views(ps@).take(ps.len() as int) == views(ps@));
    res
}

/// The final component of a path when it is a name.
pub fn file_name_exec(s: &Vec<char>) -> (res: Option<Vec<char>>)
    ensures
        match res {
            Some(n) => file_name(s@) == Some(n@),
            None => file_name(s@) is None,
        },
{
    let mut ps = split_slash_exec(s);
    let ghost all = views(ps@);
    while ps.len() > 0 && (ps[ps.len() - 1].len() == 0 || is_dot(&ps[ps.len() - 1]))
        invariant
            last_piece(all) == last_piece(views(ps@)),
        decreases ps.len(),
    {
        let ghost before = views(ps@);
        ps.pop();
        assert(views(ps@) =~= before.drop_last());
    }
    if ps.len() == 0 {
        None
    } else {
        let last = ps.pop().unwrap();
        if is_dotdot(&last) {
            None
        } else {
            Some(last)
        }
    }
}

/// The extension of a file name.
pub fn extension_exec(name: &Vec<char>) -> (res: Option<Vec<char>>)
    ensures
        match res {
            Some(e) => extension(name@) == Some(e@),
            None => extension(name@) is None,
        },
{
    let mut i: usize = name.len();
    assert(name@.take(name.len() as int) == name@);
    while i > 0 && name[i - 1] != '.'
        invariant
            i <= name.len(),
            last_index_of(name@, '.') == last_index_of(name@.take(i as int), '.'),
        decreases i,
    {
        assert(name@.take(i as int).drop_last() == name@.take(i - 1));
        i -= 1;
    }
    if i > 0 {
        assert(name@.take(i as int).last() == '.');
    }
    assert(name@.take(name.len() as int) == name@);
    if is_dotdot(name) || i <= 1 {
        None
    } else {
        let mut e: Vec<char> = Vec::new();
        let mut k = i;
        while k < name.len()
            invariant
                i <= k <= name.len(),
                e@ == name@.subrange(i as int, k as int),
            decreases name.len() - k,
        {
            e.push(name[k]);
            k += 1;
            assert(e@ == name@.subrange(i as int, k as int));
        }
        assert(e@ =~= name@.skip(i as int));
        Some(e)
    }
}

/// Whether the path names a file with the extension `epub`, in any ASCII case.
pub fn is_epub_chars(s: &Vec<char>) -> (b: bool)
    ensures
        b == is_epub_path(s@),
{
    match file_name_exec(s) {
        Some(n) => match extension_exec(&n) {
            Some(e) => e.len() == 4 && (e[0] == 'e' || e[0] == 'E') && (e[1] == 'p' || e[1]
                == 'P') && (e[2] == 'u' || e[2] == 'U') && (e[3] == 'b' || e[3] == 'B'),
            None => false,
        },
        None => false,
    }
}

fn strip_trailing_pieces_exec(ps: &mut Vec<Vec<char>>)
    ensures
        views(final(ps)@) == strip_trailing_pieces(views(old(ps)@)),
{
    while ps.len() > 1 && (ps[ps.len() - 1].len() == 0 || is_dot(&ps[ps.len() - 1]))
        invariant
            strip_trailing_pieces(views(old(ps)@)) == strip_trailing_pieces(views(ps@)),
        decreases ps.len(),
    {
        let ghost before = views(ps@);
        ps.pop();
        assert(views(ps@) =~= before.drop_last());
    }
}

/// The directory that holds a path (see `parent_dir`).
pub fn parent_dir_exec(s: &Vec<char>) -> (res: Option<Vec<char>>)
    ensures
        match res {
            Some(p) => parent_dir(s@) == Some(p@),
            None => parent_dir(s@) is None,
        },
{
    let mut ps = split_slash_exec(s);
    strip_trailing_pieces_exec(&mut ps);
    if ps.len() <= 1 {
        if ps.len() == 0 || ps[0].len() == 0 {
            return None;
        } else {
            return Some(Vec::new());
        }
    }
    let ghost whole = views(ps@);
    ps.pop();
    assert(views(ps@) =~= whole.drop_last());
    strip_trailing_pieces_exec(&mut ps);
    let sep = vec!['/'];
    assert(sep@ =~= seq!['/']);
    let q = join_words(&ps, &sep);
    if q.len() == 0 {
        let mut r: Vec<char> = Vec::new();
        r.push('/');
        assert(r@ =~= seq!['/']);
        Some(r)
    } else {
        Some(q)
    }
}

/// `name` placed under `base` (see `join_path`).
pub fn join_path_exec(base: &Vec<char>, name: &Vec<char>) -> (res: Vec<char>)
    ensures
        res@ == join_path(base@, name@),
{
    if (name.len() > 0 && name[0] == '/') || base.len() == 0 {
        return name.clone();
    }
    let mut res = base.clone();
    if base[base.len() - 1] != '/' {
        res.push('/');
    }
    append_chars(&mut res, name);
    res
}

/// Whether two paths have the same components (as `Path` equality).
pub fn same_path(a: &str, b: &str) -> (r: bool)
    ensures
        r == (path_key(a@) == path_key(b@)),
{
    let ka = path_key_exec(&crate::text::chars_of(a));
    let kb = path_key_exec(&crate::text::chars_of(b));
    if ka.len() != kb.len() {
        return false;
    }
    let mut i: usize = 0;
    while i < ka.len()
        invariant
            i <= ka.len() == kb.len(),
            ka@ == path_key(a@),
            kb@ == path_key(b@),
            forall|j: int| 0 <= j < i ==> ka@[j] == kb@[j],
        decreases ka.len() - i,
    {
        if ka[i] != kb[i] {
            assert(ka@[i as int] != kb@[i as int]);
            return false;
        }
        i += 1;
    }
    assert(ka@ =~= kb@);
    true
}

} // verus!
