//! Filenames from a pattern with placeholders, and the rename that puts a file under it.

use vstd::prelude::*;
use crate::metadata::EpubMetadata;
use crate::paths::{join_path, join_path_exec, parent_dir, parent_dir_exec};
use crate::text::{
    append_chars, chars_of, ends_with, opt_view, replace_all, replace_chars, starts_with, starts_with_at,
    string_of, trim, trim_chars, trim_end, trim_start,
};

verus! {

/// A planned rename: the file at `from` is to be moved to `to`.
pub struct RenameAction {
    pub from: String,
    pub to: String,
}

/// How placeholder values and spaces are written into a filename.
pub struct RenameOptions {
    /// Every space is written as this character instead.
    pub space_char: Option<char>,
    /// The author is written without the comma after the last name ("Smith Jane").
    pub no_comma: bool,
}

impl Default for RenameOptions {
    fn default() -> (res: Self)
        ensures
            res.space_char is None,
            !res.no_comma,
    {
        RenameOptions { space_char: None, no_comma: false }
    }
}

/// The characters that cannot stand in a filename.
pub open spec fn forbidden(c: char) -> bool {
    c == '/' || c == '\\' || c == ':' || c == '*' || c == '?' || c == '"' || c == '<' || c
        == '>' || c == '|'
}

/// How one character is written into a filename: a forbidden character as `_`, a space as the
/// chosen space character when there is one, anything else as itself.
pub open spec fn out_char(c: char, sc: Option<char>) -> char {
    if forbidden(c) {
        '_'
    } else if c == ' ' && sc is Some {
        sc->0
    } else {
        c
    }
}

/// A piece of text as written into a filename, character by character.
pub open spec fn out_text(s: Seq<char>, sc: Option<char>) -> Seq<char> {
    s.map_values(|c: char| out_char(c, sc))
}

/// The placeholders, in the order in which they are tried.
pub open spec fn placeholder(k: int) -> Seq<char> {
    if k == 0 {
        seq!['{', 'a', 'u', 't', 'h', 'o', 'r', '}']
    } else if k == 1 {
        seq!['{', 't', 'i', 't', 'l', 'e', '}']
    } else if k == 2 {
        seq!['{', 'p', 'u', 'b', 'l', 'i', 's', 'h', 'e', 'r', '}']
    } else if k == 3 {
        seq!['{', 'd', 'a', 't', 'e', '}']
    } else if k == 4 {
        seq!['{', 'y', 'e', 'a', 'r', '}']
    } else if k == 5 {
        seq!['{', 'i', 's', 'b', 'n', '}']
    } else {
        seq!['{', 'l', 'a', 'n', 'g', 'u', 'a', 'g', 'e', '}']
    }
}

/// The first placeholder among `k..7` that `p` begins with.
pub open spec fn first_placeholder(p: Seq<char>, k: int) -> Option<int>
    decreases 7 - k,
{
    if k >= 7 || k < 0 {
        None
    } else if starts_with(p, placeholder(k)) {
        Some(k)
    } else {
        first_placeholder(p, k + 1)
    }
}

/// The text that placeholder `k` stands for, when the metadata has it. The author loses the
/// comma after the last name when `no_comma` is set.
pub open spec fn field_value(md: EpubMetadata, k: int, no_comma: bool) -> Option<Seq<char>> {
    let f = if k == 0 {
        md.author
    } else if k == 1 {
        md.title
    } else if k == 2 {
        md.publisher
    } else if k == 3 {
        md.date
    } else if k == 4 {
        md.year
    } else if k == 5 {
        md.isbn
    } else {
        md.language
    };
    match f {
        Some(v) => if k == 0 && no_comma {
            Some(replace_all(v@, seq![',', ' '], seq![' ']))
        } else {
            Some(v@)
        },
        None => None,
    }
}

/// A placeholder found at the start of `p` is one of the seven and is at least six characters long.
pub proof fn lemma_first_placeholder(p: Seq<char>, k: int)
    ensures
        first_placeholder(p, k) matches Some(j) ==> 0 <= j < 7 && starts_with(p, placeholder(j))
            && placeholder(j).len() >= 6,
    decreases 7 - k,
{
    if 0 <= k < 7 && !starts_with(p, placeholder(k)) {
        lemma_first_placeholder(p, k + 1);
    }
}

/// The pattern with each placeholder replaced by the value it stands for (nothing where the
/// metadata lacks it) and each other character written as `out_char` writes it.
pub open spec fn render(p: Seq<char>, md: EpubMetadata, opts: RenameOptions) -> Seq<char>
    decreases p.len(),
{
    if p.len() == 0 {
        seq![]
    } else {
        match first_placeholder(p, 0) {
            Some(k) => {
                proof {
                    lemma_first_placeholder(p, 0);
                }
                let v = match field_value(md, k, opts.no_comma) {
                    Some(v) => out_text(v, opts.space_char),
                    None => seq![],
                };
                v + render(p.skip(placeholder(k).len() as int), md, opts)
            },
            None => seq![out_char(p[0], opts.space_char)] + render(p.drop_first(), md, opts),
        }
    }
}

/// `s` with every run of two or more spaces written as one space.
pub open spec fn collapse_spaces(s: Seq<char>) -> Seq<char>
    decreases s.len(),
{
    if s.len() == 0 {
        s
    } else {
        let t = collapse_spaces(s.drop_last());
        if s.last() == ' ' && t.len() > 0 && t.last() == ' ' {
            t
        } else {
            t.push(s.last())
        }
    }
}

pub open spec fn is_dash_or_space(c: char) -> bool {
    c == '-' || c == ' '
}

/// `s` without leading dashes and spaces.
pub open spec fn trim_dash_start(s: Seq<char>) -> Seq<char>
    decreases s.len(),
{
    if s.len() > 0 && is_dash_or_space(s[0]) {
        trim_dash_start(s.drop_first())
    } else {
        s
    }
}

/// `s` without trailing dashes and spaces.
pub open spec fn trim_dash_end(s: Seq<char>) -> Seq<char>
    decreases s.len(),
{
    if s.len() > 0 && is_dash_or_space(s.last()) {
        trim_dash_end(s.drop_last())
    } else {
        s
    }
}

/// The tidying of a rendered name: runs of spaces collapsed, white space trimmed, dashes and
/// spaces stripped from both ends (the separators that a missing value leaves behind),
/// " - - " written as " - ", double spaces as one, and white space trimmed again.
pub open spec fn cleanup(s: Seq<char>) -> Seq<char> {
    let a = trim(collapse_spaces(s));
    let b = trim_dash_end(trim_dash_start(a));
    let c = replace_all(b, seq![' ', '-', ' ', '-', ' '], seq![' ', '-', ' ']);
    trim(replace_all(c, seq![' ', ' '], seq![' ']))
}

/// The extension that every generated filename ends with.
pub open spec fn epub_ext() -> Seq<char> {
    seq!['.', 'e', 'p', 'u', 'b']
}

/// The filename for a file with metadata `md` under `pattern`.
pub open spec fn filename_for(md: EpubMetadata, pattern: Seq<char>, opts: RenameOptions) -> Seq<
    char,
> {
    cleanup(render(pattern, md, opts)) + epub_ext()
}

fn out_char_exec(c: char, sc: Option<char>) -> (r: char)
    ensures
        r == out_char(c, sc),
{
    if c == '/' || c == '\\' || c == ':' || c == '*' || c == '?' || c == '"' || c == '<' || c
        == '>' || c == '|' {
        '_'
    } else if c == ' ' && sc.is_some() {
        sc.unwrap()
    } else {
        c
    }
}

/// A placeholder value written as it goes into a filename: forbidden characters as `_`, spaces
/// as the chosen space character.
pub fn apply_space_char(value: &Vec<char>, space_char: Option<char>) -> (res: Vec<char>)
    ensures
        res@ == out_text(value@, space_char),
{
    let mut res: Vec<char> = Vec::new();
    let mut i: usize = 0;
    while i < value.len()
        invariant
            i <= value.len(),
            res@ == out_text(value@.take(i as int), space_char),
        decreases value.len() - i,
    {
        res.push(out_char_exec(value[i], space_char));
        i += 1;
        assert(res@ =~= out_text(value@.take(i as int), space_char));
    }
    assert(value@.take(value.len() as int) == value@);
    res
}

fn placeholder_exec(k: usize) -> (res: Vec<char>)
    requires
        k < 7,
    ensures
        res@ == placeholder(k as int),
{
    let v = if k == 0 {
        vec!['{', 'a', 'u', 't', 'h', 'o', 'r', '}']
    } else if k == 1 {
        vec!['{', 't', 'i', 't', 'l', 'e', '}']
    } else if k == 2 {
        vec!['{', 'p', 'u', 'b', 'l', 'i', 's', 'h', 'e', 'r', '}']
    } else if k == 3 {
        vec!['{', 'd', 'a', 't', 'e', '}']
    } else if k == 4 {
        vec!['{', 'y', 'e', 'a', 'r', '}']
    } else if k == 5 {
        vec!['{', 'i', 's', 'b', 'n', '}']
    } else {
        vec!['{', 'l', 'a', 'n', 'g', 'u', 'a', 'g', 'e', '}']
    };
    assert(v@ =~= placeholder(k as int));
    v
}

/// The placeholder that the pattern holds at position `i`, if any, and its length.
fn try_match_placeholder(p: &Vec<char>, i: usize) -> (res: Option<(usize, usize)>)
    requires
        i <= p.len(),
    ensures
        match res {
            Some((k, len)) => first_placeholder(p@.skip(i as int), 0) == Some(k as int) && len
                == placeholder(k as int).len(),
            None => first_placeholder(p@.skip(i as int), 0) is None,
        },
{
    let mut k: usize = 0;
    while k < 7
        invariant
            k <= 7,
            i <= p.len(),
            first_placeholder(p@.skip(i as int), 0) == first_placeholder(
                p@.skip(i as int),
                k as int,
            ),
        decreases 7 - k,
    {
        let ph = placeholder_exec(k);
        if starts_with_at(p, i, &ph) {
            return Some((k, ph.len()));
        }
        k += 1;
    }
    None
}

fn field_value_exec(md: &EpubMetadata, k: usize, no_comma: bool) -> (res: Option<Vec<char>>)
    requires
        k < 7,
    ensures
        match res {
            Some(v) => field_value(*md, k as int, no_comma) == Some(v@),
            None => field_value(*md, k as int, no_comma) is None,
        },
{
    let f = if k == 0 {
        &md.author
    } else if k == 1 {
        &md.title
    } else if k == 2 {
        &md.publisher
    } else if k == 3 {
        &md.date
    } else if k == 4 {
        &md.year
    } else if k == 5 {
        &md.isbn
    } else {
        &md.language
    };
    match f {
        Some(v) => {
            let cs = chars_of(v.as_str());
            if k == 0 && no_comma {
                let pat = vec![',', ' '];
                let rep = vec![' '];
                let r = replace_chars(&cs, &pat, &rep);
                assert(pat@ =~= seq![',', ' ']);
                assert(rep@ =~= seq![' ']);
                Some(r)
            } else {
                Some(cs)
            }
        },
        None => None,
    }
}

fn render_exec(md: &EpubMetadata, p: &Vec<char>, opts: &RenameOptions) -> (res: Vec<char>)
    ensures
        res@ == render(p@, *md, *opts),
{
    let mut res: Vec<char> = Vec::new();
    let mut i: usize = 0;
    assert(p@.skip(0) == p@);
    while i < p.len()
        invariant
            i <= p.len(),
            render(p@, *md, *opts) == res@ + render(p@.skip(i as int), *md, *opts),
        decreases p.len() - i,
    {
        let ghost rest = p@.skip(i as int);
        match try_match_placeholder(p, i) {
            Some((k, len)) => {
                proof {
                    lemma_first_placeholder(rest, 0);
                }
                match field_value_exec(md, k, opts.no_comma) {
                    Some(v) => {
                        let w = apply_space_char(&v, opts.space_char);
                        append_chars(&mut res, &w);
                    },
                    None => {},
                }
                assert(rest.skip(len as int) == p@.skip(i + len));
                i += len;
            },
            None => {
                res.push(out_char_exec(p[i], opts.space_char));
                assert(rest.drop_first() == p@.skip(i + 1));
                assert(rest[0] == p@[i as int]);
                i += 1;
            },
        }
    }
    assert(p@.skip(p.len() as int).len() == 0);
    res
}

fn collapse_spaces_exec(s: &Vec<char>) -> (res: Vec<char>)
    ensures
        res@ == collapse_spaces(s@),
{
    let mut res: Vec<char> = Vec::new();
    let mut i: usize = 0;
    while i < s.len()
        invariant
            i <= s.len(),
            res@ == collapse_spaces(s@.take(i as int)),
        decreases s.len() - i,
    {
        assert(s@.take(i + 1).drop_last() == s@.take(i as int));
        let c = s[i];
        if c == ' ' && res.len() > 0 && res[res.len() - 1] == ' ' {
        } else {
            res.push(c);
        }
        i += 1;
    }
    assert(s@.take(s.len() as int) == s@);
    res
}

fn trim_dash_exec(s: &Vec<char>) -> (res: Vec<char>)
    ensures
        res@ == trim_dash_end(trim_dash_start(s@)),
{
    let mut lo: usize = 0;
    assert(s@.skip(0) == s@);
    while lo < s.len() && (s[lo] == '-' || s[lo] == ' ')
        invariant
            lo <= s.len(),
            trim_dash_start(s@) == trim_dash_start(s@.skip(lo as int)),
        decreases s.len() - lo,
    {
        assert(s@.skip(lo as int).drop_first() == s@.skip(lo + 1));
        lo += 1;
    }
    let ghost mid = s@.skip(lo as int);
    let mut hi: usize = s.len();
    assert(s@.subrange(lo as int, hi as int) == mid);
    while hi > lo && (s[hi - 1] == '-' || s[hi - 1] == ' ')
        invariant
            lo <= hi <= s.len(),
            trim_dash_end(mid) == trim_dash_end(s@.subrange(lo as int, hi as int)),
        decreases hi,
    {
        assert(s@.subrange(lo as int, hi as int).drop_last() == s@.subrange(lo as int, hi - 1));
        hi -= 1;
    }
    let mut res: Vec<char> = Vec::new();
    let mut k: usize = lo;
    while k < hi
        invariant
            lo <= k <= hi <= s.len(),
            res@ == s@.subrange(lo as int, k as int),
        decreases hi - k,
    {
        res.push(s[k]);
        k += 1;
        assert(res@ == s@.subrange(lo as int, k as int));
    }
    res
}

/// Tidies a rendered filename (see `cleanup`).
pub fn cleanup_filename(s: &Vec<char>) -> (res: Vec<char>)
    ensures
        res@ == cleanup(s@),
{
    let a = collapse_spaces_exec(s);
    let a = trim_chars(&a);
    let b = trim_dash_exec(&a);
    let pat1 = vec![' ', '-', ' ', '-', ' '];
    let rep1 = vec![' ', '-', ' '];
    assert(pat1@ =~= seq![' ', '-', ' ', '-', ' ']);
    assert(rep1@ =~= seq![' ', '-', ' ']);
    let c = replace_chars(&b, &pat1, &rep1);
    let pat2 = vec![' ', ' '];
    let rep2 = vec![' '];
    assert(pat2@ =~= seq![' ', ' ']);
    assert(rep2@ =~= seq![' ']);
    let d = replace_chars(&c, &pat2, &rep2);
    trim_chars(&d)
}

/// The filename for a file with the given metadata under `pattern`: each placeholder
/// (`{author}`, `{title}`, `{publisher}`, `{date}`, `{year}`, `{isbn}`, `{language}`) replaced by
/// its value or by nothing, the result tidied, and `.epub` appended.
pub fn generate_filename(metadata: &EpubMetadata, pattern: &str, opts: &RenameOptions) -> (res:
    String)
    ensures
        res@ == filename_for(*metadata, pattern@, *opts),
{
    let p = chars_of(pattern);
    let r = render_exec(metadata, &p, opts);
    let mut c = cleanup_filename(&r);
    let ext = vec!['.', 'e', 'p', 'u', 'b'];
    assert(ext@ =~= epub_ext());
    append_chars(&mut c, &ext);
    string_of(&c)
}

/// Where a file at `from` goes when it is renamed to `name`: beside itself, in the directory
/// that holds it.
pub open spec fn rename_target(from: Seq<char>, name: Seq<char>) -> Seq<char> {
    match parent_dir(from) {
        Some(dir) => join_path(dir, name),
        None => name,
    }
}

/// The rename that gives a file the name that `pattern` makes of its metadata, in the same
/// directory.
pub fn create_rename_action(metadata: &EpubMetadata, pattern: &str, opts: &RenameOptions) -> (res:
    RenameAction)
    ensures
        res.from@ == metadata.source_path@,
        res.to@ == rename_target(metadata.source_path@, filename_for(*metadata, pattern@, *opts)),
{
    let new_filename = generate_filename(metadata, pattern, opts);
    let name = chars_of(new_filename.as_str());
    let from = chars_of(metadata.source_path.as_str());
    let to = match parent_dir_exec(&from) {
        Some(dir) => join_path_exec(&dir, &name),
        None => name,
    };
    RenameAction { from: string_of(&from), to: string_of(&to) }
}

/// No character of `s` is forbidden in a filename.
pub open spec fn no_forbidden(s: Seq<char>) -> bool {
    forall|i: int| 0 <= i < s.len() ==> !forbidden(#[trigger] s[i])
}

proof fn lemma_concat_clean(a: Seq<char>, b: Seq<char>)
    requires
        no_forbidden(a),
        no_forbidden(b),
    ensures
        no_forbidden(a + b),
{
    assert forall|i: int| 0 <= i < (a + b).len() implies !forbidden(#[trigger] (a + b)[i]) by {
        if i < a.len() {
            assert((a + b)[i] == a[i]);
        } else {
            assert((a + b)[i] == b[i - a.len()]);
        }
    }
}

proof fn lemma_render_clean(p: Seq<char>, md: EpubMetadata, opts: RenameOptions)
    requires
        !(opts.space_char matches Some(c) && forbidden(c)),
    ensures
        no_forbidden(render(p, md, opts)),
    decreases p.len(),
{
    if p.len() > 0 {
        lemma_first_placeholder(p, 0);
        match first_placeholder(p, 0) {
            Some(k) => {
                let v = match field_value(md, k, opts.no_comma) {
                    Some(v) => out_text(v, opts.space_char),
                    None => seq![],
                };
                assert forall|i: int| 0 <= i < v.len() implies !forbidden(#[trigger] v[i]) by {}
                lemma_render_clean(p.skip(placeholder(k).len() as int), md, opts);
                lemma_concat_clean(v, render(p.skip(placeholder(k).len() as int), md, opts));
            },
            None => {
                lemma_render_clean(p.drop_first(), md, opts);
                lemma_concat_clean(
                    seq![out_char(p[0], opts.space_char)],
                    render(p.drop_first(), md, opts),
                );
            },
        }
    }
}

proof fn lemma_collapse_clean(s: Seq<char>)
    requires
        no_forbidden(s),
    ensures
        no_forbidden(collapse_spaces(s)),
    decreases s.len(),
{
    if s.len() > 0 {
        assert(no_forbidden(s.drop_last()));
        lemma_collapse_clean(s.drop_last());
        assert(!forbidden(s[s.len() - 1]));
        lemma_concat_clean(collapse_spaces(s.drop_last()), seq![s.last()]);
        assert(collapse_spaces(s.drop_last()).push(s.last()) == collapse_spaces(s.drop_last())
            + seq![s.last()]);
    }
}

proof fn lemma_trim_clean(s: Seq<char>)
    requires
        no_forbidden(s),
    ensures
        no_forbidden(trim_start(s)),
        no_forbidden(trim_end(s)),
        no_forbidden(trim_dash_start(s)),
        no_forbidden(trim_dash_end(s)),
    decreases s.len(),
{
    if s.len() > 0 {
        assert(no_forbidden(s.drop_first()));
        assert(no_forbidden(s.drop_last()));
        lemma_trim_clean(s.drop_first());
        lemma_trim_clean(s.drop_last());
    }
}

proof fn lemma_replace_clean(s: Seq<char>, pat: Seq<char>, rep: Seq<char>)
    requires
        no_forbidden(s),
        no_forbidden(rep),
    ensures
        no_forbidden(replace_all(s, pat, rep)),
    decreases s.len(),
{
    if pat.len() > 0 && s.len() > 0 {
        if starts_with(s, pat) {
            assert(no_forbidden(s.skip(pat.len() as int)));
            lemma_replace_clean(s.skip(pat.len() as int), pat, rep);
            lemma_concat_clean(rep, replace_all(s.skip(pat.len() as int), pat, rep));
        } else {
            assert(no_forbidden(s.drop_first()));
            assert(!forbidden(s[0]));
            lemma_replace_clean(s.drop_first(), pat, rep);
            lemma_concat_clean(seq![s[0]], replace_all(s.drop_first(), pat, rep));
        }
    }
}

/// A generated filename always ends with `.epub`, and holds none of the characters
/// `/ \ : * ? " < > |` unless the chosen space character is one of them.
pub proof fn lemma_filename_is_clean(md: EpubMetadata, pattern: Seq<char>, opts: RenameOptions)
    ensures
        ends_with(filename_for(md, pattern, opts), epub_ext()),
        !(opts.space_char matches Some(c) && forbidden(c)) ==> no_forbidden(
            filename_for(md, pattern, opts),
        ),
{
    let r = render(pattern, md, opts);
    let f = filename_for(md, pattern, opts);
    assert(f.skip(f.len() - 5) =~= epub_ext());
    if !(opts.space_char matches Some(c) && forbidden(c)) {
        lemma_render_clean(pattern, md, opts);
        lemma_collapse_clean(r);
        let a0 = collapse_spaces(r);
        lemma_trim_clean(a0);
        lemma_trim_clean(trim_start(a0));
        let a = trim(a0);
        lemma_trim_clean(a);
        lemma_trim_clean(trim_dash_start(a));
        let b = trim_dash_end(trim_dash_start(a));
        lemma_replace_clean(b, seq![' ', '-', ' ', '-', ' '], seq![' ', '-', ' ']);
        let c = replace_all(b, seq![' ', '-', ' ', '-', ' '], seq![' ', '-', ' ']);
        lemma_replace_clean(c, seq![' ', ' '], seq![' ']);
        let d = replace_all(c, seq![' ', ' '], seq![' ']);
        lemma_trim_clean(d);
        lemma_trim_clean(trim_start(d));
        lemma_concat_clean(cleanup(r), epub_ext());
    }
}

proof fn lemma_first_placeholder_is(p: Seq<char>, j: int, k: int)
    requires
        0 <= j <= k < 7,
        starts_with(p, placeholder(k)),
        forall|i: int| 0 <= i < k ==> !starts_with(p, #[trigger] placeholder(i)),
    ensures
        first_placeholder(p, j) == Some(k),
    decreases k - j,
{
    if j < k {
        assert(!starts_with(p, placeholder(j)));
        lemma_first_placeholder_is(p, j + 1, k);
    }
}

/// A placeholder whose value the metadata lacks is left out of the name: nothing stands in
/// its place.
pub proof fn lemma_missing_value_omitted(
    k: int,
    rest: Seq<char>,
    md: EpubMetadata,
    opts: RenameOptions,
)
    requires
        0 <= k < 7,
        field_value(md, k, opts.no_comma) is None,
    ensures
        render(placeholder(k) + rest, md, opts) == render(rest, md, opts),
{
    let p = placeholder(k) + rest;
    assert(p.take(placeholder(k).len() as int) =~= placeholder(k));
    assert forall|j: int| 0 <= j < k implies !starts_with(p, #[trigger] placeholder(j)) by {
        assert(p[1] == placeholder(k)[1]);
        if starts_with(p, placeholder(j)) {
            assert(p.take(placeholder(j).len() as int)[1] == placeholder(j)[1]);
        }
    }
    lemma_first_placeholder_is(p, 0, k);
    assert(p.skip(placeholder(k).len() as int) =~= rest);
}

/// Each placeholder stands for its own field of the metadata, exactly as the metadata holds it;
/// `no_comma` touches the author alone, in which each ", " is written as " ". The title,
/// publisher, date, year, ISBN and language keep their commas either way.
pub proof fn lemma_placeholder_values(md: EpubMetadata, no_comma: bool)
    ensures
        field_value(md, 1, no_comma) == opt_view(md.title),
        field_value(md, 2, no_comma) == opt_view(md.publisher),
        field_value(md, 3, no_comma) == opt_view(md.date),
        field_value(md, 4, no_comma) == opt_view(md.year),
        field_value(md, 5, no_comma) == opt_view(md.isbn),
        field_value(md, 6, no_comma) == opt_view(md.language),
        field_value(md, 0, false) == opt_view(md.author),
        field_value(md, 0, true) == match md.author {
            Some(a) => Some(replace_all(a@, seq![',', ' '], seq![' '])),
            None => None,
        },
        forall|k: int| 1 <= k < 7 ==> field_value(md, k, true) == field_value(md, k, false),
{
}

proof fn lemma_render_same_values(
    p: Seq<char>,
    md1: EpubMetadata,
    o1: RenameOptions,
    md2: EpubMetadata,
    o2: RenameOptions,
)
    requires
        o1.space_char == o2.space_char,
        forall|k: int| 0 <= k < 7 ==> field_value(md1, k, o1.no_comma) == field_value(md2, k, o2.no_comma),
    ensures
        render(p, md1, o1) == render(p, md2, o2),
    decreases p.len(),
{
    if p.len() > 0 {
        lemma_first_placeholder(p, 0);
        match first_placeholder(p, 0) {
            Some(k) => {
                lemma_render_same_values(p.skip(placeholder(k).len() as int), md1, o1, md2, o2);
            },
            None => {
                lemma_render_same_values(p.drop_first(), md1, o1, md2, o2);
            },
        }
    }
}

/// Writing the author without commas changes nothing but the author: the name made with
/// `no_comma` is the name made without it from the same metadata whose author has each ", "
/// written as " ". Every other placeholder's value, commas included, is the same.
pub proof fn lemma_no_comma_touches_only_author(
    md1: EpubMetadata,
    md2: EpubMetadata,
    pattern: Seq<char>,
    space_char: Option<char>,
)
    requires
        opt_view(md2.title) == opt_view(md1.title),
        opt_view(md2.publisher) == opt_view(md1.publisher),
        opt_view(md2.date) == opt_view(md1.date),
        opt_view(md2.year) == opt_view(md1.year),
        opt_view(md2.isbn) == opt_view(md1.isbn),
        opt_view(md2.language) == opt_view(md1.language),
        opt_view(md2.author) == match md1.author {
            Some(a) => Some(replace_all(a@, seq![',', ' '], seq![' '])),
            None => None,
        },
    ensures
        filename_for(md1, pattern, (RenameOptions { space_char: space_char, no_comma: true }))
            == filename_for(md2, pattern, (RenameOptions { space_char: space_char, no_comma: false })),
{
    let o1 = RenameOptions { space_char: space_char, no_comma: true };
    let o2 = RenameOptions { space_char: space_char, no_comma: false };
    lemma_placeholder_values(md1, true);
    lemma_placeholder_values(md2, false);
    assert forall|k: int| 0 <= k < 7 implies field_value(md1, k, o1.no_comma) == field_value(
        md2,
        k,
        o2.no_comma,
    ) by {
        if k == 0 {
        } else if k == 1 {
        } else if k == 2 {
        } else if k == 3 {
        } else if k == 4 {
        } else if k == 5 {
        } else {
        }
    }
    lemma_render_same_values(pattern, md1, o1, md2, o2);
}

} // verus!
