//! Writing canonical metadata into a book with Calibre's `ebook-meta`: the configuration of the
//! tool and the command line that writes a record. The application runs the command.

use vstd::prelude::*;
use crate::error::EruError;
use crate::provider::BookRecord;
use crate::text::{
    append_chars, char_vecs, chars_of, join, join_words, opt_view, split_words, starts_with,
    string_of, string_views, strings_of, words,
};

verus! {

/// How `ebook-meta` is invoked.
pub struct WriteConfig {
    /// The `ebook-meta` invocation split into words: the program and its leading arguments.
    pub ebook_meta_cmd: Vec<String>,
    /// A (host prefix, container prefix) pair that translates file paths for a tool that runs
    /// in a container.
    pub path_map: Option<(String, String)>,
}

/// The index of the first occurrence of `c` in `s`, or -1.
pub open spec fn first_index_of(s: Seq<char>, c: char) -> int
    decreases s.len(),
{
    if s.len() == 0 {
        -1
    } else if s[0] == c {
        0
    } else if first_index_of(s.drop_first(), c) < 0 {
        -1
    } else {
        first_index_of(s.drop_first(), c) + 1
    }
}

/// A "host:container" map split at its first colon (as `str::split_once(':')`).
pub open spec fn split_map(m: Seq<char>) -> Option<(Seq<char>, Seq<char>)> {
    let i = first_index_of(m, ':');
    if i < 0 {
        None
    } else {
        Some((m.take(i), m.skip(i + 1)))
    }
}

/// The characters of an optional pair of strings.
pub open spec fn pair_view(p: Option<(String, String)>) -> Option<(Seq<char>, Seq<char>)> {
    match p {
        Some((a, b)) => Some((a@, b@)),
        None => None,
    }
}

proof fn lemma_first_index_of(s: Seq<char>, c: char)
    ensures
        -1 <= first_index_of(s, c) < s.len(),
        first_index_of(s, c) >= 0 ==> s[first_index_of(s, c)] == c,
        forall|j: int| 0 <= j < first_index_of(s, c) ==> s[j] != c,
        first_index_of(s, c) < 0 ==> !s.contains(c),
    decreases s.len(),
{
    if s.len() > 0 && s[0] != c {
        lemma_first_index_of(s.drop_first(), c);
        if first_index_of(s, c) < 0 {
            assert forall|j: int| 0 <= j < s.len() implies s[j] != c by {
                if j > 0 {
                    assert(s[j] == s.drop_first()[j - 1]);
                }
            }
        } else {
            assert forall|j: int| 0 <= j < first_index_of(s, c) implies s[j] != c by {
                if j > 0 {
                    assert(s[j] == s.drop_first()[j - 1]);
                }
            }
        }
    }
}

fn first_index_exec(s: &Vec<char>, c: char) -> (res: Option<usize>)
    ensures
        match res {
            Some(i) => first_index_of(s@, c) == i as int && i < s.len(),
            None => first_index_of(s@, c) < 0,
        },
{
    let mut i: usize = 0;
    assert(s@.skip(0) == s@);
    while i < s.len()
        invariant
            i <= s.len(),
            forall|j: int| 0 <= j < i ==> s@[j] != c,
            first_index_of(s@, c) == if first_index_of(s@.skip(i as int), c) < 0 {
                -1
            } else {
                first_index_of(s@.skip(i as int), c) + i
            },
        decreases s.len() - i,
    {
        if s[i] == c {
            assert(s@.skip(i as int)[0] == c);
            return Some(i);
        }
        assert(s@.skip(i as int).drop_first() == s@.skip(i + 1));
        i += 1;
    }
    None
}

fn take_chars(s: &Vec<char>, lo: usize, hi: usize) -> (res: Vec<char>)
    requires
        lo <= hi <= s.len(),
    ensures
        res@ == s@.subrange(lo as int, hi as int),
{
    let mut res: Vec<char> = Vec::new();
    let mut k = lo;
    while k < hi
        invariant
            lo <= k <= hi <= s.len(),
            res@ == s@.subrange(lo as int, k as int),
        decreases hi - k,
    {
        res.push(s[k]);
        k += 1;
        assert(res@ == s@.subrange(lo as int, k as int));
    }
    res
}

impl WriteConfig {
    /// The configuration from a space-separated command and an optional "host:container" path
    /// map (split at its first colon; a map without a colon is ignored).
    pub fn new(cmd: &str, path_map: Option<&str>) -> (res: Self)
        ensures
            string_views(res.ebook_meta_cmd@) == words(cmd@),
            pair_view(res.path_map) == match path_map {
                Some(m) => split_map(m@),
                None => None,
            },
    {
        let cs = chars_of(cmd);
        let ws = split_words(&cs);
        let ebook_meta_cmd = strings_of(&ws);
        let path_map = match path_map {
            Some(m) => {
                let mc = chars_of(m);
                match first_index_exec(&mc, ':') {
                    Some(i) => {
                        let h = take_chars(&mc, 0, i);
                        let c = take_chars(&mc, i + 1, mc.len());
                        assert(c@ =~= mc@.skip(i + 1));
                        Some((string_of(&h), string_of(&c)))
                    },
                    None => None,
                }
            },
            None => None,
        };
        WriteConfig { ebook_meta_cmd, path_map }
    }
}

/// The host part of a parsed path map holds no colon, and host, colon and container give the
/// map back.
pub proof fn lemma_split_map_roundtrip(m: Seq<char>)
    ensures
        split_map(m) matches Some((h, c)) ==> !h.contains(':') && h + seq![':'] + c == m,
        split_map(m) is None ==> !m.contains(':'),
{
    lemma_first_index_of(m, ':');
    let i = first_index_of(m, ':');
    if i >= 0 {
        let h = m.take(i);
        assert forall|j: int| 0 <= j < h.len() implies h[j] != ':' by {}
        assert(h + seq![':'] + m.skip(i + 1) =~= m);
    }
}

/// A file path as the tool sees it: a path that begins with the host prefix has it replaced by
/// the container prefix; any other path is unchanged.
pub open spec fn mapped_path(p: Seq<char>, map: Option<(Seq<char>, Seq<char>)>) -> Seq<char> {
    match map {
        Some((host, container)) => if starts_with(p, host) {
            container + p.skip(host.len() as int)
        } else {
            p
        },
        None => p,
    }
}

/// Translates a file path for a tool that runs in a container.
pub fn map_path(path: &str, map: &Option<(String, String)>) -> (res: String)
    ensures
        res@ == mapped_path(path@, pair_view(*map)),
{
    let p = chars_of(path);
    match map {
        Some((host, container)) => {
            let h = chars_of(host.as_str());
            if crate::text::starts_with_at(&p, 0, &h) {
                assert(p@.skip(0) == p@);
                let mut out = chars_of(container.as_str());
                let rest = take_chars(&p, h.len(), p.len());
                assert(rest@ =~= p@.skip(h.len() as int));
                append_chars(&mut out, &rest);
                string_of(&out)
            } else {
                assert(p@.skip(0) == p@);
                string_of(&p)
            }
        },
        None => string_of(&p),
    }
}

/// A flag with its value, when there is a value.
pub open spec fn opt_arg(flag: Seq<char>, v: Option<String>) -> Seq<Seq<char>> {
    match v {
        Some(x) => seq![flag, x@],
        None => seq![],
    }
}

/// A flag with the items joined by `sep`, when there are items.
pub open spec fn list_arg(flag: Seq<char>, items: Seq<String>, sep: Seq<char>) -> Seq<Seq<char>> {
    if items.len() > 0 {
        seq![flag, join(string_views(items), sep)]
    } else {
        seq![]
    }
}

/// The command line that writes `rec` into the file at `target`: the configured invocation,
/// the target, then each field the record has, the authors joined by " & " and the subjects
/// (as tags) by ", ".
pub open spec fn ebook_meta_command(cmd: Seq<Seq<char>>, target: Seq<char>, rec: BookRecord) -> Seq<
    Seq<char>,
> {
    cmd + seq![target] + opt_arg("--title"@, rec.title) + list_arg(
        "--authors"@,
        rec.authors@,
        " & "@,
    ) + opt_arg("--publisher"@, rec.publisher) + opt_arg("--date"@, rec.date) + opt_arg(
        "--isbn"@,
        rec.isbn,
    ) + opt_arg("--language"@, rec.language) + list_arg("--tags"@, rec.subjects@, ", "@)
}

fn push_opt_arg(args: &mut Vec<String>, flag: &str, v: &Option<String>)
    ensures
        string_views(final(args)@) == string_views(old(args)@) + opt_arg(flag@, *v),
{
    match v {
        Some(x) => {
            args.push(string_of(&chars_of(flag)));
            args.push(string_of(&chars_of(x.as_str())));
            assert(string_views(args@) =~= string_views(old(args)@) + seq![flag@, x@]);
        },
        None => {
            assert(string_views(args@) =~= string_views(old(args)@) + seq![]);
        },
    }
}

fn push_list_arg(args: &mut Vec<String>, flag: &str, items: &Vec<String>, sep: &str)
    ensures
        string_views(final(args)@) == string_views(old(args)@) + list_arg(flag@, items@, sep@),
{
    if items.len() > 0 {
        let parts = char_vecs(items);
        let joined = join_words(&parts, &chars_of(sep));
        args.push(string_of(&chars_of(flag)));
        args.push(string_of(&joined));
        assert(string_views(args@) =~= string_views(old(args)@) + seq![
            flag@,
            join(string_views(items@), sep@),
        ]);
    } else {
        assert(string_views(args@) =~= string_views(old(args)@) + seq![]);
    }
}

/// The program and arguments that write `rec` into the file at `path` (translated by the
/// configured path map); an error when the configured command is empty.
pub fn ebook_meta_argv(path: &str, rec: &BookRecord, cfg: &WriteConfig) -> (res: Result<
    Vec<String>,
    EruError,
>)
    ensures
        cfg.ebook_meta_cmd.len() == 0 <==> res is Err,
        res matches Err(e) ==> (e matches EruError::ExternalTool(m) && m@
            == "empty ebook-meta command"@),
        res matches Ok(v) ==> string_views(v@) == ebook_meta_command(
            string_views(cfg.ebook_meta_cmd@),
            mapped_path(path@, pair_view(cfg.path_map)),
            *rec,
        ),
{
    if cfg.ebook_meta_cmd.len() == 0 {
        return Err(EruError::ExternalTool(string_of(&chars_of("empty ebook-meta command"))));
    }
    let target = map_path(path, &cfg.path_map);
    let mut args: Vec<String> = Vec::new();
    let mut i: usize = 0;
    while i < cfg.ebook_meta_cmd.len()
        invariant
            i <= cfg.ebook_meta_cmd.len(),
            args.len() == i,
            string_views(args@) == string_views(cfg.ebook_meta_cmd@).take(i as int),
        decreases cfg.ebook_meta_cmd.len() - i,
    {
        let a = string_of(&chars_of(cfg.ebook_meta_cmd[i].as_str()));
        args.push(a);
        assert(string_views(args@)[i as int] == string_views(cfg.ebook_meta_cmd@)[i as int]);
        i += 1;
        assert(string_views(args@) =~= string_views(cfg.ebook_meta_cmd@).take(i as int));
    }
    assert(string_views(cfg.ebook_meta_cmd@).take(i as int) == string_views(cfg.ebook_meta_cmd@));
    let ghost before = string_views(args@);
    args.push(target);
    assert(string_views(args@) =~= before + seq![mapped_path(path@, pair_view(cfg.path_map))]);
    push_opt_arg(&mut args, "--title", &rec.title);
    push_list_arg(&mut args, "--authors", &rec.authors, " & ");
    push_opt_arg(&mut args, "--publisher", &rec.publisher);
    push_opt_arg(&mut args, "--date", &rec.date);
    push_opt_arg(&mut args, "--isbn", &rec.isbn);
    push_opt_arg(&mut args, "--language", &rec.language);
    push_list_arg(&mut args, "--tags", &rec.subjects, ", ");
    Ok(args)
}

/// The value that an argument list of flag/value pairs gives `flag`: the argument after the
/// first pair that opens with it, read two by two from the start, as the tool reads them.
pub open spec fn flag_value(args: Seq<Seq<char>>, flag: Seq<char>) -> Option<Seq<char>>
    decreases args.len(),
{
    if args.len() < 2 {
        None
    } else if args[0] == flag {
        Some(args[1])
    } else {
        flag_value(args.skip(2), flag)
    }
}

/// The value a list field is written with: the items joined by `sep`, when there are items.
pub open spec fn joined_value(items: Seq<String>, sep: Seq<char>) -> Option<Seq<char>> {
    if items.len() > 0 {
        Some(join(string_views(items), sep))
    } else {
        None
    }
}

proof fn lemma_flag_value_block(b: Seq<Seq<char>>, rest: Seq<Seq<char>>, flag: Seq<char>)
    requires
        b.len() == 0 || b.len() == 2,
    ensures
        flag_value(b + rest, flag) == if b.len() == 2 && b[0] == flag {
            Some(b[1])
        } else {
            flag_value(rest, flag)
        },
        (b + rest).len() % 2 == rest.len() % 2,
{
    if b.len() == 0 {
        assert(b + rest =~= rest);
    } else {
        assert((b + rest).skip(2) =~= rest);
        assert((b + rest)[0] == b[0]);
        assert((b + rest)[1] == b[1]);
    }
}

/// The lengths of the seven flags, and a character that tells apart those of equal length.
proof fn lemma_flags_differ()
    ensures
        "--title"@.len() == 7,
        "--authors"@.len() == 9,
        "--publisher"@.len() == 11,
        "--date"@.len() == 6,
        "--isbn"@.len() == 6,
        "--language"@.len() == 10,
        "--tags"@.len() == 6,
        "--date"@[2] == 'd',
        "--isbn"@[2] == 'i',
        "--tags"@[2] == 't',
{
    reveal_strlit("--title");
    reveal_strlit("--authors");
    reveal_strlit("--publisher");
    reveal_strlit("--date");
    reveal_strlit("--isbn");
    reveal_strlit("--language");
    reveal_strlit("--tags");
}

/// The command line writes every field the record has under its own flag, and no flag for a
/// field it lacks: it opens with the configured invocation and the target, and what follows,
/// read as flag/value pairs, gives `--title`, `--publisher`, `--date`, `--isbn` and
/// `--language` exactly the record's values, `--authors` the authors joined by " & " and
/// `--tags` the subjects joined by ", ".
pub proof fn lemma_every_field_written(cmd: Seq<Seq<char>>, target: Seq<char>, rec: BookRecord)
    ensures
        ebook_meta_command(cmd, target, rec).take(cmd.len() + 1 as int) == cmd.push(target),
        ebook_meta_command(cmd, target, rec).len() >= cmd.len() + 1,
        ({
            let rest = ebook_meta_command(cmd, target, rec).skip(cmd.len() + 1 as int);
            &&& rest.len() % 2 == 0
            &&& flag_value(rest, "--title"@) == opt_view(rec.title)
            &&& flag_value(rest, "--authors"@) == joined_value(rec.authors@, " & "@)
            &&& flag_value(rest, "--publisher"@) == opt_view(rec.publisher)
            &&& flag_value(rest, "--date"@) == opt_view(rec.date)
            &&& flag_value(rest, "--isbn"@) == opt_view(rec.isbn)
            &&& flag_value(rest, "--language"@) == opt_view(rec.language)
            &&& flag_value(rest, "--tags"@) == joined_value(rec.subjects@, ", "@)
        }),
{
    let head = cmd.push(target);
    let b1 = opt_arg("--title"@, rec.title);
    let b2 = list_arg("--authors"@, rec.authors@, " & "@);
    let b3 = opt_arg("--publisher"@, rec.publisher);
    let b4 = opt_arg("--date"@, rec.date);
    let b5 = opt_arg("--isbn"@, rec.isbn);
    let b6 = opt_arg("--language"@, rec.language);
    let b7 = list_arg("--tags"@, rec.subjects@, ", "@);
    let full = ebook_meta_command(cmd, target, rec);
    let e = Seq::<Seq<char>>::empty();
    let r7 = b7 + e;
    let r6 = b6 + r7;
    let r5 = b5 + r6;
    let r4 = b4 + r5;
    let r3 = b3 + r4;
    let r2 = b2 + r3;
    let r1 = b1 + r2;
    assert(cmd + seq![target] =~= head);
    assert(full =~= head + r1);
    assert(full.take(cmd.len() + 1 as int) =~= head);
    assert(full.skip(cmd.len() + 1 as int) =~= r1);
    lemma_flags_differ();
    let flags = seq![
        "--title"@,
        "--authors"@,
        "--publisher"@,
        "--date"@,
        "--isbn"@,
        "--language"@,
        "--tags"@,
    ];
    assert forall|i: int| 0 <= i < 7 implies flag_value(r1, #[trigger] flags[i]) == (if i == 0 {
        opt_view(rec.title)
    } else if i == 1 {
        joined_value(rec.authors@, " & "@)
    } else if i == 2 {
        opt_view(rec.publisher)
    } else if i == 3 {
        opt_view(rec.date)
    } else if i == 4 {
        opt_view(rec.isbn)
    } else if i == 5 {
        opt_view(rec.language)
    } else {
        joined_value(rec.subjects@, ", "@)
    }) by {
        let f = flags[i];
        lemma_flag_value_block(b7, e, f);
        lemma_flag_value_block(b6, r7, f);
        lemma_flag_value_block(b5, r6, f);
        lemma_flag_value_block(b4, r5, f);
        lemma_flag_value_block(b3, r4, f);
        lemma_flag_value_block(b2, r3, f);
        lemma_flag_value_block(b1, r2, f);
        assert(flag_value(e, f) is None);
    }
    assert(flags[0] == "--title"@);
    assert(flags[1] == "--authors"@);
    assert(flags[2] == "--publisher"@);
    assert(flags[3] == "--date"@);
    assert(flags[4] == "--isbn"@);
    assert(flags[5] == "--language"@);
    assert(flags[6] == "--tags"@);
}

} // verus!
