//! The metadata of one EPUB file and the rules that normalise what the file declares.

use vstd::prelude::*;
use crate::text::{
    append_chars, chars_of, contains_char, digits, digits_of, is_digit, is_ws, join, join_words,
    lemma_words_nonempty, opt_view, split_words, string_of, trim, trim_chars, views, words,
};

verus! {

/// What the library knows of one EPUB file.
#[derive(Debug, Clone)]
pub struct EpubMetadata {
    pub source_path: String,
    pub title: Option<String>,
    /// Held as "Lastname, Firstname".
    pub author: Option<String>,
    pub publisher: Option<String>,
    pub date: Option<String>,
    /// The year of `date`, when one can be read from it.
    pub year: Option<String>,
    /// Only an identifier that looks like an ISBN.
    pub isbn: Option<String>,
    pub language: Option<String>,
}

impl EpubMetadata {
    /// A file has metadata when it declares a title or an author.
    pub fn has_metadata(&self) -> (b: bool)
        ensures
            b == (self.title is Some || self.author is Some),
    {
        self.title.is_some() || self.author.is_some()
    }
}

/// A personal name put in "Lastname, Firstname" order: a name holding a comma is taken to be
/// in that order already; otherwise its last word comes first, then ", ", then the other
/// words separated by single spaces.
pub open spec fn lastname_first(s: Seq<char>) -> Seq<char> {
    if s.contains(',') {
        s
    } else {
        let w = words(s);
        if w.len() == 0 {
            seq![]
        } else if w.len() == 1 {
            w[0]
        } else {
            w.last() + seq![',', ' '] + join(w.drop_last(), seq![' '])
        }
    }
}

/// Puts a personal name in "Lastname, Firstname" order.
pub fn to_lastname_first(name: &str) -> (res: String)
    ensures
        res@ == lastname_first(name@),
{
    let cs = chars_of(name);
    if contains_char(&cs, ',') {
        return string_of(&cs);
    }
    let mut parts = split_words(&cs);
    let n = parts.len();
    if n == 0 {
        String::new()
    } else if n == 1 {
        string_of(&parts[0])
    } else {
        let ghost w = views(parts@);
        let last = parts.pop().unwrap();
        assert(views(parts@) =~= w.drop_last());
        let mut sep: Vec<char> = Vec::new();
        sep.push(' ');
        let rest = join_words(&parts, &sep);
        let mut out = last;
        out.push(',');
        out.push(' ');
        append_chars(&mut out, &rest);
        assert(out@ =~= w.last() + seq![',', ' '] + join(w.drop_last(), seq![' ']));
        string_of(&out)
    }
}

proof fn lemma_words_shape(s: Seq<char>)
    ensures
        forall|i: int| 0 <= i < words(s).len() ==> #[trigger] words(s)[i].len() > 0,
        forall|i: int, j: int|
            0 <= i < words(s).len() && 0 <= j < words(s)[i].len() ==> !is_ws(
                #[trigger] words(s)[i][j],
            ) && s.contains(words(s)[i][j]),
    decreases s.len(),
{
    if s.len() > 0 {
        let init = s.drop_last();
        lemma_words_shape(init);
        let w = words(init);
        assert forall|x: char| init.contains(x) implies s.contains(x) by {
            let k = choose|k: int| 0 <= k < init.len() && init[k] == x;
            assert(s[k] == x);
        }
        assert(s[s.len() - 1] == s.last());
        if is_ws(s.last()) {
        } else if init.len() > 0 && !is_ws(init.last()) {
            lemma_words_nonempty(init);
            let w2 = w.update(w.len() - 1, w.last().push(s.last()));
            assert forall|i: int, j: int|
                0 <= i < w2.len() && 0 <= j < w2[i].len() implies !is_ws(#[trigger] w2[i][j])
                && s.contains(w2[i][j]) by {
                if i == w.len() - 1 && j == w.last().len() {
                } else {
                    assert(w2[i][j] == w[i][j]);
                }
            }
        } else {
            let w2 = w.push(seq![s.last()]);
            assert forall|i: int, j: int|
                0 <= i < w2.len() && 0 <= j < w2[i].len() implies !is_ws(#[trigger] w2[i][j])
                && s.contains(w2[i][j]) by {
                if i == w.len() {
                } else {
                    assert(w2[i][j] == w[i][j]);
                }
            }
        }
    }
}

proof fn lemma_words_of_word(t: Seq<char>)
    requires
        t.len() > 0,
        forall|j: int| 0 <= j < t.len() ==> !is_ws(#[trigger] t[j]),
    ensures
        words(t) == seq![t],
    decreases t.len(),
{
    let init = t.drop_last();
    assert(!is_ws(t[t.len() - 1]));
    if init.len() == 0 {
        assert(t =~= seq![t.last()]);
        assert(words(init) =~= Seq::<Seq<char>>::empty());
        assert(Seq::<Seq<char>>::empty().push(seq![t.last()]) =~= seq![t]);
    } else {
        assert(!is_ws(init[init.len() - 1]));
        lemma_words_of_word(init);
        assert(init.push(t.last()) =~= t);
        assert(seq![init].update(0, init.push(t.last())) =~= seq![t]);
    }
}

/// Putting a name in "Lastname, Firstname" order a second time changes nothing.
pub proof fn lemma_lastname_first_idempotent(s: Seq<char>)
    ensures
        lastname_first(lastname_first(s)) == lastname_first(s),
{
    if !s.contains(',') {
        let w = words(s);
        lemma_words_shape(s);
        if w.len() == 0 {
            assert(words(Seq::<char>::empty()) =~= Seq::<Seq<char>>::empty());
        } else if w.len() == 1 {
            let r = w[0];
            assert forall|j: int| 0 <= j < r.len() implies !is_ws(#[trigger] r[j]) by {
                assert(!is_ws(w[0][j]));
            }
            lemma_words_of_word(r);
            if r.contains(',') {
                let j = choose|j: int| 0 <= j < r.len() && r[j] == ',';
                assert(s.contains(w[0][j]));
            }
        } else {
            let r = w.last() + seq![',', ' '] + join(w.drop_last(), seq![' ']);
            assert(w.last().len() > 0) by {
                assert(w[w.len() - 1].len() > 0);
            }
            assert(r[w.last().len() as int] == ',');
            assert(r.contains(','));
        }
    }
}

/// An ISBN character: a decimal digit or the check character `X`/`x`.
pub open spec fn is_isbn_char(c: char) -> bool {
    is_digit(c) || c == 'X' || c == 'x'
}

/// How many ISBN characters `s` holds.
pub open spec fn isbn_char_count(s: Seq<char>) -> nat
    decreases s.len(),
{
    if s.len() == 0 {
        0
    } else {
        isbn_char_count(s.drop_last()) + if is_isbn_char(s.last()) { 1nat } else { 0nat }
    }
}

/// An identifier is taken for an ISBN when, all else ignored, it holds 10 or 13 ISBN
/// characters.
pub open spec fn looks_like_isbn(s: Seq<char>) -> bool {
    isbn_char_count(s) == 10 || isbn_char_count(s) == 13
}

/// Whether an identifier looks like an ISBN-10 or ISBN-13.
pub fn is_isbn(identifier: &str) -> (b: bool)
    ensures
        b == looks_like_isbn(identifier@),
{
    let cs = chars_of(identifier);
    let mut count: usize = 0;
    let mut i: usize = 0;
    while i < cs.len()
        invariant
            i <= cs.len(),
            count == isbn_char_count(cs@.take(i as int)),
            count <= i,
        decreases cs.len() - i,
    {
        let c = cs[i];
        assert(cs@.take(i + 1).drop_last() == cs@.take(i as int));
        if ('0' <= c && c <= '9') || c == 'X' || c == 'x' {
            count += 1;
        }
        i += 1;
    }
    assert(cs@.take(cs.len() as int) == cs@);
    count == 10 || count == 13
}

/// The year of the calendar date that `chrono` reads from `s` with the `strftime`-style
/// format `fmt`, or `None` where it reads no complete date.
pub uninterp spec fn parsed_date_year(s: Seq<char>, fmt: Seq<char>) -> Option<i32>;

/// `chrono::NaiveDate::parse_from_str`, reduced to the year of the date it reads. Claimed: the
/// result depends only on the two strings (it is named `parsed_date_year`); nothing is
/// claimed of which strings parse.
#[verifier::external_body]
fn parse_date_year(s: &str, fmt: &str) -> (res: Option<i32>)
    ensures
        res == parsed_date_year(s@, fmt@),
{
    chrono::NaiveDate::parse_from_str(s, fmt).ok().map(|d| chrono::Datelike::year(&d))
}

/// The date formats tried, in order.
pub open spec fn date_format(k: int) -> Seq<char> {
    if k == 0 {
        seq!['%', 'Y', '-', '%', 'm', '-', '%', 'd']
    } else if k == 1 {
        seq!['%', 'Y', '/', '%', 'm', '/', '%', 'd']
    } else if k == 2 {
        seq!['%', 'Y', '.', '%', 'm', '.', '%', 'd']
    } else if k == 3 {
        seq!['%', 'Y']
    } else if k == 4 {
        seq!['%', 'Y', '-', '%', 'm']
    } else {
        seq!['%', 'Y', '/', '%', 'm']
    }
}

/// The year read with the first of the formats `k..6` that reads a date from `s`.
pub open spec fn first_parsed_year(s: Seq<char>, k: int) -> Option<i32>
    decreases 6 - k,
{
    if k >= 6 {
        None
    } else {
        match parsed_date_year(s, date_format(k)) {
            Some(y) => Some(y),
            None => first_parsed_year(s, k + 1),
        }
    }
}

/// `d` written with at least four digits, padded with leading zeros.
pub open spec fn pad4(d: Seq<char>) -> Seq<char> {
    if d.len() >= 4 {
        d
    } else {
        Seq::new((4 - d.len()) as nat, |i: int| '0') + d
    }
}

/// A year as chrono's `%Y` writes it: four digits, zero padded, for years 0 to 9999; other
/// years with a sign and at least four digits.
pub open spec fn year_text(y: int) -> Seq<char> {
    if 0 <= y <= 9999 {
        pad4(digits(y as nat))
    } else if y > 9999 {
        seq!['+'] + pad4(digits(y as nat))
    } else {
        seq!['-'] + pad4(digits((-y) as nat))
    }
}

/// The year of a publication date: the year of the first format that reads it as a date,
/// else its first four characters when these are digits.
pub open spec fn year_of_date(s: Seq<char>) -> Option<Seq<char>> {
    year_from_parsed(s, first_parsed_year(s, 0))
}

/// The year of a publication date given the year that the first successful format read from
/// it, if any: that year as `%Y` writes it, else the date's first four characters when these
/// are digits.
pub open spec fn year_from_parsed(s: Seq<char>, parsed: Option<i32>) -> Option<Seq<char>> {
    match parsed {
        Some(y) => Some(year_text(y as int)),
        None => if s.len() >= 4 && is_digit(s[0]) && is_digit(s[1]) && is_digit(s[2]) && is_digit(
            s[3],
        ) {
            Some(s.take(4))
        } else {
            None
        },
    }
}

fn pad4_exec(d: Vec<char>) -> (res: Vec<char>)
    ensures
        res@ == pad4(d@),
{
    if d.len() >= 4 {
        return d;
    }
    let mut res: Vec<char> = Vec::new();
    let k = 4 - d.len();
    while res.len() < k
        invariant
            k == 4 - d.len(),
            res.len() <= k,
            forall|i: int| 0 <= i < res.len() ==> res@[i] == '0',
        decreases k - res.len(),
    {
        res.push('0');
    }
    append_chars(&mut res, &d);
    assert(res@ =~= pad4(d@));
    res
}

/// Writes a year as chrono's `%Y` does.
pub fn year_string(y: i32) -> (res: String)
    ensures
        res@ == year_text(y as int),
{
    let v = if 0 <= y && y <= 9999 {
        pad4_exec(digits_of(y as u64))
    } else if y > 9999 {
        let mut v: Vec<char> = Vec::new();
        v.push('+');
        let p = pad4_exec(digits_of(y as u64));
        append_chars(&mut v, &p);
        v
    } else {
        let mut v: Vec<char> = Vec::new();
        v.push('-');
        let m: u64 = (-(y as i64)) as u64;
        let p = pad4_exec(digits_of(m));
        append_chars(&mut v, &p);
        v
    };
    string_of(&v)
}

/// The year of a publication date, if one can be read from it.
pub fn extract_year(date_str: &str) -> (res: Option<String>)
    ensures
        match res {
            Some(y) => year_of_date(date_str@) == Some(y@),
            None => year_of_date(date_str@) is None,
        },
{
    let formats = ["%Y-%m-%d", "%Y/%m/%d", "%Y.%m.%d", "%Y", "%Y-%m", "%Y/%m"];
    proof {
        reveal_strlit("%Y-%m-%d");
        reveal_strlit("%Y/%m/%d");
        reveal_strlit("%Y.%m.%d");
        reveal_strlit("%Y");
        reveal_strlit("%Y-%m");
        reveal_strlit("%Y/%m");
    }
    let mut parsed: Option<i32> = None;
    let mut k: usize = 0;
    while k < 6 && parsed.is_none()
        invariant
            k <= 6,
            formats@.len() == 6,
            forall|j: int| 0 <= j < 6 ==> (#[trigger] formats@[j])@ == date_format(j),
            parsed is None ==> first_parsed_year(date_str@, 0) == first_parsed_year(
                date_str@,
                k as int,
            ),
            parsed is Some ==> first_parsed_year(date_str@, 0) == parsed,
        decreases 6 - k,
    {
        parsed = parse_date_year(date_str, formats[k]);
        k += 1;
    }
    year_from_parse(date_str, parsed)
}

/// The year of a publication date given the year that date parsing found (see
/// `year_from_parsed`).
pub fn year_from_parse(date_str: &str, parsed: Option<i32>) -> (res: Option<String>)
    ensures
        match res {
            Some(y) => year_from_parsed(date_str@, parsed) == Some(y@),
            None => year_from_parsed(date_str@, parsed) is None,
        },
{
    if let Some(y) = parsed {
        return Some(year_string(y));
    }
    let cs = chars_of(date_str);
    if cs.len() >= 4 && '0' <= cs[0] && cs[0] <= '9' && '0' <= cs[1] && cs[1] <= '9' && '0'
        <= cs[2] && cs[2] <= '9' && '0' <= cs[3] && cs[3] <= '9' {
        let mut v: Vec<char> = Vec::new();
        v.push(cs[0]);
        v.push(cs[1]);
        v.push(cs[2]);
        v.push(cs[3]);
        assert(v@ =~= cs@.take(4));
        Some(string_of(&v))
    } else {
        None
    }
}

/// A metadata value as the file declares it: trimmed, and absent when nothing is left.
pub open spec fn clean_value(raw: Option<Seq<char>>) -> Option<Seq<char>> {
    match raw {
        Some(v) => if trim(v).len() > 0 {
            Some(trim(v))
        } else {
            None
        },
        None => None,
    }
}

/// Trims a declared metadata value and drops it when it is empty.
pub fn clean_field(raw: Option<String>) -> (res: Option<String>)
    ensures
        opt_view(res) == clean_value(opt_view(raw)),
{
    match raw {
        Some(v) => {
            let cs = chars_of(v.as_str());
            let t = trim_chars(&cs);
            if t.len() > 0 {
                Some(string_of(&t))
            } else {
                None
            }
        },
        None => None,
    }
}

/// The metadata of a file from the values it declares (the first `title`, `creator`,
/// `publisher`, `date`, `identifier` and `language` entries): each value trimmed and dropped
/// when empty; the creator put in "Lastname, Firstname" order; the year read from the date;
/// the identifier kept only when it looks like an ISBN.
pub fn metadata_from_fields(
    source_path: String,
    title: Option<String>,
    creator: Option<String>,
    publisher: Option<String>,
    date: Option<String>,
    identifier: Option<String>,
    language: Option<String>,
) -> (res: EpubMetadata)
    ensures
        res.source_path@ == source_path@,
        opt_view(res.title) == clean_value(opt_view(title)),
        opt_view(res.author) == match clean_value(opt_view(creator)) {
            Some(a) => Some(lastname_first(a)),
            None => None,
        },
        opt_view(res.publisher) == clean_value(opt_view(publisher)),
        opt_view(res.date) == clean_value(opt_view(date)),
        opt_view(res.year) == match clean_value(opt_view(date)) {
            Some(d) => year_of_date(d),
            None => None,
        },
        opt_view(res.isbn) == match clean_value(opt_view(identifier)) {
            Some(i) => if looks_like_isbn(i) {
                Some(i)
            } else {
                None
            },
            None => None,
        },
        opt_view(res.language) == clean_value(opt_view(language)),
{
    let title = clean_field(title);
    let author = match clean_field(creator) {
        Some(a) => Some(to_lastname_first(a.as_str())),
        None => None,
    };
    let publisher = clean_field(publisher);
    let date = clean_field(date);
    let year = match &date {
        Some(d) => extract_year(d.as_str()),
        None => None,
    };
    let isbn = match clean_field(identifier) {
        Some(i) => if is_isbn(i.as_str()) {
            Some(i)
        } else {
            None
        },
        None => None,
    };
    let language = clean_field(language);
    EpubMetadata { source_path, title, author, publisher, date, year, isbn, language }
}

} // verus!
