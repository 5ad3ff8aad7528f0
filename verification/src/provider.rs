//! Records of the online catalogue (Open Library): the queries that look a book up, and the
//! canonical records made of the documents that the catalogue answers with.

use vstd::prelude::*;
use vstd::utf8::encode_utf8;
use crate::text::{append_chars, chars_of, decimal, decimal_of, opt_view, string_of, string_views};

verus! {

/// A canonical book record from the catalogue: what a file is enriched toward.
#[derive(Debug, Clone)]
pub struct BookRecord {
    pub title: Option<String>,
    /// In natural "First Last" order, as the catalogue gives them.
    pub authors: Vec<String>,
    pub publisher: Option<String>,
    /// The best publication date known (often just a year).
    pub date: Option<String>,
    pub year: Option<String>,
    /// An ISBN-13 when there is one, else an ISBN-10.
    pub isbn: Option<String>,
    pub language: Option<String>,
    pub subjects: Vec<String>,
    pub cover_url: Option<String>,
    pub source: &'static str,
}

impl Default for BookRecord {
    fn default() -> (res: Self)
        ensures
            res.title is None,
            res.authors@.len() == 0,
            res.publisher is None,
            res.date is None,
            res.year is None,
            res.isbn is None,
            res.language is None,
            res.subjects@.len() == 0,
            res.cover_url is None,
            res.source@.len() == 0,
    {
        proof {
            reveal_strlit("");
        }
        BookRecord {
            title: None,
            authors: Vec::new(),
            publisher: None,
            date: None,
            year: None,
            isbn: None,
            language: None,
            subjects: Vec::new(),
            cover_url: None,
            source: "",
        }
    }
}

/// One document of a catalogue search answer, as plain values: each field that is present with
/// the expected JSON type, and for list fields each entry (`None` where an entry is not a
/// string; an empty list where the field is absent or not a list).
pub struct OlDoc {
    pub title: Option<String>,
    pub author_name: Vec<Option<String>>,
    pub first_publish_year: Option<i64>,
    pub isbn: Vec<Option<String>>,
    pub publisher: Vec<Option<String>>,
    pub language: Vec<Option<String>>,
    pub subject: Vec<Option<String>>,
    pub cover_i: Option<i64>,
}

/// The string entries of a list, in order.
pub open spec fn present_strings(a: Seq<Option<String>>) -> Seq<Seq<char>>
    decreases a.len(),
{
    if a.len() == 0 {
        seq![]
    } else {
        let r = present_strings(a.drop_last());
        match a.last() {
            Some(s) => r.push(s@),
            None => r,
        }
    }
}

/// The first entry of a list when it is a string.
pub open spec fn first_string(a: Seq<Option<String>>) -> Option<Seq<char>> {
    if a.len() > 0 {
        match a[0] {
            Some(s) => Some(s@),
            None => None,
        }
    } else {
        None
    }
}

/// The length of a string in UTF-8 bytes (as `str::len`).
pub open spec fn byte_len(s: Seq<char>) -> nat {
    encode_utf8(s).len()
}

/// The first string whose UTF-8 length is `n`.
pub open spec fn first_of_len(s: Seq<Seq<char>>, n: nat) -> Option<Seq<char>>
    decreases s.len(),
{
    if s.len() == 0 {
        None
    } else if byte_len(s[0]) == n {
        Some(s[0])
    } else {
        first_of_len(s.drop_first(), n)
    }
}

/// The ISBN to keep from a list: the first ISBN-13, else the first ISBN-10 (by length).
pub open spec fn preferred_isbn(a: Seq<Option<String>>) -> Option<Seq<char>> {
    let s = present_strings(a);
    match first_of_len(s, 13) {
        Some(x) => Some(x),
        None => first_of_len(s, 10),
    }
}

fn present_strings_exec(a: &Vec<Option<String>>) -> (res: Vec<String>)
    ensures
        string_views(res@) == present_strings(a@),
{
    let mut res: Vec<String> = Vec::new();
    let mut i: usize = 0;
    while i < a.len()
        invariant
            i <= a.len(),
            string_views(res@) == present_strings(a@.take(i as int)),
        decreases a.len() - i,
    {
        assert(a@.take(i + 1).drop_last() == a@.take(i as int));
        assert(a@.take(i + 1).last() == a@[i as int]);
        match &a[i] {
            Some(s) => {
                let c = string_of(&chars_of(s.as_str()));
                res.push(c);
                assert(string_views(res@) =~= present_strings(a@.take(i as int)).push(s@));
            },
            None => {},
        }
        i += 1;
    }
    assert(a@.take(a.len() as int) == a@);
    res
}

fn first_string_exec(a: &Vec<Option<String>>) -> (res: Option<String>)
    ensures
        opt_view(res) == first_string(a@),
{
    if a.len() > 0 {
        match &a[0] {
            Some(s) => Some(string_of(&chars_of(s.as_str()))),
            None => None,
        }
    } else {
        None
    }
}

fn first_of_len_exec(s: &Vec<String>, n: usize) -> (res: Option<String>)
    ensures
        opt_view(res) == first_of_len(string_views(s@), n as nat),
{
    let mut i: usize = 0;
    assert(string_views(s@).skip(0) == string_views(s@));
    while i < s.len()
        invariant
            i <= s.len(),
            first_of_len(string_views(s@), n as nat) == first_of_len(
                string_views(s@).skip(i as int),
                n as nat,
            ),
        decreases s.len() - i,
    {
        let ghost rest = string_views(s@).skip(i as int);
        assert(rest[0] == s@[i as int]@);
        let st = s[i].as_str();
        let l = st.as_bytes().len();
        assert(st@ == rest[0]);
        if l == n {
            return Some(string_of(&chars_of(st)));
        }
        assert(rest.drop_first() == string_views(s@).skip(i + 1));
        i += 1;
    }
    None
}

/// The ISBN to keep from a catalogue list: the first ISBN-13, else the first ISBN-10.
pub fn pick_isbn(arr: &Vec<Option<String>>) -> (res: Option<String>)
    ensures
        opt_view(res) == preferred_isbn(arr@),
{
    let isbns = present_strings_exec(arr);
    match first_of_len_exec(&isbns, 13) {
        Some(x) => Some(x),
        None => first_of_len_exec(&isbns, 10),
    }
}

/// The address of a document's cover image.
pub open spec fn cover_url_for(id: int) -> Seq<char> {
    "https://covers.openlibrary.org/b/id/"@ + decimal(id) + "-L.jpg"@
}

/// The canonical record made of one catalogue document: its title, its string authors, its
/// first publication year (as the date too), its preferred ISBN, its first publisher and first
/// language, at most eight of its subjects, and the address of its cover.
pub open spec fn record_matches_doc(r: BookRecord, d: OlDoc) -> bool {
    let year = match d.first_publish_year {
        Some(y) => Some(decimal(y as int)),
        None => None,
    };
    let subjects = present_strings(d.subject@);
    &&& opt_view(r.title) == opt_view(d.title)
    &&& string_views(r.authors@) == present_strings(d.author_name@)
    &&& opt_view(r.year) == year
    &&& opt_view(r.date) == year
    &&& opt_view(r.isbn) == preferred_isbn(d.isbn@)
    &&& opt_view(r.publisher) == first_string(d.publisher@)
    &&& opt_view(r.language) == first_string(d.language@)
    &&& string_views(r.subjects@) == if subjects.len() > 8 {
        subjects.take(8)
    } else {
        subjects
    }
    &&& opt_view(r.cover_url) == match d.cover_i {
        Some(id) => Some(cover_url_for(id as int)),
        None => None,
    }
    &&& r.source@ == "openlibrary"@
}

fn record_from_doc(d: &OlDoc) -> (r: BookRecord)
    ensures
        record_matches_doc(r, *d),
{
    let title = match &d.title {
        Some(t) => Some(string_of(&chars_of(t.as_str()))),
        None => None,
    };
    let authors = present_strings_exec(&d.author_name);
    let year = match d.first_publish_year {
        Some(y) => Some(string_of(&decimal_of(y))),
        None => None,
    };
    let date = match d.first_publish_year {
        Some(y) => Some(string_of(&decimal_of(y))),
        None => None,
    };
    let isbn = pick_isbn(&d.isbn);
    let publisher = first_string_exec(&d.publisher);
    let language = first_string_exec(&d.language);
    let mut subjects = present_strings_exec(&d.subject);
    let ghost all_subjects = string_views(subjects@);
    if subjects.len() > 8 {
        subjects.truncate(8);
        assert(string_views(subjects@) =~= all_subjects.take(8));
    }
    let cover_url = match d.cover_i {
        Some(id) => {
            let mut u = chars_of("https://covers.openlibrary.org/b/id/");
            let n = decimal_of(id);
            append_chars(&mut u, &n);
            let tail = chars_of("-L.jpg");
            append_chars(&mut u, &tail);
            Some(string_of(&u))
        },
        None => None,
    };
    let source = "openlibrary";
    BookRecord {
        title,
        authors,
        publisher,
        date,
        year,
        isbn,
        language,
        subjects,
        cover_url,
        source,
    }
}

/// The canonical records made of a catalogue answer, one per document, in order.
pub fn records_from_docs(docs: &Vec<OlDoc>) -> (res: Vec<BookRecord>)
    ensures
        res.len() == docs.len(),
        forall|i: int| 0 <= i < docs.len() ==> record_matches_doc(#[trigger] res@[i], docs@[i]),
{
    let mut res: Vec<BookRecord> = Vec::new();
    let mut i: usize = 0;
    while i < docs.len()
        invariant
            i <= docs.len(),
            res.len() == i,
            forall|k: int| 0 <= k < i ==> record_matches_doc(#[trigger] res@[k], docs@[k]),
        decreases docs.len() - i,
    {
        let r = record_from_doc(&docs[i]);
        res.push(r);
        i += 1;
    }
    res
}

/// A byte that stands for itself in a query string.
pub open spec fn is_unreserved(b: u8) -> bool {
    (97 <= b <= 122) || (65 <= b <= 90) || (48 <= b <= 57) || b == 45 || b == 95 || b == 46 || b
        == 126
}

/// An upper-case hexadecimal digit.
pub open spec fn hex_digit(n: int) -> char {
    if n == 0 { '0' } else if n == 1 { '1' } else if n == 2 { '2' } else if n == 3 { '3' }
    else if n == 4 { '4' } else if n == 5 { '5' } else if n == 6 { '6' } else if n == 7 { '7' }
    else if n == 8 { '8' } else if n == 9 { '9' } else if n == 10 { 'A' } else if n == 11 { 'B' }
    else if n == 12 { 'C' } else if n == 13 { 'D' } else if n == 14 { 'E' } else { 'F' }
}

/// How one byte is written in a query string: a space as `+`, an unreserved byte as its
/// character, any other byte as `%` and two upper-case hexadecimal digits.
pub open spec fn url_byte(b: u8) -> Seq<char> {
    if b == 32 {
        seq!['+']
    } else if is_unreserved(b) {
        seq![b as char]
    } else {
        seq!['%', hex_digit(b as int / 16), hex_digit(b as int % 16)]
    }
}

/// The form-style percent encoding of a byte string, byte by byte.
pub open spec fn url_encode(bytes: Seq<u8>) -> Seq<char>
    decreases bytes.len(),
{
    if bytes.len() == 0 {
        seq![]
    } else {
        url_encode(bytes.drop_last()) + url_byte(bytes.last())
    }
}

fn hex_digit_exec(n: u8) -> (c: char)
    requires
        n < 16,
    ensures
        c == hex_digit(n as int),
{
    if n == 0 { '0' } else if n == 1 { '1' } else if n == 2 { '2' } else if n == 3 { '3' }
    else if n == 4 { '4' } else if n == 5 { '5' } else if n == 6 { '6' } else if n == 7 { '7' }
    else if n == 8 { '8' } else if n == 9 { '9' } else if n == 10 { 'A' } else if n == 11 { 'B' }
    else if n == 12 { 'C' } else if n == 13 { 'D' } else if n == 14 { 'E' } else { 'F' }
}

/// Percent-encodes text for a query string, form style: each UTF-8 byte that is a letter, a
/// digit or one of `-_.~` stands for itself, a space becomes `+`, any other byte `%XX`.
pub fn urlencode(s: &str) -> (res: String)
    ensures
        res@ == url_encode(encode_utf8(s@)),
{
    let bytes = s.as_bytes();
    let mut out: Vec<char> = Vec::new();
    let mut i: usize = 0;
    while i < bytes.len()
        invariant
            i <= bytes.len(),
            bytes@ == encode_utf8(s@),
            out@ == url_encode(bytes@.take(i as int)),
        decreases bytes.len() - i,
    {
        let b = bytes[i];
        assert(bytes@.take(i + 1).drop_last() == bytes@.take(i as int));
        assert(bytes@.take(i + 1).last() == b);
        if b == 32 {
            out.push('+');
        } else if (97 <= b && b <= 122) || (65 <= b && b <= 90) || (48 <= b && b <= 57) || b
            == 45 || b == 95 || b == 46 || b == 126 {
            out.push(b as char);
        } else {
            out.push('%');
            out.push(hex_digit_exec(b / 16));
            out.push(hex_digit_exec(b % 16));
        }
        i += 1;
        assert(out@ =~= url_encode(bytes@.take(i as int)));
    }
    assert(bytes@.take(bytes.len() as int) == bytes@);
    string_of(&out)
}

/// An ASCII letter or digit.
pub open spec fn is_ascii_alnum(c: char) -> bool {
    ('a' <= c && c <= 'z') || ('A' <= c && c <= 'Z') || ('0' <= c && c <= '9')
}

/// The ASCII letters and digits of `s`, in order.
pub open spec fn ascii_alnum_only(s: Seq<char>) -> Seq<char>
    decreases s.len(),
{
    if s.len() == 0 {
        seq![]
    } else if is_ascii_alnum(s.last()) {
        ascii_alnum_only(s.drop_last()).push(s.last())
    } else {
        ascii_alnum_only(s.drop_last())
    }
}

/// The fields asked of the catalogue and the number of documents.
pub open spec fn query_tail() -> Seq<char> {
    "&fields=title,author_name,first_publish_year,isbn,publisher,cover_i,subject,language&limit=5"@
}

/// The catalogue query that looks a book up by ISBN: the ISBN reduced to its ASCII letters
/// and digits.
pub open spec fn isbn_query(isbn: Seq<char>) -> Seq<char> {
    "https://openlibrary.org/search.json?isbn="@ + ascii_alnum_only(isbn) + query_tail()
}

/// The catalogue query that searches by title, and by author when one is given; both
/// percent-encoded.
pub open spec fn title_query(title: Seq<char>, author: Option<Seq<char>>) -> Seq<char> {
    let base = "https://openlibrary.org/search.json?title="@ + url_encode(encode_utf8(title))
        + query_tail();
    match author {
        Some(a) => base + "&author="@ + url_encode(encode_utf8(a)),
        None => base,
    }
}

/// The catalogue query that looks a book up by its ISBN.
pub fn isbn_lookup_url(isbn: &str) -> (res: String)
    ensures
        res@ == isbn_query(isbn@),
{
    let cs = chars_of(isbn);
    let mut clean: Vec<char> = Vec::new();
    let mut i: usize = 0;
    while i < cs.len()
        invariant
            i <= cs.len(),
            clean@ == ascii_alnum_only(cs@.take(i as int)),
        decreases cs.len() - i,
    {
        let c = cs[i];
        assert(cs@.take(i + 1).drop_last() == cs@.take(i as int));
        if ('a' <= c && c <= 'z') || ('A' <= c && c <= 'Z') || ('0' <= c && c <= '9') {
            clean.push(c);
        }
        i += 1;
    }
    assert(cs@.take(cs.len() as int) == cs@);
    let mut u = chars_of("https://openlibrary.org/search.json?isbn=");
    append_chars(&mut u, &clean);
    let tail = chars_of(
        "&fields=title,author_name,first_publish_year,isbn,publisher,cover_i,subject,language&limit=5",
    );
    append_chars(&mut u, &tail);
    string_of(&u)
}

/// The catalogue query that searches by title, and by author when one is known.
pub fn title_search_url(title: &str, author: Option<&str>) -> (res: String)
    ensures
        res@ == title_query(
            title@,
            match author {
                Some(a) => Some(a@),
                None => None,
            },
        ),
{
    let mut u = chars_of("https://openlibrary.org/search.json?title=");
    let t = chars_of(urlencode(title).as_str());
    append_chars(&mut u, &t);
    let tail = chars_of(
        "&fields=title,author_name,first_publish_year,isbn,publisher,cover_i,subject,language&limit=5",
    );
    append_chars(&mut u, &tail);
    match author {
        Some(a) => {
            let k = chars_of("&author=");
            append_chars(&mut u, &k);
            let e = chars_of(urlencode(a).as_str());
            append_chars(&mut u, &e);
        },
        None => {},
    }
    string_of(&u)
}

/// A character that may stand in an encoded query value: an unreserved character, `+`, `%`
/// or an upper-case hexadecimal digit.
pub open spec fn is_query_safe(c: char) -> bool {
    ||| ('a' <= c && c <= 'z')
    ||| ('A' <= c && c <= 'Z')
    ||| ('0' <= c && c <= '9')
    ||| c == '-' || c == '_' || c == '.' || c == '~' || c == '+' || c == '%'
}

/// Encoded text holds only characters that are safe in a query value: no space, `&`, `=` or
/// `#`, and nothing outside ASCII.
pub proof fn lemma_url_encode_safe(bytes: Seq<u8>)
    ensures
        forall|i: int|
            0 <= i < url_encode(bytes).len() ==> is_query_safe(#[trigger] url_encode(bytes)[i]),
    decreases bytes.len(),
{
    if bytes.len() > 0 {
        lemma_url_encode_safe(bytes.drop_last());
        let a = url_encode(bytes.drop_last());
        let b = url_byte(bytes.last());
        let x = bytes.last();
        assert forall|i: int| 0 <= i < b.len() implies is_query_safe(#[trigger] b[i]) by {
            if x != 32 && is_unreserved(x) {
                assert(b[i] == x as char);
            }
        }
        assert forall|i: int| 0 <= i < (a + b).len() implies is_query_safe(#[trigger] (a + b)[i]) by {
            if i < a.len() {
                assert((a + b)[i] == a[i]);
            } else {
                assert((a + b)[i] == b[i - a.len()]);
            }
        }
    }
}

/// Reducing text to its ASCII letters and digits goes piece by piece: the reduction of two
/// pieces put together is the two reductions put together.
pub proof fn lemma_alnum_only_concat(a: Seq<char>, b: Seq<char>)
    ensures
        ascii_alnum_only(a + b) == ascii_alnum_only(a) + ascii_alnum_only(b),
    decreases b.len(),
{
    if b.len() == 0 {
        assert(a + b =~= a);
        assert(ascii_alnum_only(a) + ascii_alnum_only(b) =~= ascii_alnum_only(a));
    } else {
        assert((a + b).drop_last() =~= a + b.drop_last());
        lemma_alnum_only_concat(a, b.drop_last());
        assert((a + b).last() == b.last());
        if is_ascii_alnum(b.last()) {
            assert(ascii_alnum_only(a) + ascii_alnum_only(b.drop_last()).push(b.last())
                =~= (ascii_alnum_only(a) + ascii_alnum_only(b.drop_last())).push(b.last()));
        }
    }
}

/// One character is kept exactly when it is an ASCII letter (`a`-`z`, `A`-`Z`) or digit
/// (`0`-`9`), and dropped otherwise.
pub proof fn lemma_alnum_only_char(c: char)
    ensures
        ascii_alnum_only(seq![c]) == if ('a' <= c && c <= 'z') || ('A' <= c && c <= 'Z') || ('0'
            <= c && c <= '9') {
            seq![c]
        } else {
            seq![]
        },
{
    let e = Seq::<char>::empty();
    assert(seq![c].drop_last() =~= e);
    assert(seq![c].last() == c);
    assert(ascii_alnum_only(e) == e);
    assert(e.push(c) =~= seq![c]);
    assert(ascii_alnum_only(seq![c]) == if is_ascii_alnum(c) {
        ascii_alnum_only(e).push(c)
    } else {
        ascii_alnum_only(e)
    });
}

/// Text made only of ASCII letters and digits is kept whole; its length is unchanged.
pub proof fn lemma_alnum_only_keeps_clean(s: Seq<char>)
    requires
        forall|i: int|
            0 <= i < s.len() ==> ('a' <= #[trigger] s[i] && s[i] <= 'z') || ('A' <= s[i] && s[i]
                <= 'Z') || ('0' <= s[i] && s[i] <= '9'),
    ensures
        ascii_alnum_only(s) == s,
    decreases s.len(),
{
    if s.len() > 0 {
        lemma_alnum_only_keeps_clean(s.drop_last());
        assert(s[s.len() - 1] == s.last());
        assert(s.drop_last().push(s.last()) =~= s);
    }
}

/// The ISBN lookup asks for every ASCII letter and digit of the ISBN, in order, the check
/// character `X` included: an ISBN written with hyphens or spaces is asked for as the same
/// ISBN without them, and one already made of letters and digits is asked for as it is.
pub proof fn lemma_isbn_query_keeps_isbn(isbn: Seq<char>, sep: char, rest: Seq<char>)
    ensures
        !(('a' <= sep && sep <= 'z') || ('A' <= sep && sep <= 'Z') || ('0' <= sep && sep <= '9'))
            ==> isbn_query(isbn + seq![sep] + rest) == isbn_query(isbn + rest),
        (forall|i: int|
            0 <= i < isbn.len() ==> ('a' <= #[trigger] isbn[i] && isbn[i] <= 'z') || ('A'
                <= isbn[i] && isbn[i] <= 'Z') || ('0' <= isbn[i] && isbn[i] <= '9'))
            ==> isbn_query(isbn) == "https://openlibrary.org/search.json?isbn="@ + isbn
            + query_tail(),
{
    lemma_alnum_only_concat(isbn + seq![sep], rest);
    lemma_alnum_only_concat(isbn, seq![sep]);
    lemma_alnum_only_concat(isbn, rest);
    lemma_alnum_only_char(sep);
    if !(('a' <= sep && sep <= 'z') || ('A' <= sep && sep <= 'Z') || ('0' <= sep && sep <= '9')) {
        assert(ascii_alnum_only(isbn) + seq![] =~= ascii_alnum_only(isbn));
    }
    if forall|i: int|
        0 <= i < isbn.len() ==> ('a' <= #[trigger] isbn[i] && isbn[i] <= 'z') || ('A' <= isbn[i]
            && isbn[i] <= 'Z') || ('0' <= isbn[i] && isbn[i] <= '9') {
        lemma_alnum_only_keeps_clean(isbn);
    }
}

} // verus!
