//! Normalising free text for comparison. The confidence score built on it is computed with
//! floating point by the application; here stand the text normalisations it compares.

use vstd::prelude::*;
use vstd::relations::sorted_by;
use vstd::seq_lib::lemma_sorted_unique;
use crate::order::{lemma_seq_le_total_ordering, seq_le, sort_by_key, sorted_by_key};
use crate::text::{chars_of, join, join_words, split_words, string_of, views, words};

verus! {

/// The lower-case form of a string under Unicode case mapping (`str::to_lowercase`).
pub uninterp spec fn lowercase(s: Seq<char>) -> Seq<char>;

/// Whether a character is alphabetic or numeric in Unicode (`char::is_alphanumeric`).
pub uninterp spec fn alphanumeric(c: char) -> bool;

/// `str::to_lowercase`. Claimed: the result depends only on the string (it is named
/// `lowercase`); the Unicode case tables are not restated.
#[verifier::external_body]
pub(crate) fn to_lowercase(s: &str) -> (res: String)
    ensures
        res@ == lowercase(s@),
{
    s.to_lowercase()
}

/// `char::is_alphanumeric`. Claimed: the answer depends only on the character (it is named
/// `alphanumeric`); the Unicode property tables are not restated.
#[verifier::external_body]
fn is_alphanumeric(c: char) -> (b: bool)
    ensures
        b == alphanumeric(c),
{
    c.is_alphanumeric()
}

/// Free text normalised for comparison: lower-cased, every character that is not alphanumeric
/// made a space, and the words joined by single spaces.
pub open spec fn norm_text(s: Seq<char>) -> Seq<char> {
    norm_of_lower(lowercase(s))
}

/// Lower-cased text normalised for comparison: every character that is not alphanumeric made a
/// space, and the words joined by single spaces.
pub open spec fn norm_of_lower(l: Seq<char>) -> Seq<char> {
    let mapped = l.map_values(|c: char| if alphanumeric(c) { c } else { ' ' });
    join(words(mapped), seq![' '])
}

/// The words of the normalised text put in character order.
pub open spec fn sorted_tokens(s: Seq<char>) -> Seq<Seq<char>> {
    words(norm_text(s)).sort_by(|a: Seq<char>, b: Seq<char>| seq_le(a, b))
}

/// A person's name normalised so that the order of its words does not matter: the words of
/// the normalised text, sorted, joined by single spaces.
pub open spec fn norm_name_text(s: Seq<char>) -> Seq<char> {
    join(sorted_tokens(s), seq![' '])
}

/// Normalises free text for comparison (see `norm_text`).
pub fn norm(s: &str) -> (res: String)
    ensures
        res@ == norm_text(s@),
{
    let lower = to_lowercase(s);
    norm_lowered(lower.as_str())
}

/// Normalises text that is already lower-cased (see `norm_of_lower`).
pub fn norm_lowered(lower: &str) -> (res: String)
    ensures
        res@ == norm_of_lower(lower@),
{
    let cs = chars_of(lower);
    let mut mapped: Vec<char> = Vec::new();
    let mut i: usize = 0;
    while i < cs.len()
        invariant
            i <= cs.len(),
            cs@ == lower@,
            mapped@ == cs@.take(i as int).map_values(
                |c: char| if alphanumeric(c) { c } else { ' ' },
            ),
        decreases cs.len() - i,
    {
        let c = cs[i];
        if is_alphanumeric(c) {
            mapped.push(c);
        } else {
            mapped.push(' ');
        }
        i += 1;
        assert(mapped@ =~= cs@.take(i as int).map_values(
            |c: char| if alphanumeric(c) { c } else { ' ' },
        ));
    }
    assert(cs@.take(cs.len() as int) == cs@);
    let ws = split_words(&mapped);
    let sep = vec![' '];
    assert(sep@ =~= seq![' ']);
    string_of(&join_words(&ws, &sep))
}

/// Normalises a person's name so that word order does not matter (see `norm_name_text`):
/// "Austen, Jane" and "Jane Austen" give the same text.
pub fn norm_name(s: &str) -> (res: String)
    ensures
        res@ == norm_name_text(s@),
{
    let n = norm(s);
    let cs = chars_of(n.as_str());
    let toks = split_words(&cs);
    let sorted = sort_by_key(toks, false);
    proof {
        let leq = |a: Seq<char>, b: Seq<char>| seq_le(a, b);
        let w = words(norm_text(s@));
        lemma_seq_le_total_ordering();
        w.lemma_sort_by_ensures(leq);
        assert(sorted_by(views(sorted@), leq)) by {
            assert forall|i: int, j: int| 0 <= i < j < views(sorted@).len() implies #[trigger] leq(
                views(sorted@)[i],
                views(sorted@)[j],
            ) by {
                assert(sorted_by_key(views(sorted@), false));
            }
        }
        lemma_sorted_unique(views(sorted@), w.sort_by(leq), leq);
    }
    let sep = vec![' '];
    assert(sep@ =~= seq![' ']);
    string_of(&join_words(&sorted, &sep))
}

/// Names whose normalised words are the same, counted with repetition, normalise to the same
/// text, whatever the order of the words.
pub proof fn lemma_norm_name_ignores_word_order(s1: Seq<char>, s2: Seq<char>)
    requires
        words(norm_text(s1)).to_multiset() == words(norm_text(s2)).to_multiset(),
    ensures
        norm_name_text(s1) == norm_name_text(s2),
{
    let leq = |a: Seq<char>, b: Seq<char>| seq_le(a, b);
    lemma_seq_le_total_ordering();
    words(norm_text(s1)).lemma_sort_by_ensures(leq);
    words(norm_text(s2)).lemma_sort_by_ensures(leq);
    lemma_sorted_unique(sorted_tokens(s1), sorted_tokens(s2), leq);
}

} // verus!
