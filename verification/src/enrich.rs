//! The decisions of enrichment. For each file the application reads its metadata, then asks
//! `enrich_step` what to do next: look the book up by ISBN, search by title and author, score
//! the candidates, write the chosen record, or stop with a status. The application performs
//! each action (network, scoring, writing) and hands back what came of it.

use vstd::prelude::*;
use crate::metadata::{lastname_first, to_lastname_first, EpubMetadata};
use crate::paths::{join_path, join_path_exec, parent_dir, parent_dir_exec};
use crate::provider::BookRecord;
use crate::text::{chars_of, opt_view, replace_all, replace_chars, string_of};

verus! {

/// How the enrichment of one file ended.
#[derive(Debug, PartialEq, Eq, Structural, Clone, Copy)]
pub enum EnrichStatus {
    /// Metadata written and the file renamed or moved.
    Applied,
    /// Dry run: the record would be applied.
    Preview,
    /// The best candidate scored below the threshold; the file is left untouched.
    LowConfidence,
    /// The catalogue returned nothing.
    NoMatch,
    /// The file had neither title, author nor ISBN to search on.
    NoSignals,
}

/// What happened since the last step.
pub enum EnrichEvent {
    /// Nothing yet: the file's metadata has just been read.
    Start,
    /// The ISBN lookup returned this many candidates.
    IsbnResults(usize),
    /// The title search returned this many candidates.
    SearchResults(usize),
    /// The best candidate was scored; whether its confidence reaches the threshold.
    Scored(bool),
}

/// What to do next.
pub enum EnrichAction {
    /// Look the book up by this ISBN.
    LookupIsbn(String),
    /// Search by this title, and author when there is one.
    SearchTitle(String, Option<String>),
    /// Score the candidates; `true` when they came from the ISBN lookup.
    Score(bool),
    /// Write the best candidate's metadata into the file and rename it.
    Write,
    /// Stop, with this status.
    Finish(EnrichStatus),
}

/// An author in the "Last, First" form, as a search wants it: without the comma.
pub open spec fn author_query(a: Seq<char>) -> Seq<char> {
    replace_all(a, seq![',', ' '], seq![' '])
}

/// The action is a title search for the file's title (and author, without its comma), or,
/// when the file has no title, the end with no match.
pub open spec fn search_next(local: EpubMetadata, a: EnrichAction) -> bool {
    match local.title {
        Some(t) => a matches EnrichAction::SearchTitle(qt, qa) && qt@ == t@ && opt_view(qa)
            == match local.author {
            Some(au) => Some(author_query(au@)),
            None => None,
        },
        None => a matches EnrichAction::Finish(EnrichStatus::NoMatch),
    }
}

/// The next step of enriching a file with metadata `local`: a file without title, author or
/// ISBN stops with no signals; an ISBN is looked up first; a title is searched when there is
/// no ISBN or the lookup found nothing; candidates are scored (as ISBN hits only when they came
/// from the lookup); no candidate means no match; a best candidate below the threshold stops with
/// low confidence; one that reaches it is previewed in a dry run and written otherwise.
pub open spec fn step_spec(local: EpubMetadata, event: EnrichEvent, execute: bool, a: EnrichAction) -> bool {
    match event {
        EnrichEvent::Start => if !(local.title is Some || local.author is Some) && local.isbn is None {
            a matches EnrichAction::Finish(EnrichStatus::NoSignals)
        } else {
            match local.isbn {
                Some(i) => a matches EnrichAction::LookupIsbn(q) && q@ == i@,
                None => search_next(local, a),
            }
        },
        EnrichEvent::IsbnResults(n) => if n > 0 {
            a matches EnrichAction::Score(true)
        } else {
            search_next(local, a)
        },
        EnrichEvent::SearchResults(n) => if n > 0 {
            a matches EnrichAction::Score(false)
        } else {
            a matches EnrichAction::Finish(EnrichStatus::NoMatch)
        },
        EnrichEvent::Scored(clears_gate) => if !clears_gate {
            a matches EnrichAction::Finish(EnrichStatus::LowConfidence)
        } else if !execute {
            a matches EnrichAction::Finish(EnrichStatus::Preview)
        } else {
            a matches EnrichAction::Write
        },
    }
}

fn search_action(local: &EpubMetadata) -> (a: EnrichAction)
    ensures
        search_next(*local, a),
{
    match &local.title {
        Some(t) => {
            let author = match &local.author {
                Some(au) => {
                    let pat = vec![',', ' '];
                    let rep = vec![' '];
                    assert(pat@ =~= seq![',', ' ']);
                    assert(rep@ =~= seq![' ']);
                    Some(string_of(&replace_chars(&chars_of(au.as_str()), &pat, &rep)))
                },
                None => None,
            };
            EnrichAction::SearchTitle(string_of(&chars_of(t.as_str())), author)
        },
        None => EnrichAction::Finish(EnrichStatus::NoMatch),
    }
}

/// The next step of enriching a file (see `step_spec`).
pub fn enrich_step(local: &EpubMetadata, event: EnrichEvent, execute: bool) -> (a: EnrichAction)
    ensures
        step_spec(*local, event, execute, a),
{
    match event {
        EnrichEvent::Start => {
            if !local.has_metadata() && local.isbn.is_none() {
                EnrichAction::Finish(EnrichStatus::NoSignals)
            } else {
                match &local.isbn {
                    Some(i) => EnrichAction::LookupIsbn(string_of(&chars_of(i.as_str()))),
                    None => search_action(local),
                }
            }
        },
        EnrichEvent::IsbnResults(n) => {
            if n > 0 {
                EnrichAction::Score(true)
            } else {
                search_action(local)
            }
        },
        EnrichEvent::SearchResults(n) => {
            if n > 0 {
                EnrichAction::Score(false)
            } else {
                EnrichAction::Finish(EnrichStatus::NoMatch)
            }
        },
        EnrichEvent::Scored(clears_gate) => {
            if !clears_gate {
                EnrichAction::Finish(EnrichStatus::LowConfidence)
            } else if !execute {
                EnrichAction::Finish(EnrichStatus::Preview)
            } else {
                EnrichAction::Write
            }
        },
    }
}

/// A file is written only after a scored candidate reached the threshold in a run that executes:
/// below the threshold, and in a dry run, nothing is written.
pub proof fn lemma_write_only_when_thresholded(local: EpubMetadata, event: EnrichEvent, execute: bool, a: EnrichAction)
    requires
        step_spec(local, event, execute, a),
        a is Write,
    ensures
        event matches EnrichEvent::Scored(clears) && clears,
        execute,
{
}

/// The metadata that a file will have once `rec` is applied to it: the record's fields, with
/// its first author put in "Lastname, Firstname" order.
pub open spec fn record_metadata_matches(m: EpubMetadata, rec: BookRecord, path: Seq<char>) -> bool {
    &&& m.source_path@ == path
    &&& opt_view(m.title) == opt_view(rec.title)
    &&& opt_view(m.author) == if rec.authors.len() > 0 {
        Some(lastname_first(rec.authors@[0]@))
    } else {
        None
    }
    &&& opt_view(m.publisher) == opt_view(rec.publisher)
    &&& opt_view(m.date) == opt_view(rec.date)
    &&& opt_view(m.year) == opt_view(rec.year)
    &&& opt_view(m.isbn) == opt_view(rec.isbn)
    &&& opt_view(m.language) == opt_view(rec.language)
}

fn copy_opt(o: &Option<String>) -> (r: Option<String>)
    ensures
        opt_view(r) == opt_view(*o),
{
    match o {
        Some(s) => Some(string_of(&chars_of(s.as_str()))),
        None => None,
    }
}

/// The metadata a file at `path` will have once `rec` is applied to it.
pub fn record_to_metadata(rec: &BookRecord, path: &str) -> (m: EpubMetadata)
    ensures
        record_metadata_matches(m, *rec, path@),
{
    let author = if rec.authors.len() > 0 {
        Some(to_lastname_first(rec.authors[0].as_str()))
    } else {
        None
    };
    EpubMetadata {
        source_path: string_of(&chars_of(path)),
        title: copy_opt(&rec.title),
        author,
        publisher: copy_opt(&rec.publisher),
        date: copy_opt(&rec.date),
        year: copy_opt(&rec.year),
        isbn: copy_opt(&rec.isbn),
        language: copy_opt(&rec.language),
    }
}

/// The counts reported at the end of an enrichment run.
pub struct EnrichTally {
    /// Applied, or to be applied in a dry run.
    pub done: u64,
    pub low: u64,
    pub no_match: u64,
    pub no_signals: u64,
    pub errors: u64,
}

impl EnrichTally {
    pub fn new() -> (t: Self)
        ensures
            t.done == 0 && t.low == 0 && t.no_match == 0 && t.no_signals == 0 && t.errors == 0,
    {
        EnrichTally { done: 0, low: 0, no_match: 0, no_signals: 0, errors: 0 }
    }

    /// Counts one file's status: applied and previewed files as done, the others each under
    /// its own count.
    pub fn record(&mut self, status: EnrichStatus)
        requires
            old(self).done < u64::MAX,
            old(self).low < u64::MAX,
            old(self).no_match < u64::MAX,
            old(self).no_signals < u64::MAX,
        ensures
            final(self).errors == old(self).errors,
            final(self).done == old(self).done + if status is Applied || status is Preview {
                1int
            } else {
                0int
            },
            final(self).low == old(self).low + if status is LowConfidence {
                1int
            } else {
                0int
            },
            final(self).no_match == old(self).no_match + if status is NoMatch {
                1int
            } else {
                0int
            },
            final(self).no_signals == old(self).no_signals + if status is NoSignals {
                1int
            } else {
                0int
            },
    {
        match status {
            EnrichStatus::Applied | EnrichStatus::Preview => self.done = self.done + 1,
            EnrichStatus::LowConfidence => self.low = self.low + 1,
            EnrichStatus::NoMatch => self.no_match = self.no_match + 1,
            EnrichStatus::NoSignals => self.no_signals = self.no_signals + 1,
        }
    }

    /// Counts one file that failed with an error.
    pub fn record_error(&mut self)
        requires
            old(self).errors < u64::MAX,
        ensures
            final(self).errors == old(self).errors + 1,
            final(self).done == old(self).done,
            final(self).low == old(self).low,
            final(self).no_match == old(self).no_match,
            final(self).no_signals == old(self).no_signals,
    {
        self.errors = self.errors + 1;
    }
}

/// The directory that an enriched file goes to: the output directory when one is given,
/// else the directory that holds the file (the empty path when there is none).
pub open spec fn dest_dir_for(path: Seq<char>, out_dir: Option<Seq<char>>) -> Seq<char> {
    match out_dir {
        Some(d) => d,
        None => match parent_dir(path) {
            Some(p) => p,
            None => seq![],
        },
    }
}

/// The directory that an enriched file goes to (see `dest_dir_for`).
pub fn enrich_dest_dir(path: &str, out_dir: Option<&str>) -> (res: String)
    ensures
        res@ == dest_dir_for(
            path@,
            match out_dir {
                Some(d) => Some(d@),
                None => None,
            },
        ),
{
    match out_dir {
        Some(d) => string_of(&chars_of(d)),
        None => match parent_dir_exec(&chars_of(path)) {
            Some(p) => string_of(&p),
            None => String::new(),
        },
    }
}

/// Where an enriched file is moved: its new name in the directory that it goes to.
pub fn enrich_destination(path: &str, out_dir: Option<&str>, name: &str) -> (dest: String)
    ensures
        dest@ == join_path(
            dest_dir_for(
                path@,
                match out_dir {
                    Some(d) => Some(d@),
                    None => None,
                },
            ),
            name@,
        ),
{
    let dir = enrich_dest_dir(path, out_dir);
    string_of(&join_path_exec(&chars_of(dir.as_str()), &chars_of(name)))
}

} // verus!
