//! What the rename command does with each file, and how it settles a clash with an existing
//! file: ask, overwrite, skip, or apply a standing answer to all later clashes. The
//! application asks the user and hands the answer back.

use vstd::prelude::*;
use crate::matcher::{lowercase, to_lowercase};
use crate::text::{chars_of, trim, trim_chars};

verus! {

/// An answer to "overwrite?".
#[derive(Debug, PartialEq, Eq, Structural, Clone, Copy)]
pub enum ConflictChoice {
    /// Overwrite this file.
    Yes,
    /// Skip this file.
    No,
    /// Overwrite this and every later clash.
    All,
    /// Skip this and every later clash.
    SkipAll,
}

/// The standing answers given so far.
pub struct ConflictPolicy {
    pub overwrite_all: bool,
    pub skip_all: bool,
}

/// What to do with one file.
#[derive(Debug, PartialEq, Eq, Structural, Clone, Copy)]
pub enum RenameStep {
    /// The file declares neither title nor author.
    SkipNoMetadata,
    /// The file already has the name.
    SkipUnchanged,
    /// Dry run: show the rename.
    Preview,
    /// Skip the clashing file.
    Skip,
    /// Ask whether to overwrite.
    Ask,
    /// Rename.
    Rename,
}

impl ConflictPolicy {
    pub fn new() -> (p: Self)
        ensures
            !p.overwrite_all && !p.skip_all,
    {
        ConflictPolicy { overwrite_all: false, skip_all: false }
    }
}

/// The step for one file: files without metadata, and files that already have their name,
/// are skipped; a dry run previews; a clash with an existing file is skipped after "skip all",
/// renamed over after "all", and asked about otherwise; anything else is renamed.
pub open spec fn plan_spec(
    p: ConflictPolicy,
    has_metadata: bool,
    unchanged: bool,
    execute: bool,
    target_exists: bool,
) -> RenameStep {
    if !has_metadata {
        RenameStep::SkipNoMetadata
    } else if unchanged {
        RenameStep::SkipUnchanged
    } else if !execute {
        RenameStep::Preview
    } else if target_exists && p.skip_all {
        RenameStep::Skip
    } else if target_exists && !p.overwrite_all {
        RenameStep::Ask
    } else {
        RenameStep::Rename
    }
}

/// The step for one file (see `plan_spec`).
pub fn plan_rename(
    policy: &ConflictPolicy,
    has_metadata: bool,
    unchanged: bool,
    execute: bool,
    target_exists: bool,
) -> (s: RenameStep)
    ensures
        s == plan_spec(*policy, has_metadata, unchanged, execute, target_exists),
{
    if !has_metadata {
        RenameStep::SkipNoMetadata
    } else if unchanged {
        RenameStep::SkipUnchanged
    } else if !execute {
        RenameStep::Preview
    } else if target_exists && policy.skip_all {
        RenameStep::Skip
    } else if target_exists && !policy.overwrite_all {
        RenameStep::Ask
    } else {
        RenameStep::Rename
    }
}

/// Takes the user's answer to a clash: whether to rename over the existing file. "All" and
/// "skip all" become standing answers.
pub fn apply_choice(policy: &mut ConflictPolicy, choice: ConflictChoice) -> (proceed: bool)
    ensures
        proceed == (choice is Yes || choice is All),
        final(policy).overwrite_all == (old(policy).overwrite_all || choice is All),
        final(policy).skip_all == (old(policy).skip_all || choice is SkipAll),
{
    match choice {
        ConflictChoice::Yes => true,
        ConflictChoice::No => false,
        ConflictChoice::All => {
            policy.overwrite_all = true;
            true
        },
        ConflictChoice::SkipAll => {
            policy.skip_all = true;
            false
        },
    }
}

/// After "skip all", no clashing file is renamed or asked about again; after "all" (and no
/// "skip all"), no clashing file is asked about again.
pub proof fn lemma_standing_answers(
    p: ConflictPolicy,
    has_metadata: bool,
    unchanged: bool,
    execute: bool,
    target_exists: bool,
)
    ensures
        p.skip_all && target_exists ==> plan_spec(p, has_metadata, unchanged, execute, true)
            != RenameStep::Rename && plan_spec(p, has_metadata, unchanged, execute, true)
            != RenameStep::Ask,
        p.overwrite_all && !p.skip_all ==> plan_spec(
            p,
            has_metadata,
            unchanged,
            execute,
            target_exists,
        ) != RenameStep::Ask,
{
}

/// The answer that a typed reply stands for, once trimmed and lower-cased: "y" or "yes",
/// "n" or "no", "a" or "all", "s", "skip" or "skip all".
pub open spec fn choice_for(reply: Seq<char>) -> Option<ConflictChoice> {
    choice_for_lower(lowercase(trim(reply)))
}

/// The answer that a trimmed, lower-cased reply stands for.
pub open spec fn choice_for_lower(t: Seq<char>) -> Option<ConflictChoice> {
    if t == seq!['y'] || t == seq!['y', 'e', 's'] {
        Some(ConflictChoice::Yes)
    } else if t == seq!['n'] || t == seq!['n', 'o'] {
        Some(ConflictChoice::No)
    } else if t == seq!['a'] || t == seq!['a', 'l', 'l'] {
        Some(ConflictChoice::All)
    } else if t == seq!['s'] || t == seq!['s', 'k', 'i', 'p'] || t == seq![
        's',
        'k',
        'i',
        'p',
        ' ',
        'a',
        'l',
        'l',
    ] {
        Some(ConflictChoice::SkipAll)
    } else {
        None
    }
}

fn chars_eq(a: &Vec<char>, b: &Vec<char>) -> (r: bool)
    ensures
        r == (a@ == b@),
{
    if a.len() != b.len() {
        return false;
    }
    let mut i: usize = 0;
    while i < a.len()
        invariant
            i <= a.len() == b.len(),
            forall|j: int| 0 <= j < i ==> a@[j] == b@[j],
        decreases a.len() - i,
    {
        if a[i] != b[i] {
            return false;
        }
        i += 1;
    }
    assert(a@ =~= b@);
    true
}

/// The answer that a typed reply stands for, if any (see `choice_for`).
pub fn parse_choice(reply: &str) -> (res: Option<ConflictChoice>)
    ensures
        res == choice_for(reply@),
{
    let t = trim_chars(&chars_of(reply));
    let ts = crate::text::string_of(&t);
    let l = to_lowercase(ts.as_str());
    choice_for_lowered(l.as_str())
}

/// The answer that a trimmed, lower-cased reply stands for, if any (see `choice_for_lower`).
pub fn choice_for_lowered(lower: &str) -> (res: Option<ConflictChoice>)
    ensures
        res == choice_for_lower(lower@),
{
    let l = chars_of(lower);
    let y1 = vec!['y'];
    let y2 = vec!['y', 'e', 's'];
    let n1 = vec!['n'];
    let n2 = vec!['n', 'o'];
    let a1 = vec!['a'];
    let a2 = vec!['a', 'l', 'l'];
    let s1 = vec!['s'];
    let s2 = vec!['s', 'k', 'i', 'p'];
    let s3 = vec!['s', 'k', 'i', 'p', ' ', 'a', 'l', 'l'];
    assert(y1@ =~= seq!['y'] && y2@ =~= seq!['y', 'e', 's']);
    assert(n1@ =~= seq!['n'] && n2@ =~= seq!['n', 'o']);
    assert(a1@ =~= seq!['a'] && a2@ =~= seq!['a', 'l', 'l']);
    assert(s1@ =~= seq!['s'] && s2@ =~= seq!['s', 'k', 'i', 'p']);
    assert(s3@ =~= seq!['s', 'k', 'i', 'p', ' ', 'a', 'l', 'l']);
    if chars_eq(&l, &y1) || chars_eq(&l, &y2) {
        Some(ConflictChoice::Yes)
    } else if chars_eq(&l, &n1) || chars_eq(&l, &n2) {
        Some(ConflictChoice::No)
    } else if chars_eq(&l, &a1) || chars_eq(&l, &a2) {
        Some(ConflictChoice::All)
    } else if chars_eq(&l, &s1) || chars_eq(&l, &s2) || chars_eq(&l, &s3) {
        Some(ConflictChoice::SkipAll)
    } else {
        None
    }
}

/// Each answer that the prompt offers stands for its choice: once trimmed and lower-cased,
/// "y" and "yes" mean Yes, "n" and "no" mean No, "a" and "all" mean All, "s", "skip" and
/// "skip all" mean SkipAll, and every other reply stands for no choice at all.
pub proof fn lemma_offered_answers(reply: Seq<char>)
    ensures
        ({
            let t = lowercase(trim(reply));
            &&& (choice_for(reply) == Some(ConflictChoice::Yes) <==> (t == seq!['y'] || t == seq![
                'y',
                'e',
                's',
            ]))
            &&& (choice_for(reply) == Some(ConflictChoice::No) <==> (t == seq!['n'] || t == seq![
                'n',
                'o',
            ]))
            &&& (choice_for(reply) == Some(ConflictChoice::All) <==> (t == seq!['a'] || t == seq![
                'a',
                'l',
                'l',
            ]))
            &&& (choice_for(reply) == Some(ConflictChoice::SkipAll) <==> (t == seq!['s'] || t
                == seq!['s', 'k', 'i', 'p'] || t == seq!['s', 'k', 'i', 'p', ' ', 'a', 'l', 'l']))
        }),
{
    let t = lowercase(trim(reply));
    let y1 = seq!['y'];
    let y2 = seq!['y', 'e', 's'];
    let n1 = seq!['n'];
    let n2 = seq!['n', 'o'];
    let a1 = seq!['a'];
    let a2 = seq!['a', 'l', 'l'];
    let s1 = seq!['s'];
    let s2 = seq!['s', 'k', 'i', 'p'];
    let s3 = seq!['s', 'k', 'i', 'p', ' ', 'a', 'l', 'l'];
    if t == y1 || t == y2 {
        assert(t[0] == 'y');
    } else if t == n1 || t == n2 {
        assert(t[0] == 'n');
        assert(t != y1 && t != y2);
    } else if t == a1 || t == a2 {
        assert(t[0] == 'a');
        assert(t != y1 && t != y2 && t != n1 && t != n2);
    } else if t == s1 || t == s2 || t == s3 {
        assert(t[0] == 's');
        assert(t != y1 && t != y2 && t != n1 && t != n2 && t != a1 && t != a2);
    }
}

} // verus!
