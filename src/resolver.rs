//! Choosing the raw version text from version-control answers.
//!
//! The resolver is a ladder of queries: is there a usable repository, then the
//! nearest tag, then the short commit id. Whoever drives it runs the query that
//! `advance` asks for and hands back what came out; the first non-empty answer
//! wins, and the sentinel `undefined` stands in when none does.
use vstd::prelude::*;
use vstd::utf8::{decode_utf8, valid_utf8};

verus! {

/// The step of the ladder whose answer is being handed in.
#[derive(Debug, Copy, Clone, PartialEq, Eq, Structural)]
pub enum Stage {
    /// A status query: does the working directory sit in a usable repository?
    Probe,
    /// The nearest tag that describes the checked-out commit.
    DescribeTags,
    /// The abbreviated id of the checked-out commit.
    ShortCommit,
}

/// What the driver does next.
#[derive(Debug)]
pub enum Next {
    /// Run this query and call `advance` with its answer.
    Query(Stage),
    /// The ladder is done: this is the raw version text.
    Resolved(String),
}

/// What the driver does next, with the resolved text as characters.
pub enum Step {
    Ask(Stage),
    Done(Seq<char>),
}

impl View for Next {
    type V = Step;

    open spec fn view(&self) -> Step {
        match self {
            Next::Query(stage) => Step::Ask(*stage),
            Next::Resolved(s) => Step::Done(s@),
        }
    }
}

/// One rung of the ladder: where the answer to the query of `stage` leads.
pub open spec fn ladder_step(stage: Stage, success: bool, stdout: Seq<u8>) -> Step {
    match stage {
        Stage::Probe => if success {
            Step::Ask(Stage::DescribeTags)
        } else {
            Step::Done(sentinel_text())
        },
        Stage::DescribeTags => match found(success, stdout) {
            Some(tag) => Step::Done(tag),
            None => Step::Ask(Stage::ShortCommit),
        },
        Stage::ShortCommit => match found(success, stdout) {
            Some(id) => Step::Done(id),
            None => Step::Done(sentinel_text()),
        },
    }
}

/// A query printed bytes that are not UTF-8 text.
#[derive(Debug, Copy, Clone, PartialEq, Eq, Structural)]
pub enum ResolveError {
    InvalidText,
}

/// What `str::trim` leaves of a text.
pub uninterp spec fn trimmed(s: Seq<char>) -> Seq<char>;

/// The text of the sentinel `undefined`.
pub open spec fn sentinel_text() -> Seq<char> {
    seq!['u', 'n', 'd', 'e', 'f', 'i', 'n', 'e', 'd']
}

/// What a query contributes: its trimmed output, when it exited successfully
/// and the output is text that is not blank.
pub open spec fn found(success: bool, stdout: Seq<u8>) -> Option<Seq<char>> {
    if success && valid_utf8(stdout) && trimmed(decode_utf8(stdout)).len() > 0 {
        Some(trimmed(decode_utf8(stdout)))
    } else {
        None
    }
}

/// Relies on `String::from_utf8`: it succeeds exactly on valid UTF-8 and then
/// holds the decoded characters.
#[verifier::external_body]
fn decode_text(bytes: Vec<u8>) -> (r: Option<String>)
    ensures
        r is Some <==> valid_utf8(bytes@),
        r matches Some(s) ==> s@ == decode_utf8(bytes@),
{
    String::from_utf8(bytes).ok()
}

/// Relies on `str::trim`: leading and trailing white space removed.
#[verifier::external_body]
fn trim(s: &str) -> (r: &str)
    ensures
        r@ == trimmed(s@),
{
    s.trim()
}

/// The sentinel `undefined`, used when no repository is at hand.
pub fn sentinel() -> (r: String)
    ensures
        r@ == sentinel_text(),
{
    let s = "undefined";
    proof {
        reveal_strlit("undefined");
    }
    s.to_owned()
}

/// Reads one query's answer: its exit status and what it printed.
/// Output that is not text is an error whatever the status; otherwise the
/// trimmed output counts when the query succeeded and it is not blank.
pub fn query_text(success: bool, stdout: Vec<u8>) -> (r: Result<Option<String>, ResolveError>)
    ensures
        r is Ok <==> valid_utf8(stdout@),
        r matches Ok(o) ==> (o is Some <==> found(success, stdout@) is Some),
        r matches Ok(Some(s)) ==> found(success, stdout@) == Some(s@),
{
    let text = match decode_text(stdout) {
        Some(t) => t,
        None => {
            return Err(ResolveError::InvalidText);
        },
    };
    let t = trim(text.as_str());
    if success && !t.is_empty() {
        Ok(Some(t.to_owned()))
    } else {
        Ok(None)
    }
}

/// The first step: probe the repository.
pub fn start() -> (r: Next)
    ensures
        r@ == Step::Ask(Stage::Probe),
{
    Next::Query(Stage::Probe)
}

/// Takes the answer to the query of `stage` and says what comes next.
///
/// - A failed probe ends the ladder with the sentinel; a good one leads to the
///   tag query (the driver records its rebuild triggers at that point).
/// - A tag that was found is the result; otherwise the commit id is asked for.
/// - A commit id that was found is the result; otherwise the sentinel is.
/// - Output of the tag or commit query that is not text is an error.
pub fn advance(stage: Stage, success: bool, stdout: Vec<u8>) -> (r: Result<Next, ResolveError>)
    ensures
        r is Ok <==> (stage == Stage::Probe || valid_utf8(stdout@)),
        r matches Ok(n) ==> n@ == ladder_step(stage, success, stdout@),
{
    match stage {
        Stage::Probe => {
            if success {
                Ok(Next::Query(Stage::DescribeTags))
            } else {
                Ok(Next::Resolved(sentinel()))
            }
        },
        Stage::DescribeTags => {
            match query_text(success, stdout) {
                Err(e) => Err(e),
                Ok(Some(tag)) => Ok(Next::Resolved(tag)),
                Ok(None) => Ok(Next::Query(Stage::ShortCommit)),
            }
        },
        Stage::ShortCommit => {
            match query_text(success, stdout) {
                Err(e) => Err(e),
                Ok(Some(id)) => Ok(Next::Resolved(id)),
                Ok(None) => Ok(Next::Resolved(sentinel())),
            }
        },
    }
}

/// The fallback ladder: without a usable repository the result is the
/// sentinel; a tag that the tag query finds is the result, whatever commits
/// follow it; without one, the commit id that the commit query finds is;
/// without both, the sentinel is.
pub proof fn lemma_ladder(
    probe_out: Seq<u8>,
    tag_ok: bool,
    tag_out: Seq<u8>,
    id_ok: bool,
    id_out: Seq<u8>,
)
    ensures
        ladder_step(Stage::Probe, false, probe_out) == Step::Done(sentinel_text()),
        ladder_step(Stage::Probe, true, probe_out) == Step::Ask(Stage::DescribeTags),
        found(tag_ok, tag_out) matches Some(tag) ==> ladder_step(
            Stage::DescribeTags,
            tag_ok,
            tag_out,
        ) == Step::Done(tag),
        found(tag_ok, tag_out) is None ==> ladder_step(Stage::DescribeTags, tag_ok, tag_out)
            == Step::Ask(Stage::ShortCommit),
        found(id_ok, id_out) matches Some(id) ==> ladder_step(Stage::ShortCommit, id_ok, id_out)
            == Step::Done(id),
        found(id_ok, id_out) is None ==> ladder_step(Stage::ShortCommit, id_ok, id_out)
            == Step::Done(sentinel_text()),
{
}

} // verus!
