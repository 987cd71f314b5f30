//! How a `bd` call can fail.
use vstd::prelude::*;
use vstd::string::*;
use crate::text::{chars_of, signed_decimal, signed_text, text_of};

verus! {

/// How many characters of the error output are shown.
pub const MAX_SHOWN_STDERR: usize = 500;

/// The way in which a call failed.
#[derive(Debug, Clone, Copy, PartialEq, Eq, Structural)]
pub enum BdErrorKind {
    /// The program could not be started.
    Spawn,
    /// The program ended with a non-zero status, or without one.
    NonZeroExit { code: Option<i32> },
    /// The output is no JSON of the expected type.
    Parse,
    /// The output is JSON of an unexpected shape.
    Shape,
}

impl BdErrorKind {
    /// The kind in words.
    pub open spec fn words(self) -> Seq<char> {
        match self {
            BdErrorKind::Spawn => "could not start"@,
            BdErrorKind::NonZeroExit { code: Some(c) } => "exit status "@ + signed_decimal(c as int),
            BdErrorKind::NonZeroExit { code: None } => "ended without an exit status"@,
            BdErrorKind::Parse => "unreadable output"@,
            BdErrorKind::Shape => "unexpected output"@,
        }
    }

    /// The kind in words.
    pub fn text(&self) -> (res: String)
        ensures
            res@ == self.words(),
    {
        match self {
            BdErrorKind::Spawn => String::from_str("could not start"),
            BdErrorKind::NonZeroExit { code } => match code {
                Some(c) => {
                    let mut out = String::from_str("exit status ");
                    let digits = signed_text(*c as i64);
                    out.append(digits.as_str());
                    out
                },
                None => String::from_str("ended without an exit status"),
            },
            BdErrorKind::Parse => String::from_str("unreadable output"),
            BdErrorKind::Shape => String::from_str("unexpected output"),
        }
    }
}

/// A failed `bd` call: the command line, what it printed, and how it failed.
#[derive(Debug, PartialEq, Eq)]
pub struct BdError {
    pub command: String,
    pub stderr: String,
    pub kind: BdErrorKind,
}

/// What a [`BdError`] holds.
pub struct BdErrorModel {
    pub command: Seq<char>,
    pub stderr: Seq<char>,
    pub kind: BdErrorKind,
}

impl View for BdError {
    type V = BdErrorModel;

    open spec fn view(&self) -> BdErrorModel {
        BdErrorModel { command: self.command@, stderr: self.stderr@, kind: self.kind }
    }
}

impl Clone for BdError {
    fn clone(&self) -> (res: BdError)
        ensures
            res@ == self@,
    {
        BdError { command: self.command.clone(), stderr: self.stderr.clone(), kind: self.kind }
    }
}

/// The failure of a call, if it failed.
pub open spec fn bd_result(r: Result<(), BdError>) -> Result<(), BdErrorModel> {
    match r {
        Ok(()) => Ok(()),
        Err(e) => Err(e@),
    }
}

/// The part of the error output that is shown.
pub open spec fn shown_stderr(s: Seq<char>) -> Seq<char> {
    if s.len() <= MAX_SHOWN_STDERR {
        s
    } else {
        s.take(MAX_SHOWN_STDERR as int) + "... (truncated)"@
    }
}

/// A failed call in words.
pub open spec fn bd_error_text(e: BdErrorModel) -> Seq<char> {
    "`"@ + e.command + "` failed ("@ + e.kind.words() + "): "@ + shown_stderr(e.stderr)
}

impl BdError {
    /// The error in words: the command line, the kind of failure, and the
    /// start of the error output.
    pub fn message(&self) -> (res: String)
        ensures
            res@ == bd_error_text(self@),
    {
        let mut out = String::from_str("`");
        out.append(self.command.as_str());
        out.append("` failed (");
        let kind = self.kind.text();
        out.append(kind.as_str());
        out.append("): ");
        let v = chars_of(self.stderr.as_str());
        if v.len() <= MAX_SHOWN_STDERR {
            out.append(self.stderr.as_str());
        } else {
            let mut shown = text_of(&v, 0, MAX_SHOWN_STDERR);
            assert(shown@ =~= self.stderr@.take(MAX_SHOWN_STDERR as int));
            shown.append("... (truncated)");
            out.append(shown.as_str());
        }
        out
    }
}

/// The words for a failed call start with the command line, and the error output
/// stands at their end: whole where it is short, and otherwise its first five
/// hundred characters and a note.
pub proof fn law_a_failed_call_is_explained(e: BdErrorModel)
    ensures
        ({
            let text = bd_error_text(e);
            let n = e.stderr.len();
            let shown = shown_stderr(e.stderr);
            &&& ("`"@ + e.command + "` failed ("@ + e.kind.words()).is_prefix_of(text)
            &&& shown.is_suffix_of(text)
            &&& n <= 500 ==> shown == e.stderr
            &&& n > 500 ==> shown.take(500) == e.stderr.take(500) && shown.skip(500)
                == "... (truncated)"@
        }),
{
    let text = bd_error_text(e);
    let head = "`"@ + e.command + "` failed ("@ + e.kind.words();
    let shown = shown_stderr(e.stderr);
    assert(text.take(head.len() as int) =~= head);
    assert(text.skip(text.len() - shown.len()) =~= shown);
    if e.stderr.len() > 500 {
        assert(shown.take(500) =~= e.stderr.take(500));
        assert(shown.skip(500) =~= "... (truncated)"@);
    }
}

/// The way in which a call failed is told apart from the others, and an exit
/// status is told as it was.
pub proof fn law_each_kind_of_failure_has_its_words(c: i32)
    ensures
        signed_decimal(c as int).is_suffix_of(BdErrorKind::NonZeroExit { code: Some(c) }.words()),
        BdErrorKind::Spawn.words() == "could not start"@,
        BdErrorKind::Parse.words() == "unreadable output"@,
        BdErrorKind::Shape.words() == "unexpected output"@,
{
    let text = BdErrorKind::NonZeroExit { code: Some(c) }.words();
    let tail = signed_decimal(c as int);
    assert(text.skip(text.len() - tail.len()) =~= tail);
}

/// The outcome of a call is told as it was: a success as one, and a failure with
/// its command line, its error output and the way in which it failed.
pub proof fn law_failed_calls_are_told_as_they_were(r: Result<(), BdError>)
    ensures
        r is Ok <==> bd_result(r) is Ok,
        r matches Err(e) ==> {
            let told = bd_result(r)->Err_0;
            told.command == e.command@ && told.stderr == e.stderr@ && told.kind == e.kind
        },
{
}

} // verus!
