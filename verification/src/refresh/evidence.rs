//! What an exported file says about a repository's prefix.
use vstd::prelude::*;
use vstd::string::*;
use crate::refresh::prefix_map::{id_under, is_id_under};
use crate::text::{is_blank, law_trimming_takes_only_the_ends, trimmed, white_space};

verus! {

/// What the exported ids say about a prefix.
#[derive(Debug, Clone, Copy, PartialEq, Eq, Structural)]
pub enum ExportPrefixEvidence {
    /// There are ids, and all of them are under the prefix.
    NonEmptyAllMatch,
    /// There are no ids.
    Empty,
    /// An id is not under the prefix.
    Mismatch,
    /// A line holds no id.
    Malformed,
}

/// What one line of an exported file is.
pub enum ExportedLine {
    /// Nothing but white space.
    Blank,
    /// An issue with this id.
    Id(Seq<char>),
    /// Something else.
    Malformed,
}

/// A line, given the id that was read from it.
pub open spec fn exported_line(text: Seq<char>, id: Option<Seq<char>>) -> ExportedLine {
    if trimmed(text).len() == 0 {
        ExportedLine::Blank
    } else {
        match id {
            Some(id) => ExportedLine::Id(id),
            None => ExportedLine::Malformed,
        }
    }
}

/// The evidence after one more line: the first line that speaks against the
/// prefix decides.
pub open spec fn evidence_with(
    evidence: ExportPrefixEvidence,
    prefix: Seq<char>,
    line: ExportedLine,
) -> ExportPrefixEvidence {
    match evidence {
        ExportPrefixEvidence::Mismatch => evidence,
        ExportPrefixEvidence::Malformed => evidence,
        _ => match line {
            ExportedLine::Blank => evidence,
            ExportedLine::Malformed => ExportPrefixEvidence::Malformed,
            ExportedLine::Id(id) => if id_under(id, prefix) {
                ExportPrefixEvidence::NonEmptyAllMatch
            } else {
                ExportPrefixEvidence::Mismatch
            },
        },
    }
}

/// The evidence of a whole file.
pub open spec fn evidence_of(prefix: Seq<char>, lines: Seq<ExportedLine>) -> ExportPrefixEvidence
    decreases lines.len(),
{
    if lines.len() == 0 {
        ExportPrefixEvidence::Empty
    } else {
        evidence_with(evidence_of(prefix, lines.drop_last()), prefix, lines.last())
    }
}

/// Reads an exported file line by line and judges a prefix by it.
#[derive(Debug)]
pub struct EvidenceScan {
    prefix: String,
    evidence: ExportPrefixEvidence,
}

impl EvidenceScan {
    /// The prefix that is judged.
    pub closed spec fn prefix(&self) -> Seq<char> {
        self.prefix@
    }

    /// The evidence of the lines read so far.
    pub closed spec fn found(&self) -> ExportPrefixEvidence {
        self.evidence
    }

    /// Starts to judge a prefix: no line has been read.
    pub fn new(prefix: &str) -> (res: EvidenceScan)
        ensures
            res.prefix() == prefix@,
            res.found() == evidence_of(prefix@, seq![]),
    {
        EvidenceScan { prefix: String::from_str(prefix), evidence: ExportPrefixEvidence::Empty }
    }

    /// Takes the next line, and the id that was read from it where it holds
    /// one.
    pub fn read(&mut self, line: &str, id: Option<&str>)
        ensures
            final(self).prefix() == old(self).prefix(),
            final(self).found() == evidence_with(
                old(self).found(),
                old(self).prefix(),
                exported_line(
                    line@,
                    match id {
                        Some(text) => Some(text@),
                        None => None,
                    },
                ),
            ),
    {
        if self.is_decided() || is_blank(line) {
            return ;
        }
        match id {
            None => {
                self.evidence = ExportPrefixEvidence::Malformed;
            },
            Some(text) => {
                if is_id_under(text, self.prefix.as_str()) {
                    self.evidence = ExportPrefixEvidence::NonEmptyAllMatch;
                } else {
                    self.evidence = ExportPrefixEvidence::Mismatch;
                }
            },
        }
    }

    /// Whether no further line can change the evidence.
    pub fn is_decided(&self) -> (res: bool)
        ensures
            res == (self.found() == ExportPrefixEvidence::Mismatch || self.found()
                == ExportPrefixEvidence::Malformed),
    {
        matches!(self.evidence, ExportPrefixEvidence::Mismatch | ExportPrefixEvidence::Malformed)
    }

    /// The evidence of the lines read so far.
    pub fn evidence(&self) -> (res: ExportPrefixEvidence)
        ensures
            res == self.found(),
    {
        self.evidence
    }
}

/// Whether a line does not speak against a prefix.
pub open spec fn line_fits(prefix: Seq<char>, line: ExportedLine) -> bool {
    match line {
        ExportedLine::Blank => true,
        ExportedLine::Id(id) => id_under(id, prefix),
        ExportedLine::Malformed => false,
    }
}

/// Whether no line speaks against a prefix.
pub open spec fn all_fit(prefix: Seq<char>, lines: Seq<ExportedLine>) -> bool {
    forall|i: int| 0 <= i < lines.len() ==> line_fits(prefix, #[trigger] lines[i])
}

/// Whether a line holds an id.
pub open spec fn any_id(lines: Seq<ExportedLine>) -> bool {
    exists|i: int| 0 <= i < lines.len() && (#[trigger] lines[i]) is Id
}

proof fn lemma_last_line(prefix: Seq<char>, lines: Seq<ExportedLine>)
    requires
        lines.len() > 0,
    ensures
        all_fit(prefix, lines) <==> all_fit(prefix, lines.drop_last()) && line_fits(
            prefix,
            lines.last(),
        ),
        any_id(lines) <==> any_id(lines.drop_last()) || lines.last() is Id,
{
    let rest = lines.drop_last();
    let n = rest.len() as int;
    assert(lines[n] == lines.last());
    if all_fit(prefix, lines) {
        assert forall|i: int| 0 <= i < n implies line_fits(prefix, #[trigger] rest[i]) by {
            assert(lines[i] == rest[i]);
        }
    }
    if all_fit(prefix, rest) && line_fits(prefix, lines.last()) {
        assert forall|i: int| 0 <= i < lines.len() implies line_fits(
            prefix,
            #[trigger] lines[i],
        ) by {
            if i < n {
                assert(lines[i] == rest[i]);
            }
        }
    }
    if any_id(lines) && !(lines.last() is Id) {
        let i = choose|i: int| 0 <= i < lines.len() && (#[trigger] lines[i]) is Id;
        assert(rest[i] is Id);
    }
    if any_id(rest) {
        let i = choose|i: int| 0 <= i < rest.len() && (#[trigger] rest[i]) is Id;
        assert(lines[i] is Id);
    }
}

/// A prefix is proved exactly by a file that holds ids and no line that speaks
/// against it; a file without ids and without such a line proves and refutes
/// nothing.
pub proof fn law_evidence_is_exact(prefix: Seq<char>, lines: Seq<ExportedLine>)
    ensures
        evidence_of(prefix, lines) == ExportPrefixEvidence::NonEmptyAllMatch <==> any_id(lines)
            && all_fit(prefix, lines),
        evidence_of(prefix, lines) == ExportPrefixEvidence::Empty <==> !any_id(lines) && all_fit(
            prefix,
            lines,
        ),
    decreases lines.len(),
{
    if lines.len() > 0 {
        law_evidence_is_exact(prefix, lines.drop_last());
        lemma_last_line(prefix, lines);
    }
}

/// Once a line has spoken against the prefix, the rest of the file is of no
/// account.
pub proof fn law_decided_evidence_stands(
    prefix: Seq<char>,
    lines: Seq<ExportedLine>,
    more: Seq<ExportedLine>,
)
    requires
        evidence_of(prefix, lines) == ExportPrefixEvidence::Mismatch || evidence_of(prefix, lines)
            == ExportPrefixEvidence::Malformed,
    ensures
        evidence_of(prefix, lines + more) == evidence_of(prefix, lines),
    decreases more.len(),
{
    if more.len() == 0 {
        assert(lines + more =~= lines);
    } else {
        law_decided_evidence_stands(prefix, lines, more.drop_last());
        assert((lines + more).drop_last() =~= lines + more.drop_last());
    }
}

/// The first line that speaks against the prefix decides how: an id that is not
/// under it refutes it, and a line without an id leaves the file unreadable.
pub proof fn law_the_first_offending_line_decides(prefix: Seq<char>, lines: Seq<ExportedLine>, i: int)
    requires
        0 <= i < lines.len(),
        forall|j: int| 0 <= j < i ==> line_fits(prefix, #[trigger] lines[j]),
    ensures
        lines[i] matches ExportedLine::Id(id) && !id_under(id, prefix) ==> evidence_of(prefix, lines)
            == ExportPrefixEvidence::Mismatch,
        lines[i] is Malformed ==> evidence_of(prefix, lines) == ExportPrefixEvidence::Malformed,
{
    let head = lines.take(i);
    let upto = lines.take(i + 1);
    let rest = lines.skip(i + 1);
    law_evidence_is_exact(prefix, head);
    assert forall|j: int| 0 <= j < head.len() implies line_fits(prefix, #[trigger] head[j]) by {
        assert(head[j] == lines[j]);
    }
    assert(all_fit(prefix, head));
    assert(upto.drop_last() =~= head);
    assert(upto.last() == lines[i]);
    assert(upto + rest =~= lines);
    if !line_fits(prefix, lines[i]) {
        law_decided_evidence_stands(prefix, upto, rest);
    }
}

/// A line counts as an issue by the id that was read from it, as unreadable
/// where none was, and not at all where it is nothing but white space.
pub proof fn law_a_line_counts_by_its_id(text: Seq<char>, id: Option<Seq<char>>)
    ensures
        (forall|i: int| 0 <= i < text.len() ==> white_space(#[trigger] text[i])) ==> exported_line(
            text,
            id,
        ) is Blank,
        (exists|i: int| 0 <= i < text.len() && !white_space(#[trigger] text[i])) ==> match id {
            Some(found) => exported_line(text, id) == ExportedLine::Id(found),
            None => exported_line(text, id) is Malformed,
        },
{
    law_trimming_takes_only_the_ends(text);
    let t = trimmed(text);
    let (a, b) = choose|a: int, b: int|
        0 <= a <= b <= text.len() && t == #[trigger] text.subrange(a, b) && (forall|k: int|
            0 <= k < text.len() && !(a <= k < b) ==> white_space(#[trigger] text[k]));
    if t.len() > 0 {
        assert(t[0] == text[a]);
    }
}

} // verus!
