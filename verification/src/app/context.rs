//! The texts that can be copied, and the escape sequence that hands a text to
//! the terminal's clipboard.
use vstd::prelude::*;
use vstd::string::*;
use vstd::utf8::*;
use crate::bd::types::{Issue, IssueModel};
use crate::path::{lossy_utf8, FsPath};
use crate::text::{
    chars_of, clean_char, control, is_control, lemma_lines_parted, lemma_one_line,
    lemma_sanitized_is_one_line, lines_of, sanitize, sanitized, text_of,
};

verus! {

// ---------------------------------------------------------------------------
// Shell words
// ---------------------------------------------------------------------------

/// The characters that no shell gives a meaning.
pub open spec fn safe_char(c: char) -> bool {
    ||| 'a' <= c <= 'z'
    ||| 'A' <= c <= 'Z'
    ||| '0' <= c <= '9'
    ||| c == '.'
    ||| c == '_'
    ||| c == '-'
    ||| c == '/'
    ||| c == '@'
    ||| c == '%'
    ||| c == '+'
    ||| c == ','
    ||| c == ':'
    ||| c == '='
}

/// A text between single quotes: a single quote itself is written by closing
/// the quotes, escaping it, and opening them again.
pub open spec fn escaped(s: Seq<char>) -> Seq<char>
    decreases s.len(),
{
    if s.len() == 0 {
        seq![]
    } else if s[0] == '\'' {
        seq!['\'', '\\', '\'', '\''] + escaped(s.drop_first())
    } else {
        seq![s[0]] + escaped(s.drop_first())
    }
}

/// Whether a text can stand in a command as it is.
pub open spec fn bare_word(s: Seq<char>) -> bool {
    s.len() > 0 && forall|i: int| 0 <= i < s.len() ==> safe_char(#[trigger] s[i])
}

/// A text as one word of a command.
pub open spec fn quoted(s: Seq<char>) -> Seq<char> {
    if bare_word(s) {
        s
    } else {
        seq!['\''] + escaped(s) + seq!['\'']
    }
}

/// What a shell reads from a word, outside quotes (`open` false) or inside
/// single quotes: none where the word is not complete or holds a character
/// with a meaning.
pub open spec fn shell_reads(w: Seq<char>, open: bool) -> Option<Seq<char>>
    decreases w.len(),
{
    if open {
        if w.len() == 0 {
            None
        } else if w[0] == '\'' {
            shell_reads(w.drop_first(), false)
        } else {
            match shell_reads(w.drop_first(), true) {
                Some(rest) => Some(seq![w[0]] + rest),
                None => None,
            }
        }
    } else if w.len() == 0 {
        Some(seq![])
    } else if w[0] == '\'' {
        shell_reads(w.drop_first(), true)
    } else if w[0] == '\\' {
        if w.len() == 1 {
            None
        } else {
            match shell_reads(w.drop_first().drop_first(), false) {
                Some(rest) => Some(seq![w[1]] + rest),
                None => None,
            }
        }
    } else if safe_char(w[0]) {
        match shell_reads(w.drop_first(), false) {
            Some(rest) => Some(seq![w[0]] + rest),
            None => None,
        }
    } else {
        None
    }
}

proof fn lemma_bare_word_reads(s: Seq<char>)
    requires
        forall|i: int| 0 <= i < s.len() ==> safe_char(#[trigger] s[i]),
    ensures
        shell_reads(s, false) == Some(s),
    decreases s.len(),
{
    if s.len() == 0 {
        assert(s =~= seq![]);
    } else {
        let rest = s.drop_first();
        assert forall|i: int| 0 <= i < rest.len() implies safe_char(#[trigger] rest[i]) by {
            assert(rest[i] == s[i + 1]);
        }
        lemma_bare_word_reads(rest);
        assert(safe_char(s[0]));
        assert(seq![s[0]] + rest =~= s);
    }
}

proof fn lemma_escaped_reads(s: Seq<char>)
    ensures
        shell_reads(escaped(s) + seq!['\''], true) == Some(s),
    decreases s.len(),
{
    let w = escaped(s) + seq!['\''];
    if s.len() == 0 {
        assert(w =~= seq!['\'']);
        assert(w.drop_first() =~= seq![]);
        assert(s =~= seq![]);
        reveal_with_fuel(shell_reads, 2);
    } else {
        let rest = s.drop_first();
        let tail = escaped(rest) + seq!['\''];
        lemma_escaped_reads(rest);
        assert(seq![s[0]] + rest =~= s);
        if s[0] == '\'' {
            assert(w =~= seq!['\'', '\\', '\'', '\''] + tail);
            let w1 = w.drop_first();
            assert(w1 =~= seq!['\\', '\'', '\''] + tail);
            let w2 = w1.drop_first().drop_first();
            assert(w2 =~= seq!['\''] + tail);
            assert(w2.drop_first() =~= tail);
            assert(shell_reads(w2, false) == shell_reads(tail, true));
            assert(shell_reads(w1, false) == Some(seq!['\''] + rest));
            assert(shell_reads(w, true) == shell_reads(w1, false));
        } else {
            assert(w =~= seq![s[0]] + tail);
            assert(w.drop_first() =~= tail);
        }
    }
}

/// A quoted text is one word that a shell reads back as that very text,
/// whatever the text holds.
pub proof fn law_a_shell_reads_back_what_was_quoted(s: Seq<char>)
    ensures
        shell_reads(quoted(s), false) == Some(s),
{
    if bare_word(s) {
        lemma_bare_word_reads(s);
    } else {
        lemma_escaped_reads(s);
        let w = quoted(s);
        assert(w.drop_first() =~= escaped(s) + seq!['\'']);
    }
}

/// The characters to which some shell gives a meaning outside quotes.
pub open spec fn shell_special(c: char) -> bool {
    ||| control(c)
    ||| " !\"#$&'()*;<>?[\\]^`{|}~"@.contains(c)
}

/// What stands in a command without quotes holds nothing that a shell would act
/// on or part a word at, and between quotes no quote stands by itself: it is
/// always the escaped one.
pub proof fn law_nothing_special_stands_bare(s: Seq<char>)
    ensures
        quoted(s) == s ==> s.len() > 0 && forall|i: int|
            0 <= i < s.len() ==> !shell_special(#[trigger] s[i]),
        (exists|i: int| 0 <= i < s.len() && shell_special(#[trigger] s[i])) || s.len() == 0
            ==> quoted(s).len() >= s.len() + 2 && quoted(s)[0] == '\'' && quoted(s).last() == '\'',
{
    reveal_strlit(" !\"#$&'()*;<>?[\\]^`{|}~");
    lemma_escaped_len(s);
    assert forall|i: int| 0 <= i < s.len() && safe_char(s[i]) implies !shell_special(
        #[trigger] s[i],
    ) by {}
}

proof fn lemma_escaped_len(s: Seq<char>)
    ensures
        escaped(s).len() >= s.len(),
    decreases s.len(),
{
    if s.len() > 0 {
        lemma_escaped_len(s.drop_first());
    }
}

/// A word of letters, digits and the marks of ordinary paths and ids needs no
/// quotes and gets none.
pub proof fn law_plain_words_are_not_quoted(s: Seq<char>)
    requires
        s.len() > 0,
        forall|i: int|
            0 <= i < s.len() ==> 'a' <= #[trigger] s[i] <= 'z' || 'A' <= s[i] <= 'Z' || '0' <= s[i]
                <= '9' || "._-/@%+,:="@.contains(s[i]),
    ensures
        quoted(s) == s,
{
    reveal_strlit("._-/@%+,:=");
    assert forall|i: int| 0 <= i < s.len() implies safe_char(#[trigger] s[i]) by {
        if "._-/@%+,:="@.contains(s[i]) {
            let k = choose|k: int| 0 <= k < 10 && "._-/@%+,:="@[k] == s[i];
            assert("._-/@%+,:="@[k] == s[i]);
        }
    }
}

fn is_safe(c: char) -> (res: bool)
    ensures
        res == safe_char(c),
{
    ('a' <= c && c <= 'z') || ('A' <= c && c <= 'Z') || ('0' <= c && c <= '9') || c == '.' || c
        == '_' || c == '-' || c == '/' || c == '@' || c == '%' || c == '+' || c == ',' || c == ':'
        || c == '='
}

/// Writes a text as one word of a command.
pub fn shell_quote(s: &str) -> (res: String)
    ensures
        res@ == quoted(s@),
{
    let v = chars_of(s);
    let mut bare = v.len() > 0;
    let mut k: usize = 0;
    while k < v.len()
        invariant
            k <= v.len(),
            v@ == s@,
            bare == (v.len() > 0 && forall|i: int| 0 <= i < k ==> safe_char(#[trigger] s@[i])),
        decreases v.len() - k,
    {
        if !is_safe(v[k]) {
            assert(!safe_char(s@[k as int]));
            bare = false;
        }
        k += 1;
    }
    if bare {
        return String::from_str(s);
    }
    let mut out = String::new();
    out.push('\'');
    let mut i: usize = 0;
    assert(s@.skip(0) =~= s@);
    assert(out@ + escaped(s@.skip(0)) =~= seq!['\''] + escaped(s@));
    while i < v.len()
        invariant
            i <= v.len(),
            v@ == s@,
            out@ + escaped(s@.skip(i as int)) == seq!['\''] + escaped(s@),
        decreases v.len() - i,
    {
        let ghost before = out@;
        let ghost rest = s@.skip(i as int);
        assert(rest.drop_first() =~= s@.skip(i + 1));
        assert(rest[0] == s@[i as int]);
        if v[i] == '\'' {
            out.push('\'');
            out.push('\\');
            out.push('\'');
            out.push('\'');
            assert(out@ + escaped(s@.skip(i + 1)) =~= before + escaped(rest));
        } else {
            out.push(v[i]);
            assert(out@ + escaped(s@.skip(i + 1)) =~= before + escaped(rest));
        }
        i += 1;
    }
    assert(s@.skip(s@.len() as int) =~= seq![]);
    assert(out@ =~= seq!['\''] + escaped(s@));
    out.push('\'');
    assert(out@ =~= quoted(s@));
    out
}

/// The command that shows an issue: in its repository, or in the hub where the
/// repository is not known or its path is no text.
pub open spec fn show_command(repo: Option<Seq<u8>>, hub: Seq<u8>, id: Seq<char>) -> Seq<char> {
    match repo {
        Some(path) if valid_utf8(path) => "cd "@ + quoted(decode_utf8(path)) + " && bd show "@
            + quoted(sanitized(id)),
        _ => "bd -C "@ + quoted(lossy_utf8(hub)) + " show "@ + quoted(sanitized(id)),
    }
}

/// Builds the command that takes the user to an issue. Every argument is
/// quoted, and the id is freed of control characters.
pub fn shell_command(repo: Option<&FsPath>, hub: &FsPath, id: &str) -> (res: String)
    ensures
        res@ == show_command(
            match repo {
                Some(p) => Some(p@),
                None => None,
            },
            hub@,
            id@,
        ),
{
    let clean = sanitize(id);
    let word = shell_quote(clean.as_str());
    let path = match repo {
        Some(p) => {
            let text = p.to_text();
            proof {
                match &text {
                    Some(t) => {
                        encode_utf8_decode_utf8(t@);
                    },
                    None => {},
                }
            }
            text
        },
        None => None,
    };
    match path {
        Some(text) => {
            let mut out = String::from_str("cd ");
            out.append(shell_quote(text.as_str()).as_str());
            out.append(" && bd show ");
            out.append(word.as_str());
            out
        },
        None => {
            let mut out = String::from_str("bd -C ");
            let place = hub.display();
            out.append(shell_quote(place.as_str()).as_str());
            out.append(" show ");
            out.append(word.as_str());
            out
        },
    }
}

/// The command goes to the repository of the issue where its path is a text:
/// its two arguments are words from which a shell reads the repository's path
/// and the issue's id. Otherwise it names the hub and the id.
pub proof fn law_the_command_names_place_and_issue(
    repo: Option<Seq<u8>>,
    hub: Seq<u8>,
    id: Seq<char>,
)
    ensures
        exists|place: Seq<char>, issue: Seq<char>|
            {
                &&& shell_reads(issue, false) == Some(sanitized(id))
                &&& repo is Some && valid_utf8(repo->Some_0) ==> shell_reads(place, false) == Some(
                    decode_utf8(repo->Some_0),
                ) && show_command(repo, hub, id) == "cd "@ + place + " && bd show "@ + issue
                &&& !(repo is Some && valid_utf8(repo->Some_0)) ==> shell_reads(place, false)
                    == Some(lossy_utf8(hub)) && show_command(repo, hub, id) == "bd -C "@ + place
                    + " show "@ + issue
                &&& #[trigger] word_pair(place, issue)
            },
{
    let place = match repo {
        Some(path) if valid_utf8(path) => decode_utf8(path),
        _ => lossy_utf8(hub),
    };
    law_a_shell_reads_back_what_was_quoted(place);
    law_a_shell_reads_back_what_was_quoted(sanitized(id));
    assert(word_pair(quoted(place), quoted(sanitized(id))));
}

/// Whether two texts are each one complete word of a command.
pub open spec fn word_pair(a: Seq<char>, b: Seq<char>) -> bool {
    shell_reads(a, false) is Some && shell_reads(b, false) is Some
}

// ---------------------------------------------------------------------------
// Blocks of text
// ---------------------------------------------------------------------------

/// What a character of a text of several lines becomes: line breaks and tabs
/// stay, and any other control character is replaced.
pub open spec fn line_char(c: char) -> char {
    if c == '\r' || c == '\n' {
        '\n'
    } else if c == '\t' {
        '\t'
    } else {
        clean_char(c)
    }
}

/// A text of several lines with its line breaks made uniform and every other
/// control character replaced.
pub open spec fn sanitized_lines(s: Seq<char>) -> Seq<char>
    decreases s.len(),
{
    if s.len() == 0 {
        seq![]
    } else if s.len() > 1 && s[0] == '\r' && s[1] == '\n' {
        sanitized_lines(s.drop_first())
    } else {
        seq![line_char(s[0])] + sanitized_lines(s.drop_first())
    }
}

/// Replaces the control characters of a text of several lines, but keeps its
/// line breaks and tabs.
pub fn sanitize_multiline(s: &str) -> (res: String)
    ensures
        res@ == sanitized_lines(s@),
{
    let v = chars_of(s);
    let mut out = String::new();
    let mut i: usize = 0;
    assert(s@.skip(0) =~= s@);
    assert(out@ + sanitized_lines(s@.skip(0)) =~= sanitized_lines(s@));
    while i < v.len()
        invariant
            i <= v.len(),
            v@ == s@,
            out@ + sanitized_lines(s@.skip(i as int)) == sanitized_lines(s@),
        decreases v.len() - i,
    {
        let ghost before = out@;
        let ghost rest = s@.skip(i as int);
        assert(rest.drop_first() =~= s@.skip(i + 1));
        assert(rest[0] == s@[i as int]);
        let c: char = v[i];
        let paired = c == '\r' && i + 1 < v.len() && v[i + 1] == '\n';
        if paired {
            assert(rest[1] == s@[i + 1]);
        } else {
            if i + 1 < v.len() {
                assert(rest[1] == s@[i + 1]);
            }
            if c == '\r' || c == '\n' {
                out.push('\n');
            } else if c == '\t' {
                out.push('\t');
            } else if is_control(c) {
                out.push('\u{FFFD}');
            } else {
                out.push(c);
            }
            assert(out@ + sanitized_lines(s@.skip(i + 1)) =~= before + sanitized_lines(rest));
        }
        i += 1;
    }
    assert(s@.skip(s@.len() as int) =~= seq![]);
    assert(out@ + sanitized_lines(s@.skip(s@.len() as int)) =~= out@);
    out
}

/// A copied text of several lines holds no control character but line breaks
/// and tabs.
pub proof fn law_multiline_text_is_inert(s: Seq<char>)
    ensures
        forall|i: int|
            0 <= i < sanitized_lines(s).len() ==> {
                let c = #[trigger] sanitized_lines(s)[i];
                control(c) ==> c == '\n' || c == '\t'
            },
    decreases s.len(),
{
    if s.len() > 0 {
        law_multiline_text_is_inert(s.drop_first());
        let rest = sanitized_lines(s.drop_first());
        let all = sanitized_lines(s);
        assert forall|i: int| 0 <= i < all.len() implies {
            let c = #[trigger] all[i];
            control(c) ==> c == '\n' || c == '\t'
        } by {
            if !(s.len() > 1 && s[0] == '\r' && s[1] == '\n') && i > 0 {
                assert(all[i] == rest[i - 1]);
            }
        }
    }
}

/// A block of text about an issue.
pub open spec fn issue_block(issue: IssueModel, repo_name: Seq<char>) -> Seq<char> {
    let head = "## "@ + sanitized(issue.title) + "\n\n- **id:** "@ + sanitized(issue.id)
        + "\n- **repo:** "@ + sanitized(repo_name) + "\n"@;
    match issue.description {
        Some(text) => head + "\n"@ + sanitized_lines(text) + "\n"@,
        None => head,
    }
}

/// Builds a block of text about an issue: its title, its id and repository,
/// and its description where it has one.
pub fn markdown_block(issue: &Issue, repo_name: &str) -> (res: String)
    ensures
        res@ == issue_block(issue@, repo_name@),
        lines_of(res@)[0] == "## "@ + sanitized(issue.title@),
        lines_of(res@)[2] == "- **id:** "@ + sanitized(issue.id@),
        lines_of(res@)[3] == "- **repo:** "@ + sanitized(repo_name@),
{
    proof {
        law_a_block_names_the_issue_line_by_line(issue@, repo_name@);
    }
    let mut block = String::from_str("## ");
    block.append(sanitize(issue.title.as_str()).as_str());
    block.append("\n\n- **id:** ");
    block.append(sanitize(issue.id.as_str()).as_str());
    block.append("\n- **repo:** ");
    block.append(sanitize(repo_name).as_str());
    block.append("\n");
    match &issue.description {
        Some(text) => {
            block.append("\n");
            block.append(sanitize_multiline(text.as_str()).as_str());
            block.append("\n");
        },
        None => {},
    }
    block
}

proof fn lemma_a_line_follows(head: Seq<char>, text: Seq<char>, rest: Seq<char>)
    requires
        !head.contains('\n'),
    ensures
        lines_of((head + sanitized(text)).push('\n') + rest) == seq![head + sanitized(text)]
            + lines_of(rest),
{
    let line = head + sanitized(text);
    lemma_sanitized_is_one_line(text);
    assert forall|i: int| 0 <= i < line.len() implies line[i] != '\n' by {
        if i < head.len() {
            assert(head.contains(head[i]));
        } else {
            assert(sanitized(text).contains(sanitized(text)[i - head.len()]));
        }
    }
    lemma_one_line(line);
    lemma_lines_parted(line, rest);
}

/// A block is read line by line: the first line is the heading with the
/// issue's title, the third names its id and the fourth its repository. A
/// description follows after an empty line.
pub proof fn law_a_block_names_the_issue_line_by_line(issue: IssueModel, repo_name: Seq<char>)
    ensures
        ({
            let lines = lines_of(issue_block(issue, repo_name));
            let none = Seq::<char>::empty();
            &&& lines.len() >= 5
            &&& lines[0] == "## "@ + sanitized(issue.title)
            &&& lines[1] == none
            &&& lines[2] == "- **id:** "@ + sanitized(issue.id)
            &&& lines[3] == "- **repo:** "@ + sanitized(repo_name)
            &&& lines.skip(4) == match issue.description {
                Some(text) => seq![none] + lines_of(sanitized_lines(text)) + seq![none],
                None => seq![none],
            }
        }),
{
    reveal_strlit("## ");
    reveal_strlit("\n\n- **id:** ");
    reveal_strlit("- **id:** ");
    reveal_strlit("\n- **repo:** ");
    reveal_strlit("- **repo:** ");
    reveal_strlit("\n");
    let none = Seq::<char>::empty();
    let tail = match issue.description {
        Some(text) => none.push('\n') + sanitized_lines(text).push('\n'),
        None => none,
    };
    let repo = ("- **repo:** "@ + sanitized(repo_name)).push('\n') + tail;
    let id = ("- **id:** "@ + sanitized(issue.id)).push('\n') + repo;
    let blank = (none + sanitized(none)).push('\n') + id;
    let block = ("## "@ + sanitized(issue.title)).push('\n') + blank;
    assert(sanitized(none) =~= none);
    assert(issue_block(issue, repo_name) =~= block);
    lemma_a_line_follows("## "@, issue.title, blank);
    lemma_a_line_follows(none, none, id);
    lemma_a_line_follows("- **id:** "@, issue.id, repo);
    lemma_a_line_follows("- **repo:** "@, repo_name, tail);
    lemma_one_line(none);
    assert(none + sanitized(none) =~= none);
    let lines = lines_of(block);
    match issue.description {
        Some(text) => {
            let body = sanitized_lines(text);
            lemma_lines_parted(none, body.push('\n'));
            lemma_lines_parted(body, none);
            assert(body.push('\n') + none =~= body.push('\n'));
            assert(lines.skip(4) =~= seq![none] + lines_of(body) + seq![none]);
        },
        None => {
            assert(lines.skip(4) =~= seq![none]);
        },
    }
}

/// Each part of an issue has its own line of the block: another title changes
/// the heading and nothing else, another id the id's line, and another
/// repository name the repository's line.
pub proof fn law_each_part_has_its_own_line(
    issue: IssueModel,
    other: IssueModel,
    name: Seq<char>,
    other_name: Seq<char>,
)
    requires
        other.description == issue.description,
    ensures
        ({
            let one = lines_of(issue_block(issue, name));
            let two = lines_of(issue_block(other, other_name));
            &&& one.len() == two.len()
            &&& forall|k: int|
                0 <= k < one.len() && one[k] != #[trigger] two[k] ==> {
                    ||| k == 0 && sanitized(issue.title) != sanitized(other.title)
                    ||| k == 2 && sanitized(issue.id) != sanitized(other.id)
                    ||| k == 3 && sanitized(name) != sanitized(other_name)
                }
            &&& sanitized(issue.title) != sanitized(other.title) ==> one[0] != two[0]
            &&& sanitized(issue.id) != sanitized(other.id) ==> one[2] != two[2]
            &&& sanitized(name) != sanitized(other_name) ==> one[3] != two[3]
        }),
{
    law_a_block_names_the_issue_line_by_line(issue, name);
    law_a_block_names_the_issue_line_by_line(other, other_name);
    let one = lines_of(issue_block(issue, name));
    let two = lines_of(issue_block(other, other_name));
    assert(one.skip(4) == two.skip(4));
    assert forall|k: int| 4 <= k < one.len() implies one[k] == #[trigger] two[k] by {
        assert(one.skip(4)[k - 4] == one[k]);
        assert(two.skip(4)[k - 4] == two[k]);
    }
    lemma_same_tail("## "@, sanitized(issue.title), sanitized(other.title));
    lemma_same_tail("- **id:** "@, sanitized(issue.id), sanitized(other.id));
    lemma_same_tail("- **repo:** "@, sanitized(name), sanitized(other_name));
}

proof fn lemma_same_tail(head: Seq<char>, a: Seq<char>, b: Seq<char>)
    ensures
        head + a == head + b ==> a == b,
{
    if head + a == head + b {
        assert((head + a).skip(head.len() as int) =~= a);
        assert((head + b).skip(head.len() as int) =~= b);
    }
}

/// Line breaks are made uniform, whatever their form: each of the three forms
/// becomes one line feed, and what stands around it is treated by itself.
/// Tabs stay, any other control character is replaced, and every other
/// character stays.
pub proof fn law_line_breaks_become_line_feeds(a: Seq<char>, b: Seq<char>, c: char)
    ensures
        !(a.len() > 0 && b.len() > 0 && a.last() == '\r' && b[0] == '\n') ==> sanitized_lines(a + b)
            == sanitized_lines(a) + sanitized_lines(b),
        sanitized_lines(seq!['\r', '\n']) == seq!['\n'],
        sanitized_lines(seq!['\r']) == seq!['\n'],
        sanitized_lines(seq!['\n']) == seq!['\n'],
        sanitized_lines(seq!['\t']) == seq!['\t'],
        !control(c) ==> sanitized_lines(seq![c]) == seq![c],
        control(c) && c != '\r' && c != '\n' && c != '\t' ==> sanitized_lines(seq![c]) == seq![
            '\u{FFFD}',
        ],
    decreases a.len(),
{
    lemma_line_of_one('\r');
    lemma_line_of_one('\n');
    lemma_line_of_one('\t');
    lemma_line_of_one(c);
    assert(seq!['\r', '\n'].drop_first() =~= seq!['\n']);
    let s = a + b;
    if a.len() == 0 {
        assert(s =~= b);
        assert(sanitized_lines(a) + sanitized_lines(b) =~= sanitized_lines(b));
    } else {
        let rest = a.drop_first();
        assert(s.drop_first() =~= rest + b);
        if !(b.len() > 0 && a.last() == '\r' && b[0] == '\n') {
            if rest.len() > 0 {
                assert(rest.last() == a.last());
                assert(s[1] == a[1]);
            } else if b.len() > 0 {
                assert(s[1] == b[0]);
            }
            law_line_breaks_become_line_feeds(rest, b, c);
            assert(sanitized_lines(s) =~= sanitized_lines(a) + sanitized_lines(b));
        }
    }
}

proof fn lemma_line_of_one(c: char)
    ensures
        sanitized_lines(seq![c]) == seq![line_char(c)],
{
    assert(seq![c].drop_first() =~= Seq::<char>::empty());
    reveal_with_fuel(sanitized_lines, 2);
    assert(sanitized_lines(seq![c]) =~= seq![line_char(c)]);
}

/// Where the first line of a text ends: before its first line feed.
pub open spec fn line_end(s: Seq<char>) -> int
    decreases s.len(),
{
    if s.len() == 0 || s[0] == '\n' {
        0
    } else {
        1 + line_end(s.drop_first())
    }
}

/// The first line of a text, without its line break.
pub open spec fn first_line(s: Seq<char>) -> Seq<char> {
    let n = line_end(s);
    if n < s.len() && n > 0 && s[n - 1] == '\r' {
        s.take(n - 1)
    } else {
        s.take(n)
    }
}

/// The summary of a text in no more than `max` characters.
pub open spec fn summary_of(s: Seq<char>, max: nat) -> Seq<char> {
    let first = first_line(s);
    if first.len() <= max {
        first
    } else if max == 0 {
        seq!['…']
    } else {
        first.take(max - 1).push('…')
    }
}

/// Where the first line of a text ends is within the text.
pub proof fn lemma_line_end(s: Seq<char>)
    ensures
        0 <= line_end(s) <= s.len(),
        line_end(s) < s.len() ==> s[line_end(s)] == '\n',
        forall|i: int| 0 <= i < line_end(s) ==> s[i] != '\n',
    decreases s.len(),
{
    if s.len() > 0 && s[0] != '\n' {
        let rest = s.drop_first();
        lemma_line_end(rest);
        assert forall|i: int| 0 <= i < line_end(s) implies s[i] != '\n' by {
            if i > 0 {
                assert(rest[i - 1] == s[i]);
            }
        }
    }
}

/// A summary of the first line of a text; one that is too long ends in an
/// ellipsis.
pub fn summarize(payload: &str, max: usize) -> (res: String)
    ensures
        res@ == summary_of(payload@, max as nat),
{
    let v = chars_of(payload);
    let mut n: usize = 0;
    assert(payload@.skip(0) =~= payload@);
    while n < v.len() && v[n] != '\n'
        invariant
            n <= v.len(),
            v@ == payload@,
            line_end(payload@) == n + line_end(payload@.skip(n as int)),
        decreases v.len() - n,
    {
        assert(payload@.skip(n as int).drop_first() =~= payload@.skip(n + 1));
        assert(payload@.skip(n as int)[0] == payload@[n as int]);
        n += 1;
    }
    if n < v.len() {
        assert(payload@.skip(n as int)[0] == payload@[n as int]);
    }
    assert(line_end(payload@) == n);
    let end: usize = if n < v.len() && n > 0 && v[n - 1] == '\r' {
        n - 1
    } else {
        n
    };
    assert(first_line(payload@) == payload@.take(end as int));
    if end <= max {
        let out = text_of(&v, 0, end);
        assert(out@ =~= payload@.take(end as int));
        return out;
    }
    let keep: usize = if max == 0 {
        0
    } else {
        max - 1
    };
    let mut out = text_of(&v, 0, keep);
    assert(out@ =~= payload@.take(end as int).take(keep as int));
    out.push('…');
    assert(out@ =~= summary_of(payload@, max as nat));
    out
}

/// A summary is one line and, where any room is given, fits it.
pub proof fn law_a_summary_fits(s: Seq<char>, max: nat)
    requires
        max > 0,
    ensures
        summary_of(s, max).len() <= max,
        !summary_of(s, max).contains('\n'),
{
    lemma_line_end(s);
    let first = first_line(s);
    let out = summary_of(s, max);
    assert forall|i: int| 0 <= i < out.len() implies out[i] != '\n' by {
        if i < first.len() && (first.len() <= max || i < max - 1) {
            assert(out[i] == s[i]);
        }
    }
}

/// A summary is the first line where that fits, and otherwise as much of its
/// beginning as fits together with an ellipsis. What follows the first line,
/// and the form of its line break, is without influence.
pub proof fn law_a_summary_starts_like_its_text(line: Seq<char>, rest: Seq<char>, max: nat)
    requires
        !line.contains('\n'),
    ensures
        line.len() <= max ==> summary_of(line, max) == line,
        line.len() > max && max > 0 ==> {
            let short = summary_of(line, max);
            short.len() == max && short.last() == '…' && short.drop_last() == line.take(max - 1)
        },
        line.len() > 0 && max == 0 ==> summary_of(line, max) == seq!['…'],
        summary_of(line + seq!['\r', '\n'] + rest, max) == summary_of(line, max),
        !(line.len() > 0 && line.last() == '\r') ==> summary_of(line + seq!['\n'] + rest, max)
            == summary_of(line, max),
{
    lemma_first_line(line, rest);
    if line.len() > max && max > 0 {
        assert(summary_of(line, max).drop_last() =~= line.take(max - 1));
    }
}

proof fn lemma_first_line(line: Seq<char>, rest: Seq<char>)
    requires
        !line.contains('\n'),
    ensures
        first_line(line) == line,
        first_line(line + seq!['\r', '\n'] + rest) == line,
        !(line.len() > 0 && line.last() == '\r') ==> first_line(line + seq!['\n'] + rest) == line,
{
    let a = line + seq!['\r', '\n'] + rest;
    let b = line + seq!['\n'] + rest;
    lemma_line_end(line);
    lemma_line_end(a);
    lemma_line_end(b);
    let n = line.len() as int;
    assert(a[n] == '\r' && a[n + 1] == '\n');
    assert(b[n] == '\n');
    if line_end(line) < n {
        assert(line.contains(line[line_end(line)]));
    }
    if line_end(a) < n {
        assert(a[line_end(a)] == line[line_end(a)]);
        assert(line.contains(line[line_end(a)]));
    }
    if line_end(b) < n {
        assert(b[line_end(b)] == line[line_end(b)]);
        assert(line.contains(line[line_end(b)]));
    }
    assert(line_end(line) == n);
    assert(line_end(a) == n + 1);
    assert(line_end(b) == n);
    assert(line.take(n) =~= line);
    assert(a.take(n) =~= line);
    assert(b.take(n) =~= line);
    if n > 0 {
        assert(b[n - 1] == line[n - 1]);
    }
}

// ---------------------------------------------------------------------------
// The clipboard
// ---------------------------------------------------------------------------

/// The symbol of a value of six bits.
pub open spec fn symbol(i: int) -> char {
    if i < 26 {
        ('A' as int + i) as char
    } else if i < 52 {
        ('a' as int + (i - 26)) as char
    } else if i < 62 {
        ('0' as int + (i - 52)) as char
    } else if i == 62 {
        '+'
    } else {
        '/'
    }
}

/// Base64 with padding: each three bytes become four symbols.
pub open spec fn base64(b: Seq<u8>) -> Seq<char>
    decreases b.len(),
{
    if b.len() == 0 {
        seq![]
    } else {
        let b0 = b[0] as int;
        let b1 = if b.len() > 1 {
            b[1] as int
        } else {
            0
        };
        let b2 = if b.len() > 2 {
            b[2] as int
        } else {
            0
        };
        seq![
            symbol(b0 / 4),
            symbol((b0 % 4) * 16 + b1 / 16),
            if b.len() > 1 {
                symbol((b1 % 16) * 4 + b2 / 64)
            } else {
                '='
            },
            if b.len() > 2 {
                symbol(b2 % 64)
            } else {
                '='
            },
        ] + base64(
            if b.len() > 3 {
                b.skip(3)
            } else {
                seq![]
            },
        )
    }
}

/// The symbols in the order of their values.
pub proof fn law_the_symbols_are_those_of_base64(i: int)
    requires
        0 <= i < 64,
    ensures
        symbol(i) == "ABCDEFGHIJKLMNOPQRSTUVWXYZabcdefghijklmnopqrstuvwxyz0123456789+/"@[i],
{
    reveal_strlit("ABCDEFGHIJKLMNOPQRSTUVWXYZabcdefghijklmnopqrstuvwxyz0123456789+/");
}

fn symbol_of(i: u8) -> (c: char)
    requires
        i < 64,
    ensures
        c == symbol(i as int),
{
    if i < 26 {
        (65 + i) as char
    } else if i < 52 {
        (97 + (i - 26)) as char
    } else if i < 62 {
        (48 + (i - 52)) as char
    } else if i == 62 {
        '+'
    } else {
        '/'
    }
}

/// Encodes bytes in base64.
pub fn base64_encode(bytes: &[u8]) -> (res: String)
    ensures
        res@ == base64(bytes@),
{
    let mut out = String::new();
    let len: usize = bytes.len();
    let mut i: usize = 0;
    assert(bytes@.skip(0) =~= bytes@);
    assert(out@ + base64(bytes@.skip(0)) =~= base64(bytes@));
    while i < len
        invariant
            i <= len,
            len == bytes@.len(),
            out@ + base64(bytes@.skip(i as int)) == base64(bytes@),
        decreases len - i,
    {
        let ghost before = out@;
        let ghost rest = bytes@.skip(i as int);
        let left: usize = len - i;
        let b0: u8 = bytes[i];
        let b1: u8 = if left > 1 {
            bytes[i + 1]
        } else {
            0
        };
        let b2: u8 = if left > 2 {
            bytes[i + 2]
        } else {
            0
        };
        assert(rest[0] == b0);
        if left > 1 {
            assert(rest[1] == b1);
        }
        if left > 2 {
            assert(rest[2] == b2);
        }
        out.push(symbol_of(b0 / 4));
        out.push(symbol_of((b0 % 4) * 16 + b1 / 16));
        if left > 1 {
            out.push(symbol_of((b1 % 16) * 4 + b2 / 64));
        } else {
            out.push('=');
        }
        if left > 2 {
            out.push(symbol_of(b2 % 64));
        } else {
            out.push('=');
        }
        let next: usize = if left > 3 {
            i + 3
        } else {
            len
        };
        assert(bytes@.skip(next as int) =~= if rest.len() > 3 {
            rest.skip(3)
        } else {
            seq![]
        });
        assert(out@ + base64(bytes@.skip(next as int)) =~= before + base64(rest));
        i = next;
    }
    assert(bytes@.skip(len as int) =~= seq![]);
    assert(out@ + base64(bytes@.skip(len as int)) =~= out@);
    out
}

/// The escape sequence that sets the clipboard to a text.
pub open spec fn clipboard_sequence(payload: Seq<char>) -> Seq<char> {
    "\x1b]52;c;"@ + base64(encode_utf8(payload)) + "\x07"@
}

/// Frames a text as the escape sequence that sets the clipboard.
pub fn osc52(payload: &str) -> (res: String)
    ensures
        res@ == clipboard_sequence(payload@),
{
    let mut out = String::from_str("\x1b]52;c;");
    let encoded = base64_encode(payload.as_bytes());
    out.append(encoded.as_str());
    out.append("\x07");
    out
}

/// The value of a symbol.
pub open spec fn symbol_value(c: char) -> int {
    let n = c as int;
    if 'A' as int <= n <= 'Z' as int {
        n - 'A' as int
    } else if 'a' as int <= n <= 'z' as int {
        n - 'a' as int + 26
    } else if '0' as int <= n <= '9' as int {
        n - '0' as int + 52
    } else if c == '+' {
        62
    } else {
        63
    }
}

/// What a terminal decodes from base64.
pub open spec fn base64_decoded(s: Seq<char>) -> Seq<u8>
    decreases s.len(),
{
    if s.len() < 4 {
        seq![]
    } else {
        let v0 = symbol_value(s[0]);
        let v1 = symbol_value(s[1]);
        let v2 = symbol_value(s[2]);
        let v3 = symbol_value(s[3]);
        let first = seq![(v0 * 4 + v1 / 16) as u8];
        let second = if s[2] == '=' {
            first
        } else {
            first.push(((v1 % 16) * 16 + v2 / 4) as u8)
        };
        let third = if s[3] == '=' {
            second
        } else {
            second.push(((v2 % 4) * 64 + v3) as u8)
        };
        third + base64_decoded(s.skip(4))
    }
}

proof fn lemma_symbol(i: int)
    requires
        0 <= i < 64,
    ensures
        symbol_value(symbol(i)) == i,
        symbol(i) != '=',
{
}

/// Decoding gives back the bytes that were encoded.
pub proof fn law_base64_decodes_back(b: Seq<u8>)
    ensures
        base64_decoded(base64(b)) == b,
        base64(b).len() == (b.len() + 2) / 3 * 4,
    decreases b.len(),
{
    if b.len() > 0 {
        let b0 = b[0] as int;
        let b1 = if b.len() > 1 {
            b[1] as int
        } else {
            0
        };
        let b2 = if b.len() > 2 {
            b[2] as int
        } else {
            0
        };
        let rest = if b.len() > 3 {
            b.skip(3)
        } else {
            seq![]
        };
        law_base64_decodes_back(rest);
        let s = base64(b);
        assert(s.skip(4) =~= base64(rest));
        lemma_symbol(b0 / 4);
        lemma_symbol((b0 % 4) * 16 + b1 / 16);
        lemma_symbol((b1 % 16) * 4 + b2 / 64);
        lemma_symbol(b2 % 64);
        let v0 = b0 / 4;
        let v1 = (b0 % 4) * 16 + b1 / 16;
        let v2 = (b1 % 16) * 4 + b2 / 64;
        let v3 = b2 % 64;
        assert(v0 * 4 + v1 / 16 == b0);
        if b.len() > 1 {
            assert((v1 % 16) * 16 + v2 / 4 == b1);
        }
        if b.len() > 2 {
            assert((v2 % 4) * 64 + v3 == b2);
        }
        let head = b.take(
            if b.len() > 3 {
                3
            } else {
                b.len() as int
            },
        );
        assert(head + rest =~= b);
        assert(base64_decoded(s) =~= head + base64_decoded(base64(rest)));
    } else {
        assert(b =~= seq![]);
    }
}

/// The clipboard receives the text itself: between the sequence's fixed start
/// and its end stands base64 from which a terminal decodes the text's bytes.
pub proof fn law_the_clipboard_receives_the_text(payload: Seq<char>)
    ensures
        ({
            let all = clipboard_sequence(payload);
            &&& all.len() >= 8
            &&& all.take(7) == seq!['\x1b', ']', '5', '2', ';', 'c', ';']
            &&& all.last() == '\x07'
            &&& base64_decoded(all.subrange(7, all.len() - 1)) == encode_utf8(payload)
        }),
{
    reveal_strlit("\x1b]52;c;");
    reveal_strlit("\x07");
    let body = base64(encode_utf8(payload));
    let all = clipboard_sequence(payload);
    law_base64_decodes_back(encode_utf8(payload));
    assert(all.take(7) =~= seq!['\x1b', ']', '5', '2', ';', 'c', ';']);
    assert(all.subrange(7, all.len() - 1) =~= body);
}

} // verus!
