//! What the ready screen shows: a title, the list, and a status line. Drawing
//! it is left to the terminal.
use vstd::prelude::*;
use vstd::string::*;
use crate::app::list::visible_rows;
use crate::app::messages::ViewMode;
use crate::app::model::{app_ok, AppModel};
use crate::app::state::App;
use crate::cli::{format_row_body, row_body};
use crate::snapshot::{Row, RowModel};
use crate::text::{
    chars_of, decimal, decimal_text, sanitize, sanitized, same_text,
};
use crate::time::{Timestamp, NANOS_PER_SEC};

verus! {

/// Shown where there are no rows at all.
pub const EMPTY_HINT: &'static str = "no repos configured — run: fbd repos discover ~/dev";

/// Shown where the filters hide every row.
pub const NO_MATCH_HINT: &'static str = "no issues match the current filters — press f/p to change";

/// The title line.
pub const KEY_HINTS: &'static str = "fbd · q quit · r refresh · / search · f repo · p prio · j/k move";

/// How a line of the list looks.
#[derive(Debug, Clone, Copy, PartialEq, Eq, Structural)]
pub enum LineStyle {
    Plain,
    /// The name of a repository.
    Header,
    /// The selected row.
    Selected,
}

/// A line of the list.
#[derive(Debug, PartialEq, Eq)]
pub struct ScreenLine {
    pub text: String,
    pub style: LineStyle,
}

/// What a [`ScreenLine`] holds.
pub struct LineModel {
    pub text: Seq<char>,
    pub style: LineStyle,
}

impl View for ScreenLine {
    type V = LineModel;

    open spec fn view(&self) -> LineModel {
        LineModel { text: self.text@, style: self.style }
    }
}

/// What a list of lines holds.
pub open spec fn lines_view(v: Seq<ScreenLine>) -> Seq<LineModel> {
    v.map_values(|l: ScreenLine| l@)
}

/// The lines of the list and how many of them are scrolled off the top.
#[derive(Debug, PartialEq, Eq)]
pub struct ListScreen {
    pub lines: Vec<ScreenLine>,
    pub offset: u16,
}

/// A text with blanks behind it up to a width.
pub open spec fn padded(text: Seq<char>, width: nat) -> Seq<char>
    decreases width - text.len(),
{
    if text.len() >= width {
        text
    } else {
        padded(text.push(' '), width)
    }
}

/// The line of a repository's name.
pub open spec fn header_line(name: Seq<char>) -> LineModel {
    LineModel { text: "▸ "@ + sanitized(name), style: LineStyle::Header }
}

/// The line of a row; the selected one fills the width.
pub open spec fn body_line(row: RowModel, chosen: bool, width: nat) -> LineModel {
    let text = "  "@ + row_body(row);
    if chosen {
        LineModel { text: padded(text, width), style: LineStyle::Selected }
    } else {
        LineModel { text, style: LineStyle::Plain }
    }
}

/// The lines of some rows, in their order: a header wherever the repository
/// differs from that of the row above.
pub open spec fn grouped_lines(rows: Seq<RowModel>, selection: int, width: nat) -> Seq<LineModel>
    decreases rows.len(),
{
    if rows.len() == 0 {
        seq![]
    } else {
        let n = rows.len() - 1;
        let before = grouped_lines(rows.drop_last(), selection, width);
        let headed = if n == 0 || rows[n - 1].repo_name != rows[n].repo_name {
            before.push(header_line(rows[n].repo_name))
        } else {
            before
        };
        headed.push(body_line(rows[n], selection == n, width))
    }
}

/// On which line a row of some rows stands.
pub open spec fn line_of_row(rows: Seq<RowModel>, at: int, width: nat) -> int {
    grouped_lines(rows.take(at + 1), at, width).len() - 1
}

/// How many lines to scroll so that the selected line is the last one shown,
/// or none where it is shown anyway.
pub open spec fn scroll_needed(selected: Option<int>, height: int, total: int) -> int {
    match selected {
        Some(line) if height > 0 && total > height && line >= height => {
            let offset = line - height + 1;
            if offset > u16::MAX {
                u16::MAX as int
            } else {
                offset
            }
        },
        _ => 0,
    }
}

/// The lines of the list area.
pub open spec fn list_lines(m: AppModel, width: nat) -> Seq<LineModel> {
    let rows = visible_rows(m.list.rows, m.filter);
    if m.view == ViewMode::Loading && m.stale {
        seq![LineModel { text: "Loading…"@, style: LineStyle::Plain }]
    } else if rows.len() == 0 {
        seq![
            LineModel {
                text: if m.list.rows.len() == 0 {
                    EMPTY_HINT@
                } else {
                    NO_MATCH_HINT@
                },
                style: LineStyle::Plain,
            },
        ]
    } else {
        grouped_lines(rows, m.list.selection, width)
    }
}

/// How many lines of the list area are scrolled off the top.
pub open spec fn list_offset(m: AppModel, width: nat, height: nat) -> int {
    let rows = visible_rows(m.list.rows, m.filter);
    if (m.view == ViewMode::Loading && m.stale) || rows.len() == 0 {
        0
    } else {
        scroll_needed(
            Some(line_of_row(rows, m.list.selection, width)),
            height as int,
            grouped_lines(rows, m.list.selection, width).len() as int,
        )
    }
}

/// Pads a text with blanks up to a width.
fn pad(text: String, width: usize) -> (res: String)
    ensures
        res@ == padded(text@, width as nat),
{
    let mut out = text;
    let mut len: usize = chars_of(out.as_str()).len();
    while len < width
        invariant
            len == out@.len(),
            padded(out@, width as nat) == padded(text@, width as nat),
        decreases width - len,
    {
        out.push(' ');
        len += 1;
    }
    out
}

/// The vertical scroll offset that keeps the selected line visible.
pub fn scroll_offset(selected: Option<usize>, height: usize, total: usize) -> (res: u16)
    ensures
        res == scroll_needed(
            match selected {
                Some(line) => Some(line as int),
                None => None,
            },
            height as int,
            total as int,
        ),
{
    match selected {
        Some(line) => if height > 0 && total > height && line >= height {
            let offset: usize = line - height + 1;
            if offset > 65535 {
                65535
            } else {
                offset as u16
            }
        } else {
            0
        },
        None => 0,
    }
}

proof fn lemma_grouped_selection(rows: Seq<RowModel>, a: int, b: int, width: nat)
    ensures
        grouped_lines(rows, a, width).len() == grouped_lines(rows, b, width).len(),
    decreases rows.len(),
{
    if rows.len() > 0 {
        lemma_grouped_selection(rows.drop_last(), a, b, width);
    }
}

/// Computes the list area.
pub fn list_screen(app: &App, width: usize, height: usize) -> (res: ListScreen)
    requires
        app.wf(),
    ensures
        lines_view(res.lines@) == list_lines(app@, width as nat),
        res.offset == list_offset(app@, width as nat, height as nat),
{
    proof {
        app.lemma_wf();
    }
    let mut lines: Vec<ScreenLine> = Vec::new();
    if app.view_mode() == ViewMode::Loading && app.is_stale() {
        lines.push(ScreenLine { text: String::from_str("Loading…"), style: LineStyle::Plain });
        assert(lines_view(lines@) =~= list_lines(app@, width as nat));
        return ListScreen { lines, offset: 0 };
    }
    let rows = app.filtered_rows();
    let ghost shown = visible_rows(app@.list.rows, app@.filter);
    assert(rows@.map_values(|r: &Row| r@) == shown);
    assert(rows@.len() == shown.len());
    if rows.len() == 0 {
        let all = app.rows();
        assert(all@.len() == app@.list.rows.len()) by {
            assert(crate::snapshot::rows_view(all@).len() == all@.len());
        }
        let hint = if all.len() == 0 {
            EMPTY_HINT
        } else {
            NO_MATCH_HINT
        };
        lines.push(ScreenLine { text: String::from_str(hint), style: LineStyle::Plain });
        assert(lines_view(lines@) =~= list_lines(app@, width as nat));
        return ListScreen { lines, offset: 0 };
    }
    let selection = app.selection();
    let ghost at = app@.list.selection;
    let mut selected_line: Option<usize> = None;
    let mut i: usize = 0;
    assert(shown.take(0) =~= Seq::<RowModel>::empty());
    assert(lines_view(lines@) =~= grouped_lines(shown.take(0), at, width as nat));
    while i < rows.len()
        invariant
            i <= rows@.len(),
            rows@.len() == shown.len(),
            rows@.map_values(|r: &Row| r@) == shown,
            0 <= at < shown.len(),
            selection matches Some(s) && s == at,
            lines_view(lines@) == grouped_lines(shown.take(i as int), at, width as nat),
            match selected_line {
                Some(line) => at < i && line == line_of_row(shown, at, width as nat),
                None => at >= i,
            },
        decreases rows@.len() - i,
    {
        let row = rows[i];
        let ghost before = lines@;
        let ghost now = shown.take(i + 1);
        proof {
            assert(rows@.map_values(|r: &Row| r@)[i as int] == row@);
            assert(now.drop_last() =~= shown.take(i as int));
            assert(now[i as int] == row@);
            if i > 0 {
                assert(rows@.map_values(|r: &Row| r@)[i - 1] == rows@[i - 1]@);
                assert(now[i - 1] == rows@[i - 1]@);
            }
        }
        let differs = i == 0 || !same_text(
            rows[i - 1].repo_name.as_str(),
            row.repo_name.as_str(),
        );
        if differs {
            let mut text = String::from_str("▸ ");
            text.append(sanitize(row.repo_name.as_str()).as_str());
            lines.push(ScreenLine { text, style: LineStyle::Header });
            assert(lines_view(lines@) =~= lines_view(before).push(header_line(row@.repo_name)));
        }
        let ghost headed = lines@;
        let mut text = String::from_str("  ");
        text.append(format_row_body(row).as_str());
        let chosen = match selection {
            Some(s) => s == i,
            None => false,
        };
        if chosen {
            selected_line = Some(lines.len());
            lines.push(ScreenLine { text: pad(text, width), style: LineStyle::Selected });
        } else {
            lines.push(ScreenLine { text, style: LineStyle::Plain });
        }
        assert(lines_view(lines@) =~= lines_view(headed).push(
            body_line(row@, at == i, width as nat),
        ));
        assert(lines_view(lines@) == grouped_lines(now, at, width as nat));
        proof {
            if chosen {
                assert(headed.len() == lines@.len() - 1);
                assert(lines_view(lines@).len() == lines@.len());
                assert(now =~= shown.take(at + 1));
            }
        }
        i += 1;
    }
    assert(shown.take(shown.len() as int) =~= shown);
    let total: usize = lines.len();
    assert(lines_view(lines@).len() == total);
    let offset: u16 = scroll_offset(selected_line, height, total);
    ListScreen { lines, offset }
}

/// Whole seconds from one time to a later one; none where it is not later.
pub open spec fn seconds_between(now: int, fetched: int) -> int {
    if now >= fetched {
        (now - fetched) / (NANOS_PER_SEC as int)
    } else {
        0
    }
}

/// The age of a snapshot in words.
pub open spec fn age_text(now: int, fetched: int) -> Seq<char> {
    let secs = seconds_between(now, fetched);
    if secs < 5 {
        "just now"@
    } else if secs < 60 {
        decimal(secs as nat) + "s ago"@
    } else if secs < 3600 {
        decimal((secs / 60) as nat) + "m ago"@
    } else if secs < 86_400 {
        decimal((secs / 3600) as nat) + "h ago"@
    } else {
        decimal((secs / 86_400) as nat) + "d ago"@
    }
}

fn with_unit(n: u64, unit: &str) -> (res: String)
    ensures
        res@ == decimal(n as nat) + unit@,
{
    let mut out = decimal_text(n);
    out.append(unit);
    out
}

/// The age of a snapshot in words; a snapshot from the future is new.
pub fn format_age(now: Timestamp, fetched: Timestamp) -> (res: String)
    ensures
        res@ == age_text(now@, fetched@),
{
    let secs: u64 = now.seconds_since(&fetched);
    if secs < 5 {
        String::from_str("just now")
    } else if secs < 60 {
        with_unit(secs, "s ago")
    } else if secs < 3600 {
        with_unit(secs / 60, "m ago")
    } else if secs < 86_400 {
        with_unit(secs / 3600, "h ago")
    } else {
        with_unit(secs / 86_400, "d ago")
    }
}

/// The status line.
pub open spec fn status_text(m: AppModel, now: int) -> Seq<char> {
    let age = match m.fetched_at {
        Some(t) => "refreshed "@ + age_text(now, t),
        None => if m.stale {
            "refreshing…"@
        } else {
            "never refreshed"@
        },
    };
    let running = if m.stale && m.fetched_at is Some {
        age + " · refreshing…"@
    } else {
        age
    };
    let n = m.warnings.len();
    if n == 0 {
        running
    } else {
        running + " · "@ + decimal(n) + (if n == 1 {
            " repo failed (see doctor)"@
        } else {
            " repos failed (see doctor)"@
        })
    }
}

/// The status line: the age of the data, whether a refresh is on its way, and
/// how many warnings there are.
pub fn status_line(app: &App, now: Timestamp) -> (res: String)
    ensures
        res@ == status_text(app@, now@),
{
    let mut status = match app.fetched_at() {
        Some(t) => {
            let mut out = String::from_str("refreshed ");
            out.append(format_age(now, t).as_str());
            out
        },
        None => if app.is_stale() {
            String::from_str("refreshing…")
        } else {
            String::from_str("never refreshed")
        },
    };
    if app.is_stale() && app.fetched_at().is_some() {
        status.append(" · refreshing…");
    }
    let warnings = app.status_warnings();
    let n: usize = warnings.len();
    assert(app@.warnings.len() == n);
    if n > 0 {
        status.append(" · ");
        status.append(decimal_text(n as u64).as_str());
        if n == 1 {
            status.append(" repo failed (see doctor)");
        } else {
            status.append(" repos failed (see doctor)");
        }
    }
    status
}

/// A row always stands on a line of its own kind below all rows above it: the
/// order on the screen is the order of the list.
pub proof fn law_screen_order_is_list_order(rows: Seq<RowModel>, a: int, b: int, width: nat)
    requires
        0 <= a < b < rows.len(),
    ensures
        line_of_row(rows, a, width) < line_of_row(rows, b, width),
    decreases b - a,
{
    let c = b - 1;
    assert(rows.take(b + 1).drop_last() =~= rows.take(b));
    lemma_grouped_selection(rows.take(b), b, c, width);
    if a < c {
        law_screen_order_is_list_order(rows, a, c, width);
    }
}

/// With a positive height and more lines than it, the selected line is on the
/// screen after scrolling.
pub proof fn law_the_selected_line_is_on_screen(line: int, height: int, total: int)
    requires
        0 <= line < total,
        0 < height,
        line - height < u16::MAX,
    ensures
        ({
            let offset = scroll_needed(Some(line), height, total);
            offset <= line < offset + height
        }),
{
}

/// Padding adds blanks behind a text until it fills the width, and changes
/// nothing where it already does.
pub proof fn law_padding_fills_the_width(text: Seq<char>, width: nat)
    ensures
        padded(text, width).len() == if text.len() < width {
            width
        } else {
            text.len()
        },
        text.is_prefix_of(padded(text, width)),
        forall|i: int|
            text.len() <= i < padded(text, width).len() ==> #[trigger] padded(text, width)[i] == ' ',
    decreases width - text.len(),
{
    let all = padded(text, width);
    if text.len() < width {
        let longer = text.push(' ');
        law_padding_fills_the_width(longer, width);
        assert(longer =~= all.take(longer.len() as int));
        assert(text =~= all.take(text.len() as int)) by {
            assert forall|i: int| 0 <= i < text.len() implies text[i] == all.take(
                text.len() as int,
            )[i] by {
                assert(longer[i] == all.take(longer.len() as int)[i]);
            }
        }
        assert forall|i: int| text.len() <= i < all.len() implies #[trigger] all[i] == ' ' by {
            if i == text.len() {
                assert(longer[i] == all.take(longer.len() as int)[i]);
            }
        }
    } else {
        assert(all.take(text.len() as int) =~= text);
    }
}

/// Scrolling is never further than needed: where the selected line fits without
/// it, or nothing is selected, there is none, and otherwise the selected line is
/// the last one on the screen, as far as lines can be counted.
pub proof fn law_scrolling_is_as_little_as_possible(
    line: int,
    far: int,
    height: int,
    total: int,
)
    requires
        0 <= line < total,
        0 < height,
        line - height < u16::MAX,
    ensures
        line < height ==> scroll_needed(Some(line), height, total) == 0,
        line >= height ==> scroll_needed(Some(line), height, total) + height == line + 1,
        scroll_needed(None, height, total) == 0,
        scroll_needed(Some(line), 0, total) == 0,
        far - height >= u16::MAX && far < total ==> scroll_needed(Some(far), height, total)
            == u16::MAX,
{
}

proof fn lemma_grouped_prefix(rows: Seq<RowModel>, selection: int, width: nat, k: int)
    requires
        0 <= k <= rows.len(),
    ensures
        grouped_lines(rows.take(k), selection, width).is_prefix_of(
            grouped_lines(rows, selection, width),
        ),
    decreases rows.len(),
{
    let all = grouped_lines(rows, selection, width);
    let part = grouped_lines(rows.take(k), selection, width);
    if k == rows.len() {
        assert(rows.take(k) =~= rows);
        assert(part =~= all.take(part.len() as int));
    } else {
        let rest = rows.drop_last();
        assert(rest.take(k) =~= rows.take(k));
        lemma_grouped_prefix(rest, selection, width, k);
        let before = grouped_lines(rest, selection, width);
        assert(part =~= before.take(part.len() as int));
        assert(part =~= all.take(part.len() as int));
    }
}

/// Every row has its line, which shows its priority, id and title behind two
/// blanks. The selected row alone is marked, and its line fills the width.
/// Directly above a row stands the row before it where both are of the same
/// repository, and otherwise the name of its own repository.
pub proof fn law_every_row_has_its_line(rows: Seq<RowModel>, selection: int, width: nat, k: int)
    requires
        0 <= k < rows.len(),
    ensures
        ({
            let lines = grouped_lines(rows, selection, width);
            let at = line_of_row(rows, k, width);
            let above = if k == 0 {
                -1
            } else {
                line_of_row(rows, k - 1, width)
            };
            let same = k > 0 && rows[k - 1].repo_name == rows[k].repo_name;
            &&& 0 <= at < lines.len()
            &&& ("  "@ + row_body(rows[k])).is_prefix_of(lines[at].text)
            &&& k == selection ==> lines[at].style == LineStyle::Selected && lines[at].text.len()
                >= width
            &&& k != selection ==> lines[at].style == LineStyle::Plain && lines[at].text == "  "@
                + row_body(rows[k])
            &&& same ==> at == above + 1
            &&& !same ==> at == above + 2 && lines[at - 1].style == LineStyle::Header
                && sanitized(rows[k].repo_name).is_suffix_of(lines[at - 1].text)
            &&& k == rows.len() - 1 ==> at == lines.len() - 1
        }),
{
    let part = rows.take(k + 1);
    lemma_grouped_prefix(rows, selection, width, k + 1);
    lemma_grouped_selection(part, selection, k, width);
    assert(part.drop_last() =~= rows.take(k));
    lemma_grouped_selection(rows.take(k), selection, k, width);
    let lines = grouped_lines(rows, selection, width);
    let upto = grouped_lines(part, selection, width);
    let at = line_of_row(rows, k, width);
    assert(upto =~= lines.take(upto.len() as int));
    assert(at == upto.len() - 1);
    assert(lines[at] == upto[at]);
    let text = "  "@ + row_body(rows[k]);
    law_padding_fills_the_width(text, width);
    assert(text.take(text.len() as int) =~= text);
    let before = grouped_lines(rows.take(k), selection, width);
    if k > 0 {
        lemma_grouped_selection(rows.take(k), selection, k - 1, width);
        assert(line_of_row(rows, k - 1, width) == before.len() - 1);
        assert(part[k - 1] == rows[k - 1]);
    } else {
        assert(before.len() == 0);
    }
    assert(part[k] == rows[k]);
    if !(k > 0 && rows[k - 1].repo_name == rows[k].repo_name) {
        assert(lines[at - 1] == upto[at - 1]);
        assert(upto[at - 1] == header_line(rows[k].repo_name));
        let name = sanitized(rows[k].repo_name);
        let head = "▸ "@ + name;
        assert(head.skip(head.len() - name.len()) =~= name);
    }
    if k == rows.len() - 1 {
        assert(part =~= rows);
    }
}

/// What stands in the list area: a word while the first data is loading, a hint
/// where there is no row to show, which tells an empty roster from a filter that
/// hides every row, and otherwise the rows.
pub proof fn law_the_list_area_tells_why_it_is_empty(m: AppModel, width: nat, height: nat)
    ensures
        ({
            let lines = list_lines(m, width);
            let shown = visible_rows(m.list.rows, m.filter).len();
            let loading = m.view == ViewMode::Loading && m.stale;
            &&& loading ==> lines.len() == 1 && lines[0].text == "Loading…"@
            &&& !loading && m.list.rows.len() == 0 ==> lines.len() == 1 && lines[0].text
                == EMPTY_HINT@
            &&& !loading && m.list.rows.len() > 0 && shown == 0 ==> lines.len() == 1
                && lines[0].text == NO_MATCH_HINT@
            &&& !loading && shown > 0 ==> lines.len() > shown
            &&& loading || shown == 0 ==> list_offset(m, width, height) == 0
        }),
{
    let rows = visible_rows(m.list.rows, m.filter);
    if m.list.rows.len() == 0 {
        assert(rows.len() == 0);
    }
    if rows.len() > 0 {
        lemma_grouped_len(rows, m.list.selection, width);
    }
}

proof fn lemma_grouped_len(rows: Seq<RowModel>, selection: int, width: nat)
    ensures
        rows.len() > 0 ==> grouped_lines(rows, selection, width).len() > rows.len(),
    decreases rows.len(),
{
    if rows.len() > 0 {
        lemma_grouped_len(rows.drop_last(), selection, width);
    }
}

/// The age is given in the largest unit of which it holds at least one, as the
/// number of whole units; a few seconds, and a time in the future, are just now.
pub proof fn law_an_age_is_in_its_largest_unit(now: int, fetched: int, n: nat)
    ensures
        ({
            let second = 1_000_000_000int;
            let age = now - fetched;
            let text = age_text(now, fetched);
            &&& age < 5 * second ==> text == "just now"@
            &&& 5 <= n < 60 && n * second <= age < (n + 1) * second ==> text == decimal(n)
                + "s ago"@
            &&& 1 <= n < 60 && n * 60 * second <= age < (n + 1) * 60 * second ==> text == decimal(n)
                + "m ago"@
            &&& 1 <= n < 24 && n * 3600 * second <= age < (n + 1) * 3600 * second ==> text
                == decimal(n) + "h ago"@
            &&& 1 <= n && n * 86_400 * second <= age < (n + 1) * 86_400 * second ==> text
                == decimal(n) + "d ago"@
        }),
{
    let secs = seconds_between(now, fetched);
}

/// The status line starts with the age of the data where there is any. It says
/// that a refresh is on its way exactly while one is, and ends in the number of
/// failures exactly where there are some.
pub proof fn law_the_status_line_tells_age_refresh_and_failures(m: AppModel, now: int)
    ensures
        ({
            let text = status_text(m, now);
            let n = m.warnings.len();
            let quiet = status_text(AppModel { warnings: seq![], ..m }, now);
            let still = status_text(AppModel { warnings: seq![], stale: false, ..m }, now);
            &&& m.fetched_at matches Some(t) ==> still == "refreshed "@ + age_text(now, t)
            &&& m.fetched_at is None ==> still == "never refreshed"@
            &&& m.stale && m.fetched_at is Some ==> quiet == still + " · refreshing…"@
            &&& m.stale && m.fetched_at is None ==> quiet == "refreshing…"@
            &&& !m.stale ==> quiet == still
            &&& n == 0 ==> text == quiet
            &&& n == 1 ==> text == quiet + " · "@ + decimal(1) + " repo failed (see doctor)"@
            &&& n > 1 ==> text == quiet + " · "@ + decimal(n) + " repos failed (see doctor)"@
        }),
{
}

/// Whatever row is selected, its line is among those that the list area shows
/// after scrolling, as long as the list is not longer than can be counted.
pub proof fn law_the_selected_row_is_on_screen(m: AppModel, width: nat, height: nat)
    requires
        app_ok(m),
        height > 0,
        !(m.view == ViewMode::Loading && m.stale),
        visible_rows(m.list.rows, m.filter).len() > 0,
        list_lines(m, width).len() <= u16::MAX,
    ensures
        ({
            let rows = visible_rows(m.list.rows, m.filter);
            let line = line_of_row(rows, m.list.selection, width);
            let offset = list_offset(m, width, height);
            &&& 0 <= offset <= line < offset + height
            &&& list_lines(m, width)[line].style == LineStyle::Selected
        }),
{
    let rows = visible_rows(m.list.rows, m.filter);
    law_every_row_has_its_line(rows, m.list.selection, width, m.list.selection);
}

} // verus!
