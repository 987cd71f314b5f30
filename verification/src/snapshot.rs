//! The read model of the ready screen: issues attributed to their repositories
//! and sorted for display.
use vstd::prelude::*;
use vstd::string::*;
use crate::bd::client::BdClient;
use crate::bd::error::BdError;
use crate::bd::types::{issues_view, Issue, IssueModel};
use crate::path::{
    file_name_bytes, joined, law_an_absolute_path_replaces_its_base, lossy_utf8, plain_name, FsPath,
    DOT,
};
use crate::refresh::generation::{opt_generation, AttributionGeneration};
use crate::refresh::prefix_map::{attributed, PrefixMap};
use crate::text::{
    copy_opt_text, is_less, lemma_text_less_total, lemma_text_less_transitive, opt_text, same_text,
    text_less,
};
use crate::time::Timestamp;

verus! {

/// The name of the repository of an issue that no repository, or more than
/// one, can claim.
pub const UNKNOWN_REPO: &'static str = "unknown";

/// An issue and the repository it was attributed to.
///
/// `repo_id` is the prefix of that repository. `repo_name` is its directory's
/// name, or that name and the prefix where another attributed repository has
/// the same one, or [`UNKNOWN_REPO`]; it never is a path.
#[derive(Debug, PartialEq, Eq)]
pub struct Row {
    pub issue: Issue,
    pub repo_id: Option<String>,
    pub repo_name: String,
    pub attribution_generation: Option<AttributionGeneration>,
}

/// What a [`Row`] holds.
pub struct RowModel {
    pub issue: IssueModel,
    pub repo_id: Option<Seq<char>>,
    pub repo_name: Seq<char>,
    pub generation: Option<nat>,
}

impl View for Row {
    type V = RowModel;

    open spec fn view(&self) -> RowModel {
        RowModel {
            issue: self.issue@,
            repo_id: opt_text(self.repo_id),
            repo_name: self.repo_name@,
            generation: opt_generation(self.attribution_generation),
        }
    }
}

impl Clone for Row {
    fn clone(&self) -> (res: Row)
        ensures
            res@ == self@,
    {
        Row {
            issue: self.issue.clone(),
            repo_id: copy_opt_text(&self.repo_id),
            repo_name: self.repo_name.clone(),
            attribution_generation: self.attribution_generation,
        }
    }
}

/// What a list of rows holds.
pub open spec fn rows_view(v: Seq<Row>) -> Seq<RowModel> {
    v.map_values(|r: Row| r@)
}

/// A copy of a list of rows.
pub fn copy_rows(v: &Vec<Row>) -> (res: Vec<Row>)
    ensures
        rows_view(res@) == rows_view(v@),
{
    let mut out: Vec<Row> = Vec::new();
    let mut i: usize = 0;
    while i < v.len()
        invariant
            i <= v.len(),
            out.len() == i,
            forall|k: int| 0 <= k < i ==> #[trigger] out@[k]@ == v@[k]@,
        decreases v.len() - i,
    {
        out.push(v[i].clone());
        i += 1;
    }
    assert(rows_view(out@) =~= rows_view(v@));
    out
}

/// The rows of the ready screen and the time at which the data was fetched.
#[derive(Debug, PartialEq, Eq)]
pub struct Snapshot {
    pub rows: Vec<Row>,
    pub fetched_at: Timestamp,
}

/// What a [`Snapshot`] holds.
pub struct SnapshotModel {
    pub rows: Seq<RowModel>,
    pub fetched_at: int,
}

impl View for Snapshot {
    type V = SnapshotModel;

    open spec fn view(&self) -> SnapshotModel {
        SnapshotModel { rows: rows_view(self.rows@), fetched_at: self.fetched_at@ }
    }
}

impl Clone for Snapshot {
    fn clone(&self) -> (res: Snapshot)
        ensures
            res@ == self@,
    {
        Snapshot { rows: copy_rows(&self.rows), fetched_at: self.fetched_at }
    }
}

// ---------------------------------------------------------------------------
// Display order
// ---------------------------------------------------------------------------

/// Whether one optional time text comes before another: a missing one first.
pub open spec fn opt_less(a: Option<Seq<char>>, b: Option<Seq<char>>) -> bool {
    match (a, b) {
        (Some(x), Some(y)) => text_less(x, y),
        (None, Some(_)) => true,
        _ => false,
    }
}

/// Display order: the lower priority number first, then the newer update (one
/// without an update time last), then the id.
pub open spec fn issue_before(a: IssueModel, b: IssueModel) -> bool {
    ||| a.priority < b.priority
    ||| a.priority == b.priority && opt_less(b.updated_at, a.updated_at)
    ||| a.priority == b.priority && a.updated_at == b.updated_at && text_less(a.id, b.id)
}

/// Whether two issues take the same place in the display order.
pub open spec fn same_place(a: IssueModel, b: IssueModel) -> bool {
    a.priority == b.priority && a.updated_at == b.updated_at && a.id == b.id
}

/// The rows whose issue takes the place of `issue`.
pub open spec fn rows_at(rows: Seq<RowModel>, issue: IssueModel) -> Seq<RowModel> {
    rows.filter(|r: RowModel| same_place(r.issue, issue))
}

/// No row comes before one that stands above it.
pub open spec fn in_display_order(rows: Seq<RowModel>) -> bool {
    forall|i: int, j: int|
        0 <= i < j < rows.len() ==> !issue_before(
            (#[trigger] rows[j]).issue,
            (#[trigger] rows[i]).issue,
        )
}

/// `after` is `before` put in display order, where rows that take the same
/// place keep their order.
pub open spec fn sorted_rows(before: Seq<RowModel>, after: Seq<RowModel>) -> bool {
    &&& after.len() == before.len()
    &&& in_display_order(after)
    &&& forall|issue: IssueModel| #[trigger] rows_at(after, issue) == rows_at(before, issue)
}

proof fn lemma_opt_less(a: Option<Seq<char>>, b: Option<Seq<char>>, c: Option<Seq<char>>)
    ensures
        !(opt_less(a, b) && opt_less(b, a)),
        opt_less(a, b) || opt_less(b, a) || a == b,
        !opt_less(a, a),
        opt_less(a, b) && opt_less(b, c) ==> opt_less(a, c),
{
    if a is Some && b is Some {
        lemma_text_less_total(a->0, b->0);
        if c is Some && text_less(a->0, b->0) && text_less(b->0, c->0) {
            lemma_text_less_transitive(a->0, b->0, c->0);
        }
    }
    if a is Some {
        lemma_text_less_total(a->0, a->0);
    }
}

/// The display order is a total order on places.
pub proof fn lemma_issue_order(a: IssueModel, b: IssueModel, c: IssueModel)
    ensures
        !(issue_before(a, b) && issue_before(b, a)),
        issue_before(a, b) || issue_before(b, a) || same_place(a, b),
        same_place(a, b) ==> !issue_before(a, b),
        issue_before(a, b) && issue_before(b, c) ==> issue_before(a, c),
        issue_before(a, b) && same_place(b, c) ==> issue_before(a, c),
        same_place(a, b) && issue_before(b, c) ==> issue_before(a, c),
{
    lemma_opt_less(a.updated_at, b.updated_at, c.updated_at);
    lemma_opt_less(c.updated_at, b.updated_at, a.updated_at);
    lemma_opt_less(b.updated_at, a.updated_at, c.updated_at);
    lemma_opt_less(b.updated_at, c.updated_at, a.updated_at);
    lemma_text_less_total(a.id, b.id);
    if text_less(a.id, b.id) && text_less(b.id, c.id) {
        lemma_text_less_transitive(a.id, b.id, c.id);
    }
}

/// Whether `a` comes before `b` in display order.
pub fn comes_before(a: &Issue, b: &Issue) -> (res: bool)
    ensures
        res == issue_before(a@, b@),
{
    proof {
        lemma_opt_less(a@.updated_at, b@.updated_at, a@.updated_at);
    }
    if a.priority != b.priority {
        return a.priority < b.priority;
    }
    match (&a.updated_at, &b.updated_at) {
        (Some(x), Some(y)) => {
            if same_text(x.as_str(), y.as_str()) {
                is_less(a.id.as_str(), b.id.as_str())
            } else {
                is_less(y.as_str(), x.as_str())
            }
        },
        (Some(_), None) => true,
        (None, Some(_)) => false,
        (None, None) => is_less(a.id.as_str(), b.id.as_str()),
    }
}

proof fn lemma_insert(before: Seq<RowModel>, out: Seq<RowModel>, p: int, row: RowModel)
    requires
        sorted_rows(before, out),
        0 <= p <= out.len(),
        p > 0 ==> !issue_before(row.issue, out[p - 1].issue),
        forall|k: int| p <= k < out.len() ==> issue_before(row.issue, (#[trigger] out[k]).issue),
    ensures
        sorted_rows(before.push(row), out.insert(p, row)),
{
    let res = out.insert(p, row);
    assert forall|i: int, j: int| 0 <= i < j < res.len() implies !issue_before(
        (#[trigger] res[j]).issue,
        (#[trigger] res[i]).issue,
    ) by {
        let a = res[i].issue;
        let b = res[j].issue;
        if i == p {
            assert(res[j] == out[j - 1]);
            lemma_issue_order(row.issue, b, a);
        } else if j == p {
            assert(res[i] == out[i]);
            if i < p - 1 {
                assert(!issue_before(out[p - 1].issue, out[i].issue));
                lemma_issue_order(row.issue, out[i].issue, out[p - 1].issue);
                lemma_issue_order(out[i].issue, out[p - 1].issue, row.issue);
            }
        } else {
            let oi = if i < p { i } else { i - 1 };
            let oj = if j < p { j } else { j - 1 };
            assert(res[i] == out[oi] && res[j] == out[oj]);
        }
    }
    assert forall|issue: IssueModel| #[trigger] rows_at(res, issue) == rows_at(
        before.push(row),
        issue,
    ) by {
        let pred = |r: RowModel| same_place(r.issue, issue);
        let left = out.take(p);
        let right = out.skip(p);
        assert(res =~= left.push(row) + right);
        assert(out =~= left + right);
        Seq::filter_distributes_over_add(left.push(row), right, pred);
        Seq::filter_distributes_over_add(left, right, pred);
        left.lemma_filter_push(row, pred);
        before.lemma_filter_push(row, pred);
        assert(rows_at(out, issue) == rows_at(before, issue));
        if pred(row) {
            assert forall|k: int| 0 <= k < right.len() implies !pred(#[trigger] right[k]) by {
                assert(right[k] == out[p + k]);
                lemma_issue_order(row.issue, right[k].issue, issue);
                lemma_issue_order(right[k].issue, issue, row.issue);
                lemma_issue_order(issue, row.issue, right[k].issue);
            }
            right.lemma_all_neg_filter_empty(pred);
            assert(left.filter(pred) + right.filter(pred) =~= left.filter(pred));
            assert(left.filter(pred).push(row) + right.filter(pred) =~= left.filter(pred).push(row));
        }
    }
}

/// Puts rows in display order; rows that take the same place keep theirs.
pub fn sort_rows(rows: Vec<Row>) -> (res: Vec<Row>)
    ensures
        sorted_rows(rows_view(rows@), rows_view(res@)),
{
    let ghost all = rows_view(rows@);
    let mut out: Vec<Row> = Vec::new();
    let mut i: usize = 0;
    assert(all.take(0) =~= Seq::<RowModel>::empty());
    assert(rows_view(out@) =~= Seq::<RowModel>::empty());
    while i < rows.len()
        invariant
            i <= rows@.len(),
            all == rows_view(rows@),
            sorted_rows(all.take(i as int), rows_view(out@)),
        decreases rows@.len() - i,
    {
        let row = rows[i].clone();
        let ghost sofar = rows_view(out@);
        let mut p: usize = out.len();
        while p > 0 && comes_before(&row.issue, &out[p - 1].issue)
            invariant
                p <= out@.len(),
                sofar == rows_view(out@),
                forall|k: int|
                    p <= k < sofar.len() ==> issue_before(row@.issue, (#[trigger] sofar[k]).issue),
            decreases p,
        {
            assert(sofar[p - 1] == out@[p - 1]@);
            p -= 1;
        }
        if p > 0 {
            assert(sofar[p - 1] == out@[p - 1]@);
        }
        proof {
            lemma_insert(all.take(i as int), sofar, p as int, row@);
            assert(all.take(i + 1) =~= all.take(i as int).push(row@));
        }
        let ghost shown = row@;
        out.insert(p, row);
        assert(rows_view(out@) =~= sofar.insert(p as int, shown));
        i += 1;
    }
    assert(all.take(all.len() as int) =~= all);
    out
}

// ---------------------------------------------------------------------------
// Attribution
// ---------------------------------------------------------------------------

/// The name of a repository's directory; the whole path where it has none.
pub open spec fn base_name(path: Seq<u8>) -> Seq<char> {
    match file_name_bytes(path) {
        Some(name) => lossy_utf8(name),
        None => lossy_utf8(path),
    }
}

/// The directory name and the prefix of the repository of an issue.
pub open spec fn label_of(
    entries: Seq<(Seq<char>, Option<Seq<u8>>)>,
    issue: IssueModel,
) -> Option<(Seq<char>, Seq<char>)> {
    match attributed(entries, issue.id) {
        Some((prefix, path)) => Some((base_name(path), prefix)),
        None => None,
    }
}

/// Whether repositories with different prefixes among the issues share a
/// directory name.
pub open spec fn ambiguous(
    issues: Seq<IssueModel>,
    entries: Seq<(Seq<char>, Option<Seq<u8>>)>,
    name: Seq<char>,
) -> bool {
    exists|i: int, j: int|
        0 <= i < issues.len() && 0 <= j < issues.len() && {
            &&& label_of(entries, #[trigger] issues[i]) matches Some(a)
            &&& label_of(entries, #[trigger] issues[j]) matches Some(b)
            &&& a.0 == name && b.0 == name && a.1 != b.1
        }
}

/// The row of an issue among the issues it is shown with.
pub open spec fn row_of(
    issue: IssueModel,
    issues: Seq<IssueModel>,
    entries: Seq<(Seq<char>, Option<Seq<u8>>)>,
    generation: Option<nat>,
) -> RowModel {
    match label_of(entries, issue) {
        Some((name, prefix)) => RowModel {
            issue,
            repo_id: Some(prefix),
            repo_name: if ambiguous(issues, entries, name) {
                name + " ("@ + prefix + ")"@
            } else {
                name
            },
            generation,
        },
        None => RowModel { issue, repo_id: None, repo_name: UNKNOWN_REPO@, generation },
    }
}

/// The rows of some issues, in the order of the issues.
pub open spec fn rows_of(
    issues: Seq<IssueModel>,
    entries: Seq<(Seq<char>, Option<Seq<u8>>)>,
    generation: Option<nat>,
) -> Seq<RowModel> {
    issues.map_values(|issue: IssueModel| row_of(issue, issues, entries, generation))
}

/// The name of a repository's directory.
pub fn basename(path: &FsPath) -> (res: String)
    ensures
        res@ == base_name(path@),
{
    match path.file_name() {
        Some(name) => name.display(),
        None => path.display(),
    }
}

spec fn label_view(o: Option<(String, String)>) -> Option<(Seq<char>, Seq<char>)> {
    match o {
        Some((name, prefix)) => Some((name@, prefix@)),
        None => None,
    }
}

fn label(map: &PrefixMap, issue: &Issue) -> (res: Option<(String, String)>)
    ensures
        label_view(res) == label_of(map@.entries, issue@),
{
    match map.attribution(issue.id.as_str()) {
        Some((prefix, repo)) => Some((basename(&repo.path), String::from_str(prefix))),
        None => None,
    }
}

spec fn has_label(labels: Seq<(String, String)>, name: Seq<char>, prefix: Seq<char>) -> bool {
    exists|i: int|
        0 <= i < labels.len() && (#[trigger] labels[i]).0@ == name && labels[i].1@ == prefix
}

fn holds_label(labels: &Vec<(String, String)>, name: &str, prefix: &str) -> (res: bool)
    ensures
        res == has_label(labels@, name@, prefix@),
{
    let mut i: usize = 0;
    while i < labels.len()
        invariant
            i <= labels@.len(),
            forall|k: int|
                0 <= k < i ==> !((#[trigger] labels@[k]).0@ == name@ && labels@[k].1@ == prefix@),
        decreases labels@.len() - i,
    {
        if same_text(labels[i].0.as_str(), name) && same_text(labels[i].1.as_str(), prefix) {
            return true;
        }
        i += 1;
    }
    false
}

spec fn labels_cover(
    labels: Seq<(String, String)>,
    issues: Seq<IssueModel>,
    entries: Seq<(Seq<char>, Option<Seq<u8>>)>,
) -> bool {
    &&& forall|i: int|
        0 <= i < issues.len() ==> match #[trigger] label_of(entries, issues[i]) {
            Some((name, prefix)) => has_label(labels, name, prefix),
            None => true,
        }
    &&& forall|k: int|
        0 <= k < labels.len() ==> exists|i: int|
            0 <= i < issues.len() && label_of(entries, #[trigger] issues[i]) == Some(
                ((#[trigger] labels[k]).0@, labels[k].1@),
            )
}

/// The distinct directory names and prefixes among the issues.
fn all_labels(map: &PrefixMap, issues: &Vec<Issue>) -> (res: Vec<(String, String)>)
    ensures
        labels_cover(res@, issues_view(issues@), map@.entries),
{
    let ghost all = issues_view(issues@);
    let ghost entries = map@.entries;
    let mut labels: Vec<(String, String)> = Vec::new();
    let mut i: usize = 0;
    assert(labels_cover(labels@, all.take(0), entries));
    while i < issues.len()
        invariant
            i <= issues@.len(),
            all == issues_view(issues@),
            entries == map@.entries,
            labels_cover(labels@, all.take(i as int), entries),
        decreases issues@.len() - i,
    {
        let ghost before = labels@;
        let ghost seen = all.take(i as int);
        let ghost now = all.take(i + 1);
        assert(now =~= seen.push(issues@[i as int]@));
        let found = label(map, &issues[i]);
        assert(label_of(entries, now[i as int]) == label_view(found));
        match found {
            Some((name, prefix)) => {
                let known = holds_label(&labels, name.as_str(), prefix.as_str());
                let ghost shown = (name@, prefix@);
                if !known {
                    labels.push((name, prefix));
                    assert(labels@[before.len() as int].0@ == shown.0);
                }
                assert(has_label(labels@, shown.0, shown.1));
                assert forall|k: int| 0 <= k < i + 1 implies match #[trigger] label_of(
                    entries,
                    now[k],
                ) {
                    Some((n, p)) => has_label(labels@, n, p),
                    None => true,
                } by {
                    if k < i {
                        assert(now[k] == seen[k]);
                        match label_of(entries, seen[k]) {
                            Some((n, p)) => {
                                let m = choose|m: int|
                                    0 <= m < before.len() && (#[trigger] before[m]).0@ == n
                                        && before[m].1@ == p;
                                assert(labels@[m] == before[m]);
                            },
                            None => {},
                        }
                    }
                }
                assert forall|k: int| 0 <= k < labels@.len() implies exists|m: int|
                    0 <= m < now.len() && label_of(entries, #[trigger] now[m]) == Some(
                        ((#[trigger] labels@[k]).0@, labels@[k].1@),
                    ) by {
                    if k < before.len() {
                        assert(labels@[k] == before[k]);
                        let m = choose|m: int|
                            0 <= m < seen.len() && label_of(entries, #[trigger] seen[m]) == Some(
                                ((#[trigger] before[k]).0@, before[k].1@),
                            );
                        assert(now[m] == seen[m]);
                    } else {
                        assert(label_of(entries, now[i as int]) == Some(shown));
                    }
                }
            },
            None => {
                assert forall|k: int| 0 <= k < i + 1 implies match #[trigger] label_of(
                    entries,
                    now[k],
                ) {
                    Some((n, p)) => has_label(labels@, n, p),
                    None => true,
                } by {
                    if k < i {
                        assert(now[k] == seen[k]);
                    }
                }
                assert forall|k: int| 0 <= k < labels@.len() implies exists|m: int|
                    0 <= m < now.len() && label_of(entries, #[trigger] now[m]) == Some(
                        ((#[trigger] labels@[k]).0@, labels@[k].1@),
                    ) by {
                    let m = choose|m: int|
                        0 <= m < seen.len() && label_of(entries, #[trigger] seen[m]) == Some(
                            ((#[trigger] before[k]).0@, before[k].1@),
                        );
                    assert(now[m] == seen[m]);
                }
            },
        }
        i += 1;
    }
    assert(all.take(all.len() as int) =~= all);
    labels
}

/// Whether a prefix other than `prefix` has the same directory name.
fn is_ambiguous(
    labels: &Vec<(String, String)>,
    name: &str,
    prefix: &str,
    Ghost(issues): Ghost<Seq<IssueModel>>,
    Ghost(entries): Ghost<Seq<(Seq<char>, Option<Seq<u8>>)>>,
) -> (res: bool)
    requires
        labels_cover(labels@, issues, entries),
        has_label(labels@, name@, prefix@),
    ensures
        res == ambiguous(issues, entries, name@),
{
    let mut i: usize = 0;
    while i < labels.len()
        invariant
            i <= labels@.len(),
            labels_cover(labels@, issues, entries),
            has_label(labels@, name@, prefix@),
            forall|k: int|
                0 <= k < i ==> ((#[trigger] labels@[k]).0@ == name@ ==> labels@[k].1@ == prefix@),
        decreases labels@.len() - i,
    {
        if same_text(labels[i].0.as_str(), name) && !same_text(labels[i].1.as_str(), prefix) {
            proof {
                let ours = choose|k: int|
                    0 <= k < labels@.len() && (#[trigger] labels@[k]).0@ == name@ && labels@[k].1@
                        == prefix@;
                let a = choose|m: int|
                    0 <= m < issues.len() && label_of(entries, #[trigger] issues[m]) == Some(
                        ((#[trigger] labels@[ours]).0@, labels@[ours].1@),
                    );
                let other = labels@[i as int].1@;
                let b = choose|m: int|
                    0 <= m < issues.len() && label_of(entries, #[trigger] issues[m]) == Some(
                        ((#[trigger] labels@[i as int]).0@, labels@[i as int].1@),
                    );
                assert(label_of(entries, issues[a]) == Some((name@, prefix@)));
                assert(label_of(entries, issues[b]) == Some((name@, other)));
            }
            return true;
        }
        i += 1;
    }
    proof {
        if ambiguous(issues, entries, name@) {
            let (a, b) = choose|a: int, b: int|
                0 <= a < issues.len() && 0 <= b < issues.len() && {
                    &&& label_of(entries, #[trigger] issues[a]) matches Some(x)
                    &&& label_of(entries, #[trigger] issues[b]) matches Some(y)
                    &&& x.0 == name@ && y.0 == name@ && x.1 != y.1
                };
            let p = (label_of(entries, issues[a])->Some_0).1;
            let q = (label_of(entries, issues[b])->Some_0).1;
            assert(has_label(labels@, name@, p));
            assert(has_label(labels@, name@, q));
        }
    }
    false
}

fn attribute_rows(
    issues: Vec<Issue>,
    prefix_map: &PrefixMap,
    generation: Option<AttributionGeneration>,
) -> (res: Vec<Row>)
    ensures
        rows_view(res@) == rows_of(
            issues_view(issues@),
            prefix_map@.entries,
            opt_generation(generation),
        ),
{
    let ghost all = issues_view(issues@);
    let ghost entries = prefix_map@.entries;
    let labels = all_labels(prefix_map, &issues);
    let mut rows: Vec<Row> = Vec::new();
    let mut i: usize = 0;
    while i < issues.len()
        invariant
            i <= issues@.len(),
            all == issues_view(issues@),
            entries == prefix_map@.entries,
            labels_cover(labels@, all, entries),
            rows@.len() == i,
            forall|k: int|
                0 <= k < i ==> #[trigger] rows@[k]@ == row_of(
                    all[k],
                    all,
                    entries,
                    opt_generation(generation),
                ),
        decreases issues@.len() - i,
    {
        let found = label(prefix_map, &issues[i]);
        assert(label_of(entries, all[i as int]) == label_view(found));
        let (repo_id, repo_name) = match found {
            Some((name, prefix)) => {
                if is_ambiguous(
                    &labels,
                    name.as_str(),
                    prefix.as_str(),
                    Ghost(all),
                    Ghost(entries),
                ) {
                    let mut shown = name.clone();
                    shown.append(" (");
                    shown.append(prefix.as_str());
                    shown.append(")");
                    (Some(prefix), shown)
                } else {
                    (Some(prefix), name)
                }
            },
            None => (None, String::from_str(UNKNOWN_REPO)),
        };
        rows.push(
            Row {
                issue: issues[i].clone(),
                repo_id,
                repo_name,
                attribution_generation: generation,
            },
        );
        i += 1;
    }
    assert(rows_view(rows@) =~= rows_of(all, entries, opt_generation(generation)));
    rows
}

/// What attributing issues gives: one row for each issue, in display order.
pub open spec fn attributed_snapshot(
    issues: Seq<IssueModel>,
    entries: Seq<(Seq<char>, Option<Seq<u8>>)>,
    generation: Option<nat>,
    fetched_at: int,
    snapshot: SnapshotModel,
) -> bool {
    &&& sorted_rows(rows_of(issues, entries, generation), snapshot.rows)
    &&& snapshot.fetched_at == fetched_at
}

/// Whether rows stand in the order of their urgency, among equally urgent ones the
/// newest first and those without an update time last, and otherwise by id.
pub open spec fn shown_in_order(rows: Seq<Row>) -> bool {
    forall|i: int, j: int|
        #![trigger rows[i], rows[j]]
        0 <= i < j < rows.len() ==> {
            let above = rows[i].issue;
            let below = rows[j].issue;
            &&& above.priority <= below.priority
            &&& above.priority == below.priority ==> {
                &&& below.updated_at is Some ==> above.updated_at is Some
                &&& above.updated_at is Some && below.updated_at is Some ==> !text_less(
                    (above.updated_at->Some_0)@,
                    (below.updated_at->Some_0)@,
                )
                &&& opt_text(above.updated_at) == opt_text(below.updated_at) ==> !text_less(
                    below.id@,
                    above.id@,
                )
            }
        }
}

proof fn lemma_shown_in_order(rows: Seq<Row>)
    requires
        in_display_order(rows_view(rows)),
    ensures
        shown_in_order(rows),
{
    assert forall|i: int, j: int|
        #![trigger rows[i], rows[j]]
        0 <= i < j < rows.len() implies !issue_before(rows[j].issue@, rows[i].issue@) by {
        let all = rows_view(rows);
        assert(all[i] == rows[i]@ && all[j] == rows[j]@);
    }
}

/// Attributes issues to their repositories and sorts them for display.
pub fn attribute(issues: Vec<Issue>, prefix_map: &PrefixMap, fetched_at: Timestamp) -> (res:
    Snapshot)
    ensures
        attributed_snapshot(
            issues_view(issues@),
            prefix_map@.entries,
            None,
            fetched_at@,
            res@,
        ),
        shown_in_order(res.rows@),
{
    let rows = attribute_rows(issues, prefix_map, None);
    let sorted = sort_rows(rows);
    proof {
        lemma_shown_in_order(sorted@);
    }
    Snapshot { rows: sorted, fetched_at }
}

/// Attributes issues as [`attribute`] does and stamps every row with the
/// generation of the map.
pub fn attribute_with_generation(
    issues: Vec<Issue>,
    prefix_map: &PrefixMap,
    fetched_at: Timestamp,
    generation: AttributionGeneration,
) -> (res: Snapshot)
    ensures
        attributed_snapshot(
            issues_view(issues@),
            prefix_map@.entries,
            Some(generation@),
            fetched_at@,
            res@,
        ),
        shown_in_order(res.rows@),
{
    let rows = attribute_rows(issues, prefix_map, Some(generation));
    let sorted = sort_rows(rows);
    proof {
        lemma_shown_in_order(sorted@);
    }
    Snapshot { rows: sorted, fetched_at }
}

/// Turns the answer of `bd ready` into a snapshot; an error passes through.
pub fn attribute_ready(
    ready: Result<Vec<Issue>, BdError>,
    prefix_map: &PrefixMap,
    fetched_at: Timestamp,
) -> (res: Result<Snapshot, BdError>)
    ensures
        match ready {
            Ok(issues) => res matches Ok(snapshot) && attributed_snapshot(
                issues_view(issues@),
                prefix_map@.entries,
                None,
                fetched_at@,
                snapshot@,
            ),
            Err(e) => res == Err::<Snapshot, BdError>(e),
        },
{
    match ready {
        Ok(issues) => Ok(attribute(issues, prefix_map, fetched_at)),
        Err(e) => Err(e),
    }
}

/// Fetches the hub's ready issues with one `bd ready` call and attributes
/// them.
pub fn fetch<B: BdClient>(
    bd: &B,
    hub: &FsPath,
    prefix_map: &PrefixMap,
    fetched_at: Timestamp,
) -> (res: Result<Snapshot, BdError>)
    ensures
        exists|ready: Result<Vec<Issue>, BdError>| #[trigger]
            call_ensures(B::ready, (bd, hub), ready) && match ready {
                Ok(issues) => res matches Ok(snapshot) && attributed_snapshot(
                    issues_view(issues@),
                    prefix_map@.entries,
                    None,
                    fetched_at@,
                    snapshot@,
                ),
                Err(e) => res == Err::<Snapshot, BdError>(e),
            },
{
    let ready = bd.ready(hub);
    attribute_ready(ready, prefix_map, fetched_at)
}

proof fn lemma_count_in_filter(s: Seq<RowModel>, pred: spec_fn(RowModel) -> bool, x: RowModel)
    requires
        pred(x),
    ensures
        s.filter(pred).to_multiset().count(x) == s.to_multiset().count(x),
    decreases s.len(),
{
    broadcast use vstd::seq_lib::group_to_multiset_ensures;

    if s.len() == 0 {
        s.lemma_all_neg_filter_empty(pred);
        assert(s.filter(pred) =~= s);
    } else {
        let rest = s.drop_last();
        lemma_count_in_filter(rest, pred, x);
        rest.lemma_filter_push(s.last(), pred);
        assert(s =~= rest.push(s.last()));
    }
}

/// Every row of a snapshot is that of one of the issues: attributed by the map,
/// and stamped with its generation.
pub proof fn law_every_row_is_of_its_issue(
    issues: Seq<IssueModel>,
    entries: Seq<(Seq<char>, Option<Seq<u8>>)>,
    generation: Option<nat>,
    fetched_at: int,
    snapshot: SnapshotModel,
    k: int,
)
    requires
        attributed_snapshot(issues, entries, generation, fetched_at, snapshot),
        0 <= k < snapshot.rows.len(),
    ensures
        issues.contains(snapshot.rows[k].issue),
        snapshot.rows[k] == row_of(snapshot.rows[k].issue, issues, entries, generation),
        snapshot.rows[k].generation == generation,
{
    let rows = rows_of(issues, entries, generation);
    let row = snapshot.rows[k];
    let here = |r: RowModel| same_place(r.issue, row.issue);
    assert(rows_at(snapshot.rows, row.issue) == rows_at(rows, row.issue));
    snapshot.rows.lemma_filter_contains(here, k);
    rows.lemma_filter_contains_rev(here, row);
    let i = rows.index_of(row);
    assert(row == row_of(issues[i], issues, entries, generation));
}

/// Sorting neither loses nor invents nor changes a row.
pub proof fn law_sorting_keeps_every_row(before: Seq<RowModel>, after: Seq<RowModel>)
    requires
        sorted_rows(before, after),
    ensures
        after.to_multiset() == before.to_multiset(),
{
    assert forall|x: RowModel| #[trigger] after.to_multiset().count(x)
        == before.to_multiset().count(x) by {
        let pred = |r: RowModel| same_place(r.issue, x.issue);
        assert(rows_at(after, x.issue) == rows_at(before, x.issue));
        lemma_count_in_filter(after, pred, x);
        lemma_count_in_filter(before, pred, x);
    }
    assert(after.to_multiset() =~= before.to_multiset());
}

/// Sorting what is sorted changes nothing: the display order fixes the result.
pub proof fn law_display_order_is_unique(
    before: Seq<RowModel>,
    one: Seq<RowModel>,
    other: Seq<RowModel>,
)
    requires
        sorted_rows(before, one),
        sorted_rows(before, other),
    ensures
        one == other,
    decreases one.len(),
{
    if one.len() > 0 {
        let a = one.last();
        let b = other.last();
        let at_a = |r: RowModel| same_place(r.issue, a.issue);
        let at_b = |r: RowModel| same_place(r.issue, b.issue);
        assert(one =~= one.drop_last().push(a));
        assert(other =~= other.drop_last().push(b));
        one.drop_last().lemma_filter_push(a, at_a);
        other.drop_last().lemma_filter_push(b, at_b);
        assert(rows_at(one, a.issue) == rows_at(before, a.issue));
        assert(rows_at(other, a.issue) == rows_at(before, a.issue));
        assert(rows_at(one, b.issue) == rows_at(before, b.issue));
        assert(rows_at(other, b.issue) == rows_at(before, b.issue));
        lemma_issue_order(a.issue, b.issue, a.issue);
        // A row of `other` takes the place of `a`, so `a` cannot come after `b`.
        let fa = rows_at(other, a.issue);
        assert(fa.last() == a);
        assert(fa.contains(fa[fa.len() - 1]));
        other.lemma_filter_contains_rev(at_a, a);
        let i = choose|i: int| 0 <= i < other.len() && other[i] == a;
        if i < other.len() - 1 {
            assert(!issue_before(other[other.len() - 1].issue, other[i].issue));
        }
        let fb = rows_at(one, b.issue);
        assert(fb.last() == b);
        assert(fb.contains(fb[fb.len() - 1]));
        one.lemma_filter_contains_rev(at_b, b);
        let j = choose|j: int| 0 <= j < one.len() && one[j] == b;
        if j < one.len() - 1 {
            assert(!issue_before(one[one.len() - 1].issue, one[j].issue));
        }
        assert(same_place(a.issue, b.issue));
        assert(rows_at(other, b.issue) =~= rows_at(other, a.issue)) by {
            assert(at_a =~= at_b);
        }
        assert(a == b);
        let shorter = one.drop_last();
        assert(sorted_rows(shorter, shorter));
        assert(sorted_rows(shorter, other.drop_last())) by {
            let left = other.drop_last();
            assert forall|i: int, j: int| 0 <= i < j < left.len() implies !issue_before(
                (#[trigger] left[j]).issue,
                (#[trigger] left[i]).issue,
            ) by {
                assert(left[j] == other[j] && left[i] == other[i]);
            }
            assert forall|issue: IssueModel| #[trigger] rows_at(left, issue) == rows_at(
                shorter,
                issue,
            ) by {
                let pred = |r: RowModel| same_place(r.issue, issue);
                left.lemma_filter_push(a, pred);
                shorter.lemma_filter_push(a, pred);
                assert(rows_at(one, issue) == rows_at(before, issue));
                assert(rows_at(other, issue) == rows_at(before, issue));
                if pred(a) {
                    assert(left.filter(pred) =~= left.filter(pred).push(a).drop_last());
                    assert(shorter.filter(pred) =~= shorter.filter(pred).push(a).drop_last());
                }
            }
        }
        law_display_order_is_unique(shorter, shorter, other.drop_last());
    } else {
        assert(one =~= other);
    }
}

/// Repositories that share a directory name but not a prefix are shown under
/// different names, and every row of one repository under the same one.
pub proof fn law_shared_directory_names_are_told_apart(
    issues: Seq<IssueModel>,
    entries: Seq<(Seq<char>, Option<Seq<u8>>)>,
    generation: Option<nat>,
    i: int,
    j: int,
)
    requires
        0 <= i < issues.len(),
        0 <= j < issues.len(),
        label_of(entries, issues[i]) is Some,
        label_of(entries, issues[j]) is Some,
        (label_of(entries, issues[i])->Some_0).0 == (label_of(entries, issues[j])->Some_0).0,
    ensures
        ({
            let rows = rows_of(issues, entries, generation);
            rows[i].repo_name == rows[j].repo_name <==> rows[i].repo_id == rows[j].repo_id
        }),
{
    let (name, p) = label_of(entries, issues[i])->Some_0;
    let q = (label_of(entries, issues[j])->Some_0).1;
    if p != q {
        assert(ambiguous(issues, entries, name));
        let a = name + " ("@ + p + ")"@;
        let b = name + " ("@ + q + ")"@;
        let k = name.len() + " ("@.len();
        if a == b {
            assert(a.subrange(k as int, a.len() - ")"@.len()) =~= p);
            assert(b.subrange(k as int, b.len() - ")"@.len()) =~= q);
        }
    }
}

proof fn lemma_same_in_filter(
    a: Seq<RowModel>,
    b: Seq<RowModel>,
    pred: spec_fn(RowModel) -> bool,
)
    requires
        a.to_multiset() == b.to_multiset(),
        a.filter(pred).len() <= 1,
    ensures
        a.filter(pred) == b.filter(pred),
{
    broadcast use vstd::seq_lib::group_to_multiset_ensures;

    let (x, y) = (a.filter(pred), b.filter(pred));
    assert forall|r: RowModel| #[trigger] x.to_multiset().count(r) == y.to_multiset().count(r) by {
        if pred(r) {
            lemma_count_in_filter(a, pred, r);
            lemma_count_in_filter(b, pred, r);
        } else {
            lemma_filtered_out(a, pred, r);
            lemma_filtered_out(b, pred, r);
        }
    }
    assert(x.to_multiset() =~= y.to_multiset());
    assert(x.len() == x.to_multiset().len());
    assert(y.len() == y.to_multiset().len());
    if x.len() == 1 {
        assert(x.contains(x[0]));
        assert(x.to_multiset().count(x[0]) > 0);
        assert(y.to_multiset().count(x[0]) > 0);
        assert(y.contains(x[0]));
    }
    assert(x =~= y);
}

proof fn lemma_filtered_out(s: Seq<RowModel>, pred: spec_fn(RowModel) -> bool, r: RowModel)
    requires
        !pred(r),
    ensures
        s.filter(pred).to_multiset().count(r) == 0,
{
    broadcast use vstd::seq_lib::group_to_multiset_ensures;
    broadcast use vstd::seq_lib::group_filter_ensures;

    if s.filter(pred).contains(r) {
        let i = s.filter(pred).index_of(r);
        assert(pred(s.filter(pred)[i]));
    }
}

proof fn lemma_same_images<A, B>(a: Seq<A>, b: Seq<A>, f: spec_fn(A) -> B)
    requires
        a.to_multiset() == b.to_multiset(),
    ensures
        a.map_values(f).to_multiset() == b.map_values(f).to_multiset(),
    decreases a.len(),
{
    broadcast use vstd::seq_lib::group_to_multiset_ensures;

    assert(a.len() == a.to_multiset().len());
    assert(b.len() == b.to_multiset().len());
    if a.len() == 0 {
        assert(a.map_values(f) =~= b.map_values(f));
    } else {
        let x = a.last();
        let rest = a.drop_last();
        assert(a =~= rest.push(x));
        assert(a.contains(a[a.len() - 1]));
        assert(a.to_multiset().count(x) > 0);
        assert(b.to_multiset().count(x) > 0);
        assert(b.contains(x));
        let i = b.index_of(x);
        let other = b.remove(i);
        assert(other.to_multiset() =~= b.to_multiset().remove(x));
        assert(rest.to_multiset() =~= a.to_multiset().remove(x));
        lemma_same_images(rest, other, f);
        assert(a.map_values(f) =~= rest.map_values(f).push(f(x)));
        assert(b.map_values(f).remove(i) =~= other.map_values(f));
        assert(b.map_values(f)[i] == f(x));
        let all = b.map_values(f).to_multiset();
        assert(b.map_values(f).contains(f(x)));
        assert(all.count(f(x)) > 0);
        assert(all.remove(f(x)).insert(f(x)) =~= all);
    }
}

/// Whether no two issues have the same id.
pub open spec fn distinct_ids(issues: Seq<IssueModel>) -> bool {
    forall|i: int, j: int|
        0 <= i < j < issues.len() ==> (#[trigger] issues[i]).id != (#[trigger] issues[j]).id
}

proof fn lemma_ambiguous_in_any_order(
    issues: Seq<IssueModel>,
    other: Seq<IssueModel>,
    entries: Seq<(Seq<char>, Option<Seq<u8>>)>,
    name: Seq<char>,
)
    requires
        issues.to_multiset() == other.to_multiset(),
        ambiguous(issues, entries, name),
    ensures
        ambiguous(other, entries, name),
{
    broadcast use vstd::seq_lib::group_to_multiset_ensures;

    let (i, j) = choose|i: int, j: int|
        0 <= i < issues.len() && 0 <= j < issues.len() && {
            &&& label_of(entries, #[trigger] issues[i]) matches Some(a)
            &&& label_of(entries, #[trigger] issues[j]) matches Some(b)
            &&& a.0 == name && b.0 == name && a.1 != b.1
        };
    assert(issues.contains(issues[i]) && issues.contains(issues[j]));
    assert(issues.to_multiset().count(issues[i]) > 0);
    assert(issues.to_multiset().count(issues[j]) > 0);
    assert(other.to_multiset().count(issues[i]) > 0);
    assert(other.to_multiset().count(issues[j]) > 0);
    assert(other.contains(issues[i]) && other.contains(issues[j]));
    let (k, l) = (other.index_of(issues[i]), other.index_of(issues[j]));
    assert(other[k] == issues[i] && other[l] == issues[j]);
}

proof fn lemma_one_row_at_a_place(
    issues: Seq<IssueModel>,
    rows: Seq<RowModel>,
    pred: spec_fn(RowModel) -> bool,
    place: IssueModel,
)
    requires
        distinct_ids(issues),
        rows.len() == issues.len(),
        forall|i: int| 0 <= i < rows.len() ==> (#[trigger] rows[i]).issue == issues[i],
        pred == (|r: RowModel| same_place(r.issue, place)),
    ensures
        rows.filter(pred).len() <= 1,
    decreases rows.len(),
{
    if rows.len() == 0 {
        rows.lemma_filter_len(pred);
    } else {
        let rest = rows.drop_last();
        let fewer = issues.drop_last();
        let last = rows.last();
        assert(rows =~= rest.push(last));
        assert(last == rows[rows.len() - 1]);
        assert forall|i: int| 0 <= i < rest.len() implies (#[trigger] rest[i]).issue
            == fewer[i] by {
            assert(rest[i] == rows[i]);
        }
        assert(distinct_ids(fewer)) by {
            assert forall|i: int, j: int| 0 <= i < j < fewer.len() implies (
            #[trigger] fewer[i]).id != (#[trigger] fewer[j]).id by {
                assert(issues[i].id != issues[j].id);
            }
        }
        lemma_one_row_at_a_place(fewer, rest, pred, place);
        rest.lemma_filter_push(last, pred);
        if pred(last) {
            assert forall|k: int| 0 <= k < rest.len() implies !pred(#[trigger] rest[k]) by {
                assert(rest[k] == rows[k]);
                assert(issues[k].id != issues[issues.len() - 1].id);
            }
            rest.lemma_all_neg_filter_empty(pred);
        }
    }
}

/// The order in which `bd` lists issues does not matter: as long as no two have
/// the same id, the same issues in another order give the same snapshot.
pub proof fn law_the_order_of_issues_is_irrelevant(
    issues: Seq<IssueModel>,
    other: Seq<IssueModel>,
    entries: Seq<(Seq<char>, Option<Seq<u8>>)>,
    generation: Option<nat>,
    fetched_at: int,
    one: SnapshotModel,
    two: SnapshotModel,
)
    requires
        issues.to_multiset() == other.to_multiset(),
        distinct_ids(issues),
        attributed_snapshot(issues, entries, generation, fetched_at, one),
        attributed_snapshot(other, entries, generation, fetched_at, two),
    ensures
        one == two,
{
    broadcast use vstd::seq_lib::group_to_multiset_ensures;

    let a = rows_of(issues, entries, generation);
    let b = rows_of(other, entries, generation);
    let f = |issue: IssueModel| row_of(issue, issues, entries, generation);
    let g = |issue: IssueModel| row_of(issue, other, entries, generation);
    assert forall|issue: IssueModel| #[trigger] f(issue) == g(issue) by {
        match label_of(entries, issue) {
            Some((name, _)) => {
                if ambiguous(issues, entries, name) {
                    lemma_ambiguous_in_any_order(issues, other, entries, name);
                }
                if ambiguous(other, entries, name) {
                    lemma_ambiguous_in_any_order(other, issues, entries, name);
                }
            },
            None => {},
        }
    }
    assert(f =~= g);
    lemma_same_images(issues, other, f);
    assert(a =~= issues.map_values(f));
    assert(b =~= other.map_values(f));
    assert(a.len() == a.to_multiset().len());
    assert(b.len() == b.to_multiset().len());
    assert forall|place: IssueModel| #[trigger] rows_at(one.rows, place) == rows_at(b, place) by {
        let pred = |r: RowModel| same_place(r.issue, place);
        assert(rows_at(one.rows, place) == rows_at(a, place));
        assert forall|i: int| 0 <= i < a.len() implies (#[trigger] a[i]).issue == issues[i] by {}
        lemma_one_row_at_a_place(issues, a, pred, place);
        lemma_same_in_filter(a, b, pred);
    }
    assert(sorted_rows(b, one.rows));
    law_display_order_is_unique(b, one.rows, two.rows);
}

/// A snapshot shows every issue, each as often as it was listed, and unchanged.
pub proof fn law_a_snapshot_shows_every_issue(
    issues: Seq<IssueModel>,
    entries: Seq<(Seq<char>, Option<Seq<u8>>)>,
    generation: Option<nat>,
    fetched_at: int,
    snapshot: SnapshotModel,
)
    requires
        attributed_snapshot(issues, entries, generation, fetched_at, snapshot),
    ensures
        snapshot.rows.map_values(|r: RowModel| r.issue).to_multiset() == issues.to_multiset(),
{
    let rows = rows_of(issues, entries, generation);
    law_sorting_keeps_every_row(rows, snapshot.rows);
    lemma_same_images(snapshot.rows, rows, |r: RowModel| r.issue);
    assert(rows.map_values(|r: RowModel| r.issue) =~= issues);
}

/// How the rows of a snapshot follow each other: no row stands above one of
/// greater urgency. Among rows of one priority, whatever it is, the newer update
/// stands above the older one and a row without an update time below those that
/// have one. Among rows that were updated at the same time, or never, the id
/// decides.
pub proof fn law_urgent_then_recent_rows_come_first(
    issues: Seq<IssueModel>,
    entries: Seq<(Seq<char>, Option<Seq<u8>>)>,
    generation: Option<nat>,
    fetched_at: int,
    snapshot: SnapshotModel,
    i: int,
    j: int,
)
    requires
        attributed_snapshot(issues, entries, generation, fetched_at, snapshot),
        0 <= i < j < snapshot.rows.len(),
    ensures
        ({
            let above = snapshot.rows[i].issue;
            let below = snapshot.rows[j].issue;
            &&& above.priority <= below.priority
            &&& above.priority == below.priority ==> {
                &&& below.updated_at is Some ==> above.updated_at is Some
                &&& above.updated_at is Some && below.updated_at is Some ==> !text_less(
                    above.updated_at->Some_0,
                    below.updated_at->Some_0,
                )
                &&& above.updated_at == below.updated_at ==> !text_less(below.id, above.id)
            }
        }),
{
    let above = snapshot.rows[i].issue;
    let below = snapshot.rows[j].issue;
    assert(!issue_before(below, above));
}

/// Which of two issues comes first in the display order.
pub proof fn law_the_display_order_of_two_issues(a: IssueModel, b: IssueModel)
    ensures
        a.priority < b.priority ==> issue_before(a, b),
        a.priority == b.priority && a.updated_at is Some && b.updated_at is None ==> issue_before(
            a,
            b,
        ),
        a.priority == b.priority && a.updated_at is Some && b.updated_at is Some && text_less(
            b.updated_at->Some_0,
            a.updated_at->Some_0,
        ) ==> issue_before(a, b),
        a.priority == b.priority && a.updated_at == b.updated_at && text_less(a.id, b.id)
            ==> issue_before(a, b),
        issue_before(a, b) ==> !issue_before(b, a),
{
    lemma_issue_order(a, b, a);
}

/// The repository of a row: an issue whose id the map attributes shows the
/// name of that repository's directory and carries its prefix. The prefix is
/// added to the name exactly where another prefix among the issues has the
/// same directory name. Any other issue belongs to no known repository.
pub proof fn law_a_row_names_its_repository(
    issues: Seq<IssueModel>,
    entries: Seq<(Seq<char>, Option<Seq<u8>>)>,
    generation: Option<nat>,
    i: int,
)
    requires
        0 <= i < issues.len(),
    ensures
        ({
            let row = rows_of(issues, entries, generation)[i];
            &&& row.issue == issues[i]
            &&& match attributed(entries, issues[i].id) {
                Some((prefix, path)) => {
                    let shared = exists|j: int|
                        0 <= j < issues.len() && {
                            &&& attributed(entries, (#[trigger] issues[j]).id) matches Some(other)
                            &&& base_name(other.1) == base_name(path) && other.0 != prefix
                        };
                    &&& row.repo_id == Some(prefix)
                    &&& !shared ==> row.repo_name == base_name(path)
                    &&& shared ==> row.repo_name.len() == base_name(path).len() + prefix.len() + 3
                        && base_name(path).is_prefix_of(row.repo_name)
                        && row.repo_name.subrange(
                        base_name(path).len() as int + 2,
                        row.repo_name.len() - 1,
                    ) == prefix
                },
                None => row.repo_id is None && row.repo_name == UNKNOWN_REPO@,
            }
        }),
{
    reveal_strlit(" (");
    reveal_strlit(")");
    let row = rows_of(issues, entries, generation)[i];
    match attributed(entries, issues[i].id) {
        Some((prefix, path)) => {
            let name = base_name(path);
            assert(label_of(entries, issues[i]) == Some((name, prefix)));
            if ambiguous(issues, entries, name) {
                let (a, b) = choose|a: int, b: int|
                    0 <= a < issues.len() && 0 <= b < issues.len() && {
                        &&& label_of(entries, #[trigger] issues[a]) matches Some(x)
                        &&& label_of(entries, #[trigger] issues[b]) matches Some(y)
                        &&& x.0 == name && y.0 == name && x.1 != y.1
                    };
                let x = attributed(entries, issues[a].id)->Some_0;
                let y = attributed(entries, issues[b].id)->Some_0;
                assert(x.0 != prefix || y.0 != prefix);
                assert(name =~= row.repo_name.subrange(0, name.len() as int));
                assert(row.repo_name.subrange(name.len() as int + 2, row.repo_name.len() - 1) =~= prefix);
            }
        },
        None => {},
    }
}

/// A repository is called by the name of its directory, wherever that lies; a
/// path without a name is shown whole.
pub proof fn law_a_repository_is_called_by_its_directory(base: Seq<u8>, name: Seq<u8>)
    requires
        plain_name(name),
        name != seq![DOT, DOT],
    ensures
        base_name(joined(base, name)) == lossy_utf8(name),
        file_name_bytes(base) is None ==> base_name(base) == lossy_utf8(base),
{
    law_an_absolute_path_replaces_its_base(base, name);
}

/// What is said of a row is what it holds, each part in its own place.
pub proof fn law_a_row_is_told_as_it_is(row: Row, snapshot: Snapshot)
    ensures
        row@.issue == row.issue@,
        row@.repo_name == row.repo_name@,
        row.repo_id matches Some(id) ==> row@.repo_id == Some(id@),
        row.repo_id is None ==> row@.repo_id is None,
        row@.generation is Some <==> row.attribution_generation is Some,
        snapshot@.fetched_at == snapshot.fetched_at@,
        snapshot@.rows.len() == snapshot.rows@.len(),
        forall|i: int|
            0 <= i < snapshot.rows@.len() ==> #[trigger] snapshot@.rows[i] == snapshot.rows@[i]@,
{
}

} // verus!
