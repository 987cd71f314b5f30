//! Which rows are shown: one choice of repository and one of priority.
use vstd::prelude::*;
use vstd::string::*;
use crate::snapshot::{rows_view, Row, RowModel, UNKNOWN_REPO};
use crate::text::{same_text, texts};

verus! {

/// The choice of repository.
#[derive(Debug, PartialEq, Eq)]
pub enum RepoFilter {
    /// Every repository.
    All,
    /// One repository: rows with this id, or rows without an id that carry
    /// this name.
    Only(String),
    /// The rows that no repository could claim.
    Unknown,
}

/// What a [`RepoFilter`] holds.
pub enum RepoFilterModel {
    All,
    Only(Seq<char>),
    Unknown,
}

impl View for RepoFilter {
    type V = RepoFilterModel;

    open spec fn view(&self) -> RepoFilterModel {
        match self {
            RepoFilter::All => RepoFilterModel::All,
            RepoFilter::Only(key) => RepoFilterModel::Only(key@),
            RepoFilter::Unknown => RepoFilterModel::Unknown,
        }
    }
}

impl Default for RepoFilter {
    fn default() -> (res: RepoFilter)
        ensures
            res@ == RepoFilterModel::All,
    {
        RepoFilter::All
    }
}

impl Clone for RepoFilter {
    fn clone(&self) -> (res: RepoFilter)
        ensures
            res@ == self@,
    {
        match self {
            RepoFilter::All => RepoFilter::All,
            RepoFilter::Only(key) => RepoFilter::Only(key.clone()),
            RepoFilter::Unknown => RepoFilter::Unknown,
        }
    }
}

impl RepoFilter {
    /// Whether two choices are the same.
    pub fn same(&self, other: &RepoFilter) -> (res: bool)
        ensures
            res == (self@ == other@),
    {
        match (self, other) {
            (RepoFilter::All, RepoFilter::All) => true,
            (RepoFilter::Unknown, RepoFilter::Unknown) => true,
            (RepoFilter::Only(a), RepoFilter::Only(b)) => same_text(a.as_str(), b.as_str()),
            _ => false,
        }
    }
}

/// The choice of priority.
#[derive(Debug, Clone, Copy, PartialEq, Eq, Structural)]
pub enum PriorityFilter {
    /// Every priority.
    All,
    /// Priorities 0 and 1 only.
    HighOnly,
}

impl Default for PriorityFilter {
    fn default() -> (res: PriorityFilter)
        ensures
            res == PriorityFilter::All,
    {
        PriorityFilter::All
    }
}

/// The two choices together.
#[derive(Debug, PartialEq, Eq)]
pub struct FilterSet {
    repo: RepoFilter,
    priority: PriorityFilter,
}

/// What a [`FilterSet`] holds.
pub struct FilterModel {
    pub repo: RepoFilterModel,
    pub priority: PriorityFilter,
}

impl View for FilterSet {
    type V = FilterModel;

    closed spec fn view(&self) -> FilterModel {
        FilterModel { repo: self.repo@, priority: self.priority }
    }
}

impl Default for FilterSet {
    fn default() -> (res: FilterSet)
        ensures
            res@ == (FilterModel { repo: RepoFilterModel::All, priority: PriorityFilter::All }),
    {
        FilterSet { repo: RepoFilter::All, priority: PriorityFilter::All }
    }
}

impl Clone for FilterSet {
    fn clone(&self) -> (res: FilterSet)
        ensures
            res@ == self@,
    {
        FilterSet { repo: self.repo.clone(), priority: self.priority }
    }
}

/// What a row's repository is known by: its id, or its name where it has no
/// id.
pub open spec fn repo_key(row: RowModel) -> Seq<char> {
    match row.repo_id {
        Some(id) => id,
        None => row.repo_name,
    }
}

/// Whether a row belongs to the chosen repository.
pub open spec fn repo_passes(repo: RepoFilterModel, row: RowModel) -> bool {
    match repo {
        RepoFilterModel::All => true,
        RepoFilterModel::Only(key) => repo_key(row) == key,
        RepoFilterModel::Unknown => row.repo_id is None && row.repo_name == UNKNOWN_REPO@,
    }
}

/// Whether a row has a chosen priority.
pub open spec fn priority_passes(priority: PriorityFilter, row: RowModel) -> bool {
    match priority {
        PriorityFilter::All => true,
        PriorityFilter::HighOnly => row.issue.priority <= 1,
    }
}

/// Whether a row is shown.
pub open spec fn passes(filter: FilterModel, row: RowModel) -> bool {
    repo_passes(filter.repo, row) && priority_passes(filter.priority, row)
}

/// The other choice of priority.
pub open spec fn toggled(priority: PriorityFilter) -> PriorityFilter {
    match priority {
        PriorityFilter::All => PriorityFilter::HighOnly,
        PriorityFilter::HighOnly => PriorityFilter::All,
    }
}

/// What a row's repository is known by.
pub fn key_of(row: &Row) -> (res: &str)
    ensures
        res@ == repo_key(row@),
{
    match &row.repo_id {
        Some(id) => id.as_str(),
        None => row.repo_name.as_str(),
    }
}

impl FilterSet {
    /// A filter with these choices.
    pub fn new(repo: RepoFilter, priority: PriorityFilter) -> (res: FilterSet)
        ensures
            res@ == (FilterModel { repo: repo@, priority }),
    {
        FilterSet { repo, priority }
    }

    /// Whether a row is shown: it has to pass both choices.
    pub fn matches(&self, row: &Row) -> (res: bool)
        ensures
            res == passes(self@, row@),
    {
        let repo_ok = match &self.repo {
            RepoFilter::All => true,
            RepoFilter::Only(key) => same_text(key_of(row), key.as_str()),
            RepoFilter::Unknown => row.repo_id.is_none() && same_text(
                row.repo_name.as_str(),
                UNKNOWN_REPO,
            ),
        };
        let priority_ok = match self.priority {
            PriorityFilter::All => true,
            PriorityFilter::HighOnly => row.issue.priority <= 1,
        };
        repo_ok && priority_ok
    }

    /// The choice of repository.
    pub fn repo(&self) -> (res: &RepoFilter)
        ensures
            res@ == self@.repo,
    {
        &self.repo
    }

    /// The choice of priority.
    pub fn priority(&self) -> (res: PriorityFilter)
        ensures
            res == self@.priority,
    {
        self.priority
    }

    /// Replaces the choice of repository.
    pub fn set_repo(&mut self, repo: RepoFilter)
        ensures
            final(self)@ == (FilterModel { repo: repo@, ..old(self)@ }),
    {
        self.repo = repo;
    }

    /// Switches to the other choice of priority.
    pub fn toggle_priority(&mut self)
        ensures
            final(self)@ == (FilterModel { priority: toggled(old(self)@.priority), ..old(self)@ }),
    {
        self.priority = match self.priority {
            PriorityFilter::All => PriorityFilter::HighOnly,
            PriorityFilter::HighOnly => PriorityFilter::All,
        };
    }
}

/// Toggling the priority twice changes nothing.
pub proof fn law_toggling_twice_is_nothing(priority: PriorityFilter)
    ensures
        toggled(toggled(priority)) == priority,
{
}

// ---------------------------------------------------------------------------
// Cycling through the repositories
// ---------------------------------------------------------------------------

/// The repositories of some rows, each once, in the order in which they first
/// appear.
pub open spec fn repos_in_order(rows: Seq<RowModel>) -> Seq<Seq<char>>
    decreases rows.len(),
{
    if rows.len() == 0 {
        seq![]
    } else {
        let before = repos_in_order(rows.drop_last());
        if before.contains(repo_key(rows.last())) {
            before
        } else {
            before.push(repo_key(rows.last()))
        }
    }
}

/// The choice after the current one: from every repository to the first, from
/// each to the next, and from the last (or from one that no row has) back to
/// every repository.
pub open spec fn next_repo(rows: Seq<RowModel>, current: RepoFilterModel) -> RepoFilterModel {
    let repos = repos_in_order(rows);
    match current {
        RepoFilterModel::All => if repos.len() > 0 {
            RepoFilterModel::Only(repos[0])
        } else {
            RepoFilterModel::All
        },
        RepoFilterModel::Only(key) => {
            let i = repos.index_of(key);
            if repos.contains(key) && i + 1 < repos.len() {
                RepoFilterModel::Only(repos[i + 1])
            } else {
                RepoFilterModel::All
            }
        },
        RepoFilterModel::Unknown => RepoFilterModel::All,
    }
}

/// The repositories of some rows are distinct, and they are those of the rows.
pub proof fn lemma_repos_in_order(rows: Seq<RowModel>)
    ensures
        repos_in_order(rows).no_duplicates(),
        forall|i: int|
            0 <= i < rows.len() ==> repos_in_order(rows).contains(repo_key(#[trigger] rows[i])),
        rows.len() > 0 ==> repos_in_order(rows).len() > 0,
    decreases rows.len(),
{
    if rows.len() > 0 {
        let rest = rows.drop_last();
        lemma_repos_in_order(rest);
        let before = repos_in_order(rest);
        let last = repo_key(rows.last());
        let now = repos_in_order(rows);
        if !before.contains(last) {
            assert forall|i: int, j: int| 0 <= i < now.len() && 0 <= j < now.len() && i
                != j implies now[i] != now[j] by {
                if i < before.len() && j < before.len() {
                    assert(before[i] != before[j]);
                } else if i < before.len() {
                    assert(before.contains(before[i]));
                } else {
                    assert(before.contains(before[j]));
                }
            }
            assert(now[now.len() - 1] == last);
        }
        assert forall|i: int| 0 <= i < rows.len() implies now.contains(
            repo_key(#[trigger] rows[i]),
        ) by {
            if i < rest.len() {
                assert(rest[i] == rows[i]);
                let k = choose|k: int| 0 <= k < before.len() && before[k] == repo_key(rest[i]);
                assert(now[k] == before[k]);
            }
        }
    }
}

/// The repositories of some rows, each once, in the order in which they first
/// appear.
pub fn list_repos(rows: &Vec<Row>) -> (res: Vec<String>)
    ensures
        texts(res@) == repos_in_order(rows_view(rows@)),
{
    let ghost all = rows_view(rows@);
    let mut names: Vec<String> = Vec::new();
    let mut i: usize = 0;
    assert(texts(names@) =~= repos_in_order(all.take(0)));
    while i < rows.len()
        invariant
            i <= rows@.len(),
            all == rows_view(rows@),
            texts(names@) == repos_in_order(all.take(i as int)),
        decreases rows@.len() - i,
    {
        let ghost before = names@;
        let key = key_of(&rows[i]);
        assert(all.take(i + 1).drop_last() =~= all.take(i as int));
        assert(all.take(i + 1).last() == rows@[i as int]@);
        match position_of(&names, key) {
            Some(_) => {},
            None => {
                names.push(String::from_str(key));
                assert(texts(names@) =~= texts(before).push(key@));
            },
        }
        i += 1;
    }
    assert(all.take(all.len() as int) =~= all);
    names
}

/// Where a text stands in a list.
pub fn position_of(names: &Vec<String>, key: &str) -> (res: Option<usize>)
    ensures
        match res {
            Some(i) => i < names@.len() && names@[i as int]@ == key@ && forall|k: int|
                0 <= k < i ==> (#[trigger] names@[k])@ != key@,
            None => !texts(names@).contains(key@),
        },
        res is Some ==> texts(names@).contains(key@),
{
    let mut i: usize = 0;
    while i < names.len()
        invariant
            i <= names@.len(),
            forall|k: int| 0 <= k < i ==> (#[trigger] names@[k])@ != key@,
        decreases names@.len() - i,
    {
        if same_text(names[i].as_str(), key) {
            assert(texts(names@)[i as int] == key@);
            return Some(i);
        }
        i += 1;
    }
    None
}

/// The choice after the current one.
pub fn next_repo_filter(rows: &Vec<Row>, current: &RepoFilter) -> (res: RepoFilter)
    ensures
        res@ == next_repo(rows_view(rows@), current@),
{
    let names = list_repos(rows);
    let ghost repos = texts(names@);
    proof {
        lemma_repos_in_order(rows_view(rows@));
    }
    match current {
        RepoFilter::All => if names.len() > 0 {
            assert(repos[0] == names@[0]@);
            RepoFilter::Only(names[0].clone())
        } else {
            RepoFilter::All
        },
        RepoFilter::Only(key) => match position_of(&names, key.as_str()) {
            Some(i) => {
                proof {
                    let k = repos.index_of(key@);
                    assert(repos[i as int] == key@);
                    repos.index_of_first_ensures(key@);
                    assert(repos.contains(key@));
                    assert(repos[k] == key@);
                    assert(k == i);
                }
                let len: usize = names.len();
                if i + 1 < len {
                    assert(repos[i + 1] == names@[i + 1]@);
                    RepoFilter::Only(names[i + 1].clone())
                } else {
                    RepoFilter::All
                }
            },
            None => RepoFilter::All,
        },
        RepoFilter::Unknown => RepoFilter::All,
    }
}

/// The choice after some number of presses.
pub open spec fn cycled(rows: Seq<RowModel>, current: RepoFilterModel, times: nat)
    -> RepoFilterModel
    decreases times,
{
    if times == 0 {
        current
    } else {
        next_repo(rows, cycled(rows, current, (times - 1) as nat))
    }
}

/// Cycling visits every repository once, in order, and then comes back to
/// every repository: after `k` presses from there the `k`-th repository is
/// chosen, and one press after the last leads back.
pub proof fn law_cycling_visits_each_repository_and_returns(rows: Seq<RowModel>, k: nat)
    requires
        k <= repos_in_order(rows).len(),
    ensures
        k > 0 ==> cycled(rows, RepoFilterModel::All, k) == RepoFilterModel::Only(
            repos_in_order(rows)[k - 1],
        ),
        cycled(rows, RepoFilterModel::All, repos_in_order(rows).len() + 1) == RepoFilterModel::All,
{
    lemma_cycled(rows, k);
    lemma_cycled(rows, repos_in_order(rows).len());
    lemma_repos_in_order(rows);
    let repos = repos_in_order(rows);
    if repos.len() > 0 {
        lemma_index_of(repos, repos.len() - 1);
    }
}

proof fn lemma_index_of(repos: Seq<Seq<char>>, i: int)
    requires
        repos.no_duplicates(),
        0 <= i < repos.len(),
    ensures
        repos.contains(repos[i]),
        repos.index_of(repos[i]) == i,
{
    let k = repos.index_of(repos[i]);
    assert(repos.contains(repos[i]));
    assert(repos[k] == repos[i]);
}

proof fn lemma_cycled(rows: Seq<RowModel>, k: nat)
    requires
        k <= repos_in_order(rows).len(),
    ensures
        k > 0 ==> cycled(rows, RepoFilterModel::All, k) == RepoFilterModel::Only(
            repos_in_order(rows)[k - 1],
        ),
    decreases k,
{
    let repos = repos_in_order(rows);
    lemma_repos_in_order(rows);
    if k > 1 {
        lemma_cycled(rows, (k - 1) as nat);
        lemma_index_of(repos, k - 2);
    } else if k == 1 {
        assert(cycled(rows, RepoFilterModel::All, 0) == RepoFilterModel::All);
    }
}

/// With the high priorities chosen, a row is shown exactly where its priority is
/// 0 or 1, or even more urgent, and it belongs to the chosen repository; with
/// all priorities chosen, the repository alone decides.
pub proof fn law_both_choices_have_to_pass(repo: RepoFilterModel, row: RowModel)
    ensures
        passes(FilterModel { repo, priority: PriorityFilter::HighOnly }, row) <==> row.issue.priority
            < 2 && passes(FilterModel { repo, priority: PriorityFilter::All }, row),
        passes(FilterModel { repo: RepoFilterModel::All, priority: PriorityFilter::All }, row),
{
}

/// Choosing a repository shows the rows with its id, and rows without an id by
/// their name. The choice of the unknown repository shows exactly the rows that
/// belong to none; a repository that is really called so is another one.
pub proof fn law_a_chosen_repository_shows_its_rows(
    key: Seq<char>,
    row: RowModel,
    priority: PriorityFilter,
)
    requires
        priority == PriorityFilter::All,
    ensures
        row.repo_id is Some ==> (passes(
            FilterModel { repo: RepoFilterModel::Only(key), priority },
            row,
        ) <==> row.repo_id->Some_0 == key),
        row.repo_id is None ==> (passes(
            FilterModel { repo: RepoFilterModel::Only(key), priority },
            row,
        ) <==> row.repo_name == key),
        passes(FilterModel { repo: RepoFilterModel::Unknown, priority }, row) <==> row.repo_id
            is None && row.repo_name == UNKNOWN_REPO@,
{
}

/// Where a repository stands when cycling: the repositories come in the order
/// in which the rows first show them, each once, and none besides.
pub proof fn law_repositories_come_in_order_of_appearance(rows: Seq<RowModel>, k: int)
    requires
        0 <= k < repos_in_order(rows).len(),
    ensures
        repos_in_order(rows).no_duplicates(),
        exists|i: int|
            0 <= i < rows.len() && repo_key(#[trigger] rows[i]) == repos_in_order(rows)[k] && (
            forall|j: int| 0 <= j < i ==> repo_key(#[trigger] rows[j]) != repos_in_order(rows)[k])
                && repos_in_order(rows.take(i)) == repos_in_order(rows).take(k),
    decreases rows.len(),
{
    lemma_repos_in_order(rows);
    if rows.len() > 0 {
        let n = rows.len() - 1;
        let rest = rows.drop_last();
        let before = repos_in_order(rest);
        let now = repos_in_order(rows);
        lemma_repos_in_order(rest);
        if k < before.len() {
            law_repositories_come_in_order_of_appearance(rest, k);
            assert(now[k] == before[k]);
            let i = choose|i: int|
                0 <= i < rest.len() && repo_key(#[trigger] rest[i]) == before[k] && (forall|j: int|
                    0 <= j < i ==> repo_key(#[trigger] rest[j]) != before[k]) && repos_in_order(
                    rest.take(i),
                ) == before.take(k);
            assert(rows[i] == rest[i]);
            assert(rows.take(i) =~= rest.take(i));
            assert(now.take(k) =~= before.take(k));
            assert forall|j: int| 0 <= j < i implies repo_key(#[trigger] rows[j]) != now[k] by {
                assert(rest[j] == rows[j]);
            }
        } else {
            assert(rows[n] == rows.last());
            assert(now[k] == repo_key(rows[n]));
            assert(rows.take(n) =~= rest);
            assert(now.take(k) =~= before);
            assert forall|j: int| 0 <= j < n implies repo_key(#[trigger] rows[j]) != now[k] by {
                assert(rest[j] == rows[j]);
            }
        }
    }
}

/// A choice that no row has, or the choice of the unknown repository, leads back
/// to every repository; so does any choice where there are no rows.
pub proof fn law_an_absent_choice_leads_back(rows: Seq<RowModel>, key: Seq<char>)
    requires
        forall|i: int| 0 <= i < rows.len() ==> repo_key(#[trigger] rows[i]) != key,
    ensures
        next_repo(rows, RepoFilterModel::Only(key)) == RepoFilterModel::All,
        next_repo(rows, RepoFilterModel::Unknown) == RepoFilterModel::All,
        rows.len() == 0 ==> next_repo(rows, RepoFilterModel::All) == RepoFilterModel::All,
{
    let repos = repos_in_order(rows);
    if repos.contains(key) {
        let k = choose|k: int| 0 <= k < repos.len() && repos[k] == key;
        law_repositories_come_in_order_of_appearance(rows, k);
    }
}

} // verus!
