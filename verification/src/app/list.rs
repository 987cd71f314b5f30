//! A list of rows of which some are shown and one is selected.
use vstd::prelude::*;
use crate::app::filter::{passes, FilterModel, FilterSet};
use crate::snapshot::{copy_rows, rows_view, Row, RowModel};

verus! {

/// The positions of the rows that pass a filter, in order.
pub open spec fn visible(rows: Seq<RowModel>, filter: FilterModel) -> Seq<int>
    decreases rows.len(),
{
    if rows.len() == 0 {
        seq![]
    } else {
        let before = visible(rows.drop_last(), filter);
        if passes(filter, rows.last()) {
            before.push(rows.len() - 1)
        } else {
            before
        }
    }
}

/// The rows that pass a filter, in order.
pub open spec fn visible_rows(rows: Seq<RowModel>, filter: FilterModel) -> Seq<RowModel> {
    visible(rows, filter).map_values(|i: int| rows[i])
}

/// A selection brought within a number of rows.
pub open spec fn clamped(selection: int, len: int) -> int {
    if len == 0 {
        0
    } else if selection >= len {
        len - 1
    } else {
        selection
    }
}

/// Whether a selection lies within a number of rows; without rows it is 0.
pub open spec fn in_bounds(selection: int, len: int) -> bool {
    0 <= selection && (if len == 0 {
        selection == 0
    } else {
        selection < len
    })
}

/// What a [`RowList`] holds.
pub struct ListModel {
    pub rows: Seq<RowModel>,
    pub selection: int,
}

/// The selected row.
pub open spec fn selected(list: ListModel, filter: FilterModel) -> Option<RowModel> {
    let shown = visible(list.rows, filter);
    if 0 <= list.selection < shown.len() {
        Some(list.rows[shown[list.selection]])
    } else {
        None
    }
}

/// The list with its selection brought within what a filter shows.
pub open spec fn refiltered(list: ListModel, filter: FilterModel) -> ListModel {
    ListModel {
        rows: list.rows,
        selection: clamped(list.selection, visible(list.rows, filter).len() as int),
    }
}

/// The list with the next row selected; the last stays selected.
pub open spec fn moved_down(list: ListModel, filter: FilterModel) -> ListModel {
    let n = visible(list.rows, filter).len();
    ListModel {
        rows: list.rows,
        selection: if n == 0 {
            list.selection
        } else {
            clamped(list.selection + 1, n as int)
        },
    }
}

/// The list with the previous row selected; the first stays selected.
pub open spec fn moved_up(list: ListModel) -> ListModel {
    ListModel {
        rows: list.rows,
        selection: if list.selection > 0 {
            list.selection - 1
        } else {
            0
        },
    }
}

/// The positions shown stand in order, lie within the rows, and are exactly
/// those of the rows that pass.
pub proof fn lemma_visible(rows: Seq<RowModel>, filter: FilterModel)
    ensures
        visible(rows, filter).len() <= rows.len(),
        forall|k: int|
            0 <= k < visible(rows, filter).len() ==> 0 <= #[trigger] visible(rows, filter)[k]
                < rows.len() && passes(filter, rows[visible(rows, filter)[k]]),
        forall|a: int, b: int|
            0 <= a < b < visible(rows, filter).len() ==> #[trigger] visible(rows, filter)[a]
                < #[trigger] visible(rows, filter)[b],
        forall|i: int|
            0 <= i < rows.len() && passes(filter, #[trigger] rows[i]) ==> visible(
                rows,
                filter,
            ).contains(i),
    decreases rows.len(),
{
    if rows.len() > 0 {
        let rest = rows.drop_last();
        lemma_visible(rest, filter);
        let before = visible(rest, filter);
        let now = visible(rows, filter);
        assert forall|k: int| 0 <= k < now.len() implies 0 <= #[trigger] now[k] < rows.len()
            && passes(filter, rows[now[k]]) by {
            if k < before.len() {
                assert(now[k] == before[k]);
                assert(rest[before[k]] == rows[before[k]]);
            }
        }
        assert forall|a: int, b: int| 0 <= a < b < now.len() implies #[trigger] now[a]
            < #[trigger] now[b] by {
            assert(now[a] == before[a]);
            if b < before.len() {
                assert(now[b] == before[b]);
            }
        }
        assert forall|i: int| 0 <= i < rows.len() && passes(
            filter,
            #[trigger] rows[i],
        ) implies now.contains(i) by {
            if i < rest.len() {
                assert(rest[i] == rows[i]);
                let k = choose|k: int| 0 <= k < before.len() && before[k] == i;
                assert(now[k] == i);
            } else {
                assert(now[now.len() - 1] == i);
            }
        }
    }
}

/// A list of rows, the positions of those that are shown, and a selection
/// among them.
#[derive(Debug)]
pub struct RowList {
    rows: Vec<Row>,
    shown: Vec<usize>,
    selection: usize,
}

impl View for RowList {
    type V = ListModel;

    closed spec fn view(&self) -> ListModel {
        ListModel { rows: rows_view(self.rows@), selection: self.selection as int }
    }
}

impl RowList {
    /// Whether the list shows what a filter lets through, with the selection
    /// within it.
    pub closed spec fn shows(&self, filter: FilterModel) -> bool {
        &&& self.shown@.map_values(|i: usize| i as int) == visible(rows_view(self.rows@), filter)
        &&& in_bounds(self.selection as int, visible(rows_view(self.rows@), filter).len() as int)
    }

    /// A list without rows.
    pub fn empty() -> (res: RowList)
        ensures
            res@ == (ListModel { rows: seq![], selection: 0 }),
            forall|filter: FilterModel| res.shows(filter),
    {
        let res = RowList { rows: Vec::new(), shown: Vec::new(), selection: 0 };
        assert(rows_view(res.rows@) =~= seq![]);
        assert(res.shown@.map_values(|i: usize| i as int) =~= seq![]);
        res
    }

    /// The list of these rows under a filter, with `selection` brought within
    /// what is shown.
    pub fn new(rows: Vec<Row>, selection: usize, filter: &FilterSet) -> (res: RowList)
        ensures
            res@ == refiltered(
                ListModel { rows: rows_view(rows@), selection: selection as int },
                filter@,
            ),
            res.shows(filter@),
    {
        let ghost all = rows_view(rows@);
        let mut shown: Vec<usize> = Vec::new();
        let mut i: usize = 0;
        assert(shown@.map_values(|i: usize| i as int) =~= visible(all.take(0), filter@));
        while i < rows.len()
            invariant
                i <= rows@.len(),
                all == rows_view(rows@),
                shown@.map_values(|i: usize| i as int) == visible(all.take(i as int), filter@),
            decreases rows@.len() - i,
        {
            let ghost before = shown@;
            assert(all.take(i + 1).drop_last() =~= all.take(i as int));
            assert(all.take(i + 1).last() == rows@[i as int]@);
            if filter.matches(&rows[i]) {
                shown.push(i);
                assert(shown@.map_values(|i: usize| i as int) =~= before.map_values(
                    |i: usize| i as int,
                ).push(i as int));
            }
            i += 1;
        }
        assert(all.take(all.len() as int) =~= all);
        let len: usize = shown.len();
        let at: usize = if len == 0 {
            0
        } else if selection >= len {
            len - 1
        } else {
            selection
        };
        let ghost n = shown@.map_values(|i: usize| i as int).len();
        assert(n == len);
        RowList { rows, shown, selection: at }
    }

    /// Applies another filter.
    pub fn refilter(&mut self, filter: &FilterSet)
        ensures
            final(self)@ == refiltered(old(self)@, filter@),
            final(self).shows(filter@),
    {
        let mut rows: Vec<Row> = Vec::new();
        std::mem::swap(&mut rows, &mut self.rows);
        let selection: usize = self.selection;
        *self = RowList::new(rows, selection, filter);
    }

    /// Selects the next row.
    pub(crate) fn move_down(&mut self, Ghost(filter): Ghost<FilterModel>)
        requires
            old(self).shows(filter),
        ensures
            final(self)@ == moved_down(old(self)@, filter),
            final(self).shows(filter),
    {
        let len: usize = self.shown.len();
        assert(self.shown@.map_values(|i: usize| i as int).len() == len);
        if len > 0 && self.selection < len - 1 {
            self.selection = self.selection + 1;
        }
    }

    /// Selects the previous row.
    pub(crate) fn move_up(&mut self, Ghost(filter): Ghost<FilterModel>)
        requires
            old(self).shows(filter),
        ensures
            final(self)@ == moved_up(old(self)@),
            final(self).shows(filter),
    {
        if self.selection > 0 {
            self.selection = self.selection - 1;
        }
    }

    /// Every row.
    pub fn rows(&self) -> (res: &Vec<Row>)
        ensures
            rows_view(res@) == self@.rows,
    {
        &self.rows
    }

    /// The number of rows shown.
    pub(crate) fn shown_len(&self, Ghost(filter): Ghost<FilterModel>) -> (res: usize)
        requires
            self.shows(filter),
        ensures
            res == visible(self@.rows, filter).len(),
    {
        assert(self.shown@.map_values(|i: usize| i as int).len() == self.shown@.len());
        self.shown.len()
    }

    /// The row at a position among those shown.
    pub(crate) fn shown_row(&self, at: usize, Ghost(filter): Ghost<FilterModel>) -> (res: &Row)
        requires
            self.shows(filter),
            at < visible(self@.rows, filter).len(),
        ensures
            res@ == self@.rows[visible(self@.rows, filter)[at as int]],
            visible(self@.rows, filter)[at as int] < self@.rows.len(),
    {
        proof {
            lemma_visible(self@.rows, filter);
            assert(self.shown@.map_values(|i: usize| i as int)[at as int] == self.shown@[at as int]);
        }
        &self.rows[self.shown[at]]
    }

    /// The position of the selected row among those shown.
    pub fn selection(&self) -> (res: usize)
        ensures
            res == self@.selection,
    {
        self.selection
    }

    /// The selected row.
    pub(crate) fn selected_row(&self, Ghost(filter): Ghost<FilterModel>) -> (res: Option<&Row>)
        requires
            self.shows(filter),
        ensures
            match res {
                Some(row) => selected(self@, filter) == Some(row@),
                None => selected(self@, filter) is None,
            },
    {
        let len: usize = self.shown_len(Ghost(filter));
        if self.selection < len {
            Some(self.shown_row(self.selection, Ghost(filter)))
        } else {
            None
        }
    }
}

impl Clone for RowList {
    fn clone(&self) -> (res: RowList)
        ensures
            res@ == self@,
            forall|filter: FilterModel| self.shows(filter) ==> res.shows(filter),
    {
        let mut shown: Vec<usize> = Vec::new();
        let mut i: usize = 0;
        while i < self.shown.len()
            invariant
                i <= self.shown@.len(),
                shown@ == self.shown@.take(i as int),
            decreases self.shown@.len() - i,
        {
            shown.push(self.shown[i]);
            i += 1;
        }
        assert(shown@ =~= self.shown@);
        RowList {
            rows: copy_rows(&self.rows),
            shown,
            selection: self.selection,
        }
    }
}

/// What is shown are exactly the rows that pass, each once and in their order:
/// between two rows shown next to each other there is none that passes, nor
/// above the first or below the last.
pub proof fn law_exactly_the_passing_rows_are_shown(
    rows: Seq<RowModel>,
    filter: FilterModel,
    i: int,
)
    requires
        0 <= i < rows.len(),
    ensures
        passes(filter, rows[i]) <==> visible(rows, filter).contains(i),
        passes(filter, rows[i]) ==> visible_rows(rows, filter).contains(rows[i]),
        forall|a: int, b: int|
            0 <= a < b < visible(rows, filter).len() ==> #[trigger] visible(rows, filter)[a]
                < #[trigger] visible(rows, filter)[b],
        visible_rows(rows, filter).len() <= rows.len(),
{
    lemma_visible(rows, filter);
    let shown = visible(rows, filter);
    if shown.contains(i) {
        let k = choose|k: int| 0 <= k < shown.len() && shown[k] == i;
        assert(passes(filter, rows[shown[k]]));
        assert(visible_rows(rows, filter)[k] == rows[i]);
    }
}

/// Another filter or other rows leave the selection where it is as long as it
/// lies within what is shown; otherwise the last row shown is selected.
pub proof fn law_a_selection_stays_or_becomes_the_last(list: ListModel, filter: FilterModel)
    requires
        list.selection >= 0,
    ensures
        ({
            let n = visible(list.rows, filter).len();
            let after = refiltered(list, filter);
            &&& after.rows == list.rows
            &&& list.selection < n ==> after.selection == list.selection
            &&& list.selection >= n && n > 0 ==> after.selection == n - 1
            &&& n == 0 ==> after.selection == 0 && selected(after, filter) is None
            &&& n > 0 ==> selected(after, filter) == Some(
                visible_rows(list.rows, filter)[after.selection],
            )
        }),
{
}

} // verus!
