use vstd::prelude::*;

use crate::ids::{lemma_push_ids, lemma_remove_ids, Id};
use crate::questions::{Choice, ChoiceCensored, Question, QuestionCensored};

verus! {

/// One choice as a cell of the answer grid.
#[derive(Debug, PartialEq)]
pub struct ChoiceItem {
    pub content: String,
    pub is_right: bool,
    pub id: Id,
}

impl ChoiceItem {
    pub fn new(content: String, is_right: bool, id: Id) -> (r: Self)
        ensures
            r.content@ == content@,
            r.is_right == is_right,
            r.id == id,
    {
        ChoiceItem { content, is_right, id }
    }
}

impl vstd::std_specs::convert::FromSpecImpl<ChoiceCensored> for ChoiceItem {
    open spec fn obeys_from_spec() -> bool {
        false
    }

    open spec fn from_spec(c: ChoiceCensored) -> ChoiceItem {
        arbitrary()
    }
}

impl From<ChoiceCensored> for ChoiceItem {
    /// A hidden choice: not marked right.
    fn from(c: ChoiceCensored) -> (r: ChoiceItem)
        ensures
            r.content@ == c.text@,
            !r.is_right,
            r.id == c.id,
    {
        ChoiceItem::new(c.text, false, c.id)
    }
}

impl vstd::std_specs::convert::FromSpecImpl<Choice> for ChoiceItem {
    open spec fn obeys_from_spec() -> bool {
        false
    }

    open spec fn from_spec(c: Choice) -> ChoiceItem {
        arbitrary()
    }
}

impl From<Choice> for ChoiceItem {
    fn from(c: Choice) -> (r: ChoiceItem)
        ensures
            r.content@ == c.text@,
            r.is_right == c.is_right,
            r.id == c.id,
    {
        ChoiceItem::new(c.text, c.is_right, c.id)
    }
}

/// A cell as its text, its flag and its id.
pub type CellView = (Seq<char>, bool, Id);

/// The cells of a row.
pub open spec fn item_views(s: Seq<ChoiceItem>) -> Seq<CellView> {
    s.map_values(|c: ChoiceItem| (c.content@, c.is_right, c.id))
}

/// The number of cells of each row.
pub open spec fn row_lens(rows: Seq<Vec<ChoiceItem>>) -> Seq<nat> {
    rows.map_values(|row: Vec<ChoiceItem>| row.len() as nat)
}

/// The cells of hidden choices: none marked right.
pub open spec fn censored_cells(s: Seq<ChoiceCensored>) -> Seq<CellView> {
    s.map_values(|c: ChoiceCensored| (c.text@, false, c.id))
}

/// The cells of choices, with their flags.
pub open spec fn choice_cells(s: Seq<Choice>) -> Seq<CellView> {
    s.map_values(|c: Choice| (c.text@, c.is_right, c.id))
}

/// The shape of the answer grid for `n` choices: up to three in one
/// row, more in rows of two.
pub open spec fn grid_row_lens(n: nat) -> Seq<nat>
    decreases n,
{
    if n == 0 {
        seq![]
    } else if n <= 3 {
        seq![n]
    } else if n == 4 {
        seq![2nat, 2nat]
    } else {
        grid_row_lens((n - 2) as nat).push(2)
    }
}

proof fn lemma_grid_row_lens(n: nat)
    ensures
        grid_row_lens(n).len() == 0 <==> n == 0,
        forall|i: int| 0 <= i < grid_row_lens(n).len() ==> #[trigger] grid_row_lens(n)[i] > 0,
    decreases n,
{
    if n > 4 {
        lemma_grid_row_lens((n - 2) as nat);
    }
}

/// Rows laid out for `n` cells: none when there are no cells, and no row
/// without cells.
proof fn lemma_grid_rows_filled(rows: Seq<Vec<ChoiceItem>>, n: nat)
    requires
        row_lens(rows) == grid_row_lens(n),
    ensures
        (rows.len() == 0 || exists|i: int| 0 <= i < rows.len() && (#[trigger] rows[i]).len() == 0)
            == (n == 0),
{
    lemma_grid_row_lens(n);
    if exists|i: int| 0 <= i < rows.len() && (#[trigger] rows[i]).len() == 0 {
        let i = choose|i: int| 0 <= i < rows.len() && (#[trigger] rows[i]).len() == 0;
        assert(row_lens(rows)[i] == 0);
    }
    assert(rows.len() == row_lens(rows).len());
}

/// The choices laid out as rows of cells.
#[derive(Debug, PartialEq)]
pub struct ChoiceGrid {
    items: Vec<Vec<ChoiceItem>>,
    is_empty: bool,
}

/// The cells of a grid, row by row.
pub open spec fn grid_cells(rows: Seq<Vec<ChoiceItem>>) -> Seq<CellView>
    decreases rows.len(),
{
    if rows.len() == 0 {
        seq![]
    } else {
        grid_cells(rows.drop_last()) + item_views(rows.last()@)
    }
}

impl ChoiceGrid {
    pub closed spec fn rows(&self) -> Seq<Vec<ChoiceItem>> {
        self.items@
    }

    /// A grid over these rows; it is empty when it has no row or a row
    /// without cells.
    pub fn new(items: Vec<Vec<ChoiceItem>>) -> (r: Self)
        ensures
            r.rows() == items@,
            r.is_empty() == (items.len() == 0 || exists|i: int|
                0 <= i < items.len() && (#[trigger] items@[i]).len() == 0),
    {
        let mut is_empty = items.len() == 0;
        let mut i: usize = 0;
        while i < items.len()
            invariant
                i <= items.len(),
                is_empty == (items.len() == 0 || exists|k: int|
                    0 <= k < i && (#[trigger] items@[k]).len() == 0),
            decreases items.len() - i,
        {
            if items[i].len() == 0 {
                is_empty = true;
            }
            i += 1;
        }
        ChoiceGrid { items, is_empty }
    }

    pub closed spec fn spec_is_empty(&self) -> bool {
        self.is_empty
    }

    #[verifier::when_used_as_spec(spec_is_empty)]
    pub fn is_empty(&self) -> (r: bool)
        ensures
            r == self.spec_is_empty(),
    {
        self.is_empty
    }

    /// The rows, handing the grid over.
    pub fn items(self) -> (r: Vec<Vec<ChoiceItem>>)
        ensures
            r@ == self.rows(),
    {
        self.items
    }
}

/// Lays the cells out: up to three in one row, more in rows of two.
pub fn create_grid(items: Vec<ChoiceItem>) -> (r: Vec<Vec<ChoiceItem>>)
    ensures
        row_lens(r@) == grid_row_lens(items.len() as nat),
        grid_cells(r@) == item_views(items@),
    decreases items.len(),
{
    let n = items.len();
    let mut items = items;
    let ghost all = items@;
    if n == 0 {
        let r: Vec<Vec<ChoiceItem>> = Vec::new();
        assert(row_lens(r@) =~= grid_row_lens(0));
        assert(item_views(all) =~= seq![]);
        return r;
    }
    if n <= 3 {
        let mut r: Vec<Vec<ChoiceItem>> = Vec::new();
        r.push(items);
        proof {
            assert(r@.drop_last() =~= seq![]);
            assert(r@.last()@ == all);
            reveal_with_fuel(grid_cells, 2);
            assert(grid_cells(r@) =~= item_views(all));
            assert(row_lens(r@) =~= grid_row_lens(
                n as nat,
            ));
        }
        return r;
    }
    let tail = items.split_off(n - 2);
    assert(items@ == all.subrange(0, n - 2));
    assert(tail@ == all.subrange(n - 2, n as int));
    let mut r: Vec<Vec<ChoiceItem>>;
    if n == 4 {
        r = Vec::new();
        r.push(items);
        proof {
            assert(r@.drop_last() =~= seq![]);
        }
    } else {
        r = create_grid(items);
    }
    let ghost before = r@;
    r.push(tail);
    proof {
        assert(r@.drop_last() =~= before);
        assert(r@.last()@ == all.subrange(n - 2, n as int));
        assert(grid_cells(before) == item_views(all.subrange(0, n - 2))) by {
            if n == 4 {
                reveal_with_fuel(grid_cells, 2);
                assert(before.drop_last() =~= seq![]);
                assert(before.last()@ == all.subrange(0, n - 2));
            }
        }
        assert(all =~= all.subrange(0, n - 2) + all.subrange(n - 2, n as int));
        assert(item_views(all) =~= item_views(all.subrange(0, n - 2)) + item_views(all.subrange(n - 2, n as int)));
        assert(grid_cells(r@) =~= item_views(all));
        assert(row_lens(r@) =~= row_lens(before).push(2));
        if n == 4 {
            assert(grid_row_lens(4) =~= seq![2nat, 2nat]);
        }
    }
    r
}

impl vstd::std_specs::convert::FromSpecImpl<QuestionCensored> for ChoiceGrid {
    open spec fn obeys_from_spec() -> bool {
        false
    }

    open spec fn from_spec(q: QuestionCensored) -> ChoiceGrid {
        arbitrary()
    }
}

impl From<QuestionCensored> for ChoiceGrid {
    /// The grid of a question's hidden choices, in order.
    fn from(q: QuestionCensored) -> (r: ChoiceGrid)
        ensures
            grid_cells(r.rows()) == censored_cells(q.choices@),
            row_lens(r.rows()) == grid_row_lens(q.choices.len() as nat),
            r.is_empty() == (q.choices.len() == 0),
    {
        let mut items: Vec<ChoiceItem> = Vec::new();
        let mut choices = q.choices;
        let ghost all = choices@;
        let mut i: usize = 0;
        let n = choices.len();
        while i < n
            invariant
                n == all.len(),
                i <= n,
                choices@ == all.subrange(i as int, n as int),
                items@.len() == i,
                item_views(items@) == censored_cells(all.subrange(0, i as int)),
            decreases n - i,
        {
            let c = choices.remove(0);
            proof {
                assert(c == all[i as int]);
            }
            let ghost prev = items@;
            let item = ChoiceItem::new(c.text, false, c.id);
            items.push(item);
            i += 1;
            proof {
                assert(items@ == prev.push(item));
                assert forall|k: int| 0 <= k < i implies #[trigger] item_views(items@)[k] == censored_cells(
                    all.subrange(0, i as int),
                )[k] by {
                    if k < i - 1 {
                        assert(item_views(prev)[k] == censored_cells(all.subrange(0, i - 1))[k]);
                    } else {
                        assert(items@[k] == item);
                    }
                }
                assert(item_views(items@) =~= censored_cells(all.subrange(0, i as int)));
                assert(choices@ =~= all.subrange(i as int, n as int));
            }
        }
        assert(all.subrange(0, n as int) =~= all);
        let rows = create_grid(items);
        proof {
            lemma_grid_rows_filled(rows@, n as nat);
        }
        ChoiceGrid::new(rows)
    }
}

impl vstd::std_specs::convert::FromSpecImpl<Question> for ChoiceGrid {
    open spec fn obeys_from_spec() -> bool {
        false
    }

    open spec fn from_spec(q: Question) -> ChoiceGrid {
        arbitrary()
    }
}

impl From<Question> for ChoiceGrid {
    /// The grid of a question's choices with their flags, in order.
    fn from(q: Question) -> (r: ChoiceGrid)
        ensures
            grid_cells(r.rows()) == choice_cells(q.choices@),
            row_lens(r.rows()) == grid_row_lens(q.choices.len() as nat),
            r.is_empty() == (q.choices.len() == 0),
    {
        let mut items: Vec<ChoiceItem> = Vec::new();
        let mut choices = q.choices;
        let ghost all = choices@;
        let mut i: usize = 0;
        let n = choices.len();
        while i < n
            invariant
                n == all.len(),
                i <= n,
                choices@ == all.subrange(i as int, n as int),
                items@.len() == i,
                item_views(items@) == choice_cells(all.subrange(0, i as int)),
            decreases n - i,
        {
            let c = choices.remove(0);
            proof {
                assert(c == all[i as int]);
            }
            let ghost prev = items@;
            let item = ChoiceItem::new(c.text, c.is_right, c.id);
            items.push(item);
            i += 1;
            proof {
                assert(items@ == prev.push(item));
                assert forall|k: int| 0 <= k < i implies #[trigger] item_views(items@)[k] == choice_cells(
                    all.subrange(0, i as int),
                )[k] by {
                    if k < i - 1 {
                        assert(item_views(prev)[k] == choice_cells(all.subrange(0, i - 1))[k]);
                    } else {
                        assert(items@[k] == item);
                    }
                }
                assert(item_views(items@) =~= choice_cells(all.subrange(0, i as int)));
                assert(choices@ =~= all.subrange(i as int, n as int));
            }
        }
        assert(all.subrange(0, n as int) =~= all);
        let rows = create_grid(items);
        proof {
            lemma_grid_rows_filled(rows@, n as nat);
        }
        ChoiceGrid::new(rows)
    }
}

/// Where the cursor stands in the answer grid, and which choices are
/// picked.
#[derive(Debug)]
pub struct ChoiceSelectorState {
    pub row: usize,
    pub col: usize,
    pub items: Vec<Vec<Id>>,
    pub selected: Vec<Id>,
}

impl ChoiceSelectorState {
    /// At least one row, no row empty, the cursor on a cell, and no
    /// choice picked twice.
    pub open spec fn wf(&self) -> bool {
        &&& self.items.len() > 0
        &&& forall|i: int| 0 <= i < self.items.len() ==> (#[trigger] self.items@[i]).len() > 0
        &&& self.row < self.items.len()
        &&& self.col < self.items@[self.row as int].len()
        &&& self.selected@.no_duplicates()
    }

    pub open spec fn cursor(&self) -> (usize, usize) {
        (self.row, self.col)
    }

    pub open spec fn cells(&self) -> Seq<Vec<Id>> {
        self.items@
    }

    pub open spec fn picked(&self) -> Set<Id> {
        self.selected@.to_set()
    }

    /// The ids of a grid's cells, row by row.
    pub fn new(items: Vec<Vec<Id>>) -> (r: Self)
        ensures
            items.len() > 0 && (forall|i: int| 0 <= i < items.len() ==> (#[trigger] items@[i]).len()
                > 0) ==> r.wf(),
            r.selected@.len() == 0,
            r.cursor() == (0usize, 0usize),
            r.cells() == items@,
            r.picked() == Set::<Id>::empty(),
    {
        let r = ChoiceSelectorState { row: 0, col: 0, items, selected: Vec::new() };
        assert(r.selected@.to_set() =~= Set::<Id>::empty());
        r
    }

    /// Puts the cursor on the last cell of its row if it went past it.
    fn normalize_cursor(&mut self)
        requires
            old(self).items.len() > 0,
            forall|i: int| 0 <= i < old(self).items.len() ==> (#[trigger] old(self).items@[i]).len() > 0,
            old(self).row < old(self).items.len(),
            old(self).selected@.no_duplicates(),
        ensures
            final(self).wf(),
            final(self).row == old(self).row,
            final(self).col == if old(self).col >= old(self).items@[old(self).row as int].len() {
                (old(self).items@[old(self).row as int].len() - 1) as usize
            } else {
                old(self).col
            },
            final(self).items == old(self).items,
            final(self).selected == old(self).selected,
    {
        let row_len = self.items[self.row].len();
        if self.col >= row_len {
            self.col = row_len - 1;
        }
    }

    /// The cursor goes one row up, from the top to the bottom.
    pub fn move_up(&mut self)
        requires
            old(self).wf(),
        ensures
            final(self).wf(),
            final(self).row == if old(self).row == 0 {
                (old(self).items.len() - 1) as usize
            } else {
                (old(self).row - 1) as usize
            },
            final(self).col == if old(self).col >= final(self).items@[final(self).row as int].len() {
                (final(self).items@[final(self).row as int].len() - 1) as usize
            } else {
                old(self).col
            },
            final(self).items == old(self).items,
            final(self).selected == old(self).selected,
    {
        if self.row == 0 {
            self.row = self.items.len() - 1;
        } else {
            self.row -= 1;
        }
        self.normalize_cursor();
    }

    /// The cursor goes one row down, from the bottom to the top.
    pub fn move_down(&mut self)
        requires
            old(self).wf(),
        ensures
            final(self).wf(),
            final(self).row == (old(self).row + 1) % (old(self).items.len() as int),
            final(self).col == if old(self).col >= final(self).items@[final(self).row as int].len() {
                (final(self).items@[final(self).row as int].len() - 1) as usize
            } else {
                old(self).col
            },
            final(self).items == old(self).items,
            final(self).selected == old(self).selected,
    {
        self.row = (self.row + 1) % self.items.len();
        self.normalize_cursor();
    }

    /// The cursor goes one cell left, from the first to the last.
    pub fn move_left(&mut self)
        requires
            old(self).wf(),
        ensures
            final(self).wf(),
            final(self).row == old(self).row,
            final(self).col == if old(self).col == 0 {
                (old(self).items@[old(self).row as int].len() - 1) as usize
            } else {
                (old(self).col - 1) as usize
            },
            final(self).items == old(self).items,
            final(self).selected == old(self).selected,
    {
        let row_len = self.items[self.row].len();
        if self.col == 0 {
            self.col = row_len - 1;
        } else {
            self.col -= 1;
        }
    }

    /// The cursor goes one cell right, from the last to the first.
    pub fn move_right(&mut self)
        requires
            old(self).wf(),
        ensures
            final(self).wf(),
            final(self).row == old(self).row,
            final(self).col == (old(self).col + 1) % (old(self).items@[old(self).row as int].len() as int),
            final(self).items == old(self).items,
            final(self).selected == old(self).selected,
    {
        let row_len = self.items[self.row].len();
        self.col = (self.col + 1) % row_len;
    }

    /// The picked choices.
    pub fn selected(&self) -> (r: Vec<Id>)
        ensures
            r@ == self.selected@,
    {
        crate::ids::copy_ids(&self.selected)
    }

    /// Picks the choice under the cursor, or unpicks it if it was picked.
    pub fn toggle_selection(&mut self)
        requires
            old(self).wf(),
        ensures
            final(self).wf(),
            final(self).row == old(self).row,
            final(self).col == old(self).col,
            final(self).items == old(self).items,
            ({
                let item = old(self).items@[old(self).row as int]@[old(self).col as int];
                final(self).picked() == if old(self).picked().contains(item) {
                    old(self).picked().remove(item)
                } else {
                    old(self).picked().insert(item)
                }
            }),
    {
        let item = self.items[self.row][self.col];
        let ghost before = self.selected@;
        let ghost start = *self;
        let mut i: usize = 0;
        while i < self.selected.len()
            invariant
                *self == start,
                start == *old(self),
                start.wf(),
                item == start.items@[start.row as int]@[start.col as int],
                i <= self.selected.len(),
                self.selected@ == before,
                forall|k: int| 0 <= k < i ==> before[k] != item,
            decreases self.selected.len() - i,
        {
            if self.selected[i] == item {
                self.selected.remove(i);
                proof {
                    lemma_remove_ids(before, i as int);
                    assert(self.selected@.to_set() =~= before.to_set().remove(item)) by {
                        assert forall|x: Id| #[trigger] self.selected@.to_set().contains(x) <==> before.to_set().remove(item).contains(x) by {
                            assert(self.selected@.to_set().contains(x) <==> self.selected@.contains(x));
                            assert(before.to_set().contains(x) <==> before.contains(x));
                        }
                    }
                }
                return;
            }
            i += 1;
        }
        proof {
            lemma_push_ids(before, item);
        }
        self.selected.push(item);
        proof {
            assert(self.selected@.to_set() =~= before.to_set().insert(item)) by {
                assert forall|x: Id| #[trigger] self.selected@.to_set().contains(x) <==> before.to_set().insert(item).contains(x) by {
                    assert(self.selected@.to_set().contains(x) <==> self.selected@.contains(x));
                    assert(before.to_set().contains(x) <==> before.contains(x));
                }
            }
        }
    }
}

} // verus!
