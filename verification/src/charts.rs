//! Which table rows a bar chart draws. Reading the number texts as numbers
//! and laying out the bars is floating-point work done by the caller; the
//! library picks the rows and the text of their numbers.
use vstd::prelude::*;
use crate::render::{number_text, numeric_text};
use crate::text::{chars_of, string_of};

verus! {

/// A row to draw: its label, the cells shown for its values, and the number
/// text of each of those cells.
pub struct ChartRow {
    pub label: String,
    pub displays: Vec<String>,
    pub numbers: Vec<String>,
}

/// The text of a `ChartRow`.
pub struct ChartRowView {
    pub label: Seq<char>,
    pub displays: Seq<Seq<char>>,
    pub numbers: Seq<Seq<char>>,
}

/// The character sequences of a list of strings.
pub open spec fn texts(v: Seq<String>) -> Seq<Seq<char>> {
    v.map_values(|s: String| s@)
}

impl View for ChartRow {
    type V = ChartRowView;

    open spec fn view(&self) -> ChartRowView {
        ChartRowView {
            label: self.label@,
            displays: texts(self.displays@),
            numbers: texts(self.numbers@),
        }
    }
}

/// The views of a list of rows.
pub open spec fn row_views(v: Seq<ChartRow>) -> Seq<ChartRowView> {
    v.map_values(|r: ChartRow| r@)
}

/// The text of a table.
pub open spec fn table_view(t: Seq<Vec<String>>) -> Seq<Seq<Seq<char>>> {
    t.map_values(|row: Vec<String>| texts(row@))
}

/// The number texts of all `cells`, or nothing when one of them has none.
pub open spec fn all_numbers(cells: Seq<Seq<char>>) -> Option<Seq<Seq<char>>>
    decreases cells.len(),
{
    if cells.len() == 0 {
        Some(Seq::empty())
    } else {
        match (all_numbers(cells.drop_last()), number_text(cells.last())) {
            (Some(ns), Some(n)) => Some(ns.push(n)),
            _ => None,
        }
    }
}

/// A comparison-chart row: the cells after the label, at most three, when
/// there is at least one and each holds a number text.
pub open spec fn comparison_row(row: Seq<Seq<char>>) -> Option<ChartRowView> {
    if row.len() < 2 {
        None
    } else {
        let displays = row.subrange(1, if row.len() < 4 { row.len() as int } else { 4 });
        match all_numbers(displays) {
            Some(numbers) => Some(ChartRowView { label: row[0], displays, numbers }),
            None => None,
        }
    }
}

/// A horizontal-chart row: the cell of `column`, when the row has it and it
/// holds a number text.
pub open spec fn horizontal_row(row: Seq<Seq<char>>, column: int) -> Option<ChartRowView> {
    if column >= row.len() {
        None
    } else {
        match number_text(row[column]) {
            Some(n) => Some(ChartRowView { label: row[0], displays: seq![row[column]], numbers: seq![n] }),
            None => None,
        }
    }
}

/// The rows, in order, that `pick` keeps.
pub open spec fn picked(rows: Seq<Seq<Seq<char>>>, pick: spec_fn(Seq<Seq<char>>) -> Option<ChartRowView>) -> Seq<ChartRowView>
    decreases rows.len(),
{
    if rows.len() == 0 {
        Seq::empty()
    } else {
        let rest = picked(rows.drop_last(), pick);
        match pick(rows.last()) {
            Some(r) => rest.push(r),
            None => rest,
        }
    }
}

/// The rows of a comparison chart: nothing when the header has fewer than
/// four cells, otherwise the comparison rows of the data rows.
pub open spec fn comparison_rows_of(table: Seq<Seq<Seq<char>>>) -> Option<Seq<ChartRowView>> {
    if table.len() == 0 || table[0].len() < 4 {
        None
    } else {
        Some(picked(table.drop_first(), |row: Seq<Seq<char>>| comparison_row(row)))
    }
}

/// The rows of a horizontal chart on `column`: the horizontal rows of the
/// data rows.
pub open spec fn horizontal_rows_of(table: Seq<Seq<Seq<char>>>, column: int) -> Seq<ChartRowView> {
    if table.len() == 0 {
        Seq::empty()
    } else {
        picked(table.drop_first(), |row: Seq<Seq<char>>| horizontal_row(row, column))
    }
}

fn copy_cell(s: &String) -> (r: String)
    ensures
        r@ == s@,
{
    let v = chars_of(s.as_str());
    string_of(v.as_slice())
}

fn pick_comparison(row: &Vec<String>) -> (r: Option<ChartRow>)
    ensures
        match r {
            Some(x) => comparison_row(texts(row@)) == Some(x@),
            None => comparison_row(texts(row@)) is None,
        },
{
    let n = row.len();
    if n < 2 {
        return None;
    }
    let end: usize = if n < 4 {
        n
    } else {
        4
    };
    let ghost cells = texts(row@).subrange(1, end as int);
    let mut displays: Vec<String> = Vec::new();
    let mut numbers: Vec<String> = Vec::new();
    let mut i: usize = 1;
    assert(cells.take(0) =~= Seq::<Seq<char>>::empty());
    assert(texts(displays@) =~= Seq::<Seq<char>>::empty());
    while i < end
        invariant
            1 <= i <= end <= n == row.len(),
            end == if n < 4 { n } else { 4 },
            cells == texts(row@).subrange(1, end as int),
            texts(displays@) == cells.take(i - 1),
            all_numbers(cells.take(i - 1)) == Some(texts(numbers@)),
        decreases end - i,
    {
        let cell = &row[i];
        let num = numeric_text(cell.as_str());
        let ghost prefix = cells.take(i as int);
        assert(prefix.drop_last() =~= cells.take(i - 1));
        assert(prefix.last() == cell@);
        match num {
            None => {
                proof {
                    assert(number_text(cell@) is None);
                    assert(all_numbers(prefix) is None);
                    lemma_no_numbers_after(cells, i as int);
                }
                return None;
            },
            Some(x) => {
                let d = copy_cell(cell);
                let ghost before = texts(numbers@);
                displays.push(d);
                numbers.push(x);
                assert(texts(numbers@) =~= before.push(x@));
                assert(texts(displays@) =~= cells.take(i as int));
            },
        }
        i = i + 1;
    }
    assert(cells.take(end - 1) =~= cells);
    let label = copy_cell(&row[0]);
    let r = ChartRow { label, displays, numbers };
    assert(r@.displays == cells);
    Some(r)
}

proof fn lemma_no_numbers_after(cells: Seq<Seq<char>>, i: int)
    requires
        1 <= i <= cells.len(),
        all_numbers(cells.take(i)) is None,
    ensures
        all_numbers(cells) is None,
    decreases cells.len() - i,
{
    if i < cells.len() {
        let next = cells.take(i + 1);
        assert(next.drop_last() =~= cells.take(i));
        lemma_no_numbers_after(cells, i + 1);
    } else {
        assert(cells.take(i) =~= cells);
    }
}

fn pick_horizontal(row: &Vec<String>, column: usize) -> (r: Option<ChartRow>)
    ensures
        match r {
            Some(x) => horizontal_row(texts(row@), column as int) == Some(x@),
            None => horizontal_row(texts(row@), column as int) is None,
        },
{
    if column >= row.len() {
        return None;
    }
    match numeric_text(row[column].as_str()) {
        None => None,
        Some(x) => {
            let label = copy_cell(&row[0]);
            let d = copy_cell(&row[column]);
            let mut displays: Vec<String> = Vec::new();
            displays.push(d);
            let mut numbers: Vec<String> = Vec::new();
            numbers.push(x);
            let r = ChartRow { label, displays, numbers };
            assert(r@.displays =~= seq![texts(row@)[column as int]]);
            assert(r@.numbers =~= seq![x@]);
            Some(r)
        },
    }
}

/// The rows that a comparison chart of `table` draws before their numbers are
/// read: `None` when the header row has fewer than four cells; otherwise each
/// data row with at least one value cell (of the next three after its label)
/// whose cells all hold a number text.
pub fn comparison_rows(table: &[Vec<String>]) -> (r: Option<Vec<ChartRow>>)
    ensures
        match r {
            Some(rows) => comparison_rows_of(table_view(table@)) == Some(row_views(rows@)),
            None => comparison_rows_of(table_view(table@)) is None,
        },
{
    let ghost tv = table_view(table@);
    if table.len() == 0 || table[0].len() < 4 {
        return None;
    }
    let ghost data = tv.drop_first();
    let ghost pick = |row: Seq<Seq<char>>| comparison_row(row);
    let mut out: Vec<ChartRow> = Vec::new();
    let mut i: usize = 1;
    assert(data.take(0) =~= Seq::<Seq<Seq<char>>>::empty());
    assert(row_views(out@) =~= Seq::<ChartRowView>::empty());
    while i < table.len()
        invariant
            1 <= i <= table.len(),
            tv == table_view(table@),
            data == tv.drop_first(),
            pick == (|row: Seq<Seq<char>>| comparison_row(row)),
            row_views(out@) == picked(data.take(i - 1), pick),
        decreases table.len() - i,
    {
        let ghost next = data.take(i as int);
        assert(next.drop_last() =~= data.take(i - 1));
        assert(next.last() == texts(table@[i as int]@));
        let ghost before = row_views(out@);
        match pick_comparison(&table[i]) {
            Some(row) => {
                out.push(row);
                assert(row_views(out@) =~= before.push(out@.last()@));
            },
            None => {},
        }
        i = i + 1;
    }
    assert(data.take(table.len() - 1) =~= data);
    Some(out)
}

/// The rows that a horizontal chart of `table` on `column` draws before their
/// numbers are read: each data row that has the cell and whose cell holds a
/// number text, labelled by its first cell.
pub fn horizontal_rows(table: &[Vec<String>], column: usize) -> (r: Vec<ChartRow>)
    ensures
        row_views(r@) == horizontal_rows_of(table_view(table@), column as int),
{
    let ghost tv = table_view(table@);
    let mut out: Vec<ChartRow> = Vec::new();
    if table.len() == 0 {
        assert(row_views(out@) =~= Seq::<ChartRowView>::empty());
        return out;
    }
    let ghost data = tv.drop_first();
    let ghost pick = |row: Seq<Seq<char>>| horizontal_row(row, column as int);
    let mut i: usize = 1;
    assert(data.take(0) =~= Seq::<Seq<Seq<char>>>::empty());
    assert(row_views(out@) =~= Seq::<ChartRowView>::empty());
    while i < table.len()
        invariant
            1 <= i <= table.len(),
            tv == table_view(table@),
            data == tv.drop_first(),
            pick == (|row: Seq<Seq<char>>| horizontal_row(row, column as int)),
            row_views(out@) == picked(data.take(i - 1), pick),
        decreases table.len() - i,
    {
        let ghost next = data.take(i as int);
        assert(next.drop_last() =~= data.take(i - 1));
        assert(next.last() == texts(table@[i as int]@));
        let ghost before = row_views(out@);
        match pick_horizontal(&table[i], column) {
            Some(row) => {
                out.push(row);
                assert(row_views(out@) =~= before.push(out@.last()@));
            },
            None => {},
        }
        i = i + 1;
    }
    assert(data.take(table.len() - 1) =~= data);
    out
}

} // verus!
