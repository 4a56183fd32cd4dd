//! Row storage for one table: live and tombstoned slots, per-column
//! uniqueness sets, and the schema.

use crate::column_info::ColumnInfo;
use crate::column_info::ColumnInfoV;
use crate::error::DBResult;
use crate::sql::Expr;
use crate::value::Value;
use crate::value::ValueV;
use crate::value::str_eq;
use vstd::prelude::*;

verus! {

/// One row slot: a stable id and either a live tuple or a tombstone.
pub struct RowSlot {
    /// The row id, assigned once and never reused.
    pub id: usize,
    /// The tuple, or `None` for a tombstoned (deleted) slot.
    pub cells: Option<Vec<Value>>,
}

/// Mathematical model of a row slot.
#[verifier::ext_equal]
pub ghost struct RowSlotV {
    pub id: int,
    pub cells: Option<Seq<ValueV>>,
}

/// The model of a tuple: the sequence of cell models.
pub open spec fn spec_row_view(r: Seq<Value>) -> Seq<ValueV> {
    Seq::new(r.len(), |i: int| r[i]@)
}

impl View for RowSlot {
    type V = RowSlotV;

    open spec fn view(&self) -> RowSlotV {
        RowSlotV {
            id: self.id as int,
            cells: match self.cells {
                None => None,
                Some(r) => Some(spec_row_view(r@)),
            },
        }
    }
}

/// The model of the slot vector.
pub open spec fn spec_rows_view(rows: Seq<RowSlot>) -> Seq<RowSlotV> {
    Seq::new(rows.len(), |i: int| rows[i]@)
}

/// The model of one uniqueness set.
pub open spec fn spec_set_view(s: Seq<Value>) -> Seq<ValueV> {
    Seq::new(s.len(), |i: int| s[i]@)
}

/// The model of the per-column uniqueness sets.
pub open spec fn spec_sets_view(s: Seq<Vec<Value>>) -> Seq<Seq<ValueV>> {
    Seq::new(s.len(), |i: int| spec_set_view(s[i]@))
}

/// The model of the schema.
pub open spec fn spec_cols_view(s: Seq<ColumnInfo>) -> Seq<ColumnInfoV> {
    Seq::new(s.len(), |i: int| s[i]@)
}

/// A table: ordered row slots plus schema and derived uniqueness sets.
pub struct Table {
    /// All row slots, ordered by strictly increasing row id; a `None`
    /// tuple marks a deleted row kept in place.
    pub rows: Vec<RowSlot>,
    /// The next row id to hand out; never reused within this table.
    pub row_idx_acc: usize,
    /// The number of live rows.
    pub row_num: usize,
    /// For each unique column, the set of live non-null values in it;
    /// empty for other columns.
    pub columns_values: Vec<Vec<Value>>,
    /// Metadata about each column.
    pub columns_info: Vec<ColumnInfo>,
}

/// Mathematical model of a table.
#[verifier::ext_equal]
pub ghost struct TableV {
    pub rows: Seq<RowSlotV>,
    pub row_idx_acc: int,
    pub row_num: int,
    pub columns_values: Seq<Seq<ValueV>>,
    pub columns_info: Seq<ColumnInfoV>,
}

impl View for Table {
    type V = TableV;

    open spec fn view(&self) -> TableV {
        TableV {
            rows: spec_rows_view(self.rows@),
            row_idx_acc: self.row_idx_acc as int,
            row_num: self.row_num as int,
            columns_values: spec_sets_view(self.columns_values@),
            columns_info: spec_cols_view(self.columns_info@),
        }
    }
}

/// The number of live slots.
pub open spec fn spec_live_count(rows: Seq<RowSlotV>) -> int
    decreases rows.len(),
{
    if rows.len() == 0 {
        0
    } else {
        (if rows.last().cells is Some {
            1int
        } else {
            0int
        }) + spec_live_count(rows.drop_last())
    }
}

/// Whether some live row holds value `v` in column `c`.
pub open spec fn spec_live_col_has(rows: Seq<RowSlotV>, c: int, v: ValueV) -> bool {
    exists|i: int|
        {
            &&& 0 <= i < rows.len()
            &&& (#[trigger] rows[i].cells) matches Some(cells)
            &&& 0 <= c < cells.len()
            &&& cells[c] == v
        }
}

/// Whether a uniqueness set holds value `v`.
pub open spec fn spec_set_has(cv: Seq<ValueV>, v: ValueV) -> bool {
    exists|i: int| 0 <= i < cv.len() && cv[i] == v
}

/// Whether a sequence of values has no duplicates.
pub open spec fn spec_no_dup(cv: Seq<ValueV>) -> bool {
    forall|i: int, j: int| 0 <= i < j < cv.len() ==> cv[i] != cv[j]
}

impl TableV {
    /// The number of columns.
    pub open spec fn col_count(self) -> int {
        self.columns_info.len() as int
    }

    /// Row ids strictly increase along the slot vector.
    pub open spec fn ids_increasing(self) -> bool {
        forall|i: int, j: int|
            0 <= i < j < self.rows.len() ==> #[trigger] self.rows[i].id < #[trigger] self.rows[j].id
    }

    /// Every live tuple has one cell per column.
    pub open spec fn rows_sized(self) -> bool {
        forall|i: int|
            0 <= i < self.rows.len() ==> ((#[trigger] self.rows[i].cells) matches Some(cells)
                ==> cells.len() == self.col_count())
    }

    /// The id allocator exceeds every stored row id.
    pub open spec fn acc_above_ids(self) -> bool {
        forall|i: int| 0 <= i < self.rows.len() ==> #[trigger] self.rows[i].id < self.row_idx_acc
    }

    /// `row_num` counts the live slots.
    pub open spec fn row_num_correct(self) -> bool {
        self.row_num == spec_live_count(self.rows)
    }

    /// The uniqueness set of column `c` holds exactly the live non-null
    /// values of that column, without duplicates and without nulls.
    pub open spec fn unique_set_correct(self, c: int) -> bool {
        &&& spec_no_dup(self.columns_values[c])
        &&& !spec_set_has(self.columns_values[c], ValueV::Null)
        &&& forall|v: ValueV|
            v != ValueV::Null ==> (#[trigger] spec_set_has(self.columns_values[c], v)
                <==> spec_live_col_has(self.rows, c, v))
        &&& self.no_live_dup(c)
    }

    /// No two live rows share a non-null value in column `c`.
    pub open spec fn no_live_dup(self, c: int) -> bool {
        forall|i: int, j: int|
            0 <= i < j < self.rows.len() ==> ((#[trigger] self.rows[i].cells) matches Some(a)
                ==> ((#[trigger] self.rows[j].cells) matches Some(b) ==> (0 <= c < a.len() && 0
                    <= c < b.len() && a[c] == b[c] ==> a[c] == ValueV::Null)))
    }

    /// The per-column sets: exact for unique columns, empty elsewhere.
    pub open spec fn sets_correct(self) -> bool {
        &&& self.columns_values.len() == self.col_count()
        &&& forall|c: int|
            0 <= c < self.col_count() && self.columns_info[c].unique
                ==> #[trigger] self.unique_set_correct(c)
        &&& forall|c: int|
            0 <= c < self.col_count() && !self.columns_info[c].unique ==> (
            #[trigger] self.columns_values[c]).len() == 0
    }

    /// No live row is null in a non-nullable column.
    pub open spec fn nullability_correct(self) -> bool {
        forall|i: int, c: int|
            0 <= i < self.rows.len() && 0 <= c < self.col_count() && !(
            #[trigger] self.columns_info[c]).nullable ==> ((#[trigger] self.rows[i].cells) matches
                Some(cells) ==> cells[c] != ValueV::Null)
    }

    /// Column names are pairwise distinct.
    pub open spec fn names_unique(self) -> bool {
        forall|i: int, j: int|
            0 <= i < j < self.col_count() ==> (#[trigger] self.columns_info[i].name) != (
            #[trigger] self.columns_info[j].name)
    }

    /// The table invariant: holds after every completed statement.
    pub open spec fn wf(self) -> bool {
        &&& self.ids_increasing()
        &&& self.rows_sized()
        &&& self.acc_above_ids()
        &&& self.row_num_correct()
        &&& self.sets_correct()
        &&& self.nullability_correct()
        &&& self.names_unique()
    }
}

/// The smallest index whose column is named `name`, if any.
pub open spec fn spec_col_index(cols: Seq<ColumnInfoV>, name: Seq<char>) -> Option<int>
    decreases cols.len(),
{
    if cols.len() == 0 {
        None
    } else if cols[0].name == name {
        Some(0int)
    } else {
        match spec_col_index(cols.drop_first(), name) {
            Some(i) => Some(i + 1),
            None => None,
        }
    }
}

/// A found column index lies within the schema.
pub proof fn lemma_col_index_in_range(cols: Seq<ColumnInfoV>, name: Seq<char>)
    ensures
        match spec_col_index(cols, name) {
            Some(i) => 0 <= i < cols.len() && cols[i].name == name,
            None => forall|i: int| 0 <= i < cols.len() ==> (#[trigger] cols[i].name) != name,
        },
    decreases cols.len(),
{
    if cols.len() != 0 {
        lemma_col_index_in_range(cols.drop_first(), name);
        match spec_col_index(cols, name) {
            Some(i) => {
                if i > 0 {
                    assert(cols.drop_first()[i - 1] == cols[i]);
                }
            },
            None => {
                assert forall|i: int| 0 <= i < cols.len() implies (#[trigger] cols[i].name) != name
                by {
                    if i > 0 {
                        assert(cols.drop_first()[i - 1] == cols[i]);
                    }
                }
            },
        }
    }
}

impl Table {
    /// Builds an empty table over the given columns.
    pub fn new(columns_info: Vec<ColumnInfo>) -> (r: Self)
        ensures
            r@.rows =~= Seq::<RowSlotV>::empty(),
            r@.row_idx_acc == 0,
            r@.row_num == 0,
            r@.columns_values.len() == columns_info@.len(),
            forall|c: int|
                0 <= c < columns_info@.len() ==> (#[trigger] r@.columns_values[c]).len() == 0,
            r@.columns_info =~= spec_cols_view(columns_info@),
    {
        let n = columns_info.len();
        let mut columns_values: Vec<Vec<Value>> = Vec::new();
        let mut i: usize = 0;
        while i < n
            invariant
                i <= n,
                columns_values@.len() == i,
                forall|c: int| 0 <= c < i ==> (#[trigger] columns_values@[c])@.len() == 0,
            decreases n - i,
        {
            columns_values.push(Vec::new());
            i = i + 1;
        }
        Table { rows: Vec::new(), row_idx_acc: 0, row_num: 0, columns_values, columns_info }
    }

    /// The zero-column one-row table used to evaluate expressions with
    /// no FROM source.
    pub fn get_dummy() -> (r: Self)
        ensures
            r@.rows.len() == 1,
            r@.rows[0].id == 0,
            r@.rows[0].cells matches Some(cells) && cells.len() == 0,
            r@.row_idx_acc == 1,
            r@.row_num == 1,
            r@.columns_values.len() == 0,
            r@.columns_info.len() == 0,
            r@.wf(),
    {
        let mut rows: Vec<RowSlot> = Vec::new();
        rows.push(RowSlot { id: 0, cells: Some(Vec::new()) });
        let t = Table {
            rows,
            row_idx_acc: 1,
            row_num: 1,
            columns_values: Vec::new(),
            columns_info: Vec::new(),
        };
        proof {
            assert(t@.rows.drop_last() =~= Seq::<RowSlotV>::empty());
            assert(spec_live_count(Seq::<RowSlotV>::empty()) == 0);
            assert(t@.rows.last().cells is Some);
            assert(spec_live_count(t@.rows) == 1);
        }
        t
    }

    /// The number of live rows.
    pub fn get_row_num(&self) -> (r: usize)
        ensures
            r == self@.row_num,
    {
        self.row_num
    }

    /// The number of columns.
    pub fn get_column_num(&self) -> (r: usize)
        ensures
            r == self@.col_count(),
    {
        self.columns_info.len()
    }

    /// Looks a column up by name; the first matching index, if any.
    pub fn get_column_index(&self, column_name: &str) -> (r: Option<usize>)
        ensures
            match spec_col_index(self@.columns_info, column_name@) {
                Some(i) => r matches Some(x) && x as int == i && i < self@.col_count(),
                None => r matches None,
            },
    {
        proof {
            lemma_col_index_in_range(self@.columns_info, column_name@);
            assert(self@.columns_info.skip(0) =~= self@.columns_info);
        }
        let n = self.columns_info.len();
        let mut i: usize = 0;
        while i < n
            invariant
                i <= n,
                n == self@.columns_info.len(),
                spec_col_index(self@.columns_info, column_name@) == match spec_col_index(
                    self@.columns_info.skip(i as int),
                    column_name@,
                ) {
                    Some(k) => Some(k + i),
                    None => None::<int>,
                },
            decreases n - i,
        {
            let ghost rest = self@.columns_info.skip(i as int);
            if str_eq(self.columns_info[i].name.as_str(), column_name) {
                proof {
                    assert(rest[0] == self@.columns_info[i as int]);
                }
                return Some(i);
            }
            proof {
                assert(rest[0] == self@.columns_info[i as int]);
                assert(rest.drop_first() =~= self@.columns_info.skip(i as int + 1));
            }
            i = i + 1;
        }
        proof {
            assert(self@.columns_info.skip(n as int) =~= Seq::<ColumnInfoV>::empty());
        }
        None
    }

    /// The metadata of the column at `column_index`.
    pub fn get_column_info(&self, column_index: usize) -> (r: &ColumnInfo)
        requires
            column_index < self@.col_count(),
        ensures
            r@ == self@.columns_info[column_index as int],
    {
        &self.columns_info[column_index]
    }

    /// Evaluates an expression against a tuple, resolving column
    /// references through this table's schema.
    pub fn calc_expr_for_row(&self, row: &Vec<Value>, expr: &Expr) -> (res: DBResult<Value>)
        requires
            row@.len() == self@.col_count(),
        ensures
            match crate::expr::spec_eval(self@.columns_info, spec_row_view(row@), *expr) {
                Ok(v) => res matches Ok(x) && x@ == v,
                Err(er) => res matches Err(e2) && e2@ =~= seq![er],
            },
    {
        crate::expr::eval_expr(&self.columns_info, row, expr)
    }

    /// Whether a tuple passes a condition; an absent condition selects it.
    pub fn is_row_satisfy_cond(&self, row: &Vec<Value>, cond: &Option<Expr>) -> (res: DBResult<
        bool,
    >)
        requires
            row@.len() == self@.col_count(),
        ensures
            match crate::expr::spec_row_satisfies(self@.columns_info, spec_row_view(row@), *cond) {
                Ok(b) => res matches Ok(x) && x == b,
                Err(er) => res matches Err(e2) && e2@ =~= seq![er],
            },
    {
        crate::expr::row_satisfies(&self.columns_info, row, cond)
    }

    /// The live tuples, in row id order.
    pub fn existed_rows(&self) -> (r: Vec<Vec<Value>>)
        ensures
            spec_rows_deep(r@) =~= spec_live_rows(self@.rows),
    {
        let mut out: Vec<Vec<Value>> = Vec::new();
        let n = self.rows.len();
        let mut i: usize = 0;
        while i < n
            invariant
                i <= n,
                n == self@.rows.len(),
                spec_rows_deep(out@) =~= spec_live_rows(self@.rows.take(i as int)),
            decreases n - i,
        {
            proof {
                assert(self@.rows.take(i as int + 1).drop_last() =~= self@.rows.take(i as int));
                assert(self@.rows.take(i as int + 1).last() == self@.rows[i as int]);
            }
            match &self.rows[i].cells {
                Some(cells) => {
                    let copy = clone_row(cells);
                    out.push(copy);
                },
                None => {},
            }
            i = i + 1;
        }
        proof {
            assert(self@.rows.take(n as int) =~= self@.rows);
        }
        out
    }

    /// The live rows with their ids, in row id order.
    pub fn existed_indexed_rows(&self) -> (r: Vec<(usize, Vec<Value>)>)
        ensures
            spec_indexed_rows_deep(r@) =~= spec_live_indexed_rows(self@.rows),
    {
        let mut out: Vec<(usize, Vec<Value>)> = Vec::new();
        let n = self.rows.len();
        let mut i: usize = 0;
        while i < n
            invariant
                i <= n,
                n == self@.rows.len(),
                spec_indexed_rows_deep(out@) =~= spec_live_indexed_rows(
                    self@.rows.take(i as int),
                ),
            decreases n - i,
        {
            proof {
                assert(self@.rows.take(i as int + 1).drop_last() =~= self@.rows.take(i as int));
                assert(self@.rows.take(i as int + 1).last() == self@.rows[i as int]);
            }
            match &self.rows[i].cells {
                Some(cells) => {
                    let copy = clone_row(cells);
                    out.push((self.rows[i].id, copy));
                },
                None => {},
            }
            i = i + 1;
        }
        proof {
            assert(self@.rows.take(n as int) =~= self@.rows);
        }
        out
    }
}

/// The models of a vector of tuples.
pub open spec fn spec_rows_deep(rs: Seq<Vec<Value>>) -> Seq<Seq<ValueV>> {
    Seq::new(rs.len(), |i: int| spec_row_view(rs[i]@))
}

/// The models of a vector of id-tuple pairs.
pub open spec fn spec_indexed_rows_deep(rs: Seq<(usize, Vec<Value>)>) -> Seq<(int, Seq<ValueV>)> {
    Seq::new(rs.len(), |i: int| (rs[i].0 as int, spec_row_view(rs[i].1@)))
}

/// The live tuples of a slot sequence, in order.
pub open spec fn spec_live_rows(rows: Seq<RowSlotV>) -> Seq<Seq<ValueV>>
    decreases rows.len(),
{
    if rows.len() == 0 {
        Seq::empty()
    } else {
        spec_live_rows(rows.drop_last()) + (match rows.last().cells {
            Some(cells) => seq![cells],
            None => Seq::empty(),
        })
    }
}

/// The live id-tuple pairs of a slot sequence, in order.
pub open spec fn spec_live_indexed_rows(rows: Seq<RowSlotV>) -> Seq<(int, Seq<ValueV>)>
    decreases rows.len(),
{
    if rows.len() == 0 {
        Seq::empty()
    } else {
        spec_live_indexed_rows(rows.drop_last()) + (match rows.last().cells {
            Some(cells) => seq![(rows.last().id, cells)],
            None => Seq::empty(),
        })
    }
}

/// Copies a tuple cell by cell.
pub fn clone_row(r: &Vec<Value>) -> (out: Vec<Value>)
    ensures
        spec_row_view(out@) =~= spec_row_view(r@),
        out@.len() == r@.len(),
{
    let mut out: Vec<Value> = Vec::new();
    let n = r.len();
    let mut i: usize = 0;
    while i < n
        invariant
            i <= n,
            n == r@.len(),
            out@.len() == i,
            forall|j: int| 0 <= j < i ==> (#[trigger] out@[j])@ == r@[j]@,
        decreases n - i,
    {
        let v = r[i].duplicate();
        out.push(v);
        i = i + 1;
    }
    out
}

} // verus!
