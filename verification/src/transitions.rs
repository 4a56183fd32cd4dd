//! State transitions of the row operations, shared by both table
//! managers: uniqueness-set updates and row insertion.

use crate::column_info::ColumnInfo;
use crate::column_info::ColumnInfoV;
use crate::error::other_err;
use crate::sql::Assignment;
use crate::sql::AssignmentTarget;
use crate::sql::Expr;
use crate::table::spec_col_index;
use crate::table::spec_row_view;
use crate::error::DBResult;
use crate::error::ErrV;
use crate::error::required_err;
use crate::table::RowSlotV;
use crate::table::Table;
use crate::table::TableV;
use crate::table::spec_live_col_has;
use crate::table::spec_live_count;
use crate::table::spec_no_dup;
use crate::table::spec_set_has;
use crate::table::spec_set_view;
use crate::value::Value;
use crate::value::ValueV;
use crate::value::spec_value_str;
use vstd::prelude::*;

verus! {

/// The model of an optional borrowed value.
pub open spec fn spec_opt_view(o: Option<&Value>) -> Option<ValueV> {
    match o {
        None => None,
        Some(v) => Some(v@),
    }
}

/// The NOT NULL violation message for a column.
pub open spec fn spec_field_msg(name: Seq<char>) -> Seq<char> {
    "Field '"@ + name + "' doesn't have a default value"@
}

/// The duplicate-entry message for a value.
pub open spec fn spec_dup_msg(v: ValueV) -> Seq<char> {
    "Duplicate entry '"@ + spec_value_str(v) + "' for key 'PRIMARY'"@
}

/// A sequence with the first occurrence of `d` removed.
pub open spec fn spec_set_remove(cv: Seq<ValueV>, d: ValueV) -> Seq<ValueV>
    decreases cv.len(),
{
    if cv.len() == 0 {
        cv
    } else if cv[0] == d {
        cv.drop_first()
    } else {
        seq![cv[0]] + spec_set_remove(cv.drop_first(), d)
    }
}

/// Removing an absent value changes nothing.
pub proof fn lemma_set_remove_absent(cv: Seq<ValueV>, d: ValueV)
    requires
        forall|j: int| 0 <= j < cv.len() ==> cv[j] != d,
    ensures
        spec_set_remove(cv, d) == cv,
    decreases cv.len(),
{
    if cv.len() != 0 {
        assert(forall|j: int| 0 <= j < cv.drop_first().len() ==> cv.drop_first()[j] == cv[j + 1]);
        lemma_set_remove_absent(cv.drop_first(), d);
        assert(seq![cv[0]] + cv.drop_first() =~= cv);
    }
}

/// Removing a value present first at index `i` drops exactly that entry.
pub proof fn lemma_set_remove_at(cv: Seq<ValueV>, d: ValueV, i: int)
    requires
        0 <= i < cv.len(),
        cv[i] == d,
        forall|j: int| 0 <= j < i ==> cv[j] != d,
    ensures
        spec_set_remove(cv, d) =~= cv.subrange(0, i) + cv.subrange(i + 1, cv.len() as int),
    decreases i,
{
    if i == 0 {
        assert(spec_set_remove(cv, d) == cv.drop_first());
        assert(cv.drop_first() =~= cv.subrange(0, 0) + cv.subrange(1, cv.len() as int));
    } else {
        let rest = cv.drop_first();
        assert(rest[i - 1] == cv[i]);
        assert(forall|j: int| 0 <= j < i - 1 ==> rest[j] == cv[j + 1]);
        lemma_set_remove_at(rest, d, i - 1);
        assert(seq![cv[0]] + (rest.subrange(0, i - 1) + rest.subrange(i, rest.len() as int)) =~= cv
            .subrange(0, i) + cv.subrange(i + 1, cv.len() as int));
    }
}

/// The outcome of updating one column's uniqueness set: delete an old
/// value and/or admit a new one, enforcing nullability and uniqueness.
pub open spec fn spec_update_cv(
    info: ColumnInfoV,
    cv: Seq<ValueV>,
    del: Option<ValueV>,
    add: Option<ValueV>,
) -> Result<Seq<ValueV>, ErrV> {
    match add {
        None => match del {
            Some(d) => Ok(spec_set_remove(cv, d)),
            None => Ok(cv),
        },
        Some(a) => {
            if !info.nullable && a == ValueV::Null {
                Err(ErrV::RequiredError(spec_field_msg(info.name)))
            } else if info.unique {
                if del matches Some(d) && d == a {
                    Ok(cv)
                } else if a == ValueV::Null {
                    match del {
                        Some(d) => Ok(spec_set_remove(cv, d)),
                        None => Ok(cv),
                    }
                } else if spec_set_has(cv, a) {
                    Err(ErrV::RequiredError(spec_dup_msg(a)))
                } else {
                    match del {
                        Some(d) => Ok(spec_set_remove(cv.push(a), d)),
                        None => Ok(cv.push(a)),
                    }
                }
            } else {
                Ok(cv)
            }
        },
    }
}

/// Removes the first entry equal to `d` from a set vector.
pub fn set_remove(cv: &mut Vec<Value>, d: &Value)
    ensures
        spec_set_view(final(cv)@) =~= spec_set_remove(spec_set_view(old(cv)@), d@),
{
    let ghost cvv = spec_set_view(old(cv)@);
    let n = cv.len();
    let mut i: usize = 0;
    while i < n
        invariant
            i <= n,
            n == cv@.len(),
            *cv == *old(cv),
            cvv == spec_set_view(cv@),
            forall|j: int| 0 <= j < i ==> cvv[j] != d@,
        decreases n - i,
    {
        if cv[i].value_eq(d) {
            proof {
                lemma_set_remove_at(cvv, d@, i as int);
            }
            cv.remove(i);
            proof {
                assert(spec_set_view(cv@) =~= cvv.subrange(0, i as int) + cvv.subrange(
                    i as int + 1,
                    cvv.len() as int,
                ));
            }
            return ;
        }
        i = i + 1;
    }
    proof {
        lemma_set_remove_absent(cvv, d@);
    }
}

/// Whether a set vector holds an entry equal to `v`.
pub fn set_contains(cv: &Vec<Value>, v: &Value) -> (r: bool)
    ensures
        r == spec_set_has(spec_set_view(cv@), v@),
{
    let ghost cvv = spec_set_view(cv@);
    let n = cv.len();
    let mut i: usize = 0;
    while i < n
        invariant
            i <= n,
            n == cv@.len(),
            cvv == spec_set_view(cv@),
            forall|j: int| 0 <= j < i ==> cvv[j] != v@,
        decreases n - i,
    {
        if cv[i].value_eq(v) {
            proof {
                assert(cvv[i as int] == v@);
            }
            return true;
        }
        i = i + 1;
    }
    false
}

/// Applies one column-set update to a table, leaving every other field
/// unchanged; on an error the table is unchanged.
pub fn apply_column_update(
    table: &mut Table,
    col_idx: usize,
    value_to_delete: Option<&Value>,
    value_to_add: Option<&Value>,
) -> (res: DBResult<()>)
    requires
        col_idx < old(table)@.columns_values.len(),
        col_idx < old(table)@.col_count(),
        old(table)@.columns_values.len() == old(table)@.col_count(),
    ensures
        final(table)@.rows == old(table)@.rows,
        final(table)@.row_idx_acc == old(table)@.row_idx_acc,
        final(table)@.row_num == old(table)@.row_num,
        final(table)@.columns_info == old(table)@.columns_info,
        match spec_update_cv(
            old(table)@.columns_info[col_idx as int],
            old(table)@.columns_values[col_idx as int],
            spec_opt_view(value_to_delete),
            spec_opt_view(value_to_add),
        ) {
            Ok(cv2) => res matches Ok(()) && final(table)@.columns_values =~= old(
                table,
            )@.columns_values.update(col_idx as int, cv2),
            Err(er) => res matches Err(e2) && e2@ =~= seq![er] && final(table)@.columns_values
                =~= old(table)@.columns_values,
        },
{
    let ghost oldt = table@;
    match value_to_add {
        None => {
            match value_to_delete {
                Some(d) => {
                    let cv = &mut table.columns_values[col_idx];
                    set_remove(cv, d);
                },
                None => {},
            }
            proof {
                assert(final(table)@.columns_values =~= oldt.columns_values.update(
                    col_idx as int,
                    final(table)@.columns_values[col_idx as int],
                ));
            }
            Ok(())
        },
        Some(a) => {
            let info = &table.columns_info[col_idx];
            if !info.nullable && a.is_null() {
                let mut msg = String::from_str("Field '");
                msg.append(info.name.as_str());
                msg.append("' doesn't have a default value");
                return Err(required_err(msg));
            }
            if table.columns_info[col_idx].unique {
                let same = match value_to_delete {
                    Some(d) => d.value_eq(a),
                    None => false,
                };
                if same {
                    return Ok(());
                }
                if a.is_null() {
                    match value_to_delete {
                        Some(d) => {
                            let cv = &mut table.columns_values[col_idx];
                            set_remove(cv, d);
                        },
                        None => {},
                    }
                    proof {
                        assert(final(table)@.columns_values =~= oldt.columns_values.update(
                            col_idx as int,
                            final(table)@.columns_values[col_idx as int],
                        ));
                    }
                    return Ok(());
                }
                if set_contains(&table.columns_values[col_idx], a) {
                    let mut msg = String::from_str("Duplicate entry '");
                    msg.append(a.to_string().as_str());
                    msg.append("' for key 'PRIMARY'");
                    return Err(required_err(msg));
                }
                let added = a.duplicate();
                let cv = &mut table.columns_values[col_idx];
                cv.push(added);
                proof {
                    assert(spec_set_view(cv@) =~= oldt.columns_values[col_idx as int].push(a@));
                }
                match value_to_delete {
                    Some(d) => {
                        let cv2 = &mut table.columns_values[col_idx];
                        set_remove(cv2, d);
                    },
                    None => {},
                }
                proof {
                    assert(final(table)@.columns_values =~= oldt.columns_values.update(
                        col_idx as int,
                        final(table)@.columns_values[col_idx as int],
                    ));
                }
                Ok(())
            } else {
                Ok(())
            }
        },
    }
}

/// The row-length mismatch message.
pub open spec fn spec_len_msg(row_len: nat, col_num: nat) -> Seq<char> {
    "row length "@ + crate::value::spec_nat_str(row_len) + " not match columns num "@
        + crate::value::spec_nat_str(col_num)
}

/// The first constraint violation of `row` against the columns from
/// index `c` on, if any: nullability first, then uniqueness, column by
/// column.
pub open spec fn spec_check_row_from(
    cols: Seq<ColumnInfoV>,
    cvs: Seq<Seq<ValueV>>,
    row: Seq<ValueV>,
    c: int,
) -> Option<ErrV>
    decreases cols.len() - c,
{
    if c < 0 || c >= cols.len() {
        None
    } else if !cols[c].nullable && row[c] == ValueV::Null {
        Some(ErrV::RequiredError(spec_field_msg(cols[c].name)))
    } else if cols[c].unique && row[c] != ValueV::Null && spec_set_has(cvs[c], row[c]) {
        Some(ErrV::RequiredError(spec_dup_msg(row[c])))
    } else {
        spec_check_row_from(cols, cvs, row, c + 1)
    }
}

/// A passed check gives per-column facts.
pub proof fn lemma_check_row_ok(
    cols: Seq<ColumnInfoV>,
    cvs: Seq<Seq<ValueV>>,
    row: Seq<ValueV>,
    c: int,
)
    requires
        0 <= c <= cols.len(),
        spec_check_row_from(cols, cvs, row, 0) is None,
    ensures
        forall|k: int|
            0 <= k < cols.len() ==> (!(#[trigger] cols[k]).nullable ==> row[k] != ValueV::Null),
        forall|k: int|
            0 <= k < cols.len() ==> ((#[trigger] cols[k]).unique && row[k] != ValueV::Null
                ==> !spec_set_has(cvs[k], row[k])),
{
    lemma_check_row_ok_from(cols, cvs, row, 0);
}

proof fn lemma_check_row_ok_from(
    cols: Seq<ColumnInfoV>,
    cvs: Seq<Seq<ValueV>>,
    row: Seq<ValueV>,
    c: int,
)
    requires
        0 <= c <= cols.len(),
        spec_check_row_from(cols, cvs, row, c) is None,
    ensures
        forall|k: int|
            c <= k < cols.len() ==> (!(#[trigger] cols[k]).nullable ==> row[k] != ValueV::Null),
        forall|k: int|
            c <= k < cols.len() ==> ((#[trigger] cols[k]).unique && row[k] != ValueV::Null
                ==> !spec_set_has(cvs[k], row[k])),
    decreases cols.len() - c,
{
    if c < cols.len() {
        lemma_check_row_ok_from(cols, cvs, row, c + 1);
    }
}

/// The uniqueness sets after committing `row`: each non-null value of a
/// unique column joins its column's set.
pub open spec fn spec_commit_sets(
    cols: Seq<ColumnInfoV>,
    cvs: Seq<Seq<ValueV>>,
    row: Seq<ValueV>,
) -> Seq<Seq<ValueV>> {
    Seq::new(
        cvs.len(),
        |c: int|
            if 0 <= c < cols.len() && cols[c].unique && row[c] != ValueV::Null {
                cvs[c].push(row[c])
            } else {
                cvs[c]
            },
    )
}

/// The table after appending `row` as a live slot under a fresh id,
/// with no constraint checks.
pub open spec fn spec_append_row(t: TableV, row: Seq<ValueV>) -> TableV {
    TableV {
        rows: t.rows.push(RowSlotV { id: t.row_idx_acc, cells: Some(row) }),
        row_idx_acc: t.row_idx_acc + 1,
        row_num: t.row_num + 1,
        columns_values: t.columns_values,
        columns_info: t.columns_info,
    }
}

/// The message when the row id space is exhausted.
pub open spec fn spec_ids_msg() -> Seq<char> {
    "row id space exhausted"@
}

/// The outcome of inserting one already-evaluated row: length check,
/// per-column constraint checks, then commit under a fresh id.
pub open spec fn spec_insert_row(t: TableV, row: Seq<ValueV>) -> Result<TableV, ErrV> {
    if row.len() != t.col_count() {
        Err(ErrV::OtherError(spec_len_msg(row.len(), t.col_count() as nat)))
    } else {
        match spec_check_row_from(t.columns_info, t.columns_values, row, 0) {
            Some(er) => Err(er),
            None => if t.row_idx_acc >= usize::MAX {
                Err(ErrV::OtherError(spec_ids_msg()))
            } else {
                Ok(
                    TableV {
                        columns_values: spec_commit_sets(t.columns_info, t.columns_values, row),
                        ..spec_append_row(t, row)
                    },
                )
            },
        }
    }
}

/// The live count lies between zero and the slot count.
pub proof fn lemma_live_count_bound(rows: Seq<RowSlotV>)
    ensures
        0 <= spec_live_count(rows) <= rows.len(),
    decreases rows.len(),
{
    if rows.len() != 0 {
        lemma_live_count_bound(rows.drop_last());
    }
}

/// Appending a slot adds one to the live count when it is live.
pub proof fn lemma_live_count_push(rows: Seq<RowSlotV>, slot: RowSlotV)
    ensures
        spec_live_count(rows.push(slot)) == spec_live_count(rows) + (if slot.cells is Some {
            1int
        } else {
            0int
        }),
{
    assert(rows.push(slot).drop_last() =~= rows);
    assert(rows.push(slot).last() == slot);
}

/// Membership in a pushed set vector.
pub proof fn lemma_set_has_push(cv: Seq<ValueV>, a: ValueV, v: ValueV)
    ensures
        spec_set_has(cv.push(a), v) <==> (spec_set_has(cv, v) || v == a),
{
    let cv2 = cv.push(a);
    if spec_set_has(cv, v) {
        let i = choose|i: int| 0 <= i < cv.len() && cv[i] == v;
        assert(cv2[i] == v);
    }
    if v == a {
        assert(cv2[cv.len() as int] == v);
    }
    if spec_set_has(cv2, v) {
        let i = choose|i: int| 0 <= i < cv2.len() && cv2[i] == v;
        if i < cv.len() {
            assert(cv[i] == v);
        }
    }
}

/// A live column value in an extended slot vector comes from the old
/// slots or from the new one.
pub proof fn lemma_live_col_has_push(rows: Seq<RowSlotV>, slot: RowSlotV, c: int, v: ValueV)
    ensures
        spec_live_col_has(rows.push(slot), c, v) <==> (spec_live_col_has(rows, c, v)
            || (slot.cells matches Some(cl) && 0 <= c < cl.len() && cl[c] == v)),
{
    let rows2 = rows.push(slot);
    if spec_live_col_has(rows, c, v) {
        let i = choose|i: int|
            {
                &&& 0 <= i < rows.len()
                &&& (#[trigger] rows[i].cells) matches Some(cells)
                &&& 0 <= c < cells.len()
                &&& cells[c] == v
            };
        assert(rows2[i] == rows[i]);
        assert(spec_live_col_has(rows2, c, v));
    }
    if slot.cells matches Some(cl) && 0 <= c < cl.len() && cl[c] == v {
        assert(rows2[rows.len() as int] == slot);
        assert(spec_live_col_has(rows2, c, v));
    }
    if spec_live_col_has(rows2, c, v) {
        let i = choose|i: int|
            {
                &&& 0 <= i < rows2.len()
                &&& (#[trigger] rows2[i].cells) matches Some(cells)
                &&& 0 <= c < cells.len()
                &&& cells[c] == v
            };
        if i < rows.len() {
            assert(rows[i] == rows2[i]);
            assert(spec_live_col_has(rows, c, v));
        } else {
            assert(rows2[i] == slot);
        }
    }
}

/// Inserting a row into a well-formed table yields a well-formed table.
pub proof fn lemma_insert_row_wf(t: TableV, row: Seq<ValueV>)
    requires
        t.wf(),
    ensures
        spec_insert_row(t, row) matches Ok(t2) ==> t2.wf(),
{
    if spec_insert_row(t, row) is Ok {
        let t2 = spec_insert_row(t, row)->Ok_0;
        let slot = RowSlotV { id: t.row_idx_acc, cells: Some(row) };
        let rows2 = t.rows.push(slot);
        lemma_check_row_ok(t.columns_info, t.columns_values, row, 0);
        lemma_live_count_push(t.rows, slot);
        assert(t2.rows == rows2);
        assert(forall|i: int| 0 <= i < t.rows.len() ==> rows2[i] == t.rows[i]);
        assert(rows2[t.rows.len() as int] == slot);
        // ids increase and stay below the allocator
        assert(t2.ids_increasing());
        assert(t2.acc_above_ids());
        assert(t2.rows_sized());
        assert(t2.row_num_correct());
        assert(t2.names_unique());
        // nullability: the new row was checked
        assert(t2.nullability_correct());
        // uniqueness sets
        assert forall|c: int|
            0 <= c < t2.col_count() && t2.columns_info[c].unique implies #[trigger] t2.unique_set_correct(
            c,
        ) by {
            let cv = t.columns_values[c];
            let cv2 = t2.columns_values[c];
            assert(t.unique_set_correct(c));
            if row[c] != ValueV::Null {
                assert(cv2 == cv.push(row[c]));
                assert(!spec_set_has(cv, row[c]));
                assert(spec_no_dup(cv2)) by {
                    assert forall|i: int, j: int| 0 <= i < j < cv2.len() implies cv2[i] != cv2[j]
                    by {
                        if j < cv.len() {
                            assert(cv2[i] == cv[i] && cv2[j] == cv[j]);
                        } else {
                            assert(cv2[j] == row[c]);
                            assert(cv2[i] == cv[i]);
                            if cv[i] == row[c] {
                                assert(spec_set_has(cv, row[c]));
                            }
                        }
                    }
                }
                assert(!spec_set_has(cv2, ValueV::Null)) by {
                    lemma_set_has_push(cv, row[c], ValueV::Null);
                }
                assert forall|v: ValueV| v != ValueV::Null implies (#[trigger] spec_set_has(
                    cv2,
                    v,
                ) <==> spec_live_col_has(t2.rows, c, v)) by {
                    lemma_set_has_push(cv, row[c], v);
                    lemma_live_col_has_push(t.rows, slot, c, v);
                }
            } else {
                assert(cv2 == cv);
                assert forall|v: ValueV| v != ValueV::Null implies (#[trigger] spec_set_has(
                    cv2,
                    v,
                ) <==> spec_live_col_has(t2.rows, c, v)) by {
                    lemma_live_col_has_push(t.rows, slot, c, v);
                }
            }
        }
        assert(t2.sets_correct());
        assert(t2.wf());
    }
}

/// The models of a vector of strings.
pub open spec fn spec_strs_view(s: Seq<String>) -> Seq<Seq<char>> {
    Seq::new(s.len(), |i: int| s[i]@)
}

/// The values of a list of literal expressions, evaluated with the
/// empty schema, stopping at the first error.
pub open spec fn spec_eval_literal_list(raw_row: Seq<Expr>) -> Result<Seq<ValueV>, ErrV>
    decreases raw_row.len(),
{
    if raw_row.len() == 0 {
        Ok(Seq::empty())
    } else {
        match crate::expr::spec_eval(Seq::empty(), Seq::empty(), raw_row[0]) {
            Err(e) => Err(e),
            Ok(v) => match spec_eval_literal_list(raw_row.drop_first()) {
                Err(e) => Err(e),
                Ok(vs) => Ok(seq![v] + vs),
            },
        }
    }
}

/// The column-count mismatch message of an INSERT with a column list.
pub open spec fn spec_colcount_msg(given: nat, vals: nat) -> Seq<char> {
    "number of columns given "@ + crate::value::spec_nat_str(given)
        + " does not match number of values "@ + crate::value::spec_nat_str(vals)
}

/// The unknown-column message.
pub open spec fn spec_col_not_found_msg(name: Seq<char>) -> Seq<char> {
    "column "@ + name + " not found"@
}

/// The duplicated-column message.
pub open spec fn spec_col_dup_msg(name: Seq<char>) -> Seq<char> {
    "column "@ + name + " is duplicated"@
}

/// Places the values named by the column list from index `k` on into
/// `row`, rejecting unknown and repeated column names.
pub open spec fn spec_rearrange(
    cols: Seq<ColumnInfoV>,
    vals: Seq<ValueV>,
    ind: Seq<Seq<char>>,
    k: int,
    row: Seq<ValueV>,
    used: Set<int>,
) -> Result<Seq<ValueV>, ErrV>
    decreases ind.len() - k,
{
    if k < 0 || k >= ind.len() {
        Ok(row)
    } else {
        match spec_col_index(cols, ind[k]) {
            None => Err(ErrV::OtherError(spec_col_not_found_msg(ind[k]))),
            Some(i) => if used.contains(i) {
                Err(ErrV::OtherError(spec_col_dup_msg(ind[k])))
            } else {
                spec_rearrange(cols, vals, ind, k + 1, row.update(i, vals[k]), used.insert(i))
            },
        }
    }
}

/// The row an INSERT VALUES entry denotes: its expressions evaluated,
/// then rearranged by the optional column list.
pub open spec fn spec_parse_raw_row(
    cols: Seq<ColumnInfoV>,
    raw_row: Seq<Expr>,
    ind: Seq<Seq<char>>,
) -> Result<Seq<ValueV>, ErrV> {
    match spec_eval_literal_list(raw_row) {
        Err(e) => Err(e),
        Ok(vals) => if ind.len() == 0 {
            Ok(vals)
        } else if vals.len() != ind.len() {
            Err(ErrV::OtherError(spec_colcount_msg(ind.len(), vals.len())))
        } else {
            spec_rearrange(
                cols,
                vals,
                ind,
                0,
                Seq::new(cols.len(), |i: int| ValueV::Null),
                Set::empty(),
            )
        },
    }
}

/// The used-column set a flag vector denotes.
pub open spec fn spec_used_set(used: Seq<bool>) -> Set<int> {
    Set::new(|i: int| 0 <= i < used.len() && used[i])
}

/// Evaluates an INSERT VALUES entry and rearranges it by the column
/// list into a full-width row.
pub fn parse_raw_row_and_rearrange(
    table: &Table,
    raw_row: &Vec<Expr>,
    columns_indicator: &Vec<String>,
) -> (res: DBResult<Vec<Value>>)
    ensures
        match spec_parse_raw_row(
            table@.columns_info,
            raw_row@,
            spec_strs_view(columns_indicator@),
        ) {
            Ok(row) => res matches Ok(v) && spec_row_view(v@) == row,
            Err(er) => res matches Err(e2) && e2@ =~= seq![er],
        },
{
    let ghost indv = spec_strs_view(columns_indicator@);
    let empty_cols: Vec<ColumnInfo> = Vec::new();
    let empty_row: Vec<Value> = Vec::new();
    proof {
        assert(crate::table::spec_cols_view(empty_cols@) =~= Seq::<ColumnInfoV>::empty());
        assert(spec_row_view(empty_row@) =~= Seq::<ValueV>::empty());
        assert(raw_row@.skip(0) =~= raw_row@);
    }
    let mut vals: Vec<Value> = Vec::new();
    let n = raw_row.len();
    let mut k: usize = 0;
    while k < n
        invariant
            k <= n,
            n == raw_row@.len(),
            vals@.len() == k,
            empty_cols@.len() == 0,
            empty_row@.len() == 0,
            crate::table::spec_cols_view(empty_cols@) == Seq::<ColumnInfoV>::empty(),
            spec_row_view(empty_row@) == Seq::<ValueV>::empty(),
            match spec_eval_literal_list(raw_row@) {
                Err(e) => !(spec_eval_literal_list(raw_row@.skip(k as int)) is Ok),
                Ok(vs) => spec_eval_literal_list(raw_row@.skip(k as int)) matches Ok(rest) && vs
                    == spec_row_view(vals@) + rest,
            },
            match spec_eval_literal_list(raw_row@) {
                Err(e) => spec_eval_literal_list(raw_row@.skip(k as int)) matches Err(e2) && e
                    == e2,
                Ok(_) => true,
            },
        decreases n - k,
    {
        let ghost rest = raw_row@.skip(k as int);
        proof {
            assert(rest[0] == raw_row@[k as int]);
            assert(rest.drop_first() =~= raw_row@.skip(k as int + 1));
        }
        let vres = crate::expr::eval_expr(&empty_cols, &empty_row, &raw_row[k]);
        let v = match vres {
            Ok(v) => v,
            Err(e) => {
                proof {
                    assert(spec_eval_literal_list(rest) is Err);
                }
                return Err(e);
            },
        };
        vals.push(v);
        proof {
            if spec_eval_literal_list(raw_row@) is Ok {
                let vs = spec_eval_literal_list(raw_row@)->Ok_0;
                let r1 = spec_eval_literal_list(rest)->Ok_0;
                let r2 = spec_eval_literal_list(raw_row@.skip(k as int + 1))->Ok_0;
                assert(r1 == seq![r1[0]] + r2);
                assert(spec_row_view(vals@) =~= spec_row_view(vals@.drop_last()) + seq![
                    vals@.last()@,
                ]);
                assert(vs =~= spec_row_view(vals@) + r2);
            }
        }
        k = k + 1;
    }
    proof {
        assert(raw_row@.skip(n as int) =~= Seq::<Expr>::empty());
    }
    let ghost valsv = spec_row_view(vals@);
    proof {
        if spec_eval_literal_list(raw_row@) is Ok {
            assert(valsv =~= spec_eval_literal_list(raw_row@)->Ok_0);
        }
    }
    if columns_indicator.len() == 0 {
        return Ok(vals);
    }
    if vals.len() != columns_indicator.len() {
        let mut msg = String::from_str("number of columns given ");
        msg.append(crate::value::nat_to_string(columns_indicator.len() as u64).as_str());
        msg.append(" does not match number of values ");
        msg.append(crate::value::nat_to_string(vals.len() as u64).as_str());
        return Err(other_err(msg));
    }
    let width = table.columns_info.len();
    let mut row: Vec<Value> = Vec::new();
    let mut i: usize = 0;
    while i < width
        invariant
            i <= width,
            row@.len() == i,
            forall|j: int| 0 <= j < i ==> (#[trigger] row@[j])@ == ValueV::Null,
        decreases width - i,
    {
        row.push(Value::from_null());
        i = i + 1;
    }
    let mut used: Vec<bool> = Vec::new();
    let mut i2: usize = 0;
    while i2 < width
        invariant
            i2 <= width,
            used@.len() == i2,
            forall|j: int| 0 <= j < i2 ==> !(#[trigger] used@[j]),
        decreases width - i2,
    {
        used.push(false);
        i2 = i2 + 1;
    }
    proof {
        assert(spec_row_view(row@) =~= Seq::new(
            table@.columns_info.len(),
            |i: int| ValueV::Null,
        ));
        assert(spec_used_set(used@) =~= Set::<int>::empty());
    }
    let m = columns_indicator.len();
    let mut k2: usize = 0;
    while k2 < m
        invariant
            k2 <= m,
            m == indv.len(),
            m == valsv.len(),
            m == columns_indicator@.len(),
            m == vals@.len(),
            indv == spec_strs_view(columns_indicator@),
            valsv == spec_row_view(vals@),
            row@.len() == table@.columns_info.len(),
            used@.len() == table@.columns_info.len(),
            spec_eval_literal_list(raw_row@) matches Ok(vs) && vs == valsv,
            spec_rearrange(
                table@.columns_info,
                valsv,
                indv,
                0,
                Seq::new(table@.columns_info.len(), |i: int| ValueV::Null),
                Set::empty(),
            ) == spec_rearrange(
                table@.columns_info,
                valsv,
                indv,
                k2 as int,
                spec_row_view(row@),
                spec_used_set(used@),
            ),
        decreases m - k2,
    {
        let ghost currow = spec_row_view(row@);
        let ghost curused = spec_used_set(used@);
        proof {
            assert(indv[k2 as int] == columns_indicator@[k2 as int]@);
        }
        match crate::expr::find_column(&table.columns_info, columns_indicator[k2].as_str()) {
            None => {
                let mut msg = String::from_str("column ");
                msg.append(columns_indicator[k2].as_str());
                msg.append(" not found");
                return Err(other_err(msg));
            },
            Some(index) => {
                if used[index] {
                    let mut msg = String::from_str("column ");
                    msg.append(columns_indicator[k2].as_str());
                    msg.append(" is duplicated");
                    return Err(other_err(msg));
                }
                let v = vals[k2].duplicate();
                row[index] = v;
                used[index] = true;
                proof {
                    assert(spec_row_view(row@) =~= currow.update(index as int, valsv[k2 as int]));
                    assert(spec_used_set(used@) =~= curused.insert(index as int));
                }
            },
        }
        k2 = k2 + 1;
    }
    Ok(row)
}

/// The models of a vector of expression lists.
pub open spec fn spec_exprs_view(s: Seq<Vec<Expr>>) -> Seq<Seq<Expr>> {
    Seq::new(s.len(), |i: int| s[i]@)
}

/// The table and first error after inserting the VALUES rows from
/// index `k` on, one row at a time.
pub open spec fn spec_insert_rows(
    t: TableV,
    raw_rows: Seq<Seq<Expr>>,
    ind: Seq<Seq<char>>,
    k: int,
) -> (TableV, Option<ErrV>)
    decreases raw_rows.len() - k,
{
    if k < 0 || k >= raw_rows.len() {
        (t, None)
    } else {
        match spec_parse_raw_row(t.columns_info, raw_rows[k], ind) {
            Err(e) => (t, Some(e)),
            Ok(row) => match spec_insert_row(t, row) {
                Err(e) => (t, Some(e)),
                Ok(t2) => spec_insert_rows(t2, raw_rows, ind, k + 1),
            },
        }
    }
}

/// The sets after a live row leaves: each of its non-null values leaves
/// its column's set.
pub open spec fn spec_remove_row_sets(
    cols: Seq<ColumnInfoV>,
    cvs: Seq<Seq<ValueV>>,
    row: Seq<ValueV>,
) -> Seq<Seq<ValueV>> {
    Seq::new(
        cvs.len(),
        |c: int|
            if 0 <= c < row.len() && row[c] != ValueV::Null {
                spec_set_remove(cvs[c], row[c])
            } else {
                cvs[c]
            },
    )
}

/// The table after tombstoning the live slot at index `i`.
pub open spec fn spec_tombstone(t: TableV, i: int) -> TableV {
    TableV {
        rows: t.rows.update(
            i,
            RowSlotV { id: t.rows[i].id, cells: None },
        ),
        row_num: t.row_num - 1,
        columns_values: spec_remove_row_sets(
            t.columns_info,
            t.columns_values,
            t.rows[i].cells->Some_0,
        ),
        ..t
    }
}

/// The table and first error after deleting the rows that match `cond`,
/// scanning the slots from index `i` on.
pub open spec fn spec_delete_from(t: TableV, cond: Option<Expr>, i: int) -> (TableV, Option<ErrV>)
    decreases t.rows.len() - i,
{
    if i < 0 || i >= t.rows.len() {
        (t, None)
    } else {
        match t.rows[i].cells {
            None => spec_delete_from(t, cond, i + 1),
            Some(row) => match crate::expr::spec_row_satisfies(t.columns_info, row, cond) {
                Err(e) => (t, Some(e)),
                Ok(sel) => if sel {
                    let t2 = spec_tombstone(t, i);
                    if t2.rows.len() == t.rows.len() {
                        spec_delete_from(t2, cond, i + 1)
                    } else {
                        (t, None)
                    }
                } else {
                    spec_delete_from(t, cond, i + 1)
                },
            },
        }
    }
}

/// Membership after removing one value from a duplicate-free set.
pub proof fn lemma_set_remove_has(cv: Seq<ValueV>, d: ValueV)
    requires
        spec_no_dup(cv),
    ensures
        forall|v: ValueV|
            #[trigger] spec_set_has(spec_set_remove(cv, d), v) <==> (spec_set_has(cv, v) && v
                != d),
        spec_no_dup(spec_set_remove(cv, d)),
    decreases cv.len(),
{
    if cv.len() != 0 {
        let rest = cv.drop_first();
        assert(forall|j: int| 0 <= j < rest.len() ==> rest[j] == cv[j + 1]);
        if cv[0] == d {
            assert(spec_set_remove(cv, d) == rest);
            assert forall|v: ValueV| #[trigger] spec_set_has(rest, v) implies (spec_set_has(cv, v)
                && v != d) by {
                let j = choose|j: int| 0 <= j < rest.len() && rest[j] == v;
                assert(cv[j + 1] == v);
                if v == d {
                    assert(cv[0] == cv[j + 1]);
                }
            }
            assert forall|v: ValueV| spec_set_has(cv, v) && v != d implies #[trigger] spec_set_has(
                rest,
                v,
            ) by {
                let j = choose|j: int| 0 <= j < cv.len() && cv[j] == v;
                assert(j != 0);
                assert(rest[j - 1] == v);
            }
        } else {
            lemma_set_remove_has(rest, d);
            let out = seq![cv[0]] + spec_set_remove(rest, d);
            assert(spec_set_remove(cv, d) == out);
            assert(out[0] == cv[0]);
            assert(forall|j: int|
                0 <= j < spec_set_remove(rest, d).len() ==> out[j + 1] == spec_set_remove(
                    rest,
                    d,
                )[j]);
            assert forall|v: ValueV| #[trigger] spec_set_has(out, v) implies (spec_set_has(cv, v)
                && v != d) by {
                let j = choose|j: int| 0 <= j < out.len() && out[j] == v;
                if j == 0 {
                    assert(cv[0] == v);
                } else {
                    assert(spec_set_has(spec_set_remove(rest, d), v));
                }
            }
            assert forall|v: ValueV| spec_set_has(cv, v) && v != d implies #[trigger] spec_set_has(
                out,
                v,
            ) by {
                let j = choose|j: int| 0 <= j < cv.len() && cv[j] == v;
                if j == 0 {
                    assert(out[0] == v);
                } else {
                    assert(rest[j - 1] == v);
                    assert(spec_set_has(spec_set_remove(rest, d), v));
                    let j2 = choose|j2: int|
                        0 <= j2 < spec_set_remove(rest, d).len() && spec_set_remove(rest, d)[j2]
                            == v;
                    assert(out[j2 + 1] == v);
                }
            }
            assert forall|p: int, q: int| 0 <= p < q < out.len() implies out[p] != out[q] by {
                if p == 0 {
                    if out[0] == out[q] {
                        assert(spec_set_has(spec_set_remove(rest, d), cv[0]));
                        assert(spec_set_has(rest, cv[0]));
                        let j = choose|j: int| 0 <= j < rest.len() && rest[j] == cv[0];
                        assert(cv[0] == cv[j + 1]);
                    }
                } else {
                    assert(out[p] == spec_set_remove(rest, d)[p - 1]);
                    assert(out[q] == spec_set_remove(rest, d)[q - 1]);
                }
            }
        }
    }
}

/// Tombstoning one slot lowers the live count by one.
pub proof fn lemma_live_count_update_none(rows: Seq<RowSlotV>, i: int)
    requires
        0 <= i < rows.len(),
        rows[i].cells is Some,
    ensures
        spec_live_count(
            rows.update(i, RowSlotV { id: rows[i].id, cells: None }),
        ) == spec_live_count(rows) - 1,
    decreases rows.len(),
{
    let rows2 = rows.update(i, RowSlotV { id: rows[i].id, cells: None });
    if i == rows.len() - 1 {
        assert(rows2.drop_last() =~= rows.drop_last());
        assert(rows2.last().cells is None);
    } else {
        lemma_live_count_update_none(rows.drop_last(), i);
        assert(rows2.drop_last() =~= rows.drop_last().update(
            i,
            RowSlotV { id: rows.drop_last()[i].id, cells: None },
        ));
        assert(rows2.last() == rows.last());
    }
}

/// Live column membership after tombstoning slot `i`: the tombstoned
/// row's witnesses go away, the others stay.
pub proof fn lemma_live_col_has_update_none(rows: Seq<RowSlotV>, i: int, c: int, v: ValueV)
    requires
        0 <= i < rows.len(),
    ensures
        ({
            let rows2 = rows.update(i, RowSlotV { id: rows[i].id, cells: None });
            spec_live_col_has(rows2, c, v) <==> (exists|j: int|
                {
                    &&& 0 <= j < rows.len()
                    &&& j != i
                    &&& (#[trigger] rows[j].cells) matches Some(cells)
                    &&& 0 <= c < cells.len()
                    &&& cells[c] == v
                })
        }),
{
    let rows2 = rows.update(i, RowSlotV { id: rows[i].id, cells: None });
    if spec_live_col_has(rows2, c, v) {
        let j = choose|j: int|
            {
                &&& 0 <= j < rows2.len()
                &&& (#[trigger] rows2[j].cells) matches Some(cells)
                &&& 0 <= c < cells.len()
                &&& cells[c] == v
            };
        assert(j != i);
        assert(rows[j] == rows2[j]);
    }
    if exists|j: int|
        {
            &&& 0 <= j < rows.len()
            &&& j != i
            &&& (#[trigger] rows[j].cells) matches Some(cells)
            &&& 0 <= c < cells.len()
            &&& cells[c] == v
        } {
        let j = choose|j: int|
            {
                &&& 0 <= j < rows.len()
                &&& j != i
                &&& (#[trigger] rows[j].cells) matches Some(cells)
                &&& 0 <= c < cells.len()
                &&& cells[c] == v
            };
        assert(rows2[j] == rows[j]);
        assert(spec_live_col_has(rows2, c, v));
    }
}

/// Tombstoning a live slot of a well-formed table keeps it well-formed.
pub proof fn lemma_tombstone_wf(t: TableV, i: int)
    requires
        t.wf(),
        0 <= i < t.rows.len(),
        t.rows[i].cells is Some,
    ensures
        spec_tombstone(t, i).wf(),
        spec_tombstone(t, i).rows.len() == t.rows.len(),
{
    let row = t.rows[i].cells->Some_0;
    let t2 = spec_tombstone(t, i);
    lemma_live_count_update_none(t.rows, i);
    assert(row.len() == t.col_count());
    assert forall|c: int|
        0 <= c < t2.col_count() && t2.columns_info[c].unique implies #[trigger] t2.unique_set_correct(
        c,
    ) by {
        assert(t.unique_set_correct(c));
        let cv = t.columns_values[c];
        let cv2 = t2.columns_values[c];
        lemma_live_col_has_update_none(t.rows, i, c, row[c]);
        if row[c] != ValueV::Null {
            assert(cv2 == spec_set_remove(cv, row[c]));
            lemma_set_remove_has(cv, row[c]);
            assert forall|v: ValueV| v != ValueV::Null implies (#[trigger] spec_set_has(cv2, v)
                <==> spec_live_col_has(t2.rows, c, v)) by {
                lemma_live_col_has_update_none(t.rows, i, c, v);
                if spec_set_has(cv2, v) {
                    assert(spec_set_has(cv, v) && v != row[c]);
                    assert(spec_live_col_has(t.rows, c, v));
                    let j = choose|j: int|
                        {
                            &&& 0 <= j < t.rows.len()
                            &&& (#[trigger] t.rows[j].cells) matches Some(cells)
                            &&& 0 <= c < cells.len()
                            &&& cells[c] == v
                        };
                    assert(j != i);
                }
                if spec_live_col_has(t2.rows, c, v) {
                    let j = choose|j: int|
                        {
                            &&& 0 <= j < t.rows.len()
                            &&& j != i
                            &&& (#[trigger] t.rows[j].cells) matches Some(cells)
                            &&& 0 <= c < cells.len()
                            &&& cells[c] == v
                        };
                    assert(spec_live_col_has(t.rows, c, v));
                    assert(spec_set_has(cv, v));
                    if v == row[c] {
                        assert(t.no_live_dup(c));
                        if j < i {
                            assert(t.rows[j].cells is Some && t.rows[i].cells is Some);
                        }
                    }
                }
            }
        } else {
            assert(cv2 == cv);
            assert forall|v: ValueV| v != ValueV::Null implies (#[trigger] spec_set_has(cv2, v)
                <==> spec_live_col_has(t2.rows, c, v)) by {
                lemma_live_col_has_update_none(t.rows, i, c, v);
                if spec_set_has(cv2, v) {
                    assert(spec_live_col_has(t.rows, c, v));
                    let j = choose|j: int|
                        {
                            &&& 0 <= j < t.rows.len()
                            &&& (#[trigger] t.rows[j].cells) matches Some(cells)
                            &&& 0 <= c < cells.len()
                            &&& cells[c] == v
                        };
                    if j == i {
                        assert(row[c] == v);
                    }
                }
                if spec_live_col_has(t2.rows, c, v) {
                    let j = choose|j: int|
                        {
                            &&& 0 <= j < t.rows.len()
                            &&& j != i
                            &&& (#[trigger] t.rows[j].cells) matches Some(cells)
                            &&& 0 <= c < cells.len()
                            &&& cells[c] == v
                        };
                    assert(spec_live_col_has(t.rows, c, v));
                }
            }
        }
    }
    assert(t2.sets_correct());
    assert(t2.wf());
}

/// The unsupported-assignment-target error.
pub open spec fn spec_target_err() -> ErrV {
    ErrV::UnsupportedOPError("only support column name"@)
}

/// The unknown-column message of an UPDATE assignment.
pub open spec fn spec_upd_col_msg(name: Seq<char>) -> Seq<char> {
    "column not found: "@ + name
}

/// The sets, row and first error after applying the assignments from
/// index `k` on to one selected row; every expression reads the row as
/// it was before the first assignment.
pub open spec fn spec_apply_assignments(
    cols: Seq<ColumnInfoV>,
    orig_row: Seq<ValueV>,
    assigns: Seq<Assignment>,
    k: int,
    cvs: Seq<Seq<ValueV>>,
    row: Seq<ValueV>,
) -> (Seq<Seq<ValueV>>, Seq<ValueV>, Option<ErrV>)
    decreases assigns.len() - k,
{
    if k < 0 || k >= assigns.len() {
        (cvs, row, None)
    } else {
        match assigns[k].target {
            AssignmentTarget::Other(_) => (cvs, row, Some(spec_target_err())),
            AssignmentTarget::ColumnName(name) => match spec_col_index(cols, name@) {
                None => (cvs, row, Some(ErrV::OtherError(spec_upd_col_msg(name@)))),
                Some(ci) => match crate::expr::spec_eval(cols, orig_row, assigns[k].value) {
                    Err(e) => (cvs, row, Some(e)),
                    Ok(v) => match spec_update_cv(cols[ci], cvs[ci], Some(row[ci]), Some(v)) {
                        Err(e) => (cvs, row, Some(e)),
                        Ok(cv2) => spec_apply_assignments(
                            cols,
                            orig_row,
                            assigns,
                            k + 1,
                            cvs.update(ci, cv2),
                            row.update(ci, v),
                        ),
                    },
                },
            },
        }
    }
}

/// The table and first error after updating the selected rows, scanning
/// the slots from index `i` on.
pub open spec fn spec_update_from(
    t: TableV,
    assigns: Seq<Assignment>,
    cond: Option<Expr>,
    i: int,
) -> (TableV, Option<ErrV>)
    decreases t.rows.len() - i,
{
    if i < 0 || i >= t.rows.len() {
        (t, None)
    } else {
        match t.rows[i].cells {
            None => spec_update_from(t, assigns, cond, i + 1),
            Some(row) => match crate::expr::spec_row_satisfies(t.columns_info, row, cond) {
                Err(e) => (t, Some(e)),
                Ok(sel) => if sel {
                    let step = spec_apply_assignments(
                        t.columns_info,
                        row,
                        assigns,
                        0,
                        t.columns_values,
                        row,
                    );
                    let t2 = TableV {
                        rows: t.rows.update(
                            i,
                            RowSlotV { id: t.rows[i].id, cells: Some(step.1) },
                        ),
                        columns_values: step.0,
                        ..t
                    };
                    if t2.rows.len() == t.rows.len() {
                        match step.2 {
                            Some(e) => (t2, Some(e)),
                            None => spec_update_from(t2, assigns, cond, i + 1),
                        }
                    } else {
                        (t, None)
                    }
                } else {
                    spec_update_from(t, assigns, cond, i + 1)
                },
            },
        }
    }
}

/// Replacing one live tuple by another keeps the live count.
pub proof fn lemma_live_count_update_live(rows: Seq<RowSlotV>, i: int, newrow: Seq<ValueV>)
    requires
        0 <= i < rows.len(),
        rows[i].cells is Some,
    ensures
        spec_live_count(
            rows.update(i, RowSlotV { id: rows[i].id, cells: Some(newrow) }),
        ) == spec_live_count(rows),
    decreases rows.len(),
{
    let rows2 = rows.update(i, RowSlotV { id: rows[i].id, cells: Some(newrow) });
    if i == rows.len() - 1 {
        assert(rows2.drop_last() =~= rows.drop_last());
        assert(rows2.last().cells is Some);
    } else {
        lemma_live_count_update_live(rows.drop_last(), i, newrow);
        assert(rows2.drop_last() =~= rows.drop_last().update(
            i,
            RowSlotV { id: rows.drop_last()[i].id, cells: Some(newrow) },
        ));
        assert(rows2.last() == rows.last());
    }
}

/// Live column membership after replacing the tuple of slot `i`.
pub proof fn lemma_live_col_has_update_some(
    rows: Seq<RowSlotV>,
    i: int,
    newrow: Seq<ValueV>,
    c: int,
    v: ValueV,
)
    requires
        0 <= i < rows.len(),
    ensures
        ({
            let rows2 = rows.update(i, RowSlotV { id: rows[i].id, cells: Some(newrow) });
            spec_live_col_has(rows2, c, v) <==> ((exists|j: int|
                {
                    &&& 0 <= j < rows.len()
                    &&& j != i
                    &&& (#[trigger] rows[j].cells) matches Some(cells)
                    &&& 0 <= c < cells.len()
                    &&& cells[c] == v
                }) || (0 <= c < newrow.len() && newrow[c] == v))
        }),
{
    let rows2 = rows.update(i, RowSlotV { id: rows[i].id, cells: Some(newrow) });
    if spec_live_col_has(rows2, c, v) {
        let j = choose|j: int|
            {
                &&& 0 <= j < rows2.len()
                &&& (#[trigger] rows2[j].cells) matches Some(cells)
                &&& 0 <= c < cells.len()
                &&& cells[c] == v
            };
        if j != i {
            assert(rows[j] == rows2[j]);
        }
    }
    if exists|j: int|
        {
            &&& 0 <= j < rows.len()
            &&& j != i
            &&& (#[trigger] rows[j].cells) matches Some(cells)
            &&& 0 <= c < cells.len()
            &&& cells[c] == v
        } {
        let j = choose|j: int|
            {
                &&& 0 <= j < rows.len()
                &&& j != i
                &&& (#[trigger] rows[j].cells) matches Some(cells)
                &&& 0 <= c < cells.len()
                &&& cells[c] == v
            };
        assert(rows2[j] == rows[j]);
        assert(spec_live_col_has(rows2, c, v));
    }
    if 0 <= c < newrow.len() && newrow[c] == v {
        assert(rows2[i].cells is Some);
        assert(spec_live_col_has(rows2, c, v));
    }
}

/// One checked assignment keeps the table well-formed.
pub proof fn lemma_assign_step_wf(t: TableV, i: int, ci: int, v: ValueV)
    requires
        t.wf(),
        0 <= i < t.rows.len(),
        t.rows[i].cells is Some,
        0 <= ci < t.col_count(),
        spec_update_cv(
            t.columns_info[ci],
            t.columns_values[ci],
            Some(t.rows[i].cells->Some_0[ci]),
            Some(v),
        ) is Ok,
    ensures
        ({
            let row = t.rows[i].cells->Some_0;
            let cv2 = spec_update_cv(
                t.columns_info[ci],
                t.columns_values[ci],
                Some(row[ci]),
                Some(v),
            )->Ok_0;
            TableV {
                rows: t.rows.update(i, RowSlotV { id: t.rows[i].id, cells: Some(row.update(ci, v)) }),
                columns_values: t.columns_values.update(ci, cv2),
                ..t
            }.wf()
        }),
{
    let row = t.rows[i].cells->Some_0;
    let d = row[ci];
    let info = t.columns_info[ci];
    let cv = t.columns_values[ci];
    let cv2 = spec_update_cv(info, cv, Some(d), Some(v))->Ok_0;
    let row2 = row.update(ci, v);
    let t2 = TableV {
        rows: t.rows.update(i, RowSlotV { id: t.rows[i].id, cells: Some(row2) }),
        columns_values: t.columns_values.update(ci, cv2),
        ..t
    };
    assert(row.len() == t.col_count());
    lemma_live_count_update_live(t.rows, i, row2);
    assert(t2.ids_increasing());
    assert(t2.rows_sized());
    assert(t2.acc_above_ids());
    assert(t2.row_num_correct());
    assert(t2.names_unique());
    assert(t2.nullability_correct()) by {
        assert(info.nullable || v != ValueV::Null);
        assert forall|p: int, q: int|
            0 <= p < t2.rows.len() && 0 <= q < t2.col_count() && !(
            #[trigger] t2.columns_info[q]).nullable implies ((#[trigger] t2.rows[p].cells) matches
            Some(cells) ==> cells[q] != ValueV::Null) by {
            if p != i {
                assert(t2.rows[p] == t.rows[p]);
            } else {
                if t2.rows[p].cells is Some {
                    assert(t2.rows[p].cells->Some_0 == row2);
                    if q != ci {
                        assert(row2[q] == row[q]);
                    }
                }
            }
        }
    }
    assert forall|c: int|
        0 <= c < t2.col_count() && t2.columns_info[c].unique implies #[trigger] t2.unique_set_correct(
        c,
    ) by {
        assert(t.unique_set_correct(c));
        if c != ci {
            // untouched column: same set, same values in every live row
            assert(t2.columns_values[c] == t.columns_values[c]);
            assert forall|v2: ValueV| v2 != ValueV::Null implies (#[trigger] spec_set_has(
                t2.columns_values[c],
                v2,
            ) <==> spec_live_col_has(t2.rows, c, v2)) by {
                lemma_live_col_has_update_some(t.rows, i, row2, c, v2);
                assert(row2[c] == row[c]);
                if spec_set_has(t.columns_values[c], v2) {
                    let j = choose|j: int|
                        {
                            &&& 0 <= j < t.rows.len()
                            &&& (#[trigger] t.rows[j].cells) matches Some(cells)
                            &&& 0 <= c < cells.len()
                            &&& cells[c] == v2
                        };
                    if j == i {
                        assert(row[c] == v2);
                        assert(spec_live_col_has(t2.rows, c, v2));
                    } else {
                        assert(spec_live_col_has(t2.rows, c, v2));
                    }
                }
                if spec_live_col_has(t2.rows, c, v2) {
                    let j = choose|j: int|
                        {
                            &&& 0 <= j < t2.rows.len()
                            &&& (#[trigger] t2.rows[j].cells) matches Some(cells)
                            &&& 0 <= c < cells.len()
                            &&& cells[c] == v2
                        };
                    if j == i {
                        assert(t.rows[i].cells is Some);
                        assert(spec_live_col_has(t.rows, c, v2));
                    } else {
                        assert(t.rows[j] == t2.rows[j]);
                        assert(spec_live_col_has(t.rows, c, v2));
                    }
                }
            }
            assert forall|p: int, q: int|
                0 <= p < q < t2.rows.len() implies ((#[trigger] t2.rows[p].cells) matches Some(a)
                ==> ((#[trigger] t2.rows[q].cells) matches Some(b) ==> (0 <= c < a.len() && 0 <= c
                < b.len() && a[c] == b[c] ==> a[c] == ValueV::Null))) by {
                if t2.rows[p].cells is Some && t2.rows[q].cells is Some {
                    let a = t2.rows[p].cells->Some_0;
                    let b = t2.rows[q].cells->Some_0;
                    let a0 = t.rows[p].cells->Some_0;
                    let b0 = t.rows[q].cells->Some_0;
                    assert(t.rows[p].cells is Some);
                    assert(t.rows[q].cells is Some);
                    if p == i {
                        assert(a == row2 && a0 == row);
                        assert(0 <= c < a.len() ==> a[c] == a0[c]);
                    } else {
                        assert(a == a0);
                    }
                    if q == i {
                        assert(b == row2 && b0 == row);
                        assert(0 <= c < b.len() ==> b[c] == b0[c]);
                    } else {
                        assert(b == b0);
                    }
                }
            }
        } else {
            // the assigned column
            if d == v {
                assert(cv2 == cv);
                assert(row2 =~= row);
                assert forall|v2: ValueV| v2 != ValueV::Null implies (#[trigger] spec_set_has(
                    t2.columns_values[c],
                    v2,
                ) <==> spec_live_col_has(t2.rows, c, v2)) by {
                    lemma_live_col_has_update_some(t.rows, i, row2, c, v2);
                    if spec_set_has(cv, v2) {
                        let j = choose|j: int|
                            {
                                &&& 0 <= j < t.rows.len()
                                &&& (#[trigger] t.rows[j].cells) matches Some(cells)
                                &&& 0 <= c < cells.len()
                                &&& cells[c] == v2
                            };
                        assert(spec_live_col_has(t2.rows, c, v2));
                    }
                    if spec_live_col_has(t2.rows, c, v2) {
                        let j = choose|j: int|
                            {
                                &&& 0 <= j < t2.rows.len()
                                &&& (#[trigger] t2.rows[j].cells) matches Some(cells)
                                &&& 0 <= c < cells.len()
                                &&& cells[c] == v2
                            };
                        if j == i {
                            assert(spec_live_col_has(t.rows, c, v2));
                        } else {
                            assert(t.rows[j] == t2.rows[j]);
                            assert(spec_live_col_has(t.rows, c, v2));
                        }
                    }
                }
                assert(t2.no_live_dup(c)) by {
                    assert forall|p: int, q: int|
                        0 <= p < q < t2.rows.len() implies ((#[trigger] t2.rows[p].cells) matches
                        Some(a) ==> ((#[trigger] t2.rows[q].cells) matches Some(b) ==> (0 <= c
                        < a.len() && 0 <= c < b.len() && a[c] == b[c] ==> a[c] == ValueV::Null)))
                    by {
                        if t2.rows[p].cells is Some && t2.rows[q].cells is Some {
                            assert(t.rows[p].cells is Some);
                            assert(t.rows[q].cells is Some);
                            if p == i {
                                assert(t2.rows[p].cells->Some_0 == row2);
                            }
                            if q == i {
                                assert(t2.rows[q].cells->Some_0 == row2);
                            }
                        }
                    }
                }
            } else {
                // a fresh value enters; the old one leaves
                let vnn = v != ValueV::Null;
                if vnn {
                    assert(!spec_set_has(cv, v));
                    assert(cv2 == (match Some(d) {
                        Some(dd) => spec_set_remove(cv.push(v), dd),
                        None => cv.push(v),
                    }));
                    assert(cv2 == spec_set_remove(cv.push(v), d));
                    assert(spec_no_dup(cv.push(v))) by {
                        assert forall|p: int, q: int|
                            0 <= p < q < cv.push(v).len() implies cv.push(v)[p] != cv.push(v)[q]
                        by {
                            if q == cv.len() {
                                if cv[p] == v {
                                    assert(spec_set_has(cv, v));
                                }
                            }
                        }
                    }
                    lemma_set_has_push(cv, v, ValueV::Null);
                    lemma_set_remove_has(cv.push(v), d);
                } else {
                    assert(cv2 == spec_set_remove(cv, d));
                    lemma_set_remove_has(cv, d);
                }
                assert forall|v2: ValueV| v2 != ValueV::Null implies (#[trigger] spec_set_has(
                    cv2,
                    v2,
                ) <==> spec_live_col_has(t2.rows, c, v2)) by {
                    lemma_live_col_has_update_some(t.rows, i, row2, c, v2);
                    if vnn {
                        lemma_set_has_push(cv, v, v2);
                    }
                    if spec_set_has(cv2, v2) {
                        assert(v2 != d);
                        if v2 == v {
                            assert(row2[c] == v);
                            assert(spec_live_col_has(t2.rows, c, v2));
                        } else {
                            assert(spec_set_has(cv, v2));
                            let j = choose|j: int|
                                {
                                    &&& 0 <= j < t.rows.len()
                                    &&& (#[trigger] t.rows[j].cells) matches Some(cells)
                                    &&& 0 <= c < cells.len()
                                    &&& cells[c] == v2
                                };
                            if j == i {
                                assert(row[c] == v2);
                                assert(d == v2);
                            } else {
                                assert(spec_live_col_has(t2.rows, c, v2));
                            }
                        }
                    }
                    if spec_live_col_has(t2.rows, c, v2) {
                        let j = choose|j: int|
                            {
                                &&& 0 <= j < t2.rows.len()
                                &&& (#[trigger] t2.rows[j].cells) matches Some(cells)
                                &&& 0 <= c < cells.len()
                                &&& cells[c] == v2
                            };
                        if j == i {
                            assert(row2[c] == v2);
                            assert(v2 == v);
                            assert(spec_set_has(cv2, v2));
                        } else {
                            assert(t.rows[j] == t2.rows[j]);
                            assert(spec_live_col_has(t.rows, c, v2));
                            assert(spec_set_has(cv, v2));
                            if v2 == d {
                                // the old value would still be live elsewhere,
                                // contradicting per-column uniqueness
                                assert(t.no_live_dup(c));
                                assert(t.rows[i].cells is Some);
                                assert(row[c] == d);
                                if j < i {
                                    assert(false);
                                } else {
                                    assert(false);
                                }
                            }
                            assert(v2 != d);
                            if vnn {
                                assert(spec_set_has(cv.push(v), v2));
                            }
                            assert(spec_set_has(cv2, v2));
                        }
                    }
                }
                assert(!spec_set_has(cv2, ValueV::Null));
                assert(spec_no_dup(cv2));
                assert(t2.no_live_dup(c)) by {
                    assert forall|p: int, q: int|
                        0 <= p < q < t2.rows.len() implies ((#[trigger] t2.rows[p].cells) matches
                        Some(a) ==> ((#[trigger] t2.rows[q].cells) matches Some(b) ==> (0 <= c
                        < a.len() && 0 <= c < b.len() && a[c] == b[c] ==> a[c] == ValueV::Null)))
                    by {
                        if t2.rows[p].cells is Some && t2.rows[q].cells is Some {
                            let a = t2.rows[p].cells->Some_0;
                            let b = t2.rows[q].cells->Some_0;
                            assert(t.rows[p].cells is Some);
                            assert(t.rows[q].cells is Some);
                            let a0 = t.rows[p].cells->Some_0;
                            let b0 = t.rows[q].cells->Some_0;
                            if 0 <= c < a.len() && 0 <= c < b.len() && a[c] == b[c] && a[c]
                                != ValueV::Null {
                                if p == i {
                                    assert(a == row2);
                                    if c == ci {
                                        assert(a[c] == v);
                                        assert(b == b0);
                                        assert(spec_live_col_has(t.rows, c, v));
                                        assert(spec_set_has(cv, v));
                                    }
                                } else if q == i {
                                    assert(b == row2);
                                    if c == ci {
                                        assert(b[c] == v);
                                        assert(a == a0);
                                        assert(spec_live_col_has(t.rows, c, v));
                                        assert(spec_set_has(cv, v));
                                    }
                                }
                            }
                        }
                    }
                }
            }
        }
    }
    assert(t2.sets_correct());
}

/// One output column of a projection: a source column or an expression.
pub enum CalcFunc<'a> {
    /// Copy the source column at this index; null when out of range.
    ColumnRef(usize),
    /// Evaluate an expression over the source row.
    Calc(&'a Expr),
}

/// The value a projection column takes on one source row.
pub open spec fn spec_calc(cols: Seq<ColumnInfoV>, row: Seq<ValueV>, f: CalcFunc) -> Result<
    ValueV,
    ErrV,
> {
    match f {
        CalcFunc::ColumnRef(i) => Ok(
            if i < row.len() {
                row[i as int]
            } else {
                ValueV::Null
            },
        ),
        CalcFunc::Calc(e) => crate::expr::spec_eval(cols, row, *e),
    }
}

/// The output row of a projection on one source row, stopping at the
/// first error.
pub open spec fn spec_calc_row(
    cols: Seq<ColumnInfoV>,
    row: Seq<ValueV>,
    funcs: Seq<CalcFunc>,
) -> Result<Seq<ValueV>, ErrV>
    decreases funcs.len(),
{
    if funcs.len() == 0 {
        Ok(Seq::empty())
    } else {
        match spec_calc(cols, row, funcs[0]) {
            Err(e) => Err(e),
            Ok(v) => match spec_calc_row(cols, row, funcs.drop_first()) {
                Err(e) => Err(e),
                Ok(vs) => Ok(seq![v] + vs),
            },
        }
    }
}

/// The projection result built from the source slots from index `i` on.
pub open spec fn spec_project_from(
    src: TableV,
    funcs: Seq<CalcFunc>,
    cond: Option<Expr>,
    i: int,
    acc: TableV,
) -> Result<TableV, ErrV>
    decreases src.rows.len() - i,
{
    if i < 0 || i >= src.rows.len() {
        Ok(acc)
    } else {
        match src.rows[i].cells {
            None => spec_project_from(src, funcs, cond, i + 1, acc),
            Some(row) => match crate::expr::spec_row_satisfies(src.columns_info, row, cond) {
                Err(e) => Err(e),
                Ok(sel) => if sel {
                    match spec_calc_row(src.columns_info, row, funcs) {
                        Err(e) => Err(e),
                        Ok(newrow) => if acc.row_idx_acc < usize::MAX {
                            spec_project_from(src, funcs, cond, i + 1, spec_append_row(acc, newrow))
                        } else {
                            Err(ErrV::OtherError(spec_ids_msg()))
                        },
                    }
                } else {
                    spec_project_from(src, funcs, cond, i + 1, acc)
                },
            },
        }
    }
}

impl TableV {
    /// The shape invariant of a result table: id discipline and row
    /// sizing, without constraint bookkeeping.
    pub open spec fn shape_wf(self) -> bool {
        &&& self.ids_increasing()
        &&& self.rows_sized()
        &&& self.acc_above_ids()
        &&& self.row_num_correct()
    }
}

/// Appending a sized row keeps the shape invariant.
pub proof fn lemma_append_shape_wf(t: TableV, row: Seq<ValueV>)
    requires
        t.shape_wf(),
        t.row_idx_acc < usize::MAX,
        row.len() == t.col_count(),
    ensures
        spec_append_row(t, row).shape_wf(),
        spec_append_row(t, row).col_count() == t.col_count(),
{
    let slot = RowSlotV { id: t.row_idx_acc, cells: Some(row) };
    let t2 = spec_append_row(t, row);
    lemma_live_count_push(t.rows, slot);
    assert(forall|i: int| 0 <= i < t.rows.len() ==> t2.rows[i] == t.rows[i]);
    assert(t2.rows[t.rows.len() as int] == slot);
}

/// The live tuples are as many as the live count.
pub proof fn lemma_live_rows_len(rows: Seq<RowSlotV>)
    ensures
        crate::table::spec_live_rows(rows).len() == spec_live_count(rows),
    decreases rows.len(),
{
    if rows.len() != 0 {
        lemma_live_rows_len(rows.drop_last());
    }
}

/// Each live tuple keeps its width, and comes from a live slot.
pub proof fn lemma_live_rows_sized(rows: Seq<RowSlotV>, width: int)
    requires
        forall|i: int|
            0 <= i < rows.len() ==> ((#[trigger] rows[i].cells) matches Some(cells) ==> cells.len()
                == width),
    ensures
        forall|r: int|
            0 <= r < crate::table::spec_live_rows(rows).len() ==> (
            #[trigger] crate::table::spec_live_rows(rows)[r]).len() == width,
    decreases rows.len(),
{
    if rows.len() != 0 {
        lemma_live_rows_sized(rows.drop_last(), width);
        let lv = crate::table::spec_live_rows(rows);
        let prev = crate::table::spec_live_rows(rows.drop_last());
        assert(forall|i: int|
            0 <= i < rows.drop_last().len() ==> rows.drop_last()[i] == rows[i]);
        assert forall|r: int| 0 <= r < lv.len() implies (#[trigger] lv[r]).len() == width by {
            if r < prev.len() {
                assert(lv[r] == prev[r]);
            } else {
                assert(lv[r] == rows.last().cells->Some_0);
            }
        }
    }
}

/// A slot sequence with every slot live has full live count.
pub proof fn lemma_live_count_all_live(rows: Seq<RowSlotV>)
    requires
        forall|i: int| 0 <= i < rows.len() ==> (#[trigger] rows[i].cells) is Some,
    ensures
        spec_live_count(rows) == rows.len(),
    decreases rows.len(),
{
    if rows.len() != 0 {
        assert(forall|i: int| 0 <= i < rows.drop_last().len() ==> rows.drop_last()[i] == rows[i]);
        lemma_live_count_all_live(rows.drop_last());
    }
}

} // verus!
