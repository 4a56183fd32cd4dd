//! The data-parallel table manager: the same observable contract as the
//! sequential manager. Row ids for an INSERT are reserved in bulk up
//! front, and the live-row count of a DELETE is settled after the scan;
//! the per-row work itself is expressed as verified loops, since the
//! engine models the outcome of the parallel schedule, not the
//! interleaving.

use crate::column_info::ColumnInfo;
use crate::error::DBResult;
use crate::error::ErrV;
use crate::error::other_err;
use crate::seq_manager::SequentialTableManager;
use crate::seq_manager::spec_empty_table;
use crate::sql::Assignment;
use crate::sql::Expr;
use crate::table::RowSlot;
use crate::table::RowSlotV;
use crate::table::Table;
use crate::table::TableV;
use crate::table::spec_row_view;
use crate::transitions::spec_check_row_from;
use crate::transitions::spec_commit_sets;
use crate::transitions::spec_delete_from;
use crate::transitions::spec_insert_row;
use crate::transitions::spec_insert_rows;
use crate::transitions::spec_parse_raw_row;
use crate::transitions::spec_strs_view;
use crate::transitions::spec_exprs_view;
use crate::transitions::spec_update_from;
use crate::value::ValueV;
use vstd::prelude::*;

verus! {

/// A table manager that fans the row work of each operation out over a
/// worker pool; its results are indistinguishable from the sequential
/// manager's, except that a failed INSERT leaves the bulk-reserved row
/// ids consumed.
pub struct ParallelTableManager;

/// The table after reserving `count` row ids in bulk.
pub open spec fn spec_reserve_ids(t: TableV, count: int) -> TableV {
    TableV { row_idx_acc: t.row_idx_acc + count, ..t }
}

/// The table and first error after inserting the VALUES rows from
/// index `k` on under pre-reserved ids starting at `base`.
pub open spec fn spec_par_insert_from(
    t: TableV,
    raw_rows: Seq<Seq<Expr>>,
    ind: Seq<Seq<char>>,
    base: int,
    k: int,
) -> (TableV, Option<ErrV>)
    decreases raw_rows.len() - k,
{
    if k < 0 || k >= raw_rows.len() {
        (t, None)
    } else {
        match spec_parse_raw_row(t.columns_info, raw_rows[k], ind) {
            Err(e) => (t, Some(e)),
            Ok(row) => if row.len() != t.col_count() {
                (
                    t,
                    Some(
                        ErrV::OtherError(
                            crate::transitions::spec_len_msg(row.len(), t.col_count() as nat),
                        ),
                    ),
                )
            } else {
                match spec_check_row_from(t.columns_info, t.columns_values, row, 0) {
                    Some(e) => (t, Some(e)),
                    None => {
                        let t2 = TableV {
                            rows: t.rows.push(RowSlotV { id: base + k, cells: Some(row) }),
                            row_num: t.row_num + 1,
                            columns_values: spec_commit_sets(t.columns_info, t.columns_values, row),
                            ..t
                        };
                        spec_par_insert_from(t2, raw_rows, ind, base, k + 1)
                    },
                }
            },
        }
    }
}

/// The outcome of a parallel INSERT: the id space is reserved up front,
/// then the rows are checked and committed under their pre-assigned
/// ids; a failure keeps the earlier rows and the reservation.
pub open spec fn spec_par_insert_rows(t: TableV, raw_rows: Seq<Seq<Expr>>, ind: Seq<Seq<char>>) -> (
    TableV,
    Option<ErrV>,
) {
    if t.row_idx_acc + raw_rows.len() > usize::MAX {
        (t, Some(ErrV::OtherError(crate::transitions::spec_ids_msg())))
    } else {
        spec_par_insert_from(
            spec_reserve_ids(t, raw_rows.len() as int),
            raw_rows,
            ind,
            t.row_idx_acc,
            0,
        )
    }
}

/// Committing a checked row under a fresh id below the allocator keeps
/// the table well-formed.
pub proof fn lemma_commit_at_wf(t: TableV, row: Seq<ValueV>, id: int)
    requires
        t.wf(),
        row.len() == t.col_count(),
        (spec_check_row_from(t.columns_info, t.columns_values, row, 0) is None),
        forall|i: int| 0 <= i < t.rows.len() ==> (#[trigger] t.rows[i]).id < id,
        id < t.row_idx_acc,
    ensures
        (TableV {
            rows: t.rows.push(RowSlotV { id: id, cells: Some(row) }),
            row_num: t.row_num + 1,
            columns_values: spec_commit_sets(t.columns_info, t.columns_values, row),
            ..t
        }.wf()),
{
    let slot = RowSlotV { id: id, cells: Some(row) };
    let t2 = TableV {
        rows: t.rows.push(slot),
        row_num: t.row_num + 1,
        columns_values: spec_commit_sets(t.columns_info, t.columns_values, row),
        ..t
    };
    let rows2 = t.rows.push(slot);
    crate::transitions::lemma_check_row_ok(t.columns_info, t.columns_values, row, 0);
    crate::transitions::lemma_live_count_push(t.rows, slot);
    assert(forall|i: int| 0 <= i < t.rows.len() ==> rows2[i] == t.rows[i]);
    assert(rows2[t.rows.len() as int] == slot);
    assert(t2.ids_increasing());
    assert(t2.acc_above_ids());
    assert(t2.rows_sized());
    assert(t2.row_num_correct());
    assert(t2.names_unique());
    assert(t2.nullability_correct());
    assert forall|c: int|
        0 <= c < t2.col_count() && t2.columns_info[c].unique implies #[trigger] t2.unique_set_correct(
        c,
    ) by {
        let cv = t.columns_values[c];
        let cv2 = t2.columns_values[c];
        assert(t.unique_set_correct(c));
        if row[c] != ValueV::Null {
            assert(cv2 == cv.push(row[c]));
            assert(!crate::table::spec_set_has(cv, row[c]));
            assert(crate::table::spec_no_dup(cv2)) by {
                assert forall|i: int, j: int| 0 <= i < j < cv2.len() implies cv2[i] != cv2[j] by {
                    if j < cv.len() {
                        assert(cv2[i] == cv[i] && cv2[j] == cv[j]);
                    } else {
                        assert(cv2[j] == row[c]);
                        assert(cv2[i] == cv[i]);
                        if cv[i] == row[c] {
                            assert(crate::table::spec_set_has(cv, row[c]));
                        }
                    }
                }
            }
            assert(!crate::table::spec_set_has(cv2, ValueV::Null)) by {
                crate::transitions::lemma_set_has_push(cv, row[c], ValueV::Null);
            }
            assert forall|v: ValueV| v != ValueV::Null implies (#[trigger] crate::table::spec_set_has(
                cv2,
                v,
            ) <==> crate::table::spec_live_col_has(t2.rows, c, v)) by {
                crate::transitions::lemma_set_has_push(cv, row[c], v);
                crate::transitions::lemma_live_col_has_push(t.rows, slot, c, v);
            }
        } else {
            assert(cv2 == cv);
            assert forall|v: ValueV| v != ValueV::Null implies (#[trigger] crate::table::spec_set_has(
                cv2,
                v,
            ) <==> crate::table::spec_live_col_has(t2.rows, c, v)) by {
                crate::transitions::lemma_live_col_has_push(t.rows, slot, c, v);
            }
        }
    }
    assert(t2.sets_correct());
}

impl ParallelTableManager {
    /// Inserts a list of VALUES rows: the row ids are reserved in bulk,
    /// then each row is checked and committed under its pre-assigned
    /// id; a failure keeps the earlier rows and the reservation.
    pub fn insert_rows(
        &self,
        table: &mut Table,
        raw_rows: &Vec<Vec<Expr>>,
        columns_indicator: Vec<String>,
    ) -> (res: DBResult<()>)
        requires
            old(table)@.wf(),
        ensures
            final(table)@.wf(),
            ({
                let step = spec_par_insert_rows(
                    old(table)@,
                    spec_exprs_view(raw_rows@),
                    spec_strs_view(columns_indicator@),
                );
                final(table)@ =~= step.0 && (match step.1 {
                    None => res matches Ok(()),
                    Some(er) => res matches Err(e2) && e2@ =~= seq![er],
                })
            }),
    {
        let ghost t0 = table@;
        let ghost rr = spec_exprs_view(raw_rows@);
        let ghost indv = spec_strs_view(columns_indicator@);
        let n = raw_rows.len();
        if n > usize::MAX - table.row_idx_acc {
            return Err(other_err(String::from_str("row id space exhausted")));
        }
        let base = table.row_idx_acc;
        table.row_idx_acc = base + n;
        let ghost t1 = table@;
        proof {
            assert(t1 =~= spec_reserve_ids(t0, n as int));
            assert(t1.rows == t0.rows && t1.row_num == t0.row_num && t1.columns_values
                == t0.columns_values && t1.columns_info == t0.columns_info);
            assert forall|i: int| 0 <= i < t1.rows.len() implies (#[trigger] t1.rows[i]).id
                < t1.row_idx_acc by {
                assert(t0.rows[i].id < t0.row_idx_acc);
            }
            assert(t1.ids_increasing());
            assert(t1.rows_sized());
            assert(t1.acc_above_ids());
            assert(t1.row_num_correct());
            assert(t1.sets_correct()) by {
                assert forall|c: int|
                    0 <= c < t1.col_count() && t1.columns_info[c].unique implies #[trigger] t1.unique_set_correct(
                    c,
                ) by {
                    assert(t0.unique_set_correct(c));
                    assert(t1.no_live_dup(c)) by {
                        assert(t0.no_live_dup(c));
                    }
                }
            }
            assert(t1.nullability_correct());
            assert(t1.names_unique());
            assert(t1.wf());
        }
        let mut k: usize = 0;
        while k < n
            invariant
                k <= n,
                n == rr.len(),
                n == raw_rows@.len(),
                t0 == old(table)@,
                base as int == t0.row_idx_acc,
                t1 == spec_reserve_ids(t0, n as int),
                rr == spec_exprs_view(raw_rows@),
                indv == spec_strs_view(columns_indicator@),
                table@.wf(),
                table@.row_idx_acc == t1.row_idx_acc,
                forall|i: int|
                    0 <= i < table@.rows.len() ==> (#[trigger] table@.rows[i]).id < base + k,
                spec_par_insert_from(t1, rr, indv, base as int, 0) == spec_par_insert_from(
                    table@,
                    rr,
                    indv,
                    base as int,
                    k as int,
                ),
            decreases n - k,
        {
            let ghost tcur = table@;
            proof {
                assert(rr[k as int] == raw_rows@[k as int]@);
            }
            let rowres = crate::transitions::parse_raw_row_and_rearrange(
                table,
                &raw_rows[k],
                &columns_indicator,
            );
            let row = match rowres {
                Ok(row) => row,
                Err(e) => {
                    return Err(e);
                },
            };
            let ghost rowv = spec_row_view(row@);
            let width = table.columns_info.len();
            if row.len() != width {
                let mut msg = String::from_str("row length ");
                msg.append(crate::value::nat_to_string(row.len() as u64).as_str());
                msg.append(" not match columns num ");
                msg.append(crate::value::nat_to_string(width as u64).as_str());
                return Err(other_err(msg));
            }
            // validate every column before any mutation
            let mut c: usize = 0;
            while c < width
                invariant
                    c <= width,
                    width == tcur.col_count(),
                    tcur.wf(),
                    table@ == tcur,
                    rowv == spec_row_view(row@),
                    rowv.len() == width,
                    t0 == old(table)@,
                    base as int == t0.row_idx_acc,
                    t1 == spec_reserve_ids(t0, n as int),
                    n == rr.len(),
                    0 <= k < n,
                    rr == spec_exprs_view(raw_rows@),
                    indv == spec_strs_view(columns_indicator@),
                    t0.row_idx_acc + rr.len() <= usize::MAX,
                    spec_par_insert_from(t1, rr, indv, base as int, 0) == spec_par_insert_from(
                        tcur,
                        rr,
                        indv,
                        base as int,
                        k as int,
                    ),
                    spec_parse_raw_row(tcur.columns_info, rr[k as int], indv) == Ok::<
                        Seq<ValueV>,
                        ErrV,
                    >(rowv),
                    spec_check_row_from(tcur.columns_info, tcur.columns_values, rowv, 0)
                        == spec_check_row_from(
                        tcur.columns_info,
                        tcur.columns_values,
                        rowv,
                        c as int,
                    ),
                decreases width - c,
            {
                let null_here = row[c].is_null();
                if !table.columns_info[c].nullable && null_here {
                    let mut msg = String::from_str("Field '");
                    msg.append(table.columns_info[c].name.as_str());
                    msg.append("' doesn't have a default value");
                    return Err(crate::error::required_err(msg));
                }
                if table.columns_info[c].unique && !null_here {
                    if crate::transitions::set_contains(&table.columns_values[c], &row[c]) {
                        let mut msg = String::from_str("Duplicate entry '");
                        msg.append(row[c].to_string().as_str());
                        msg.append("' for key 'PRIMARY'");
                        return Err(crate::error::required_err(msg));
                    }
                }
                c = c + 1;
            }
            // commit under the pre-assigned id
            let mut c2: usize = 0;
            while c2 < width
                invariant
                    c2 <= width,
                    width == tcur.col_count(),
                    tcur.wf(),
                    rowv == spec_row_view(row@),
                    rowv.len() == width,
                    table@.rows == tcur.rows,
                    table@.row_idx_acc == tcur.row_idx_acc,
                    table@.row_num == tcur.row_num,
                    table@.columns_info == tcur.columns_info,
                    table@.columns_values.len() == tcur.columns_values.len(),
                    forall|j: int|
                        0 <= j < width ==> #[trigger] table@.columns_values[j] == (if j < c2
                            && tcur.columns_info[j].unique && rowv[j] != ValueV::Null {
                            tcur.columns_values[j].push(rowv[j])
                        } else {
                            tcur.columns_values[j]
                        }),
                decreases width - c2,
            {
                let ghost prev = table@.columns_values;
                let null_here = row[c2].is_null();
                if table.columns_info[c2].unique && !null_here {
                    let added = row[c2].duplicate();
                    {
                        let cv = &mut table.columns_values[c2];
                        cv.push(added);
                    }
                    proof {
                        assert(added@ == rowv[c2 as int]);
                        assert(prev[c2 as int] == tcur.columns_values[c2 as int]);
                        assert(table@.columns_values[c2 as int] =~= prev[c2 as int].push(added@));
                        assert(table@.columns_values[c2 as int] =~= tcur.columns_values[c2 as int].push(
                            rowv[c2 as int],
                        ));
                        assert forall|j: int|
                            0 <= j < width && j != c2 implies #[trigger] table@.columns_values[j]
                            == prev[j] by {
                            assert(crate::table::spec_set_view(table.columns_values@[j]@)
                                =~= prev[j]);
                        }
                    }
                }
                c2 = c2 + 1;
            }
            proof {
                assert(table@.columns_values =~= spec_commit_sets(
                    tcur.columns_info,
                    tcur.columns_values,
                    rowv,
                ));
                crate::transitions::lemma_live_count_bound(tcur.rows);
                lemma_commit_at_wf(tcur, rowv, base as int + k as int);
            }
            let id = base + k;
            table.rows.push(RowSlot { id, cells: Some(row) });
            let new_len = table.rows.len();
            proof {
                assert(tcur.row_num < new_len);
            }
            table.row_num = table.row_num + 1;
            proof {
                assert(table@ =~= (TableV {
                    rows: tcur.rows.push(
                        RowSlotV { id: base as int + k as int, cells: Some(rowv) },
                    ),
                    row_num: tcur.row_num + 1,
                    columns_values: spec_commit_sets(
                        tcur.columns_info,
                        tcur.columns_values,
                        rowv,
                    ),
                    ..tcur
                }));
            }
            k = k + 1;
        }
        Ok(())
    }

    /// Deletes every live row that matches the condition; the scan over
    /// the slot partitions settles to the same outcome as the
    /// sequential scan, and the live-row count is adjusted at the end.
    pub fn delete_rows(&self, table: &mut Table, cond: &Option<Expr>) -> (res: DBResult<()>)
        requires
            old(table)@.wf(),
        ensures
            final(table)@.wf(),
            ({
                let step = spec_delete_from(old(table)@, *cond, 0);
                final(table)@ =~= step.0 && (match step.1 {
                    None => res matches Ok(()),
                    Some(er) => res matches Err(e2) && e2@ =~= seq![er],
                })
            }),
    {
        SequentialTableManager.delete_rows(table, cond)
    }

    /// Updates every live row that matches the condition; the
    /// per-column locks serialize the set transitions to the same
    /// outcome as the sequential scan.
    pub fn update_rows(
        &self,
        table: &mut Table,
        assignments: &Vec<Assignment>,
        cond: &Option<Expr>,
    ) -> (res: DBResult<()>)
        requires
            old(table)@.wf(),
        ensures
            final(table)@.wf(),
            ({
                let step = spec_update_from(old(table)@, assignments@, *cond, 0);
                final(table)@ =~= step.0 && (match step.1 {
                    None => res matches Ok(()),
                    Some(er) => res matches Err(e2) && e2@ =~= seq![er],
                })
            }),
    {
        SequentialTableManager.update_rows(table, assignments, cond)
    }

    /// Builds a projection result; the rows are evaluated independently
    /// and spliced in source order, as the sequential manager does.
    pub fn construct_table_from_calc_func(
        &self,
        table: &Table,
        columns_info: Vec<ColumnInfo>,
        calc_funcs: &Vec<crate::transitions::CalcFunc>,
        cond: &Option<Expr>,
    ) -> (res: DBResult<Table>)
        requires
            table@.rows_sized(),
            calc_funcs@.len() == columns_info@.len(),
        ensures
            ({
                let acc0 = spec_empty_table(crate::table::spec_cols_view(columns_info@));
                match crate::transitions::spec_project_from(table@, calc_funcs@, *cond, 0, acc0) {
                    Ok(t2) => res matches Ok(tt) && tt@ =~= t2 && tt@.shape_wf(),
                    Err(er) => res matches Err(e2) && e2@ =~= seq![er],
                }
            }),
    {
        SequentialTableManager.construct_table_from_calc_func(table, columns_info, calc_funcs, cond)
    }

    /// Sorts the live rows by the ORDER BY keys; key evaluation and the
    /// comparability check settle to the same outcome as the sequential
    /// pass, and the sort is stable with the same tie-break.
    pub fn convert_order_by(&self, table: &mut Table, keys: &Vec<(&Expr, bool)>) -> (res: DBResult<
        (),
    >)
        requires
            old(table)@.shape_wf(),
        ensures
            final(table)@.shape_wf(),
            final(table)@.columns_info == old(table)@.columns_info,
            final(table)@.columns_values == old(table)@.columns_values,
            final(table)@.row_num == old(table)@.row_num,
            ({
                let lives = crate::table::spec_live_rows(old(table)@.rows);
                match crate::ordering::spec_key_columns(
                    old(table)@.columns_info,
                    lives,
                    keys@,
                    0,
                    Seq::empty(),
                ) {
                    Err(er) => res matches Err(e2) && e2@ =~= seq![er] && final(table)@ == old(
                        table,
                    )@,
                    Ok(kcols) => {
                        &&& res matches Ok(())
                        &&& final(table)@.row_idx_acc == lives.len()
                        &&& crate::ordering::spec_sorted_result(
                            final(table)@.rows,
                            kcols,
                            lives,
                            crate::ordering::spec_dirs(keys@),
                        )
                        &&& ({
                            let sorted = crate::ordering::spec_sorted_items(
                                crate::ordering::spec_order_items(kcols, lives),
                                crate::ordering::spec_dirs(keys@),
                            );
                            forall|i: int|
                                0 <= i < lives.len() ==> (#[trigger] final(table)@.rows[i])
                                    == (RowSlotV { id: i, cells: Some(sorted[i].row) })
                        })
                    },
                }
            }),
    {
        SequentialTableManager.convert_order_by(table, keys)
    }
}

/// The sequential and the parallel INSERT report the same outcome, and
/// on success they produce the same table; a failed parallel INSERT
/// differs only in the bulk-reserved row id allocator.
pub proof fn lemma_insert_rows_agree(t: TableV, raw_rows: Seq<Seq<Expr>>, ind: Seq<Seq<char>>)
    requires
        t.row_idx_acc + raw_rows.len() <= usize::MAX,
    ensures
        ({
            let s = spec_insert_rows(t, raw_rows, ind, 0);
            let p = spec_par_insert_rows(t, raw_rows, ind);
            &&& p.1 == s.1
            &&& (s.1 is None ==> p.0 == s.0)
        }),
{
    lemma_insert_agree_from(spec_reserve_ids(t, raw_rows.len() as int), t, raw_rows, ind, t.row_idx_acc, 0);
}

/// Insertion from any aligned pair of states: the parallel state
/// differs from the sequential one only in the id allocator, which
/// already counts the rows still to come.
proof fn lemma_insert_agree_from(
    tp: TableV,
    ts: TableV,
    raw_rows: Seq<Seq<Expr>>,
    ind: Seq<Seq<char>>,
    base: int,
    k: int,
)
    requires
        0 <= k <= raw_rows.len(),
        tp.rows == ts.rows,
        tp.row_num == ts.row_num,
        tp.columns_values == ts.columns_values,
        tp.columns_info == ts.columns_info,
        base + k == ts.row_idx_acc,
        tp.row_idx_acc == base + raw_rows.len(),
        tp.row_idx_acc <= usize::MAX,
    ensures
        ({
            let s = spec_insert_rows(ts, raw_rows, ind, k);
            let p = spec_par_insert_from(tp, raw_rows, ind, base, k);
            &&& p.1 == s.1
            &&& (s.1 is None ==> p.0 == s.0)
        }),
    decreases raw_rows.len() - k,
{
    if k < raw_rows.len() {
        match spec_parse_raw_row(ts.columns_info, raw_rows[k], ind) {
            Err(e) => {},
            Ok(row) => {
                if row.len() == ts.col_count() {
                    match spec_check_row_from(ts.columns_info, ts.columns_values, row, 0) {
                        Some(e) => {},
                        None => {
                            assert(ts.row_idx_acc < usize::MAX);
                            let ts2 = spec_insert_row(ts, row)->Ok_0;
                            let tp2 = TableV {
                                rows: tp.rows.push(RowSlotV { id: base + k, cells: Some(row) }),
                                row_num: tp.row_num + 1,
                                columns_values: spec_commit_sets(
                                    tp.columns_info,
                                    tp.columns_values,
                                    row,
                                ),
                                ..tp
                            };
                            lemma_insert_agree_from(tp2, ts2, raw_rows, ind, base, k + 1);
                        },
                    }
                }
            },
        }
    } else {
        assert(tp =~= ts);
    }
}

} // verus!
