//! The sequential table manager: the canonical semantics of every row
//! operation, executed one row at a time.

use crate::column_info::ColumnInfo;
use crate::column_info::ColumnInfoV;
use crate::error::DBResult;
use crate::error::ErrV;
use crate::error::other_err;
use crate::error::unsupported_err;
use crate::error::required_err;
use crate::sql::Assignment;
use crate::sql::AssignmentTarget;
use crate::sql::Expr;
use crate::table::RowSlot;
use crate::table::Table;
use crate::table::TableV;
use crate::table::spec_row_view;
use crate::table::RowSlotV;
use crate::table::clone_row;
use crate::table::spec_live_count;
use crate::transitions::spec_append_row;
use crate::transitions::spec_delete_from;
use crate::transitions::spec_remove_row_sets;
use crate::transitions::spec_tombstone;
use crate::transitions::lemma_live_count_bound;
use crate::transitions::lemma_tombstone_wf;
use crate::transitions::set_remove;
use crate::transitions::spec_check_row_from;
use crate::transitions::spec_commit_sets;
use crate::transitions::spec_insert_row;
use crate::transitions::spec_insert_rows;
use crate::transitions::spec_opt_view;
use crate::transitions::spec_parse_raw_row;
use crate::transitions::spec_strs_view;
use crate::transitions::spec_update_cv;
use crate::transitions::spec_exprs_view;
use crate::transitions::lemma_insert_row_wf;
use crate::transitions::parse_raw_row_and_rearrange;
use crate::transitions::apply_column_update;
use crate::transitions::set_contains;
use crate::value::Value;
use crate::value::ValueV;
use crate::value::nat_to_string;
use vstd::prelude::*;

verus! {

/// A table manager that performs every row operation sequentially.
pub struct SequentialTableManager;

impl SequentialTableManager {
    /// Appends a row as a live slot under a fresh id, with no
    /// constraint checks.
    pub fn insert_row_unchecked(&self, table: &mut Table, row: Vec<Value>) -> (res: DBResult<
        usize,
    >)
        requires
            old(table)@.row_idx_acc < usize::MAX,
            old(table)@.row_num <= old(table)@.rows.len(),
        ensures
            res matches Ok(id) && id as int == old(table)@.row_idx_acc,
            final(table)@ =~= spec_append_row(old(table)@, spec_row_view(row@)),
    {
        let row_number = table.row_idx_acc;
        table.rows.push(RowSlot { id: row_number, cells: Some(row) });
        let new_len = table.rows.len();
        proof {
            assert(old(table)@.row_num < new_len);
        }
        table.row_idx_acc = table.row_idx_acc + 1;
        table.row_num = table.row_num + 1;
        Ok(row_number)
    }

    /// Checks and commits one evaluated row: length, nullability and
    /// uniqueness checks, then the set updates and the append.
    pub fn insert_row(&self, table: &mut Table, row: Vec<Value>) -> (res: DBResult<usize>)
        requires
            old(table)@.wf(),
        ensures
            match spec_insert_row(old(table)@, spec_row_view(row@)) {
                Ok(t2) => res matches Ok(id) && id as int == old(table)@.row_idx_acc
                    && final(table)@ =~= t2,
                Err(er) => res matches Err(e2) && e2@ =~= seq![er]
                    && final(table)@ == old(table)@,
            },
    {
        let ghost t0 = table@;
        let ghost rowv = spec_row_view(row@);
        let width = table.columns_info.len();
        if row.len() != width {
            let mut msg = String::from_str("row length ");
            msg.append(nat_to_string(row.len() as u64).as_str());
            msg.append(" not match columns num ");
            msg.append(nat_to_string(width as u64).as_str());
            return Err(other_err(msg));
        }
        // validate every column before any mutation
        let mut c: usize = 0;
        while c < width
            invariant
                c <= width,
                width == t0.col_count(),
                t0.wf(),
                table@ == t0,
                rowv == spec_row_view(row@),
                rowv.len() == width,
                spec_check_row_from(t0.columns_info, t0.columns_values, rowv, 0)
                    == spec_check_row_from(t0.columns_info, t0.columns_values, rowv, c as int),
            decreases width - c,
        {
            let null_here = row[c].is_null();
            if !table.columns_info[c].nullable && null_here {
                let mut msg = String::from_str("Field '");
                msg.append(table.columns_info[c].name.as_str());
                msg.append("' doesn't have a default value");
                return Err(required_err(msg));
            }
            if table.columns_info[c].unique && !null_here {
                if set_contains(&table.columns_values[c], &row[c]) {
                    let mut msg = String::from_str("Duplicate entry '");
                    msg.append(row[c].to_string().as_str());
                    msg.append("' for key 'PRIMARY'");
                    return Err(required_err(msg));
                }
            }
            c = c + 1;
        }
        if table.row_idx_acc == usize::MAX {
            return Err(other_err(String::from_str("row id space exhausted")));
        }
        // commit: update the uniqueness sets, then append the row
        let mut c2: usize = 0;
        while c2 < width
            invariant
                c2 <= width,
                width == t0.col_count(),
                t0.wf(),
                rowv == spec_row_view(row@),
                rowv.len() == width,
                table@.rows == t0.rows,
                table@.row_idx_acc == t0.row_idx_acc,
                table@.row_num == t0.row_num,
                table@.columns_info == t0.columns_info,
                table@.columns_values.len() == t0.columns_values.len(),
                forall|j: int|
                    0 <= j < width ==> #[trigger] table@.columns_values[j] == (if j < c2
                        && t0.columns_info[j].unique && rowv[j] != ValueV::Null {
                        t0.columns_values[j].push(rowv[j])
                    } else {
                        t0.columns_values[j]
                    }),
            decreases width - c2,
        {
            let ghost prev = table@.columns_values;
            let null_here = row[c2].is_null();
            if table.columns_info[c2].unique && !null_here {
                let added = row[c2].duplicate();
                {
                    let cv = &mut table.columns_values[c2];
                    cv.push(added);
                }
                proof {
                    assert(added@ == rowv[c2 as int]);
                    assert(prev[c2 as int] == t0.columns_values[c2 as int]);
                    assert(table@.columns_values[c2 as int] =~= prev[c2 as int].push(added@));
                    assert(table@.columns_values[c2 as int] =~= t0.columns_values[c2 as int].push(
                        rowv[c2 as int],
                    ));
                    assert forall|j: int| 0 <= j < width && j != c2 implies #[trigger] table@.columns_values[j]
                        == prev[j] by {
                        assert(crate::table::spec_set_view(table.columns_values@[j]@) =~= prev[j]);
                    }
                }
            }
            c2 = c2 + 1;
        }
        proof {
            assert(table@.columns_values =~= spec_commit_sets(
                t0.columns_info,
                t0.columns_values,
                rowv,
            ));
            lemma_live_count_bound(t0.rows);
        }
        let row_number = table.row_idx_acc;
        table.rows.push(RowSlot { id: row_number, cells: Some(row) });
        let new_len = table.rows.len();
        proof {
            assert(t0.row_num < new_len);
        }
        table.row_idx_acc = table.row_idx_acc + 1;
        table.row_num = table.row_num + 1;
        proof {
            assert(final(table)@ =~= spec_insert_row(t0, rowv)->Ok_0);
        }
        Ok(row_number)
    }

    /// Checks one column-set transition and applies it to the table.
    pub fn update_column_values(
        &self,
        table: &mut Table,
        col_idx: usize,
        value_to_delete: Option<&Value>,
        value_to_add: Option<&Value>,
    ) -> (res: DBResult<()>)
        requires
            col_idx < old(table)@.columns_values.len(),
            old(table)@.columns_values.len() == old(table)@.col_count(),
        ensures
            final(table)@.rows == old(table)@.rows,
            final(table)@.row_idx_acc == old(table)@.row_idx_acc,
            final(table)@.row_num == old(table)@.row_num,
            final(table)@.columns_info == old(table)@.columns_info,
            match spec_update_cv(
                old(table)@.columns_info[col_idx as int],
                old(table)@.columns_values[col_idx as int],
                spec_opt_view(value_to_delete),
                spec_opt_view(value_to_add),
            ) {
                Ok(cv2) => res matches Ok(()) && final(table)@.columns_values
                    =~= old(table)@.columns_values.update(col_idx as int, cv2),
                Err(er) => res matches Err(e2) && e2@ =~= seq![er] && final(table)@.columns_values
                    =~= old(table)@.columns_values,
            },
    {
        apply_column_update(table, col_idx, value_to_delete, value_to_add)
    }

    /// Inserts a list of VALUES rows, committing one row at a time: a
    /// failure leaves the earlier rows in place.
    pub fn insert_rows(
        &self,
        table: &mut Table,
        raw_rows: &Vec<Vec<Expr>>,
        columns_indicator: Vec<String>,
    ) -> (res: DBResult<()>)
        requires
            old(table)@.wf(),
        ensures
            final(table)@.wf(),
            ({
                let step = spec_insert_rows(
                    old(table)@,
                    spec_exprs_view(raw_rows@),
                    spec_strs_view(columns_indicator@),
                    0,
                );
                final(table)@ =~= step.0 && (match step.1 {
                    None => res matches Ok(()),
                    Some(er) => res matches Err(e2) && e2@ =~= seq![er],
                })
            }),
    {
        let ghost t0 = table@;
        let ghost rr = spec_exprs_view(raw_rows@);
        let ghost indv = spec_strs_view(columns_indicator@);
        let n = raw_rows.len();
        let mut k: usize = 0;
        while k < n
            invariant
                k <= n,
                n == rr.len(),
                n == raw_rows@.len(),
                t0 == old(table)@,
                rr == spec_exprs_view(raw_rows@),
                indv == spec_strs_view(columns_indicator@),
                table@.wf(),
                spec_insert_rows(t0, rr, indv, 0) == spec_insert_rows(table@, rr, indv, k as int),
            decreases n - k,
        {
            let ghost tcur = table@;
            proof {
                assert(rr[k as int] == raw_rows@[k as int]@);
            }
            let rowres = parse_raw_row_and_rearrange(table, &raw_rows[k], &columns_indicator);
            let row = match rowres {
                Ok(row) => row,
                Err(e) => {
                    proof {
                        assert(spec_parse_raw_row(tcur.columns_info, rr[k as int], indv) is Err);
                        assert(spec_insert_rows(tcur, rr, indv, k as int).0 == tcur);
                        assert(spec_insert_rows(t0, rr, indv, 0).0 == tcur);
                    }
                    return Err(e);
                },
            };
            proof {
                lemma_insert_row_wf(tcur, spec_row_view(row@));
            }
            let insres = self.insert_row(table, row);
            match insres {
                Ok(_) => {},
                Err(e) => {
                    proof {
                        assert(spec_parse_raw_row(tcur.columns_info, rr[k as int], indv) is Ok);
                        assert(spec_insert_row(tcur, spec_row_view(row@)) is Err);
                        assert(spec_insert_rows(tcur, rr, indv, k as int).0 == tcur);
                        assert(spec_insert_rows(t0, rr, indv, 0).0 == tcur);
                    }
                    return Err(e);
                },
            }
            k = k + 1;
        }
        Ok(())
    }
}

impl SequentialTableManager {
    /// Deletes every live row that matches the condition, scanning the
    /// slots in row id order; an evaluation error stops the scan and
    /// keeps the earlier deletions.
    pub fn delete_rows(&self, table: &mut Table, cond: &Option<Expr>) -> (res: DBResult<()>)
        requires
            old(table)@.wf(),
        ensures
            final(table)@.wf(),
            ({
                let step = spec_delete_from(old(table)@, *cond, 0);
                final(table)@ =~= step.0 && (match step.1 {
                    None => res matches Ok(()),
                    Some(er) => res matches Err(e2) && e2@ =~= seq![er],
                })
            }),
    {
        let ghost t0 = table@;
        let n = table.rows.len();
        let mut i: usize = 0;
        while i < n
            invariant
                i <= n,
                n == table@.rows.len(),
                t0 == old(table)@,
                table@.wf(),
                spec_delete_from(t0, *cond, 0) == spec_delete_from(table@, *cond, i as int),
            decreases n - i,
        {
            let ghost tcur = table@;
            let row_copy_opt = match &table.rows[i].cells {
                Some(cells) => Some(clone_row(cells)),
                None => None,
            };
            match row_copy_opt {
                None => {
                    proof {
                        assert(tcur.rows[i as int].cells is None);
                    }
                },
                Some(row_copy) => {
                    let ghost rowv = tcur.rows[i as int].cells->Some_0;
                    proof {
                        assert(spec_row_view(row_copy@) =~= rowv);
                        assert(rowv.len() == tcur.col_count());
                    }
                    let selres = crate::expr::row_satisfies(
                        &table.columns_info,
                        &row_copy,
                        cond,
                    );
                    let sel = match selres {
                        Ok(b) => b,
                        Err(e) => {
                            proof {
                                assert(spec_delete_from(tcur, *cond, i as int).0 == tcur);
                            }
                            return Err(e);
                        },
                    };
                    if sel {
                        let width = table.columns_info.len();
                        let mut c: usize = 0;
                        while c < width
                            invariant
                                c <= width,
                                width == tcur.col_count(),
                                width == tcur.columns_values.len(),
                                rowv.len() == width,
                                rowv == spec_row_view(row_copy@),
                                row_copy@.len() == width,
                                table@.rows == tcur.rows,
                                table@.row_idx_acc == tcur.row_idx_acc,
                                table@.row_num == tcur.row_num,
                                table@.columns_info == tcur.columns_info,
                                table@.columns_values.len() == tcur.columns_values.len(),
                                forall|j: int|
                                    0 <= j < width ==> #[trigger] table@.columns_values[j] == (if j
                                        < c && rowv[j] != ValueV::Null {
                                        crate::transitions::spec_set_remove(
                                            tcur.columns_values[j],
                                            rowv[j],
                                        )
                                    } else {
                                        tcur.columns_values[j]
                                    }),
                            decreases width - c,
                        {
                            let ghost prev = table@.columns_values;
                            if !row_copy[c].is_null() {
                                {
                                    let cv = &mut table.columns_values[c];
                                    set_remove(cv, &row_copy[c]);
                                }
                                proof {
                                    assert(table@.columns_values[c as int]
                                        =~= crate::transitions::spec_set_remove(
                                        prev[c as int],
                                        rowv[c as int],
                                    ));
                                    assert forall|j: int|
                                        0 <= j < width && j != c implies #[trigger] table@.columns_values[j]
                                        == prev[j] by {
                                        assert(crate::table::spec_set_view(
                                            table.columns_values@[j]@,
                                        ) =~= prev[j]);
                                    }
                                }
                            }
                            c = c + 1;
                        }
                        let id = table.rows[i].id;
                        table.rows[i] = RowSlot { id, cells: None };
                        proof {
                            assert(table@.rows =~= tcur.rows.update(
                                i as int,
                                RowSlotV { id: tcur.rows[i as int].id, cells: None },
                            ));
                            crate::transitions::lemma_live_count_update_none(tcur.rows, i as int);
                            lemma_live_count_bound(table@.rows);
                            assert(table@.row_num >= 1);
                        }
                        table.row_num = table.row_num - 1;
                        proof {
                            assert(table@.columns_values =~= spec_remove_row_sets(
                                tcur.columns_info,
                                tcur.columns_values,
                                rowv,
                            ));
                            assert(table@ =~= spec_tombstone(tcur, i as int));
                            lemma_tombstone_wf(tcur, i as int);
                            assert(spec_delete_from(tcur, *cond, i as int) == spec_delete_from(
                                spec_tombstone(tcur, i as int),
                                *cond,
                                i as int + 1,
                            ));
                        }
                    }
                },
            }
            i = i + 1;
        }
        Ok(())
    }
}

impl SequentialTableManager {
    /// Updates every live row that matches the condition, applying the
    /// assignments left to right; each expression reads the row as it
    /// was before the first assignment, so two columns can be swapped.
    pub fn update_rows(
        &self,
        table: &mut Table,
        assignments: &Vec<Assignment>,
        cond: &Option<Expr>,
    ) -> (res: DBResult<()>)
        requires
            old(table)@.wf(),
        ensures
            final(table)@.wf(),
            ({
                let step = crate::transitions::spec_update_from(old(table)@, assignments@, *cond, 0);
                final(table)@ =~= step.0 && (match step.1 {
                    None => res matches Ok(()),
                    Some(er) => res matches Err(e2) && e2@ =~= seq![er],
                })
            }),
    {
        let ghost t0 = table@;
        let n = table.rows.len();
        let mut i: usize = 0;
        while i < n
            invariant
                i <= n,
                n == table@.rows.len(),
                t0 == old(table)@,
                table@.wf(),
                crate::transitions::spec_update_from(t0, assignments@, *cond, 0)
                    == crate::transitions::spec_update_from(table@, assignments@, *cond, i as int),
            decreases n - i,
        {
            let ghost tcur = table@;
            let row_copy_opt = match &table.rows[i].cells {
                Some(cells) => Some(clone_row(cells)),
                None => None,
            };
            match row_copy_opt {
                None => {
                    proof {
                        assert(tcur.rows[i as int].cells is None);
                    }
                },
                Some(orig_row) => {
                    let ghost rowv = tcur.rows[i as int].cells->Some_0;
                    proof {
                        assert(spec_row_view(orig_row@) =~= rowv);
                        assert(rowv.len() == tcur.col_count());
                    }
                    let selres = crate::expr::row_satisfies(
                        &table.columns_info,
                        &orig_row,
                        cond,
                    );
                    let sel = match selres {
                        Ok(b) => b,
                        Err(e) => {
                            proof {
                                assert(crate::transitions::spec_update_from(
                                    tcur,
                                    assignments@,
                                    *cond,
                                    i as int,
                                ).0 == tcur);
                            }
                            return Err(e);
                        },
                    };
                    if sel {
                        let id = table.rows[i].id;
                        let mut cur = clone_row(&orig_row);
                        let width = table.columns_info.len();
                        let ghost origv = spec_row_view(orig_row@);
                        let m = assignments.len();
                        let mut k: usize = 0;
                        let mut failure: Option<crate::error::DBError> = None;
                        proof {
                            assert(spec_row_view(cur@) =~= rowv);
                            assert(tcur.rows.update(
                                i as int,
                                RowSlotV { id: id as int, cells: Some(spec_row_view(cur@)) },
                            ) =~= tcur.rows);
                        }
                        while k < m && failure.is_none()
                            invariant
                                k <= m,
                                m == assignments@.len(),
                                width == tcur.col_count(),
                                id as int == tcur.rows[i as int].id,
                                0 <= i < tcur.rows.len(),
                                tcur.rows[i as int].cells is Some,
                                origv == rowv,
                                origv == spec_row_view(orig_row@),
                                origv.len() == width,
                                orig_row@.len() == width,
                                cur@.len() == width,
                                table@.rows == tcur.rows,
                                table@.row_idx_acc == tcur.row_idx_acc,
                                table@.row_num == tcur.row_num,
                                table@.columns_info == tcur.columns_info,
                                table@.columns_values.len() == width,
                                ({
                                    let tk = TableV {
                                        rows: tcur.rows.update(
                                            i as int,
                                            RowSlotV {
                                                id: id as int,
                                                cells: Some(spec_row_view(cur@)),
                                            },
                                        ),
                                        columns_values: table@.columns_values,
                                        ..tcur
                                    };
                                    tk.wf()
                                }),
                                ({
                                    let full = crate::transitions::spec_apply_assignments(
                                        tcur.columns_info,
                                        origv,
                                        assignments@,
                                        0,
                                        tcur.columns_values,
                                        rowv,
                                    );
                                    match failure {
                                        None => full == crate::transitions::spec_apply_assignments(
                                            tcur.columns_info,
                                            origv,
                                            assignments@,
                                            k as int,
                                            table@.columns_values,
                                            spec_row_view(cur@),
                                        ),
                                        Some(e) => {
                                            &&& full.0 == table@.columns_values
                                            &&& full.1 == spec_row_view(cur@)
                                            &&& full.2 matches Some(er)
                                            &&& (full.2 matches Some(er2) ==> e@ =~= seq![er2])
                                        },
                                    }
                                }),
                            decreases m - k,
                        {
                            let ghost tk = TableV {
                                rows: tcur.rows.update(
                                    i as int,
                                    RowSlotV { id: id as int, cells: Some(spec_row_view(cur@)) },
                                ),
                                columns_values: table@.columns_values,
                                ..tcur
                            };
                            match &assignments[k].target {
                                AssignmentTarget::Other(_) => {
                                    failure = Some(
                                        unsupported_err(String::from_str("only support column name")),
                                    );
                                },
                                AssignmentTarget::ColumnName(name) => {
                                    match crate::expr::find_column(
                                        &table.columns_info,
                                        name.as_str(),
                                    ) {
                                        None => {
                                            let mut msg = String::from_str("column not found: ");
                                            msg.append(name.as_str());
                                            failure = Some(other_err(msg));
                                        },
                                        Some(ci) => {
                                            let evres = crate::expr::eval_expr(
                                                &table.columns_info,
                                                &orig_row,
                                                &assignments[k].value,
                                            );
                                            match evres {
                                                Err(e) => {
                                                    failure = Some(e);
                                                },
                                                Ok(value) => {
                                                    let upres = self.update_column_values(
                                                        table,
                                                        ci,
                                                        Some(&cur[ci]),
                                                        Some(&value),
                                                    );
                                                    match upres {
                                                        Err(e) => {
                                                            failure = Some(e);
                                                        },
                                                        Ok(()) => {
                                                            proof {
                                                                crate::transitions::lemma_assign_step_wf(
                                                                    tk,
                                                                    i as int,
                                                                    ci as int,
                                                                    value@,
                                                                );
                                                                assert(tk.rows.update(
                                                                    i as int,
                                                                    RowSlotV {
                                                                        id: tk.rows[i as int].id,
                                                                        cells: Some(
                                                                            spec_row_view(
                                                                                cur@,
                                                                            ).update(
                                                                                ci as int,
                                                                                value@,
                                                                            ),
                                                                        ),
                                                                    },
                                                                ) =~= tcur.rows.update(
                                                                    i as int,
                                                                    RowSlotV {
                                                                        id: id as int,
                                                                        cells: Some(
                                                                            spec_row_view(
                                                                                cur@,
                                                                            ).update(
                                                                                ci as int,
                                                                                value@,
                                                                            ),
                                                                        ),
                                                                    },
                                                                ));
                                                            }
                                                            let ghost prev_cur = cur@;
                                                            let ghost vv = value@;
                                                            cur[ci] = value;
                                                            proof {
                                                                assert(spec_row_view(cur@)
                                                                    =~= spec_row_view(
                                                                    prev_cur,
                                                                ).update(ci as int, vv));
                                                            }
                                                        },
                                                    }
                                                },
                                            }
                                        },
                                    }
                                },
                            }
                            k = k + 1;
                        }
                        table.rows[i] = RowSlot { id, cells: Some(cur) };
                        proof {
                            assert(table@.rows =~= tcur.rows.update(
                                i as int,
                                RowSlotV {
                                    id: id as int,
                                    cells: Some(
                                        spec_row_view(table.rows@[i as int].cells->Some_0@),
                                    ),
                                },
                            ));
                        }
                        match failure {
                            Some(e) => {
                                return Err(e);
                            },
                            None => {},
                        }
                    }
                },
            }
            i = i + 1;
        }
        Ok(())
    }
}

/// The empty table over a schema.
pub open spec fn spec_empty_table(cols: Seq<ColumnInfoV>) -> TableV {
    TableV {
        rows: Seq::empty(),
        row_idx_acc: 0,
        row_num: 0,
        columns_values: Seq::new(cols.len(), |c: int| Seq::empty()),
        columns_info: cols,
    }
}

impl SequentialTableManager {
    /// Builds a fresh result table: for every live source row that
    /// matches the condition, evaluates each projection column, and
    /// appends the output row without constraint checks.
    pub fn construct_table_from_calc_func(
        &self,
        table: &Table,
        columns_info: Vec<ColumnInfo>,
        calc_funcs: &Vec<crate::transitions::CalcFunc>,
        cond: &Option<Expr>,
    ) -> (res: DBResult<Table>)
        requires
            table@.rows_sized(),
            calc_funcs@.len() == columns_info@.len(),
        ensures
            ({
                let acc0 = spec_empty_table(crate::table::spec_cols_view(columns_info@));
                match crate::transitions::spec_project_from(table@, calc_funcs@, *cond, 0, acc0) {
                    Ok(t2) => res matches Ok(tt) && tt@ =~= t2 && tt@.shape_wf(),
                    Err(er) => res matches Err(e2) && e2@ =~= seq![er],
                }
            }),
    {
        let ghost src = table@;
        let ghost funcs = calc_funcs@;
        let ghost colsv = crate::table::spec_cols_view(columns_info@);
        let width = calc_funcs.len();
        let mut new_table = Table::new(columns_info);
        proof {
            assert(new_table@ =~~= spec_empty_table(colsv));
            assert(spec_live_count(new_table@.rows) == 0);
            assert(new_table@.shape_wf());
        }
        let ghost acc0 = new_table@;
        let n = table.rows.len();
        let mut i: usize = 0;
        while i < n
            invariant
                i <= n,
                n == src.rows.len(),
                src == table@,
                src.rows_sized(),
                funcs == calc_funcs@,
                funcs.len() == width,
                new_table@.shape_wf(),
                new_table@.col_count() == width,
                acc0 == spec_empty_table(colsv),
                colsv == crate::table::spec_cols_view(columns_info@),
                colsv.len() == width,
                crate::transitions::spec_project_from(src, funcs, *cond, 0, acc0)
                    == crate::transitions::spec_project_from(src, funcs, *cond, i as int, new_table@),
            decreases n - i,
        {
            let ghost tacc = new_table@;
            let row_copy_opt = match &table.rows[i].cells {
                Some(cells) => Some(clone_row(cells)),
                None => None,
            };
            match row_copy_opt {
                None => {
                    proof {
                        assert(src.rows[i as int].cells is None);
                    }
                },
                Some(row_copy) => {
                    let ghost rowv = src.rows[i as int].cells->Some_0;
                    proof {
                        assert(spec_row_view(row_copy@) =~= rowv);
                        assert(rowv.len() == src.col_count());
                    }
                    let selres = crate::expr::row_satisfies(
                        &table.columns_info,
                        &row_copy,
                        cond,
                    );
                    let sel = match selres {
                        Ok(b) => b,
                        Err(e) => {
                            return Err(e);
                        },
                    };
                    if sel {
                        let mut new_row: Vec<Value> = Vec::new();
                        let mut k: usize = 0;
                        proof {
                            assert(funcs.skip(0) =~= funcs);
                        }
                        while k < width
                            invariant
                                k <= width,
                                funcs.len() == width,
                                funcs == calc_funcs@,
                                src == table@,
                                src.rows_sized(),
                                acc0 == spec_empty_table(colsv),
                                colsv == crate::table::spec_cols_view(columns_info@),
                                colsv.len() == width,
                                new_table@.shape_wf(),
                                new_table@.col_count() == width,
                                0 <= i < src.rows.len(),
                                src.rows[i as int].cells == Some(rowv),
                                crate::expr::spec_row_satisfies(src.columns_info, rowv, *cond)
                                    == Ok::<bool, crate::error::ErrV>(true),
                                crate::transitions::spec_project_from(src, funcs, *cond, 0, acc0)
                                    == crate::transitions::spec_project_from(
                                    src,
                                    funcs,
                                    *cond,
                                    i as int,
                                    new_table@,
                                ),
                                rowv == spec_row_view(row_copy@),
                                rowv.len() == src.col_count(),
                                row_copy@.len() == src.col_count(),
                                new_row@.len() == k,
                                match crate::transitions::spec_calc_row(
                                    src.columns_info,
                                    rowv,
                                    funcs,
                                ) {
                                    Err(e) => !(crate::transitions::spec_calc_row(
                                        src.columns_info,
                                        rowv,
                                        funcs.skip(k as int),
                                    ) is Ok),
                                    Ok(vs) => crate::transitions::spec_calc_row(
                                        src.columns_info,
                                        rowv,
                                        funcs.skip(k as int),
                                    ) matches Ok(rest) && vs == spec_row_view(new_row@) + rest,
                                },
                                match crate::transitions::spec_calc_row(
                                    src.columns_info,
                                    rowv,
                                    funcs,
                                ) {
                                    Err(e) => crate::transitions::spec_calc_row(
                                        src.columns_info,
                                        rowv,
                                        funcs.skip(k as int),
                                    ) matches Err(e2) && e == e2,
                                    Ok(_) => true,
                                },
                            decreases width - k,
                        {
                            let ghost rest = funcs.skip(k as int);
                            proof {
                                assert(rest[0] == funcs[k as int]);
                                assert(rest.drop_first() =~= funcs.skip(k as int + 1));
                            }
                            let vres: DBResult<Value> = match &calc_funcs[k] {
                                crate::transitions::CalcFunc::ColumnRef(ix) => {
                                    if *ix < row_copy.len() {
                                        Ok(row_copy[*ix].duplicate())
                                    } else {
                                        Ok(Value::from_null())
                                    }
                                },
                                crate::transitions::CalcFunc::Calc(e) => crate::expr::eval_expr(
                                    &table.columns_info,
                                    &row_copy,
                                    *e,
                                ),
                            };
                            let v = match vres {
                                Ok(v) => v,
                                Err(e) => {
                                    proof {
                                        assert(crate::transitions::spec_calc_row(
                                            src.columns_info,
                                            rowv,
                                            rest,
                                        ) is Err);
                                    }
                                    return Err(e);
                                },
                            };
                            new_row.push(v);
                            proof {
                                if crate::transitions::spec_calc_row(
                                    src.columns_info,
                                    rowv,
                                    funcs,
                                ) is Ok {
                                    let vs = crate::transitions::spec_calc_row(
                                        src.columns_info,
                                        rowv,
                                        funcs,
                                    )->Ok_0;
                                    let r1 = crate::transitions::spec_calc_row(
                                        src.columns_info,
                                        rowv,
                                        rest,
                                    )->Ok_0;
                                    let r2 = crate::transitions::spec_calc_row(
                                        src.columns_info,
                                        rowv,
                                        funcs.skip(k as int + 1),
                                    )->Ok_0;
                                    assert(r1 == seq![r1[0]] + r2);
                                    assert(spec_row_view(new_row@) =~= spec_row_view(
                                        new_row@.drop_last(),
                                    ) + seq![new_row@.last()@]);
                                    assert(vs =~= spec_row_view(new_row@) + r2);
                                }
                            }
                            k = k + 1;
                        }
                        proof {
                            assert(funcs.skip(width as int) =~= Seq::<
                                crate::transitions::CalcFunc,
                            >::empty());
                            if crate::transitions::spec_calc_row(src.columns_info, rowv, funcs)
                                is Ok {
                                assert(spec_row_view(new_row@)
                                    =~= crate::transitions::spec_calc_row(
                                    src.columns_info,
                                    rowv,
                                    funcs,
                                )->Ok_0);
                            }
                        }
                        if new_table.row_idx_acc == usize::MAX {
                            return Err(other_err(String::from_str("row id space exhausted")));
                        }
                        proof {
                            crate::transitions::lemma_append_shape_wf(
                                tacc,
                                spec_row_view(new_row@),
                            );
                            crate::transitions::lemma_live_count_bound(tacc.rows);
                        }
                        let insres = self.insert_row_unchecked(&mut new_table, new_row);
                        match insres {
                            Ok(_) => {},
                            Err(e) => {
                                return Err(e);
                            },
                        }
                    }
                },
            }
            i = i + 1;
        }
        Ok(new_table)
    }
}

impl SequentialTableManager {
    /// Sorts the live rows by the ORDER BY keys: every key value is
    /// computed and checked comparable against its predecessor before
    /// any sorting starts; ties keep the source row order; row ids are
    /// renumbered densely from zero.
    pub fn convert_order_by(&self, table: &mut Table, keys: &Vec<(&Expr, bool)>) -> (res: DBResult<
        (),
    >)
        requires
            old(table)@.shape_wf(),
        ensures
            final(table)@.shape_wf(),
            final(table)@.columns_info == old(table)@.columns_info,
            final(table)@.columns_values == old(table)@.columns_values,
            final(table)@.row_num == old(table)@.row_num,
            ({
                let lives = crate::table::spec_live_rows(old(table)@.rows);
                match crate::ordering::spec_key_columns(
                    old(table)@.columns_info,
                    lives,
                    keys@,
                    0,
                    Seq::empty(),
                ) {
                    Err(er) => res matches Err(e2) && e2@ =~= seq![er] && final(table)@ == old(
                        table,
                    )@,
                    Ok(kcols) => {
                        &&& res matches Ok(())
                        &&& final(table)@.row_idx_acc == lives.len()
                        &&& crate::ordering::spec_sorted_result(
                            final(table)@.rows,
                            kcols,
                            lives,
                            crate::ordering::spec_dirs(keys@),
                        )
                        &&& ({
                            let sorted = crate::ordering::spec_sorted_items(
                                crate::ordering::spec_order_items(kcols, lives),
                                crate::ordering::spec_dirs(keys@),
                            );
                            forall|i: int|
                                0 <= i < lives.len() ==> (#[trigger] final(table)@.rows[i])
                                    == (RowSlotV { id: i, cells: Some(sorted[i].row) })
                        })
                    },
                }
            }),
    {
        let ghost t0 = table@;
        let ghost livesv = crate::table::spec_live_rows(t0.rows);
        let lives = table.existed_rows();
        proof {
            assert(crate::table::spec_rows_deep(lives@) =~= livesv);
            crate::transitions::lemma_live_rows_len(t0.rows);
            crate::transitions::lemma_live_rows_sized(t0.rows, t0.col_count());
        }
        let n = lives.len();
        let m = keys.len();
        // compute every key column, checking comparability as we go
        let mut keycols: Vec<Vec<Value>> = Vec::new();
        proof {
            assert(spec_keycols_view(keycols@) =~= Seq::<Seq<ValueV>>::empty());
        }
        let mut j: usize = 0;
        while j < m
            invariant
                j <= m,
                m == keys@.len(),
                n == lives@.len(),
                n == livesv.len(),
                t0 == table@,
                t0.shape_wf(),
                livesv == crate::table::spec_live_rows(t0.rows),
                crate::table::spec_rows_deep(lives@) == livesv,
                forall|r: int| 0 <= r < n ==> (#[trigger] livesv[r]).len() == t0.col_count(),
                keycols@.len() == j,
                forall|j2: int| 0 <= j2 < j ==> (#[trigger] keycols@[j2])@.len() == n,
                forall|j2: int|
                    0 <= j2 < j ==> crate::ordering::spec_key_col_from(
                        t0.columns_info,
                        livesv,
                        (#[trigger] keys@[j2]).0,
                        0,
                        Seq::empty(),
                    ) == Ok::<Seq<ValueV>, crate::error::ErrV>(spec_row_view(keycols@[j2]@)),
                crate::ordering::spec_key_columns(t0.columns_info, livesv, keys@, 0, Seq::empty())
                    == crate::ordering::spec_key_columns(
                    t0.columns_info,
                    livesv,
                    keys@,
                    j as int,
                    spec_keycols_view(keycols@),
                ),
            decreases m - j,
        {
            let ghost kacc = spec_keycols_view(keycols@);
            let mut kc: Vec<Value> = Vec::new();
            proof {
                assert(spec_row_view(kc@) =~= Seq::<ValueV>::empty());
            }
            let mut r: usize = 0;
            while r < n
                invariant
                    r <= n,
                    0 <= j < m,
                    m == keys@.len(),
                    n == lives@.len(),
                    n == livesv.len(),
                    t0 == table@,
                    t0.shape_wf(),
                    livesv == crate::table::spec_live_rows(t0.rows),
                    crate::table::spec_rows_deep(lives@) == livesv,
                    forall|r2: int| 0 <= r2 < n ==> (#[trigger] livesv[r2]).len() == t0.col_count(),
                    kc@.len() == r,
                    kacc == spec_keycols_view(keycols@),
                    keycols@.len() == j,
                    forall|j2: int| 0 <= j2 < j ==> (#[trigger] keycols@[j2])@.len() == n,
                    forall|j2: int|
                        0 <= j2 < j ==> crate::ordering::spec_key_col_from(
                            t0.columns_info,
                            livesv,
                            (#[trigger] keys@[j2]).0,
                            0,
                            Seq::empty(),
                        ) == Ok::<Seq<ValueV>, crate::error::ErrV>(spec_row_view(keycols@[j2]@)),
                    crate::ordering::spec_key_columns(
                        t0.columns_info,
                        livesv,
                        keys@,
                        0,
                        Seq::empty(),
                    ) == crate::ordering::spec_key_columns(
                        t0.columns_info,
                        livesv,
                        keys@,
                        j as int,
                        kacc,
                    ),
                    crate::ordering::spec_key_col_from(
                        t0.columns_info,
                        livesv,
                        keys@[j as int].0,
                        0,
                        Seq::empty(),
                    ) == crate::ordering::spec_key_col_from(
                        t0.columns_info,
                        livesv,
                        keys@[j as int].0,
                        r as int,
                        spec_row_view(kc@),
                    ),
                decreases n - r,
            {
                let ghost kcv = spec_row_view(kc@);
                proof {
                    assert(spec_row_view(lives@[r as int]@) == livesv[r as int]);
                }
                let vres = crate::expr::eval_expr(
                    &table.columns_info,
                    &lives[r],
                    keys[j].0,
                );
                let v = match vres {
                    Ok(v) => v,
                    Err(e) => {
                        return Err(e);
                    },
                };
                if kc.len() > 0 {
                    let cmpres = kc[kc.len() - 1].try_cmp(&v);
                    proof {
                        assert(kcv.last() == kc@[kc@.len() - 1]@);
                    }
                    if cmpres.is_none() {
                        return Err(other_err(
                            String::from_str("invalid value type for order by"),
                        ));
                    }
                }
                kc.push(v);
                proof {
                    assert(spec_row_view(kc@) =~= kcv.push(kc@.last()@));
                }
                r = r + 1;
            }
            keycols.push(kc);
            proof {
                assert(spec_keycols_view(keycols@) =~= kacc.push(
                    spec_row_view(keycols@.last()@),
                ));
                assert(crate::ordering::spec_key_col_from(
                    t0.columns_info,
                    livesv,
                    keys@[j as int].0,
                    n as int,
                    spec_row_view(keycols@.last()@),
                ) == Ok::<Seq<ValueV>, crate::error::ErrV>(spec_row_view(keycols@.last()@)));
            }
            j = j + 1;
        }
        let ghost kcolsv = spec_keycols_view(keycols@);
        proof {
            assert(crate::ordering::spec_key_columns(
                t0.columns_info,
                livesv,
                keys@,
                m as int,
                kcolsv,
            ) == Ok::<Seq<Seq<ValueV>>, crate::error::ErrV>(kcolsv));
            assert(forall|j3: int|
                0 <= j3 < m ==> crate::ordering::spec_key_col_from(
                    t0.columns_info,
                    livesv,
                    (#[trigger] keys@[j3]).0,
                    0,
                    Seq::empty(),
                ) == Ok::<Seq<ValueV>, crate::error::ErrV>(kcolsv[j3]));
        }
        // tag each live row with its key vector and source position
        let mut dirs: Vec<bool> = Vec::new();
        let mut j2: usize = 0;
        while j2 < m
            invariant
                j2 <= m,
                m == keys@.len(),
                dirs@.len() == j2,
                forall|x: int| 0 <= x < j2 ==> dirs@[x] == keys@[x].1,
            decreases m - j2,
        {
            dirs.push(keys[j2].1);
            j2 = j2 + 1;
        }
        proof {
            assert(dirs@ =~= crate::ordering::spec_dirs(keys@));
        }
        let mut items: Vec<crate::ordering::SortItem> = Vec::new();
        let ghost itemsv0 = crate::ordering::spec_order_items(kcolsv, livesv);
        let mut r2: usize = 0;
        while r2 < n
            invariant
                r2 <= n,
                n == lives@.len(),
                n == livesv.len(),
                m == keys@.len(),
                kcolsv == spec_keycols_view(keycols@),
                keycols@.len() == m,
                forall|x: int| 0 <= x < m ==> (#[trigger] keycols@[x])@.len() == n,
                itemsv0 == crate::ordering::spec_order_items(kcolsv, livesv),
                crate::table::spec_rows_deep(lives@) == livesv,
                items@.len() == r2,
                forall|x: int| 0 <= x < r2 ==> (#[trigger] items@[x]@) == itemsv0[x],
            decreases n - r2,
        {
            let mut ks: Vec<Value> = Vec::new();
            let mut x: usize = 0;
            while x < m
                invariant
                    x <= m,
                    0 <= r2 < n,
                    n == lives@.len(),
                    keycols@.len() == m,
                    forall|y: int| 0 <= y < m ==> (#[trigger] keycols@[y])@.len() == n,
                    kcolsv == spec_keycols_view(keycols@),
                    ks@.len() == x,
                    forall|y: int| 0 <= y < x ==> (#[trigger] ks@[y])@ == kcolsv[y][r2 as int],
                decreases m - x,
            {
                let v = keycols[x][r2].duplicate();
                ks.push(v);
                x = x + 1;
            }
            let row = clone_row(&lives[r2]);
            let item = crate::ordering::SortItem { keys: ks, pos: r2, row };
            proof {
                assert(item@ =~= itemsv0[r2 as int]) by {
                    assert(spec_row_view(item.keys@) =~= itemsv0[r2 as int].keys);
                    assert(spec_row_view(item.row@) =~= livesv[r2 as int]);
                }
            }
            items.push(item);
            r2 = r2 + 1;
        }
        proof {
            assert(crate::ordering::spec_items_view(items@) =~= itemsv0);
            // the precheck makes every distinct pair comparable on every key
            assert forall|p: int, q: int|
                0 <= p < items@.len() && 0 <= q < items@.len() implies (
            crate::ordering::spec_item_comp(
                #[trigger] items@[p]@,
                #[trigger] items@[q]@,
                dirs@,
            ) || items@[p]@ == items@[q]@) by {
                if p != q {
                    assert forall|y: int|
                        0 <= y < dirs@.len() implies crate::value::spec_value_cmp(
                        itemsv0[p].keys[y],
                        itemsv0[q].keys[y],
                    ) is Some by {
                        assert(crate::ordering::spec_key_col_from(
                            t0.columns_info,
                            livesv,
                            keys@[y].0,
                            0,
                            Seq::empty(),
                        ) == Ok::<Seq<ValueV>, crate::error::ErrV>(kcolsv[y]));
                        crate::ordering::lemma_key_col_props(
                            t0.columns_info,
                            livesv,
                            keys@[y].0,
                            0,
                            Seq::empty(),
                        );
                        crate::ordering::lemma_adjacent_pairwise(kcolsv[y], p, q);
                    }
                    assert(crate::ordering::spec_item_comp(items@[p]@, items@[q]@, dirs@));
                } else {
                    assert(items@[p]@ == items@[q]@);
                }
            }
            assert(forall|p: int|
                0 <= p < items@.len() ==> (#[trigger] items@[p]@).keys.len() == dirs@.len());
        }
        let sorted = crate::ordering::sort_items(&items, &dirs);
        let ghost sortedv = crate::ordering::spec_items_view(sorted@);
        // rebuild the table: dense ids over the sorted rows
        let mut new_rows: Vec<RowSlot> = Vec::new();
        let mut i2: usize = 0;
        while i2 < n
            invariant
                i2 <= n,
                n == sorted@.len(),
                sortedv == crate::ordering::spec_items_view(sorted@),
                new_rows@.len() == i2,
                forall|x: int|
                    0 <= x < i2 ==> (#[trigger] new_rows@[x])@ == (RowSlotV {
                        id: x,
                        cells: Some(sortedv[x].row),
                    }),
            decreases n - i2,
        {
            let row = clone_row(&sorted[i2].row);
            new_rows.push(RowSlot { id: i2, cells: Some(row) });
            proof {
                assert(new_rows@.last()@ =~= (RowSlotV {
                    id: i2 as int,
                    cells: Some(sortedv[i2 as int].row),
                }));
            }
            i2 = i2 + 1;
        }
        table.rows = new_rows;
        table.row_idx_acc = n;
        proof {
            let ft = table@;
            assert(ft.rows.len() == n);
            assert(forall|x: int|
                0 <= x < n ==> (#[trigger] ft.rows[x]) == (RowSlotV {
                    id: x,
                    cells: Some(sortedv[x].row),
                }));
            assert(crate::ordering::spec_sorted_result(ft.rows, kcolsv, livesv, dirs@)) by {
                assert(sortedv.len() == livesv.len());
            }
            // the sorted arrangement is unique, so it equals the
            // canonical one the contract names
            assert(exists|s: Seq<crate::ordering::SortItemV>|
                s.to_multiset() == itemsv0.to_multiset() && #[trigger] crate::ordering::spec_items_sorted(
                    s,
                    dirs@,
                )) by {
                assert(sortedv.to_multiset() == itemsv0.to_multiset()
                    && crate::ordering::spec_items_sorted(sortedv, dirs@));
            }
            let canon = crate::ordering::spec_sorted_items(itemsv0, dirs@);
            assert(canon.to_multiset() == itemsv0.to_multiset()
                && crate::ordering::spec_items_sorted(canon, dirs@));
            assert forall|x: crate::ordering::SortItemV, y: crate::ordering::SortItemV|
                sortedv.to_multiset().contains(x) && sortedv.to_multiset().contains(y) && x
                    != y implies (#[trigger] crate::ordering::spec_item_lt(x, y, dirs@)
                || #[trigger] crate::ordering::spec_item_lt(y, x, dirs@)) by {
                broadcast use vstd::seq_lib::group_to_multiset_ensures;

                assert(itemsv0.to_multiset().contains(x));
                assert(itemsv0.to_multiset().contains(y));
                assert(itemsv0.contains(x));
                assert(itemsv0.contains(y));
                let p = choose|p: int| 0 <= p < itemsv0.len() && itemsv0[p] == x;
                let q = choose|q: int| 0 <= q < itemsv0.len() && itemsv0[q] == y;
                assert(x.pos == p && y.pos == q);
                assert(crate::ordering::spec_item_comp(itemsv0[p], itemsv0[q], dirs@)
                    || itemsv0[p] == itemsv0[q]);
                crate::ordering::lemma_item_lt_total(x, y, dirs@);
            }
            crate::ordering::lemma_sorted_unique(sortedv, canon, dirs@);
            assert(sortedv == canon);
            // the result is well-shaped: dense ids, full rows, counts
            assert(forall|x: int| 0 <= x < n ==> (#[trigger] ft.rows[x]).cells is Some);
            crate::transitions::lemma_live_count_all_live(ft.rows);
            assert forall|x: int| 0 <= x < n implies ((#[trigger] ft.rows[x]).cells
                matches Some(cells) ==> cells.len() == ft.col_count()) by {
                assert(crate::ordering::spec_all_from(sortedv, itemsv0));
                assert(exists|q: int|
                    0 <= q < itemsv0.len() && (#[trigger] sortedv[x]) == itemsv0[q]);
                let q = choose|q: int|
                    0 <= q < itemsv0.len() && (#[trigger] sortedv[x]) == itemsv0[q];
                assert(itemsv0[q].row == livesv[q]);
            }
            assert(ft.row_num == spec_live_count(ft.rows));
            assert(ft.shape_wf());
        }
        Ok(())
    }
}

/// The models of the key columns.
pub open spec fn spec_keycols_view(s: Seq<Vec<Value>>) -> Seq<Seq<ValueV>> {
    Seq::new(s.len(), |i: int| spec_row_view(s[i]@))
}

} // verus!
