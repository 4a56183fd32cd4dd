//! The engine's stated laws, each proved from the contracts in this
//! crate.

use crate::database::DbEntryV;
use crate::table::TableV;
use crate::table::spec_live_col_has;
use crate::table::spec_live_count;
use crate::table::spec_no_dup;
use crate::table::spec_set_has;
use crate::value::ValueV;
use crate::executor::BatchV;
use crate::executor::spec_exec_query;
use crate::executor::spec_exec_batch;
use crate::executor::spec_exec_statement;
use crate::sql::SqlStatement;
use vstd::prelude::*;

verus! {

/// In a well-formed table, a unique column's live non-null values have
/// no duplicates and are exactly its uniqueness set: no two live rows
/// share a value there, and the set indexes precisely those values.
pub proof fn lemma_unique_columns(t: TableV, c: int)
    requires
        t.wf(),
        0 <= c < t.col_count(),
        t.columns_info[c].unique,
    ensures
        spec_no_dup(t.columns_values[c]),
        forall|v: ValueV|
            v != ValueV::Null ==> (#[trigger] spec_set_has(t.columns_values[c], v)
                <==> spec_live_col_has(t.rows, c, v)),
        t.no_live_dup(c),
{
    assert(t.unique_set_correct(c));
}

/// In a well-formed table, no live row is null in a non-nullable
/// column.
pub proof fn lemma_non_nullable(t: TableV, i: int, c: int)
    requires
        t.wf(),
        0 <= i < t.rows.len(),
        0 <= c < t.col_count(),
        !t.columns_info[c].nullable,
        t.rows[i].cells is Some,
    ensures
        t.rows[i].cells->Some_0[c] != ValueV::Null,
{
}

/// In a well-formed table, the row count equals the number of live
/// slots, and the id allocator exceeds every stored row id.
pub proof fn lemma_counters(t: TableV)
    requires
        t.wf(),
    ensures
        t.row_num == spec_live_count(t.rows),
        forall|i: int| 0 <= i < t.rows.len() ==> (#[trigger] t.rows[i]).id < t.row_idx_acc,
{
}

/// The persistence round trip: decoding an encoded catalog gives the
/// same catalog with each table's uniqueness sets rebuilt from its live
/// rows, and encoding any byte string that decodes gives that byte
/// string back.
pub proof fn lemma_persistence_round_trip(db: Seq<DbEntryV>, bytes: Seq<u8>)
    requires
        crate::database::spec_db_wf(db),
        crate::codec::spec_db_enc_ok(db),
        crate::codec::spec_dec_db(bytes) is Some,
    ensures
        ({
            let rebuilt = Seq::new(
                db.len(),
                |i: int|
                    DbEntryV {
                        name: db[i].name,
                        table: TableV {
                            columns_values: crate::codec::spec_rebuild_sets(
                                db[i].table.columns_info,
                                db[i].table.rows,
                            ),
                            ..db[i].table
                        },
                    },
            );
            crate::codec::spec_dec_db(crate::codec::spec_enc_db(db)) == Some(rebuilt)
                && crate::database::spec_db_wf(rebuilt)
        }),
        crate::codec::spec_enc_db(crate::codec::spec_dec_db(bytes)->Some_0) =~= bytes,
{
    crate::codec::lemma_db_round_trip(db);
    crate::codec::lemma_db_canon(bytes);
}

/// The sequential and the parallel manager give every statement the
/// same outcome, as long as a parallel INSERT's bulk id reservation
/// does not overrun the id space: the same output, the same error, and
/// on success the same catalog.
pub proof fn lemma_managers_agree(db: Seq<DbEntryV>, stmt: SqlStatement)
    requires
        (stmt matches SqlStatement::Insert(ins) ==> (ins.source matches Some(body)
            ==> (body matches crate::sql::InsertBody::Values(rows)
            ==> (crate::database::spec_db_index(db, (match ins.table {
            crate::sql::TableTarget::Name(n) => n@,
            crate::sql::TableTarget::Other(_) => Seq::empty(),
        })) matches Some(i) ==> db[i].table.row_idx_acc + rows@.len() <= usize::MAX)))),
    ensures
        ({
            let s = spec_exec_statement(db, stmt, false);
            let p = spec_exec_statement(db, stmt, true);
            &&& p.err == s.err
            &&& p.output == s.output
            &&& (s.err is None ==> p.db == s.db)
        }),
{
    match stmt {
        SqlStatement::Insert(ins) => {
            match ins.table {
                crate::sql::TableTarget::Other(_) => {},
                crate::sql::TableTarget::Name(name) => {
                    crate::database::lemma_db_index(db, name@);
                    match crate::database::spec_db_index(db, name@) {
                        None => {},
                        Some(i) => {
                            match ins.source {
                                None => {},
                                Some(body) => match body {
                                    crate::sql::InsertBody::Other(_) => {},
                                    crate::sql::InsertBody::Values(rows) => {
                                        crate::par_manager::lemma_insert_rows_agree(
                                            db[i].table,
                                            crate::transitions::spec_exprs_view(rows@),
                                            crate::transitions::spec_strs_view(ins.columns@),
                                        );
                                    },
                                },
                            }
                        },
                    }
                },
            }
        },
        _ => {},
    }
}

/// Whether a statement is an INSERT whose bulk reservation would fit
/// and whose rows all commit, against the given catalog.
pub open spec fn spec_insert_clean(db: Seq<DbEntryV>, stmt: SqlStatement) -> bool {
    stmt matches SqlStatement::Insert(ins) ==> {
        &&& (ins.source matches Some(body) ==> (body matches crate::sql::InsertBody::Values(rows)
            ==> (crate::database::spec_db_index(db, (match ins.table {
            crate::sql::TableTarget::Name(n) => n@,
            crate::sql::TableTarget::Other(_) => Seq::empty(),
        })) matches Some(i) ==> db[i].table.row_idx_acc + rows@.len() <= usize::MAX)))
        &&& spec_exec_statement(db, stmt, false).err is None
    }
}

/// Whether every INSERT of the batch from index `k` on runs cleanly
/// along the sequential execution.
pub open spec fn spec_batch_inserts_clean(db: Seq<DbEntryV>, stmts: Seq<SqlStatement>, k: int) -> bool
    decreases stmts.len() - k,
{
    if k < 0 || k >= stmts.len() {
        true
    } else {
        &&& spec_insert_clean(db, stmts[k])
        &&& spec_batch_inserts_clean(
            spec_exec_statement(db, stmts[k], false).db,
            stmts,
            k + 1,
        )
    }
}

/// Whole batches: as long as every INSERT commits all of its rows, the
/// sequential and the parallel manager produce the same catalog, the
/// same output and the same errors.
pub proof fn lemma_batches_agree(st: BatchV, stmts: Seq<SqlStatement>, k: int)
    requires
        0 <= k <= stmts.len(),
        spec_batch_inserts_clean(st.db, stmts, k),
    ensures
        spec_exec_batch(st, stmts, k, true) == spec_exec_batch(st, stmts, k, false),
    decreases stmts.len() - k,
{
    if k < stmts.len() {
        lemma_managers_agree(st.db, stmts[k]);
        let s = spec_exec_statement(st.db, stmts[k], false);
        let p = spec_exec_statement(st.db, stmts[k], true);
        assert(p.db == s.db) by {
            if stmts[k] matches SqlStatement::Insert(ins) {
                assert(s.err is None);
            } else {
                assert(p == s);
            }
        }
        let out2 = match s.output {
            None => st.out,
            Some(o) => st.out + (if st.count > 0 {
                "
"@
            } else {
                Seq::empty()
            }) + o,
        };
        let count2 = st.count + (if s.output is Some {
            1int
        } else {
            0int
        });
        let errs2 = st.errs + (match s.err {
            None => Seq::<crate::error::ErrV>::empty(),
            Some(e) => seq![e],
        });
        let st2 = BatchV { db: s.db, count: count2, out: out2, errs: errs2 };
        lemma_batches_agree(st2, stmts, k + 1);
    }
}

/// The rebuilt uniqueness sets hold exactly the same values as the
/// originals: rebuilding loses only their physical order.
pub proof fn lemma_rebuilt_sets_same_members(t: TableV, c: int, v: ValueV)
    requires
        t.wf(),
        0 <= c < t.col_count(),
        t.columns_info[c].unique,
        v != ValueV::Null,
    ensures
        spec_set_has(crate::codec::spec_rebuild_sets(t.columns_info, t.rows)[c], v)
            <==> spec_set_has(t.columns_values[c], v),
{
    crate::codec::lemma_rebuild_col_props(t.rows, c);
    assert(t.unique_set_correct(c));
}

/// A fresh handle over the persisted catalog sees the same content the
/// original handle holds: decoding what write-back stored gives a
/// well-formed catalog with the same table names, schemas, row slots
/// (ids and tombstones included) and counters, whose uniqueness sets
/// hold exactly the same values; only the sets' physical order is
/// rebuilt from the live rows.
pub proof fn lemma_reloaded_catalog(db: Seq<DbEntryV>)
    requires
        crate::database::spec_db_wf(db),
        crate::codec::spec_db_enc_ok(db),
    ensures
        ({
            let reloaded = crate::codec::spec_dec_db(crate::codec::spec_enc_db(db));
            &&& reloaded is Some
            &&& crate::database::spec_db_wf(reloaded->Some_0)
            &&& reloaded->Some_0.len() == db.len()
            &&& forall|i: int|
                0 <= i < db.len() ==> {
                    let a = #[trigger] db[i];
                    let b = reloaded->Some_0[i];
                    &&& b.name == a.name
                    &&& b.table.rows == a.table.rows
                    &&& b.table.columns_info == a.table.columns_info
                    &&& b.table.row_idx_acc == a.table.row_idx_acc
                    &&& b.table.row_num == a.table.row_num
                }
            &&& forall|i: int, c: int, v: ValueV|
                0 <= i < db.len() && 0 <= c < (#[trigger] db[i]).table.col_count()
                    && db[i].table.columns_info[c].unique && v != ValueV::Null ==> (
                #[trigger] spec_set_has(reloaded->Some_0[i].table.columns_values[c], v)
                    <==> spec_set_has(db[i].table.columns_values[c], v))
        }),
{
    crate::codec::lemma_db_round_trip(db);
    let reloaded = crate::codec::spec_dec_db(crate::codec::spec_enc_db(db))->Some_0;
    assert forall|i: int, c: int, v: ValueV|
        0 <= i < db.len() && 0 <= c < (#[trigger] db[i]).table.col_count()
            && db[i].table.columns_info[c].unique && v != ValueV::Null implies (
    #[trigger] spec_set_has(reloaded[i].table.columns_values[c], v) <==> spec_set_has(
        db[i].table.columns_values[c],
        v,
    )) by {
        assert(db[i].table.wf());
        lemma_rebuilt_sets_same_members(db[i].table, c, v);
        assert(reloaded[i].table.columns_values == crate::codec::spec_rebuild_sets(
            db[i].table.columns_info,
            db[i].table.rows,
        ));
    }
}

/// Whether two tables agree on everything a query can read: slots,
/// schema and counters; the uniqueness sets are left free.
pub open spec fn spec_tables_agree_core(a: TableV, b: TableV) -> bool {
    &&& a.rows == b.rows
    &&& a.columns_info == b.columns_info
    &&& a.row_idx_acc == b.row_idx_acc
    &&& a.row_num == b.row_num
}

/// Whether two catalogs agree on names and on everything a query can
/// read.
pub open spec fn spec_dbs_agree_core(a: Seq<DbEntryV>, b: Seq<DbEntryV>) -> bool {
    &&& a.len() == b.len()
    &&& forall|i: int|
        0 <= i < a.len() ==> (#[trigger] a[i]).name == b[i].name && spec_tables_agree_core(
            a[i].table,
            b[i].table,
        )
}

/// Name lookup sees only the names.
proof fn lemma_db_index_core(a: Seq<DbEntryV>, b: Seq<DbEntryV>, name: Seq<char>)
    requires
        spec_dbs_agree_core(a, b),
    ensures
        crate::database::spec_db_index(a, name) == crate::database::spec_db_index(b, name),
    decreases a.len(),
{
    if a.len() != 0 {
        assert(a[0].name == b[0].name);
        assert(spec_dbs_agree_core(a.drop_first(), b.drop_first())) by {
            assert forall|i: int|
                0 <= i < a.drop_first().len() implies (#[trigger] a.drop_first()[i]).name
                == b.drop_first()[i].name && spec_tables_agree_core(
                a.drop_first()[i].table,
                b.drop_first()[i].table,
            ) by {
                assert(a.drop_first()[i] == a[i + 1]);
                assert(b.drop_first()[i] == b[i + 1]);
            }
        }
        lemma_db_index_core(a.drop_first(), b.drop_first(), name);
    }
}

/// A projection reads only the slots and the schema of its source.
proof fn lemma_project_core(
    a: TableV,
    b: TableV,
    funcs: Seq<crate::transitions::CalcFunc>,
    cond: Option<crate::sql::Expr>,
    i: int,
    acc: TableV,
)
    requires
        spec_tables_agree_core(a, b),
    ensures
        crate::transitions::spec_project_from(a, funcs, cond, i, acc)
            == crate::transitions::spec_project_from(b, funcs, cond, i, acc),
    decreases a.rows.len() - i,
{
    if 0 <= i < a.rows.len() {
        match a.rows[i].cells {
            None => {
                lemma_project_core(a, b, funcs, cond, i + 1, acc);
            },
            Some(row) => {
                match crate::expr::spec_row_satisfies(a.columns_info, row, cond) {
                    Err(e) => {},
                    Ok(sel) => {
                        if sel {
                            match crate::transitions::spec_calc_row(a.columns_info, row, funcs) {
                                Err(e) => {},
                                Ok(newrow) => {
                                    if acc.row_idx_acc < usize::MAX {
                                        lemma_project_core(
                                            a,
                                            b,
                                            funcs,
                                            cond,
                                            i + 1,
                                            crate::transitions::spec_append_row(acc, newrow),
                                        );
                                    }
                                },
                            }
                        } else {
                            lemma_project_core(a, b, funcs, cond, i + 1, acc);
                        }
                    },
                }
            },
        }
    }
}

/// A SELECT reads only names, slots and schemas: two catalogs that
/// agree on those answer every query with the same output and the same
/// error, whatever their uniqueness sets hold. With
/// `lemma_reloaded_catalog`, a fresh handle over the persisted catalog
/// answers every query exactly as the original handle would.
pub proof fn lemma_query_ignores_sets(
    a: Seq<DbEntryV>,
    b: Seq<DbEntryV>,
    q: crate::sql::QueryStmt,
)
    requires
        spec_dbs_agree_core(a, b),
    ensures
        spec_exec_query(a, q) == spec_exec_query(b, q),
{
    match q.body {
        crate::sql::QueryBody::Other(_) => {},
        crate::sql::QueryBody::Select(sel) => {
            if sel.from@.len() == 1 {
                match sel.from@[0] {
                    crate::sql::TableFactor::Other(_) => {},
                    crate::sql::TableFactor::Table(name) => {
                        lemma_db_index_core(a, b, name@);
                        crate::database::lemma_db_index(a, name@);
                        crate::database::lemma_db_index(b, name@);
                    },
                }
            }
            match crate::executor::spec_query_source(a, sel.from@) {
                Err(_) => {},
                Ok(srca) => {
                    let srcb = crate::executor::spec_query_source(b, sel.from@)->Ok_0;
                    assert(spec_tables_agree_core(srca, srcb));
                    match crate::executor::spec_projection_of(
                        srca.columns_info,
                        sel.projection@,
                        0,
                        Seq::empty(),
                        Seq::empty(),
                    ) {
                        Err(_) => {},
                        Ok(pf) => {
                            lemma_project_core(
                                srca,
                                srcb,
                                pf.1,
                                sel.selection,
                                0,
                                crate::seq_manager::spec_empty_table(pf.0),
                            );
                        },
                    }
                },
            }
        },
    }
}

} // verus!
