//! Statement execution: one executor per statement kind, plus the
//! batch facade.

use crate::column_info::ColumnInfo;
use crate::column_info::ColumnTypeSpecific;
use crate::column_info::ColumnTypeV;
use crate::column_info::ColumnInfoV;
use crate::column_info::spec_type_of;
use crate::database::Database;
use crate::database::DbEntryV;
use crate::database::spec_db_index;
use crate::error::DBError;
use crate::error::DBResult;
use crate::error::ErrV;
use crate::error::other_err;
use crate::error::unsupported_err;
use crate::interface::SQLExecConfig;
use crate::sql::ColumnOption;
use crate::sql::CreateTableStmt;
use crate::sql::SqlStatement;
use crate::table::TableV;
use vstd::prelude::*;

verus! {

/// The outcome of one statement: the new catalog, a rendered result
/// table if the statement produced one, and its error if it failed.
pub ghost struct StmtOutcome {
    pub db: Seq<DbEntryV>,
    pub output: Option<Seq<char>>,
    pub err: Option<ErrV>,
}

/// The nullable and unique flags a column option list denotes, walked
/// left to right over the options from index `k` on.
pub open spec fn spec_column_flags(
    opts: Seq<ColumnOption>,
    nullable: bool,
    unique: bool,
    k: int,
) -> Result<(bool, bool), ErrV>
    decreases opts.len() - k,
{
    if k < 0 || k >= opts.len() {
        Ok((nullable, unique))
    } else {
        match opts[k] {
            ColumnOption::NotNull => spec_column_flags(opts, false, unique, k + 1),
            ColumnOption::Unique { is_primary } => if is_primary {
                spec_column_flags(opts, false, true, k + 1)
            } else {
                spec_column_flags(opts, nullable, true, k + 1)
            },
            ColumnOption::Other(d) => Err(
                ErrV::OtherError("unsupported column option "@ + d@),
            ),
        }
    }
}

/// The schema a CREATE TABLE's column definitions denote, from index
/// `k` on; repeated column names are rejected.
pub open spec fn spec_columns_of(
    defs: Seq<crate::sql::ColumnDef>,
    k: int,
    acc: Seq<ColumnInfoV>,
) -> Result<Seq<ColumnInfoV>, ErrV>
    decreases defs.len() - k,
{
    if k < 0 || k >= defs.len() {
        Ok(acc)
    } else {
        match spec_type_of(defs[k].data_type) {
            Err(m) => Err(ErrV::UnsupportedOPError(m)),
            Ok(ty) => match spec_column_flags(defs[k].options@, true, false, 0) {
                Err(e) => Err(e),
                Ok(flags) => if exists|i: int| 0 <= i < acc.len() && (#[trigger] acc[i].name)
                    == defs[k].name@ {
                    Err(ErrV::OtherError("duplicate column name "@ + defs[k].name@))
                } else {
                    spec_columns_of(
                        defs,
                        k + 1,
                        acc.push(
                            ColumnInfoV {
                                name: defs[k].name@,
                                nullable: flags.0,
                                unique: flags.1,
                                type_specific: ty,
                            },
                        ),
                    )
                },
            },
        }
    }
}

/// The outcome of a CREATE TABLE statement.
pub open spec fn spec_exec_create(db: Seq<DbEntryV>, ct: CreateTableStmt) -> (
    Seq<DbEntryV>,
    Option<ErrV>,
) {
    if spec_db_index(db, ct.name@) is Some {
        (db, Some(ErrV::OtherError("table name "@ + ct.name@ + " already exists"@)))
    } else {
        match spec_columns_of(ct.columns@, 0, Seq::empty()) {
            Err(e) => (db, Some(e)),
            Ok(cols) => (
                db.push(
                    DbEntryV {
                        name: ct.name@,
                        table: crate::seq_manager::spec_empty_table(cols),
                    },
                ),
                None,
            ),
        }
    }
}

/// The outcome of a DROP statement over its name list from index `k`
/// on: names are dropped left to right until one is missing.
pub open spec fn spec_exec_drop(db: Seq<DbEntryV>, names: Seq<String>, k: int) -> (
    Seq<DbEntryV>,
    Option<ErrV>,
)
    decreases names.len() - k,
{
    if k < 0 || k >= names.len() {
        (db, None)
    } else {
        match spec_db_index(db, names[k]@) {
            None => (
                db,
                Some(ErrV::OtherError("table "@ + names[k]@ + " not found"@)),
            ),
            Some(i) => spec_exec_drop(db.remove(i), names, k + 1),
        }
    }
}

/// The outcome of an INSERT statement.
pub open spec fn spec_exec_insert(db: Seq<DbEntryV>, ins: crate::sql::InsertStmt, parallel: bool) -> (
    Seq<DbEntryV>,
    Option<ErrV>,
) {
    match ins.table {
        crate::sql::TableTarget::Other(_) => (
            db,
            Some(ErrV::UnsupportedOPError("only support TableName"@)),
        ),
        crate::sql::TableTarget::Name(name) => match spec_db_index(db, name@) {
            None => (db, Some(ErrV::OtherError("table not found: "@ + name@))),
            Some(i) => match ins.source {
                None => (db, Some(ErrV::UnsupportedOPError("insert without query"@))),
                Some(body) => match body {
                    crate::sql::InsertBody::Other(_) => (
                        db,
                        Some(ErrV::UnsupportedOPError("only support values"@)),
                    ),
                    crate::sql::InsertBody::Values(rows) => {
                        let step = if parallel {
                            crate::par_manager::spec_par_insert_rows(
                                db[i].table,
                                crate::transitions::spec_exprs_view(rows@),
                                crate::transitions::spec_strs_view(ins.columns@),
                            )
                        } else {
                            crate::transitions::spec_insert_rows(
                                db[i].table,
                                crate::transitions::spec_exprs_view(rows@),
                                crate::transitions::spec_strs_view(ins.columns@),
                                0,
                            )
                        };
                        (db.update(i, DbEntryV { name: db[i].name, table: step.0 }), step.1)
                    },
                },
            },
        },
    }
}

/// The outcome of an UPDATE statement.
pub open spec fn spec_exec_update(db: Seq<DbEntryV>, upd: crate::sql::UpdateStmt) -> (
    Seq<DbEntryV>,
    Option<ErrV>,
) {
    match upd.table {
        crate::sql::TableFactor::Other(_) => (
            db,
            Some(ErrV::UnsupportedOPError("only support table"@)),
        ),
        crate::sql::TableFactor::Table(name) => match spec_db_index(db, name@) {
            None => (db, Some(ErrV::OtherError("table not found: "@ + name@))),
            Some(i) => {
                let step = crate::transitions::spec_update_from(
                    db[i].table,
                    upd.assignments@,
                    upd.selection,
                    0,
                );
                (db.update(i, DbEntryV { name: db[i].name, table: step.0 }), step.1)
            },
        },
    }
}

/// The outcome of a DELETE statement over its table list from index
/// `k` on.
pub open spec fn spec_exec_delete(
    db: Seq<DbEntryV>,
    tables: Seq<crate::sql::TableFactor>,
    sel: Option<crate::sql::Expr>,
    k: int,
) -> (Seq<DbEntryV>, Option<ErrV>)
    decreases tables.len() - k,
{
    if k < 0 || k >= tables.len() {
        (db, None)
    } else {
        match tables[k] {
            crate::sql::TableFactor::Other(_) => (
                db,
                Some(ErrV::UnsupportedOPError("only support table"@)),
            ),
            crate::sql::TableFactor::Table(name) => match spec_db_index(db, name@) {
                None => (db, Some(ErrV::OtherError("table not found: "@ + name@))),
                Some(i) => {
                    let step = crate::transitions::spec_delete_from(db[i].table, sel, 0);
                    let db2 = db.update(i, DbEntryV { name: db[i].name, table: step.0 });
                    match step.1 {
                        Some(e) => (db2, Some(e)),
                        None => spec_exec_delete(db2, tables, sel, k + 1),
                    }
                },
            },
        }
    }
}

/// The engine: a catalog plus the configuration that drives execution.
pub struct SQLExecutor {
    /// The catalog the statements run against.
    pub database: Database,
    /// The configuration the executor was opened with.
    pub config: SQLExecConfig,
}

impl SQLExecutor {
    /// The engine invariant: the catalog is well-formed.
    pub open spec fn wf(self) -> bool {
        self.database.wf()
    }

    /// Opens an engine over an existing catalog.
    pub fn from_database(config: SQLExecConfig, database: Database) -> (r: Self)
        ensures
            r.database@ == database@,
            r.config == config,
            database.wf() ==> r.wf(),
    {
        SQLExecutor { database, config }
    }

    /// Executes a CREATE TABLE statement.
    fn execute_create_table(&mut self, create_table: &CreateTableStmt) -> (res: DBResult<()>)
        requires
            old(self).wf(),
        ensures
            final(self).wf(),
            final(self).config == old(self).config,
            ({
                let step = spec_exec_create(old(self).database@, *create_table);
                final(self).database@ =~= step.0 && (match step.1 {
                    None => res matches Ok(()),
                    Some(er) => res matches Err(e2) && e2@ =~= seq![er],
                })
            }),
    {
        let ghost db0 = self.database@;
        match self.database.table_index(create_table.name.as_str()) {
            Some(_) => {
                let mut msg = String::from_str("table name ");
                msg.append(create_table.name.as_str());
                msg.append(" already exists");
                return Err(other_err(msg));
            },
            None => {},
        }
        let defs = &create_table.columns;
        let n = defs.len();
        let mut column_info: Vec<ColumnInfo> = Vec::new();
        proof {
            assert(crate::table::spec_cols_view(column_info@) =~= Seq::<ColumnInfoV>::empty());
        }
        let mut k: usize = 0;
        while k < n
            invariant
                k <= n,
                n == defs@.len(),
                defs@ == create_table.columns@,
                db0 == old(self).database@,
                self.database@ == db0,
                self.config == old(self).config,
                old(self).wf(),
                column_info@.len() == k,
                spec_db_index(db0, create_table.name@) is None,
                spec_columns_of(defs@, 0, Seq::empty()) == spec_columns_of(
                    defs@,
                    k as int,
                    crate::table::spec_cols_view(column_info@),
                ),
            decreases n - k,
        {
            let ghost acc = crate::table::spec_cols_view(column_info@);
            let type_specific = match ColumnTypeSpecific::from_column_def(&defs[k]) {
                Ok(t) => t,
                Err(e) => {
                    proof {
                        assert(defs@ == create_table.columns@);
                        assert(spec_type_of(defs@[k as int].data_type) is Err);
                        assert(spec_columns_of(defs@, k as int, acc) is Err);
                        assert(spec_exec_create(db0, *create_table).0 == db0);
                        assert(spec_exec_create(db0, *create_table).1 is Some);
                        assert(spec_exec_create(old(self).database@, *create_table).1 is Some);
                        assert(self.database@ =~= spec_exec_create(
                            old(self).database@,
                            *create_table,
                        ).0);
                    }
                    return Err(e);
                },
            };
            let opts = &defs[k].options;
            let m = opts.len();
            let mut nullable = true;
            let mut unique = false;
            let mut x: usize = 0;
            while x < m
                invariant
                    x <= m,
                    m == opts@.len(),
                    0 <= k < n,
                    n == defs@.len(),
                    defs@ == create_table.columns@,
                    opts@ == defs@[k as int].options@,
                    db0 == old(self).database@,
                    self.database@ == db0,
                    self.config == old(self).config,
                    old(self).wf(),
                    spec_db_index(db0, create_table.name@) is None,
                    acc == crate::table::spec_cols_view(column_info@),
                    spec_columns_of(defs@, 0, Seq::empty()) == spec_columns_of(
                        defs@,
                        k as int,
                        acc,
                    ),
                    (spec_type_of(defs@[k as int].data_type) is Ok),
                    spec_column_flags(opts@, true, false, 0) == spec_column_flags(
                        opts@,
                        nullable,
                        unique,
                        x as int,
                    ),
                decreases m - x,
            {
                match &opts[x] {
                    ColumnOption::NotNull => {
                        nullable = false;
                    },
                    ColumnOption::Unique { is_primary } => {
                        if *is_primary {
                            unique = true;
                            nullable = false;
                        } else {
                            unique = true;
                        }
                    },
                    ColumnOption::Other(d) => {
                        proof {
                        assert(defs@ == create_table.columns@);
                            assert(spec_column_flags(opts@, nullable, unique, x as int) is Err);
                            assert(spec_column_flags(opts@, true, false, 0) is Err);
                            assert(spec_columns_of(defs@, k as int, acc) is Err);
                            assert(spec_exec_create(db0, *create_table).0 == db0);
                            assert(spec_exec_create(db0, *create_table).1 is Some);
                        }
                        let mut msg = String::from_str("unsupported column option ");
                        msg.append(d.as_str());
                        return Err(other_err(msg));
                    },
                }
                x = x + 1;
            }
            match crate::expr::find_column(&column_info, defs[k].name.as_str()) {
                Some(_) => {
                    proof {
                        crate::table::lemma_col_index_in_range(acc, defs@[k as int].name@);
                        assert(defs@ == create_table.columns@);
                        assert(exists|i: int|
                            0 <= i < acc.len() && (#[trigger] acc[i].name)
                                == defs@[k as int].name@);
                        assert(spec_columns_of(defs@, k as int, acc) is Err);
                        assert(spec_exec_create(db0, *create_table).0 == db0);
                        assert(spec_exec_create(db0, *create_table).1 is Some);
                    }
                    let mut msg = String::from_str("duplicate column name ");
                    msg.append(defs[k].name.as_str());
                    return Err(other_err(msg));
                },
                None => {
                    proof {
                        crate::table::lemma_col_index_in_range(acc, defs@[k as int].name@);
                        assert(!(exists|i: int|
                            0 <= i < acc.len() && (#[trigger] acc[i].name)
                                == defs@[k as int].name@));
                    }
                },
            }
            let name = defs[k].name.clone();
            column_info.push(ColumnInfo { name, nullable, unique, type_specific });
            proof {
                assert(crate::table::spec_cols_view(column_info@) =~= acc.push(
                    column_info@.last()@,
                ));
            }
            k = k + 1;
        }
        let ghost colsv = crate::table::spec_cols_view(column_info@);
        proof {
            assert(spec_columns_of(defs@, n as int, colsv) == Ok::<Seq<ColumnInfoV>, ErrV>(colsv));
            lemma_columns_of_names_unique(defs@, 0, Seq::empty());
            assert forall|i: int, j: int|
                0 <= i < j < column_info@.len() implies (#[trigger] column_info@[i]@.name) != (
            #[trigger] column_info@[j]@.name) by {
                assert(colsv[i] == column_info@[i]@);
                assert(colsv[j] == column_info@[j]@);
                assert(colsv[i].name != colsv[j].name);
            }
        }
        let name = create_table.name.clone();
        self.database.create_table(name, column_info);
        proof {
            assert(final(self).database@ =~= spec_exec_create(db0, *create_table).0);
        }
        Ok(())
    }

    /// Executes a DROP statement.
    fn execute_drop_table(&mut self, drop_stmt: &crate::sql::DropStmt) -> (res: DBResult<()>)
        requires
            old(self).wf(),
        ensures
            final(self).wf(),
            final(self).config == old(self).config,
            ({
                match drop_stmt.object_type {
                    crate::sql::ObjectType::Other(_) => {
                        &&& final(self).database@ == old(self).database@
                        &&& res matches Err(e2)
                        &&& (res matches Err(e2) ==> e2@ =~= seq![
                            ErrV::OtherError("only table drop is supported"@),
                        ])
                    },
                    crate::sql::ObjectType::Table => ({
                        let step = spec_exec_drop(old(self).database@, drop_stmt.names@, 0);
                        final(self).database@ =~= step.0 && (match step.1 {
                            None => res matches Ok(()),
                            Some(er) => res matches Err(e2) && e2@ =~= seq![er],
                        })
                    }),
                }
            }),
    {
        let ghost db0 = self.database@;
        match &drop_stmt.object_type {
            crate::sql::ObjectType::Other(_) => {
                return Err(other_err(String::from_str("only table drop is supported")));
            },
            crate::sql::ObjectType::Table => {},
        }
        let n = drop_stmt.names.len();
        let mut k: usize = 0;
        while k < n
            invariant
                k <= n,
                n == drop_stmt.names@.len(),
                db0 == old(self).database@,
                self.config == old(self).config,
                self.database.wf(),
                drop_stmt.object_type is Table,
                spec_exec_drop(db0, drop_stmt.names@, 0) == spec_exec_drop(
                    self.database@,
                    drop_stmt.names@,
                    k as int,
                ),
            decreases n - k,
        {
            let res = self.database.drop_table(drop_stmt.names[k].as_str());
            match res {
                Ok(()) => {},
                Err(e) => {
                    return Err(e);
                },
            }
            k = k + 1;
        }
        Ok(())
    }
}

/// A successfully built schema has pairwise distinct column names.
pub proof fn lemma_columns_of_names_unique(
    defs: Seq<crate::sql::ColumnDef>,
    k: int,
    acc: Seq<ColumnInfoV>,
)
    requires
        0 <= k <= defs.len(),
        (spec_columns_of(defs, 0, Seq::empty()) matches Ok(cols) && spec_columns_of(defs, k, acc)
            == Ok::<Seq<ColumnInfoV>, ErrV>(cols)),
        forall|i: int, j: int|
            0 <= i < j < acc.len() ==> (#[trigger] acc[i].name) != (#[trigger] acc[j].name),
    ensures
        ({
            let cols = spec_columns_of(defs, 0, Seq::empty())->Ok_0;
            forall|i: int, j: int|
                0 <= i < j < cols.len() ==> (#[trigger] cols[i].name) != (#[trigger] cols[j].name)
        }),
    decreases defs.len() - k,
{
    if k < defs.len() {
        let ty = spec_type_of(defs[k].data_type);
        if ty is Ok {
            let flags = spec_column_flags(defs[k].options@, true, false, 0);
            if flags is Ok {
                if !(exists|i: int|
                    0 <= i < acc.len() && (#[trigger] acc[i].name) == defs[k].name@) {
                    let acc2 = acc.push(
                        ColumnInfoV {
                            name: defs[k].name@,
                            nullable: flags->Ok_0.0,
                            unique: flags->Ok_0.1,
                            type_specific: ty->Ok_0,
                        },
                    );
                    assert forall|i: int, j: int|
                        0 <= i < j < acc2.len() implies (#[trigger] acc2[i].name) != (
                    #[trigger] acc2[j].name) by {
                        if j < acc.len() {
                            assert(acc2[i] == acc[i] && acc2[j] == acc[j]);
                        } else {
                            assert(acc2[i] == acc[i]);
                            if acc[i].name == defs[k].name@ {
                                assert(exists|i2: int|
                                    0 <= i2 < acc.len() && (#[trigger] acc[i2].name)
                                        == defs[k].name@);
                            }
                        }
                    }
                    lemma_columns_of_names_unique(defs, k + 1, acc2);
                }
            }
        }
    }
}

/// Replacing one table by a well-formed one keeps the catalog
/// well-formed.
pub proof fn lemma_db_update_wf(db: Seq<DbEntryV>, i: int, t2: TableV)
    requires
        crate::database::spec_db_wf(db),
        0 <= i < db.len(),
        t2.wf(),
    ensures
        crate::database::spec_db_wf(db.update(i, DbEntryV { name: db[i].name, table: t2 })),
{
    let db2 = db.update(i, DbEntryV { name: db[i].name, table: t2 });
    assert forall|p: int, q: int| 0 <= p < q < db2.len() implies (#[trigger] db2[p].name) != (
    #[trigger] db2[q].name) by {
        assert(db2[p].name == db[p].name);
        assert(db2[q].name == db[q].name);
    }
    assert forall|p: int| 0 <= p < db2.len() implies (#[trigger] db2[p].table).wf() by {
        if p != i {
            assert(db2[p] == db[p]);
        }
    }
}

/// Copies a vector of strings.
pub fn clone_strings(s: &Vec<String>) -> (r: Vec<String>)
    ensures
        crate::transitions::spec_strs_view(r@) =~= crate::transitions::spec_strs_view(s@),
        r@.len() == s@.len(),
{
    let mut out: Vec<String> = Vec::new();
    let n = s.len();
    let mut i: usize = 0;
    while i < n
        invariant
            i <= n,
            n == s@.len(),
            out@.len() == i,
            forall|j: int| 0 <= j < i ==> (#[trigger] out@[j])@ == s@[j]@,
        decreases n - i,
    {
        out.push(s[i].clone());
        i = i + 1;
    }
    out
}

impl SQLExecutor {
    /// Executes an INSERT statement.
    fn execute_insert(&mut self, insert: &crate::sql::InsertStmt) -> (res: DBResult<()>)
        requires
            old(self).wf(),
        ensures
            final(self).wf(),
            final(self).config == old(self).config,
            ({
                let step = spec_exec_insert(
                    old(self).database@,
                    *insert,
                    old(self).config.parallel,
                );
                final(self).database@ =~= step.0 && (match step.1 {
                    None => res matches Ok(()),
                    Some(er) => res matches Err(e2) && e2@ =~= seq![er],
                })
            }),
    {
        let ghost db0 = self.database@;
        let name = match &insert.table {
            crate::sql::TableTarget::Other(_) => {
                return Err(unsupported_err(String::from_str("only support TableName")));
            },
            crate::sql::TableTarget::Name(name) => name,
        };
        let parallel = self.config.parallel;
        let idx_opt = self.database.table_index(name.as_str());
        if idx_opt.is_none() {
            let mut msg = String::from_str("table not found: ");
            msg.append(name.as_str());
            return Err(other_err(msg));
        }
        let rows = match &insert.source {
            None => {
                return Err(unsupported_err(String::from_str("insert without query")));
            },
            Some(body) => match body {
                crate::sql::InsertBody::Other(_) => {
                    return Err(unsupported_err(String::from_str("only support values")));
                },
                crate::sql::InsertBody::Values(rows) => rows,
            },
        };
        let columns_indicator = clone_strings(&insert.columns);
        let topt = self.database.get_table_mut(name.as_str());
        match topt {
            None => {
                proof {
                    assert(false);
                }
                Err(other_err(String::new()))
            },
            Some(t) => {
                let ghost i = spec_db_index(db0, name@)->Some_0;
                proof {
                    crate::database::lemma_db_index(db0, name@);
                    assert(db0[i].table.wf());
                }
                let r = if parallel {
                    crate::par_manager::ParallelTableManager.insert_rows(
                        t,
                        rows,
                        columns_indicator,
                    )
                } else {
                    crate::seq_manager::SequentialTableManager.insert_rows(
                        t,
                        rows,
                        columns_indicator,
                    )
                };
                proof {
                    lemma_db_update_wf(db0, i, final(t)@);
                }
                r
            },
        }
    }

    /// Executes an UPDATE statement.
    fn execute_update(&mut self, upd: &crate::sql::UpdateStmt) -> (res: DBResult<()>)
        requires
            old(self).wf(),
        ensures
            final(self).wf(),
            final(self).config == old(self).config,
            ({
                let step = spec_exec_update(old(self).database@, *upd);
                final(self).database@ =~= step.0 && (match step.1 {
                    None => res matches Ok(()),
                    Some(er) => res matches Err(e2) && e2@ =~= seq![er],
                })
            }),
    {
        let ghost db0 = self.database@;
        let name = match &upd.table {
            crate::sql::TableFactor::Other(_) => {
                return Err(unsupported_err(String::from_str("only support table")));
            },
            crate::sql::TableFactor::Table(name) => name,
        };
        let topt = self.database.get_table_mut(name.as_str());
        match topt {
            None => {
                let mut msg = String::from_str("table not found: ");
                msg.append(name.as_str());
                Err(other_err(msg))
            },
            Some(t) => {
                let ghost i = spec_db_index(db0, name@)->Some_0;
                proof {
                    crate::database::lemma_db_index(db0, name@);
                    assert(db0[i].table.wf());
                }
                let r = crate::seq_manager::SequentialTableManager.update_rows(
                    t,
                    &upd.assignments,
                    &upd.selection,
                );
                proof {
                    lemma_db_update_wf(db0, i, final(t)@);
                }
                r
            },
        }
    }

    /// Executes a DELETE statement.
    fn execute_delete(&mut self, del: &crate::sql::DeleteStmt) -> (res: DBResult<()>)
        requires
            old(self).wf(),
        ensures
            final(self).wf(),
            final(self).config == old(self).config,
            ({
                let step = spec_exec_delete(old(self).database@, del.from@, del.selection, 0);
                final(self).database@ =~= step.0 && (match step.1 {
                    None => res matches Ok(()),
                    Some(er) => res matches Err(e2) && e2@ =~= seq![er],
                })
            }),
    {
        let ghost db0 = self.database@;
        let n = del.from.len();
        let mut k: usize = 0;
        while k < n
            invariant
                k <= n,
                n == del.from@.len(),
                db0 == old(self).database@,
                self.config == old(self).config,
                self.database.wf(),
                spec_exec_delete(db0, del.from@, del.selection, 0) == spec_exec_delete(
                    self.database@,
                    del.from@,
                    del.selection,
                    k as int,
                ),
            decreases n - k,
        {
            let ghost dbc = self.database@;
            let name = match &del.from[k] {
                crate::sql::TableFactor::Other(_) => {
                    return Err(unsupported_err(String::from_str("only support table")));
                },
                crate::sql::TableFactor::Table(name) => name,
            };
            let topt = self.database.get_table_mut(name.as_str());
            match topt {
                None => {
                    let mut msg = String::from_str("table not found: ");
                    msg.append(name.as_str());
                    return Err(other_err(msg));
                },
                Some(t) => {
                    let ghost i = spec_db_index(dbc, name@)->Some_0;
                    proof {
                        crate::database::lemma_db_index(dbc, name@);
                        assert(dbc[i].table.wf());
                    }
                    let r = crate::seq_manager::SequentialTableManager.delete_rows(
                        t,
                        &del.selection,
                    );
                    proof {
                        lemma_db_update_wf(dbc, i, final(t)@);
                    }
                    match r {
                        Ok(()) => {},
                        Err(e) => {
                            return Err(e);
                        },
                    }
                },
            }
            k = k + 1;
        }
        Ok(())
    }
}

/// The zero-column one-row source used when a SELECT has no FROM.
pub open spec fn spec_dummy_table() -> TableV {
    TableV {
        rows: seq![crate::table::RowSlotV { id: 0, cells: Some(Seq::empty()) }],
        row_idx_acc: 1,
        row_num: 1,
        columns_values: Seq::empty(),
        columns_info: Seq::empty(),
    }
}

/// The projection columns for a `*` over a source schema.
pub open spec fn spec_wildcard_funcs<'a>(n: int) -> Seq<crate::transitions::CalcFunc<'a>> {
    Seq::new(n as nat, |i: int| crate::transitions::CalcFunc::ColumnRef(i as usize))
}

/// The schema and the per-column computations a SELECT projection
/// denotes, from item `k` on.
pub open spec fn spec_projection_of<'a>(
    srccols: Seq<ColumnInfoV>,
    items: Seq<crate::sql::SelectItem>,
    k: int,
    cols: Seq<ColumnInfoV>,
    funcs: Seq<crate::transitions::CalcFunc<'a>>,
) -> Result<(Seq<ColumnInfoV>, Seq<crate::transitions::CalcFunc<'a>>), ErrV>
    decreases items.len() - k,
{
    if k < 0 || k >= items.len() {
        Ok((cols, funcs))
    } else {
        match items[k] {
            crate::sql::SelectItem::Wildcard => spec_projection_of(
                srccols,
                items,
                k + 1,
                cols + srccols,
                funcs + spec_wildcard_funcs(srccols.len() as int),
            ),
            crate::sql::SelectItem::UnnamedExpr { name, expr } => spec_projection_of(
                srccols,
                items,
                k + 1,
                cols.push(
                    ColumnInfoV {
                        name: name@,
                        nullable: true,
                        unique: false,
                        type_specific: ColumnTypeV::Any,
                    },
                ),
                funcs.push(crate::transitions::CalcFunc::Calc(&expr)),
            ),
            crate::sql::SelectItem::Other(d) => Err(
                ErrV::UnsupportedOPError("Not support select item "@ + d@),
            ),
        }
    }
}

/// The source table of a SELECT: the dummy for an empty FROM, else the
/// single named table.
pub open spec fn spec_query_source(db: Seq<DbEntryV>, from: Seq<crate::sql::TableFactor>) -> Result<
    TableV,
    ErrV,
> {
    if from.len() == 0 {
        Ok(spec_dummy_table())
    } else if from.len() == 1 {
        match from[0] {
            crate::sql::TableFactor::Other(_) => Err(
                ErrV::UnsupportedOPError("only support table in relation"@),
            ),
            crate::sql::TableFactor::Table(name) => match spec_db_index(db, name@) {
                None => Err(ErrV::OtherError("table not found: "@ + name@)),
                Some(i) => Ok(db[i].table),
            },
        }
    } else {
        Err(ErrV::UnsupportedOPError("only support zero or one table"@))
    }
}

/// The ORDER BY keys of an expression list: each expression with its
/// direction, ascending when unstated.
pub open spec fn spec_order_keys<'a>(list: Seq<&'a crate::sql::OrderByExpr>) -> Seq<(
    &'a crate::sql::Expr,
    bool,
)> {
    Seq::new(
        list.len(),
        |j: int|
            (
                &list[j].expr,
                match list[j].asc {
                    Some(b) => b,
                    None => true,
                },
            ),
    )
}

/// The result table after applying an optional ORDER BY.
pub open spec fn spec_apply_order(
    t: TableV,
    ob: Option<crate::sql::OrderByKind>,
) -> Result<TableV, ErrV> {
    match ob {
        None => Ok(t),
        Some(kind) => match kind {
            crate::sql::OrderByKind::Other(_) => Err(
                ErrV::UnsupportedOPError("only support order by expressions"@),
            ),
            crate::sql::OrderByKind::Expressions(list) => {
                let keys = spec_order_keys(Seq::new(list@.len(), |j: int| &list@[j]));
                let lives = crate::table::spec_live_rows(t.rows);
                match crate::ordering::spec_key_columns(
                    t.columns_info,
                    lives,
                    keys,
                    0,
                    Seq::empty(),
                ) {
                    Err(e) => Err(e),
                    Ok(kcols) => {
                        let sorted = crate::ordering::spec_sorted_items(
                            crate::ordering::spec_order_items(kcols, lives),
                            crate::ordering::spec_dirs(keys),
                        );
                        Ok(
                            TableV {
                                rows: Seq::new(
                                    lives.len(),
                                    |i: int|
                                        crate::table::RowSlotV {
                                            id: i,
                                            cells: Some(sorted[i].row),
                                        },
                                ),
                                row_idx_acc: lives.len() as int,
                                row_num: t.row_num,
                                columns_values: t.columns_values,
                                columns_info: t.columns_info,
                            },
                        )
                    },
                }
            },
        },
    }
}

/// The outcome of a SELECT query: a rendered result when it has rows,
/// and no catalog change.
pub open spec fn spec_exec_query(db: Seq<DbEntryV>, q: crate::sql::QueryStmt) -> (
    Option<Seq<char>>,
    Option<ErrV>,
) {
    match q.body {
        crate::sql::QueryBody::Other(_) => (
            None,
            Some(ErrV::UnsupportedOPError("only support select"@)),
        ),
        crate::sql::QueryBody::Select(sel) => match spec_query_source(db, sel.from@) {
            Err(e) => (None, Some(e)),
            Ok(src) => match spec_projection_of(
                src.columns_info,
                sel.projection@,
                0,
                Seq::empty(),
                Seq::empty(),
            ) {
                Err(e) => (None, Some(e)),
                Ok(pf) => match crate::transitions::spec_project_from(
                    src,
                    pf.1,
                    sel.selection,
                    0,
                    crate::seq_manager::spec_empty_table(pf.0),
                ) {
                    Err(e) => (None, Some(e)),
                    Ok(t1) => match spec_apply_order(t1, q.order_by) {
                        Err(e) => (None, Some(e)),
                        Ok(t2) => (
                            if t2.row_num > 0 {
                                Some(crate::render::spec_render_table(t2))
                            } else {
                                None
                            },
                            None,
                        ),
                    },
                },
            },
        },
    }
}

impl SQLExecutor {
    /// Executes a SELECT query; the catalog is not changed. Returns the
    /// rendered result table when it has at least one row.
    fn execute_query(&self, query: &crate::sql::QueryStmt) -> (res: DBResult<Option<String>>)
        requires
            self.wf(),
        ensures
            ({
                let step = spec_exec_query(self.database@, *query);
                match step.1 {
                    Some(er) => res matches Err(e2) && e2@ =~= seq![er],
                    None => res matches Ok(o) && (match step.0 {
                        Some(s) => o matches Some(x) && x@ == s,
                        None => o matches None,
                    }),
                }
            }),
    {
        let ghost db0 = self.database@;
        let sel = match &query.body {
            crate::sql::QueryBody::Other(_) => {
                return Err(unsupported_err(String::from_str("only support select")));
            },
            crate::sql::QueryBody::Select(sel) => sel,
        };
        let dummy_holder;
        let src: &crate::table::Table = if sel.from.len() == 0 {
            dummy_holder = crate::table::Table::get_dummy();
            proof {
                assert(dummy_holder@ =~~= spec_dummy_table());
            }
            &dummy_holder
        } else if sel.from.len() == 1 {
            match &sel.from[0] {
                crate::sql::TableFactor::Other(_) => {
                    return Err(
                        unsupported_err(String::from_str("only support table in relation")),
                    );
                },
                crate::sql::TableFactor::Table(name) => {
                    match self.database.get_table(name.as_str()) {
                        None => {
                            let mut msg = String::from_str("table not found: ");
                            msg.append(name.as_str());
                            return Err(other_err(msg));
                        },
                        Some(t) => {
                            proof {
                                crate::database::lemma_db_index(db0, name@);
                            }
                            t
                        },
                    }
                },
            }
        } else {
            return Err(unsupported_err(String::from_str("only support zero or one table")));
        };
        let ghost srcv = src@;
        proof {
            assert(spec_query_source(db0, sel.from@) == Ok::<TableV, ErrV>(srcv));
            assert(srcv.rows_sized());
        }
        // build the projection schema and computations
        let n = sel.projection.len();
        let mut columns_info: Vec<ColumnInfo> = Vec::new();
        let mut calc_funcs: Vec<crate::transitions::CalcFunc> = Vec::new();
        proof {
            assert(crate::table::spec_cols_view(columns_info@) =~= Seq::<ColumnInfoV>::empty());
            assert(calc_funcs@ =~= Seq::<crate::transitions::CalcFunc>::empty());
        }
        let mut k: usize = 0;
        while k < n
            invariant
                k <= n,
                n == sel.projection@.len(),
                srcv == src@,
                srcv.rows_sized(),
                db0 == self.database@,
                (query.body == crate::sql::QueryBody::Select(*sel)),
                spec_query_source(db0, sel.from@) == Ok::<TableV, ErrV>(srcv),
                columns_info@.len() == calc_funcs@.len(),
                spec_projection_of(
                    srcv.columns_info,
                    sel.projection@,
                    0,
                    Seq::empty(),
                    Seq::empty(),
                ) == spec_projection_of(
                    srcv.columns_info,
                    sel.projection@,
                    k as int,
                    crate::table::spec_cols_view(columns_info@),
                    calc_funcs@,
                ),
            decreases n - k,
        {
            let ghost cacc = crate::table::spec_cols_view(columns_info@);
            let ghost facc = calc_funcs@;
            match &sel.projection[k] {
                crate::sql::SelectItem::Wildcard => {
                    let w = src.columns_info.len();
                    let mut x: usize = 0;
                    while x < w
                        invariant
                            x <= w,
                            w == srcv.columns_info.len(),
                            srcv == src@,
                            columns_info@.len() == cacc.len() + x,
                            calc_funcs@.len() == facc.len() + x,
                            crate::table::spec_cols_view(columns_info@) =~= cacc
                                + srcv.columns_info.take(x as int),
                            calc_funcs@ =~= facc + spec_wildcard_funcs(x as int),
                        decreases w - x,
                    {
                        let ci = src.columns_info[x].duplicate();
                        columns_info.push(ci);
                        calc_funcs.push(crate::transitions::CalcFunc::ColumnRef(x));
                        proof {
                            assert(columns_info@.last()@ == srcv.columns_info[x as int]);
                            assert(srcv.columns_info.take(x as int + 1) =~= srcv.columns_info.take(
                                x as int,
                            ).push(srcv.columns_info[x as int]));
                            assert(crate::table::spec_cols_view(columns_info@)
                                =~= crate::table::spec_cols_view(columns_info@.drop_last()).push(
                                columns_info@.last()@,
                            ));
                            assert(crate::table::spec_cols_view(columns_info@.drop_last()) =~= cacc
                                + srcv.columns_info.take(x as int));
                            assert(crate::table::spec_cols_view(columns_info@) =~= cacc
                                + srcv.columns_info.take(x as int + 1));
                            assert(calc_funcs@ =~= facc + spec_wildcard_funcs(x as int + 1));
                        }
                        x = x + 1;
                    }
                    proof {
                        assert(srcv.columns_info.take(w as int) =~= srcv.columns_info);
                        assert(crate::table::spec_cols_view(columns_info@) =~= cacc
                            + srcv.columns_info);
                        assert(calc_funcs@ =~= facc + spec_wildcard_funcs(
                            srcv.columns_info.len() as int,
                        ));
                    }
                },
                crate::sql::SelectItem::UnnamedExpr { name, expr } => {
                    let cname = name.clone();
                    columns_info.push(
                        ColumnInfo {
                            name: cname,
                            nullable: true,
                            unique: false,
                            type_specific: ColumnTypeSpecific::Any,
                        },
                    );
                    calc_funcs.push(crate::transitions::CalcFunc::Calc(expr));
                    proof {
                        assert(crate::table::spec_cols_view(columns_info@) =~= cacc.push(
                            columns_info@.last()@,
                        ));
                    }
                },
                crate::sql::SelectItem::Other(d) => {
                    proof {
                        assert(spec_projection_of(
                            srcv.columns_info,
                            sel.projection@,
                            k as int,
                            cacc,
                            facc,
                        ) is Err);
                        assert(spec_exec_query(db0, *query).1 is Some);
                    }
                    let mut msg = String::from_str("Not support select item ");
                    msg.append(d.as_str());
                    return Err(unsupported_err(msg));
                },
            }
            k = k + 1;
        }
        let ghost projv = spec_projection_of(
            srcv.columns_info,
            sel.projection@,
            0,
            Seq::empty(),
            Seq::empty(),
        )->Ok_0;
        proof {
            assert(projv.0 == crate::table::spec_cols_view(columns_info@));
            assert(projv.1 == calc_funcs@);
        }
        // project
        let projres = if self.config.parallel {
            crate::par_manager::ParallelTableManager.construct_table_from_calc_func(
                src,
                columns_info,
                &calc_funcs,
                &sel.selection,
            )
        } else {
            crate::seq_manager::SequentialTableManager.construct_table_from_calc_func(
                src,
                columns_info,
                &calc_funcs,
                &sel.selection,
            )
        };
        let mut result_table = match projres {
            Ok(t) => t,
            Err(e) => {
                return Err(e);
            },
        };
        let ghost t1v = result_table@;
        // order by
        match &query.order_by {
            None => {},
            Some(kind) => match kind {
                crate::sql::OrderByKind::Other(_) => {
                    return Err(
                        unsupported_err(String::from_str("only support order by expressions")),
                    );
                },
                crate::sql::OrderByKind::Expressions(list) => {
                    let m = list.len();
                    let mut keys: Vec<(&crate::sql::Expr, bool)> = Vec::new();
                    let ghost keysv = spec_order_keys(
                        Seq::new(list@.len(), |j: int| &list@[j]),
                    );
                    let mut j: usize = 0;
                    while j < m
                        invariant
                            j <= m,
                            m == list@.len(),
                            keysv == spec_order_keys(Seq::new(list@.len(), |j2: int| &list@[j2])),
                            keysv.len() == m,
                            keys@.len() == j,
                            forall|x: int| 0 <= x < j ==> keys@[x] == keysv[x],
                        decreases m - j,
                    {
                        let asc = match &list[j].asc {
                            Some(b) => *b,
                            None => true,
                        };
                        keys.push((&list[j].expr, asc));
                        j = j + 1;
                    }
                    proof {
                        assert(keys@ =~= keysv);
                    }
                    let r = if self.config.parallel {
                        crate::par_manager::ParallelTableManager.convert_order_by(
                            &mut result_table,
                            &keys,
                        )
                    } else {
                        crate::seq_manager::SequentialTableManager.convert_order_by(
                            &mut result_table,
                            &keys,
                        )
                    };
                    match r {
                        Ok(()) => {
                            proof {
                                let t2 = spec_apply_order(t1v, query.order_by)->Ok_0;
                                assert(result_table@.rows =~= t2.rows);
                                assert(result_table@ =~= t2);
                            }
                        },
                        Err(e) => {
                            return Err(e);
                        },
                    }
                },
            },
        }
        // output when the result has rows
        if result_table.get_row_num() > 0 {
            let s = result_table.render();
            Ok(Some(s))
        } else {
            Ok(None)
        }
    }
}

/// The outcome of one statement.
pub open spec fn spec_exec_statement(
    db: Seq<DbEntryV>,
    stmt: SqlStatement,
    parallel: bool,
) -> StmtOutcome {
    match stmt {
        SqlStatement::CreateTable(ct) => {
            let s = spec_exec_create(db, ct);
            StmtOutcome { db: s.0, output: None, err: s.1 }
        },
        SqlStatement::Drop(d) => match d.object_type {
            crate::sql::ObjectType::Other(_) => StmtOutcome {
                db,
                output: None,
                err: Some(ErrV::OtherError("only table drop is supported"@)),
            },
            crate::sql::ObjectType::Table => {
                let s = spec_exec_drop(db, d.names@, 0);
                StmtOutcome { db: s.0, output: None, err: s.1 }
            },
        },
        SqlStatement::Insert(ins) => {
            let s = spec_exec_insert(db, ins, parallel);
            StmtOutcome { db: s.0, output: None, err: s.1 }
        },
        SqlStatement::Query(q) => {
            let s = spec_exec_query(db, q);
            StmtOutcome { db, output: s.0, err: s.1 }
        },
        SqlStatement::Update(u) => {
            let s = spec_exec_update(db, u);
            StmtOutcome { db: s.0, output: None, err: s.1 }
        },
        SqlStatement::Delete(d) => {
            let s = spec_exec_delete(db, d.from@, d.selection, 0);
            StmtOutcome { db: s.0, output: None, err: s.1 }
        },
        SqlStatement::Other(d) => StmtOutcome {
            db,
            output: None,
            err: Some(ErrV::UnsupportedOPError("statement "@ + d@)),
        },
    }
}

/// The running state of a batch: the catalog, how many result tables
/// were emitted, the output text, and the errors so far.
#[verifier::ext_equal]
pub ghost struct BatchV {
    pub db: Seq<DbEntryV>,
    pub count: int,
    pub out: Seq<char>,
    pub errs: Seq<ErrV>,
}

/// The batch state after running the statements from index `k` on:
/// result tables are separated by blank lines, and errors accumulate
/// while later statements still run.
pub open spec fn spec_exec_batch(
    st: BatchV,
    stmts: Seq<SqlStatement>,
    k: int,
    parallel: bool,
) -> BatchV
    decreases stmts.len() - k,
{
    if k < 0 || k >= stmts.len() {
        st
    } else {
        let o = spec_exec_statement(st.db, stmts[k], parallel);
        let out2 = match o.output {
            None => st.out,
            Some(s) => st.out + (if st.count > 0 {
                "
"@
            } else {
                Seq::empty()
            }) + s,
        };
        let count2 = st.count + (if o.output is Some {
            1int
        } else {
            0int
        });
        let errs2 = st.errs + (match o.err {
            None => Seq::<ErrV>::empty(),
            Some(e) => seq![e],
        });
        spec_exec_batch(BatchV { db: o.db, count: count2, out: out2, errs: errs2 }, stmts, k + 1, parallel)
    }
}

impl SQLExecutor {
    /// Executes one statement, appending any result table to the
    /// output buffer, preceded by a blank line when output was already
    /// emitted.
    pub fn execute_statement(
        &mut self,
        statement: &SqlStatement,
        output_buffer: &mut String,
        output_count: &mut usize,
    ) -> (res: DBResult<()>)
        requires
            old(self).wf(),
            *old(output_count) < usize::MAX,
        ensures
            final(self).wf(),
            final(self).config == old(self).config,
            ({
                let o = spec_exec_statement(
                    old(self).database@,
                    *statement,
                    old(self).config.parallel,
                );
                &&& final(self).database@ =~= o.db
                &&& (match o.err {
                    None => res matches Ok(()),
                    Some(er) => res matches Err(e2) && e2@ =~= seq![er],
                })
                &&& (match o.output {
                    None => final(output_buffer)@ == old(output_buffer)@ && *final(output_count)
                        == *old(output_count),
                    Some(s) => final(output_buffer)@ == old(output_buffer)@ + (if *old(
                        output_count,
                    ) > 0 {
                        "
"@
                    } else {
                        Seq::<char>::empty()
                    }) + s && *final(output_count) == *old(output_count) + 1,
                })
            }),
    {
        match statement {
            SqlStatement::CreateTable(ct) => self.execute_create_table(ct),
            SqlStatement::Drop(d) => self.execute_drop_table(d),
            SqlStatement::Insert(ins) => self.execute_insert(ins),
            SqlStatement::Query(q) => {
                let r = self.execute_query(q);
                match r {
                    Err(e) => Err(e),
                    Ok(None) => Ok(()),
                    Ok(Some(s)) => {
                        if *output_count > 0 {
                            output_buffer.append("
");
                        }
                        output_buffer.append(s.as_str());
                        *output_count = *output_count + 1;
                        Ok(())
                    },
                }
            },
            SqlStatement::Update(u) => self.execute_update(u),
            SqlStatement::Delete(d) => self.execute_delete(d),
            SqlStatement::Other(d) => {
                let mut msg = String::from_str("statement ");
                msg.append(d.as_str());
                Err(unsupported_err(msg))
            },
        }
    }

    /// Executes a batch of statements: errors accumulate while later
    /// statements still run; with no result table, a fixed notice is
    /// the output; on any error the combined errors are returned.
    pub fn execute_statements(&mut self, statements: &Vec<SqlStatement>) -> (res: DBResult<String>)
        requires
            old(self).wf(),
        ensures
            final(self).wf(),
            final(self).config == old(self).config,
            ({
                let st = spec_exec_batch(
                    BatchV {
                        db: old(self).database@,
                        count: 0,
                        out: Seq::empty(),
                        errs: Seq::empty(),
                    },
                    statements@,
                    0,
                    old(self).config.parallel,
                );
                &&& final(self).database@ =~= st.db
                &&& (if st.errs.len() == 0 {
                    res matches Ok(s) && s@ == (if st.count == 0 {
                        st.out + "There are no results to be displayed.
"@
                    } else {
                        st.out
                    })
                } else {
                    res matches Err(e2) && e2@ =~= st.errs
                })
            }),
    {
        let ghost db0 = self.database@;
        let ghost init = BatchV { db: db0, count: 0, out: Seq::empty(), errs: Seq::empty() };
        let mut output_buffer = String::new();
        let mut output_count: usize = 0;
        let mut err_acc = DBError { errors: Vec::new() };
        let n = statements.len();
        let mut k: usize = 0;
        proof {
            assert(init.out =~= output_buffer@);
            assert(init.errs =~= err_acc@);
        }
        while k < n
            invariant
                k <= n,
                n == statements@.len(),
                init == (BatchV { db: db0, count: 0, out: Seq::empty(), errs: Seq::empty() }),
                db0 == old(self).database@,
                self.config == old(self).config,
                self.wf(),
                output_count <= k,
                spec_exec_batch(init, statements@, 0, old(self).config.parallel)
                    == spec_exec_batch(
                    BatchV {
                        db: self.database@,
                        count: output_count as int,
                        out: output_buffer@,
                        errs: err_acc@,
                    },
                    statements@,
                    k as int,
                    old(self).config.parallel,
                ),
            decreases n - k,
        {
            let ghost pre = BatchV {
                db: self.database@,
                count: output_count as int,
                out: output_buffer@,
                errs: err_acc@,
            };
            let r = self.execute_statement(&statements[k], &mut output_buffer, &mut output_count);
            match r {
                Ok(()) => {},
                Err(e) => {
                    err_acc.join(e);
                },
            }
            proof {
                let post = BatchV {
                    db: self.database@,
                    count: output_count as int,
                    out: output_buffer@,
                    errs: err_acc@,
                };
                let o = spec_exec_statement(
                    pre.db,
                    statements@[k as int],
                    old(self).config.parallel,
                );
                assert(post.db =~= o.db);
                assert(post.out =~= (match o.output {
                    None => pre.out,
                    Some(s) => pre.out + (if pre.count > 0 {
                        "
"@
                    } else {
                        Seq::<char>::empty()
                    }) + s,
                }));
                assert(post.errs =~= pre.errs + (match o.err {
                    None => Seq::<ErrV>::empty(),
                    Some(e) => seq![e],
                }));
                assert(spec_exec_batch(pre, statements@, k as int, old(self).config.parallel)
                    == spec_exec_batch(post, statements@, k as int + 1, old(self).config.parallel));
            }
            k = k + 1;
        }
        if output_count == 0 {
            output_buffer.append("There are no results to be displayed.\n");
        }
        if err_acc.errors.len() == 0 {
            proof {
                assert(err_acc@ =~= Seq::<ErrV>::empty());
            }
            Ok(output_buffer)
        } else {
            Err(err_acc)
        }
    }
}

/// Decides whether every part of the catalog fits the encoding's size
/// fields.
fn check_enc_sizes(db: &Database) -> (r: bool)
    ensures
        r == crate::codec::spec_db_enc_ok(db@),
{
    let n = db.tables.len();
    if n > 0xffff_ffff {
        return false;
    }
    let mut i: usize = 0;
    while i < n
        invariant
            i <= n,
            n == db@.len(),
            n <= 0xffff_ffff,
            forall|x: int| 0 <= x < i ==> (#[trigger] db@[x].name).len() <= 0xffff_ffff,
            forall|x: int| 0 <= x < i ==> crate::codec::spec_table_enc_ok((#[trigger] db@[x]).table),
        decreases n - i,
    {
        proof {
            assert(db@[i as int] == db.tables@[i as int]@);
        }
        if db.tables[i].name.as_str().unicode_len() > 0xffff_ffff {
            proof {
                assert(db@[i as int].name.len() > 0xffff_ffff);
            }
            return false;
        }
        let t = &db.tables[i].table;
        let nc = t.columns_info.len();
        let nr = t.rows.len();
        if nc > 0xffff_ffff || nr > 0xffff_ffff {
            proof {
                assert(!crate::codec::spec_table_enc_ok(t@));
                assert(db@[i as int].table == t@);
            }
            return false;
        }
        let mut c: usize = 0;
        while c < nc
            invariant
                c <= nc,
                nc == t@.columns_info.len(),
                0 <= i < n,
                n == db@.len(),
                t@ == db@[i as int].table,
                forall|x: int|
                    0 <= x < c ==> (#[trigger] t@.columns_info[x].name).len() <= 0xffff_ffff,
            decreases nc - c,
        {
            proof {
                assert(t@.columns_info[c as int] == t.columns_info@[c as int]@);
            }
            if t.columns_info[c].name.as_str().unicode_len() > 0xffff_ffff {
                proof {
                    assert(t@.columns_info[c as int].name.len() > 0xffff_ffff);
                    assert(!crate::codec::spec_table_enc_ok(t@));
                }
                return false;
            }
            c = c + 1;
        }
        let mut x: usize = 0;
        while x < nr
            invariant
                x <= nr,
                nr == t@.rows.len(),
                0 <= i < n,
                n == db@.len(),
                t@ == db@[i as int].table,
                forall|y: int|
                    0 <= y < x ==> ((#[trigger] t@.rows[y].cells) matches Some(row) ==> row.len()
                        <= 0xffff_ffff && (forall|c2: int|
                        0 <= c2 < row.len() ==> crate::codec::spec_value_enc_ok(
                            #[trigger] row[c2],
                        ))),
            decreases nr - x,
        {
            proof {
                assert(t@.rows[x as int] == t.rows@[x as int]@);
            }
            match &t.rows[x].cells {
                None => {},
                Some(row) => {
                    let ghost rowv = crate::table::spec_row_view(row@);
                    proof {
                        assert(t@.rows[x as int].cells == Some(rowv));
                    }
                    let w = row.len();
                    if w > 0xffff_ffff {
                        proof {
                            assert(rowv.len() > 0xffff_ffff);
                            assert(!crate::codec::spec_table_enc_ok(t@));
                        }
                        return false;
                    }
                    let mut c2: usize = 0;
                    while c2 < w
                        invariant
                            c2 <= w,
                            w == row@.len(),
                            w <= 0xffff_ffff,
                            0 <= i < n,
                            0 <= x < nr,
                            nr == t@.rows.len(),
                            n == db@.len(),
                            t@ == db@[i as int].table,
                            rowv == crate::table::spec_row_view(row@),
                            t@.rows[x as int].cells == Some(rowv),
                            forall|y: int|
                                0 <= y < c2 ==> crate::codec::spec_value_enc_ok(
                                    (#[trigger] row@[y])@,
                                ),
                        decreases w - c2,
                    {
                        match &row[c2].0 {
                            Some(crate::value::ValueNotNull::Varchar(s2)) => {
                                if s2.as_str().unicode_len() > 0xffff_ffff {
                                    proof {
                                        assert(rowv[c2 as int] == row@[c2 as int]@);
                                        assert(!crate::codec::spec_value_enc_ok(
                                            rowv[c2 as int],
                                        ));
                                        assert(!(forall|c3: int|
                                            0 <= c3 < rowv.len()
                                                ==> crate::codec::spec_value_enc_ok(
                                                #[trigger] rowv[c3],
                                            )));
                                        assert(!crate::codec::spec_table_enc_ok(t@));
                                    }
                                    return false;
                                }
                            },
                            _ => {},
                        }
                        c2 = c2 + 1;
                    }
                    proof {
                        assert forall|c3: int|
                            0 <= c3 < rowv.len() implies crate::codec::spec_value_enc_ok(
                            #[trigger] rowv[c3],
                        ) by {
                            assert(rowv[c3] == row@[c3]@);
                        }
                    }
                },
            }
            x = x + 1;
        }
        i = i + 1;
    }
    true
}

impl SQLExecutor {
    /// Opens an engine: with a storage file and no reinitialization,
    /// the stored catalog is decoded; a missing file yields an empty
    /// catalog; a corrupt one is a fatal error.
    pub fn build_from_config(config: SQLExecConfig, stored: Option<Vec<u8>>) -> (res: DBResult<
        SQLExecutor,
    >)
        ensures
            ({
                let fresh = config.reinit || config.storage_path is None || stored is None;
                match res {
                    Ok(e) => {
                        &&& e.wf()
                        &&& e.config == config
                        &&& (if fresh {
                            e.database@ =~= Seq::<DbEntryV>::empty()
                        } else {
                            crate::codec::spec_dec_db(stored->Some_0@) matches Some(dbv)
                                && e.database@ == dbv
                        })
                    },
                    Err(e2) => !fresh && crate::codec::spec_dec_db(stored->Some_0@) is None
                        && e2@ =~= seq![ErrV::OtherError("Failed to decode data"@)],
                }
            }),
    {
        if config.reinit || config.storage_path.is_none() {
            return Ok(SQLExecutor { database: Database::new(), config });
        }
        match stored {
            None => Ok(SQLExecutor { database: Database::new(), config }),
            Some(bytes) => {
                match crate::codec::decode_database(&bytes) {
                    Some(db) => Ok(SQLExecutor { database: db, config }),
                    None => Err(other_err(String::from_str("Failed to decode data"))),
                }
            },
        }
    }

    /// The encoded catalog, for the caller that persists it: the exact
    /// encoding whenever the catalog fits the encoding's size fields,
    /// and `None` exactly when some part outgrows them.
    pub fn encoded_database(&self) -> (r: Option<Vec<u8>>)
        ensures
            (r matches Some(bytes) ==> bytes@ == crate::codec::spec_enc_db(self.database@)),
            (r is Some <==> crate::codec::spec_db_enc_ok(self.database@)),
    {
        if check_enc_sizes(&self.database) {
            Some(crate::codec::encode_database(&self.database))
        } else {
            None
        }
    }
}

} // verus!
