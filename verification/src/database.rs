//! The catalog: a mapping from table names to tables.

use crate::column_info::ColumnInfo;
use crate::error::DBResult;
use crate::error::ErrV;
use crate::error::other_err;
use crate::table::Table;
use crate::table::TableV;
use crate::value::str_eq;
use vstd::prelude::*;

verus! {

/// One named table of the catalog.
pub struct DbEntry {
    pub name: String,
    pub table: Table,
}

/// Mathematical model of a catalog entry.
#[verifier::ext_equal]
pub ghost struct DbEntryV {
    pub name: Seq<char>,
    pub table: TableV,
}

impl View for DbEntry {
    type V = DbEntryV;

    open spec fn view(&self) -> DbEntryV {
        DbEntryV { name: self.name@, table: self.table@ }
    }
}

/// The model of the catalog: the entries in insertion order.
pub open spec fn spec_db_view(s: Seq<DbEntry>) -> Seq<DbEntryV> {
    Seq::new(s.len(), |i: int| s[i]@)
}

/// The first entry named `name`, if any.
pub open spec fn spec_db_index(dbv: Seq<DbEntryV>, name: Seq<char>) -> Option<int>
    decreases dbv.len(),
{
    if dbv.len() == 0 {
        None
    } else if dbv[0].name == name {
        Some(0int)
    } else {
        match spec_db_index(dbv.drop_first(), name) {
            Some(i) => Some(i + 1),
            None => None,
        }
    }
}

/// A found index lies in range and bears the name; a miss means no
/// entry bears it.
pub proof fn lemma_db_index(dbv: Seq<DbEntryV>, name: Seq<char>)
    ensures
        match spec_db_index(dbv, name) {
            Some(i) => 0 <= i < dbv.len() && dbv[i].name == name,
            None => forall|i: int| 0 <= i < dbv.len() ==> (#[trigger] dbv[i].name) != name,
        },
    decreases dbv.len(),
{
    if dbv.len() != 0 {
        lemma_db_index(dbv.drop_first(), name);
        match spec_db_index(dbv, name) {
            Some(i) => {
                if i > 0 {
                    assert(dbv.drop_first()[i - 1] == dbv[i]);
                }
            },
            None => {
                assert forall|i: int| 0 <= i < dbv.len() implies (#[trigger] dbv[i].name) != name
                by {
                    if i > 0 {
                        assert(dbv.drop_first()[i - 1] == dbv[i]);
                    }
                }
            },
        }
    }
}

/// A database: tables addressed by their unique names.
pub struct Database {
    /// The tables, each under its name.
    pub tables: Vec<DbEntry>,
}

impl View for Database {
    type V = Seq<DbEntryV>;

    open spec fn view(&self) -> Seq<DbEntryV> {
        spec_db_view(self.tables@)
    }
}

/// The catalog invariant: unique table names, each table well-formed.
pub open spec fn spec_db_wf(dbv: Seq<DbEntryV>) -> bool {
    &&& forall|i: int, j: int|
        0 <= i < j < dbv.len() ==> (#[trigger] dbv[i].name) != (#[trigger] dbv[j].name)
    &&& forall|i: int| 0 <= i < dbv.len() ==> (#[trigger] dbv[i].table).wf()
}

impl Database {
    /// The catalog invariant.
    pub open spec fn wf(self) -> bool {
        spec_db_wf(self@)
    }

    /// Builds an empty catalog.
    pub fn new() -> (r: Self)
        ensures
            r@ =~= Seq::<DbEntryV>::empty(),
            r.wf(),
    {
        Database { tables: Vec::new() }
    }

    /// The index of the table named `table_name`, if any.
    pub fn table_index(&self, table_name: &str) -> (r: Option<usize>)
        ensures
            match spec_db_index(self@, table_name@) {
                Some(i) => r matches Some(x) && x as int == i && i < self@.len(),
                None => r matches None,
            },
    {
        proof {
            lemma_db_index(self@, table_name@);
            assert(self@.skip(0) =~= self@);
        }
        let n = self.tables.len();
        let mut i: usize = 0;
        while i < n
            invariant
                i <= n,
                n == self@.len(),
                spec_db_index(self@, table_name@) == match spec_db_index(
                    self@.skip(i as int),
                    table_name@,
                ) {
                    Some(k) => Some(k + i),
                    None => None::<int>,
                },
            decreases n - i,
        {
            let ghost rest = self@.skip(i as int);
            if str_eq(self.tables[i].name.as_str(), table_name) {
                proof {
                    assert(rest[0] == self@[i as int]);
                }
                return Some(i);
            }
            proof {
                assert(rest[0] == self@[i as int]);
                assert(rest.drop_first() =~= self@.skip(i as int + 1));
            }
            i = i + 1;
        }
        proof {
            assert(self@.skip(n as int) =~= Seq::<DbEntryV>::empty());
        }
        None
    }

    /// Adds a new empty table under a name not yet in use.
    pub fn create_table(&mut self, table_name: String, column_info: Vec<ColumnInfo>)
        requires
            spec_db_index(old(self)@, table_name@) is None,
        ensures
            final(self)@.len() == old(self)@.len() + 1,
            final(self)@ =~= old(self)@.push(
                DbEntryV {
                    name: table_name@,
                    table: crate::seq_manager::spec_empty_table(
                        crate::table::spec_cols_view(column_info@),
                    ),
                },
            ),
            old(self).wf() && crate::table::spec_cols_view(column_info@) =~= (
            crate::seq_manager::spec_empty_table(
                crate::table::spec_cols_view(column_info@),
            ).columns_info) && (forall|i: int, j: int|
                0 <= i < j < column_info@.len() ==> (#[trigger] column_info@[i]@.name) != (
                #[trigger] column_info@[j]@.name)) ==> final(self).wf(),
    {
        let ghost colsv = crate::table::spec_cols_view(column_info@);
        let table = Table::new(column_info);
        proof {
            assert(table@ =~~= crate::seq_manager::spec_empty_table(colsv));
        }
        self.tables.push(DbEntry { name: table_name, table });
        proof {
            let f = self@;
            let o = old(self)@;
            assert(f =~= o.push(f.last()));
            if old(self).wf() && (forall|i: int, j: int|
                0 <= i < j < colsv.len() ==> (#[trigger] colsv[i].name) != (
                #[trigger] colsv[j].name)) {
                lemma_db_index(o, f.last().name);
                assert(f.last().table.wf()) by {
                    let t = f.last().table;
                    assert(t.rows.len() == 0);
                    assert(crate::table::spec_live_count(t.rows) == 0);
                    assert(t.sets_correct()) by {
                        assert forall|c: int|
                            0 <= c < t.col_count() && t.columns_info[c].unique implies #[trigger] t.unique_set_correct(
                            c,
                        ) by {
                            assert(t.columns_values[c].len() == 0);
                            assert(!crate::table::spec_set_has(
                                t.columns_values[c],
                                crate::value::ValueV::Null,
                            ));
                            assert forall|v: crate::value::ValueV|
                                v != crate::value::ValueV::Null implies (
                            #[trigger] crate::table::spec_set_has(t.columns_values[c], v)
                                <==> crate::table::spec_live_col_has(t.rows, c, v)) by {
                                assert(!crate::table::spec_set_has(t.columns_values[c], v));
                                assert(!crate::table::spec_live_col_has(t.rows, c, v));
                            }
                        }
                    }
                }
                assert forall|i: int, j: int| 0 <= i < j < f.len() implies (
                #[trigger] f[i].name) != (#[trigger] f[j].name) by {
                    if j < o.len() {
                        assert(f[i] == o[i] && f[j] == o[j]);
                    } else {
                        assert(f[j] == f.last());
                        assert(f[i] == o[i]);
                    }
                }
            }
        }
    }

    /// Removes the table named `table_name`; missing tables are an
    /// error.
    pub fn drop_table(&mut self, table_name: &str) -> (res: DBResult<()>)
        ensures
            match spec_db_index(old(self)@, table_name@) {
                Some(i) => res matches Ok(()) && final(self)@ =~= old(self)@.remove(i),
                None => res matches Err(e2) && e2@ =~= seq![
                    ErrV::OtherError("table "@ + table_name@ + " not found"@),
                ] && final(self)@ == old(self)@,
            },
            old(self).wf() ==> final(self).wf(),
    {
        let idx_opt = self.table_index(table_name);
        match idx_opt {
            Some(i) => {
                let ghost o = self@;
                self.tables.remove(i);
                proof {
                    assert(final(self)@ =~= o.remove(i as int));
                    if old(self).wf() {
                        assert forall|p: int, q: int|
                            0 <= p < q < final(self)@.len() implies (
                        #[trigger] final(self)@[p].name) != (#[trigger] final(self)@[q].name) by {
                            let pp = if p < i as int {
                                p
                            } else {
                                p + 1
                            };
                            let qq = if q < i as int {
                                q
                            } else {
                                q + 1
                            };
                            assert(final(self)@[p] == o[pp]);
                            assert(final(self)@[q] == o[qq]);
                        }
                        assert forall|p: int| 0 <= p < final(self)@.len() implies (
                        #[trigger] final(self)@[p].table).wf() by {
                            let pp = if p < i as int {
                                p
                            } else {
                                p + 1
                            };
                            assert(final(self)@[p] == o[pp]);
                        }
                    }
                }
                Ok(())
            },
            None => {
                let mut msg = String::from_str("table ");
                msg.append(table_name);
                msg.append(" not found");
                Err(other_err(msg))
            },
        }
    }

    /// A shared view of the table named `table_name`, if present.
    pub fn get_table(&self, table_name: &str) -> (r: Option<&Table>)
        ensures
            match spec_db_index(self@, table_name@) {
                Some(i) => r matches Some(t) && t@ == self@[i].table,
                None => r matches None,
            },
    {
        let idx_opt = self.table_index(table_name);
        match idx_opt {
            Some(i) => Some(&self.tables[i].table),
            None => None,
        }
    }

    /// An exclusive view of the table named `table_name`, if present.
    pub fn get_table_mut(&mut self, table_name: &str) -> (r: Option<&mut Table>)
        ensures
            match spec_db_index(old(self)@, table_name@) {
                Some(i) => r matches Some(t) && (*t)@ == old(self)@[i].table && final(self)@ =~= old(
                    self,
                )@.update(i, DbEntryV { name: old(self)@[i].name, table: final(t)@ }),
                None => r matches None && final(self)@ == old(self)@,
            },
    {
        let idx_opt = self.table_index(table_name);
        match idx_opt {
            Some(i) => {
                let entry = &mut self.tables[i];
                Some(&mut entry.table)
            },
            None => None,
        }
    }
}

} // verus!
