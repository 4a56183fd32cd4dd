//! End-to-end tests of the engine: statements built as the parser
//! would deliver them, outputs compared literally.

use helidb::executor::SQLExecutor;
use helidb::interface::SQLExecConfig;
use helidb::sql::Assignment;
use helidb::sql::AssignmentTarget;
use helidb::sql::BinOp;
use helidb::sql::ColumnDef;
use helidb::sql::ColumnOption;
use helidb::sql::CreateTableStmt;
use helidb::sql::DataType;
use helidb::sql::DeleteStmt;
use helidb::sql::DropStmt;
use helidb::sql::Expr;
use helidb::sql::InsertBody;
use helidb::sql::InsertStmt;
use helidb::sql::Literal;
use helidb::sql::ObjectType;
use helidb::sql::OrderByExpr;
use helidb::sql::OrderByKind;
use helidb::sql::QueryBody;
use helidb::sql::QueryStmt;
use helidb::sql::SelectItem;
use helidb::sql::SelectStmt;
use helidb::sql::SqlStatement;
use helidb::sql::TableFactor;
use helidb::sql::TableTarget;

fn num(n: i32) -> Expr {
    Expr::Literal(Literal::Number(n.to_string()))
}

fn ident(name: &str) -> Expr {
    Expr::Identifier {
        value: name.to_string(),
        quoted: false,
    }
}

fn binop(op: BinOp, l: Expr, r: Expr) -> Expr {
    Expr::BinaryOp {
        op,
        left: Box::new(l),
        right: Box::new(r),
    }
}

fn int_col(name: &str, options: Vec<ColumnOption>) -> ColumnDef {
    ColumnDef {
        name: name.to_string(),
        data_type: DataType::Int(None),
        options,
    }
}

fn create(name: &str, columns: Vec<ColumnDef>) -> SqlStatement {
    SqlStatement::CreateTable(CreateTableStmt {
        name: name.to_string(),
        columns,
    })
}

fn insert(table: &str, columns: Vec<&str>, rows: Vec<Vec<Expr>>) -> SqlStatement {
    SqlStatement::Insert(InsertStmt {
        table: TableTarget::Name(table.to_string()),
        columns: columns.into_iter().map(|c| c.to_string()).collect(),
        source: Some(InsertBody::Values(rows)),
    })
}

fn select(table: Option<&str>, items: Vec<SelectItem>, selection: Option<Expr>) -> SqlStatement {
    SqlStatement::Query(QueryStmt {
        body: QueryBody::Select(SelectStmt {
            projection: items,
            from: match table {
                None => vec![],
                Some(t) => vec![TableFactor::Table(t.to_string())],
            },
            selection,
        }),
        order_by: None,
    })
}

fn select_ordered(
    table: &str,
    items: Vec<SelectItem>,
    keys: Vec<(Expr, Option<bool>)>,
) -> SqlStatement {
    SqlStatement::Query(QueryStmt {
        body: QueryBody::Select(SelectStmt {
            projection: items,
            from: vec![TableFactor::Table(table.to_string())],
            selection: None,
        }),
        order_by: Some(OrderByKind::Expressions(
            keys.into_iter()
                .map(|(expr, asc)| OrderByExpr { expr, asc })
                .collect(),
        )),
    })
}

fn proj(name: &str, expr: Expr) -> SelectItem {
    SelectItem::UnnamedExpr {
        name: name.to_string(),
        expr,
    }
}

fn run(handle: &mut SQLExecutor, stmts: Vec<SqlStatement>) -> Result<String, String> {
    match handle.execute_statements(&stmts) {
        Ok(s) => Ok(s),
        Err(e) => Err(e.render()),
    }
}

fn fresh() -> SQLExecutor {
    SQLExecutor::build_from_config(SQLExecConfig::new(), None).unwrap()
}

fn fresh_parallel() -> SQLExecutor {
    SQLExecutor::build_from_config(SQLExecConfig::new().parallel(true), None).unwrap()
}

#[test]
fn create_insert_select() {
    let mut h = fresh();
    let out = run(
        &mut h,
        vec![
            create(
                "t",
                vec![
                    int_col("id", vec![ColumnOption::Unique { is_primary: true }]),
                    int_col("v", vec![ColumnOption::NotNull]),
                ],
            ),
            insert("t", vec![], vec![vec![num(1), num(10)], vec![num(2), num(20)]]),
            select("t".into(), vec![SelectItem::Wildcard], None),
        ],
    )
    .unwrap();
    assert_eq!(
        out,
        "| id  | v   |\n| --- | --- |\n| 1   | 10  |\n| 2   | 20  |\n"
    );
}

#[test]
fn duplicate_primary_key() {
    let mut h = fresh();
    run(
        &mut h,
        vec![create(
            "t",
            vec![int_col("id", vec![ColumnOption::Unique { is_primary: true }])],
        )],
    )
    .unwrap();
    run(&mut h, vec![insert("t", vec![], vec![vec![num(1)]])]).unwrap();
    let err = run(&mut h, vec![insert("t", vec![], vec![vec![num(1)]])]).unwrap_err();
    assert_eq!(err, "Error: Duplicate entry '1' for key 'PRIMARY'\n");
    let out = run(&mut h, vec![select("t".into(), vec![SelectItem::Wildcard], None)]).unwrap();
    assert_eq!(out, "| id  |\n| --- |\n| 1   |\n");
}

#[test]
fn not_null_violation() {
    let mut h = fresh();
    run(
        &mut h,
        vec![create(
            "t",
            vec![int_col("id", vec![]), int_col("v", vec![ColumnOption::NotNull])],
        )],
    )
    .unwrap();
    let err = run(&mut h, vec![insert("t", vec!["id"], vec![vec![num(1)]])]).unwrap_err();
    assert_eq!(err, "Error: Field 'v' doesn't have a default value\n");
    let out = run(&mut h, vec![select("t".into(), vec![SelectItem::Wildcard], None)]).unwrap();
    assert_eq!(out, "There are no results to be displayed.\n");
}

#[test]
fn update_and_order_by_desc() {
    let mut h = fresh();
    let out = run(
        &mut h,
        vec![
            create("t", vec![int_col("id", vec![]), int_col("v", vec![])]),
            insert(
                "t",
                vec![],
                vec![
                    vec![num(1), num(10)],
                    vec![num(2), num(20)],
                    vec![num(3), num(30)],
                ],
            ),
            SqlStatement::Update(helidb::sql::UpdateStmt {
                table: TableFactor::Table("t".to_string()),
                assignments: vec![Assignment {
                    target: AssignmentTarget::ColumnName("v".to_string()),
                    value: binop(BinOp::Plus, ident("v"), num(1)),
                }],
                selection: Some(binop(
                    BinOp::Eq,
                    binop(BinOp::Modulo, ident("id"), num(2)),
                    num(1),
                )),
            }),
            select_ordered("t", vec![proj("v", ident("v"))], vec![(ident("v"), Some(false))]),
        ],
    )
    .unwrap();
    assert_eq!(out, "| v   |\n| --- |\n| 31  |\n| 20  |\n| 11  |\n");
}

#[test]
fn delete_where() {
    let mut h = fresh();
    let out = run(
        &mut h,
        vec![
            create("t", vec![int_col("id", vec![])]),
            insert("t", vec![], vec![vec![num(1)], vec![num(2)], vec![num(3)]]),
            SqlStatement::Delete(DeleteStmt {
                from: vec![TableFactor::Table("t".to_string())],
                selection: Some(binop(BinOp::Eq, ident("id"), num(2))),
            }),
            select("t".into(), vec![proj("id", ident("id"))], None),
        ],
    )
    .unwrap();
    assert_eq!(out, "| id  |\n| --- |\n| 1   |\n| 3   |\n");
}

#[test]
fn empty_batch() {
    let mut h = fresh();
    let out = run(&mut h, vec![]).unwrap();
    assert_eq!(out, "There are no results to be displayed.\n");
}

#[test]
fn select_literal_without_from() {
    let mut h = fresh();
    let out = run(&mut h, vec![select(None, vec![proj("1", num(1))], None)]).unwrap();
    assert_eq!(out, "| 1   |\n| --- |\n| 1   |\n");
}

#[test]
fn drop_missing_table() {
    let mut h = fresh();
    let err = run(
        &mut h,
        vec![SqlStatement::Drop(DropStmt {
            object_type: ObjectType::Table,
            names: vec!["nope".to_string()],
        })],
    )
    .unwrap_err();
    assert_eq!(err, "OtherError: table nope not found\n");
}

#[test]
fn division_by_zero() {
    let mut h = fresh();
    let err = run(
        &mut h,
        vec![select(None, vec![proj("q", binop(BinOp::Divide, num(1), num(0)))], None)],
    )
    .unwrap_err();
    assert_eq!(err, "OtherError: division by zero\n");
    let err2 = run(
        &mut h,
        vec![select(None, vec![proj("q", binop(BinOp::Modulo, num(1), num(0)))], None)],
    )
    .unwrap_err();
    assert_eq!(err2, "OtherError: modulo by zero\n");
}

#[test]
fn order_by_mixed_types_fails_before_sorting() {
    let mut h = fresh();
    run(
        &mut h,
        vec![
            create("t", vec![int_col("a", vec![])]),
            insert(
                "t",
                vec![],
                vec![
                    vec![num(1)],
                    vec![Expr::Literal(Literal::SingleQuotedString("x".to_string()))],
                ],
            ),
        ],
    )
    .unwrap();
    let err = run(
        &mut h,
        vec![select_ordered("t", vec![proj("a", ident("a"))], vec![(ident("a"), None)])],
    )
    .unwrap_err();
    assert_eq!(err, "OtherError: invalid value type for order by\n");
    let err2 = run(
        &mut h,
        vec![
            create("u", vec![int_col("a", vec![])]),
            insert("u", vec![], vec![vec![num(1)], vec![Expr::Literal(Literal::Null)]]),
            select_ordered("u", vec![proj("a", ident("a"))], vec![(ident("a"), None)]),
        ],
    )
    .unwrap_err();
    assert_eq!(err2, "OtherError: invalid value type for order by\n");
}

#[test]
fn insert_column_list_mismatch() {
    let mut h = fresh();
    run(
        &mut h,
        vec![create("t", vec![int_col("id", vec![]), int_col("v", vec![])])],
    )
    .unwrap();
    let err = run(
        &mut h,
        vec![insert("t", vec!["id"], vec![vec![num(1), num(2)]])],
    )
    .unwrap_err();
    assert_eq!(
        err,
        "OtherError: number of columns given 1 does not match number of values 2\n"
    );
    let out = run(&mut h, vec![select("t".into(), vec![SelectItem::Wildcard], None)]).unwrap();
    assert_eq!(out, "There are no results to be displayed.\n");
}

#[test]
fn insert_duplicate_column_in_list() {
    let mut h = fresh();
    run(
        &mut h,
        vec![create("t", vec![int_col("id", vec![]), int_col("v", vec![])])],
    )
    .unwrap();
    let err = run(
        &mut h,
        vec![insert("t", vec!["id", "id"], vec![vec![num(1), num(2)]])],
    )
    .unwrap_err();
    assert_eq!(err, "OtherError: column id is duplicated\n");
}

#[test]
fn parallel_matches_sequential() {
    let batch = || {
        vec![
            create(
                "t",
                vec![
                    int_col("id", vec![ColumnOption::Unique { is_primary: true }]),
                    int_col("v", vec![]),
                ],
            ),
            insert(
                "t",
                vec![],
                vec![
                    vec![num(3), num(30)],
                    vec![num(1), num(10)],
                    vec![num(2), num(20)],
                ],
            ),
            SqlStatement::Delete(DeleteStmt {
                from: vec![TableFactor::Table("t".to_string())],
                selection: Some(binop(BinOp::Eq, ident("id"), num(1))),
            }),
            select_ordered(
                "t",
                vec![proj("id", ident("id")), proj("v", ident("v"))],
                vec![(ident("v"), Some(true))],
            ),
        ]
    };
    let mut hs = fresh();
    let mut hp = fresh_parallel();
    let outs = run(&mut hs, batch()).unwrap();
    let outp = run(&mut hp, batch()).unwrap();
    assert_eq!(outs, outp);
    let follow = || vec![select("t".into(), vec![SelectItem::Wildcard], None)];
    assert_eq!(run(&mut hs, follow()).unwrap(), run(&mut hp, follow()).unwrap());
}

#[test]
fn persistence_round_trip() {
    let mut h = fresh();
    run(
        &mut h,
        vec![
            create(
                "t",
                vec![
                    int_col("id", vec![ColumnOption::Unique { is_primary: true }]),
                    ColumnDef {
                        name: "name".to_string(),
                        data_type: DataType::Varchar(Some(16)),
                        options: vec![],
                    },
                ],
            ),
            insert(
                "t",
                vec![],
                vec![
                    vec![num(1), Expr::Literal(Literal::SingleQuotedString("ada".to_string()))],
                    vec![num(2), Expr::Literal(Literal::SingleQuotedString("bob".to_string()))],
                ],
            ),
            SqlStatement::Delete(DeleteStmt {
                from: vec![TableFactor::Table("t".to_string())],
                selection: Some(binop(BinOp::Eq, ident("id"), num(2))),
            }),
        ],
    )
    .unwrap();
    let bytes = h.encoded_database().unwrap();
    // the encoding is canonical: decoding and re-encoding is identity
    let reloaded = helidb::codec::decode_database(&bytes).unwrap();
    let bytes2 = helidb::codec::encode_database(&reloaded);
    assert_eq!(bytes, bytes2);
    // a fresh handle over the stored catalog behaves like the original
    let mut h2 = SQLExecutor::build_from_config(
        SQLExecConfig::new().storage_path(Some("unused".to_string())),
        Some(bytes),
    )
    .unwrap();
    let follow = || {
        vec![
            insert(
                "t",
                vec![],
                vec![vec![num(3), Expr::Literal(Literal::SingleQuotedString("eve".to_string()))]],
            ),
            select("t".into(), vec![SelectItem::Wildcard], None),
        ]
    };
    let out1 = run(&mut h, follow()).unwrap();
    let out2 = run(&mut h2, follow()).unwrap();
    assert_eq!(out1, out2);
    // the tombstoned slot keeps its place across the round trip
    assert_eq!(out1, "| id  | name |\n| --- | ---- |\n| 1   | ada  |\n| 3   | eve  |\n");
}

#[test]
fn duplicate_unique_insert_rejected_on_reload() {
    let mut h = fresh();
    run(
        &mut h,
        vec![
            create("t", vec![int_col("id", vec![ColumnOption::Unique { is_primary: true }])]),
            insert("t", vec![], vec![vec![num(7)]]),
        ],
    )
    .unwrap();
    let bytes = h.encoded_database().unwrap();
    let mut h2 = SQLExecutor::build_from_config(
        SQLExecConfig::new().storage_path(Some("unused".to_string())),
        Some(bytes),
    )
    .unwrap();
    // the rebuilt uniqueness set still rejects the duplicate
    let err = run(&mut h2, vec![insert("t", vec![], vec![vec![num(7)]])]).unwrap_err();
    assert_eq!(err, "Error: Duplicate entry '7' for key 'PRIMARY'\n");
}

#[test]
fn corrupt_storage_is_fatal() {
    let bytes = vec![1u8, 2, 3];
    let res = SQLExecutor::build_from_config(
        SQLExecConfig::new().storage_path(Some("unused".to_string())),
        Some(bytes),
    );
    assert!(res.is_err());
    assert_eq!(res.err().unwrap().render(), "OtherError: Failed to decode data\n");
}

#[test]
fn update_swaps_columns() {
    // every assignment reads the row as it was before the first one
    let mut h = fresh();
    let out = run(
        &mut h,
        vec![
            create("t", vec![int_col("a", vec![]), int_col("b", vec![])]),
            insert("t", vec![], vec![vec![num(1), num(2)]]),
            SqlStatement::Update(helidb::sql::UpdateStmt {
                table: TableFactor::Table("t".to_string()),
                assignments: vec![
                    Assignment {
                        target: AssignmentTarget::ColumnName("a".to_string()),
                        value: ident("b"),
                    },
                    Assignment {
                        target: AssignmentTarget::ColumnName("b".to_string()),
                        value: ident("a"),
                    },
                ],
                selection: None,
            }),
            select("t".into(), vec![SelectItem::Wildcard], None),
        ],
    )
    .unwrap();
    assert_eq!(out, "| a   | b   |\n| --- | --- |\n| 2   | 1   |\n");
}

#[test]
fn where_null_filters_out() {
    let mut h = fresh();
    let out = run(
        &mut h,
        vec![
            create("t", vec![int_col("id", vec![]), int_col("v", vec![])]),
            insert("t", vec!["id"], vec![vec![num(1)]]),
            insert("t", vec![], vec![vec![num(2), num(5)]]),
            select("t".into(), vec![proj("id", ident("id"))], Some(ident("v"))),
        ],
    )
    .unwrap();
    assert_eq!(out, "| id  |\n| --- |\n| 2   |\n");
}
