//! Unit tests of values, errors and the evaluator's literal handling.

use helidb::error::{join_result, DBError, DBSingleError};
use helidb::executor::SQLExecutor;
use helidb::interface::SQLExecConfig;
use helidb::sql::{
    Expr, Literal, QueryBody, QueryStmt, SelectItem, SelectStmt, SqlStatement,
};
use helidb::value::Value;

fn select_exprs(items: Vec<(&str, Expr)>) -> SqlStatement {
    SqlStatement::Query(QueryStmt {
        body: QueryBody::Select(SelectStmt {
            projection: items
                .into_iter()
                .map(|(name, expr)| SelectItem::UnnamedExpr {
                    name: name.to_string(),
                    expr,
                })
                .collect(),
            from: vec![],
            selection: None,
        }),
        order_by: None,
    })
}

fn run_one(stmt: SqlStatement) -> Result<String, String> {
    let mut h = SQLExecutor::build_from_config(SQLExecConfig::new(), None).unwrap();
    match h.execute_statements(&vec![stmt]) {
        Ok(s) => Ok(s),
        Err(e) => Err(e.render()),
    }
}

#[test]
fn bool_coercion() {
    let v = Value::from_varchar("true".to_string());
    assert_eq!(v.try_to_bool().unwrap(), Some(true));
    let v = Value::from_varchar("f".to_string());
    assert_eq!(v.try_to_bool().unwrap(), Some(false));
    let v = Value::from_null();
    assert_eq!(v.try_to_bool().unwrap(), None);
    let v = Value::from_varchar("maybe".to_string());
    assert!(v.try_to_bool().is_err());
    assert_eq!(Value::from_int(0).try_to_bool().unwrap(), Some(false));
    assert_eq!(Value::from_int(-3).try_to_bool().unwrap(), Some(true));
}

#[test]
fn value_display() {
    assert_eq!(Value::from_int(-2147483648).to_string(), "-2147483648");
    assert_eq!(Value::from_int(0).to_string(), "0");
    assert_eq!(Value::from_varchar("abc".to_string()).to_string(), "abc");
    assert_eq!(Value::from_null().to_string(), "");
    assert_eq!(Value::from_bool(true).to_string(), "1");
}

#[test]
fn join_result_keeps_every_error() {
    let ok: Result<(), DBError> = Ok(());
    let e1: Result<(), DBError> = Err(DBError {
        errors: vec![DBSingleError::RequiredError("first".to_string())],
    });
    let e2: Result<(), DBError> = Err(DBError {
        errors: vec![DBSingleError::OtherError("second".to_string())],
    });
    assert!(join_result(Ok(()), ok).is_ok());
    let joined = join_result(e1, e2).unwrap_err();
    assert_eq!(joined.render(), "Error: first\nOtherError: second\n");
}

#[test]
fn db_error_join_appends() {
    let mut e1 = DBError {
        errors: vec![DBSingleError::RequiredError("first".to_string())],
    };
    let e2 = DBError {
        errors: vec![DBSingleError::OtherError("second".to_string())],
    };
    e1.join(e2);
    assert_eq!(e1.errors.len(), 2);
    assert_eq!(e1.render(), "Error: first\nOtherError: second\n");
}

#[test]
fn numeric_literal_bounds() {
    let out = run_one(select_exprs(vec![(
        "n",
        Expr::Literal(Literal::Number("-2147483648".to_string())),
    )]))
    .unwrap();
    assert_eq!(out, "| n           |\n| ----------- |\n| -2147483648 |\n");
    let err = run_one(select_exprs(vec![(
        "n",
        Expr::Literal(Literal::Number("2147483648".to_string())),
    )]))
    .unwrap_err();
    assert_eq!(err, "OtherError: invalid number 2147483648\n");
    let err2 = run_one(select_exprs(vec![(
        "n",
        Expr::Literal(Literal::Number("1.5".to_string())),
    )]))
    .unwrap_err();
    assert_eq!(err2, "OtherError: invalid number 1.5\n");
}

#[test]
fn null_predicates() {
    let out = run_one(select_exprs(vec![
        ("a", Expr::IsNull(Box::new(Expr::Literal(Literal::Null)))),
        ("b", Expr::IsNotNull(Box::new(Expr::Literal(Literal::Null)))),
        ("c", Expr::IsTrue(Box::new(Expr::Literal(Literal::Null)))),
        ("d", Expr::IsNotTrue(Box::new(Expr::Literal(Literal::Null)))),
        (
            "e",
            Expr::IsFalse(Box::new(Expr::Literal(Literal::Boolean(false)))),
        ),
    ]))
    .unwrap();
    assert_eq!(
        out,
        "| a   | b   | c   | d   | e   |\n| --- | --- | --- | --- | --- |\n| 1   | 0   | 0   | 1   | 1   |\n"
    );
}

#[test]
fn quoted_identifier_is_a_literal() {
    let out = run_one(select_exprs(vec![(
        "q",
        Expr::Identifier {
            value: "zed".to_string(),
            quoted: true,
        },
    )]))
    .unwrap();
    assert_eq!(out, "| q   |\n| --- |\n| zed |\n");
}

#[test]
fn varchar_equality() {
    let s = |t: &str| Expr::Literal(Literal::SingleQuotedString(t.to_string()));
    let eq = |l: Expr, r: Expr| Expr::BinaryOp {
        op: helidb::sql::BinOp::Eq,
        left: Box::new(l),
        right: Box::new(r),
    };
    let out = run_one(select_exprs(vec![
        ("a", eq(s("x"), s("x"))),
        ("b", eq(s("x"), s("y"))),
    ]))
    .unwrap();
    assert_eq!(out, "| a   | b   |\n| --- | --- |\n| 1   | 0   |\n");
}

#[test]
fn arithmetic_wraps_on_overflow() {
    let n = |x: i32| Expr::Literal(Literal::Number(x.to_string()));
    let add = |l: Expr, r: Expr| Expr::BinaryOp {
        op: helidb::sql::BinOp::Plus,
        left: Box::new(l),
        right: Box::new(r),
    };
    let out = run_one(select_exprs(vec![("a", add(n(2147483647), n(1)))])).unwrap();
    assert_eq!(out, "| a           |\n| ----------- |\n| -2147483648 |\n");
}
