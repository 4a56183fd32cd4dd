//! The expression evaluator: a pure function from a schema, a tuple and
//! an expression to a value or an error.

use crate::column_info::ColumnInfo;
use crate::column_info::ColumnInfoV;
use crate::error::DBError;
use crate::error::DBResult;
use crate::error::ErrV;
use crate::error::other_err;
use crate::error::unsupported_err;
use crate::sql::BinOp;
use crate::sql::Expr;
use crate::sql::Literal;
use crate::table::spec_col_index;
use crate::table::spec_cols_view;
use crate::table::spec_row_view;
use crate::value::Value;
use crate::value::ValueV;
use crate::value::parse_i32;
use crate::value::spec_parse_i32;
use crate::value::spec_try_to_bool;
use crate::value::str_eq;
use vstd::prelude::*;

verus! {

/// A boolean encoded as an Int 0/1 value.
pub open spec fn spec_bool_val(b: bool) -> ValueV {
    ValueV::Int(
        if b {
            1i32
        } else {
            0i32
        },
    )
}

/// Truncating 32-bit division, wrapping on overflow.
pub open spec fn spec_div32(x: i32, y: i32) -> i32 {
    match x.checked_div(y) {
        Some(v) => v,
        None => i32::MIN,
    }
}

/// Truncating 32-bit remainder, wrapping on overflow.
pub open spec fn spec_rem32(x: i32, y: i32) -> i32 {
    match x.checked_rem(y) {
        Some(v) => v,
        None => 0i32,
    }
}

/// The display name of a binary operator, used in error messages.
pub open spec fn spec_op_text(op: BinOp) -> Seq<char> {
    match op {
        BinOp::Plus => "Plus"@,
        BinOp::Minus => "Minus"@,
        BinOp::Multiply => "Multiply"@,
        BinOp::Divide => "Divide"@,
        BinOp::Modulo => "Modulo"@,
        BinOp::Gt => "Gt"@,
        BinOp::Lt => "Lt"@,
        BinOp::GtEq => "GtEq"@,
        BinOp::LtEq => "LtEq"@,
        BinOp::Eq => "Eq"@,
        BinOp::NotEq => "NotEq"@,
        BinOp::And => "And"@,
        BinOp::Or => "Or"@,
        BinOp::Other(d) => d@,
    }
}

/// The error raised for an operator unsupported on its operands.
pub open spec fn spec_binop_err(op: BinOp) -> ErrV {
    ErrV::UnsupportedOPError("unsupported binary operator "@ + spec_op_text(op))
}

/// The result of a binary operation on two evaluated operands.
///
/// Arithmetic wraps on 32-bit overflow; division and modulo by zero are
/// errors; comparisons and logic yield Int 0/1; on strings only `=` is
/// defined.
pub open spec fn spec_eval_binop(op: BinOp, l: ValueV, r: ValueV) -> Result<ValueV, ErrV> {
    match (l, r) {
        (ValueV::Int(x), ValueV::Int(y)) => match op {
            BinOp::Plus => Ok(ValueV::Int(vstd::wrapping::i32_specs::wrapping_add(x, y))),
            BinOp::Minus => Ok(ValueV::Int(vstd::wrapping::i32_specs::wrapping_sub(x, y))),
            BinOp::Multiply => Ok(ValueV::Int(vstd::wrapping::i32_specs::wrapping_mul(x, y))),
            BinOp::Divide => if y == 0 {
                Err(ErrV::OtherError("division by zero"@))
            } else {
                Ok(ValueV::Int(spec_div32(x, y)))
            },
            BinOp::Modulo => if y == 0 {
                Err(ErrV::OtherError("modulo by zero"@))
            } else {
                Ok(ValueV::Int(spec_rem32(x, y)))
            },
            BinOp::Gt => Ok(spec_bool_val(x > y)),
            BinOp::Lt => Ok(spec_bool_val(x < y)),
            BinOp::GtEq => Ok(spec_bool_val(x >= y)),
            BinOp::LtEq => Ok(spec_bool_val(x <= y)),
            BinOp::Eq => Ok(spec_bool_val(x == y)),
            BinOp::NotEq => Ok(spec_bool_val(x != y)),
            BinOp::And => Ok(spec_bool_val(x != 0 && y != 0)),
            BinOp::Or => Ok(spec_bool_val(x != 0 || y != 0)),
            BinOp::Other(_) => Err(spec_binop_err(op)),
        },
        (ValueV::Varchar(x), ValueV::Varchar(y)) => match op {
            BinOp::Eq => Ok(spec_bool_val(x == y)),
            _ => Err(spec_binop_err(op)),
        },
        _ => Err(spec_binop_err(op)),
    }
}

/// The value of an expression over a schema and a tuple.
pub open spec fn spec_eval(cols: Seq<ColumnInfoV>, row: Seq<ValueV>, e: Expr) -> Result<
    ValueV,
    ErrV,
>
    decreases e,
{
    match e {
        Expr::Nested(inner) => spec_eval(cols, row, *inner),
        Expr::Identifier { value, quoted } => if quoted {
            Ok(ValueV::Varchar(value@))
        } else {
            match spec_col_index(cols, value@) {
                Some(i) => Ok(row[i]),
                None => Ok(ValueV::Varchar(value@)),
            }
        },
        Expr::Literal(lit) => match lit {
            Literal::Number(s) => match spec_parse_i32(s@) {
                Some(v) => Ok(ValueV::Int(v as i32)),
                None => Err(ErrV::OtherError("invalid number "@ + s@)),
            },
            Literal::Boolean(b) => Ok(spec_bool_val(b)),
            Literal::Null => Ok(ValueV::Null),
            Literal::SingleQuotedString(s) => Ok(ValueV::Varchar(s@)),
            Literal::DoubleQuotedString(s) => Ok(ValueV::Varchar(s@)),
            Literal::Other(d) => Err(ErrV::UnsupportedOPError("unsupported value type "@ + d@)),
        },
        Expr::IsTrue(inner) => match spec_eval(cols, row, *inner) {
            Err(er) => Err(er),
            Ok(v) => match spec_try_to_bool(v) {
                Err(m) => Err(ErrV::OtherError(m)),
                Ok(ob) => Ok(spec_bool_val(ob == Some(true))),
            },
        },
        Expr::IsFalse(inner) => match spec_eval(cols, row, *inner) {
            Err(er) => Err(er),
            Ok(v) => match spec_try_to_bool(v) {
                Err(m) => Err(ErrV::OtherError(m)),
                Ok(ob) => Ok(spec_bool_val(ob == Some(false))),
            },
        },
        Expr::IsNotTrue(inner) => match spec_eval(cols, row, *inner) {
            Err(er) => Err(er),
            Ok(v) => match spec_try_to_bool(v) {
                Err(m) => Err(ErrV::OtherError(m)),
                Ok(ob) => Ok(spec_bool_val(!(ob == Some(true)))),
            },
        },
        Expr::IsNotFalse(inner) => match spec_eval(cols, row, *inner) {
            Err(er) => Err(er),
            Ok(v) => match spec_try_to_bool(v) {
                Err(m) => Err(ErrV::OtherError(m)),
                Ok(ob) => Ok(spec_bool_val(!(ob == Some(false)))),
            },
        },
        Expr::IsNull(inner) => match spec_eval(cols, row, *inner) {
            Err(er) => Err(er),
            Ok(v) => Ok(spec_bool_val(v == ValueV::Null)),
        },
        Expr::IsNotNull(inner) => match spec_eval(cols, row, *inner) {
            Err(er) => Err(er),
            Ok(v) => Ok(spec_bool_val(v != ValueV::Null)),
        },
        Expr::BinaryOp { op, left, right } => match spec_eval(cols, row, *left) {
            Err(er) => Err(er),
            Ok(lv) => match spec_eval(cols, row, *right) {
                Err(er) => Err(er),
                Ok(rv) => spec_eval_binop(op, lv, rv),
            },
        },
        Expr::Other(d) => Err(ErrV::UnsupportedOPError("unsupported expression "@ + d@)),
    }
}

/// Whether a tuple passes a condition: an absent condition selects the
/// row; a null or unknown result deselects it.
pub open spec fn spec_row_satisfies(
    cols: Seq<ColumnInfoV>,
    row: Seq<ValueV>,
    cond: Option<Expr>,
) -> Result<bool, ErrV> {
    match cond {
        None => Ok(true),
        Some(e) => match spec_eval(cols, row, e) {
            Err(er) => Err(er),
            Ok(v) => match spec_try_to_bool(v) {
                Err(m) => Err(ErrV::OtherError(m)),
                Ok(ob) => Ok(ob == Some(true)),
            },
        },
    }
}

/// Looks a column up by name in a schema.
pub fn find_column(cols: &Vec<ColumnInfo>, name: &str) -> (r: Option<usize>)
    ensures
        match spec_col_index(spec_cols_view(cols@), name@) {
            Some(i) => r matches Some(x) && x as int == i && i < cols@.len(),
            None => r matches None,
        },
{
    let ghost colsv = spec_cols_view(cols@);
    proof {
        crate::table::lemma_col_index_in_range(colsv, name@);
        assert(colsv.skip(0) =~= colsv);
    }
    let n = cols.len();
    let mut i: usize = 0;
    while i < n
        invariant
            i <= n,
            n == cols@.len(),
            colsv == spec_cols_view(cols@),
            colsv.len() == n,
            spec_col_index(colsv, name@) == match spec_col_index(colsv.skip(i as int), name@) {
                Some(k) => Some(k + i),
                None => None::<int>,
            },
        decreases n - i,
    {
        let ghost rest = colsv.skip(i as int);
        if str_eq(cols[i].name.as_str(), name) {
            proof {
                assert(rest[0] == colsv[i as int]);
            }
            return Some(i);
        }
        proof {
            assert(rest[0] == colsv[i as int]);
            assert(rest.drop_first() =~= colsv.skip(i as int + 1));
        }
        i = i + 1;
    }
    proof {
        assert(colsv.skip(n as int) =~= Seq::<ColumnInfoV>::empty());
    }
    None
}

/// Evaluates the result of a binary operation on two evaluated operands.
fn eval_binop(op: &BinOp, l: Value, r: Value) -> (res: DBResult<Value>)
    ensures
        match spec_eval_binop(*op, l@, r@) {
            Ok(v) => res matches Ok(x) && x@ == v,
            Err(er) => res matches Err(e2) && e2@ =~= seq![er],
        },
{
    match (l.0, r.0) {
        (
            Some(crate::value::ValueNotNull::Int(x)),
            Some(crate::value::ValueNotNull::Int(y)),
        ) => match op {
            BinOp::Plus => Ok(Value::from_int(x.wrapping_add(y))),
            BinOp::Minus => Ok(Value::from_int(x.wrapping_sub(y))),
            BinOp::Multiply => Ok(Value::from_int(x.wrapping_mul(y))),
            BinOp::Divide => {
                if y == 0 {
                    Err(other_err(String::from_str("division by zero")))
                } else {
                    match x.checked_div(y) {
                        Some(v) => Ok(Value::from_int(v)),
                        None => Ok(Value::from_int(i32::MIN)),
                    }
                }
            },
            BinOp::Modulo => {
                if y == 0 {
                    Err(other_err(String::from_str("modulo by zero")))
                } else {
                    match x.checked_rem(y) {
                        Some(v) => Ok(Value::from_int(v)),
                        None => Ok(Value::from_int(0)),
                    }
                }
            },
            BinOp::Gt => Ok(Value::from_bool(x > y)),
            BinOp::Lt => Ok(Value::from_bool(x < y)),
            BinOp::GtEq => Ok(Value::from_bool(x >= y)),
            BinOp::LtEq => Ok(Value::from_bool(x <= y)),
            BinOp::Eq => Ok(Value::from_bool(x == y)),
            BinOp::NotEq => Ok(Value::from_bool(x != y)),
            BinOp::And => Ok(Value::from_bool(x != 0 && y != 0)),
            BinOp::Or => Ok(Value::from_bool(x != 0 || y != 0)),
            BinOp::Other(_) => Err(binop_err(op)),
        },
        (
            Some(crate::value::ValueNotNull::Varchar(x)),
            Some(crate::value::ValueNotNull::Varchar(y)),
        ) => match op {
            BinOp::Eq => Ok(Value::from_bool(str_eq(x.as_str(), y.as_str()))),
            _ => Err(binop_err(op)),
        },
        _ => Err(binop_err(op)),
    }
}

/// Builds the unsupported-operator error for `op`.
fn binop_err(op: &BinOp) -> (r: DBError)
    ensures
        r@ =~= seq![spec_binop_err(*op)],
{
    let mut msg = String::from_str("unsupported binary operator ");
    match op {
        BinOp::Plus => msg.append("Plus"),
        BinOp::Minus => msg.append("Minus"),
        BinOp::Multiply => msg.append("Multiply"),
        BinOp::Divide => msg.append("Divide"),
        BinOp::Modulo => msg.append("Modulo"),
        BinOp::Gt => msg.append("Gt"),
        BinOp::Lt => msg.append("Lt"),
        BinOp::GtEq => msg.append("GtEq"),
        BinOp::LtEq => msg.append("LtEq"),
        BinOp::Eq => msg.append("Eq"),
        BinOp::NotEq => msg.append("NotEq"),
        BinOp::And => msg.append("And"),
        BinOp::Or => msg.append("Or"),
        BinOp::Other(d) => msg.append(d.as_str()),
    }
    unsupported_err(msg)
}

/// Evaluates an expression over a schema and a tuple.
pub fn eval_expr(cols: &Vec<ColumnInfo>, row: &Vec<Value>, e: &Expr) -> (res: DBResult<Value>)
    requires
        row@.len() == cols@.len(),
    ensures
        match spec_eval(spec_cols_view(cols@), spec_row_view(row@), *e) {
            Ok(v) => res matches Ok(x) && x@ == v,
            Err(er) => res matches Err(e2) && e2@ =~= seq![er],
        },
    decreases *e,
{
    match e {
        Expr::Nested(inner) => eval_expr(cols, row, &**inner),
        Expr::Identifier { value, quoted } => {
            if *quoted {
                Ok(Value::from_varchar(value.clone()))
            } else {
                match find_column(cols, value.as_str()) {
                    Some(index) => Ok(row[index].duplicate()),
                    None => Ok(Value::from_varchar(value.clone())),
                }
            }
        },
        Expr::Literal(lit) => match lit {
            Literal::Number(s) => match parse_i32(s.as_str()) {
                Some(v) => Ok(Value::from_int(v)),
                None => {
                    let mut msg = String::from_str("invalid number ");
                    msg.append(s.as_str());
                    Err(other_err(msg))
                },
            },
            Literal::Boolean(b) => Ok(Value::from_bool(*b)),
            Literal::Null => Ok(Value::from_null()),
            Literal::SingleQuotedString(s) => Ok(Value::from_varchar(s.clone())),
            Literal::DoubleQuotedString(s) => Ok(Value::from_varchar(s.clone())),
            Literal::Other(d) => {
                let mut msg = String::from_str("unsupported value type ");
                msg.append(d.as_str());
                Err(unsupported_err(msg))
            },
        },
        Expr::IsTrue(inner) => {
            let v = eval_expr(cols, row, &**inner)?;
            let ob = v.try_to_bool()?;
            Ok(Value::from_bool(match ob {
                Some(b) => b,
                None => false,
            }))
        },
        Expr::IsFalse(inner) => {
            let v = eval_expr(cols, row, &**inner)?;
            let ob = v.try_to_bool()?;
            Ok(Value::from_bool(match ob {
                Some(b) => !b,
                None => false,
            }))
        },
        Expr::IsNotTrue(inner) => {
            let v = eval_expr(cols, row, &**inner)?;
            let ob = v.try_to_bool()?;
            Ok(Value::from_bool(match ob {
                Some(b) => !b,
                None => true,
            }))
        },
        Expr::IsNotFalse(inner) => {
            let v = eval_expr(cols, row, &**inner)?;
            let ob = v.try_to_bool()?;
            Ok(Value::from_bool(match ob {
                Some(b) => b,
                None => true,
            }))
        },
        Expr::IsNull(inner) => {
            let v = eval_expr(cols, row, &**inner)?;
            Ok(Value::from_bool(v.is_null()))
        },
        Expr::IsNotNull(inner) => {
            let v = eval_expr(cols, row, &**inner)?;
            Ok(Value::from_bool(!v.is_null()))
        },
        Expr::BinaryOp { op, left, right } => {
            let lv = eval_expr(cols, row, &**left)?;
            let rv = eval_expr(cols, row, &**right)?;
            eval_binop(op, lv, rv)
        },
        Expr::Other(d) => {
            let mut msg = String::from_str("unsupported expression ");
            msg.append(d.as_str());
            Err(unsupported_err(msg))
        },
    }
}

/// Whether a tuple passes a condition.
pub fn row_satisfies(cols: &Vec<ColumnInfo>, row: &Vec<Value>, cond: &Option<Expr>) -> (res:
    DBResult<bool>)
    requires
        row@.len() == cols@.len(),
    ensures
        match spec_row_satisfies(spec_cols_view(cols@), spec_row_view(row@), *cond) {
            Ok(b) => res matches Ok(x) && x == b,
            Err(er) => res matches Err(e2) && e2@ =~= seq![er],
        },
{
    match cond {
        None => Ok(true),
        Some(e) => {
            let v = eval_expr(cols, row, e)?;
            let ob = v.try_to_bool()?;
            Ok(match ob {
                Some(b) => b,
                None => false,
            })
        },
    }
}

} // verus!
