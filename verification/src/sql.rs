//! The statement tree the engine executes: expressions and the six
//! statement kinds, with `Other` variants that carry the display text of
//! any shape the engine does not implement.

use vstd::prelude::*;

verus! {

/// A literal value inside an expression.
pub enum Literal {
    /// A numeric literal, kept as its source text.
    Number(String),
    /// A boolean literal.
    Boolean(bool),
    /// The NULL literal.
    Null,
    /// A single-quoted string literal.
    SingleQuotedString(String),
    /// A double-quoted string literal.
    DoubleQuotedString(String),
    /// Any other literal kind, by its display text.
    Other(String),
}

/// A binary operator.
pub enum BinOp {
    Plus,
    Minus,
    Multiply,
    Divide,
    Modulo,
    Gt,
    Lt,
    GtEq,
    LtEq,
    Eq,
    NotEq,
    And,
    Or,
    /// Any other operator, by its display text.
    Other(String),
}

/// An expression.
pub enum Expr {
    /// A bare or quoted identifier.
    Identifier { value: String, quoted: bool },
    /// A literal.
    Literal(Literal),
    /// A parenthesized expression.
    Nested(Box<Expr>),
    /// `IS TRUE`.
    IsTrue(Box<Expr>),
    /// `IS FALSE`.
    IsFalse(Box<Expr>),
    /// `IS NOT TRUE`.
    IsNotTrue(Box<Expr>),
    /// `IS NOT FALSE`.
    IsNotFalse(Box<Expr>),
    /// `IS NULL`.
    IsNull(Box<Expr>),
    /// `IS NOT NULL`.
    IsNotNull(Box<Expr>),
    /// A binary operation.
    BinaryOp { op: BinOp, left: Box<Expr>, right: Box<Expr> },
    /// Any other expression shape, by its display text.
    Other(String),
}

/// A parsed SQL data type in a column definition.
pub enum DataType {
    /// INT or INTEGER, with an optional display width.
    Int(Option<u64>),
    /// VARCHAR with an optional character length; `None` is unlimited.
    Varchar(Option<u64>),
    /// Any other data type, by its display text.
    Other(String),
}

/// A constraint attached to a column definition.
pub enum ColumnOption {
    NotNull,
    Unique { is_primary: bool },
    /// Any other option, by its display text.
    Other(String),
}

/// One column of a CREATE TABLE statement.
pub struct ColumnDef {
    pub name: String,
    pub data_type: DataType,
    pub options: Vec<ColumnOption>,
}

/// A CREATE TABLE statement.
pub struct CreateTableStmt {
    pub name: String,
    pub columns: Vec<ColumnDef>,
}

/// The object kind of a DROP statement.
pub enum ObjectType {
    Table,
    /// Any other object kind, by its display text.
    Other(String),
}

/// A DROP statement.
pub struct DropStmt {
    pub object_type: ObjectType,
    pub names: Vec<String>,
}

/// The target of an INSERT statement.
pub enum TableTarget {
    Name(String),
    /// Any other target shape, by its display text.
    Other(String),
}

/// The row source of an INSERT statement.
pub enum InsertBody {
    /// A VALUES clause: one expression list per row.
    Values(Vec<Vec<Expr>>),
    /// Any other source, by its display text.
    Other(String),
}

/// An INSERT statement.
pub struct InsertStmt {
    pub table: TableTarget,
    pub columns: Vec<String>,
    pub source: Option<InsertBody>,
}

/// A table reference in FROM, UPDATE or DELETE.
pub enum TableFactor {
    Table(String),
    /// Any other relation shape, by its display text.
    Other(String),
}

/// One item of a SELECT projection.
pub enum SelectItem {
    /// `*`.
    Wildcard,
    /// A projected expression; `name` is the source text of the
    /// expression, used as the result column name.
    UnnamedExpr { name: String, expr: Expr },
    /// Any other item shape, by its display text.
    Other(String),
}

/// The SELECT body of a query.
pub struct SelectStmt {
    pub projection: Vec<SelectItem>,
    pub from: Vec<TableFactor>,
    pub selection: Option<Expr>,
}

/// The body of a query statement.
pub enum QueryBody {
    Select(SelectStmt),
    /// Any other set expression, by its display text.
    Other(String),
}

/// One ORDER BY key.
pub struct OrderByExpr {
    pub expr: Expr,
    pub asc: Option<bool>,
}

/// The ORDER BY clause of a query.
pub enum OrderByKind {
    Expressions(Vec<OrderByExpr>),
    /// Any other ORDER BY shape, by its display text.
    Other(String),
}

/// A query statement.
pub struct QueryStmt {
    pub body: QueryBody,
    pub order_by: Option<OrderByKind>,
}

/// The target of one UPDATE assignment.
pub enum AssignmentTarget {
    ColumnName(String),
    /// Any other target shape, by its display text.
    Other(String),
}

/// One UPDATE assignment.
pub struct Assignment {
    pub target: AssignmentTarget,
    pub value: Expr,
}

/// An UPDATE statement.
pub struct UpdateStmt {
    pub table: TableFactor,
    pub assignments: Vec<Assignment>,
    pub selection: Option<Expr>,
}

/// A DELETE statement.
pub struct DeleteStmt {
    pub from: Vec<TableFactor>,
    pub selection: Option<Expr>,
}

/// A statement.
pub enum SqlStatement {
    CreateTable(CreateTableStmt),
    Drop(DropStmt),
    Insert(InsertStmt),
    Query(QueryStmt),
    Update(UpdateStmt),
    Delete(DeleteStmt),
    /// Any other statement kind, by its display text.
    Other(String),
}

} // verus!
