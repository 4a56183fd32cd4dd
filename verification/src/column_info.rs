//! Column metadata: name, nullability, uniqueness and the column type.

use crate::error::DBResult;
use crate::error::ErrV;
use crate::error::unsupported_err;
use crate::sql::ColumnDef;
use crate::sql::DataType;
use vstd::prelude::*;

verus! {

/// Type-specific information of a column.
pub enum ColumnTypeSpecific {
    /// Integer type with an optional display width.
    Int { display_width: Option<u64> },
    /// Variable-length string with a maximum length; unlimited is the
    /// maximum unsigned 64-bit value.
    Varchar { max_length: u64 },
    /// Generic type used for projected expressions.
    Any,
}

/// Mathematical model of a column type.
#[verifier::ext_equal]
pub ghost enum ColumnTypeV {
    Int { display_width: Option<u64> },
    Varchar { max_length: u64 },
    Any,
}

impl View for ColumnTypeSpecific {
    type V = ColumnTypeV;

    open spec fn view(&self) -> ColumnTypeV {
        match self {
            ColumnTypeSpecific::Int { display_width } => ColumnTypeV::Int {
                display_width: *display_width,
            },
            ColumnTypeSpecific::Varchar { max_length } => ColumnTypeV::Varchar {
                max_length: *max_length,
            },
            ColumnTypeSpecific::Any => ColumnTypeV::Any,
        }
    }
}

/// The column type denoted by a parsed SQL data type, when supported.
pub open spec fn spec_type_of(ty: DataType) -> Result<ColumnTypeV, Seq<char>> {
    match ty {
        DataType::Int(w) => Ok(ColumnTypeV::Int { display_width: w }),
        DataType::Varchar(l) => Ok(
            ColumnTypeV::Varchar {
                max_length: match l {
                    Some(n) => n,
                    None => u64::MAX,
                },
            },
        ),
        DataType::Other(text) => Err("unsupported type "@ + text@),
    }
}

impl ColumnTypeSpecific {
    /// Reads the column type out of a column definition; unsupported SQL
    /// types are rejected.
    pub fn from_column_def(def: &ColumnDef) -> (r: DBResult<Self>)
        ensures
            match spec_type_of(def.data_type) {
                Ok(t) => r matches Ok(c) && c@ == t,
                Err(m) => r matches Err(e) && e@ =~= seq![ErrV::UnsupportedOPError(m)],
            },
    {
        match &def.data_type {
            DataType::Int(w) => Ok(ColumnTypeSpecific::Int { display_width: *w }),
            DataType::Varchar(l) => Ok(
                ColumnTypeSpecific::Varchar {
                    max_length: match l {
                        Some(n) => *n,
                        None => u64::MAX,
                    },
                },
            ),
            DataType::Other(text) => {
                let mut msg = String::from_str("unsupported type ");
                msg.append(text.as_str());
                Err(unsupported_err(msg))
            },
        }
    }

    /// Copies the column type.
    pub fn duplicate(&self) -> (r: Self)
        ensures
            r@ == self@,
    {
        match self {
            ColumnTypeSpecific::Int { display_width } => ColumnTypeSpecific::Int {
                display_width: *display_width,
            },
            ColumnTypeSpecific::Varchar { max_length } => ColumnTypeSpecific::Varchar {
                max_length: *max_length,
            },
            ColumnTypeSpecific::Any => ColumnTypeSpecific::Any,
        }
    }
}

/// Metadata about one column of a table.
pub struct ColumnInfo {
    /// Name of the column.
    pub name: String,
    /// Whether the column admits NULL values.
    pub nullable: bool,
    /// Whether the column carries a UNIQUE constraint.
    pub unique: bool,
    /// Type-specific information.
    pub type_specific: ColumnTypeSpecific,
}

/// Mathematical model of a column.
#[verifier::ext_equal]
pub ghost struct ColumnInfoV {
    pub name: Seq<char>,
    pub nullable: bool,
    pub unique: bool,
    pub type_specific: ColumnTypeV,
}

impl View for ColumnInfo {
    type V = ColumnInfoV;

    open spec fn view(&self) -> ColumnInfoV {
        ColumnInfoV {
            name: self.name@,
            nullable: self.nullable,
            unique: self.unique,
            type_specific: self.type_specific@,
        }
    }
}

impl ColumnInfo {
    /// Copies the column metadata.
    pub fn duplicate(&self) -> (r: Self)
        ensures
            r@ == self@,
    {
        ColumnInfo {
            name: self.name.clone(),
            nullable: self.nullable,
            unique: self.unique,
            type_specific: self.type_specific.duplicate(),
        }
    }
}

} // verus!
