//! The scalar format mapper: a scalar node's declared type and format tag to a representation.
use crate::model::{opt_view, AnalysisError, ScalarKind};
use crate::schema::Schema;
use vstd::prelude::*;

verus! {

/// Whether `f` holds the same text as `lit`.
pub fn text_is(f: &String, lit: &str) -> (r: bool)
    ensures
        r == (f@ == lit@),
{
    *f == lit.to_owned()
}

/// A date node: `date` and `date-time` are recognised, and an absent format means text.
pub open spec fn date_kind(format: Option<Seq<char>>) -> Result<ScalarKind, AnalysisError> {
    match format {
        None => Ok(ScalarKind::Text),
        Some(f) => if f == "date"@ {
            Ok(ScalarKind::Date)
        } else if f == "date-time"@ {
            Ok(ScalarKind::DateTime)
        } else {
            Err(AnalysisError::UnknownScalarFormat)
        },
    }
}

/// A number node: `float` and `double` are recognised, and an absent format means 64 bits.
pub open spec fn number_kind(format: Option<Seq<char>>) -> Result<ScalarKind, AnalysisError> {
    match format {
        None => Ok(ScalarKind::F64),
        Some(f) => if f == "float"@ {
            Ok(ScalarKind::F32)
        } else if f == "double"@ {
            Ok(ScalarKind::F64)
        } else {
            Err(AnalysisError::UnknownScalarFormat)
        },
    }
}

/// An integer node: the fixed-width formats are recognised, and an absent format means a
/// signed 64-bit integer.
pub open spec fn integer_kind(format: Option<Seq<char>>) -> Result<ScalarKind, AnalysisError> {
    match format {
        None => Ok(ScalarKind::I64),
        Some(f) => if f == "int8"@ {
            Ok(ScalarKind::I8)
        } else if f == "int16"@ {
            Ok(ScalarKind::I16)
        } else if f == "int32"@ {
            Ok(ScalarKind::I32)
        } else if f == "int64"@ {
            Ok(ScalarKind::I64)
        } else if f == "int128"@ {
            Ok(ScalarKind::I128)
        } else if f == "uint8"@ {
            Ok(ScalarKind::U8)
        } else if f == "uint16"@ {
            Ok(ScalarKind::U16)
        } else if f == "uint32"@ {
            Ok(ScalarKind::U32)
        } else if f == "uint64"@ {
            Ok(ScalarKind::U64)
        } else if f == "uint128"@ {
            Ok(ScalarKind::U128)
        } else {
            Err(AnalysisError::UnknownScalarFormat)
        },
    }
}

/// The representation of a date node, from its format tag.
pub fn extract_date_type(value: &Schema) -> (r: Result<ScalarKind, AnalysisError>)
    ensures
        r == date_kind(opt_view(value.format)),
{
    match &value.format {
        None => Ok(ScalarKind::Text),
        Some(f) => if text_is(f, "date") {
            Ok(ScalarKind::Date)
        } else if text_is(f, "date-time") {
            Ok(ScalarKind::DateTime)
        } else {
            Err(AnalysisError::UnknownScalarFormat)
        },
    }
}

/// The representation of a number node, from its format tag.
pub fn extract_number_type(value: &Schema) -> (r: Result<ScalarKind, AnalysisError>)
    ensures
        r == number_kind(opt_view(value.format)),
{
    match &value.format {
        None => Ok(ScalarKind::F64),
        Some(f) => if text_is(f, "float") {
            Ok(ScalarKind::F32)
        } else if text_is(f, "double") {
            Ok(ScalarKind::F64)
        } else {
            Err(AnalysisError::UnknownScalarFormat)
        },
    }
}

/// The representation of an integer node, from its format tag.
pub fn extract_integer_type(value: &Schema) -> (r: Result<ScalarKind, AnalysisError>)
    ensures
        r == integer_kind(opt_view(value.format)),
{
    match &value.format {
        None => Ok(ScalarKind::I64),
        Some(f) => if text_is(f, "int8") {
            Ok(ScalarKind::I8)
        } else if text_is(f, "int16") {
            Ok(ScalarKind::I16)
        } else if text_is(f, "int32") {
            Ok(ScalarKind::I32)
        } else if text_is(f, "int64") {
            Ok(ScalarKind::I64)
        } else if text_is(f, "int128") {
            Ok(ScalarKind::I128)
        } else if text_is(f, "uint8") {
            Ok(ScalarKind::U8)
        } else if text_is(f, "uint16") {
            Ok(ScalarKind::U16)
        } else if text_is(f, "uint32") {
            Ok(ScalarKind::U32)
        } else if text_is(f, "uint64") {
            Ok(ScalarKind::U64)
        } else if text_is(f, "uint128") {
            Ok(ScalarKind::U128)
        } else {
            Err(AnalysisError::UnknownScalarFormat)
        },
    }
}

} // verus!
