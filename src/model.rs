//! The output model: type expressions, members, record types and errors.
use crate::text::join;
use vstd::prelude::*;

verus! {

/// A concrete scalar representation.
#[derive(Debug, Clone, Copy, PartialEq, Eq, Structural)]
pub enum ScalarKind {
    Text,
    Boolean,
    /// A calendar date.
    Date,
    /// A timestamp with a zone.
    DateTime,
    F32,
    F64,
    I8,
    I16,
    I32,
    I64,
    I128,
    U8,
    U16,
    U32,
    U64,
    U128,
    /// Accepts either an integer or a string at runtime.
    IntOrString,
    /// An untyped generic value.
    AnyValue,
}

/// The type of a member.
#[derive(Debug)]
pub enum TypeExpr {
    Scalar(ScalarKind),
    /// A best-effort guess named after an unrecognised type keyword of a map's values.
    Named(String),
    /// A record type produced elsewhere in the analysis, by name.
    Reference(String),
    Sequence(Box<TypeExpr>),
    /// A map from text keys to values of the inner type.
    Mapping(Box<TypeExpr>),
    Optional(Box<TypeExpr>),
}

/// The mathematical form of a `TypeExpr`.
pub enum TypeModel {
    Scalar(ScalarKind),
    Named(Seq<char>),
    Reference(Seq<char>),
    Sequence(Box<TypeModel>),
    Mapping(Box<TypeModel>),
    Optional(Box<TypeModel>),
}

pub open spec fn type_model(t: TypeExpr) -> TypeModel
    decreases t,
{
    match t {
        TypeExpr::Scalar(k) => TypeModel::Scalar(k),
        TypeExpr::Named(n) => TypeModel::Named(n@),
        TypeExpr::Reference(n) => TypeModel::Reference(n@),
        TypeExpr::Sequence(b) => TypeModel::Sequence(Box::new(type_model(*b))),
        TypeExpr::Mapping(b) => TypeModel::Mapping(Box::new(type_model(*b))),
        TypeExpr::Optional(b) => TypeModel::Optional(Box::new(type_model(*b))),
    }
}

impl View for TypeExpr {
    type V = TypeModel;

    open spec fn view(&self) -> TypeModel {
        type_model(*self)
    }
}

/// One member of a record type.
#[derive(Debug)]
pub struct OutputMember {
    pub name: String,
    pub type_: TypeExpr,
    /// The member may be absent: a renderer omits it from serialised output when it is.
    pub optional: bool,
    pub docs: Option<String>,
}

/// One record type.
#[derive(Debug)]
pub struct OutputStruct {
    pub name: String,
    pub members: Vec<OutputMember>,
    /// Nesting depth from the document root (the root is 0).
    pub level: u8,
    pub docs: Option<String>,
}

pub struct MemberModel {
    pub name: Seq<char>,
    pub ty: TypeModel,
    pub optional: bool,
    pub docs: Option<Seq<char>>,
}

pub struct StructModel {
    pub name: Seq<char>,
    pub members: Seq<MemberModel>,
    pub level: u8,
    pub docs: Option<Seq<char>>,
}

pub open spec fn opt_view(o: Option<String>) -> Option<Seq<char>> {
    match o {
        Some(s) => Some(s@),
        None => None,
    }
}

impl View for OutputMember {
    type V = MemberModel;

    open spec fn view(&self) -> MemberModel {
        MemberModel {
            name: self.name@,
            ty: self.type_@,
            optional: self.optional,
            docs: opt_view(self.docs),
        }
    }
}

impl View for OutputStruct {
    type V = StructModel;

    open spec fn view(&self) -> StructModel {
        StructModel {
            name: self.name@,
            members: self.members@.map_values(|m: OutputMember| m@),
            level: self.level,
            docs: opt_view(self.docs),
        }
    }
}

/// The models of a sequence of record types.
pub open spec fn struct_views(s: Seq<OutputStruct>) -> Seq<StructModel> {
    s.map_values(|x: OutputStruct| x@)
}

/// Why an analysis stopped.
#[derive(Debug, Clone, Copy, PartialEq, Eq, Structural)]
pub enum AnalysisError {
    /// An array's `items` holds several alternative schemas.
    UnsupportedArrayShape,
    /// An array declares no `items`.
    MissingArrayItems,
    /// The innermost element of an array has an unrecognised type.
    UnsupportedArrayElementType,
    /// A `format` tag outside the recognised set for a date, number or integer.
    UnknownScalarFormat,
    /// A property declares no type and no int-or-string marker, or an unrecognised type.
    UnknownPropertyType,
    /// A map's value schema declares no type and no int-or-string marker.
    UnknownDictValueType,
    /// Nesting deeper than the largest level a `u8` can count.
    NestingTooDeep,
}

/// The type refers to the int-or-string scalar somewhere inside it.
pub open spec fn mentions_int_or_string(t: TypeModel) -> bool
    decreases t,
{
    match t {
        TypeModel::Scalar(k) => k == ScalarKind::IntOrString,
        TypeModel::Named(_) => false,
        TypeModel::Reference(_) => false,
        TypeModel::Sequence(b) => mentions_int_or_string(*b),
        TypeModel::Mapping(b) => mentions_int_or_string(*b),
        TypeModel::Optional(b) => mentions_int_or_string(*b),
    }
}

/// The Rust spelling of a scalar kind.
pub open spec fn scalar_text(k: ScalarKind) -> Seq<char> {
    match k {
        ScalarKind::Text => "String"@,
        ScalarKind::Boolean => "bool"@,
        ScalarKind::Date => "NaiveDate"@,
        ScalarKind::DateTime => "DateTime<Utc>"@,
        ScalarKind::F32 => "f32"@,
        ScalarKind::F64 => "f64"@,
        ScalarKind::I8 => "i8"@,
        ScalarKind::I16 => "i16"@,
        ScalarKind::I32 => "i32"@,
        ScalarKind::I64 => "i64"@,
        ScalarKind::I128 => "i128"@,
        ScalarKind::U8 => "u8"@,
        ScalarKind::U16 => "u16"@,
        ScalarKind::U32 => "u32"@,
        ScalarKind::U64 => "u64"@,
        ScalarKind::U128 => "u128"@,
        ScalarKind::IntOrString => "IntOrString"@,
        ScalarKind::AnyValue => "serde_json::Value"@,
    }
}

/// The Rust spelling of a type expression.
pub open spec fn rust_type_text(t: TypeModel) -> Seq<char>
    decreases t,
{
    match t {
        TypeModel::Scalar(k) => scalar_text(k),
        TypeModel::Named(n) => n,
        TypeModel::Reference(n) => n,
        TypeModel::Sequence(b) => "Vec<"@ + rust_type_text(*b) + ">"@,
        TypeModel::Mapping(b) => "BTreeMap<String, "@ + rust_type_text(*b) + ">"@,
        TypeModel::Optional(b) => "Option<"@ + rust_type_text(*b) + ">"@,
    }
}

impl ScalarKind {
    /// The Rust spelling of this scalar kind.
    pub fn rust_name(&self) -> (r: &'static str)
        ensures
            r@ == scalar_text(*self),
    {
        match self {
            ScalarKind::Text => "String",
            ScalarKind::Boolean => "bool",
            ScalarKind::Date => "NaiveDate",
            ScalarKind::DateTime => "DateTime<Utc>",
            ScalarKind::F32 => "f32",
            ScalarKind::F64 => "f64",
            ScalarKind::I8 => "i8",
            ScalarKind::I16 => "i16",
            ScalarKind::I32 => "i32",
            ScalarKind::I64 => "i64",
            ScalarKind::I128 => "i128",
            ScalarKind::U8 => "u8",
            ScalarKind::U16 => "u16",
            ScalarKind::U32 => "u32",
            ScalarKind::U64 => "u64",
            ScalarKind::U128 => "u128",
            ScalarKind::IntOrString => "IntOrString",
            ScalarKind::AnyValue => "serde_json::Value",
        }
    }
}

/// `inner` between `before` and `after`.
fn wrap(before: &str, inner: String, after: &str) -> (r: String)
    ensures
        r@ == before@ + inner@ + after@,
{
    let a = join(before, inner.as_str());
    join(a.as_str(), after)
}

impl TypeExpr {
    /// The Rust spelling of this type, as a code-emission step would write it.
    pub fn rust_type(&self) -> (r: String)
        ensures
            r@ == rust_type_text(self@),
        decreases self,
    {
        match self {
            TypeExpr::Scalar(k) => k.rust_name().to_owned(),
            TypeExpr::Named(n) => n.clone(),
            TypeExpr::Reference(n) => n.clone(),
            TypeExpr::Sequence(b) => wrap("Vec<", b.rust_type(), ">"),
            TypeExpr::Mapping(b) => wrap("BTreeMap<String, ", b.rust_type(), ">"),
            TypeExpr::Optional(b) => wrap("Option<", b.rust_type(), ">"),
        }
    }

    /// Whether the type refers to the int-or-string scalar anywhere inside it.
    pub fn uses_int_or_string(&self) -> (r: bool)
        ensures
            r == mentions_int_or_string(self@),
        decreases self,
    {
        match self {
            TypeExpr::Scalar(k) => *k == ScalarKind::IntOrString,
            TypeExpr::Named(_) => false,
            TypeExpr::Reference(_) => false,
            TypeExpr::Sequence(b) => b.uses_int_or_string(),
            TypeExpr::Mapping(b) => b.uses_int_or_string(),
            TypeExpr::Optional(b) => b.uses_int_or_string(),
        }
    }
}

impl OutputStruct {
    /// Whether some member's type refers to the int-or-string scalar.
    pub fn uses_int_or_string(&self) -> (r: bool)
        ensures
            r == exists|i: int|
                0 <= i < self.members@.len() && mentions_int_or_string(
                    #[trigger] self.members@[i].type_@,
                ),
    {
        let mut i: usize = 0;
        while i < self.members.len()
            invariant
                i <= self.members@.len(),
                forall|j: int| 0 <= j < i ==> !mentions_int_or_string(#[trigger] self.members@[j].type_@),
            decreases self.members.len() - i,
        {
            if self.members[i].type_.uses_int_or_string() {
                return true;
            }
            i = i + 1;
        }
        false
    }
}

} // verus!
