//! Schema analysis: the structure walker, the member resolver and the array unwrapper.
//!
//! The walker emits at most one record type per object node and then descends into the
//! node's properties; the resolver computes that record type's members without descending,
//! naming the record types that the descent produces; the unwrapper finds the element type
//! of nested arrays and how many array layers it passed.
use crate::model::{
    opt_view, struct_views, AnalysisError, MemberModel, OutputMember, OutputStruct, ScalarKind,
    StructModel, TypeExpr, TypeModel,
};
use crate::scalar::{
    date_kind, extract_date_type, extract_integer_type, extract_number_type, integer_kind,
    number_kind, text_is,
};
use crate::schema::{AdditionalProperties, Items, Properties, Schema, SchemaType};
use crate::text::{capitalize, join, uppercase_first_letter};
use vstd::prelude::*;

verus! {

/// The name of the record type for property `key` under the name stack `stack`.
pub open spec fn child_name(stack: Seq<char>, key: Seq<char>) -> Seq<char> {
    stack + capitalize(key)
}

/// The representation of a scalar node (text, boolean, date, number or integer).
pub open spec fn scalar_spec(s: Schema) -> Result<ScalarKind, AnalysisError> {
    match s.type_ {
        SchemaType::Text => Ok(ScalarKind::Text),
        SchemaType::Boolean => Ok(ScalarKind::Boolean),
        SchemaType::Date => date_kind(opt_view(s.format)),
        SchemaType::Number => number_kind(opt_view(s.format)),
        SchemaType::Integer => integer_kind(opt_view(s.format)),
        _ => Err(AnalysisError::UnknownPropertyType),
    }
}

pub open spec fn scalar_type(r: Result<ScalarKind, AnalysisError>) -> Result<TypeModel, AnalysisError> {
    match r {
        Ok(k) => Ok(TypeModel::Scalar(k)),
        Err(e) => Err(e),
    }
}

/// The element type of the array `node` and the number of array layers passed to reach it,
/// counting from `depth`.
pub open spec fn unwrap_spec(node: Schema, stack: Seq<char>, key: Seq<char>, depth: u8) -> Result<
    (TypeModel, u8),
    AnalysisError,
>
    decreases 256 - depth,
{
    match node.items {
        None => Err(AnalysisError::MissingArrayItems),
        Some(Items::Multiple(_)) => Err(AnalysisError::UnsupportedArrayShape),
        Some(Items::Single(s)) => match s.type_ {
            SchemaType::Object => Ok((TypeModel::Reference(child_name(stack, key)), depth)),
            SchemaType::Array => if depth == 255 {
                Err(AnalysisError::NestingTooDeep)
            } else {
                unwrap_spec(*s, stack, key, (depth + 1) as u8)
            },
            SchemaType::Absent => Err(AnalysisError::UnsupportedArrayElementType),
            SchemaType::Other(_) => Err(AnalysisError::UnsupportedArrayElementType),
            _ => match scalar_spec(*s) {
                Ok(k) => Ok((TypeModel::Scalar(k), depth)),
                Err(e) => Err(e),
            },
        },
    }
}

/// The value type of a map whose values follow `s`.
///
/// For array and object values this is a best-effort guess: the record type that the walk
/// produces under the map field's own name.
pub open spec fn dict_value_spec(s: Schema, stack: Seq<char>, key: Seq<char>) -> Result<
    TypeModel,
    AnalysisError,
> {
    match s.type_ {
        SchemaType::Text => Ok(TypeModel::Scalar(ScalarKind::Text)),
        SchemaType::Array => Ok(TypeModel::Reference(child_name(stack, key))),
        SchemaType::Object => Ok(TypeModel::Reference(child_name(stack, key))),
        SchemaType::Absent => if s.int_or_string {
            Ok(TypeModel::Scalar(ScalarKind::IntOrString))
        } else {
            Err(AnalysisError::UnknownDictValueType)
        },
        SchemaType::Other(x) => Ok(TypeModel::Named(capitalize(x@))),
        _ => scalar_type(scalar_spec(s)),
    }
}

/// The type of the member for property `key` with schema `child`, and the unwrap depth
/// recorded for it when it is an array.
pub open spec fn member_spec(child: Schema, stack: Seq<char>, key: Seq<char>) -> Result<
    (TypeModel, Option<u8>),
    AnalysisError,
> {
    match child.type_ {
        SchemaType::Object => match child.additional_properties {
            Some(AdditionalProperties::Schema(s)) => match dict_value_spec(*s, stack, key) {
                Ok(v) => Ok((TypeModel::Mapping(Box::new(v)), None)),
                Err(e) => Err(e),
            },
            _ => if child.properties is None && child.preserve_unknown_fields {
                Ok((TypeModel::Mapping(Box::new(TypeModel::Scalar(ScalarKind::AnyValue))), None))
            } else {
                Ok((TypeModel::Reference(child_name(stack, key)), None))
            },
        },
        SchemaType::Array => match unwrap_spec(child, stack, key, 1) {
            Ok((t, d)) => Ok((TypeModel::Sequence(Box::new(t)), Some(d))),
            Err(e) => Err(e),
        },
        SchemaType::Absent => if child.int_or_string {
            Ok((TypeModel::Scalar(ScalarKind::IntOrString), None))
        } else {
            Err(AnalysisError::UnknownPropertyType)
        },
        SchemaType::Other(_) => Err(AnalysisError::UnknownPropertyType),
        _ => match scalar_spec(child) {
            Ok(k) => Ok((TypeModel::Scalar(k), None)),
            Err(e) => Err(e),
        },
    }
}

/// `key` is in the required-name set of `owner`.
pub open spec fn required_in(owner: Schema, key: Seq<char>) -> bool {
    exists|j: int| 0 <= j < owner.required@.len() && (#[trigger] owner.required@[j])@ == key
}

/// A member: optional, with its type wrapped, exactly when its key is not required.
pub open spec fn member_model(key: Seq<char>, ty: TypeModel, required: bool, docs: Option<Seq<char>>) -> MemberModel {
    MemberModel {
        name: key,
        ty: if required { ty } else { TypeModel::Optional(Box::new(ty)) },
        optional: !required,
        docs,
    }
}

/// The members of the first `n` properties and the unwrap depths of their arrays, in order.
pub open spec fn resolve_upto(
    props: Seq<(String, Schema)>,
    stack: Seq<char>,
    owner: Schema,
    n: nat,
) -> Result<(Seq<MemberModel>, Seq<(Seq<char>, u8)>), AnalysisError>
    decreases n,
{
    if n == 0 {
        Ok((Seq::empty(), Seq::empty()))
    } else {
        match resolve_upto(props, stack, owner, (n - 1) as nat) {
            Err(e) => Err(e),
            Ok((ms, tab)) => {
                let key = props[n - 1].0@;
                let child = props[n - 1].1;
                match member_spec(child, stack, key) {
                    Err(e) => Err(e),
                    Ok((t, d)) => Ok(
                        (
                            ms.push(member_model(key, t, required_in(owner, key), opt_view(child.description))),
                            match d {
                                Some(d) => tab.push((key, d)),
                                None => tab,
                            },
                        ),
                    ),
                }
            },
        }
    }
}

/// The one record type for `props` under the name stack, with its unwrap table.
pub open spec fn resolve_spec(props: Seq<(String, Schema)>, stack: Seq<char>, level: u8, owner: Schema) -> Result<
    (StructModel, Seq<(Seq<char>, u8)>),
    AnalysisError,
> {
    match resolve_upto(props, stack, owner, props.len()) {
        Err(e) => Err(e),
        Ok((ms, tab)) => Ok(
            (StructModel { name: stack, members: ms, level, docs: opt_view(owner.description) }, tab),
        ),
    }
}

/// The depth recorded first for `key` in an unwrap table.
pub open spec fn lookup_spec(tab: Seq<(Seq<char>, u8)>, key: Seq<char>) -> Option<u8>
    decreases tab.len(),
{
    if tab.len() == 0 {
        None
    } else if tab[0].0 == key {
        Some(tab[0].1)
    } else {
        lookup_spec(tab.drop_first(), key)
    }
}

pub open spec fn table_view(t: Seq<(String, u8)>) -> Seq<(Seq<char>, u8)> {
    t.map_values(|p: (String, u8)| (p.0@, p.1))
}

/// The representation of a scalar node.
fn scalar_kind(s: &Schema) -> (r: Result<ScalarKind, AnalysisError>)
    ensures
        r == scalar_spec(*s),
{
    match &s.type_ {
        SchemaType::Text => Ok(ScalarKind::Text),
        SchemaType::Boolean => Ok(ScalarKind::Boolean),
        SchemaType::Date => extract_date_type(s),
        SchemaType::Number => extract_number_type(s),
        SchemaType::Integer => extract_integer_type(s),
        _ => Err(AnalysisError::UnknownPropertyType),
    }
}

/// Descends through nested array layers of `value` to the first element type that is not an
/// array, and reports how many layers it passed, counting from `level`.
pub fn array_recurse_for_type(value: &Schema, stack: &str, key: &str, level: u8) -> (r: Result<
    (TypeExpr, u8),
    AnalysisError,
>)
    ensures
        match r {
            Ok((t, d)) => unwrap_spec(*value, stack@, key@, level) == Ok::<(TypeModel, u8), AnalysisError>((t@, d)),
            Err(e) => unwrap_spec(*value, stack@, key@, level) == Err::<(TypeModel, u8), AnalysisError>(e),
        },
    decreases 256 - level,
{
    match &value.items {
        None => Err(AnalysisError::MissingArrayItems),
        Some(Items::Multiple(_)) => Err(AnalysisError::UnsupportedArrayShape),
        Some(Items::Single(s)) => match &s.type_ {
            SchemaType::Object => {
                let name = join(stack, uppercase_first_letter(key).as_str());
                Ok((TypeExpr::Reference(name), level))
            },
            SchemaType::Array => if level == 255 {
                Err(AnalysisError::NestingTooDeep)
            } else {
                array_recurse_for_type(s, stack, key, level + 1)
            },
            SchemaType::Absent => Err(AnalysisError::UnsupportedArrayElementType),
            SchemaType::Other(_) => Err(AnalysisError::UnsupportedArrayElementType),
            _ => match scalar_kind(s) {
                Ok(k) => Ok((TypeExpr::Scalar(k), level)),
                Err(e) => Err(e),
            },
        },
    }
}

/// The value type of a map whose values follow `s`.
fn dict_value_type(s: &Schema, stack: &str, key: &str) -> (r: Result<TypeExpr, AnalysisError>)
    ensures
        match r {
            Ok(t) => dict_value_spec(*s, stack@, key@) == Ok::<TypeModel, AnalysisError>(t@),
            Err(e) => dict_value_spec(*s, stack@, key@) == Err::<TypeModel, AnalysisError>(e),
        },
{
    match &s.type_ {
        SchemaType::Text => Ok(TypeExpr::Scalar(ScalarKind::Text)),
        SchemaType::Array => Ok(TypeExpr::Reference(join(stack, uppercase_first_letter(key).as_str()))),
        SchemaType::Object => Ok(TypeExpr::Reference(join(stack, uppercase_first_letter(key).as_str()))),
        SchemaType::Absent => if s.int_or_string {
            Ok(TypeExpr::Scalar(ScalarKind::IntOrString))
        } else {
            Err(AnalysisError::UnknownDictValueType)
        },
        SchemaType::Other(x) => Ok(TypeExpr::Named(uppercase_first_letter(x.as_str()))),
        _ => match scalar_kind(s) {
            Ok(k) => Ok(TypeExpr::Scalar(k)),
            Err(e) => Err(e),
        },
    }
}

/// The type of the member for property `key` with schema `child`, and the unwrap depth to
/// record for it when it is an array.
pub fn member_type(child: &Schema, stack: &str, key: &str) -> (r: Result<
    (TypeExpr, Option<u8>),
    AnalysisError,
>)
    ensures
        match r {
            Ok((t, d)) => member_spec(*child, stack@, key@) == Ok::<(TypeModel, Option<u8>), AnalysisError>((t@, d)),
            Err(e) => member_spec(*child, stack@, key@) == Err::<(TypeModel, Option<u8>), AnalysisError>(e),
        },
{
    match &child.type_ {
        SchemaType::Object => match &child.additional_properties {
            Some(AdditionalProperties::Schema(s)) => match dict_value_type(s, stack, key) {
                Ok(v) => Ok((TypeExpr::Mapping(Box::new(v)), None)),
                Err(e) => Err(e),
            },
            _ => if child.properties.is_none() && child.preserve_unknown_fields {
                let v = TypeExpr::Scalar(ScalarKind::AnyValue);
                assert(v@ == TypeModel::Scalar(ScalarKind::AnyValue));
                Ok((TypeExpr::Mapping(Box::new(v)), None))
            } else {
                Ok((TypeExpr::Reference(join(stack, uppercase_first_letter(key).as_str())), None))
            },
        },
        SchemaType::Array => match array_recurse_for_type(child, stack, key, 1) {
            Ok((t, d)) => Ok((TypeExpr::Sequence(Box::new(t)), Some(d))),
            Err(e) => Err(e),
        },
        SchemaType::Absent => if child.int_or_string {
            Ok((TypeExpr::Scalar(ScalarKind::IntOrString), None))
        } else {
            Err(AnalysisError::UnknownPropertyType)
        },
        SchemaType::Other(_) => Err(AnalysisError::UnknownPropertyType),
        _ => match scalar_kind(child) {
            Ok(k) => Ok((TypeExpr::Scalar(k), None)),
            Err(e) => Err(e),
        },
    }
}

/// Whether `key` is in the required-name set of `owner`.
fn is_required(owner: &Schema, key: &String) -> (r: bool)
    ensures
        r == required_in(*owner, key@),
{
    let mut j: usize = 0;
    while j < owner.required.len()
        invariant
            j <= owner.required@.len(),
            forall|i: int| 0 <= i < j ==> (#[trigger] owner.required@[i])@ != key@,
        decreases owner.required.len() - j,
    {
        if owner.required[j] == *key {
            return true;
        }
        j = j + 1;
    }
    false
}

fn clone_text(o: &Option<String>) -> (r: Option<String>)
    ensures
        opt_view(r) == opt_view(*o),
{
    match o {
        Some(s) => Some(s.clone()),
        None => None,
    }
}

/// An error among the first `m` properties is the error of every longer prefix.
proof fn lemma_resolve_err(props: Seq<(String, Schema)>, stack: Seq<char>, owner: Schema, m: nat, n: nat)
    requires
        m <= n,
        resolve_upto(props, stack, owner, m) is Err,
    ensures
        resolve_upto(props, stack, owner, n) == resolve_upto(props, stack, owner, m),
    decreases n,
{
    if m < n {
        lemma_resolve_err(props, stack, owner, m, (n - 1) as nat);
    }
}

/// Computes the one record type for the properties `props` of the object `schema`, named by
/// the name stack, together with the unwrap depth of each array property.
pub fn analyze_object_properties(props: &Properties, stack: &str, level: u8, schema: &Schema) -> (r:
    Result<(OutputStruct, Vec<(String, u8)>), AnalysisError>)
    ensures
        match r {
            Ok((st, tab)) => resolve_spec(props@, stack@, level, *schema) == Ok::<
                (StructModel, Seq<(Seq<char>, u8)>),
                AnalysisError,
            >((st@, table_view(tab@))),
            Err(e) => resolve_spec(props@, stack@, level, *schema) == Err::<
                (StructModel, Seq<(Seq<char>, u8)>),
                AnalysisError,
            >(e),
        },
{
    let mut members: Vec<OutputMember> = Vec::new();
    let mut tab: Vec<(String, u8)> = Vec::new();
    let n = props.len();
    let mut i: usize = 0;
    assert(members@.map_values(|m: OutputMember| m@) =~= Seq::<MemberModel>::empty());
    assert(table_view(tab@) =~= Seq::<(Seq<char>, u8)>::empty());
    while i < n
        invariant
            n == props@.len(),
            i <= n,
            resolve_upto(props@, stack@, *schema, i as nat) == Ok::<
                (Seq<MemberModel>, Seq<(Seq<char>, u8)>),
                AnalysisError,
            >((members@.map_values(|m: OutputMember| m@), table_view(tab@))),
        decreases n - i,
    {
        let (key, child) = props.entry(i);
        match member_type(child, stack, key.as_str()) {
            Err(e) => {
                proof {
                    lemma_resolve_err(props@, stack@, *schema, (i + 1) as nat, n as nat);
                }
                return Err(e);
            },
            Ok((t, d)) => {
                let ghost tm = t@;
                let req = is_required(schema, key);
                let ty = if req {
                    t
                } else {
                    TypeExpr::Optional(Box::new(t))
                };
                let m = OutputMember {
                    name: key.clone(),
                    type_: ty,
                    optional: !req,
                    docs: clone_text(&child.description),
                };
                let ghost before_m = members@;
                let ghost before_t = tab@;
                assert(m@ == member_model(key@, tm, req, opt_view(child.description)));
                members.push(m);
                assert(members@.map_values(|m: OutputMember| m@) == before_m.map_values(
                    |m: OutputMember| m@,
                ).push(m@));
                match d {
                    Some(d) => {
                        tab.push((key.clone(), d));
                        assert(table_view(tab@) == table_view(before_t).push((key@, d)));
                    },
                    None => {},
                }
            },
        }
        i = i + 1;
    }
    let st = OutputStruct {
        name: stack.to_owned(),
        members,
        level,
        docs: clone_text(&schema.description),
    };
    Ok((st, tab))
}

/// The properties of a node, empty where none are declared.
pub open spec fn props_of(node: Schema) -> Seq<(String, Schema)> {
    match node.properties {
        Some(p) => p@,
        None => Seq::empty(),
    }
}

/// The envelope keys of a document root, which get members but no descent.
pub open spec fn reserved_key(key: Seq<char>) -> bool {
    key == "metadata"@ || key == "apiVersion"@ || key == "kind"@
}

/// The schema reached from `node` by `d` hops through single-schema `items`.
pub open spec fn replay_spec(node: Schema, d: u8) -> Result<Schema, AnalysisError>
    decreases d,
{
    if d == 0 {
        Ok(node)
    } else {
        match node.items {
            Some(Items::Single(s)) => replay_spec(*s, (d - 1) as u8),
            Some(Items::Multiple(_)) => Err(AnalysisError::UnsupportedArrayShape),
            None => Err(AnalysisError::MissingArrayItems),
        }
    }
}

/// What the walker emits for `node` itself before descending: `None` where it stops at the
/// node (a pure dictionary, or an empty object that preserves unknown fields), else the
/// record types emitted and the unwrap table for the descent. A value schema that declares
/// neither a type nor properties makes no dictionary: the node is treated as a plain object.
pub open spec fn emit_spec(node: Schema, stack: Seq<char>, level: u8) -> Result<
    Option<(Seq<StructModel>, Seq<(Seq<char>, u8)>)>,
    AnalysisError,
> {
    if node.type_ is Object {
        match node.additional_properties {
            Some(AdditionalProperties::Schema(s)) => match s.properties {
                Some(ep) => match resolve_spec(ep@, stack, level, node) {
                    Ok((st, tab)) => Ok(Some((seq![st], tab))),
                    Err(e) => Err(e),
                },
                None => if s.type_ is Absent {
                    emit_object_spec(node, stack, level)
                } else {
                    Ok(None)
                },
            },
            _ => emit_object_spec(node, stack, level),
        }
    } else {
        Ok(Some((Seq::empty(), Seq::empty())))
    }
}

/// What the walker emits for an object node that is no dictionary: nothing where its
/// properties are empty and it preserves unknown fields, else the resolver's record type.
pub open spec fn emit_object_spec(node: Schema, stack: Seq<char>, level: u8) -> Result<
    Option<(Seq<StructModel>, Seq<(Seq<char>, u8)>)>,
    AnalysisError,
> {
    if props_of(node).len() == 0 && node.preserve_unknown_fields {
        Ok(None)
    } else {
        match resolve_spec(props_of(node), stack, level, node) {
            Ok((st, tab)) => Ok(Some((seq![st], tab))),
            Err(e) => Err(e),
        }
    }
}

/// What the walk of `node` appends, in order, and the error that stopped it, if any: on an
/// error the output is what had been appended before the failing node was reached.
pub open spec fn walk_spec(node: Schema, stack: Seq<char>, level: u8) -> (
    Seq<StructModel>,
    Option<AnalysisError>,
)
    decreases 256 - level, 1int, 0int,
{
    match emit_spec(node, stack, level) {
        Err(e) => (Seq::empty(), Some(e)),
        Ok(None) => (Seq::empty(), None),
        Ok(Some((own, tab))) => {
            let (c, err) = children_spec(props_of(node), tab, stack, level, props_of(node).len());
            (own + c, err)
        },
    }
}

/// What descending into the first `n` properties appends, and the error that stopped it.
pub open spec fn children_spec(
    props: Seq<(String, Schema)>,
    tab: Seq<(Seq<char>, u8)>,
    stack: Seq<char>,
    level: u8,
    n: nat,
) -> (Seq<StructModel>, Option<AnalysisError>)
    decreases 256 - level, 0int, n,
{
    if n == 0 {
        (Seq::empty(), None)
    } else {
        let (prev, err) = children_spec(props, tab, stack, level, (n - 1) as nat);
        if err is Some {
            (prev, err)
        } else {
            let (c, e) = child_spec(props[n - 1].0@, props[n - 1].1, tab, stack, level);
            (prev + c, e)
        }
    }
}

/// What descending into one property `key` with schema `child` appends, and the error that
/// stopped it.
pub open spec fn child_spec(
    key: Seq<char>,
    child: Schema,
    tab: Seq<(Seq<char>, u8)>,
    stack: Seq<char>,
    level: u8,
) -> (Seq<StructModel>, Option<AnalysisError>)
    decreases 256 - level, 0int, 0int,
{
    let next = child_name(stack, key);
    if level == 0 && reserved_key(key) {
        (Seq::empty(), None)
    } else {
        match child.type_ {
            SchemaType::Object => if level == 255 {
                (Seq::empty(), Some(AnalysisError::NestingTooDeep))
            } else {
                match child.additional_properties {
                    Some(AdditionalProperties::Schema(s)) => match s.items {
                        Some(Items::Single(it)) => if s.type_ is Array {
                            walk_spec(*it, next, (level + 1) as u8)
                        } else {
                            walk_spec(child, next, (level + 1) as u8)
                        },
                        _ => walk_spec(child, next, (level + 1) as u8),
                    },
                    _ => walk_spec(child, next, (level + 1) as u8),
                }
            },
            SchemaType::Array => match lookup_spec(tab, key) {
                None => (Seq::empty(), None),
                Some(d) => if level == 255 {
                    (Seq::empty(), Some(AnalysisError::NestingTooDeep))
                } else {
                    match replay_spec(child, d) {
                        Ok(inner) => walk_spec(inner, next, (level + 1) as u8),
                        Err(e) => (Seq::empty(), Some(e)),
                    }
                },
            },
            _ => (Seq::empty(), None),
        }
    }
}

/// The result that a walk with outcome `w` returns.
pub open spec fn outcome(w: (Seq<StructModel>, Option<AnalysisError>)) -> Result<(), AnalysisError> {
    match w.1 {
        None => Ok(()),
        Some(e) => Err(e),
    }
}

/// The depth recorded first for `key` in the unwrap table `tab`.
fn lookup_depth(tab: &Vec<(String, u8)>, key: &String) -> (r: Option<u8>)
    ensures
        r == lookup_spec(table_view(tab@), key@),
{
    let ghost t = table_view(tab@);
    assert(t.subrange(0, t.len() as int) == t);
    let mut i: usize = 0;
    while i < tab.len()
        invariant
            i <= tab@.len(),
            t == table_view(tab@),
            lookup_spec(t, key@) == lookup_spec(t.subrange(i as int, t.len() as int), key@),
        decreases tab.len() - i,
    {
        let ghost rest = t.subrange(i as int, t.len() as int);
        assert(rest[0] == t[i as int]);
        if tab[i].0 == *key {
            return Some(tab[i].1);
        }
        assert(rest.drop_first() == t.subrange(i + 1, t.len() as int));
        i = i + 1;
    }
    None
}

/// The schema reached from `node` by `d` hops through single-schema `items`.
fn replay(node: &Schema, d: u8) -> (r: Result<&Schema, AnalysisError>)
    ensures
        match r {
            Ok(s) => replay_spec(*node, d) == Ok::<Schema, AnalysisError>(*s),
            Err(e) => replay_spec(*node, d) == Err::<Schema, AnalysisError>(e),
        },
{
    let mut inner: &Schema = node;
    let mut j: u8 = 0;
    while j < d
        invariant
            j <= d,
            replay_spec(*node, d) == replay_spec(*inner, (d - j) as u8),
        decreases d - j,
    {
        match &inner.items {
            Some(Items::Single(s)) => {
                inner = &**s;
            },
            Some(Items::Multiple(_)) => {
                return Err(AnalysisError::UnsupportedArrayShape);
            },
            None => {
                return Err(AnalysisError::MissingArrayItems);
            },
        }
        j = j + 1;
    }
    Ok(inner)
}

/// Once the descent into the first `m` properties has failed, longer prefixes append
/// nothing more and keep the error.
proof fn lemma_children_err(
    props: Seq<(String, Schema)>,
    tab: Seq<(Seq<char>, u8)>,
    stack: Seq<char>,
    level: u8,
    m: nat,
    n: nat,
)
    requires
        m <= n,
        children_spec(props, tab, stack, level, m).1 is Some,
    ensures
        children_spec(props, tab, stack, level, n) == children_spec(props, tab, stack, level, m),
    decreases n,
{
    if m < n {
        lemma_children_err(props, tab, stack, level, m, (n - 1) as nat);
    }
}

/// `after` extends `before`.
pub open spec fn extends(before: Seq<OutputStruct>, after: Seq<OutputStruct>) -> bool {
    before.len() <= after.len() && forall|i: int| 0 <= i < before.len() ==> after[i] == before[i]
}

/// Scans `schema` for record types and their members, and descends into its properties to
/// find all record types below it, appending them to `results` in the order found.
///
/// `current` is the key that led to `schema` (informational only); `stack` is the name stack,
/// the name of the record type for `schema` itself; `level` is the nesting depth (the
/// document root is 0). On an error `results` holds what was appended before the failing
/// node was reached.
pub fn analyze(
    schema: &Schema,
    current: &str,
    stack: &str,
    level: u8,
    results: &mut Vec<OutputStruct>,
) -> (r: Result<(), AnalysisError>)
    ensures
        extends(old(results)@, final(results)@),
        struct_views(final(results)@) == struct_views(old(results)@) + walk_spec(
            *schema,
            stack@,
            level,
        ).0,
        r == outcome(walk_spec(*schema, stack@, level)),
    decreases 256 - level, 1int,
{
    let empty = Properties::new();
    let props: &Properties = match &schema.properties {
        Some(p) => p,
        None => &empty,
    };
    assert(props@ == props_of(*schema));
    let ghost start = results@;
    let ghost mut own: Seq<StructModel> = Seq::empty();
    let mut tab: Vec<(String, u8)> = Vec::new();
    assert(table_view(tab@) =~= Seq::<(Seq<char>, u8)>::empty());
    if matches!(schema.type_, SchemaType::Object) {
        let mut plain = true;
        match &schema.additional_properties {
            Some(AdditionalProperties::Schema(s)) => match &s.properties {
                Some(ep) => {
                    plain = false;
                    match analyze_object_properties(ep, stack, level, schema) {
                        Ok((st, t)) => {
                            proof {
                                own = seq![st@];
                            }
                            results.push(st);
                            tab = t;
                            assert(struct_views(results@) =~= struct_views(start) + own);
                        },
                        Err(e) => {
                            return Err(e);
                        },
                    }
                },
                None => {
                    if !matches!(s.type_, SchemaType::Absent) {
                        return Ok(());
                    }
                },
            },
            _ => {},
        }
        if plain {
            assert(emit_spec(*schema, stack@, level) == emit_object_spec(*schema, stack@, level));
            if props.len() == 0 && schema.preserve_unknown_fields {
                return Ok(());
            }
            match analyze_object_properties(props, stack, level, schema) {
                Ok((st, t)) => {
                    proof {
                        own = seq![st@];
                    }
                    results.push(st);
                    tab = t;
                    assert(struct_views(results@) =~= struct_views(start) + own);
                },
                Err(e) => {
                    return Err(e);
                },
            }
        }
    }
    assert(emit_spec(*schema, stack@, level) == Ok::<
        Option<(Seq<StructModel>, Seq<(Seq<char>, u8)>)>,
        AnalysisError,
    >(Some((own, table_view(tab@)))));
    assert(struct_views(results@) =~= struct_views(start) + own);
    let ghost base = results@;
    let n = props.len();
    let mut i: usize = 0;
    assert(struct_views(results@) =~= struct_views(start) + own + Seq::<StructModel>::empty());
    while i < n
        invariant
            n == props@.len(),
            i <= n,
            props@ == props_of(*schema),
            start == old(results)@,
            emit_spec(*schema, stack@, level) == Ok::<
                Option<(Seq<StructModel>, Seq<(Seq<char>, u8)>)>,
                AnalysisError,
            >(Some((own, table_view(tab@)))),
            extends(start, base),
            extends(base, results@),
            struct_views(base) == struct_views(start) + own,
            children_spec(props@, table_view(tab@), stack@, level, i as nat).1 is None,
            struct_views(results@) == struct_views(start) + own + children_spec(
                props@,
                table_view(tab@),
                stack@,
                level,
                i as nat,
            ).0,
        decreases n - i,
    {
        let (key, child) = props.entry(i);
        let ghost mid = results@;
        let res = analyze_child(key, child, &tab, stack, level, results);
        match res {
            Err(e) => {
                proof {
                    lemma_children_err(props@, table_view(tab@), stack@, level, (i + 1) as nat, n as nat);
                    lemma_extends_trans(start, base, mid);
                    lemma_extends_trans(start, mid, results@);
                }
                return Err(e);
            },
            Ok(()) => {
                proof {
                    lemma_extends_trans(base, mid, results@);
                }
            },
        }
        i = i + 1;
    }
    proof {
        lemma_extends_trans(start, base, results@);
    }
    Ok(())
}

proof fn lemma_extends_trans(a: Seq<OutputStruct>, b: Seq<OutputStruct>, c: Seq<OutputStruct>)
    requires
        extends(a, b),
        extends(b, c),
    ensures
        extends(a, c),
{
}

/// Descends into one property `key` with schema `child` of an object analysed under
/// `stack`, using the unwrap table `tab` of that object.
fn analyze_child(
    key: &String,
    child: &Schema,
    tab: &Vec<(String, u8)>,
    stack: &str,
    level: u8,
    results: &mut Vec<OutputStruct>,
) -> (r: Result<(), AnalysisError>)
    ensures
        extends(old(results)@, final(results)@),
        struct_views(final(results)@) == struct_views(old(results)@) + child_spec(
            key@,
            *child,
            table_view(tab@),
            stack@,
            level,
        ).0,
        r == outcome(child_spec(key@, *child, table_view(tab@), stack@, level)),
    decreases 256 - level, 0int,
{
    if level == 0 && (text_is(key, "metadata") || text_is(key, "apiVersion") || text_is(key, "kind")) {
        assert(struct_views(results@) == struct_views(results@) + Seq::<StructModel>::empty());
        return Ok(());
    }
    let next_key = uppercase_first_letter(key.as_str());
    let next_stack = join(stack, next_key.as_str());
    match &child.type_ {
        SchemaType::Object => {
            if level == 255 {
                return Err(AnalysisError::NestingTooDeep);
            }
            match &child.additional_properties {
                Some(AdditionalProperties::Schema(s)) => match &s.items {
                    Some(Items::Single(it)) => if matches!(s.type_, SchemaType::Array) {
                        analyze(it, next_key.as_str(), next_stack.as_str(), level + 1, results)
                    } else {
                        analyze(child, next_key.as_str(), next_stack.as_str(), level + 1, results)
                    },
                    _ => analyze(child, next_key.as_str(), next_stack.as_str(), level + 1, results),
                },
                _ => analyze(child, next_key.as_str(), next_stack.as_str(), level + 1, results),
            }
        },
        SchemaType::Array => match lookup_depth(tab, key) {
            None => {
                assert(struct_views(results@) == struct_views(results@) + Seq::<StructModel>::empty());
                Ok(())
            },
            Some(d) => {
                if level == 255 {
                    return Err(AnalysisError::NestingTooDeep);
                }
                match replay(child, d) {
                    Ok(inner) => analyze(inner, next_key.as_str(), next_stack.as_str(), level + 1, results),
                    Err(e) => Err(e),
                }
            },
        },
        _ => {
            assert(struct_views(results@) == struct_views(results@) + Seq::<StructModel>::empty());
            Ok(())
        },
    }
}

} // verus!
