//! What a compiled statement returns: the public descriptor of each result
//! column, derived from the Catalog and from the shape of each projection.
use vstd::prelude::*;
use crate::catalog::Catalog;
use crate::catalog_manifest::type_named;
use crate::names::{law_type_names_read_back, logical_type_text};
use crate::emit::EmitError;
use crate::execution::ResultColumnDescriptor;
use crate::identity::{
    ConstraintScalar, JsonSchemaType, JsonValueSchema, LogicalType, LogicalValue, ResourceId,
    ResultName, ValueConstraints, ValueDescriptor, ValueRepresentation,
};
use crate::ir::{
    BoundExpr, BoundJsonCollectionSelect, BoundProjection, BoundSelect, BoundStatement, JoinKind,
    ScalarFunction,
};
use crate::json_path::{
    JsonTypeSet, all_branches, all_schemas, branches, collect_json_schemas, collect_json_types, derefs,
    has_type, json_path, json_schema_candidates, schema_branches, walk,
};
use crate::text_map::TextMap;
use crate::text::{decimal, decimal_text, owned};

verus! {

/// `a` holds what `b` holds: the same schema, texts compared by content.
pub open spec fn same_schema(a: JsonValueSchema, b: JsonValueSchema) -> bool
    decreases b,
{
    &&& a.types@ == b.types@
    &&& a.properties@.len() == b.properties@.len()
    &&& forall|i: int|
        0 <= i < b.properties@.len() ==> (#[trigger] a.properties@[i]).0 == b.properties@[i].0
            && same_schema(a.properties@[i].1, b.properties@[i].1)
    &&& match b.items {
        Some(x) => match a.items {
            Some(y) => same_schema(*y, *x),
            None => false,
        },
        None => a.items is None,
    }
    &&& a.required@ == b.required@
    &&& a.additional_properties == b.additional_properties
    &&& a.any_of@.len() == b.any_of@.len()
    &&& forall|i: int| 0 <= i < b.any_of@.len() ==> same_schema(#[trigger] a.any_of@[i], b.any_of@[i])
}

fn copy_types(v: &Vec<JsonSchemaType>) -> (r: Vec<JsonSchemaType>)
    ensures
        r@ == v@,
{
    let mut out: Vec<JsonSchemaType> = Vec::new();
    let mut i: usize = 0;
    while i < v.len()
        invariant
            i <= v@.len(),
            out@ == v@.take(i as int),
        decreases v.len() - i,
    {
        out.push(v[i]);
        assert(v@.take(i + 1) =~= v@.take(i as int).push(v@[i as int]));
        i = i + 1;
    }
    assert(v@.take(i as int) =~= v@);
    out
}

fn copy_texts(v: &Vec<String>) -> (r: Vec<String>)
    ensures
        r@ == v@,
{
    let mut out: Vec<String> = Vec::new();
    let mut i: usize = 0;
    while i < v.len()
        invariant
            i <= v@.len(),
            out@ == v@.take(i as int),
        decreases v.len() - i,
    {
        out.push(v[i].clone());
        assert(v@.take(i + 1) =~= v@.take(i as int).push(v@[i as int]));
        i = i + 1;
    }
    assert(v@.take(i as int) =~= v@);
    out
}

/// A copy of a schema.
pub fn copy_schema(s: &JsonValueSchema) -> (r: JsonValueSchema)
    ensures
        same_schema(r, *s),
    decreases s,
{
    let mut properties: Vec<(String, JsonValueSchema)> = Vec::new();
    let mut i: usize = 0;
    while i < s.properties.len()
        invariant
            i <= s.properties@.len(),
            properties@.len() == i,
            forall|j: int|
                0 <= j < i ==> (#[trigger] properties@[j]).0 == s.properties@[j].0 && same_schema(
                    properties@[j].1,
                    s.properties@[j].1,
                ),
        decreases s.properties.len() - i,
    {
        proof {
            assert(decreases_to!(s => s.properties@[i as int].1));
        }
        let copy = copy_schema(&s.properties[i].1);
        properties.push((s.properties[i].0.clone(), copy));
        i = i + 1;
    }
    let items = match &s.items {
        Some(x) => Some(Box::new(copy_schema(&**x))),
        None => None,
    };
    let mut any_of: Vec<JsonValueSchema> = Vec::new();
    let mut k: usize = 0;
    while k < s.any_of.len()
        invariant
            k <= s.any_of@.len(),
            any_of@.len() == k,
            forall|j: int| 0 <= j < k ==> same_schema(#[trigger] any_of@[j], s.any_of@[j]),
        decreases s.any_of.len() - k,
    {
        proof {
            assert(decreases_to!(s => s.any_of@[k as int]));
        }
        any_of.push(copy_schema(&s.any_of[k]));
        k = k + 1;
    }
    JsonValueSchema {
        types: copy_types(&s.types),
        properties,
        items,
        required: copy_texts(&s.required),
        additional_properties: s.additional_properties,
        any_of,
    }
}

fn copy_text(t: &Option<String>) -> (r: Option<String>)
    ensures
        r == *t,
{
    match t {
        Some(x) => Some(x.clone()),
        None => None,
    }
}

fn copy_scalars(v: &Vec<ConstraintScalar>) -> (r: Vec<ConstraintScalar>)
    ensures
        r@ == v@,
{
    let mut out: Vec<ConstraintScalar> = Vec::new();
    let mut i: usize = 0;
    while i < v.len()
        invariant
            i <= v@.len(),
            out@ == v@.take(i as int),
        decreases v.len() - i,
    {
        let c = match &v[i] {
            ConstraintScalar::String(s) => ConstraintScalar::String(s.clone()),
            ConstraintScalar::Number(s) => ConstraintScalar::Number(s.clone()),
            ConstraintScalar::Boolean(b) => ConstraintScalar::Boolean(*b),
        };
        out.push(c);
        assert(v@.take(i + 1) =~= v@.take(i as int).push(v@[i as int]));
        i = i + 1;
    }
    assert(v@.take(i as int) =~= v@);
    out
}

/// `a` holds the constraints that `b` holds.
pub open spec fn same_constraints(a: ValueConstraints, b: ValueConstraints) -> bool {
    &&& a.allowed@ == b.allowed@
    &&& a.minimum == b.minimum
    &&& a.maximum == b.maximum
    &&& a.min_length == b.min_length
    &&& a.max_length == b.max_length
    &&& a.pattern == b.pattern
}

/// `a` describes values as `b` does.
pub open spec fn same_descriptor(a: ValueDescriptor, b: ValueDescriptor) -> bool {
    &&& a.logical_type == b.logical_type
    &&& a.representation == b.representation
    &&& a.nullable == b.nullable
    &&& a.format == b.format
    &&& a.storage == b.storage
    &&& match b.constraints {
        Some(c) => match a.constraints {
            Some(d) => same_constraints(d, c),
            None => false,
        },
        None => a.constraints is None,
    }
    &&& match b.json_schema {
        Some(c) => match a.json_schema {
            Some(d) => same_schema(d, c),
            None => false,
        },
        None => a.json_schema is None,
    }
}

/// A copy of a value descriptor.
pub fn copy_descriptor(d: &ValueDescriptor) -> (r: ValueDescriptor)
    ensures
        same_descriptor(r, *d),
{
    let constraints = match &d.constraints {
        Some(c) => Some(
            ValueConstraints {
                allowed: copy_scalars(&c.allowed),
                minimum: copy_text(&c.minimum),
                maximum: copy_text(&c.maximum),
                min_length: c.min_length,
                max_length: c.max_length,
                pattern: copy_text(&c.pattern),
            },
        ),
        None => None,
    };
    let json_schema = match &d.json_schema {
        Some(s) => Some(copy_schema(s)),
        None => None,
    };
    ValueDescriptor {
        logical_type: d.logical_type,
        representation: d.representation,
        nullable: d.nullable,
        format: copy_text(&d.format),
        storage: d.storage,
        constraints,
        json_schema,
    }
}

/// Why a result column cannot be described.
#[derive(Clone, Copy, Debug, PartialEq, Eq, Structural)]
pub enum Fault {
    UnknownResource,
    UnknownColumn,
    UnsupportedStatement,
    Arity,
    FunctionArgument,
    OutputShape,
    NotDirectColumn,
    DocumentProvenance,
    SchemaUnavailable,
    PathValue,
    PathUntyped,
    PathSyntax,
    OutsideSchema,
    NoValueType,
    NoElementSchema,
}

/// Error `e` reports fault `f`.
pub open spec fn raised(e: EmitError, f: Fault) -> bool {
    match f {
        Fault::UnknownResource => e is UnknownResource,
        Fault::UnknownColumn => e is UnknownColumn,
        Fault::UnsupportedStatement => e is UnsupportedStatement,
        Fault::Arity => e matches EmitError::InvariantViolation(m) && m@ == "registered function arity"@,
        Fault::FunctionArgument => e matches EmitError::InvariantViolation(m) && m@
            == "registered function argument"@,
        Fault::OutputShape => e matches EmitError::InvariantViolation(m) && m@
            == "projection is not a permitted output shape"@,
        Fault::NotDirectColumn => e matches EmitError::InvariantViolation(m) && m@
            == "conditional output is not a direct column"@,
        Fault::DocumentProvenance => e matches EmitError::InvariantViolation(m) && m@
            == "JSON document provenance is unavailable"@,
        Fault::SchemaUnavailable => e matches EmitError::InvariantViolation(m) && m@
            == "JSON Schema is unavailable"@,
        Fault::PathValue => e matches EmitError::InvariantViolation(m) && m@ == "JSON path value is invalid"@,
        Fault::PathUntyped => e matches EmitError::InvariantViolation(m) && m@ == "JSON path is not typed"@,
        Fault::PathSyntax => e matches EmitError::InvariantViolation(m) && m@ == "invalid SQLite JSON path"@,
        Fault::OutsideSchema => e matches EmitError::InvariantViolation(m) && m@
            == "JSON path is outside the Catalog Schema"@,
        Fault::NoValueType => e matches EmitError::InvariantViolation(m) && m@
            == "JSON path has no value type"@,
        Fault::NoElementSchema => e matches EmitError::InvariantViolation(m) && m@
            == "JSON collection path has no finite element Schema"@,
    }
}

/// The error that reports fault `f`.
fn fault_error(f: Fault) -> (e: EmitError)
    ensures
        raised(e, f),
{
    match f {
        Fault::UnknownResource => EmitError::UnknownResource,
        Fault::UnknownColumn => EmitError::UnknownColumn,
        Fault::UnsupportedStatement => EmitError::UnsupportedStatement,
        Fault::Arity => EmitError::InvariantViolation(owned("registered function arity")),
        Fault::FunctionArgument => EmitError::InvariantViolation(owned("registered function argument")),
        Fault::OutputShape => EmitError::InvariantViolation(owned("projection is not a permitted output shape")),
        Fault::NotDirectColumn => EmitError::InvariantViolation(owned("conditional output is not a direct column")),
        Fault::DocumentProvenance => EmitError::InvariantViolation(owned("JSON document provenance is unavailable")),
        Fault::SchemaUnavailable => EmitError::InvariantViolation(owned("JSON Schema is unavailable")),
        Fault::PathValue => EmitError::InvariantViolation(owned("JSON path value is invalid")),
        Fault::PathUntyped => EmitError::InvariantViolation(owned("JSON path is not typed")),
        Fault::PathSyntax => EmitError::InvariantViolation(owned("invalid SQLite JSON path")),
        Fault::OutsideSchema => EmitError::InvariantViolation(owned("JSON path is outside the Catalog Schema")),
        Fault::NoValueType => EmitError::InvariantViolation(owned("JSON path has no value type")),
        Fault::NoElementSchema => EmitError::InvariantViolation(owned("JSON collection path has no finite element Schema")),
    }
}

/// The outcome `r` reports what `spec` says: the same value or the same fault.
pub open spec fn reports<T>(r: Result<T, EmitError>, spec: Result<T, Fault>) -> bool {
    match spec {
        Ok(v) => r == Ok::<T, EmitError>(v),
        Err(f) => r matches Err(e) && raised(e, f),
    }
}

/// Resource `r` is joined from the left in the select `s`, when there is one.
pub open spec fn left_joined_in(s: Option<BoundSelect>, r: ResourceId) -> bool {
    match s {
        Some(x) => exists|j: int|
            0 <= j < x.joins@.len() && (#[trigger] x.joins@[j]).resource == r && x.joins@[j].kind
                == JoinKind::Left,
        None => false,
    }
}

/// Whether expression `e` may be null in a row of `s`: a column by its
/// Catalog descriptor or a left join, a function or concatenation by its
/// arguments, a `CASE` without `ELSE` or with a branch that may be null.
pub open spec fn nullable_of(e: BoundExpr, catalog: Catalog, s: Option<BoundSelect>) -> Result<bool, Fault>
    decreases e,
{
    match e {
        BoundExpr::Column(c) => match catalog.column_with_id(c.id) {
            Some(d) => Ok(d.value.nullable || left_joined_in(s, c.id.resource_spec())),
            None => Err(Fault::UnknownColumn),
        },
        BoundExpr::ScalarFunction { function, arguments, .. } => match function {
            ScalarFunction::JsonExtract => Ok(true),
            _ => if arguments@.len() == 0 {
                Err(Fault::Arity)
            } else {
                nullable_of(arguments@[0], catalog, s)
            },
        },
        BoundExpr::Concat(l, r) => match nullable_of(*l, catalog, s) {
            Err(f) => Err(f),
            Ok(true) => Ok(true),
            Ok(false) => nullable_of(*r, catalog, s),
        },
        BoundExpr::CastText(x) => nullable_of(*x, catalog, s),
        BoundExpr::Case { branches, else_expression, .. } => Ok(
            else_expression is None || (exists|i: int|
                0 <= i < branches@.len() && nullable_of(#[trigger] branches@[i].1, catalog, s) != Ok::<
                    bool,
                    Fault,
                >(false)) || else_nullable(else_expression, catalog, s),
        ),
        BoundExpr::ClientParameter { .. } => Ok(false),
        BoundExpr::ServerParameter { .. } => Ok(false),
        BoundExpr::Literal(_) => Ok(false),
        _ => Err(Fault::FunctionArgument),
    }
}

/// The `ELSE` of a `CASE` may be null.
pub open spec fn else_nullable(x: Option<Box<BoundExpr>>, catalog: Catalog, s: Option<BoundSelect>) -> bool
    decreases x,
{
    match x {
        Some(v) => nullable_of(*v, catalog, s) != Ok::<bool, Fault>(false),
        None => false,
    }
}

fn joined_left(select: &BoundSelect, r: ResourceId) -> (b: bool)
    ensures
        b == left_joined_in(Some(*select), r),
{
    let mut j: usize = 0;
    while j < select.joins.len()
        invariant
            j <= select.joins@.len(),
            forall|m: int| 0 <= m < j ==> !((#[trigger] select.joins@[m]).resource == r
                && select.joins@[m].kind == JoinKind::Left),
        decreases select.joins.len() - j,
    {
        if select.joins[j].resource == r && select.joins[j].kind == JoinKind::Left {
            return true;
        }
        j = j + 1;
    }
    false
}

fn is_left_joined_in(s: Option<&BoundSelect>, r: ResourceId) -> (b: bool)
    ensures
        b == left_joined_in(opt(s), r),
{
    match s {
        Some(select) => joined_left(select, r),
        None => false,
    }
}

pub open spec fn opt(s: Option<&BoundSelect>) -> Option<BoundSelect> {
    match s {
        Some(x) => Some(*x),
        None => None,
    }
}

/// Whether `expression` may be null in a row of `select`.
pub fn expression_nullable(expression: &BoundExpr, catalog: &Catalog, select: Option<&BoundSelect>) -> (r:
    Result<bool, EmitError>)
    ensures
        reports(r, nullable_of(*expression, *catalog, opt(select))),
    decreases expression,
{
    match expression {
        BoundExpr::Column(column) => match catalog.column_of(column.id) {
            Some(d) => Ok(d.value.nullable || is_left_joined_in(select, column.id.resource())),
            None => Err(EmitError::UnknownColumn),
        },
        BoundExpr::ScalarFunction { function, arguments, .. } => match function {
            ScalarFunction::JsonExtract => Ok(true),
            _ => {
                if arguments.len() == 0 {
                    return Err(fault_error(Fault::Arity));
                }
                proof {
                    assert(decreases_to!(expression => arguments@[0]));
                }
                expression_nullable(&arguments[0], catalog, select)
            },
        },
        BoundExpr::Concat(left, right) => match expression_nullable(&**left, catalog, select) {
            Err(e) => Err(e),
            Ok(true) => Ok(true),
            Ok(false) => expression_nullable(&**right, catalog, select),
        },
        BoundExpr::CastText(inner) => expression_nullable(&**inner, catalog, select),
        BoundExpr::Case { branches, else_expression, .. } => {
            let found = branches_nullable(branches, catalog, select);
            let else_maybe = match else_expression {
                Some(x) => match expression_nullable(&**x, catalog, select) {
                    Ok(false) => false,
                    _ => true,
                },
                None => false,
            };
            assert(else_maybe == else_nullable(*else_expression, *catalog, opt(select)));
            Ok(else_expression.is_none() || found || else_maybe)
        },
        BoundExpr::ClientParameter { .. } => Ok(false),
        BoundExpr::ServerParameter { .. } => Ok(false),
        BoundExpr::Literal(_) => Ok(false),
        _ => Err(fault_error(Fault::FunctionArgument)),
    }
}

/// Some branch value of `branches` may be null.
fn branches_nullable(branches: &Vec<(BoundExpr, BoundExpr)>, catalog: &Catalog, select: Option<&BoundSelect>) -> (r: bool)
    ensures
        r == exists|m: int|
            0 <= m < branches@.len() && nullable_of(#[trigger] branches@[m].1, *catalog, opt(select))
                != Ok::<bool, Fault>(false),
    decreases branches,
{
    let mut found = false;
    let mut i: usize = 0;
    while i < branches.len()
        invariant
            i <= branches@.len(),
            found == exists|m: int|
                0 <= m < i && nullable_of(#[trigger] branches@[m].1, *catalog, opt(select))
                    != Ok::<bool, Fault>(false),
        decreases branches.len() - i,
    {
        proof {
            assert(decreases_to!(branches => branches@[i as int]));
            assert(decreases_to!(branches@[i as int] => branches@[i as int].1));
        }
        let n = expression_nullable(&branches[i].1, catalog, select);
        let here = match n {
            Ok(false) => false,
            _ => true,
        };
        proof {
            assert(here == (nullable_of(branches@[i as int].1, *catalog, opt(select)) != Ok::<bool, Fault>(false)));
        }
        found = found || here;
        i = i + 1;
    }
    found
}

/// The display format of `e` when it is a column whose Catalog descriptor has one.
pub open spec fn direct_format(e: BoundExpr, catalog: Catalog) -> Option<Seq<char>> {
    match e {
        BoundExpr::Column(c) => match catalog.column_with_id(c.id) {
            Some(d) => match d.value.format {
                Some(f) => Some(f@),
                None => None,
            },
            None => None,
        },
        _ => None,
    }
}

fn direct_expression_format<'a>(expression: &'a BoundExpr, catalog: &'a Catalog) -> (r: Option<&'a str>)
    ensures
        match direct_format(*expression, *catalog) {
            Some(f) => r matches Some(x) && x@ == f,
            None => r is None,
        },
{
    match expression.direct_column() {
        Some(column) => match catalog.column_of(column.id) {
            Some(d) => match &d.value.format {
                Some(f) => Some(f.as_str()),
                None => None,
            },
            None => None,
        },
        None => None,
    }
}

/// How values of type `t` are represented in results.
pub open spec fn representation_of(t: LogicalType) -> ValueRepresentation {
    match t {
        LogicalType::String => ValueRepresentation::String,
        LogicalType::Date => ValueRepresentation::String,
        LogicalType::DateTime => ValueRepresentation::String,
        LogicalType::Instant => ValueRepresentation::String,
        LogicalType::Int64 => ValueRepresentation::String,
        LogicalType::Boolean => ValueRepresentation::Boolean,
        LogicalType::Integer => ValueRepresentation::Number,
        LogicalType::Number => ValueRepresentation::Number,
        LogicalType::Bytes => ValueRepresentation::Base64,
        LogicalType::Json => ValueRepresentation::Json,
    }
}

/// A computed column is represented as the Catalog represents a stored
/// column of the same logical type: whatever type a manifest names, its
/// default wire representation is the one results of that type carry.
pub proof fn law_computed_representation_is_the_catalog_default(name: Seq<char>, t: LogicalType)
    ensures
        type_named(name) matches Some(p) ==> representation_of(p.0) == p.1,
        type_named(logical_type_text(t)) == Some((t, representation_of(t))),
{
    law_type_names_read_back(t);
}

fn represent(t: LogicalType) -> (r: ValueRepresentation)
    ensures
        r == representation_of(t),
{
    match t {
        LogicalType::String => ValueRepresentation::String,
        LogicalType::Date => ValueRepresentation::String,
        LogicalType::DateTime => ValueRepresentation::String,
        LogicalType::Instant => ValueRepresentation::String,
        LogicalType::Int64 => ValueRepresentation::String,
        LogicalType::Boolean => ValueRepresentation::Boolean,
        LogicalType::Integer => ValueRepresentation::Number,
        LogicalType::Number => ValueRepresentation::Number,
        LogicalType::Bytes => ValueRepresentation::Base64,
        LogicalType::Json => ValueRepresentation::Json,
    }
}

/// `d` describes a computed column named `name` of type `t` and
/// representation `rep`, with the types `types`, `nullable` and `format`.
pub open spec fn computed(
    d: ResultColumnDescriptor,
    name: ResultName,
    t: LogicalType,
    rep: ValueRepresentation,
    nullable: bool,
    format: Option<Seq<char>>,
    types: Seq<LogicalType>,
) -> bool {
    &&& d.name == name
    &&& d.value.logical_type == t
    &&& d.value.representation == rep
    &&& d.value.nullable == nullable
    &&& match format {
        Some(f) => d.value.format matches Some(x) && x@ == f,
        None => d.value.format is None,
    }
    &&& d.value.storage is None
    &&& d.value.constraints is None
    &&& d.value.json_schema is None
    &&& d.possible_types@ == types
    &&& !d.redacted_on_null
    &&& d.visibility_column is None
}

fn computed_column(
    name: &ResultName,
    t: LogicalType,
    rep: ValueRepresentation,
    nullable: bool,
    format: Option<&str>,
    types: Vec<LogicalType>,
) -> (d: ResultColumnDescriptor)
    ensures
        computed(
            d,
            *name,
            t,
            rep,
            nullable,
            match format {
                Some(f) => Some(f@),
                None => None,
            },
            types@,
        ),
{
    ResultColumnDescriptor {
        name: name.clone(),
        value: ValueDescriptor {
            logical_type: t,
            representation: rep,
            nullable,
            format: match format {
                Some(f) => Some(owned(f)),
                None => None,
            },
            storage: None,
            constraints: None,
            json_schema: None,
        },
        possible_types: types,
        redacted_on_null: false,
        visibility_column: None,
    }
}

fn one_type(t: LogicalType) -> (r: Vec<LogicalType>)
    ensures
        r@ == seq![t],
{
    let mut v: Vec<LogicalType> = Vec::new();
    v.push(t);
    v
}

/// The format that every branch of a `CASE` and its `ELSE` share, when
/// the first branch has one.
pub open spec fn case_format(branches: Seq<(BoundExpr, BoundExpr)>, else_expression: Option<Box<BoundExpr>>, catalog: Catalog) -> Option<Seq<char>> {
    let first = if branches.len() > 0 {
        direct_format(branches[0].1, catalog)
    } else {
        None
    };
    if first is Some && (forall|i: int|
        1 <= i < branches.len() ==> direct_format(#[trigger] branches[i].1, catalog) == first) && match else_expression {
        Some(x) => direct_format(*x, catalog) == first,
        None => true,
    } {
        first
    } else {
        None
    }
}

/// What a concatenation, a text cast or a `CASE` projection returns: its
/// type, whether it may be null, and its format.
pub open spec fn compound_of(e: BoundExpr, catalog: Catalog, s: Option<BoundSelect>) -> Option<
    Result<(LogicalType, bool, Option<Seq<char>>), Fault>,
> {
    match e {
        BoundExpr::Concat(_, _) => Some(
            match nullable_of(e, catalog, s) {
                Ok(n) => Ok((LogicalType::String, n, None)),
                Err(f) => Err(f),
            },
        ),
        BoundExpr::CastText(x) => Some(
            match nullable_of(*x, catalog, s) {
                Ok(n) => Ok((LogicalType::String, n, None)),
                Err(f) => Err(f),
            },
        ),
        BoundExpr::Case { branches, else_expression, logical_type } => Some(
            Ok(
                (
                    logical_type,
                    nullable_of(e, catalog, s) == Ok::<bool, Fault>(true),
                    case_format(branches@, else_expression, catalog),
                ),
            ),
        ),
        _ => None,
    }
}

/// The outcome `r` reports the sequence or the fault that `spec` says.
pub open spec fn reports_seq<T>(r: Result<Vec<T>, EmitError>, spec: Result<Seq<T>, Fault>) -> bool {
    match spec {
        Ok(v) => r matches Ok(x) && x@ == v,
        Err(f) => r matches Err(e) && raised(e, f),
    }
}

/// The text of a JSON path argument: a text literal, or the text value
/// supplied for a caller's parameter.
pub open spec fn path_text(e: Option<BoundExpr>, params: TextMap<LogicalValue>) -> Result<Seq<char>, Fault> {
    match e {
        Some(BoundExpr::Literal(LogicalValue::String(p))) => Ok(p@),
        Some(BoundExpr::ClientParameter { name, .. }) => match params.spec_get(name@) {
            Some(LogicalValue::String(p)) => Ok(p@),
            _ => Err(Fault::PathValue),
        },
        _ => Err(Fault::PathUntyped),
    }
}

fn path_value<'a>(e: Option<&'a BoundExpr>, params: &'a TextMap<LogicalValue>) -> (r: Result<&'a str, EmitError>)
    requires
        params.wf(),
    ensures
        match path_text(
            match e {
                Some(x) => Some(*x),
                None => None,
            },
            *params,
        ) {
            Ok(p) => r matches Ok(x) && x@ == p,
            Err(f) => r matches Err(x) && raised(x, f),
        },
{
    match e {
        Some(BoundExpr::Literal(LogicalValue::String(p))) => Ok(p.as_str()),
        Some(BoundExpr::ClientParameter { name, .. }) => match params.get(name.as_str()) {
            Some(LogicalValue::String(p)) => Ok(p.as_str()),
            _ => Err(fault_error(Fault::PathValue)),
        },
        _ => Err(fault_error(Fault::PathUntyped)),
    }
}

/// The schema of the JSON document that a function's first argument reads.
pub open spec fn document_schema(args: Seq<BoundExpr>, catalog: Catalog) -> Result<JsonValueSchema, Fault> {
    if args.len() == 0 {
        Err(Fault::DocumentProvenance)
    } else {
        match args[0] {
            BoundExpr::Column(c) => match catalog.column_with_id(c.id) {
                Some(d) => match d.value.json_schema {
                    Some(schema) => Ok(schema),
                    None => Err(Fault::SchemaUnavailable),
                },
                None => Err(Fault::SchemaUnavailable),
            },
            _ => Err(Fault::DocumentProvenance),
        }
    }
}

/// Some schema of `cs` has type `t`, beneath it too when `recursive`.
pub open spec fn any_has_type(cs: Seq<JsonValueSchema>, recursive: bool, t: JsonSchemaType) -> bool {
    exists|i: int| 0 <= i < cs.len() && has_type(#[trigger] cs[i], recursive, t)
}

/// The value types that schemas `cs` allow, in a fixed order: booleans,
/// integers, numbers, texts, then JSON for arrays and objects.
pub open spec fn types_of(cs: Seq<JsonValueSchema>, recursive: bool) -> Seq<LogicalType> {
    (if any_has_type(cs, recursive, JsonSchemaType::Boolean) {
        seq![LogicalType::Boolean]
    } else {
        seq![]
    }) + (if any_has_type(cs, recursive, JsonSchemaType::Integer) {
        seq![LogicalType::Integer]
    } else {
        seq![]
    }) + (if any_has_type(cs, recursive, JsonSchemaType::Number) {
        seq![LogicalType::Number]
    } else {
        seq![]
    }) + (if any_has_type(cs, recursive, JsonSchemaType::String) {
        seq![LogicalType::String]
    } else {
        seq![]
    }) + (if any_has_type(cs, recursive, JsonSchemaType::Array) || any_has_type(
        cs,
        recursive,
        JsonSchemaType::Object,
    ) {
        seq![LogicalType::Json]
    } else {
        seq![]
    })
}

/// The types that `json_extract` over `args` may return. An empty path
/// reads the whole document, every type beneath it included.
pub open spec fn extract_types(args: Seq<BoundExpr>, catalog: Catalog, params: TextMap<LogicalValue>) -> Result<
    Seq<LogicalType>,
    Fault,
> {
    match document_schema(args, catalog) {
        Err(f) => Err(f),
        Ok(schema) => match path_text(
            if args.len() > 1 {
                Some(args[1])
            } else {
                None
            },
            params,
        ) {
            Err(f) => Err(f),
            Ok(p) => {
                let found: Result<(Seq<JsonValueSchema>, bool), Fault> = if p.len() == 0 {
                    Ok((seq![schema], true))
                } else {
                    match json_path(p) {
                        None => Err(Fault::PathSyntax),
                        Some(steps) => match walk(seq![schema], steps) {
                            Some(c) => Ok((c, false)),
                            None => Err(Fault::OutsideSchema),
                        },
                    }
                };
                match found {
                    Err(f) => Err(f),
                    Ok(t) => if types_of(t.0, t.1).len() == 0 {
                        Err(Fault::NoValueType)
                    } else {
                        Ok(types_of(t.0, t.1))
                    },
                }
            },
        },
    }
}

/// The types that `json_extract` over `arguments` may return.
fn json_extract_types(arguments: &Vec<BoundExpr>, catalog: &Catalog, params: &TextMap<LogicalValue>) -> (r:
    Result<Vec<LogicalType>, EmitError>)
    requires
        params.wf(),
    ensures
        reports_seq(r, extract_types(arguments@, *catalog, *params)),
{
    if arguments.len() == 0 {
        return Err(fault_error(Fault::DocumentProvenance));
    }
    let column = match arguments[0].direct_column() {
        Some(c) => c,
        None => return Err(fault_error(Fault::DocumentProvenance)),
    };
    let schema = match catalog.column_of(column.id) {
        Some(d) => match &d.value.json_schema {
            Some(s) => s,
            None => return Err(fault_error(Fault::SchemaUnavailable)),
        },
        None => return Err(fault_error(Fault::SchemaUnavailable)),
    };
    let path_arg = if arguments.len() > 1 {
        Some(&arguments[1])
    } else {
        None
    };
    let path = match path_value(path_arg, params) {
        Ok(p) => p,
        Err(e) => return Err(e),
    };
    let recursive = path.unicode_len() == 0;
    let candidates: Vec<&JsonValueSchema> = if recursive {
        let mut v: Vec<&JsonValueSchema> = Vec::new();
        v.push(schema);
        assert(derefs(v@) =~= seq![*schema]);
        v
    } else {
        match json_schema_candidates(schema, path) {
            Ok(c) => c,
            Err(e) => return Err(e),
        }
    };
    let ghost cs = derefs(candidates@);
    let mut set = JsonTypeSet::new();
    let mut i: usize = 0;
    while i < candidates.len()
        invariant
            cs == derefs(candidates@),
            i <= candidates@.len(),
            forall|t: JsonSchemaType| #[trigger] set.has(t) == exists|j: int| 0 <= j < i && has_type(cs[j], recursive, t),
        decreases candidates.len() - i,
    {
        let ghost before = set;
        collect_json_types(candidates[i], recursive, &mut set);
        proof {
            assert(cs[i as int] == *candidates@[i as int]);
            assert forall|t: JsonSchemaType| #[trigger] set.has(t) == exists|j: int| 0 <= j < i + 1 && has_type(cs[j], recursive, t) by {
                assert(set.has(t) == (before.has(t) || has_type(cs[i as int], recursive, t)));
                if exists|j: int| 0 <= j < i + 1 && has_type(cs[j], recursive, t) {
                    let j = choose|j: int| 0 <= j < i + 1 && has_type(cs[j], recursive, t);
                    if j < i {
                        assert(before.has(t));
                    }
                }
            }
        }
        i = i + 1;
    }
    proof {
        assert forall|t: JsonSchemaType| #[trigger] set.has(t) == any_has_type(cs, recursive, t) by {
            if set.has(t) {
                let j = choose|j: int| 0 <= j < i && has_type(cs[j], recursive, t);
                assert(has_type(cs[j], recursive, t));
            }
        }
    }
    let mut out: Vec<LogicalType> = Vec::new();
    if set.contains(JsonSchemaType::Boolean) {
        out.push(LogicalType::Boolean);
    }
    if set.contains(JsonSchemaType::Integer) {
        out.push(LogicalType::Integer);
    }
    if set.contains(JsonSchemaType::Number) {
        out.push(LogicalType::Number);
    }
    if set.contains(JsonSchemaType::String) {
        out.push(LogicalType::String);
    }
    if set.contains(JsonSchemaType::Array) || set.contains(JsonSchemaType::Object) {
        out.push(LogicalType::Json);
    }
    assert(out@ =~= types_of(cs, recursive));
    if out.len() == 0 {
        return Err(fault_error(Fault::NoValueType));
    }
    Ok(out)
}

/// What a function projection returns: whether it may be null and its
/// possible types, the first of which is its type.
pub open spec fn scalar_of(e: BoundExpr, catalog: Catalog, s: Option<BoundSelect>, params: TextMap<LogicalValue>) -> Option<
    Result<(bool, Seq<LogicalType>), Fault>,
> {
    match e {
        BoundExpr::ScalarFunction { function, arguments, logical_type } => Some(
            match nullable_of(e, catalog, s) {
                Err(f) => Err(f),
                Ok(n) => match function {
                    ScalarFunction::JsonExtract => match extract_types(arguments@, catalog, params) {
                        Ok(ts) => Ok((n, ts)),
                        Err(f) => Err(f),
                    },
                    _ => Ok((n, seq![logical_type])),
                },
            },
        ),
        _ => None,
    }
}

/// The visibility companion of the conditionally shown column at `index`.
pub open spec fn visibility_name(index: int) -> Seq<char> {
    "__policysql_visibility_"@ + decimal(index as nat)
}

/// `v` with its nullability set to `n`.
pub open spec fn with_nullable(v: ValueDescriptor, n: bool) -> ValueDescriptor {
    ValueDescriptor {
        logical_type: v.logical_type,
        representation: v.representation,
        nullable: n,
        format: v.format,
        storage: v.storage,
        constraints: v.constraints,
        json_schema: v.json_schema,
    }
}

/// The column that projection `e` shows, and whether it is shown under a
/// condition.
pub open spec fn shown_column(e: BoundExpr) -> Option<(crate::ir::BoundColumn, bool)> {
    match e {
        BoundExpr::Column(c) => Some((c, false)),
        BoundExpr::ConditionalOutput { value, .. } => match *value {
            BoundExpr::Column(c) => Some((c, true)),
            _ => None,
        },
        _ => None,
    }
}

/// Why projection `p`, at position `index`, cannot be described.
pub open spec fn projection_fault(
    p: BoundProjection,
    catalog: Catalog,
    s: Option<BoundSelect>,
    params: TextMap<LogicalValue>,
) -> Option<Fault> {
    let e = p.expression;
    match e {
        BoundExpr::Literal(v) => match v {
            LogicalValue::Int64(_) => None,
            LogicalValue::Number(_) => None,
            _ => Some(Fault::UnsupportedStatement),
        },
        BoundExpr::CountAll(_) => None,
        BoundExpr::RowNumber { .. } => None,
        BoundExpr::ScalarFunction { .. } => match scalar_of(e, catalog, s, params) {
            Some(Err(f)) => Some(f),
            _ => None,
        },
        BoundExpr::Concat(_, _) => match compound_of(e, catalog, s) {
            Some(Err(f)) => Some(f),
            _ => None,
        },
        BoundExpr::CastText(_) => match compound_of(e, catalog, s) {
            Some(Err(f)) => Some(f),
            _ => None,
        },
        BoundExpr::Case { .. } => None,
        BoundExpr::ConditionalOutput { value, .. } => match *value {
            BoundExpr::Column(c) => column_fault(catalog, c),
            _ => Some(Fault::NotDirectColumn),
        },
        BoundExpr::Column(c) => column_fault(catalog, c),
        _ => Some(Fault::OutputShape),
    }
}

/// Why the Catalog does not describe column `c`.
pub open spec fn column_fault(catalog: Catalog, c: crate::ir::BoundColumn) -> Option<Fault> {
    if catalog.resource_with_id(c.id.resource_spec()) is None {
        Some(Fault::UnknownResource)
    } else if catalog.column_with_id(c.id) is None {
        Some(Fault::UnknownColumn)
    } else {
        None
    }
}

/// `d` describes projection `p`, shown at position `index`.
pub open spec fn described(
    d: ResultColumnDescriptor,
    p: BoundProjection,
    index: int,
    catalog: Catalog,
    s: Option<BoundSelect>,
    params: TextMap<LogicalValue>,
) -> bool {
    let e = p.expression;
    let name = p.output_name;
    match e {
        BoundExpr::Literal(LogicalValue::Int64(_)) => computed(
            d,
            name,
            LogicalType::Integer,
            ValueRepresentation::Number,
            false,
            None,
            seq![LogicalType::Integer],
        ),
        BoundExpr::Literal(LogicalValue::Number(_)) => computed(
            d,
            name,
            LogicalType::Number,
            ValueRepresentation::Number,
            false,
            None,
            seq![LogicalType::Number],
        ),
        BoundExpr::CountAll(_) => computed(
            d,
            name,
            LogicalType::Int64,
            ValueRepresentation::Number,
            false,
            None,
            seq![LogicalType::Int64],
        ),
        BoundExpr::RowNumber { .. } => computed(
            d,
            name,
            LogicalType::Int64,
            ValueRepresentation::Number,
            false,
            None,
            seq![LogicalType::Int64],
        ),
        BoundExpr::ScalarFunction { .. } => match scalar_of(e, catalog, s, params) {
            Some(Ok(t)) => computed(d, name, t.1[0], representation_of(t.1[0]), t.0, None, t.1),
            _ => false,
        },
        _ => match compound_of(e, catalog, s) {
            Some(Ok(t)) => computed(d, name, t.0, representation_of(t.0), t.1, t.2, seq![t.0]),
            Some(Err(_)) => false,
            None => match shown_column(e) {
                Some(sc) => match catalog.column_with_id(sc.0.id) {
                    Some(col) => {
                        &&& d.name == name
                        &&& same_descriptor(
                            d.value,
                            with_nullable(
                                col.value,
                                col.value.nullable || sc.1 || left_joined_in(s, sc.0.id.resource_spec()),
                            ),
                        )
                        &&& d.possible_types@ == seq![col.value.logical_type]
                        &&& d.redacted_on_null == sc.1
                        &&& if sc.1 {
                            d.visibility_column matches Some(v) && v@ == visibility_name(index)
                        } else {
                            d.visibility_column is None
                        }
                    },
                    None => false,
                },
                None => false,
            },
        },
    }
}

fn visibility_column(index: usize) -> (r: ResultName)
    ensures
        r@ == visibility_name(index as int),
{
    proof {
        reveal_strlit("__policysql_visibility_");
    }
    let mut text = owned("__policysql_visibility_");
    text.append(decimal_text(index as u64).as_str());
    proof {
        assert(text@ =~= visibility_name(index as int));
        assert(text@[0] == '_');
        assert(!crate::text::is_white_space(text@[0]));
        assert(crate::identity::non_blank(text@));
    }
    match ResultName::new(text.as_str()) {
        Ok(name) => name,
        Err(_) => vstd::pervasive::unreached(),
    }
}

/// Describes one projection at position `index`.
fn describe_projection(
    p: &BoundProjection,
    index: usize,
    catalog: &Catalog,
    select: Option<&BoundSelect>,
    params: &TextMap<LogicalValue>,
) -> (r: Result<ResultColumnDescriptor, EmitError>)
    requires
        params.wf(),
    ensures
        match projection_fault(*p, *catalog, opt(select), *params) {
            Some(f) => r matches Err(e) && raised(e, f),
            None => r matches Ok(d) && described(d, *p, index as int, *catalog, opt(select), *params),
        },
{
    let name = &p.output_name;
    match &p.expression {
        BoundExpr::Literal(LogicalValue::Int64(_)) => {
            return Ok(computed_column(name, LogicalType::Integer, ValueRepresentation::Number, false, None, one_type(LogicalType::Integer)));
        },
        BoundExpr::Literal(LogicalValue::Number(_)) => {
            return Ok(computed_column(name, LogicalType::Number, ValueRepresentation::Number, false, None, one_type(LogicalType::Number)));
        },
        BoundExpr::Literal(_) => {
            return Err(fault_error(Fault::UnsupportedStatement));
        },
        BoundExpr::CountAll(_) => {
            return Ok(computed_column(name, LogicalType::Int64, ValueRepresentation::Number, false, None, one_type(LogicalType::Int64)));
        },
        BoundExpr::RowNumber { .. } => {
            return Ok(computed_column(name, LogicalType::Int64, ValueRepresentation::Number, false, None, one_type(LogicalType::Int64)));
        },
        BoundExpr::ScalarFunction { function, arguments, logical_type } => {
            let nullable = match expression_nullable(&p.expression, catalog, select) {
                Ok(n) => n,
                Err(e) => return Err(e),
            };
            let types = match function {
                ScalarFunction::JsonExtract => match json_extract_types(arguments, catalog, params) {
                    Ok(ts) => ts,
                    Err(e) => return Err(e),
                },
                _ => one_type(*logical_type),
            };
            let t = types[0];
            return Ok(computed_column(name, t, represent(t), nullable, None, types));
        },
        BoundExpr::Concat(_, _) => {
            let nullable = match expression_nullable(&p.expression, catalog, select) {
                Ok(n) => n,
                Err(e) => return Err(e),
            };
            return Ok(computed_column(name, LogicalType::String, ValueRepresentation::String, nullable, None, one_type(LogicalType::String)));
        },
        BoundExpr::CastText(inner) => {
            let nullable = match expression_nullable(&**inner, catalog, select) {
                Ok(n) => n,
                Err(e) => return Err(e),
            };
            return Ok(computed_column(name, LogicalType::String, ValueRepresentation::String, nullable, None, one_type(LogicalType::String)));
        },
        BoundExpr::Case { branches, else_expression, logical_type } => {
            let nullable = match expression_nullable(&p.expression, catalog, select) {
                Ok(n) => n,
                Err(_) => false,
            };
            let format = case_branch_format(branches, else_expression, catalog);
            return Ok(computed_column(name, *logical_type, represent(*logical_type), nullable, format, one_type(*logical_type)));
        },
        _ => {},
    }
    let (column, conditional) = match &p.expression {
        BoundExpr::Column(c) => (c, false),
        BoundExpr::ConditionalOutput { value, .. } => match &**value {
            BoundExpr::Column(c) => (c, true),
            _ => return Err(fault_error(Fault::NotDirectColumn)),
        },
        _ => return Err(fault_error(Fault::OutputShape)),
    };
    if catalog.resource_of(column.id.resource()).is_none() {
        return Err(EmitError::UnknownResource);
    }
    let descriptor = match catalog.column_of(column.id) {
        Some(d) => d,
        None => return Err(EmitError::UnknownColumn),
    };
    let mut value = copy_descriptor(&descriptor.value);
    value.nullable = value.nullable || conditional || is_left_joined_in(select, column.id.resource());
    let visibility = if conditional {
        Some(visibility_column(index))
    } else {
        None
    };
    Ok(
        ResultColumnDescriptor {
            name: name.clone(),
            possible_types: one_type(value.logical_type),
            value,
            redacted_on_null: conditional,
            visibility_column: visibility,
        },
    )
}

/// The format every branch of a `CASE` and its `ELSE` share.
fn case_branch_format<'a>(
    branches: &'a Vec<(BoundExpr, BoundExpr)>,
    else_expression: &'a Option<Box<BoundExpr>>,
    catalog: &'a Catalog,
) -> (r: Option<&'a str>)
    ensures
        match case_format(branches@, *else_expression, *catalog) {
            Some(f) => r matches Some(x) && x@ == f,
            None => r is None,
        },
{
    if branches.len() == 0 {
        return None;
    }
    let first = match direct_expression_format(&branches[0].1, catalog) {
        Some(f) => f,
        None => return None,
    };
    let ghost fv = first@;
    let mut i: usize = 1;
    while i < branches.len()
        invariant
            1 <= i <= branches@.len(),
            fv == first@,
            direct_format(branches@[0].1, *catalog) == Some(fv),
            forall|j: int| 1 <= j < i ==> direct_format(#[trigger] branches@[j].1, *catalog) == Some(fv),
        decreases branches.len() - i,
    {
        match direct_expression_format(&branches[i].1, catalog) {
            Some(f) => {
                if !crate::text::text_eq(f, first) {
                    return None;
                }
            },
            None => return None,
        }
        i = i + 1;
    }
    match else_expression {
        Some(x) => match direct_expression_format(&**x, catalog) {
            Some(f) => {
                if !crate::text::text_eq(f, first) {
                    return None;
                }
            },
            None => return None,
        },
        None => {},
    }
    Some(first)
}

/// The element schemas that one branch of a collection offers: with
/// `recursive`, the branch and everything beneath it; else its property
/// schemas and its item schema.
pub open spec fn element_schemas(b: JsonValueSchema, recursive: bool) -> Seq<JsonValueSchema> {
    if recursive {
        all_schemas(b)
    } else {
        b.properties@.map_values(|p: (String, JsonValueSchema)| p.1) + match b.items {
            Some(x) => seq![*x],
            None => seq![],
        }
    }
}

/// The element schemas of each of `bs`, in order.
pub open spec fn elements_of(bs: Seq<JsonValueSchema>, recursive: bool) -> Seq<JsonValueSchema>
    decreases bs.len(),
{
    if bs.len() == 0 {
        seq![]
    } else {
        elements_of(bs.drop_last(), recursive) + element_schemas(bs.last(), recursive)
    }
}

proof fn lemma_elements_concat(a: Seq<JsonValueSchema>, b: Seq<JsonValueSchema>, recursive: bool)
    ensures
        elements_of(a + b, recursive) == elements_of(a, recursive) + elements_of(b, recursive),
    decreases b.len(),
{
    if b.len() == 0 {
        assert(a + b =~= a);
        assert(elements_of(a, recursive) + seq![] =~= elements_of(a, recursive));
    } else {
        lemma_elements_concat(a, b.drop_last(), recursive);
        assert((a + b).drop_last() =~= a + b.drop_last());
        assert((a + b).last() == b.last());
        assert(elements_of(a + b, recursive) =~= elements_of(a, recursive) + elements_of(b, recursive));
    }
}

/// The element schemas of a collection select's document at its path.
pub open spec fn collection_items(j: BoundJsonCollectionSelect, catalog: Catalog, params: TextMap<LogicalValue>) -> Result<
    Seq<JsonValueSchema>,
    Fault,
> {
    let column = if j.document.id.resource_spec() == j.resource {
        catalog.column_with_id(j.document.id)
    } else {
        None
    };
    match column {
        None => Err(Fault::SchemaUnavailable),
        Some(c) => match c.value.json_schema {
            None => Err(Fault::SchemaUnavailable),
            Some(schema) => match path_text(Some(j.path), params) {
                Err(f) => Err(f),
                Ok(p) => match json_path(p) {
                    None => Err(Fault::PathSyntax),
                    Some(steps) => match walk(seq![schema], steps) {
                        None => Err(Fault::OutsideSchema),
                        Some(targets) => if elements_of(all_branches(targets), j.recursive).len() == 0 {
                            Err(Fault::NoElementSchema)
                        } else {
                            Ok(elements_of(all_branches(targets), j.recursive))
                        },
                    },
                },
            },
        },
    }
}

/// `r` is the one element schema of `items`, or the alternatives of all.
pub open spec fn item_schema_is(r: JsonValueSchema, items: Seq<JsonValueSchema>) -> bool {
    if items.len() == 1 {
        same_schema(r, items[0])
    } else {
        &&& r.types@.len() == 0
        &&& r.properties@.len() == 0
        &&& r.items is None
        &&& r.required@.len() == 0
        &&& !r.additional_properties
        &&& r.any_of@.len() == items.len()
        &&& forall|i: int| 0 <= i < items.len() ==> same_schema(#[trigger] r.any_of@[i], items[i])
    }
}

/// The schema of one element of a collection select's result.
fn json_collection_item_schema(
    select: &BoundJsonCollectionSelect,
    catalog: &Catalog,
    params: &TextMap<LogicalValue>,
) -> (r: Result<JsonValueSchema, EmitError>)
    requires
        params.wf(),
    ensures
        match collection_items(*select, *catalog, *params) {
            Ok(items) => r matches Ok(x) && item_schema_is(x, items),
            Err(f) => r matches Err(e) && raised(e, f),
        },
{
    let column = if select.document.id.resource() == select.resource {
        catalog.column_of(select.document.id)
    } else {
        None
    };
    let schema = match column {
        Some(c) => match &c.value.json_schema {
            Some(s) => s,
            None => return Err(fault_error(Fault::SchemaUnavailable)),
        },
        None => return Err(fault_error(Fault::SchemaUnavailable)),
    };
    let path = match path_value(Some(&select.path), params) {
        Ok(p) => p,
        Err(e) => return Err(e),
    };
    let targets = match json_schema_candidates(schema, path) {
        Ok(t) => t,
        Err(e) => return Err(e),
    };
    let ghost ts = derefs(targets@);
    let recursive = select.recursive;
    let mut refs: Vec<&JsonValueSchema> = Vec::new();
    let mut i: usize = 0;
    assert(ts.take(0) =~= Seq::<JsonValueSchema>::empty());
    assert(derefs(refs@) =~= elements_of(all_branches(ts.take(0)), recursive));
    while i < targets.len()
        invariant
            ts == derefs(targets@),
            i <= ts.len(),
            recursive == select.recursive,
            derefs(refs@) == elements_of(all_branches(ts.take(i as int)), recursive),
        decreases targets.len() - i,
    {
        let bs = schema_branches(targets[i]);
        let ghost base = derefs(refs@);
        let ghost bv = derefs(bs@);
        let mut k: usize = 0;
        assert(bv.take(0) =~= Seq::<JsonValueSchema>::empty());
        assert(derefs(refs@) =~= base + elements_of(bv.take(0), recursive));
        while k < bs.len()
            invariant
                bv == derefs(bs@),
                k <= bv.len(),
                recursive == select.recursive,
                derefs(refs@) == base + elements_of(bv.take(k as int), recursive),
            decreases bs.len() - k,
        {
            let branch = bs[k];
            let ghost before = derefs(refs@);
            assert(bv[k as int] == *branch);
            if recursive {
                collect_json_schemas(branch, &mut refs);
            } else {
                let mut p: usize = 0;
                while p < branch.properties.len()
                    invariant
                        p <= branch.properties@.len(),
                        derefs(refs@) == before + branch.properties@.take(p as int).map_values(
                            |q: (String, JsonValueSchema)| q.1,
                        ),
                    decreases branch.properties.len() - p,
                {
                    let ghost prev = derefs(refs@);
                    refs.push(&branch.properties[p].1);
                    assert(derefs(refs@) =~= prev.push(branch.properties@[p as int].1));
                    assert(branch.properties@.take(p + 1).map_values(|q: (String, JsonValueSchema)| q.1)
                        =~= branch.properties@.take(p as int).map_values(|q: (String, JsonValueSchema)| q.1).push(
                        branch.properties@[p as int].1,
                    ));
                    assert(derefs(refs@) =~= before + branch.properties@.take(p + 1).map_values(
                        |q: (String, JsonValueSchema)| q.1,
                    ));
                    p = p + 1;
                }
                assert(branch.properties@.take(p as int) =~= branch.properties@);
                match &branch.items {
                    Some(x) => {
                        let ghost mid = derefs(refs@);
                        refs.push(&**x);
                        assert(derefs(refs@) =~= mid + seq![**x]);
                    },
                    None => {},
                }
                assert(derefs(refs@) =~= before + element_schemas(*branch, recursive));
            }
            proof {
                assert(bv.take(k + 1).drop_last() =~= bv.take(k as int));
                assert(bv.take(k + 1).last() == bv[k as int]);
                assert(derefs(refs@) =~= base + elements_of(bv.take(k + 1), recursive));
            }
            k = k + 1;
        }
        proof {
            assert(bv.take(k as int) =~= bv);
            assert(ts.take(i + 1).drop_last() =~= ts.take(i as int));
            assert(ts.take(i + 1).last() == ts[i as int]);
            assert(ts[i as int] == *targets@[i as int]);
            assert(bv == branches(ts[i as int]));
            assert(all_branches(ts.take(i + 1)) == all_branches(ts.take(i as int)) + bv);
            lemma_elements_concat(all_branches(ts.take(i as int)), bv, recursive);
        }
        i = i + 1;
    }
    assert(ts.take(i as int) =~= ts);
    let ghost items = derefs(refs@);
    if refs.len() == 0 {
        return Err(fault_error(Fault::NoElementSchema));
    }
    if refs.len() == 1 {
        assert(items[0] == *refs@[0]);
        return Ok(copy_schema(refs[0]));
    }
    let mut any_of: Vec<JsonValueSchema> = Vec::new();
    let mut m: usize = 0;
    while m < refs.len()
        invariant
            items == derefs(refs@),
            m <= items.len(),
            any_of@.len() == m,
            forall|j: int| 0 <= j < m ==> same_schema(#[trigger] any_of@[j], items[j]),
        decreases refs.len() - m,
    {
        assert(items[m as int] == *refs@[m as int]);
        any_of.push(copy_schema(refs[m]));
        m = m + 1;
    }
    Ok(
        JsonValueSchema {
            types: Vec::new(),
            properties: Vec::new(),
            items: None,
            required: Vec::new(),
            additional_properties: false,
            any_of,
        },
    )
}

/// The first of two faults.
pub open spec fn first_fault(a: Option<Fault>, b: Option<Fault>) -> Option<Fault> {
    if a is Some {
        a
    } else {
        b
    }
}

/// The first fault among projections `ps`, described at their positions.
pub open spec fn projections_fault(
    ps: Seq<BoundProjection>,
    catalog: Catalog,
    s: Option<BoundSelect>,
    params: TextMap<LogicalValue>,
) -> Option<Fault>
    decreases ps.len(),
{
    if ps.len() == 0 {
        None
    } else {
        first_fault(
            projections_fault(ps.drop_last(), catalog, s, params),
            projection_fault(ps.last(), catalog, s, params),
        )
    }
}

proof fn lemma_projections_fault_stays(
    ps: Seq<BoundProjection>,
    catalog: Catalog,
    s: Option<BoundSelect>,
    params: TextMap<LogicalValue>,
    i: int,
)
    requires
        0 <= i <= ps.len(),
        projections_fault(ps.take(i), catalog, s, params) is Some,
    ensures
        projections_fault(ps, catalog, s, params) == projections_fault(ps.take(i), catalog, s, params),
    decreases ps.len() - i,
{
    if i < ps.len() {
        assert(ps.take(i + 1).drop_last() =~= ps.take(i));
        lemma_projections_fault_stays(ps, catalog, s, params, i + 1);
    } else {
        assert(ps.take(i) =~= ps);
    }
}

/// What a statement returns rows of: the resource it reads or writes, its
/// projections (a write's `returning`), and the select they belong to.
pub open spec fn result_source(st: BoundStatement) -> (Option<ResourceId>, Seq<BoundProjection>, Option<BoundSelect>) {
    match st {
        BoundStatement::Select(s) => (Some(s.resource), s.projections@, Some(*s)),
        BoundStatement::ConstantSelect(c) => (None, c.projections@, None),
        BoundStatement::Insert(i) => (Some(i.resource), i.returning@, None),
        BoundStatement::Update(u) => (Some(u.resource), u.returning@, None),
        BoundStatement::Delete(d) => (Some(d.resource), d.returning@, None),
        BoundStatement::JsonCollectionSelect(_) => (None, seq![], None),
    }
}

/// Why the result columns of `st` cannot be described.
pub open spec fn results_fault(st: BoundStatement, catalog: Catalog, params: TextMap<LogicalValue>) -> Option<Fault> {
    match st {
        BoundStatement::JsonCollectionSelect(j) => match collection_items(j, catalog, params) {
            Err(f) => Some(f),
            Ok(_) => None,
        },
        _ => {
            let t = result_source(st);
            if t.0 matches Some(r) && catalog.resource_with_id(r) is None {
                Some(Fault::UnknownResource)
            } else {
                projections_fault(t.1, catalog, t.2, params)
            }
        },
    }
}

/// `d` describes the one result column of a collection select: a JSON
/// array whose elements follow the collection's element schema.
pub open spec fn collection_described(d: ResultColumnDescriptor, j: BoundJsonCollectionSelect, items: Seq<JsonValueSchema>) -> bool {
    &&& d.name == j.output_name
    &&& d.value.logical_type == LogicalType::Json
    &&& d.value.representation == ValueRepresentation::Json
    &&& !d.value.nullable
    &&& d.value.format is None
    &&& d.value.storage is None
    &&& d.value.constraints is None
    &&& d.value.json_schema matches Some(a) && a.types@ == seq![JsonSchemaType::Array] && a.properties@.len() == 0
        && a.required@.len() == 0 && !a.additional_properties && a.any_of@.len() == 0 && match a.items {
        Some(x) => item_schema_is(*x, items),
        None => false,
    }
    &&& d.possible_types@ == seq![LogicalType::Json]
    &&& !d.redacted_on_null
    &&& d.visibility_column is None
}

/// `v` describes the result columns of `st`, one per projection in order.
pub open spec fn results_described(
    v: Seq<ResultColumnDescriptor>,
    st: BoundStatement,
    catalog: Catalog,
    params: TextMap<LogicalValue>,
) -> bool {
    match st {
        BoundStatement::JsonCollectionSelect(j) => match collection_items(j, catalog, params) {
            Ok(items) => v.len() == 1 && collection_described(v[0], j, items),
            Err(_) => false,
        },
        _ => {
            let t = result_source(st);
            &&& v.len() == t.1.len()
            &&& forall|i: int| 0 <= i < v.len() ==> described(#[trigger] v[i], t.1[i], i, catalog, t.2, params)
        },
    }
}

/// The public descriptors of the result columns of a protected statement.
pub fn result_descriptors(statement: &BoundStatement, catalog: &Catalog, params: &TextMap<LogicalValue>) -> (r:
    Result<Vec<ResultColumnDescriptor>, EmitError>)
    requires
        params.wf(),
    ensures
        match results_fault(*statement, *catalog, *params) {
            Some(f) => r matches Err(e) && raised(e, f),
            None => r matches Ok(v) && results_described(v@, *statement, *catalog, *params),
        },
{
    let (resource, projections, select): (Option<ResourceId>, &Vec<BoundProjection>, Option<&BoundSelect>) = match statement {
        BoundStatement::JsonCollectionSelect(j) => {
            let item = match json_collection_item_schema(j, catalog, params) {
                Ok(x) => x,
                Err(e) => return Err(e),
            };
            let mut types: Vec<JsonSchemaType> = Vec::new();
            types.push(JsonSchemaType::Array);
            let mut out: Vec<ResultColumnDescriptor> = Vec::new();
            out.push(
                ResultColumnDescriptor {
                    name: j.output_name.clone(),
                    value: ValueDescriptor {
                        logical_type: LogicalType::Json,
                        representation: ValueRepresentation::Json,
                        nullable: false,
                        format: None,
                        storage: None,
                        constraints: None,
                        json_schema: Some(
                            JsonValueSchema {
                                types,
                                properties: Vec::new(),
                                items: Some(Box::new(item)),
                                required: Vec::new(),
                                additional_properties: false,
                                any_of: Vec::new(),
                            },
                        ),
                    },
                    possible_types: one_type(LogicalType::Json),
                    redacted_on_null: false,
                    visibility_column: None,
                },
            );
            return Ok(out);
        },
        BoundStatement::Select(s) => (Some(s.resource), &s.projections, Some(&**s)),
        BoundStatement::ConstantSelect(c) => (None, &c.projections, None),
        BoundStatement::Insert(i) => (Some(i.resource), &i.returning, None),
        BoundStatement::Update(u) => (Some(u.resource), &u.returning, None),
        BoundStatement::Delete(d) => (Some(d.resource), &d.returning, None),
    };
    let ghost t = result_source(*statement);
    assert(resource == t.0 && projections@ == t.1 && opt(select) == t.2);
    match resource {
        Some(r) => {
            if catalog.resource_of(r).is_none() {
                return Err(EmitError::UnknownResource);
            }
        },
        None => {},
    }
    let ghost ps = projections@;
    assert(results_fault(*statement, *catalog, *params) == projections_fault(t.1, *catalog, t.2, *params));
    let mut out: Vec<ResultColumnDescriptor> = Vec::new();
    let mut i: usize = 0;
    assert(ps.take(0) =~= Seq::<BoundProjection>::empty());
    while i < projections.len()
        invariant
            ps == projections@,
            ps == t.1,
            opt(select) == t.2,
            params.wf(),
            results_fault(*statement, *catalog, *params) == projections_fault(t.1, *catalog, t.2, *params),
            t == result_source(*statement),
            i <= ps.len(),
            projections_fault(ps.take(i as int), *catalog, t.2, *params) is None,
            out@.len() == i,
            forall|j: int| 0 <= j < i ==> described(#[trigger] out@[j], ps[j], j, *catalog, t.2, *params),
        decreases projections.len() - i,
    {
        assert(ps.take(i + 1).drop_last() =~= ps.take(i as int));
        assert(ps.take(i + 1).last() == ps[i as int]);
        match describe_projection(&projections[i], i, catalog, select, params) {
            Ok(d) => out.push(d),
            Err(e) => {
                proof {
                    lemma_projections_fault_stays(ps, *catalog, t.2, *params, i + 1);
                }
                return Err(e);
            },
        }
        i = i + 1;
    }
    assert(ps.take(i as int) =~= ps);
    Ok(out)
}

} // verus!
