//! The Catalog manifest: how a deployment declares its resources and
//! columns, checked against the physical schema where one is given, and
//! turned into an immutable Catalog.
use vstd::prelude::*;
use crate::catalog::{
    catalog_key, column_keys, column_list_ok, resource_keys, resource_list_ok, Catalog, ColumnDescriptor, ResourceDescriptor,
};
use crate::gateway::RejectionKind;
use crate::public_error::RuntimeError;
use crate::contract::{compare_number, compared, comparer, compile_pattern, regex_compiles, NumericOrder};
use crate::identity::{
    ConstraintScalar, JsonSchemaType, JsonValueSchema, LogicalType, LogicalValue, StorageClass, ValueConstraints,
    ValueDescriptor, ValueRepresentation, ColumnId, ColumnName, ResourceId, ResourceName, SnapshotId, non_blank,
};
use crate::predicate::{
    bool_of, entries_of, is_key, items_of, number_of, text_of, yaml_bool, yaml_entries, yaml_is_key, yaml_items,
    yaml_number, yaml_text,
};
use crate::text::{lex_lt, lower_text, owned, text_chars, text_eq, to_ascii_lowercase};
use crate::text_map::{entries_get, entries_have_key, keys_ascending, TextMap};
use crate::yaml::{YamlNumber, YamlValue};
use vstd::utf8::encode_utf8;

verus! {

/// `needle` occurs in `hay`.
pub open spec fn occurs(hay: Seq<char>, needle: Seq<char>) -> bool {
    exists|i: int| 0 <= i && i + needle.len() <= hay.len() && #[trigger] hay.subrange(i, i + needle.len()) == needle
}

/// Whether `needle` occurs in `hay`.
fn text_contains(hay: &Vec<char>, needle: &str) -> (r: bool)
    ensures
        r == occurs(hay@, needle@),
{
    let n = text_chars(needle);
    let h = hay.len();
    let m = n.len();
    if m > h {
        proof {
            assert forall|i: int| 0 <= i && i + needle@.len() <= hay@.len() implies #[trigger] hay@.subrange(
                i,
                i + needle@.len(),
            ) != needle@ by {}
        }
        return false;
    }
    let mut i: usize = 0;
    while i <= h - m
        invariant
            n@ == needle@,
            m == n@.len(),
            h == hay@.len(),
            m <= h,
            i <= h - m + 1,
            forall|p: int| 0 <= p < i ==> #[trigger] hay@.subrange(p, p + m) != needle@,
        decreases h - i,
    {
        let mut j: usize = 0;
        let mut same = true;
        while j < m
            invariant
                n@ == needle@,
                m == n@.len(),
                h == hay@.len(),
                i + m <= h,
                j <= m,
                same == forall|q: int| 0 <= q < j ==> hay@[i + q] == n@[q],
            decreases m - j,
        {
            if hay[i + j] != n[j] {
                same = false;
            }
            j = j + 1;
        }
        if same {
            proof {
                assert(hay@.subrange(i as int, i + m) =~= needle@);
            }
            return true;
        }
        proof {
            let k = choose|q: int| 0 <= q < m && hay@[i + q] != n@[q];
            assert(hay@.subrange(i as int, i + m)[k] != needle@[k]);
        }
        i = i + 1;
    }
    false
}

/// The storage class that a manifest names.
pub open spec fn storage_named(name: Seq<char>) -> Option<StorageClass> {
    if name == "integer"@ {
        Some(StorageClass::Integer)
    } else if name == "real"@ {
        Some(StorageClass::Real)
    } else if name == "text"@ {
        Some(StorageClass::Text)
    } else if name == "blob"@ {
        Some(StorageClass::Blob)
    } else {
        None
    }
}

/// The storage class that a manifest names.
pub fn storage_class(value: &str) -> (r: Option<StorageClass>)
    ensures
        r == storage_named(value@),
{
    if text_eq(value, "integer") {
        Some(StorageClass::Integer)
    } else if text_eq(value, "real") {
        Some(StorageClass::Real)
    } else if text_eq(value, "text") {
        Some(StorageClass::Text)
    } else if text_eq(value, "blob") {
        Some(StorageClass::Blob)
    } else {
        None
    }
}

/// SQLite's type affinity of a declared column type, read ASCII
/// case-insensitively: `INT` first, then `CHAR`, `CLOB` or `TEXT`, then
/// `BLOB`, then `REAL`, `FLOA` or `DOUB`; any other declaration is
/// refused.
pub open spec fn declared_affinity(declared: Seq<char>) -> Option<StorageClass> {
    let d = lower_text(declared);
    if occurs(d, "int"@) {
        Some(StorageClass::Integer)
    } else if occurs(d, "char"@) || occurs(d, "clob"@) || occurs(d, "text"@) {
        Some(StorageClass::Text)
    } else if occurs(d, "blob"@) {
        Some(StorageClass::Blob)
    } else if occurs(d, "real"@) || occurs(d, "floa"@) || occurs(d, "doub"@) {
        Some(StorageClass::Real)
    } else {
        None
    }
}

/// The storage class of a physical column's declared type.
pub fn declared_storage(value: &str) -> (r: Option<StorageClass>)
    ensures
        r == declared_affinity(value@),
{
    let lowered = to_ascii_lowercase(value);
    let d = text_chars(lowered.as_str());
    if text_contains(&d, "int") {
        Some(StorageClass::Integer)
    } else if text_contains(&d, "char") || text_contains(&d, "clob") || text_contains(&d, "text") {
        Some(StorageClass::Text)
    } else if text_contains(&d, "blob") {
        Some(StorageClass::Blob)
    } else if text_contains(&d, "real") || text_contains(&d, "floa") || text_contains(&d, "doub") {
        Some(StorageClass::Real)
    } else {
        None
    }
}

/// The logical type, and its wire representation, that a storage class
/// gives a column whose manifest names no type.
pub open spec fn derived_type(storage: StorageClass) -> (LogicalType, ValueRepresentation) {
    match storage {
        StorageClass::Integer => (LogicalType::Int64, ValueRepresentation::String),
        StorageClass::Real => (LogicalType::Number, ValueRepresentation::Number),
        StorageClass::Text => (LogicalType::String, ValueRepresentation::String),
        StorageClass::Blob => (LogicalType::Bytes, ValueRepresentation::Base64),
    }
}

pub fn derived_logical_type(storage: StorageClass) -> (r: (LogicalType, ValueRepresentation))
    ensures
        r == derived_type(storage),
{
    match storage {
        StorageClass::Integer => (LogicalType::Int64, ValueRepresentation::String),
        StorageClass::Real => (LogicalType::Number, ValueRepresentation::Number),
        StorageClass::Text => (LogicalType::String, ValueRepresentation::String),
        StorageClass::Blob => (LogicalType::Bytes, ValueRepresentation::Base64),
    }
}

/// A logical type may be stored in a storage class.
pub open spec fn storage_fits(t: LogicalType, s: StorageClass) -> bool {
    match s {
        StorageClass::Text => t == LogicalType::String || t == LogicalType::Date || t == LogicalType::DateTime
            || t == LogicalType::Instant || t == LogicalType::Json,
        StorageClass::Integer => t == LogicalType::Integer || t == LogicalType::Int64 || t == LogicalType::Boolean
            || t == LogicalType::Number,
        StorageClass::Real => t == LogicalType::Number,
        StorageClass::Blob => t == LogicalType::Bytes,
    }
}

/// Whether a logical type may be stored in the given storage class, where
/// there is one.
pub fn validate_storage(t: LogicalType, storage: Option<StorageClass>) -> (r: bool)
    ensures
        r == match storage {
            Some(s) => storage_fits(t, s),
            None => true,
        },
{
    match storage {
        None => true,
        Some(StorageClass::Text) => t == LogicalType::String || t == LogicalType::Date || t
            == LogicalType::DateTime || t == LogicalType::Instant || t == LogicalType::Json,
        Some(StorageClass::Integer) => t == LogicalType::Integer || t == LogicalType::Int64 || t
            == LogicalType::Boolean || t == LogicalType::Number,
        Some(StorageClass::Real) => t == LogicalType::Number,
        Some(StorageClass::Blob) => t == LogicalType::Bytes,
    }
}

/// The formats a logical type may declare: uuid or email text, int64
/// wide integers, base64 bytes, and the one format of each date type.
pub open spec fn format_fits(t: LogicalType, format: Option<Seq<char>>) -> bool {
    match format {
        None => t == LogicalType::String || t == LogicalType::Integer || t == LogicalType::Number || t
            == LogicalType::Boolean || t == LogicalType::Json || t == LogicalType::Int64 || t == LogicalType::Bytes,
        Some(f) => (t == LogicalType::String && (f == "uuid"@ || f == "email"@)) || (t == LogicalType::Int64 && f
            == "int64"@) || (t == LogicalType::Bytes && f == "base64"@) || (t == LogicalType::Date && f
            == "iso-date"@) || (t == LogicalType::DateTime && f == "sqlite-datetime"@) || (t == LogicalType::Instant
            && f == "rfc3339"@),
    }
}

pub fn validate_format(t: LogicalType, format: Option<&str>) -> (r: bool)
    ensures
        r == format_fits(
            t,
            match format {
                Some(f) => Some(f@),
                None => None,
            },
        ),
{
    match format {
        None => t == LogicalType::String || t == LogicalType::Integer || t == LogicalType::Number || t
            == LogicalType::Boolean || t == LogicalType::Json || t == LogicalType::Int64 || t == LogicalType::Bytes,
        Some(f) => (t == LogicalType::String && (text_eq(f, "uuid") || text_eq(f, "email"))) || (t
            == LogicalType::Int64 && text_eq(f, "int64")) || (t == LogicalType::Bytes && text_eq(f, "base64")) || (t
            == LogicalType::Date && text_eq(f, "iso-date")) || (t == LogicalType::DateTime && text_eq(
            f,
            "sqlite-datetime",
        )) || (t == LogicalType::Instant && text_eq(f, "rfc3339")),
    }
}

/// The logical type, and its default wire representation, that a manifest
/// names.
pub open spec fn type_named(name: Seq<char>) -> Option<(LogicalType, ValueRepresentation)> {
    if name == "string"@ {
        Some((LogicalType::String, ValueRepresentation::String))
    } else if name == "integer"@ {
        Some((LogicalType::Integer, ValueRepresentation::Number))
    } else if name == "boolean"@ {
        Some((LogicalType::Boolean, ValueRepresentation::Boolean))
    } else if name == "int64"@ {
        Some((LogicalType::Int64, ValueRepresentation::String))
    } else if name == "number"@ {
        Some((LogicalType::Number, ValueRepresentation::Number))
    } else if name == "bytes"@ {
        Some((LogicalType::Bytes, ValueRepresentation::Base64))
    } else if name == "date"@ {
        Some((LogicalType::Date, ValueRepresentation::String))
    } else if name == "datetime"@ {
        Some((LogicalType::DateTime, ValueRepresentation::String))
    } else if name == "instant"@ {
        Some((LogicalType::Instant, ValueRepresentation::String))
    } else if name == "json"@ {
        Some((LogicalType::Json, ValueRepresentation::Json))
    } else {
        None
    }
}

pub fn logical_type(value: &str) -> (r: Option<(LogicalType, ValueRepresentation)>)
    ensures
        r == type_named(value@),
{
    if text_eq(value, "string") {
        Some((LogicalType::String, ValueRepresentation::String))
    } else if text_eq(value, "integer") {
        Some((LogicalType::Integer, ValueRepresentation::Number))
    } else if text_eq(value, "boolean") {
        Some((LogicalType::Boolean, ValueRepresentation::Boolean))
    } else if text_eq(value, "int64") {
        Some((LogicalType::Int64, ValueRepresentation::String))
    } else if text_eq(value, "number") {
        Some((LogicalType::Number, ValueRepresentation::Number))
    } else if text_eq(value, "bytes") {
        Some((LogicalType::Bytes, ValueRepresentation::Base64))
    } else if text_eq(value, "date") {
        Some((LogicalType::Date, ValueRepresentation::String))
    } else if text_eq(value, "datetime") {
        Some((LogicalType::DateTime, ValueRepresentation::String))
    } else if text_eq(value, "instant") {
        Some((LogicalType::Instant, ValueRepresentation::String))
    } else if text_eq(value, "json") {
        Some((LogicalType::Json, ValueRepresentation::Json))
    } else {
        None
    }
}

/// The wire representation that a manifest names, or the type's default.
pub open spec fn representation_named(name: Option<Seq<char>>, default: ValueRepresentation) -> Option<
    ValueRepresentation,
> {
    match name {
        None => Some(default),
        Some(n) => if n == "string"@ {
            Some(ValueRepresentation::String)
        } else if n == "number"@ {
            Some(ValueRepresentation::Number)
        } else if n == "boolean"@ {
            Some(ValueRepresentation::Boolean)
        } else if n == "object"@ || n == "array"@ {
            Some(ValueRepresentation::Json)
        } else {
            None
        },
    }
}

pub fn representation(value: Option<&str>, default: ValueRepresentation) -> (r: Option<ValueRepresentation>)
    ensures
        r == representation_named(
            match value {
                Some(v) => Some(v@),
                None => None,
            },
            default,
        ),
{
    match value {
        None => Some(default),
        Some(n) => if text_eq(n, "string") {
            Some(ValueRepresentation::String)
        } else if text_eq(n, "number") {
            Some(ValueRepresentation::Number)
        } else if text_eq(n, "boolean") {
            Some(ValueRepresentation::Boolean)
        } else if text_eq(n, "object") || text_eq(n, "array") {
            Some(ValueRepresentation::Json)
        } else {
            None
        },
    }
}


/// The position of the first entry whose key is the untagged string
/// `key`, at `i` or after it; -1 where there is none.
pub open spec fn key_at(e: Seq<(YamlValue, YamlValue)>, key: Seq<char>, i: int) -> int
    decreases e.len() - i,
{
    if i < 0 || i >= e.len() {
        -1
    } else if is_key(e[i].0, key) {
        i
    } else {
        key_at(e, key, i + 1)
    }
}

proof fn lemma_key_at_range(e: Seq<(YamlValue, YamlValue)>, key: Seq<char>, i: int)
    requires
        0 <= i,
    ensures
        key_at(e, key, i) == -1 || (i <= key_at(e, key, i) < e.len() && is_key(e[key_at(e, key, i)].0, key)),
    decreases e.len() - i,
{
    if i < e.len() && !is_key(e[i].0, key) {
        lemma_key_at_range(e, key, i + 1);
    }
}

/// The position of the entry under `key`.
fn key_position(e: &Vec<(YamlValue, YamlValue)>, key: &str) -> (r: Option<usize>)
    ensures
        match r {
            Some(i) => key_at(e@, key@, 0) == i && i < e@.len(),
            None => key_at(e@, key@, 0) == -1,
        },
{
    let mut i: usize = 0;
    while i < e.len()
        invariant
            i <= e@.len(),
            key_at(e@, key@, 0) == key_at(e@, key@, i as int),
        decreases e.len() - i,
    {
        if yaml_is_key(&e[i].0, key) {
            return Some(i);
        }
        i = i + 1;
    }
    None
}

/// A keyword of the supported JSON Schema subset.
pub open spec fn schema_keyword(k: Seq<char>) -> bool {
    k == "$schema"@ || k == "type"@ || k == "properties"@ || k == "items"@ || k == "required"@ || k
        == "additionalProperties"@ || k == "anyOf"@
}

/// The JSON Schema type a name spells.
pub open spec fn schema_type_named(name: Seq<char>) -> Option<JsonSchemaType> {
    if name == "null"@ {
        Some(JsonSchemaType::Null)
    } else if name == "boolean"@ {
        Some(JsonSchemaType::Boolean)
    } else if name == "integer"@ {
        Some(JsonSchemaType::Integer)
    } else if name == "number"@ {
        Some(JsonSchemaType::Number)
    } else if name == "string"@ {
        Some(JsonSchemaType::String)
    } else if name == "array"@ {
        Some(JsonSchemaType::Array)
    } else if name == "object"@ {
        Some(JsonSchemaType::Object)
    } else {
        None
    }
}

fn schema_type_of(name: &str) -> (r: Option<JsonSchemaType>)
    ensures
        r == schema_type_named(name@),
{
    if text_eq(name, "null") {
        Some(JsonSchemaType::Null)
    } else if text_eq(name, "boolean") {
        Some(JsonSchemaType::Boolean)
    } else if text_eq(name, "integer") {
        Some(JsonSchemaType::Integer)
    } else if text_eq(name, "number") {
        Some(JsonSchemaType::Number)
    } else if text_eq(name, "string") {
        Some(JsonSchemaType::String)
    } else if text_eq(name, "array") {
        Some(JsonSchemaType::Array)
    } else if text_eq(name, "object") {
        Some(JsonSchemaType::Object)
    } else {
        None
    }
}

/// A `type` value: one type name, or a list of two or more different
/// type names.
pub open spec fn type_valid(t: YamlValue) -> bool {
    match text_of(t) {
        Some(s) => schema_type_named(s) is Some,
        None => match items_of(t) {
            Some(items) => {
                &&& items.len() >= 2
                &&& forall|i: int|
                    0 <= i < items.len() ==> match text_of(#[trigger] items[i]) {
                        Some(s) => schema_type_named(s) is Some,
                        None => false,
                    }
                &&& forall|i: int, j: int|
                    0 <= i < j < items.len() ==> text_of(#[trigger] items[i]) != text_of(#[trigger] items[j])
            },
            None => false,
        },
    }
}

fn type_is_valid(t: &YamlValue) -> (r: bool)
    ensures
        r == type_valid(*t),
{
    match yaml_text(t) {
        Some(s) => return schema_type_of(s.as_str()).is_some(),
        None => {},
    }
    let items = match yaml_items(t) {
        Some(items) => items,
        None => return false,
    };
    if items.len() < 2 {
        return false;
    }
    let mut i: usize = 0;
    while i < items.len()
        invariant
            text_of(*t) is None,
            items_of(*t) == Some(items@),
            i <= items@.len(),
            forall|a: int|
                0 <= a < i ==> match text_of(#[trigger] items@[a]) {
                    Some(s) => schema_type_named(s) is Some,
                    None => false,
                },
            forall|a: int, b: int| 0 <= a < b < i ==> text_of(#[trigger] items@[a]) != text_of(#[trigger] items@[b]),
        decreases items.len() - i,
    {
        let name = match yaml_text(&items[i]) {
            Some(name) => name,
            None => return false,
        };
        if schema_type_of(name.as_str()).is_none() {
            return false;
        }
        let mut j: usize = 0;
        while j < i
            invariant
                text_of(*t) is None,
                items_of(*t) == Some(items@),
                i < items@.len(),
                text_of(items@[i as int]) == Some(name@),
                j <= i,
                forall|a: int| 0 <= a < j ==> text_of(#[trigger] items@[a]) != text_of(items@[i as int]),
            decreases i - j,
        {
            match yaml_text(&items[j]) {
                Some(other) => if text_eq(other.as_str(), name.as_str()) {
                    proof {
                        assert(text_of(items@[j as int]) == text_of(items@[i as int]));
                    }
                    return false;
                },
                None => {},
            }
            j = j + 1;
        }
        i = i + 1;
    }
    true
}

/// A `required` list: distinct non-empty property names, each an untagged
/// string that the schema's `properties` has.
pub open spec fn required_valid(rv: YamlValue, properties: Option<Seq<(YamlValue, YamlValue)>>) -> bool {
    match items_of(rv) {
        None => false,
        Some(names) => forall|i: int|
            0 <= i < names.len() ==> match text_of(#[trigger] names[i]) {
                None => false,
                Some(t) => {
                    &&& t.len() > 0
                    &&& forall|j: int| 0 <= j < i ==> text_of(#[trigger] names[j]) != Some(t)
                    &&& names[i] is String
                    &&& match properties {
                        Some(p) => key_at(p, t, 0) >= 0,
                        None => false,
                    }
                },
            },
    }
}

fn required_is_valid(rv: &YamlValue, properties: Option<&Vec<(YamlValue, YamlValue)>>) -> (r: bool)
    ensures
        r == required_valid(
            *rv,
            match properties {
                Some(p) => Some(p@),
                None => None,
            },
        ),
{
    let ghost props = match properties {
        Some(p) => Some(p@),
        None => None,
    };
    let names = match yaml_items(rv) {
        Some(names) => names,
        None => return false,
    };
    let mut i: usize = 0;
    while i < names.len()
        invariant
            items_of(*rv) == Some(names@),
            props == match properties {
                Some(p) => Some(p@),
                None => None::<Seq<(YamlValue, YamlValue)>>,
            },
            i <= names@.len(),
            forall|a: int|
                0 <= a < i ==> match text_of(#[trigger] names@[a]) {
                    None => false,
                    Some(t) => {
                        &&& t.len() > 0
                        &&& forall|j: int| 0 <= j < a ==> text_of(#[trigger] names@[j]) != Some(t)
                        &&& names@[a] is String
                        &&& match props {
                            Some(p) => key_at(p, t, 0) >= 0,
                            None => false,
                        }
                    },
                },
        decreases names.len() - i,
    {
        let t = match yaml_text(&names[i]) {
            Some(t) => t,
            None => return false,
        };
        if t.as_str().unicode_len() == 0 {
            return false;
        }
        let mut j: usize = 0;
        while j < i
            invariant
                items_of(*rv) == Some(names@),
                i < names@.len(),
                text_of(names@[i as int]) == Some(t@),
                j <= i,
                forall|a: int| 0 <= a < j ==> text_of(#[trigger] names@[a]) != Some(t@),
            decreases i - j,
        {
            match yaml_text(&names[j]) {
                Some(other) => if text_eq(other.as_str(), t.as_str()) {
                    proof {
                        assert(text_of(names@[j as int]) == Some(t@));
                    }
                    return false;
                },
                None => {},
            }
            j = j + 1;
        }
        let untagged = match &names[i] {
            YamlValue::String(_) => true,
            _ => false,
        };
        if !untagged {
            return false;
        }
        match properties {
            Some(p) => if key_position(p, t.as_str()).is_none() {
                return false;
            },
            None => return false,
        }
        i = i + 1;
    }
    true
}

/// The URI of the one JSON Schema dialect accepted.
pub open spec fn draft_uri() -> Seq<char> {
    "https://json-schema.org/draft/2020-12/schema"@
}

/// A schema of the supported JSON Schema subset, at most 32 levels deep: a
/// non-empty object of known keywords, naming draft 2020-12 if it names a
/// dialect, closed to additional properties, with a valid `type`, valid
/// nested `properties`, `items` and `anyOf` (two or more branches), a
/// `required` list of its own properties, and a `type` or an `anyOf`.
pub open spec fn schema_valid(v: YamlValue, depth: int) -> bool
    decreases v,
{
    if depth > 32 {
        false
    } else {
        match v {
            YamlValue::Tagged(inner) => schema_valid(*inner, depth),
            YamlValue::Mapping(m) => {
                let e = m@;
                let ks = key_at(e, "$schema"@, 0);
                let ka = key_at(e, "additionalProperties"@, 0);
                let kt = key_at(e, "type"@, 0);
                let kp = key_at(e, "properties"@, 0);
                let ki = key_at(e, "items"@, 0);
                let kr = key_at(e, "required"@, 0);
                let ko = key_at(e, "anyOf"@, 0);
                &&& e.len() > 0
                &&& forall|j: int|
                    0 <= j < e.len() ==> match text_of(#[trigger] e[j].0) {
                        Some(k) => schema_keyword(k),
                        None => false,
                    }
                &&& (0 <= ks < e.len() ==> text_of(e[ks].1) == Some(draft_uri()))
                &&& (0 <= ka < e.len() ==> bool_of(e[ka].1) == Some(false))
                &&& (0 <= kt < e.len() ==> type_valid(e[kt].1))
                &&& (if 0 <= kp < e.len() {
                    properties_valid(e[kp].1, depth)
                } else {
                    true
                })
                &&& (if 0 <= ki < e.len() {
                    schema_valid(e[ki].1, depth + 1)
                } else {
                    true
                })
                &&& (0 <= kr < e.len() ==> required_valid(
                    e[kr].1,
                    if 0 <= kp < e.len() {
                        entries_of(e[kp].1)
                    } else {
                        None
                    },
                ))
                &&& (if 0 <= ko < e.len() {
                    any_of_valid(e[ko].1, depth)
                } else {
                    true
                })
                &&& (0 <= kt < e.len() || 0 <= ko < e.len())
            },
            _ => false,
        }
    }
}

/// A `properties` object: each property named by a non-empty string and
/// described by a valid schema one level deeper.
pub open spec fn properties_valid(pv: YamlValue, depth: int) -> bool
    decreases pv,
{
    match pv {
        YamlValue::Tagged(inner) => properties_valid(*inner, depth),
        YamlValue::Mapping(m) => forall|j: int|
            0 <= j < m@.len() ==> match text_of(#[trigger] m@[j].0) {
                Some(n) => n.len() > 0,
                None => false,
            } && schema_valid(m@[j].1, depth + 1),
        _ => false,
    }
}

/// An `anyOf` list of two or more valid schemas one level deeper.
pub open spec fn any_of_valid(av: YamlValue, depth: int) -> bool
    decreases av,
{
    match av {
        YamlValue::Tagged(inner) => any_of_valid(*inner, depth),
        YamlValue::Sequence(items) => items@.len() >= 2 && forall|i: int|
            0 <= i < items@.len() ==> schema_valid(#[trigger] items@[i], depth + 1),
        _ => false,
    }
}

/// Whether `v` is a schema of the supported JSON Schema subset, read at
/// nesting `depth`.
pub fn valid_json_value_schema(v: &YamlValue, depth: usize) -> (r: bool)
    ensures
        r == schema_valid(*v, depth as int),
    decreases v,
{
    if depth > 32 {
        return false;
    }
    match v {
        YamlValue::Tagged(inner) => valid_json_value_schema(&**inner, depth),
        YamlValue::Mapping(m) => {
            let ghost e = m@;
            if m.len() == 0 {
                return false;
            }
            let mut j: usize = 0;
            while j < m.len()
                invariant
                    e == m@,
                    *v == YamlValue::Mapping(*m),
                    depth <= 32,
                    j <= e.len(),
                    forall|a: int|
                        0 <= a < j ==> match text_of(#[trigger] e[a].0) {
                            Some(k) => schema_keyword(k),
                            None => false,
                        },
                decreases m.len() - j,
            {
                let known = match yaml_text(&m[j].0) {
                    Some(k) => {
                        let k = k.as_str();
                        text_eq(k, "$schema") || text_eq(k, "type") || text_eq(k, "properties") || text_eq(
                            k,
                            "items",
                        ) || text_eq(k, "required") || text_eq(k, "additionalProperties") || text_eq(k, "anyOf")
                    },
                    None => false,
                };
                if !known {
                    return false;
                }
                j = j + 1;
            }
            match key_position(m, "$schema") {
                Some(i) => match yaml_text(&m[i].1) {
                    Some(s) => if !text_eq(s.as_str(), "https://json-schema.org/draft/2020-12/schema") {
                        return false;
                    },
                    None => return false,
                },
                None => {},
            }
            match key_position(m, "additionalProperties") {
                Some(i) => match yaml_bool(&m[i].1) {
                    Some(false) => {},
                    _ => return false,
                },
                None => {},
            }
            let kt = key_position(m, "type");
            match kt {
                Some(i) => if !type_is_valid(&m[i].1) {
                    return false;
                },
                None => {},
            }
            let kp = key_position(m, "properties");
            let properties = match kp {
                Some(i) => {
                    proof {
                        assert(decreases_to!(v => m@[i as int].1));
                    }
                    if !valid_properties(&m[i].1, depth) {
                        return false;
                    }
                    yaml_entries(&m[i].1)
                },
                None => None,
            };
            match key_position(m, "items") {
                Some(i) => {
                    proof {
                        assert(decreases_to!(v => m@[i as int].1));
                    }
                    if !valid_json_value_schema(&m[i].1, depth + 1) {
                        return false;
                    }
                },
                None => {},
            }
            match key_position(m, "required") {
                Some(i) => if !required_is_valid(&m[i].1, properties) {
                    return false;
                },
                None => {},
            }
            let ko = key_position(m, "anyOf");
            match ko {
                Some(i) => {
                    proof {
                        assert(decreases_to!(v => m@[i as int].1));
                    }
                    if !valid_any_of(&m[i].1, depth) {
                        return false;
                    }
                },
                None => {},
            }
            kt.is_some() || ko.is_some()
        },
        _ => false,
    }
}

fn valid_properties(pv: &YamlValue, depth: usize) -> (r: bool)
    requires
        depth <= 32,
    ensures
        r == properties_valid(*pv, depth as int),
    decreases pv,
{
    match pv {
        YamlValue::Tagged(inner) => valid_properties(&**inner, depth),
        YamlValue::Mapping(m) => {
            let mut j: usize = 0;
            while j < m.len()
                invariant
                    depth <= 32,
                    *pv == YamlValue::Mapping(*m),
                    j <= m@.len(),
                    forall|a: int|
                        0 <= a < j ==> match text_of(#[trigger] m@[a].0) {
                            Some(n) => n.len() > 0,
                            None => false,
                        } && schema_valid(m@[a].1, depth + 1),
                decreases m.len() - j,
            {
                let named = match yaml_text(&m[j].0) {
                    Some(n) => n.as_str().unicode_len() > 0,
                    None => false,
                };
                if !named {
                    return false;
                }
                proof {
                    let whole = *pv;
                    assert(whole->Mapping_0 == *m);
                    assert(decreases_to!(whole => whole->Mapping_0));
                    assert(decreases_to!(whole => m@[j as int]));
                    assert(decreases_to!(pv => m@[j as int].1));
                }
                if !valid_json_value_schema(&m[j].1, depth + 1) {
                    return false;
                }
                j = j + 1;
            }
            true
        },
        _ => false,
    }
}

fn valid_any_of(av: &YamlValue, depth: usize) -> (r: bool)
    requires
        depth <= 32,
    ensures
        r == any_of_valid(*av, depth as int),
    decreases av,
{
    match av {
        YamlValue::Tagged(inner) => valid_any_of(&**inner, depth),
        YamlValue::Sequence(items) => {
            if items.len() < 2 {
                return false;
            }
            let mut i: usize = 0;
            while i < items.len()
                invariant
                    depth <= 32,
                    *av == YamlValue::Sequence(*items),
                    items@.len() >= 2,
                    i <= items@.len(),
                    forall|a: int| 0 <= a < i ==> schema_valid(#[trigger] items@[a], depth + 1),
                decreases items.len() - i,
            {
                proof {
                    let whole = *av;
                    assert(whole == YamlValue::Sequence(*items));
                    assert(whole->Sequence_0 == *items);
                    assert(decreases_to!(whole => whole->Sequence_0));
                    assert(decreases_to!(whole => items@[i as int]));
                }
                if !valid_json_value_schema(&items[i], depth + 1) {
                    return false;
                }
                i = i + 1;
            }
            true
        },
        _ => false,
    }
}


/// The JSON Schema types a `type` value names.
pub open spec fn types_of(t: YamlValue) -> Option<Seq<JsonSchemaType>> {
    match items_of(t) {
        Some(items) => if forall|i: int|
            0 <= i < items.len() ==> match text_of(#[trigger] items[i]) {
                Some(n) => schema_type_named(n) is Some,
                None => false,
            } {
            Some(Seq::new(items.len(), |i: int| schema_type_named(text_of(items[i])->Some_0)->Some_0))
        } else {
            None
        },
        None => match text_of(t) {
            Some(n) => match schema_type_named(n) {
                Some(ty) => Some(seq![ty]),
                None => None,
            },
            None => None,
        },
    }
}

/// The texts of the string items of a list, in order; other items are
/// passed over.
pub open spec fn texts_in(items: Seq<YamlValue>) -> Seq<Seq<char>>
    decreases items.len(),
{
    if items.len() == 0 {
        seq![]
    } else {
        texts_in(items.drop_last()) + match text_of(items.last()) {
            Some(t) => seq![t],
            None => seq![],
        }
    }
}

/// `s` is the schema that the YAML value `v` writes: its types, its
/// properties in ascending name order, its items, the names that its
/// `required` list spells, no additional properties, and its `anyOf`
/// branches.
pub open spec fn schema_is(s: JsonValueSchema, v: YamlValue) -> bool
    decreases v,
{
    match v {
        YamlValue::Tagged(inner) => schema_is(s, *inner),
        YamlValue::Mapping(m) => {
            let e = m@;
            let kt = key_at(e, "type"@, 0);
            let kp = key_at(e, "properties"@, 0);
            let ki = key_at(e, "items"@, 0);
            let kr = key_at(e, "required"@, 0);
            let ko = key_at(e, "anyOf"@, 0);
            &&& (if 0 <= kt < e.len() {
                types_of(e[kt].1) == Some(s.types@)
            } else {
                s.types@.len() == 0
            })
            &&& (if 0 <= kp < e.len() {
                properties_is(s.properties@, e[kp].1)
            } else {
                s.properties@.len() == 0
            })
            &&& (if 0 <= ki < e.len() {
                match s.items {
                    Some(b) => schema_is(*b, e[ki].1),
                    None => false,
                }
            } else {
                s.items is None
            })
            &&& s.required@.map_values(|r: String| r@) == (if 0 <= kr < e.len() {
                match items_of(e[kr].1) {
                    Some(rs) => texts_in(rs),
                    None => seq![],
                }
            } else {
                seq![]
            })
            &&& !s.additional_properties
            &&& (if 0 <= ko < e.len() {
                any_of_is(s.any_of@, e[ko].1)
            } else {
                s.any_of@.len() == 0
            })
        },
        _ => false,
    }
}

/// The position of the last entry of `e` whose key is the text `t`, or -1
/// where no key is.
pub open spec fn last_named(e: Seq<(YamlValue, YamlValue)>, t: Seq<char>) -> int
    decreases e.len(),
{
    if e.len() == 0 {
        -1
    } else if text_of(e.last().0) == Some(t) {
        e.len() - 1
    } else {
        last_named(e.drop_last(), t)
    }
}

/// The position of the last property of `ps` named `t`, or -1 where none is.
pub open spec fn property_rank(ps: Seq<(String, JsonValueSchema)>, t: Seq<char>) -> int
    decreases ps.len(),
{
    if ps.len() == 0 {
        -1
    } else if ps.last().0@ == t {
        ps.len() - 1
    } else {
        property_rank(ps.drop_last(), t)
    }
}

/// `ps` are the properties that `pv` writes, in ascending name order, each
/// name once, each described by the schema of the last entry with that name;
/// a value that is not an object writes none.
pub open spec fn properties_is(ps: Seq<(String, JsonValueSchema)>, pv: YamlValue) -> bool
    decreases pv,
{
    match pv {
        YamlValue::Tagged(inner) => properties_is(ps, *inner),
        YamlValue::Mapping(m) => {
            &&& forall|i: int, k: int| 0 <= i < k < ps.len() ==> lex_lt(#[trigger] ps[i].0@, #[trigger] ps[k].0@)
            &&& forall|i: int|
                #![trigger ps[i]]
                0 <= i < ps.len() ==> 0 <= last_named(m@, ps[i].0@) < m@.len() && schema_is(
                    ps[i].1,
                    m@[last_named(m@, ps[i].0@)].1,
                )
            &&& forall|j: int|
                #![trigger m@[j]]
                0 <= j < m@.len() && text_of(m@[j].0) is Some ==> property_rank(ps, text_of(m@[j].0)->Some_0) >= 0
        },
        _ => ps.len() == 0,
    }
}

proof fn lemma_last_named(e: Seq<(YamlValue, YamlValue)>, t: Seq<char>)
    ensures
        -1 <= last_named(e, t) < e.len(),
        last_named(e, t) >= 0 ==> text_of(e[last_named(e, t)].0) == Some(t),
        forall|j: int| 0 <= j < e.len() && text_of(#[trigger] e[j].0) == Some(t) ==> j <= last_named(e, t),
    decreases e.len(),
{
    if e.len() > 0 && text_of(e.last().0) != Some(t) {
        lemma_last_named(e.drop_last(), t);
        assert forall|j: int| 0 <= j < e.len() && text_of(#[trigger] e[j].0) == Some(t) implies j <= last_named(e, t) by {
            assert(j < e.len() - 1);
            assert(e.drop_last()[j] == e[j]);
        }
    }
}

proof fn lemma_property_rank(ps: Seq<(String, JsonValueSchema)>, i: int)
    requires
        0 <= i < ps.len(),
    ensures
        property_rank(ps, ps[i].0@) >= 0,
    decreases ps.len(),
{
    if ps.last().0@ != ps[i].0@ {
        assert(i < ps.len() - 1);
        assert(ps.drop_last()[i] == ps[i]);
        lemma_property_rank(ps.drop_last(), i);
    }
}

/// `bs` are the schemas of the branches that `av` lists; a value that is
/// not a list writes none.
pub open spec fn any_of_is(bs: Seq<JsonValueSchema>, av: YamlValue) -> bool
    decreases av,
{
    match av {
        YamlValue::Tagged(inner) => any_of_is(bs, *inner),
        YamlValue::Sequence(items) => bs.len() == items@.len() && forall|i: int|
            0 <= i < items@.len() ==> schema_is(#[trigger] bs[i], items@[i]),
        _ => bs.len() == 0,
    }
}

proof fn lemma_list_is_no_text(t: YamlValue)
    ensures
        items_of(t) is Some ==> text_of(t) is None,
    decreases t,
{
    if let YamlValue::Tagged(inner) = t {
        lemma_list_is_no_text(*inner);
    }
}

fn json_schema_types(t: &YamlValue) -> (r: Vec<JsonSchemaType>)
    requires
        type_valid(*t),
    ensures
        types_of(*t) == Some(r@),
{
    proof {
        lemma_list_is_no_text(*t);
    }
    match yaml_items(t) {
        Some(items) => {
            let mut out: Vec<JsonSchemaType> = Vec::new();
            let mut i: usize = 0;
            while i < items.len()
                invariant
                    items_of(*t) == Some(items@),
                    text_of(*t) is None,
                    type_valid(*t),
                    i <= items@.len(),
                    out@.len() == i,
                    forall|a: int|
                        0 <= a < i ==> Some(#[trigger] out@[a]) == schema_type_named(text_of(items@[a])->Some_0),
                decreases items.len() - i,
            {
                let name = match yaml_text(&items[i]) {
                    Some(name) => name,
                    None => {
                        proof {
                            assert(match text_of(items@[i as int]) {
                                Some(n) => schema_type_named(n) is Some,
                                None => false,
                            });
                        }
                        vstd::pervasive::unreached()
                    },
                };
                let ty = match schema_type_of(name.as_str()) {
                    Some(ty) => ty,
                    None => {
                        proof {
                            assert(match text_of(items@[i as int]) {
                                Some(n) => schema_type_named(n) is Some,
                                None => false,
                            });
                        }
                        vstd::pervasive::unreached()
                    },
                };
                out.push(ty);
                i = i + 1;
            }
            proof {
                assert(forall|a: int|
                    0 <= a < items@.len() ==> match text_of(#[trigger] items@[a]) {
                        Some(n) => schema_type_named(n) is Some,
                        None => false,
                    });
                assert(out@ =~= Seq::new(
                    items@.len(),
                    |a: int| schema_type_named(text_of(items@[a])->Some_0)->Some_0,
                ));
            }
            out
        },
        None => {
            let name = match yaml_text(t) {
                Some(name) => name,
                None => vstd::pervasive::unreached(),
            };
            let ty = match schema_type_of(name.as_str()) {
                Some(ty) => ty,
                None => vstd::pervasive::unreached(),
            };
            let mut out: Vec<JsonSchemaType> = Vec::new();
            out.push(ty);
            proof {
                assert(out@ =~= seq![ty]);
            }
            out
        },
    }
}

fn required_names(rv: &YamlValue) -> (r: Vec<String>)
    ensures
        r@.map_values(|x: String| x@) == match items_of(*rv) {
            Some(rs) => texts_in(rs),
            None => seq![],
        },
{
    let items = match yaml_items(rv) {
        Some(items) => items,
        None => {
            let out: Vec<String> = Vec::new();
            proof {
                assert(out@.map_values(|x: String| x@) =~= Seq::<Seq<char>>::empty());
            }
            return out;
        },
    };
    let mut out: Vec<String> = Vec::new();
    let mut i: usize = 0;
    while i < items.len()
        invariant
            items_of(*rv) == Some(items@),
            i <= items@.len(),
            out@.map_values(|x: String| x@) == texts_in(items@.take(i as int)),
        decreases items.len() - i,
    {
        proof {
            assert(items@.take(i + 1).drop_last() =~= items@.take(i as int));
            assert(items@.take(i + 1).last() == items@[i as int]);
        }
        match yaml_text(&items[i]) {
            Some(t) => {
                out.push(owned(t.as_str()));
            },
            None => {},
        }
        i = i + 1;
        proof {
            assert(out@.map_values(|x: String| x@) =~= texts_in(items@.take(i as int)));
        }
    }
    proof {
        assert(items@.take(i as int) =~= items@);
    }
    out
}


/// The schema that the YAML value `v` writes, where `v` is a schema of the
/// supported JSON Schema subset; `None` where it is not.
pub fn parse_json_value_schema(v: &YamlValue) -> (r: Option<JsonValueSchema>)
    ensures
        r is Some <==> schema_valid(*v, 0),
        r matches Some(s) ==> schema_is(s, *v),
{
    if valid_json_value_schema(v, 0) {
        Some(schema_of(v, Ghost(0)))
    } else {
        None
    }
}

/// The schema that a valid schema value writes.
fn schema_of(v: &YamlValue, Ghost(depth): Ghost<int>) -> (s: JsonValueSchema)
    requires
        schema_valid(*v, depth),
    ensures
        schema_is(s, *v),
    decreases v,
{
    match v {
        YamlValue::Tagged(inner) => schema_of(&**inner, Ghost(depth)),
        YamlValue::Mapping(m) => {
            let types = match key_position(m, "type") {
                Some(i) => json_schema_types(&m[i].1),
                None => Vec::new(),
            };
            let properties = match key_position(m, "properties") {
                Some(i) => {
                    proof {
                        assert(decreases_to!(v => m@[i as int].1));
                    }
                    parse_properties(&m[i].1, Ghost(depth))
                },
                None => Vec::new(),
            };
            let items = match key_position(m, "items") {
                Some(i) => {
                    proof {
                        assert(decreases_to!(v => m@[i as int].1));
                    }
                    Some(Box::new(schema_of(&m[i].1, Ghost(depth + 1))))
                },
                None => None,
            };
            let required = match key_position(m, "required") {
                Some(i) => required_names(&m[i].1),
                None => Vec::new(),
            };
            let any_of = match key_position(m, "anyOf") {
                Some(i) => {
                    proof {
                        assert(decreases_to!(v => m@[i as int].1));
                    }
                    parse_any_of(&m[i].1, Ghost(depth))
                },
                None => Vec::new(),
            };
            let s = JsonValueSchema { types, properties, items, required, additional_properties: false, any_of };
            proof {
                assert(s.types@.len() == 0 || key_at(m@, "type"@, 0) >= 0);
                if key_at(m@, "required"@, 0) < 0 {
                    assert(s.required@.map_values(|r: String| r@) =~= Seq::<Seq<char>>::empty());
                }
            }
            s
        },
        _ => vstd::pervasive::unreached(),
    }
}

fn parse_properties(pv: &YamlValue, Ghost(depth): Ghost<int>) -> (r: Vec<(String, JsonValueSchema)>)
    requires
        properties_valid(*pv, depth),
    ensures
        properties_is(r@, *pv),
    decreases pv,
{
    match pv {
        YamlValue::Tagged(inner) => parse_properties(&**inner, Ghost(depth)),
        YamlValue::Mapping(m) => {
            let mut map: TextMap<JsonValueSchema> = TextMap::new();
            let mut j: usize = 0;
            while j < m.len()
                invariant
                    *pv == YamlValue::Mapping(*m),
                    properties_valid(*pv, depth),
                    j <= m@.len(),
                    map.wf(),
                    forall|k: Seq<char>| #[trigger]
                        map.has_key(k) == (last_named(m@.take(j as int), k) >= 0),
                    forall|k: Seq<char>| #[trigger]
                        map.has_key(k) ==> schema_is(
                            map.spec_get(k)->Some_0,
                            m@[last_named(m@.take(j as int), k)].1,
                        ),
                decreases m.len() - j,
            {
                assert(match text_of(m@[j as int].0) {
                    Some(n) => n.len() > 0,
                    None => false,
                } && schema_valid(m@[j as int].1, depth + 1));
                let name = match yaml_text(&m[j].0) {
                    Some(name) => name,
                    None => vstd::pervasive::unreached(),
                };
                proof {
                    let whole = *pv;
                    assert(whole->Mapping_0 == *m);
                    assert(decreases_to!(whole => whole->Mapping_0));
                    assert(decreases_to!(whole => m@[j as int]));
                    assert(decreases_to!(pv => m@[j as int].1));
                }
                let schema = schema_of(&m[j].1, Ghost(depth + 1));
                let ghost before = map;
                let ghost key = name@;
                map.insert(owned(name.as_str()), schema);
                proof {
                    let tj = m@.take(j + 1);
                    assert(tj.drop_last() =~= m@.take(j as int));
                    assert(tj.last() == m@[j as int]);
                    assert forall|k: Seq<char>| #[trigger]
                        map.has_key(k) == (last_named(tj, k) >= 0) by {
                        lemma_last_named(m@.take(j as int), k);
                    }
                    assert forall|k: Seq<char>| #[trigger]
                        map.has_key(k) implies schema_is(map.spec_get(k)->Some_0, m@[last_named(tj, k)].1) by {
                        if k != key {
                            lemma_last_named(m@.take(j as int), k);
                            assert(before.has_key(k));
                            assert(map.spec_get(k) == before.spec_get(k));
                        }
                    }
                }
                j = j + 1;
            }
            let ghost done = map;
            proof {
                done.lemma_wf();
            }
            let out = map.into_entries();
            proof {
                let es = done.entries();
                assert forall|i: int, k: int| 0 <= i < k < out@.len() implies lex_lt(
                    #[trigger] out@[i].0@,
                    #[trigger] out@[k].0@,
                ) by {
                    assert(out@[i].0@ == es[i].0);
                    assert(out@[k].0@ == es[k].0);
                }
                assert(m@.take(m@.len() as int) =~= m@);
                assert forall|i: int|
                    #![trigger out@[i]]
                    0 <= i < out@.len() implies 0 <= last_named(m@, out@[i].0@) < m@.len() && schema_is(
                        out@[i].1,
                        m@[last_named(m@, out@[i].0@)].1,
                    ) by {
                    crate::text_map::lemma_entries_get_at(es, i);
                    lemma_last_named(m@, out@[i].0@);
                    assert(out@[i].0@ == es[i].0);
                    assert(done.has_key(es[i].0));
                    assert(done.spec_get(es[i].0) == Some(es[i].1));
                }
                assert forall|a: int|
                    #![trigger m@[a]]
                    0 <= a < m@.len() && text_of(m@[a].0) is Some implies property_rank(
                        out@,
                        text_of(m@[a].0)->Some_0,
                    ) >= 0 by {
                    let t = text_of(m@[a].0)->Some_0;
                    lemma_last_named(m@, t);
                    assert(done.has_key(t));
                    let i = choose|i: int| 0 <= i < es.len() && #[trigger] es[i].0 == t;
                    assert(out@[i].0@ == t);
                    lemma_property_rank(out@, i);
                }
                assert(properties_is(out@, *pv));
            }
            out
        },
        _ => vstd::pervasive::unreached(),
    }
}

fn parse_any_of(av: &YamlValue, Ghost(depth): Ghost<int>) -> (r: Vec<JsonValueSchema>)
    requires
        any_of_valid(*av, depth),
    ensures
        any_of_is(r@, *av),
    decreases av,
{
    match av {
        YamlValue::Tagged(inner) => parse_any_of(&**inner, Ghost(depth)),
        YamlValue::Sequence(items) => {
            let mut out: Vec<JsonValueSchema> = Vec::new();
            let mut i: usize = 0;
            while i < items.len()
                invariant
                    *av == YamlValue::Sequence(*items),
                    any_of_valid(*av, depth),
                    i <= items@.len(),
                    out@.len() == i,
                    forall|a: int| 0 <= a < i ==> schema_is(#[trigger] out@[a], items@[a]),
                decreases items.len() - i,
            {
                proof {
                    let whole = *av;
                    assert(whole->Sequence_0 == *items);
                    assert(decreases_to!(whole => whole->Sequence_0));
                    assert(decreases_to!(whole => items@[i as int]));
                }
                let schema = schema_of(&items[i], Ghost(depth + 1));
                out.push(schema);
                i = i + 1;
            }
            out
        },
        _ => vstd::pervasive::unreached(),
    }
}

/// `g` answers every number, and the same number always alike.
pub open spec fn number_writer<G: Fn(&YamlNumber) -> Option<String>>(g: G) -> bool {
    &&& forall|n: &YamlNumber| #[trigger] g.requires((n,))
    &&& forall|n: &YamlNumber, a: Option<String>, b: Option<String>|
        #![trigger g.ensures((n,), a), g.ensures((n,), b)]
        g.ensures((n,), a) && g.ensures((n,), b) ==> a == b
}

/// The decimal that `g` writes for `n`; `None` where `n` is not finite.
pub open spec fn written<G: Fn(&YamlNumber) -> Option<String>>(g: G, n: YamlNumber) -> Option<String> {
    choose|s: Option<String>| g.ensures((&n,), s)
}

proof fn lemma_written<G: Fn(&YamlNumber) -> Option<String>>(g: G, n: &YamlNumber, s: Option<String>)
    requires
        number_writer(g),
        g.ensures((n,), s),
    ensures
        written(g, *n) == s,
{
    let c = written(g, *n);
    assert(g.ensures((n,), c));
}

/// The value of the entry named `key`, the first such where several are.
pub open spec fn entry(e: Seq<(YamlValue, YamlValue)>, key: Seq<char>) -> Option<YamlValue> {
    let k = key_at(e, key, 0);
    if 0 <= k < e.len() {
        Some(e[k].1)
    } else {
        None
    }
}

/// The decimal that `g` writes for a YAML number; `None` for anything else.
pub open spec fn number_text<G: Fn(&YamlNumber) -> Option<String>>(g: G, v: YamlValue) -> Option<String> {
    match number_of(v) {
        Some(n) => written(g, n),
        None => None,
    }
}

/// A length: a YAML number that is an unsigned integer fitting in `usize`.
pub open spec fn length_of(v: YamlValue) -> Option<usize> {
    match number_of(v) {
        Some(n) => match n.unsigned {
            Some(u) => if u <= usize::MAX {
                Some(u as usize)
            } else {
                None
            },
            None => None,
        },
        None => None,
    }
}

pub open spec fn numeric_type(t: LogicalType) -> bool {
    t == LogicalType::Integer || t == LogicalType::Int64 || t == LogicalType::Number
}

pub open spec fn text_type(t: LogicalType) -> bool {
    t == LogicalType::String || t == LogicalType::Date || t == LogicalType::DateTime || t == LogicalType::Instant
}

/// An allowed value can be read: a string, a boolean, or a finite number.
pub open spec fn scalar_readable<G: Fn(&YamlNumber) -> Option<String>>(g: G, v: YamlValue) -> bool {
    text_of(v) is Some || bool_of(v) is Some || number_text(g, v) is Some
}

/// An allowed value suits a column of type `t`.
pub open spec fn scalar_fits(v: YamlValue, t: LogicalType) -> bool {
    if text_of(v) is Some {
        text_type(t)
    } else if bool_of(v) is Some {
        t == LogicalType::Boolean
    } else {
        numeric_type(t)
    }
}

/// `c` is the allowed value that `v` writes.
pub open spec fn scalar_is<G: Fn(&YamlNumber) -> Option<String>>(g: G, c: ConstraintScalar, v: YamlValue) -> bool {
    match text_of(v) {
        Some(t) => match c {
            ConstraintScalar::String(s) => s@ == t,
            _ => false,
        },
        None => match bool_of(v) {
            Some(b) => c == ConstraintScalar::Boolean(b),
            None => match number_text(g, v) {
                Some(s) => c == ConstraintScalar::Number(s),
                None => false,
            },
        },
    }
}

/// The values that an `enum` entry lists; none where it is absent or no list.
pub open spec fn enum_items(e: Seq<(YamlValue, YamlValue)>) -> Seq<YamlValue> {
    match entry(e, "enum"@) {
        Some(x) => match items_of(x) {
            Some(xs) => xs,
            None => seq![],
        },
        None => seq![],
    }
}

/// The text of a `pattern` entry; none where it is absent or no string.
pub open spec fn pattern_of(e: Seq<(YamlValue, YamlValue)>) -> Option<Seq<char>> {
    match entry(e, "pattern"@) {
        Some(x) => text_of(x),
        None => None,
    }
}

/// The lower bound `lo` is not above the decimal `hi`, as `f` compares them.
pub open spec fn bounds_ordered<F: Fn(&LogicalValue, &String) -> Option<NumericOrder>>(
    f: F,
    lo: YamlNumber,
    hi: String,
) -> bool {
    let o = compared(f, LogicalValue::Number(lo.double_bits), hi);
    o == Some(NumericOrder::Below) || o == Some(NumericOrder::Equal)
}

/// The constraints that `v` writes are admitted for a column of type `t`:
/// `v` is an object; each allowed value can be read and suits the type;
/// bounds are finite numbers, the lower not above the upper; lengths are
/// unsigned integers, the shorter not above the longer; bounds only on
/// numeric types; lengths and patterns only on textual types; and a pattern
/// is at most 256 bytes and compiles.
pub open spec fn constraints_ok<G: Fn(&YamlNumber) -> Option<String>, F: Fn(&LogicalValue, &String) -> Option<NumericOrder>>(
    g: G,
    f: F,
    v: YamlValue,
    t: LogicalType,
) -> bool {
    match entries_of(v) {
        None => false,
        Some(e) => {
            let allowed = enum_items(e);
            let min = entry(e, "minimum"@);
            let max = entry(e, "maximum"@);
            let min_len = entry(e, "minLength"@);
            let max_len = entry(e, "maxLength"@);
            let pattern = pattern_of(e);
            &&& forall|i: int|
                0 <= i < allowed.len() ==> scalar_readable(g, #[trigger] allowed[i]) && scalar_fits(allowed[i], t)
            &&& (min is Some ==> number_text(g, min->Some_0) is Some)
            &&& (max is Some ==> number_text(g, max->Some_0) is Some)
            &&& (min_len is Some ==> length_of(min_len->Some_0) is Some)
            &&& (max_len is Some ==> length_of(max_len->Some_0) is Some)
            &&& (min is Some && max is Some ==> bounds_ordered(
                f,
                number_of(min->Some_0)->Some_0,
                number_text(g, max->Some_0)->Some_0,
            ))
            &&& (min_len is Some && max_len is Some ==> length_of(min_len->Some_0)->Some_0 <= length_of(
                max_len->Some_0,
            )->Some_0)
            &&& (!numeric_type(t) ==> min is None && max is None)
            &&& (!text_type(t) ==> min_len is None && max_len is None && pattern is None)
            &&& (pattern is Some ==> encode_utf8(pattern->Some_0).len() <= 256 && regex_compiles(pattern->Some_0))
        },
    }
}

/// `c` holds what the constraints object `v` writes.
pub open spec fn constraints_are<G: Fn(&YamlNumber) -> Option<String>>(g: G, c: ValueConstraints, v: YamlValue) -> bool {
    match entries_of(v) {
        None => false,
        Some(e) => {
            let allowed = enum_items(e);
            let min = entry(e, "minimum"@);
            let max = entry(e, "maximum"@);
            let min_len = entry(e, "minLength"@);
            let max_len = entry(e, "maxLength"@);
            &&& c.allowed@.len() == allowed.len()
            &&& forall|i: int| 0 <= i < allowed.len() ==> scalar_is(g, #[trigger] c.allowed@[i], allowed[i])
            &&& c.minimum == (if min is Some { number_text(g, min->Some_0) } else { None })
            &&& c.maximum == (if max is Some { number_text(g, max->Some_0) } else { None })
            &&& c.min_length == (if min_len is Some { length_of(min_len->Some_0) } else { None })
            &&& c.max_length == (if max_len is Some { length_of(max_len->Some_0) } else { None })
            &&& match c.pattern {
                Some(p) => pattern_of(e) == Some(p@),
                None => pattern_of(e) is None,
            }
        },
    }
}

fn entry_value<'a>(e: &'a Vec<(YamlValue, YamlValue)>, key: &str) -> (r: Option<&'a YamlValue>)
    ensures
        match entry(e@, key@) {
            Some(x) => r matches Some(y) && *y == x,
            None => r is None,
        },
{
    match key_position(e, key) {
        Some(i) => Some(&e[i].1),
        None => None,
    }
}

fn number_written<G: Fn(&YamlNumber) -> Option<String>>(g: &G, v: &YamlValue) -> (r: Option<String>)
    requires
        number_writer(*g),
    ensures
        r == number_text(*g, *v),
{
    match yaml_number(v) {
        Some(n) => {
            let r = g(&n);
            proof {
                lemma_written(*g, &n, r);
            }
            r
        },
        None => None,
    }
}

fn length_value(v: &YamlValue) -> (r: Option<usize>)
    ensures
        r == length_of(*v),
{
    match yaml_number(v) {
        Some(n) => match n.unsigned {
            Some(u) => if u <= usize::MAX as u64 {
                Some(u as usize)
            } else {
                None
            },
            None => None,
        },
        None => None,
    }
}

fn scalar_value<G: Fn(&YamlNumber) -> Option<String>>(g: &G, v: &YamlValue) -> (r: Option<ConstraintScalar>)
    requires
        number_writer(*g),
    ensures
        r is Some == scalar_readable(*g, *v),
        r matches Some(c) ==> scalar_is(*g, c, *v),
{
    match yaml_text(v) {
        Some(t) => Some(ConstraintScalar::String(owned(t.as_str()))),
        None => match yaml_bool(v) {
            Some(b) => Some(ConstraintScalar::Boolean(b)),
            None => match number_written(g, v) {
                Some(s) => Some(ConstraintScalar::Number(s)),
                None => None,
            },
        },
    }
}

fn scalar_suits(v: &YamlValue, t: LogicalType) -> (r: bool)
    ensures
        r == scalar_fits(*v, t),
{
    if yaml_text(v).is_some() {
        t == LogicalType::String || t == LogicalType::Date || t == LogicalType::DateTime || t == LogicalType::Instant
    } else if yaml_bool(v).is_some() {
        t == LogicalType::Boolean
    } else {
        t == LogicalType::Integer || t == LogicalType::Int64 || t == LogicalType::Number
    }
}

fn read_scalars<G: Fn(&YamlNumber) -> Option<String>>(g: &G, items: &Vec<YamlValue>, t: LogicalType) -> (r: Option<
    Vec<ConstraintScalar>,
>)
    requires
        number_writer(*g),
    ensures
        r is Some == forall|i: int|
            0 <= i < items@.len() ==> scalar_readable(*g, #[trigger] items@[i]) && scalar_fits(items@[i], t),
        r matches Some(cs) ==> cs@.len() == items@.len() && forall|i: int|
            0 <= i < items@.len() ==> scalar_is(*g, #[trigger] cs@[i], items@[i]),
{
    let mut out: Vec<ConstraintScalar> = Vec::new();
    let mut i: usize = 0;
    while i < items.len()
        invariant
            number_writer(*g),
            i <= items@.len(),
            out@.len() == i,
            forall|a: int| 0 <= a < i ==> scalar_readable(*g, #[trigger] items@[a]) && scalar_fits(items@[a], t),
            forall|a: int| 0 <= a < i ==> scalar_is(*g, #[trigger] out@[a], items@[a]),
        decreases items.len() - i,
    {
        let c = match scalar_value(g, &items[i]) {
            Some(c) => c,
            None => return None,
        };
        if !scalar_suits(&items[i], t) {
            return None;
        }
        out.push(c);
        i = i + 1;
    }
    Some(out)
}

/// The constraints that the YAML value `value` writes for a column of type
/// `t`, decimals written by `canonical` and bounds compared by `numbers`;
/// `None` where the object is refused.
pub fn parse_constraints<G: Fn(&YamlNumber) -> Option<String>, F: Fn(&LogicalValue, &String) -> Option<NumericOrder>>(
    value: &YamlValue,
    t: LogicalType,
    canonical: &G,
    numbers: &F,
) -> (r: Option<ValueConstraints>)
    requires
        number_writer(*canonical),
        comparer(*numbers),
    ensures
        r is Some <==> constraints_ok(*canonical, *numbers, *value, t),
        r matches Some(c) ==> constraints_are(*canonical, c, *value),
{
    let e = match yaml_entries(value) {
        Some(e) => e,
        None => return None,
    };
    let allowed = match entry_value(e, "enum") {
        Some(x) => match yaml_items(x) {
            Some(xs) => {
                proof {
                    assert(enum_items(e@) == xs@);
                }
                match read_scalars(canonical, xs, t) {
                    Some(cs) => cs,
                    None => return None,
                }
            },
            None => Vec::new(),
        },
        None => Vec::new(),
    };
    let min_entry = entry_value(e, "minimum");
    let max_entry = entry_value(e, "maximum");
    let minimum = match min_entry {
        Some(x) => match number_written(canonical, x) {
            Some(s) => Some(s),
            None => return None,
        },
        None => None,
    };
    let maximum = match max_entry {
        Some(x) => match number_written(canonical, x) {
            Some(s) => Some(s),
            None => return None,
        },
        None => None,
    };
    let min_length = match entry_value(e, "minLength") {
        Some(x) => match length_value(x) {
            Some(n) => Some(n),
            None => return None,
        },
        None => None,
    };
    let max_length = match entry_value(e, "maxLength") {
        Some(x) => match length_value(x) {
            Some(n) => Some(n),
            None => return None,
        },
        None => None,
    };
    let pattern = match entry_value(e, "pattern") {
        Some(x) => match yaml_text(x) {
            Some(p) => Some(owned(p.as_str())),
            None => None,
        },
        None => None,
    };
    match (min_entry, &maximum) {
        (Some(lo), Some(hi)) => {
            let lo_number = match yaml_number(lo) {
                Some(n) => n,
                None => return None,
            };
            let o = compare_number(numbers, &LogicalValue::Number(lo_number.double_bits), hi);
            if !(o == Some(NumericOrder::Below) || o == Some(NumericOrder::Equal)) {
                return None;
            }
        },
        _ => {},
    }
    match (min_length, max_length) {
        (Some(lo), Some(hi)) => {
            if lo > hi {
                return None;
            }
        },
        _ => {},
    }
    let numeric = t == LogicalType::Integer || t == LogicalType::Int64 || t == LogicalType::Number;
    let textual = t == LogicalType::String || t == LogicalType::Date || t == LogicalType::DateTime || t
        == LogicalType::Instant;
    if !numeric && (minimum.is_some() || maximum.is_some()) {
        return None;
    }
    if !textual && (min_length.is_some() || max_length.is_some() || pattern.is_some()) {
        return None;
    }
    match &pattern {
        Some(p) => {
            if p.as_str().as_bytes().len() > 256 {
                return None;
            }
            if compile_pattern(p.as_str()).is_none() {
                return None;
            }
        },
        None => {},
    }
    Some(ValueConstraints { allowed, minimum, maximum, min_length, max_length, pattern })
}

/// A column as a Catalog manifest declares it.
#[derive(Debug)]
pub struct RawCatalogColumn {
    pub logical_type: Option<String>,
    pub representation: Option<String>,
    pub storage: Option<String>,
    pub nullable: Option<bool>,
    pub format: Option<String>,
    pub constraints: Option<YamlValue>,
    pub json_schema: Option<YamlValue>,
}

/// A column of the physical schema: its declared SQL type and nullability.
#[derive(Debug)]
pub struct PhysicalColumn {
    pub declared_type: String,
    pub nullable: bool,
}

/// The text of an optional string.
pub open spec fn opt_text(o: Option<String>) -> Option<Seq<char>> {
    match o {
        Some(s) => Some(s@),
        None => None,
    }
}

/// The storage class that the physical column's declared type has; none
/// where there is no physical column.
pub open spec fn physical_storage(physical: Option<&PhysicalColumn>) -> Option<StorageClass> {
    match physical {
        Some(p) => declared_affinity(p.declared_type@),
        None => None,
    }
}

/// The logical type and default representation of a column: from its
/// declared type name, else from the physical storage class.
pub open spec fn column_type(column: RawCatalogColumn, physical: Option<&PhysicalColumn>) -> Option<
    (LogicalType, ValueRepresentation),
> {
    match column.logical_type {
        Some(n) => type_named(n@),
        None => match physical_storage(physical) {
            Some(s) => Some(derived_type(s)),
            None => None,
        },
    }
}

/// The storage class of a column: the one it names, else the physical one.
pub open spec fn column_storage(column: RawCatalogColumn, physical: Option<&PhysicalColumn>) -> Option<StorageClass> {
    match column.storage {
        Some(s) => storage_named(s@),
        None => physical_storage(physical),
    }
}

/// The nullability of a column: as declared, else as the physical column
/// is, else not nullable.
pub open spec fn column_nullable(column: RawCatalogColumn, physical: Option<&PhysicalColumn>) -> bool {
    match column.nullable {
        Some(b) => b,
        None => match physical {
            Some(p) => p.nullable,
            None => false,
        },
    }
}

/// A manifest column is admitted: a physical column's declared type has a
/// storage class; the type is known or derivable; the representation is
/// known; the format suits the type; the constraints are admitted; a JSON
/// schema stands only on a JSON column with JSON representation and is in
/// the supported subset; a named storage class is known, agrees with the
/// physical one and suits the type; and declared nullability agrees with
/// the physical column.
pub open spec fn column_ok<G: Fn(&YamlNumber) -> Option<String>, F: Fn(&LogicalValue, &String) -> Option<NumericOrder>>(
    g: G,
    f: F,
    column: RawCatalogColumn,
    physical: Option<&PhysicalColumn>,
) -> bool {
    let typed = column_type(column, physical);
    let t = typed->Some_0.0;
    let rep = representation_named(opt_text(column.representation), typed->Some_0.1);
    &&& (physical is Some ==> physical_storage(physical) is Some)
    &&& typed is Some
    &&& rep is Some
    &&& format_fits(t, opt_text(column.format))
    &&& (column.constraints is Some ==> constraints_ok(g, f, column.constraints->Some_0, t))
    &&& (column.json_schema is Some ==> t == LogicalType::Json && rep == Some(ValueRepresentation::Json)
        && schema_valid(column.json_schema->Some_0, 0))
    &&& (column.storage is Some ==> storage_named(column.storage->Some_0@) is Some)
    &&& (column.storage is Some && physical_storage(physical) is Some ==> storage_named(column.storage->Some_0@)
        == physical_storage(physical))
    &&& match column_storage(column, physical) {
        Some(s) => storage_fits(t, s),
        None => true,
    }
    &&& (column.nullable is Some && physical is Some ==> column.nullable->Some_0 == physical->Some_0.nullable)
}

/// `d` describes the admitted manifest column.
pub open spec fn column_is<G: Fn(&YamlNumber) -> Option<String>>(
    g: G,
    d: ValueDescriptor,
    column: RawCatalogColumn,
    physical: Option<&PhysicalColumn>,
) -> bool {
    let typed = column_type(column, physical)->Some_0;
    &&& d.logical_type == typed.0
    &&& Some(d.representation) == representation_named(opt_text(column.representation), typed.1)
    &&& d.nullable == column_nullable(column, physical)
    &&& opt_text(d.format) == opt_text(column.format)
    &&& d.storage == column_storage(column, physical)
    &&& match column.constraints {
        Some(v) => match d.constraints {
            Some(c) => constraints_are(g, c, v),
            None => false,
        },
        None => d.constraints is None,
    }
    &&& match column.json_schema {
        Some(v) => match d.json_schema {
            Some(s) => schema_is(s, v),
            None => false,
        },
        None => d.json_schema is None,
    }
}

fn opt_str(o: &Option<String>) -> (r: Option<&str>)
    ensures
        match o {
            Some(s) => r matches Some(t) && t@ == s@,
            None => r is None,
        },
{
    match o {
        Some(s) => Some(s.as_str()),
        None => None,
    }
}

/// The value descriptor of a manifest column, read beside its physical
/// column where the schema has one; `None` where the column is refused.
pub fn column_descriptor<G: Fn(&YamlNumber) -> Option<String>, F: Fn(&LogicalValue, &String) -> Option<NumericOrder>>(
    column: &RawCatalogColumn,
    physical: Option<&PhysicalColumn>,
    canonical: &G,
    numbers: &F,
) -> (r: Option<ValueDescriptor>)
    requires
        number_writer(*canonical),
        comparer(*numbers),
    ensures
        r is Some <==> column_ok(*canonical, *numbers, *column, physical),
        r matches Some(d) ==> column_is(*canonical, d, *column, physical),
{
    let derived = match physical {
        Some(p) => match declared_storage(p.declared_type.as_str()) {
            Some(s) => Some(s),
            None => return None,
        },
        None => None,
    };
    let typed = match &column.logical_type {
        Some(n) => logical_type(n.as_str()),
        None => match derived {
            Some(s) => Some(derived_logical_type(s)),
            None => None,
        },
    };
    let (t, default_representation) = match typed {
        Some(p) => p,
        None => return None,
    };
    let rep_text = opt_str(&column.representation);
    let rep = match representation(rep_text, default_representation) {
        Some(r) => r,
        None => return None,
    };
    let format_text = opt_str(&column.format);
    if !validate_format(t, format_text) {
        return None;
    }
    let constraints = match &column.constraints {
        Some(v) => match parse_constraints(v, t, canonical, numbers) {
            Some(c) => Some(c),
            None => return None,
        },
        None => None,
    };
    let json_schema = match &column.json_schema {
        Some(v) => {
            if t != LogicalType::Json || rep != ValueRepresentation::Json {
                return None;
            }
            match parse_json_value_schema(v) {
                Some(s) => Some(s),
                None => return None,
            }
        },
        None => None,
    };
    let named = match &column.storage {
        Some(s) => match storage_class(s.as_str()) {
            Some(c) => Some(c),
            None => return None,
        },
        None => None,
    };
    match (named, derived) {
        (Some(a), Some(b)) => {
            if a != b {
                return None;
            }
        },
        _ => {},
    }
    let storage = match named {
        Some(c) => Some(c),
        None => derived,
    };
    if !validate_storage(t, storage) {
        return None;
    }
    let nullable = match column.nullable {
        Some(b) => {
            match physical {
                Some(p) => {
                    if b != p.nullable {
                        return None;
                    }
                },
                None => {},
            }
            b
        },
        None => match physical {
            Some(p) => p.nullable,
            None => false,
        },
    };
    let format = match &column.format {
        Some(f) => Some(owned(f.as_str())),
        None => None,
    };
    Some(
        ValueDescriptor {
            logical_type: t,
            representation: rep,
            nullable,
            format,
            storage,
            constraints,
            json_schema,
        },
    )
}

/// A resource as a Catalog manifest declares it: the physical table it
/// reads and its columns by name.
#[derive(Debug)]
pub struct RawCatalogResource {
    pub table: String,
    pub columns: TextMap<RawCatalogColumn>,
}

/// A Catalog manifest: its format version and its resources by name.
#[derive(Debug)]
pub struct RawCatalogManifest {
    pub version: u32,
    pub resources: TextMap<RawCatalogResource>,
}

/// A table of the physical schema: its columns by name.
#[derive(Debug)]
pub struct PhysicalTable {
    pub columns: TextMap<PhysicalColumn>,
}

/// The physical schema that a manifest is checked against: tables by name.
#[derive(Debug)]
pub struct PhysicalSchema {
    pub tables: TextMap<PhysicalTable>,
}

/// The maps of a physical schema keep their keys in order.
pub open spec fn physical_wf(physical: Option<&PhysicalSchema>) -> bool {
    match physical {
        Some(ps) => ps.tables.wf() && forall|k: Seq<char>| #[trigger]
            ps.tables.spec_get(k) is Some ==> ps.tables.spec_get(k)->Some_0.columns.wf(),
        None => true,
    }
}

/// The physical table named `table`, where a schema is given.
pub open spec fn physical_table(physical: Option<&PhysicalSchema>, table: Seq<char>) -> Option<PhysicalTable> {
    match physical {
        Some(ps) => ps.tables.spec_get(table),
        None => None,
    }
}

/// The physical column `column` of the table named `table`, where a schema
/// is given and has both.
pub open spec fn physical_column(physical: Option<&PhysicalSchema>, table: Seq<char>, column: Seq<char>) -> Option<
    &PhysicalColumn,
> {
    match physical_table(physical, table) {
        Some(t) => match t.columns.spec_get(column) {
            Some(c) => Some(&c),
            None => None,
        },
        None => None,
    }
}

/// The Catalog lookup keys of named entries.
pub open spec fn name_keys<V>(entries: Seq<(Seq<char>, V)>) -> Seq<Seq<char>> {
    entries.map_values(|e: (Seq<char>, V)| catalog_key(e.0))
}

/// A manifest resource is admitted: it has columns, its physical table
/// exists where a schema is given, each column exists there, is admitted
/// and has a non-blank name, no two column names differ only in ASCII case,
/// and its name and table are not blank.
pub open spec fn resource_ok<G: Fn(&YamlNumber) -> Option<String>, F: Fn(&LogicalValue, &String) -> Option<NumericOrder>>(
    g: G,
    f: F,
    name: Seq<char>,
    res: RawCatalogResource,
    physical: Option<&PhysicalSchema>,
) -> bool {
    let cols = res.columns.entries();
    &&& cols.len() > 0
    &&& (physical is Some ==> physical_table(physical, res.table@) is Some)
    &&& forall|j: int|
        0 <= j < cols.len() ==> (physical is Some ==> physical_column(physical, res.table@, #[trigger] cols[j].0) is Some)
            && column_ok(g, f, cols[j].1, physical_column(physical, res.table@, cols[j].0)) && non_blank(cols[j].0)
    &&& column_list_ok(name_keys(cols))
    &&& non_blank(name)
    &&& non_blank(res.table@)
}

/// The column `cd` of resource `id` is the `j`-th manifest column `col`.
pub open spec fn column_entry_is<G: Fn(&YamlNumber) -> Option<String>>(
    g: G,
    cd: ColumnDescriptor,
    id: ResourceId,
    j: int,
    col: (Seq<char>, RawCatalogColumn),
    physical: Option<&PhysicalColumn>,
) -> bool {
    &&& cd.id == ColumnId::spec_new(id, j as u32)
    &&& cd.name@ == col.0
    &&& column_is(g, cd.value, col.1, physical)
}

/// `d` is the resource that the admitted manifest resource `res` named
/// `name` becomes with identity `id`: its columns are exactly the manifest
/// columns, in manifest order, each described as the column reads.
pub open spec fn resource_is<G: Fn(&YamlNumber) -> Option<String>>(
    g: G,
    d: ResourceDescriptor,
    id: int,
    name: Seq<char>,
    res: RawCatalogResource,
    physical: Option<&PhysicalSchema>,
) -> bool {
    let cols = res.columns.entries();
    &&& d.wf()
    &&& d.id_spec()@ == id
    &&& d.name_spec()@ == name
    &&& d.source_spec()@ == res.table@
    &&& forall|k: Seq<char>| #[trigger] d.column_spec(k) is Some == name_keys(cols).contains(k)
    &&& forall|j: int|
        0 <= j < cols.len() ==> #[trigger] d.column_spec(catalog_key(cols[j].0)) is Some && column_entry_is(
            g,
            d.column_spec(catalog_key(cols[j].0))->Some_0,
            d.id_spec(),
            j,
            cols[j],
            physical_column(physical, res.table@, cols[j].0),
        )
}

/// A manifest is admitted: version 1, at least one resource, every resource
/// admitted, and no two resource names that differ only in ASCII case.
pub open spec fn manifest_ok<G: Fn(&YamlNumber) -> Option<String>, F: Fn(&LogicalValue, &String) -> Option<NumericOrder>>(
    g: G,
    f: F,
    manifest: RawCatalogManifest,
    physical: Option<&PhysicalSchema>,
) -> bool {
    let rs = manifest.resources.entries();
    &&& manifest.version == 1
    &&& rs.len() > 0
    &&& forall|i: int| 0 <= i < rs.len() ==> resource_ok(g, f, #[trigger] rs[i].0, rs[i].1, physical)
    &&& resource_list_ok(name_keys(rs))
}

/// `c` is the Catalog that the admitted manifest becomes: the snapshot, and
/// exactly the manifest's resources, the `i`-th with identity `i + 1`.
pub open spec fn catalog_is<G: Fn(&YamlNumber) -> Option<String>>(
    g: G,
    c: Catalog,
    snapshot: SnapshotId,
    manifest: RawCatalogManifest,
    physical: Option<&PhysicalSchema>,
) -> bool {
    let rs = manifest.resources.entries();
    &&& c.snapshot_spec() == snapshot
    &&& forall|k: Seq<char>| #[trigger] c.resource_spec(k) is Some == name_keys(rs).contains(k)
    &&& forall|i: int|
        0 <= i < rs.len() ==> #[trigger] c.resource_spec(catalog_key(rs[i].0)) is Some && resource_is(
            g,
            c.resource_spec(catalog_key(rs[i].0))->Some_0,
            i + 1,
            rs[i].0,
            rs[i].1,
            physical,
        )
}

fn activate_resource<G: Fn(&YamlNumber) -> Option<String>, F: Fn(&LogicalValue, &String) -> Option<NumericOrder>>(
    index: usize,
    name: &str,
    res: &RawCatalogResource,
    physical: Option<&PhysicalSchema>,
    canonical: &G,
    numbers: &F,
) -> (r: Option<ResourceDescriptor>)
    requires
        number_writer(*canonical),
        comparer(*numbers),
        physical_wf(physical),
        index < u64::MAX,
    ensures
        r is Some <==> resource_ok(*canonical, *numbers, name@, *res, physical),
        r matches Some(d) ==> resource_is(*canonical, d, index + 1, name@, *res, physical),
{
    let cols = &res.columns;
    let n = cols.len();
    if n == 0 {
        return None;
    }
    let table = match physical {
        Some(ps) => match ps.tables.get(res.table.as_str()) {
            Some(t) => Some(t),
            None => return None,
        },
        None => None,
    };
    let ghost es = cols.entries();
    let mut built: Vec<(ColumnName, ValueDescriptor)> = Vec::new();
    let mut j: usize = 0;
    while j < n
        invariant
            number_writer(*canonical),
            comparer(*numbers),
            physical_wf(physical),
            n == es.len(),
            es == cols.entries(),
            *cols == res.columns,
            j <= n,
            match physical {
                Some(ps) => table matches Some(t) && *t == ps.tables.spec_get(res.table@)->Some_0
                    && ps.tables.spec_get(res.table@) is Some,
                None => table is None,
            },
            built@.len() == j,
            forall|a: int|
                0 <= a < j ==> (physical is Some ==> physical_column(physical, res.table@, #[trigger] es[a].0) is Some)
                    && column_ok(*canonical, *numbers, es[a].1, physical_column(physical, res.table@, es[a].0))
                    && non_blank(es[a].0),
            forall|a: int|
                0 <= a < j ==> (#[trigger] built@[a]).0@ == es[a].0 && column_is(
                    *canonical,
                    built@[a].1,
                    es[a].1,
                    physical_column(physical, res.table@, es[a].0),
                ),
        decreases n - j,
    {
        let cname = cols.key_at(j);
        let raw = cols.value_at(j);
        let pcol = match table {
            Some(t) => {
                proof {
                    assert(ps_columns_wf(physical, res.table@));
                }
                match t.columns.get(cname) {
                    Some(c) => Some(c),
                    None => return None,
                }
            },
            None => None,
        };
        let d = match column_descriptor(raw, pcol, canonical, numbers) {
            Some(d) => d,
            None => return None,
        };
        let cn = match ColumnName::new(cname) {
            Ok(cn) => cn,
            Err(_) => return None,
        };
        built.push((cn, d));
        j = j + 1;
    }
    let id = match ResourceId::new(index as u64 + 1) {
        Ok(id) => id,
        Err(_) => return None,
    };
    let rname = match ResourceName::new(name) {
        Ok(v) => v,
        Err(_) => return None,
    };
    let source = match ResourceName::new(res.table.as_str()) {
        Ok(v) => v,
        Err(_) => return None,
    };
    proof {
        assert(column_keys(built@) =~= name_keys(es));
    }
    match ResourceDescriptor::new_with_source(id, rname, source, built) {
        Ok(d) => {
            proof {
                assert forall|j: int|
                    0 <= j < es.len() implies #[trigger] d.column_spec(catalog_key(es[j].0)) is Some
                        && column_entry_is(
                        *canonical,
                        d.column_spec(catalog_key(es[j].0))->Some_0,
                        d.id_spec(),
                        j,
                        es[j],
                        physical_column(physical, res.table@, es[j].0),
                    ) by {
                    assert(column_keys(built@)[j] == catalog_key(es[j].0));
                }
            }
            Some(d)
        },
        Err(_) => None,
    }
}

/// The columns of the named physical table keep their keys in order.
pub open spec fn ps_columns_wf(physical: Option<&PhysicalSchema>, table: Seq<char>) -> bool {
    physical_table(physical, table) is Some ==> physical_table(physical, table)->Some_0.columns.wf()
}

/// The Catalog that a manifest declares, checked against the physical schema
/// where one is given, decimals of number bounds written by `canonical` and
/// bounds compared by `numbers`; every refusal is `InvalidRequest`.
pub fn activate_catalog_with_schema<G: Fn(&YamlNumber) -> Option<String>, F: Fn(&LogicalValue, &String) -> Option<NumericOrder>>(
    manifest: &RawCatalogManifest,
    snapshot: SnapshotId,
    physical: Option<&PhysicalSchema>,
    canonical: &G,
    numbers: &F,
) -> (r: Result<Catalog, RuntimeError>)
    requires
        number_writer(*canonical),
        comparer(*numbers),
        physical_wf(physical),
    ensures
        r is Ok <==> manifest_ok(*canonical, *numbers, *manifest, physical),
        r matches Err(e) ==> e == RuntimeError::Rejected(RejectionKind::InvalidRequest),
        r matches Ok(c) ==> catalog_is(*canonical, c, snapshot, *manifest, physical),
{
    if manifest.version != 1 {
        return Err(RuntimeError::Rejected(RejectionKind::InvalidRequest));
    }
    let rs = &manifest.resources;
    let n = rs.len();
    if n == 0 {
        return Err(RuntimeError::Rejected(RejectionKind::InvalidRequest));
    }
    let ghost es = rs.entries();
    let mut built: Vec<ResourceDescriptor> = Vec::new();
    let mut i: usize = 0;
    while i < n
        invariant
            number_writer(*canonical),
            comparer(*numbers),
            physical_wf(physical),
            n == es.len(),
            es == rs.entries(),
            *rs == manifest.resources,
            i <= n,
            built@.len() == i,
            forall|a: int| 0 <= a < i ==> resource_ok(*canonical, *numbers, #[trigger] es[a].0, es[a].1, physical),
            forall|a: int|
                0 <= a < i ==> resource_is(*canonical, #[trigger] built@[a], a + 1, es[a].0, es[a].1, physical),
        decreases n - i,
    {
        let d = match activate_resource(i, rs.key_at(i), rs.value_at(i), physical, canonical, numbers) {
            Some(d) => d,
            None => return Err(RuntimeError::Rejected(RejectionKind::InvalidRequest)),
        };
        built.push(d);
        i = i + 1;
    }
    proof {
        assert(resource_keys(built@) =~= name_keys(es)) by {
            assert forall|a: int| 0 <= a < es.len() implies resource_keys(built@)[a] == name_keys(es)[a] by {
                assert(resource_is(*canonical, built@[a], a + 1, es[a].0, es[a].1, physical));
            }
        }
    }
    match Catalog::new(snapshot, built) {
        Ok(c) => {
            proof {
                assert forall|a: int|
                    0 <= a < es.len() implies #[trigger] c.resource_spec(catalog_key(es[a].0)) is Some && resource_is(
                        *canonical,
                        c.resource_spec(catalog_key(es[a].0))->Some_0,
                        a + 1,
                        es[a].0,
                        es[a].1,
                        physical,
                    ) by {
                    assert(resource_keys(built@)[a] == catalog_key(es[a].0));
                }
            }
            Ok(c)
        },
        Err(_) => Err(RuntimeError::Rejected(RejectionKind::InvalidRequest)),
    }
}

} // verus!
