//! Stable identities, validated names, value descriptors and the trusted
//! session that every other part of the library builds on.
use vstd::prelude::*;
use crate::text::{
    char_is_whitespace, is_white_space, owned, text_eq,
};
use crate::text_map::TextMap;

verus! {

/// The prefix that marks compiler-owned parameter names.
pub open spec fn server_prefix() -> Seq<char> {
    seq!['_', '_', 'p', 'o', 'l', 'i', 'c', 'y', 's', 'q', 'l', '_']
}

/// The text of the compiler-owned parameter prefix.
pub fn server_prefix_text() -> (r: &'static str)
    ensures
        r@ == server_prefix(),
{
    proof {
        reveal_strlit("__policysql_");
    }
    let r = "__policysql_";
    assert(r@ =~= server_prefix());
    r
}

/// A text holds a scalar value that is not white space, so it stays
/// non-empty once trimmed.
pub open spec fn non_blank(s: Seq<char>) -> bool {
    exists|i: int| 0 <= i < s.len() && !is_white_space(#[trigger] s[i])
}

/// A canonical key: a lower-case ASCII letter followed by lower-case ASCII
/// letters, ASCII digits and underscores.
pub open spec fn is_canonical_key(s: Seq<char>) -> bool {
    &&& s.len() > 0
    &&& 'a' <= s[0] <= 'z'
    &&& forall|i: int| 1 <= i < s.len() ==> is_key_tail_char(#[trigger] s[i])
}

pub open spec fn is_key_tail_char(c: char) -> bool {
    ('a' <= c <= 'z') || ('0' <= c <= '9') || c == '_'
}

/// Whether `value` stays non-empty after trimming white space.
pub fn non_empty(value: &str) -> (r: bool)
    ensures
        r == non_blank(value@),
{
    let n = value.unicode_len();
    let mut i: usize = 0;
    while i < n
        invariant
            n == value@.len(),
            i <= n,
            forall|j: int| 0 <= j < i ==> is_white_space(#[trigger] value@[j]),
        decreases n - i,
    {
        let c = value.get_char(i);
        if !char_is_whitespace(c) {
            return true;
        }
        i = i + 1;
    }
    false
}

/// Whether `value` is a canonical key, `^[a-z][a-z0-9_]*$`.
pub fn canonical_key(value: &str) -> (r: bool)
    ensures
        r == is_canonical_key(value@),
{
    let n = value.unicode_len();
    if n == 0 {
        return false;
    }
    let first = value.get_char(0);
    if !('a' <= first && first <= 'z') {
        return false;
    }
    let mut i: usize = 1;
    while i < n
        invariant
            n == value@.len(),
            1 <= i <= n,
            forall|j: int| 1 <= j < i ==> is_key_tail_char(#[trigger] value@[j]),
        decreases n - i,
    {
        let c = value.get_char(i);
        if !(('a' <= c && c <= 'z') || ('0' <= c && c <= '9') || c == '_') {
            return false;
        }
        i = i + 1;
    }
    true
}

/// Whether `s` begins with the compiler-owned prefix.
pub open spec fn has_server_prefix(s: Seq<char>) -> bool {
    server_prefix().is_prefix_of(s)
}

/// Whether `value` begins with `prefix`.
pub fn starts_with(value: &str, prefix: &str) -> (r: bool)
    ensures
        r == prefix@.is_prefix_of(value@),
{
    let n = value.unicode_len();
    let m = prefix.unicode_len();
    if m > n {
        return false;
    }
    let mut i: usize = 0;
    while i < m
        invariant
            n == value@.len(),
            m == prefix@.len(),
            m <= n,
            i <= m,
            forall|j: int| 0 <= j < i ==> prefix@[j] == value@[j],
        decreases m - i,
    {
        if value.get_char(i) != prefix.get_char(i) {
            return false;
        }
        i = i + 1;
    }
    true
}

/// Reasons a core value is refused.
#[derive(Clone, Copy, Debug, PartialEq, Eq, Structural)]
pub enum CoreError {
    EmptyIdentifier,
    EmptyResultName,
    ZeroIdentity,
    InvalidCanonicalKey,
    InvalidParameterName,
    ReservedParameterNamespace,
    ReservedSessionKey,
    EmptySubject,
}

/// Stable identity of a Catalog resource.
#[derive(Clone, Copy, Debug, PartialEq, Eq, Structural, Hash, PartialOrd, Ord)]
pub struct ResourceId(u64);

impl View for ResourceId {
    type V = u64;

    closed spec fn view(&self) -> u64 {
        self.0
    }
}

impl ResourceId {
    #[verifier::type_invariant]
    closed spec fn non_zero(self) -> bool {
        self.0 != 0
    }

    /// Creates a stable, non-zero identity.
    pub fn new(value: u64) -> (r: Result<Self, CoreError>)
        ensures
            value == 0 ==> r == Err::<Self, CoreError>(CoreError::ZeroIdentity),
            value != 0 ==> (r matches Ok(id) && id@ == value),
    {
        if value == 0 {
            return Err(CoreError::ZeroIdentity);
        }
        Ok(ResourceId(value))
    }

    /// The identity's value, never zero.
    pub fn get(self) -> (r: u64)
        ensures
            r == self@,
            r != 0,
    {
        proof {
            use_type_invariant(self);
        }
        self.0
    }

    /// Two identities are the same exactly when their values are.
    pub proof fn lemma_view_injective(a: ResourceId, b: ResourceId)
        ensures
            (a == b) == (a@ == b@),
    {
    }
}

/// Stable identity of an activated policy.
#[derive(Clone, Copy, Debug, PartialEq, Eq, Structural, Hash, PartialOrd, Ord)]
pub struct PolicyId(u64);

impl View for PolicyId {
    type V = u64;

    closed spec fn view(&self) -> u64 {
        self.0
    }
}

impl PolicyId {
    #[verifier::type_invariant]
    closed spec fn non_zero(self) -> bool {
        self.0 != 0
    }

    /// Creates a stable, non-zero identity.
    pub fn new(value: u64) -> (r: Result<Self, CoreError>)
        ensures
            value == 0 ==> r == Err::<Self, CoreError>(CoreError::ZeroIdentity),
            value != 0 ==> (r matches Ok(id) && id@ == value),
    {
        if value == 0 {
            return Err(CoreError::ZeroIdentity);
        }
        Ok(PolicyId(value))
    }

    /// The identity's value, never zero.
    pub fn get(self) -> (r: u64)
        ensures
            r == self@,
            r != 0,
    {
        proof {
            use_type_invariant(self);
        }
        self.0
    }

    /// Two identities are the same exactly when their values are.
    pub proof fn lemma_view_injective(a: ResourceId, b: ResourceId)
        ensures
            (a == b) == (a@ == b@),
    {
    }
}

/// Validated logical name of a protected resource.
#[derive(Debug, PartialEq, Eq, Hash, PartialOrd, Ord)]
pub struct ResourceName(String);

impl Clone for ResourceName {
    fn clone(&self) -> (r: Self)
        ensures
            r@ == self@,
    {
        proof {
            use_type_invariant(self);
        }
        ResourceName(self.0.clone())
    }
}

impl View for ResourceName {
    type V = Seq<char>;

    closed spec fn view(&self) -> Seq<char> {
        self.0@
    }
}

impl ResourceName {
    #[verifier::type_invariant]
    closed spec fn valid(self) -> bool {
        non_blank(self.0@)
    }

    /// Validates and owns the supplied value.
    pub fn new(value: &str) -> (r: Result<Self, CoreError>)
        ensures
            non_blank(value@) ==> (r matches Ok(v) && v@ == value@),
            !non_blank(value@) ==> r == Err::<Self, CoreError>(CoreError::EmptyIdentifier),
    {
        if !non_empty(value) {
            return Err(CoreError::EmptyIdentifier);
        }
        Ok(ResourceName(owned(value)))
    }

    pub fn as_str(&self) -> (r: &str)
        ensures
            r@ == self@,
            non_blank(r@),
    {
        proof {
            use_type_invariant(self);
        }
        self.0.as_str()
    }
}

/// Validated logical name of a protected column.
#[derive(Debug, PartialEq, Eq, Hash, PartialOrd, Ord)]
pub struct ColumnName(String);

impl Clone for ColumnName {
    fn clone(&self) -> (r: Self)
        ensures
            r@ == self@,
    {
        proof {
            use_type_invariant(self);
        }
        ColumnName(self.0.clone())
    }
}

impl View for ColumnName {
    type V = Seq<char>;

    closed spec fn view(&self) -> Seq<char> {
        self.0@
    }
}

impl ColumnName {
    #[verifier::type_invariant]
    closed spec fn valid(self) -> bool {
        non_blank(self.0@)
    }

    /// Validates and owns the supplied value.
    pub fn new(value: &str) -> (r: Result<Self, CoreError>)
        ensures
            non_blank(value@) ==> (r matches Ok(v) && v@ == value@),
            !non_blank(value@) ==> r == Err::<Self, CoreError>(CoreError::EmptyIdentifier),
    {
        if !non_empty(value) {
            return Err(CoreError::EmptyIdentifier);
        }
        Ok(ColumnName(owned(value)))
    }

    pub fn as_str(&self) -> (r: &str)
        ensures
            r@ == self@,
            non_blank(r@),
    {
        proof {
            use_type_invariant(self);
        }
        self.0.as_str()
    }
}

/// Validated non-empty output-column name.
#[derive(Debug, PartialEq, Eq, Hash, PartialOrd, Ord)]
pub struct ResultName(String);

impl Clone for ResultName {
    fn clone(&self) -> (r: Self)
        ensures
            r == *self,
    {
        proof {
            use_type_invariant(self);
        }
        ResultName(self.0.clone())
    }
}

impl View for ResultName {
    type V = Seq<char>;

    closed spec fn view(&self) -> Seq<char> {
        self.0@
    }
}

impl ResultName {
    #[verifier::type_invariant]
    closed spec fn valid(self) -> bool {
        non_blank(self.0@)
    }

    /// Validates and owns the supplied value.
    pub fn new(value: &str) -> (r: Result<Self, CoreError>)
        ensures
            non_blank(value@) ==> (r matches Ok(v) && v@ == value@),
            !non_blank(value@) ==> r == Err::<Self, CoreError>(CoreError::EmptyResultName),
    {
        if !non_empty(value) {
            return Err(CoreError::EmptyResultName);
        }
        Ok(ResultName(owned(value)))
    }

    pub fn as_str(&self) -> (r: &str)
        ensures
            r@ == self@,
            non_blank(r@),
    {
        proof {
            use_type_invariant(self);
        }
        self.0.as_str()
    }
}

/// Canonical role name from the trusted authentication contract.
#[derive(Debug, PartialEq, Eq, Hash, PartialOrd, Ord)]
pub struct RoleName(String);

impl Clone for RoleName {
    fn clone(&self) -> (r: Self)
        ensures
            r == *self,
    {
        proof {
            use_type_invariant(self);
        }
        RoleName(self.0.clone())
    }
}

impl View for RoleName {
    type V = Seq<char>;

    closed spec fn view(&self) -> Seq<char> {
        self.0@
    }
}

impl RoleName {
    #[verifier::type_invariant]
    closed spec fn valid(self) -> bool {
        is_canonical_key(self.0@)
    }

    /// Validates and owns the supplied value.
    pub fn new(value: &str) -> (r: Result<Self, CoreError>)
        ensures
            is_canonical_key(value@) ==> (r matches Ok(v) && v@ == value@),
            !is_canonical_key(value@) ==> r == Err::<Self, CoreError>(CoreError::InvalidCanonicalKey),
    {
        if !canonical_key(value) {
            return Err(CoreError::InvalidCanonicalKey);
        }
        Ok(RoleName(owned(value)))
    }

    pub fn as_str(&self) -> (r: &str)
        ensures
            r@ == self@,
            is_canonical_key(r@),
    {
        proof {
            use_type_invariant(self);
        }
        self.0.as_str()
    }
}

/// Canonical trusted-session key.
#[derive(Debug, PartialEq, Eq, Hash, PartialOrd, Ord)]
pub struct SessionKey(String);

impl Clone for SessionKey {
    fn clone(&self) -> (r: Self)
        ensures
            r == *self,
    {
        proof {
            use_type_invariant(self);
        }
        SessionKey(self.0.clone())
    }
}

impl View for SessionKey {
    type V = Seq<char>;

    closed spec fn view(&self) -> Seq<char> {
        self.0@
    }
}

impl SessionKey {
    #[verifier::type_invariant]
    closed spec fn valid(self) -> bool {
        is_canonical_key(self.0@)
    }

    /// Validates and owns the supplied value.
    pub fn new(value: &str) -> (r: Result<Self, CoreError>)
        ensures
            is_canonical_key(value@) ==> (r matches Ok(v) && v@ == value@),
            !is_canonical_key(value@) ==> r == Err::<Self, CoreError>(CoreError::InvalidCanonicalKey),
    {
        if !canonical_key(value) {
            return Err(CoreError::InvalidCanonicalKey);
        }
        Ok(SessionKey(owned(value)))
    }

    pub fn as_str(&self) -> (r: &str)
        ensures
            r@ == self@,
            is_canonical_key(r@),
    {
        proof {
            use_type_invariant(self);
        }
        self.0.as_str()
    }
}

/// Immutable policy, Catalog, compiler, and registry snapshot identity.
#[derive(Debug, PartialEq, Eq, Hash, PartialOrd, Ord)]
pub struct SnapshotId(String);

impl Clone for SnapshotId {
    fn clone(&self) -> (r: Self)
        ensures
            r@ == self@,
    {
        proof {
            use_type_invariant(self);
        }
        SnapshotId(self.0.clone())
    }
}

impl View for SnapshotId {
    type V = Seq<char>;

    closed spec fn view(&self) -> Seq<char> {
        self.0@
    }
}

impl SnapshotId {
    #[verifier::type_invariant]
    closed spec fn valid(self) -> bool {
        non_blank(self.0@)
    }

    /// Validates and owns the supplied value.
    pub fn new(value: &str) -> (r: Result<Self, CoreError>)
        ensures
            non_blank(value@) ==> (r matches Ok(v) && v@ == value@),
            !non_blank(value@) ==> r == Err::<Self, CoreError>(CoreError::EmptyIdentifier),
    {
        if !non_empty(value) {
            return Err(CoreError::EmptyIdentifier);
        }
        Ok(SnapshotId(owned(value)))
    }

    pub fn as_str(&self) -> (r: &str)
        ensures
            r@ == self@,
            non_blank(r@),
    {
        proof {
            use_type_invariant(self);
        }
        self.0.as_str()
    }
}

/// Versioned backend-profile identity.
#[derive(Debug, PartialEq, Eq, Hash, PartialOrd, Ord)]
pub struct BackendProfileId(String);

impl Clone for BackendProfileId {
    fn clone(&self) -> (r: Self)
        ensures
            r@ == self@,
    {
        proof {
            use_type_invariant(self);
        }
        BackendProfileId(self.0.clone())
    }
}

impl View for BackendProfileId {
    type V = Seq<char>;

    closed spec fn view(&self) -> Seq<char> {
        self.0@
    }
}

impl BackendProfileId {
    #[verifier::type_invariant]
    closed spec fn valid(self) -> bool {
        non_blank(self.0@)
    }

    /// Validates and owns the supplied value.
    pub fn new(value: &str) -> (r: Result<Self, CoreError>)
        ensures
            non_blank(value@) ==> (r matches Ok(v) && v@ == value@),
            !non_blank(value@) ==> r == Err::<Self, CoreError>(CoreError::EmptyIdentifier),
    {
        if !non_empty(value) {
            return Err(CoreError::EmptyIdentifier);
        }
        Ok(BackendProfileId(owned(value)))
    }

    pub fn as_str(&self) -> (r: &str)
        ensures
            r@ == self@,
            non_blank(r@),
    {
        proof {
            use_type_invariant(self);
        }
        self.0.as_str()
    }
}

/// Stable identity of a column within a Catalog resource.
#[derive(Clone, Copy, Debug, PartialEq, Eq, Structural, Hash, PartialOrd, Ord)]
pub struct ColumnId {
    resource: ResourceId,
    ordinal: u32,
}

impl ColumnId {
    pub closed spec fn resource_spec(self) -> ResourceId {
        self.resource
    }

    pub closed spec fn ordinal_spec(self) -> u32 {
        self.ordinal
    }

    pub closed spec fn spec_new(resource: ResourceId, ordinal: u32) -> ColumnId {
        ColumnId { resource, ordinal }
    }

    pub fn new(resource: ResourceId, ordinal: u32) -> (r: Self)
        ensures
            r == ColumnId::spec_new(resource, ordinal),
            r.resource_spec() == resource,
            r.ordinal_spec() == ordinal,
    {
        ColumnId { resource, ordinal }
    }

    pub fn resource(self) -> (r: ResourceId)
        ensures
            r == self.resource_spec(),
    {
        self.resource
    }

    pub fn ordinal(self) -> (r: u32)
        ensures
            r == self.ordinal_spec(),
    {
        self.ordinal
    }

    /// Two column identities are the same exactly when resource and ordinal are.
    pub proof fn lemma_identity(a: ColumnId, b: ColumnId)
        ensures
            (a == b) == (a.resource_spec() == b.resource_spec() && a.ordinal_spec()
                == b.ordinal_spec()),
    {
    }

    pub proof fn lemma_spec_new(resource: ResourceId, ordinal: u32)
        ensures
            ColumnId::spec_new(resource, ordinal).resource_spec() == resource,
            ColumnId::spec_new(resource, ordinal).ordinal_spec() == ordinal,
    {
    }
}

/// Name of a parameter owned by the untrusted caller.
#[derive(Debug, PartialEq, Eq, Hash, PartialOrd, Ord)]
pub struct ClientParameterName(String);

impl Clone for ClientParameterName {
    fn clone(&self) -> (r: Self)
        ensures
            r == *self,
    {
        proof {
            use_type_invariant(self);
        }
        ClientParameterName(self.0.clone())
    }
}

impl View for ClientParameterName {
    type V = Seq<char>;

    closed spec fn view(&self) -> Seq<char> {
        self.0@
    }
}

impl ClientParameterName {
    #[verifier::type_invariant]
    closed spec fn valid(self) -> bool {
        is_canonical_key(self.0@) && !has_server_prefix(self.0@)
    }

    /// Validates a caller-owned named parameter without its SQL prefix.
    pub fn new(value: &str) -> (r: Result<Self, CoreError>)
        ensures
            has_server_prefix(value@) ==> r == Err::<Self, CoreError>(
                CoreError::ReservedParameterNamespace,
            ),
            !has_server_prefix(value@) && !is_canonical_key(value@) ==> r == Err::<
                Self,
                CoreError,
            >(CoreError::InvalidParameterName),
            !has_server_prefix(value@) && is_canonical_key(value@) ==> (r matches Ok(v) && v@
                == value@),
    {
        if starts_with(value, server_prefix_text()) {
            return Err(CoreError::ReservedParameterNamespace);
        }
        if !canonical_key(value) {
            return Err(CoreError::InvalidParameterName);
        }
        Ok(ClientParameterName(owned(value)))
    }

    pub fn as_str(&self) -> (r: &str)
        ensures
            r@ == self@,
            is_canonical_key(r@),
            !has_server_prefix(r@),
    {
        proof {
            use_type_invariant(self);
        }
        self.0.as_str()
    }
}

/// Name of a compiler-owned parameter.
#[derive(Debug, PartialEq, Eq, Hash, PartialOrd, Ord)]
pub struct ServerParameterName(String);

impl Clone for ServerParameterName {
    fn clone(&self) -> (r: Self)
        ensures
            r == *self,
    {
        proof {
            use_type_invariant(self);
        }
        ServerParameterName(self.0.clone())
    }
}

impl View for ServerParameterName {
    type V = Seq<char>;

    closed spec fn view(&self) -> Seq<char> {
        self.0@
    }
}

impl ServerParameterName {
    #[verifier::type_invariant]
    closed spec fn valid(self) -> bool {
        has_server_prefix(self.0@) && is_canonical_key(self.0@.skip(server_prefix().len() as int))
    }

    /// Allocates a canonical server-owned name from a trusted suffix.
    pub fn from_trusted_suffix(suffix: &str) -> (r: Result<Self, CoreError>)
        ensures
            !is_canonical_key(suffix@) ==> r == Err::<Self, CoreError>(
                CoreError::InvalidParameterName,
            ),
            is_canonical_key(suffix@) ==> (r matches Ok(v) && v@ == server_prefix() + suffix@),
    {
        if !canonical_key(suffix) {
            return Err(CoreError::InvalidParameterName);
        }
        let mut name = owned(server_prefix_text());
        name.append(suffix);
        assert(name@.skip(server_prefix().len() as int) =~= suffix@);
        assert(server_prefix().is_prefix_of(name@)) by {
            assert(name@.take(server_prefix().len() as int) =~= server_prefix());
        }
        Ok(ServerParameterName(name))
    }

    pub fn as_str(&self) -> (r: &str)
        ensures
            r@ == self@,
            has_server_prefix(r@),
    {
        proof {
            use_type_invariant(self);
        }
        self.0.as_str()
    }
}

/// A text that a client parameter name accepts is never a text that a
/// server parameter name produces: the two namespaces are disjoint.
pub proof fn lemma_parameter_namespaces_disjoint(client: Seq<char>, suffix: Seq<char>)
    requires
        !has_server_prefix(client),
    ensures
        client != server_prefix() + suffix,
{
    assert(server_prefix().is_prefix_of(server_prefix() + suffix)) by {
        assert((server_prefix() + suffix).take(server_prefix().len() as int) =~= server_prefix());
    }
}

#[derive(Clone, Copy, Debug, PartialEq, Eq, Structural)]
pub enum OperationKind {
    Select,
    Insert,
    Update,
    Delete,
}

#[derive(Clone, Copy, Debug, PartialEq, Eq, Structural)]
pub enum LogicalType {
    String,
    Integer,
    Boolean,
    Int64,
    Number,
    Bytes,
    Date,
    DateTime,
    Instant,
    Json,
}

/// `SQLite` storage class retained in the compiled Catalog, separate from the
/// public wire representation.
#[derive(Clone, Copy, Debug, PartialEq, Eq, Structural)]
pub enum StorageClass {
    Integer,
    Real,
    Text,
    Blob,
}

#[derive(Clone, Copy, Debug, PartialEq, Eq, Structural)]
pub enum ValueRepresentation {
    String,
    Boolean,
    Number,
    Base64,
    Json,
}

/// A typed value. `Number` holds a double by its IEEE-754 binary64 bit
/// pattern.
#[derive(Clone, Debug, PartialEq, Eq)]
pub enum LogicalValue {
    Null,
    String(String),
    Boolean(bool),
    Int64(i64),
    Number(u64),
    Bytes(Vec<u8>),
    Json(String),
}

/// Canonical scalar used by Catalog constraints. Numbers keep their validated
/// decimal spelling.
#[derive(Clone, Debug, PartialEq, Eq)]
pub enum ConstraintScalar {
    String(String),
    Number(String),
    Boolean(bool),
}

#[derive(Clone, Debug, Default, PartialEq, Eq)]
pub struct ValueConstraints {
    pub allowed: Vec<ConstraintScalar>,
    pub minimum: Option<String>,
    pub maximum: Option<String>,
    pub min_length: Option<usize>,
    pub max_length: Option<usize>,
    pub pattern: Option<String>,
}

/// Closed Draft 2020-12 subset retained for finite JSON path type inference.
/// `properties` is kept in ascending name order, each name once.
#[derive(Debug, PartialEq, Eq)]
pub struct JsonValueSchema {
    pub types: Vec<JsonSchemaType>,
    pub properties: Vec<(String, JsonValueSchema)>,
    pub items: Option<Box<JsonValueSchema>>,
    pub required: Vec<String>,
    pub additional_properties: bool,
    pub any_of: Vec<JsonValueSchema>,
}

#[derive(Clone, Copy, Debug, PartialEq, Eq, Structural, PartialOrd, Ord)]
pub enum JsonSchemaType {
    Null,
    Boolean,
    Integer,
    Number,
    String,
    Array,
    Object,
}

#[derive(Debug, PartialEq, Eq)]
pub struct ValueDescriptor {
    pub logical_type: LogicalType,
    pub representation: ValueRepresentation,
    pub nullable: bool,
    pub format: Option<String>,
    pub storage: Option<StorageClass>,
    pub constraints: Option<ValueConstraints>,
    pub json_schema: Option<JsonValueSchema>,
}

/// The session key that holds the authenticated subject.
pub open spec fn subject_key() -> Seq<char> {
    seq!['s', 'u', 'b', 'j', 'e', 'c', 't', '_', 'i', 'd']
}

/// The session key that holds the role.
pub open spec fn role_key() -> Seq<char> {
    seq!['r', 'o', 'l', 'e']
}

fn subject_key_text() -> (r: &'static str)
    ensures
        r@ == subject_key(),
{
    proof {
        reveal_strlit("subject_id");
    }
    let r = "subject_id";
    assert(r@ =~= subject_key());
    r
}

fn role_key_text() -> (r: &'static str)
    ensures
        r@ == role_key(),
{
    proof {
        reveal_strlit("role");
    }
    let r = "role";
    assert(r@ =~= role_key());
    r
}

/// The refusal, if any, that one caller-supplied session key earns.
pub open spec fn session_key_error(k: Seq<char>) -> Option<CoreError> {
    if k == subject_key() || k == role_key() {
        Some(CoreError::ReservedSessionKey)
    } else if !is_canonical_key(k) {
        Some(CoreError::InvalidCanonicalKey)
    } else {
        None
    }
}

/// The refusal of the first offending key, walking keys in ascending order.
pub open spec fn session_error<V>(entries: Seq<(Seq<char>, V)>) -> Option<CoreError>
    decreases entries.len(),
{
    if entries.len() == 0 {
        None
    } else {
        match session_key_error(entries[0].0) {
            Some(e) => Some(e),
            None => session_error(entries.drop_first()),
        }
    }
}

/// A text value by its view, if present.
pub open spec fn text_view(v: Option<String>) -> Option<Seq<char>> {
    match v {
        Some(s) => Some(s@),
        None => None,
    }
}

/// Immutable values derived from verified authentication claims.
#[derive(Debug, PartialEq, Eq)]
pub struct TrustedSession {
    role: RoleName,
    values: TextMap<String>,
}

impl TrustedSession {
    pub closed spec fn role_spec(&self) -> RoleName {
        self.role
    }

    /// The value held under session key `k`.
    pub closed spec fn value_of(&self, k: Seq<char>) -> Option<Seq<char>> {
        text_view(self.values.spec_get(k))
    }

    #[verifier::type_invariant]
    closed spec fn wf(self) -> bool {
        self.values.wf()
    }

    /// Canonicalizes verified authentication values. `session` must not hold
    /// the reserved `subject_id` or `role` keys.
    pub fn new(role: RoleName, subject_id: &str, session: TextMap<String>) -> (r: Result<
        Self,
        CoreError,
    >)
        requires
            session.wf(),
        ensures
            subject_id@.len() == 0 ==> r == Err::<Self, CoreError>(CoreError::EmptySubject),
            subject_id@.len() > 0 && session_error(session.entries()) is Some ==> r == Err::<
                Self,
                CoreError,
            >(session_error(session.entries())->0),
            subject_id@.len() > 0 && session_error(session.entries()) is None ==> (r matches Ok(
                s,
            ) && s.role_spec() == role && s.value_of(subject_key()) == Some(subject_id@)
                && s.value_of(role_key()) == Some(role@) && forall|k: Seq<char>|
                k != subject_key() && k != role_key() ==> #[trigger] s.value_of(k) == text_view(
                    session.spec_get(k),
                )),
    {
        if subject_id.unicode_len() == 0 {
            return Err(CoreError::EmptySubject);
        }
        let ghost entries = session.entries();
        let n = session.len();
        let mut values: TextMap<String> = TextMap::new();
        let mut i: usize = 0;
        assert(entries.skip(0) =~= entries);
        while i < n
            invariant
                session.wf(),
                subject_id@.len() > 0,
                entries == session.entries(),
                n == entries.len(),
                i <= n,
                values.wf(),
                session_error(entries) == session_error(entries.skip(i as int)),
                forall|k: Seq<char>| #[trigger]
                    values.has_key(k) == (exists|j: int| 0 <= j < i && entries[j].0 == k),
                forall|j: int|
                    0 <= j < i ==> text_view(#[trigger] values.spec_get(entries[j].0)) == Some(
                        entries[j].1@,
                    ),
            decreases n - i,
        {
            let key = session.key_at(i);
            assert(entries.skip(i as int).drop_first() =~= entries.skip(i + 1));
            assert(entries.skip(i as int)[0] == entries[i as int]);
            if text_eq(key, subject_key_text()) || text_eq(key, role_key_text()) {
                return Err(CoreError::ReservedSessionKey);
            }
            if !canonical_key(key) {
                return Err(CoreError::InvalidCanonicalKey);
            }
            let value = session.value_at(i).clone();
            let ghost before = values;
            values.insert(owned(key), value);
            proof {
                session.lemma_wf();
                assert forall|k: Seq<char>| #[trigger] values.has_key(k) == (exists|j: int|
                    0 <= j < i + 1 && entries[j].0 == k) by {
                    if k == entries[i as int].0 {
                    }
                }
                assert forall|j: int| 0 <= j < i + 1 implies text_view(
                    #[trigger] values.spec_get(entries[j].0),
                ) == Some(entries[j].1@) by {
                    if j < i {
                        assert(crate::text::lex_lt(entries[j].0, entries[i as int].0));
                        crate::text::lemma_lex_lt_irreflexive(entries[j].0);
                        assert(before.spec_get(entries[j].0) == values.spec_get(entries[j].0));
                    }
                }
            }
            i = i + 1;
        }
        assert(entries.skip(n as int) =~= Seq::<(Seq<char>, String)>::empty());
        let ghost collected = values;
        values.insert(owned(subject_key_text()), owned(subject_id));
        let ghost with_subject = values;
        values.insert(owned(role_key_text()), owned(role.as_str()));
        proof {
            session.lemma_wf();
            assert forall|k: Seq<char>| k != subject_key() && k != role_key() implies text_view(
                #[trigger] values.spec_get(k),
            ) == text_view(session.spec_get(k)) by {
                assert(values.spec_get(k) == collected.spec_get(k));
                if session.has_key(k) {
                    let j = crate::text_map::key_index(entries, k);
                    crate::text_map::lemma_entries_get_at(entries, j);
                    assert(collected.spec_get(entries[j].0) == values.spec_get(k));
                } else {
                    if collected.has_key(k) {
                        let j = choose|j: int| 0 <= j < n && entries[j].0 == k;
                        assert(entries[j].0 == k);
                        assert(session.has_key(k));
                    }
                }
            }
            assert(subject_key() != role_key());
        }
        Ok(TrustedSession { role, values })
    }

    pub fn role(&self) -> (r: &RoleName)
        ensures
            *r == self.role_spec(),
    {
        &self.role
    }

    pub fn get(&self, key: &SessionKey) -> (r: Option<&str>)
        ensures
            r is Some == self.value_of(key@) is Some,
            r matches Some(v) ==> self.value_of(key@) == Some(v@),
    {
        proof {
            use_type_invariant(self);
        }
        match self.values.get(key.as_str()) {
            Some(v) => Some(v.as_str()),
            None => None,
        }
    }
}

} // verus!
