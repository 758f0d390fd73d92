//! The YAML values that policy bundles are written in, as the policy
//! grammar reads them.
use vstd::prelude::*;

verus! {

/// The number a YAML scalar spells, as far as policies and manifests read
/// it: its value as a 64-bit signed integer when it is one, as a 64-bit
/// unsigned integer when it is one, and the IEEE-754 binary64 bit pattern
/// of its value as a double.
#[derive(Clone, Copy, Debug, PartialEq, Eq, Structural)]
pub struct YamlNumber {
    pub integer: Option<i64>,
    pub unsigned: Option<u64>,
    pub double_bits: u64,
}

/// A YAML value. A tagged value keeps the value it tags; the tag itself is
/// never read.
#[derive(Debug, PartialEq, Eq)]
pub enum YamlValue {
    Null,
    Bool(bool),
    Number(YamlNumber),
    String(String),
    Sequence(Vec<YamlValue>),
    /// Entries in document order, each key once.
    Mapping(Vec<(YamlValue, YamlValue)>),
    Tagged(Box<YamlValue>),
}

/// The value beneath any tags.
pub open spec fn untagged(v: YamlValue) -> YamlValue
    decreases v,
{
    match v {
        YamlValue::Tagged(inner) => untagged(*inner),
        _ => v,
    }
}

/// The number of nested sequences and mappings, a bound for recursion.
pub open spec fn depth_ok(v: YamlValue) -> bool
    decreases v,
{
    match v {
        YamlValue::Sequence(items) => forall|i: int| 0 <= i < items@.len() ==> depth_ok(#[trigger] items@[i]),
        _ => true,
    }
}

} // verus!
