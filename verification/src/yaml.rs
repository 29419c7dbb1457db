//! The boundary to the YAML decoder.
//!
//! Parsed YAML documents are `serde_yaml::Value` trees.  Values the
//! library must carry through for the template layer stay opaque; values
//! the library reads are handed over as the plain classification
//! `PlainVal`, whose parse result is a named function of the text.

use vstd::prelude::*;

verus! {

#[verifier::external_type_specification]
#[verifier::external_body]
pub struct ExValue(serde_yaml::Value);

/// Relies on `serde_yaml::Value::clone`: the copy is the same value.
#[verifier::external_body]
pub fn yaml_clone(v: &serde_yaml::Value) -> (r: serde_yaml::Value)
    ensures
        r == *v,
{
    v.clone()
}

/// A parsed YAML value, classified into what the library reads of it:
/// null, a string, a sequence, a mapping (whose keys are strings or not),
/// or anything else (numbers, booleans, tags).
pub enum PlainVal {
    Null,
    Text(String),
    List(Vec<PlainVal>),
    Entries(Vec<(Option<String>, PlainVal)>),
    Other,
}

/// What the YAML parser makes of a document, classified: `None` where the
/// text is not valid YAML.
pub uninterp spec fn yaml_plain_of(text: Seq<char>) -> Option<PlainVal>;

/// Relies on the `serde_yaml::Value` variants: classifies one value, one
/// arm per variant, descending into sequences and mappings.
#[verifier::external_body]
fn plain_of(v: &serde_yaml::Value) -> PlainVal {
    match v {
        serde_yaml::Value::Null => PlainVal::Null,
        serde_yaml::Value::String(s) => PlainVal::Text(s.clone()),
        serde_yaml::Value::Sequence(xs) => PlainVal::List(xs.iter().map(plain_of).collect()),
        serde_yaml::Value::Mapping(m) => PlainVal::Entries(
            m.iter().map(|(k, val)| (k.as_str().map(|s| s.to_string()), plain_of(val))).collect(),
        ),
        _ => PlainVal::Other,
    }
}

/// Relies on `serde_yaml::from_str::<serde_yaml::Value>`: parses a YAML
/// document and classifies the whole tree; `None` where the text is not
/// valid YAML.  Mapping entries keep the document's order.
#[verifier::external_body]
pub fn parse_plain(text: &str) -> (r: Option<PlainVal>)
    ensures
        r == yaml_plain_of(text@),
{
    serde_yaml::from_str::<serde_yaml::Value>(text).ok().map(|v| plain_of(&v))
}

} // verus!
