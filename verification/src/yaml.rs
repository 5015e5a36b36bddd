//! The boundary to the YAML and frontmatter libraries.
//!
//! Nothing in this module is proved. Each item states what the library
//! behind it does, and the rest of the crate is verified against these
//! statements.

use vstd::prelude::*;

verus! {

/// A YAML mapping of `serde_yaml`, which keeps its entries in order.
#[verifier::external_type_specification]
#[verifier::external_body]
pub struct ExMapping(serde_yaml::Mapping);

/// A YAML value of `serde_yaml`.
#[verifier::external_type_specification]
#[verifier::external_body]
pub struct ExValue(serde_yaml::Value);

/// The error of `serde_yaml`.
#[verifier::external_type_specification]
#[verifier::external_body]
pub struct ExYamlError(serde_yaml::Error);

/// The frontmatter data that `gray_matter` hands out.
#[verifier::external_type_specification]
#[verifier::external_body]
pub struct ExPod(gray_matter::Pod);

/// What a YAML value holds, as far as the codec reads it: a string, a
/// sequence, or a value that is only carried along.
pub enum YamlShape {
    Text(Seq<char>),
    List(Seq<YamlShape>),
    Other(serde_yaml::Value),
}

/// The shape of each item of a sequence.
pub open spec fn shapes_of(items: Seq<serde_yaml::Value>) -> Seq<YamlShape> {
    Seq::new(items.len(), |i: int| yaml_shape(items[i]))
}

/// The shape of a value: `Text` with its characters for `Value::String`,
/// `List` with the shapes of its items for `Value::Sequence`, and `Other`
/// with the value itself for every other variant.
pub uninterp spec fn yaml_shape(v: serde_yaml::Value) -> YamlShape;

/// The entries of a mapping whose key is a string, by the key's characters.
pub uninterp spec fn mapping_fields(m: serde_yaml::Mapping) -> Map<Seq<char>, serde_yaml::Value>;

/// The YAML text that `serde_yaml::to_string` gives for a mapping, `None`
/// where it fails. It is a name of the mapping itself, not of its fields:
/// the text lists the entries in their order, which the fields do not
/// tell.
pub uninterp spec fn yaml_document(m: serde_yaml::Mapping) -> Option<Seq<char>>;

/// What `gray_matter`'s `Matter::parse` with the YAML engine finds in a
/// text: the data of the frontmatter, if there is any, and the content
/// below it.
pub uninterp spec fn matter_split(text: Seq<char>) -> (Option<gray_matter::Pod>, Seq<char>);

/// The string-keyed entries of the mapping that `Pod::deserialize` makes of
/// frontmatter data, `None` where the data cannot be read as a mapping.
pub uninterp spec fn pod_fields(pod: gray_matter::Pod) -> Option<Map<Seq<char>, serde_yaml::Value>>;

/// The fields of a mapping without entries.
pub open spec fn no_fields() -> Map<Seq<char>, serde_yaml::Value> {
    Map::empty()
}

/// What the codec reads of a value.
pub enum FieldValue {
    Text(String),
    List(Vec<serde_yaml::Value>),
    Other,
}

/// `serde_yaml::Mapping::new`: a mapping without entries.
#[verifier::external_body]
pub(crate) fn mapping_new() -> (m: serde_yaml::Mapping)
    ensures
        mapping_fields(m) == no_fields(),
{
    serde_yaml::Mapping::new()
}

/// `serde_yaml::Mapping::get` with a string: the value of the entry whose
/// key is that string, if the mapping has one.
#[verifier::external_body]
pub(crate) fn mapping_get<'a>(m: &'a serde_yaml::Mapping, key: &str) -> (r: Option<
    &'a serde_yaml::Value,
>)
    ensures
        r is Some <==> mapping_fields(*m).contains_key(key@),
        r matches Some(v) ==> *v == mapping_fields(*m)[key@],
{
    m.get(key)
}

/// `serde_yaml::Mapping::insert` with a string as the key: the entry with
/// that key gets the value, whether it was there before or not; every
/// other entry stays as it is.
#[verifier::external_body]
pub(crate) fn mapping_insert(m: &mut serde_yaml::Mapping, key: &str, value: serde_yaml::Value)
    ensures
        mapping_fields(*final(m)) == mapping_fields(*old(m)).insert(key@, value),
{
    m.insert(serde_yaml::Value::String(key.to_string()), value);
}

/// `serde_yaml::Mapping::remove` with a string: the entry whose key is that
/// string leaves the mapping, if there is one; every other entry stays as
/// it is.
#[verifier::external_body]
pub(crate) fn mapping_remove(m: &mut serde_yaml::Mapping, key: &str)
    ensures
        mapping_fields(*final(m)) == mapping_fields(*old(m)).remove(key@),
{
    m.remove(key);
}

/// Tells the variants of `serde_yaml::Value` apart: the string of a
/// `String`, the items of a `Sequence`, nothing of the others.
#[verifier::external_body]
pub(crate) fn value_shape(v: &serde_yaml::Value) -> (r: FieldValue)
    ensures
        match r {
            FieldValue::Text(s) => yaml_shape(*v) == YamlShape::Text(s@),
            FieldValue::List(items) => yaml_shape(*v) == YamlShape::List(shapes_of(items@)),
            FieldValue::Other => yaml_shape(*v) == YamlShape::Other(*v),
        },
{
    match v {
        serde_yaml::Value::String(s) => FieldValue::Text(s.clone()),
        serde_yaml::Value::Sequence(items) => FieldValue::List(items.clone()),
        _ => FieldValue::Other,
    }
}

/// `serde_yaml::Value::String`: the value that holds the given string.
#[verifier::external_body]
pub(crate) fn text_value(s: String) -> (v: serde_yaml::Value)
    ensures
        yaml_shape(v) == YamlShape::Text(s@),
{
    serde_yaml::Value::String(s)
}

/// `serde_yaml::Value::Sequence`: the value that holds the given items.
#[verifier::external_body]
pub(crate) fn sequence_value(items: Vec<serde_yaml::Value>) -> (v: serde_yaml::Value)
    ensures
        yaml_shape(v) == YamlShape::List(shapes_of(items@)),
{
    serde_yaml::Value::Sequence(items)
}

/// `serde_yaml::to_string` on a mapping.
#[verifier::external_body]
pub(crate) fn yaml_to_string(m: &serde_yaml::Mapping) -> (r: Result<String, serde_yaml::Error>)
    ensures
        match r {
            Ok(text) => yaml_document(*m) == Some(text@),
            Err(_) => yaml_document(*m) is None,
        },
{
    serde_yaml::to_string(m)
}

/// The message of a `serde_yaml::Error`, as its `Display` writes it.
#[verifier::external_body]
pub(crate) fn yaml_error_text(e: &serde_yaml::Error) -> String {
    e.to_string()
}

/// `Matter::<YAML>::parse` of `gray_matter`, with the delimiter `---`. Its
/// YAML reader builds a tree as deep as the frontmatter nests its block
/// sequences and mappings; as with memory, how deep that may be is for the
/// machine's stack to bound, and nothing is stated of it.
#[verifier::external_body]
pub(crate) fn matter_parse(text: &str) -> (r: (Option<gray_matter::Pod>, String))
    ensures
        r.0 == matter_split(text@).0,
        r.1@ == matter_split(text@).1,
{
    let parsed = gray_matter::Matter::<gray_matter::engine::YAML>::new().parse(text);
    (parsed.data, parsed.content)
}

/// `Pod::deserialize` of `gray_matter` into a `serde_yaml::Mapping`; its
/// error, where the data cannot be read as a mapping, becomes `None`.
#[verifier::external_body]
pub(crate) fn pod_to_mapping(pod: &gray_matter::Pod) -> (r: Option<serde_yaml::Mapping>)
    ensures
        match r {
            Some(m) => pod_fields(*pod) == Some(mapping_fields(m)),
            None => pod_fields(*pod) is None,
        },
{
    pod.deserialize().ok()
}

} // verus!
