//! The metadata at the head of a prompt file: a mapping from keys to YAML
//! values of which the codec reads and writes a few and carries the rest
//! along untouched.

use vstd::prelude::*;
use crate::text::{
    chars_of, has_prefix, opt_text, pieces_of, push_all, rows, split_pieces, starts_with,
    string_of, strip_leading, strip_leading_text, texts, trim, trim_of, trim_start_matches,
    trim_start_matches_text,
};
use crate::vault::VaultError;
use crate::yaml::{
    mapping_fields, mapping_get, mapping_insert, mapping_new, mapping_remove, matter_parse,
    matter_split, pod_fields, pod_to_mapping, sequence_value, shapes_of, text_value,
    value_shape, yaml_document, yaml_error_text, yaml_shape, yaml_to_string, FieldValue,
    YamlShape,
};

verus! {

/// The frontmatter of one file. Its view maps each string key to the shape
/// of its value.
pub struct FrontmatterMap {
    inner: serde_yaml::Mapping,
}

/// The shapes of the values of the given fields.
pub open spec fn shape_map(fields: Map<Seq<char>, serde_yaml::Value>) -> Map<
    Seq<char>,
    YamlShape,
> {
    Map::new(|k: Seq<char>| fields.contains_key(k), |k: Seq<char>| yaml_shape(fields[k]))
}

impl View for FrontmatterMap {
    type V = Map<Seq<char>, YamlShape>;

    closed spec fn view(&self) -> Map<Seq<char>, YamlShape> {
        shape_map(mapping_fields(self.inner))
    }
}

/// The key under which the tags stand: `key` without the white space
/// around it, or `tags` where nothing is left.
pub open spec fn tag_key_of(key: Seq<char>) -> Seq<char> {
    if trim_of(key).len() == 0 {
        "tags"@
    } else {
        trim_of(key)
    }
}

/// The name of a tag as the cache knows it: without the white space around
/// it and without leading `#`; `None` where nothing is left.
pub open spec fn normalized_tag(tag: Seq<char>) -> Option<Seq<char>> {
    let name = trim_of(strip_leading(trim_of(tag), '#'));
    if name.len() == 0 {
        None
    } else {
        Some(name)
    }
}

/// The normalized names of the given tags, in order, without those of
/// which nothing is left.
pub open spec fn normalized_tags(tags: Seq<Seq<char>>) -> Seq<Seq<char>>
    decreases tags.len(),
{
    if tags.len() == 0 {
        Seq::empty()
    } else {
        let rest = normalized_tags(tags.drop_last());
        match normalized_tag(tags.last()) {
            Some(name) => rest.push(name),
            None => rest,
        }
    }
}

/// The normalized names of the strings among the items of a sequence, in
/// order; items that are no strings are passed over.
pub open spec fn list_tags(items: Seq<YamlShape>) -> Seq<Seq<char>>
    decreases items.len(),
{
    if items.len() == 0 {
        Seq::empty()
    } else {
        let rest = list_tags(items.drop_last());
        match items.last() {
            YamlShape::Text(tag) => match normalized_tag(tag) {
                Some(name) => rest.push(name),
                None => rest,
            },
            _ => rest,
        }
    }
}

/// The tags that stand under `key`: the strings of a sequence, or the
/// pieces of a single string parted by commas and white space, each
/// normalized; none where the key is absent or holds anything else.
pub open spec fn field_tags(fields: Map<Seq<char>, YamlShape>, key: Seq<char>) -> Seq<Seq<char>> {
    if fields.contains_key(key) {
        match fields[key] {
            YamlShape::List(items) => list_tags(items),
            YamlShape::Text(text) => normalized_tags(pieces_of(text)),
            YamlShape::Other(_) => Seq::empty(),
        }
    } else {
        Seq::empty()
    }
}

/// The string that stands under `key`, if the key is there and holds one.
pub open spec fn field_text(fields: Map<Seq<char>, YamlShape>, key: Seq<char>) -> Option<
    Seq<char>,
> {
    if fields.contains_key(key) {
        match fields[key] {
            YamlShape::Text(text) => Some(text),
            _ => None,
        }
    } else {
        None
    }
}

/// A sequence of strings, as shapes.
pub open spec fn text_shapes(names: Seq<Seq<char>>) -> Seq<YamlShape> {
    Seq::new(names.len(), |i: int| YamlShape::Text(names[i]))
}

/// The value that `set_tags` stores: the sequence of the normalized names.
pub open spec fn tag_list(tags: Seq<Seq<char>>) -> YamlShape {
    YamlShape::List(text_shapes(normalized_tags(tags)))
}

/// The fields that a text declares in its frontmatter; none where it has no
/// frontmatter or the frontmatter cannot be read as a mapping.
pub open spec fn frontmatter_fields(text: Seq<char>) -> Map<Seq<char>, YamlShape> {
    match matter_split(text).0 {
        Some(pod) => match pod_fields(pod) {
            Some(fields) => shape_map(fields),
            None => Map::empty(),
        },
        None => Map::empty(),
    }
}

/// The text below the frontmatter.
pub open spec fn frontmatter_body(text: Seq<char>) -> Seq<char> {
    matter_split(text).1
}

/// A YAML document between two lines of `---`, followed by an empty line.
/// The document loses the `---` lines it begins with and ends with a line
/// feed.
pub open spec fn framed_document(doc: Seq<char>) -> Seq<char> {
    let fields = if has_prefix(doc, "---"@) {
        strip_leading_text(doc, "---\n"@)
    } else {
        doc
    };
    let closed = if fields.len() > 0 && fields.last() == '\n' {
        fields
    } else {
        fields.push('\n')
    };
    "---\n"@ + closed + "---\n\n"@
}

fn normalize_chars(v: &Vec<char>) -> (r: Option<Vec<char>>)
    ensures
        match r {
            Some(name) => normalized_tag(v@) == Some(name@),
            None => normalized_tag(v@) is None,
        },
{
    let name = trim(&trim_start_matches(&trim(v), '#'));
    if name.len() == 0 {
        None
    } else {
        Some(name)
    }
}

/// The normalized name of a tag, `None` where nothing is left of it.
pub fn normalize_tag(tag: &str) -> (r: Option<String>)
    ensures
        opt_text(r) == normalized_tag(tag@),
{
    match normalize_chars(&chars_of(tag)) {
        Some(name) => Some(string_of(&name)),
        None => None,
    }
}

/// The frontmatter key that holds the tags, for the configured name.
pub fn normalize_frontmatter_key(key: &str) -> (r: String)
    ensures
        r@ == tag_key_of(key@),
{
    let trimmed = trim(&chars_of(key));
    if trimmed.len() == 0 {
        "tags".to_string()
    } else {
        string_of(&trimmed)
    }
}

impl FrontmatterMap {
    /// The YAML text of the mapping, `None` where it cannot be written.
    pub closed spec fn document(&self) -> Option<Seq<char>> {
        yaml_document(self.inner)
    }

    /// A frontmatter without fields.
    pub fn new() -> (map: Self)
        ensures
            forall|k: Seq<char>| !map@.contains_key(k),
    {
        FrontmatterMap { inner: mapping_new() }
    }

    /// Whether a field stands under `key`.
    pub fn contains_key(&self, key: &str) -> (b: bool)
        ensures
            b == self@.contains_key(key@),
    {
        mapping_get(&self.inner, key).is_some()
    }

    /// Puts the string `value` under `key`.
    pub fn set_text(&mut self, key: &str, value: String)
        ensures
            final(self)@ == old(self)@.insert(key@, YamlShape::Text(value@)),
    {
        let v = text_value(value);
        mapping_insert(&mut self.inner, key, v);
        assert(self@ =~= old(self)@.insert(key@, YamlShape::Text(value@)));
    }

    /// Takes the field under `key` away, if there is one.
    pub fn remove(&mut self, key: &str)
        ensures
            final(self)@ == old(self)@.remove(key@),
    {
        mapping_remove(&mut self.inner, key);
        assert(self@ =~= old(self)@.remove(key@));
    }
}

/// The string under `key`, if the key is there and holds one.
pub fn extract_string(map: &FrontmatterMap, key: &str) -> (r: Option<String>)
    ensures
        opt_text(r) == field_text(map@, key@),
{
    match mapping_get(&map.inner, key) {
        Some(value) => match value_shape(value) {
            FieldValue::Text(text) => Some(text),
            _ => None,
        },
        None => None,
    }
}

/// The tags under `key`: what `field_tags` states.
pub fn extract_tags(map: &FrontmatterMap, key: &str) -> (tags: Vec<String>)
    ensures
        texts(tags@) == field_tags(map@, key@),
{
    let mut tags: Vec<String> = Vec::new();
    assert(texts(tags@) =~= Seq::<Seq<char>>::empty());
    match mapping_get(&map.inner, key) {
        Some(value) => match value_shape(value) {
            FieldValue::List(items) => {
                let ghost shapes = shapes_of(items@);
                let mut i: usize = 0;
                assert(shapes.take(0) =~= Seq::<YamlShape>::empty());
                while i < items.len()
                    invariant
                        i <= items.len(),
                        shapes == shapes_of(items@),
                        texts(tags@) == list_tags(shapes.take(i as int)),
                    decreases items.len() - i,
                {
                    let ghost before = texts(tags@);
                    assert(shapes.take(i + 1).drop_last() =~= shapes.take(i as int));
                    assert(shapes.take(i + 1).last() == yaml_shape(items@[i as int]));
                    match value_shape(&items[i]) {
                        FieldValue::Text(tag) => match normalize_tag(&tag) {
                            Some(name) => {
                                tags.push(name);
                                assert(texts(tags@) =~= before.push(name@));
                            },
                            None => {},
                        },
                        _ => {},
                    }
                    i += 1;
                }
                assert(shapes.take(items.len() as int) =~= shapes);
            },
            FieldValue::Text(text) => {
                let pieces = split_pieces(&chars_of(&text));
                let mut i: usize = 0;
                assert(rows(pieces@).take(0) =~= Seq::<Seq<char>>::empty());
                while i < pieces.len()
                    invariant
                        i <= pieces.len(),
                        texts(tags@) == normalized_tags(rows(pieces@).take(i as int)),
                    decreases pieces.len() - i,
                {
                    let ghost before = texts(tags@);
                    assert(rows(pieces@).take(i + 1).drop_last() =~= rows(pieces@).take(i as int));
                    assert(rows(pieces@).take(i + 1).last() == pieces@[i as int]@);
                    match normalize_chars(&pieces[i]) {
                        Some(name) => {
                            let name = string_of(&name);
                            tags.push(name);
                            assert(texts(tags@) =~= before.push(name@));
                        },
                        None => {},
                    }
                    i += 1;
                }
                assert(rows(pieces@).take(pieces.len() as int) =~= rows(pieces@));
            },
            FieldValue::Other => {},
        },
        None => {},
    }
    tags
}

/// Puts the normalized names of `tags` under `key`, as a sequence of
/// strings.
pub fn set_tags(map: &mut FrontmatterMap, key: &str, tags: &Vec<String>)
    ensures
        final(map)@ == old(map)@.insert(key@, tag_list(texts(tags@))),
{
    let mut items: Vec<serde_yaml::Value> = Vec::new();
    let mut i: usize = 0;
    assert(texts(tags@).take(0) =~= Seq::<Seq<char>>::empty());
    assert(shapes_of(items@) =~= text_shapes(normalized_tags(texts(tags@).take(0))));
    while i < tags.len()
        invariant
            i <= tags.len(),
            shapes_of(items@) == text_shapes(normalized_tags(texts(tags@).take(i as int))),
        decreases tags.len() - i,
    {
        let ghost before = shapes_of(items@);
        let ghost names = normalized_tags(texts(tags@).take(i as int));
        assert(texts(tags@).take(i + 1).drop_last() =~= texts(tags@).take(i as int));
        assert(texts(tags@).take(i + 1).last() == tags@[i as int]@);
        match normalize_tag(&tags[i]) {
            Some(name) => {
                let v = text_value(name);
                items.push(v);
                assert(shapes_of(items@) =~= before.push(YamlShape::Text(name@)));
                assert(text_shapes(names.push(name@)) =~= before.push(YamlShape::Text(name@)));
            },
            None => {},
        }
        i += 1;
    }
    assert(texts(tags@).take(tags.len() as int) =~= texts(tags@));
    let v = sequence_value(items);
    mapping_insert(&mut map.inner, key, v);
    assert(map@ =~= old(map)@.insert(key@, tag_list(texts(tags@))));
}

/// The frontmatter and the body of a file's text.
pub fn parse_frontmatter(text: &str) -> (r: (FrontmatterMap, String))
    ensures
        r.0@ == frontmatter_fields(text@),
        r.1@ == frontmatter_body(text@),
{
    let (data, body) = matter_parse(text);
    let inner = match data {
        Some(pod) => match pod_to_mapping(&pod) {
            Some(m) => m,
            None => mapping_new(),
        },
        None => mapping_new(),
    };
    let map = FrontmatterMap { inner };
    assert(map@ =~= frontmatter_fields(text@));
    (map, body)
}

/// The frontmatter as the head of a file: what `framed_document` makes of
/// its YAML text. Fails with `SerializeError` where the mapping cannot be
/// written as YAML.
pub fn render_frontmatter(map: &FrontmatterMap) -> (r: Result<String, VaultError>)
    ensures
        match r {
            Ok(head) => map.document() matches Some(doc) && head@ == framed_document(doc),
            Err(VaultError::SerializeError(_)) => map.document() is None,
            Err(_) => false,
        },
{
    match yaml_to_string(&map.inner) {
        Ok(doc) => {
            let mut yaml = chars_of(&doc);
            if starts_with(&yaml, &chars_of("---")) {
                yaml = trim_start_matches_text(&yaml, &chars_of("---\n"));
            }
            if !(yaml.len() > 0 && yaml[yaml.len() - 1] == '\n') {
                yaml.push('\n');
            }
            let mut out = chars_of("---\n");
            push_all(&mut out, &yaml);
            push_all(&mut out, &chars_of("---\n\n"));
            Ok(string_of(&out))
        },
        Err(e) => Err(VaultError::SerializeError(yaml_error_text(&e))),
    }
}


/// The tags of a sequence of strings are the normalized names of these
/// strings.
pub proof fn lemma_list_tags_of_texts(names: Seq<Seq<char>>)
    ensures
        list_tags(text_shapes(names)) == normalized_tags(names),
    decreases names.len(),
{
    if names.len() > 0 {
        assert(text_shapes(names).drop_last() =~= text_shapes(names.drop_last()));
        assert(text_shapes(names).last() == YamlShape::Text(names.last()));
        lemma_list_tags_of_texts(names.drop_last());
    }
}

/// Names that are normalized already stay as they are.
pub proof fn lemma_normal_tags_are_kept(tags: Seq<Seq<char>>)
    requires
        forall|i: int| 0 <= i < tags.len() ==> normalized_tag(#[trigger] tags[i]) == Some(tags[i]),
    ensures
        normalized_tags(tags) == tags,
    decreases tags.len(),
{
    if tags.len() > 0 {
        let rest = tags.drop_last();
        assert forall|i: int| 0 <= i < rest.len() implies normalized_tag(#[trigger] rest[i])
            == Some(rest[i]) by {
            assert(rest[i] == tags[i]);
        }
        lemma_normal_tags_are_kept(rest);
        assert(tags.last() == tags[tags.len() - 1]);
        assert(rest.push(tags.last()) =~= tags);
    } else {
        assert(tags =~= Seq::<Seq<char>>::empty());
    }
}

/// The tags that are read under a key are those that were written there,
/// normalized: writing normalizes the names and reading normalizes them
/// once more. Tags whose names are normalized already are read as they
/// were written.
pub proof fn lemma_written_tags_are_read(
    fields: Map<Seq<char>, YamlShape>,
    key: Seq<char>,
    tags: Seq<Seq<char>>,
)
    ensures
        field_tags(fields.insert(key, tag_list(tags)), key) == normalized_tags(
            normalized_tags(tags),
        ),
        (forall|i: int| 0 <= i < tags.len() ==> normalized_tag(#[trigger] tags[i]) == Some(tags[i]))
            ==> field_tags(fields.insert(key, tag_list(tags)), key) == tags,
{
    lemma_list_tags_of_texts(normalized_tags(tags));
    if forall|i: int| 0 <= i < tags.len() ==> normalized_tag(#[trigger] tags[i]) == Some(tags[i]) {
        lemma_normal_tags_are_kept(tags);
    }
}

} // verus!
