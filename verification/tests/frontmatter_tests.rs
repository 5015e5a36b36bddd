use prompt_vault::frontmatter::{
    extract_string, extract_tags, normalize_frontmatter_key, normalize_tag, parse_frontmatter,
    render_frontmatter, set_tags, FrontmatterMap,
};

fn strings(items: &[&str]) -> Vec<String> {
    items.iter().map(|s| s.to_string()).collect()
}

#[test]
fn tag_is_trimmed_and_loses_its_hashes() {
    assert_eq!(normalize_tag("  #foo "), Some("foo".to_string()));
    assert_eq!(normalize_tag("##bar"), Some("bar".to_string()));
    assert_eq!(normalize_tag("# spaced"), Some("spaced".to_string()));
    assert_eq!(normalize_tag("a#b"), Some("a#b".to_string()));
    assert_eq!(normalize_tag("Foo"), Some("Foo".to_string()));
}

#[test]
fn tag_of_which_nothing_is_left_is_dropped() {
    assert_eq!(normalize_tag(""), None);
    assert_eq!(normalize_tag("   "), None);
    assert_eq!(normalize_tag(" ### "), None);
}

#[test]
fn tag_key_defaults_to_tags() {
    assert_eq!(normalize_frontmatter_key(""), "tags");
    assert_eq!(normalize_frontmatter_key(" \t"), "tags");
    assert_eq!(normalize_frontmatter_key(" labels "), "labels");
}

#[test]
fn new_map_has_no_fields() {
    let map = FrontmatterMap::new();
    assert!(!map.contains_key("created"));
    assert_eq!(extract_string(&map, "created"), None);
    assert!(extract_tags(&map, "tags").is_empty());
}

#[test]
fn text_fields_are_set_read_and_removed() {
    let mut map = FrontmatterMap::new();
    map.set_text("title", "First".to_string());
    map.set_text("title", "Second".to_string());
    map.set_text("other", "x".to_string());
    assert_eq!(extract_string(&map, "title"), Some("Second".to_string()));
    assert!(map.contains_key("other"));
    map.remove("title");
    assert_eq!(extract_string(&map, "title"), None);
    assert_eq!(extract_string(&map, "other"), Some("x".to_string()));
    map.remove("absent");
    assert!(map.contains_key("other"));
}

#[test]
fn tags_are_stored_normalized() {
    let mut map = FrontmatterMap::new();
    set_tags(&mut map, "tags", &strings(&[" #foo", "", "bar ", "#"]));
    assert_eq!(extract_tags(&map, "tags"), strings(&["foo", "bar"]));
    assert_eq!(extract_string(&map, "tags"), None);
    set_tags(&mut map, "tags", &strings(&[]));
    assert!(extract_tags(&map, "tags").is_empty());
    assert!(map.contains_key("tags"));
}

#[test]
fn tags_are_read_from_a_single_string() {
    let mut map = FrontmatterMap::new();
    map.set_text("tags", "a,b  c,\t#d,,".to_string());
    assert_eq!(extract_tags(&map, "tags"), strings(&["a", "b", "c", "d"]));
}

#[test]
fn parse_splits_frontmatter_from_body() {
    let (map, body) = parse_frontmatter("---\ntitle: Hello\ncount: 3\n---\nBody text\nmore");
    assert_eq!(extract_string(&map, "title"), Some("Hello".to_string()));
    assert!(map.contains_key("count"));
    assert_eq!(extract_string(&map, "count"), None);
    assert_eq!(body, "Body text\nmore");
}

#[test]
fn parse_without_frontmatter_gives_an_empty_map() {
    let (map, body) = parse_frontmatter("Just a body\nwith lines");
    assert!(!map.contains_key("title"));
    assert_eq!(body, "Just a body\nwith lines");
    let (map, _) = parse_frontmatter("---\n- a\n- b\n---\nbody");
    assert!(!map.contains_key("a"));
}

#[test]
fn render_frames_the_yaml_document() {
    let mut map = FrontmatterMap::new();
    map.set_text("title", "hello".to_string());
    assert_eq!(render_frontmatter(&map), Ok("---\ntitle: hello\n---\n\n".to_string()));
    set_tags(&mut map, "tags", &strings(&["foo", "bar"]));
    assert_eq!(
        render_frontmatter(&map),
        Ok("---\ntitle: hello\ntags:\n- foo\n- bar\n---\n\n".to_string())
    );
}

#[test]
fn render_of_an_empty_map_is_still_framed() {
    let map = FrontmatterMap::new();
    assert_eq!(render_frontmatter(&map), Ok("---\n{}\n---\n\n".to_string()));
}

#[test]
fn rendered_frontmatter_parses_back() {
    let mut map = FrontmatterMap::new();
    map.set_text("created", "2024-01-01T10:00:00".to_string());
    set_tags(&mut map, "tags", &strings(&["foo", "bar baz"]));
    let head = render_frontmatter(&map).unwrap();
    let text = format!("{}body", head);
    let (again, body) = parse_frontmatter(&text);
    assert_eq!(extract_string(&again, "created"), Some("2024-01-01T10:00:00".to_string()));
    assert_eq!(extract_tags(&again, "tags"), strings(&["foo", "bar baz"]));
    assert_eq!(body, "body");
}
