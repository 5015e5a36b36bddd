use prompt_vault::config::FrontmatterSettings;
use prompt_vault::vault::{
    find_prompt_by_id, has_markdown_suffix, hash_text, normalize_relative_path,
    read_prompt_file, scan_vault, VaultError, VaultFile,
};

fn settings() -> FrontmatterSettings {
    FrontmatterSettings { prompt_tags_property: "tags".to_string(), add_prompts_tag_to_tags: false }
}

fn file(name: &str, text: Option<&str>) -> VaultFile {
    VaultFile { name: name.to_string(), text: text.map(|t| t.to_string()) }
}

#[test]
fn normalize_appends_the_extension() {
    assert_eq!(normalize_relative_path("note"), Ok("note.md".to_string()));
    assert_eq!(normalize_relative_path("  note.md \n"), Ok("note.md".to_string()));
    assert_eq!(normalize_relative_path("a.b"), Ok("a.b.md".to_string()));
    assert_eq!(normalize_relative_path(".md"), Ok(".md".to_string()));
}

#[test]
fn normalize_rejects_empty_names() {
    assert_eq!(
        normalize_relative_path(""),
        Err(VaultError::InvalidFilePath("empty path".to_string()))
    );
    assert_eq!(
        normalize_relative_path(" \t\u{3000}"),
        Err(VaultError::InvalidFilePath("empty path".to_string()))
    );
}

#[test]
fn normalize_rejects_traversal() {
    assert_eq!(
        normalize_relative_path("../secret"),
        Err(VaultError::InvalidFilePath("path traversal".to_string()))
    );
    assert_eq!(
        normalize_relative_path("a..b"),
        Err(VaultError::InvalidFilePath("path traversal".to_string()))
    );
    assert_eq!(
        normalize_relative_path("/.."),
        Err(VaultError::InvalidFilePath("path traversal".to_string()))
    );
}

#[test]
fn normalize_rejects_absolute_paths() {
    assert_eq!(
        normalize_relative_path("/etc/passwd"),
        Err(VaultError::InvalidFilePath("absolute path".to_string()))
    );
    assert_eq!(
        normalize_relative_path("\\share"),
        Err(VaultError::InvalidFilePath("absolute path".to_string()))
    );
}

#[test]
fn normalize_rejects_subfolders() {
    assert_eq!(
        normalize_relative_path("dir/note.md"),
        Err(VaultError::InvalidFilePath("subfolders are not supported".to_string()))
    );
    assert_eq!(
        normalize_relative_path("dir\\note"),
        Err(VaultError::InvalidFilePath("subfolders are not supported".to_string()))
    );
}

#[test]
fn read_takes_tags_content_and_hash() {
    let text = "---\ntags: [foo, bar]\ntitle: Greeting\ncustom: 7\n---\n\n```prompt\nHello\n```\n";
    let prompt = read_prompt_file("2024-01-01-abcdef.md", text, &settings());
    assert_eq!(prompt.id, "2024-01-01-abcdef.md");
    assert_eq!(prompt.file_path, "2024-01-01-abcdef.md");
    assert_eq!(prompt.tags, vec!["foo".to_string(), "bar".to_string()]);
    assert_eq!(prompt.content, "Hello");
    assert_eq!(prompt.title, Some("Greeting".to_string()));
    assert_eq!(prompt.description, None);
    assert_eq!(prompt.created, None);
    let hash = prompt.file_hash.unwrap();
    assert_eq!(hash.len(), 64);
    assert_ne!(hash, text);
}

#[test]
fn read_hash_is_sha256_in_lower_hex() {
    let prompt = read_prompt_file("a.md", "abc", &settings());
    assert_eq!(
        prompt.file_hash,
        Some("ba7816bf8f01cfea414140de5dae2223b00361a396177a9cb410ff61f20015ad".to_string())
    );
    assert_eq!(prompt.content, "");
    assert!(prompt.tags.is_empty());
}

#[test]
fn read_splits_a_tag_string_on_commas_and_white_space() {
    let text = "---\ntags: \"#one, two  #three,,\"\n---\nbody";
    let prompt = read_prompt_file("a.md", text, &settings());
    assert_eq!(
        prompt.tags,
        vec!["one".to_string(), "two".to_string(), "three".to_string()]
    );
}

#[test]
fn read_uses_the_configured_tag_key() {
    let custom = FrontmatterSettings {
        prompt_tags_property: "  labels ".to_string(),
        add_prompts_tag_to_tags: false,
    };
    let text = "---\ntags: [x]\nlabels: [\"#a\", 3, \" b \"]\n---\n";
    let prompt = read_prompt_file("a.md", text, &custom);
    assert_eq!(prompt.tags, vec!["a".to_string(), "b".to_string()]);
    let blank = FrontmatterSettings {
        prompt_tags_property: "   ".to_string(),
        add_prompts_tag_to_tags: false,
    };
    assert_eq!(read_prompt_file("a.md", text, &blank).tags, vec!["x".to_string()]);
}

#[test]
fn read_without_frontmatter_has_no_metadata() {
    let prompt = read_prompt_file("a.md", "~~~prompt\nHi\n~~~", &settings());
    assert!(prompt.tags.is_empty());
    assert_eq!(prompt.created, None);
    assert_eq!(prompt.content, "Hi");
}

#[test]
fn scan_takes_markdown_files_only_and_skips_unreadable_ones() {
    let files = vec![
        file("a.md", Some("```prompt\nA\n```")),
        file("notes.txt", Some("```prompt\nT\n```")),
        file("broken.md", None),
        file(".md", Some("```prompt\nD\n```")),
        file("b.md", Some("no block")),
    ];
    let prompts = scan_vault(&files, &settings());
    assert_eq!(prompts.len(), 2);
    assert_eq!(prompts[0].id, "a.md");
    assert_eq!(prompts[0].content, "A");
    assert_eq!(prompts[1].id, "b.md");
    assert_eq!(prompts[1].content, "");
}

#[test]
fn scan_concrete_vault() {
    let files = vec![file(
        "2024-01-01-abcdef.md",
        Some("---\ntags: [foo, bar]\n---\n\n```prompt\nHello\n```\n"),
    )];
    let prompts = scan_vault(&files, &settings());
    assert_eq!(prompts.len(), 1);
    assert_eq!(prompts[0].id, "2024-01-01-abcdef.md");
    assert_eq!(prompts[0].tags, vec!["foo".to_string(), "bar".to_string()]);
    assert_eq!(prompts[0].content, "Hello");
}

#[test]
fn find_reads_the_named_file() {
    let files = vec![file("a.md", Some("```prompt\nA\n```")), file("b.md", None)];
    let found = find_prompt_by_id(&files, " a ", &settings()).unwrap();
    assert_eq!(found.id, "a.md");
    assert_eq!(found.content, "A");
    assert_eq!(
        find_prompt_by_id(&files, "b.md", &settings()),
        Err(VaultError::NotFound("b.md".to_string()))
    );
    assert_eq!(
        find_prompt_by_id(&files, "c", &settings()),
        Err(VaultError::NotFound("c".to_string()))
    );
}

#[test]
fn find_rejects_invalid_ids() {
    let files = vec![file("a.md", Some("x"))];
    for id in ["..", "/a", "x/a", "a/../b"] {
        let r = find_prompt_by_id(&files, id, &settings());
        assert!(matches!(r, Err(VaultError::InvalidFilePath(_))));
    }
}

#[test]
fn only_names_ending_in_md_have_the_suffix() {
    assert!(has_markdown_suffix("a.md"));
    assert!(has_markdown_suffix(".md"));
    assert!(!has_markdown_suffix("a.MD"));
    assert!(!has_markdown_suffix("a.md "));
    assert!(!has_markdown_suffix("md"));
    assert!(!has_markdown_suffix(""));
}

#[test]
fn texts_of_other_entries_do_not_matter() {
    let with_texts = vec![
        file("a.md", Some("```prompt\nA\n```")),
        file("notes.txt", Some("```prompt\nT\n```")),
        file("b.md", Some("B")),
    ];
    let without = vec![
        file("a.md", Some("```prompt\nA\n```")),
        file("notes.txt", None),
        file("b.md", Some("B")),
    ];
    assert_eq!(scan_vault(&with_texts, &settings()), scan_vault(&without, &settings()));
    assert_eq!(
        find_prompt_by_id(&with_texts, "notes.txt", &settings()),
        find_prompt_by_id(&without, "notes.txt", &settings())
    );
}

#[test]
fn hash_of_a_text_is_a_digest() {
    let hash = hash_text("");
    assert_eq!(hash, "e3b0c44298fc1c149afbf4c8996fb92427ae41e4649b934ca495991b7852b855");
    assert_eq!(hash.len(), 64);
}
