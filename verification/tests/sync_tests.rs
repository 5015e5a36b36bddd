use prompt_vault::config::FrontmatterSettings;
use prompt_vault::models::PromptInput;
use prompt_vault::sync::{
    delete_prompt, delete_target, save_prompt, save_prompt_with, sync_vault, CacheOp,
    RemovalOutcome, SyncStats,
};
use prompt_vault::vault::{
    candidate_file_name, delete_prompt_file, find_prompt_by_id, generate_unique_file_path,
    pick_unique_name, read_prompt_file, scan_vault, write_prompt_file, write_prompt_file_at,
    PromptFile, VaultError, VaultFile,
};

fn settings() -> FrontmatterSettings {
    FrontmatterSettings { prompt_tags_property: "tags".to_string(), add_prompts_tag_to_tags: false }
}

fn file(name: &str, text: &str) -> VaultFile {
    VaultFile { name: name.to_string(), text: Some(text.to_string()) }
}

fn strings(items: &[&str]) -> Vec<String> {
    items.iter().map(|s| s.to_string()).collect()
}

fn input(path: Option<&str>, previous: Option<&str>, text: &str, tags: &[&str]) -> PromptInput {
    PromptInput {
        id: path.unwrap_or("").to_string(),
        created: None,
        text: text.to_string(),
        tags: strings(tags),
        file_path: path.map(|p| p.to_string()),
        previous_file_path: previous.map(|p| p.to_string()),
        title: None,
        description: None,
    }
}

fn prompt(path: &str, content: &str, tags: &[&str]) -> PromptFile {
    PromptFile {
        id: path.to_string(),
        file_path: path.to_string(),
        tags: strings(tags),
        created: None,
        content: content.to_string(),
        file_hash: None,
        title: None,
        description: None,
    }
}

/// The ids that a cache holds after the given writes, starting from `ids`.
fn ids_after(ids: &[String], ops: &[CacheOp]) -> Vec<String> {
    let mut ids: Vec<String> = ids.to_vec();
    for op in ops {
        match op {
            CacheOp::UpsertPrompt(row) => {
                if !ids.contains(&row.id) {
                    ids.push(row.id.clone());
                }
            }
            CacheOp::DeletePrompt(id) => ids.retain(|i| i != id),
            CacheOp::ReplaceTags(_, _) => {}
        }
    }
    ids
}

#[test]
fn sync_writes_every_file_and_prunes_the_rest() {
    let files = vec![
        file("a.md", "---\ntags: [x]\n---\n```prompt\nA\n```"),
        file("b.md", "```prompt\nB\n```"),
    ];
    let cached = strings(&["b.md", "gone.md", "old.md"]);
    let plan = sync_vault(&files, &cached, &settings());
    assert_eq!(plan.stats, SyncStats { found: 2, updated: 2, deleted: 2 });
    assert_eq!(plan.ops.len(), 6);
    match &plan.ops[0] {
        CacheOp::UpsertPrompt(row) => {
            assert_eq!(row.id, "a.md");
            assert_eq!(row.text, "A");
            assert_eq!(row.file_path, Some("a.md".to_string()));
            assert_eq!(row.file_hash.as_ref().map(|h| h.len()), Some(64));
        }
        other => panic!("unexpected write {:?}", other),
    }
    assert_eq!(plan.ops[1], CacheOp::ReplaceTags("a.md".to_string(), strings(&["x"])));
    assert_eq!(plan.ops[3], CacheOp::ReplaceTags("b.md".to_string(), strings(&[])));
    assert_eq!(plan.ops[4], CacheOp::DeletePrompt("gone.md".to_string()));
    assert_eq!(plan.ops[5], CacheOp::DeletePrompt("old.md".to_string()));
}

#[test]
fn sync_twice_deletes_nothing_the_second_time() {
    let files = vec![file("a.md", "```prompt\nA\n```"), file("b.md", "B")];
    let cached = strings(&["stale.md"]);
    let first = sync_vault(&files, &cached, &settings());
    assert_eq!(first.stats.deleted, 1);
    let cached = ids_after(&cached, &first.ops);
    let second = sync_vault(&files, &cached, &settings());
    assert_eq!(second.stats.deleted, 0);
    assert_eq!(second.stats.found, first.stats.found);
    assert_eq!(second.stats.updated, second.stats.found);
}

#[test]
fn sync_prunes_a_file_deleted_on_disk() {
    let mut files = vec![file("a.md", "```prompt\nA\n```")];
    let first = sync_vault(&files, &[].to_vec(), &settings());
    assert_eq!(first.stats.found, 1);
    let cached = ids_after(&[], &first.ops);
    assert_eq!(cached, strings(&["a.md"]));
    files.clear();
    let second = sync_vault(&files, &cached, &settings());
    assert_eq!(second.stats, SyncStats { found: 0, updated: 0, deleted: 1 });
    assert_eq!(second.ops, vec![CacheOp::DeletePrompt("a.md".to_string())]);
    assert_eq!(
        find_prompt_by_id(&files, "a.md", &settings()),
        Err(VaultError::NotFound("a.md".to_string()))
    );
}

#[test]
fn sync_of_an_empty_vault_and_cache_does_nothing() {
    let plan = sync_vault(&Vec::new(), &Vec::new(), &settings());
    assert_eq!(plan.stats, SyncStats { found: 0, updated: 0, deleted: 0 });
    assert!(plan.ops.is_empty());
}

#[test]
fn write_rejects_content_with_a_fence() {
    for content in ["a ``` b", "~~~", "```prompt\nx\n```"] {
        let r = write_prompt_file(&None, &prompt("a.md", content, &[]), &settings());
        assert_eq!(
            r,
            Err(VaultError::InvalidContent("Prompt content cannot include ``` or ~~~".to_string()))
        );
    }
    let r = write_prompt_file(&None, &prompt("../a", "```", &[]), &settings());
    assert!(matches!(r, Err(VaultError::InvalidContent(_))));
}

#[test]
fn write_rejects_invalid_paths() {
    for path in ["", "..", "/abs", "dir/a.md", "a\\b"] {
        let r = write_prompt_file(&None, &prompt(path, "ok", &[]), &settings());
        assert!(matches!(r, Err(VaultError::InvalidFilePath(_))));
    }
}

#[test]
fn write_of_a_new_file_has_frontmatter_and_block() {
    let w = write_prompt_file_at(
        &None,
        &prompt("note", "Hello", &["#foo", " bar "]),
        &settings(),
        "2024-05-06T07:08:09",
    )
    .unwrap();
    assert_eq!(w.relative_path, "note.md");
    assert_eq!(
        w.text,
        "---\ncreated: 2024-05-06T07:08:09\ntags:\n- foo\n- bar\n---\n\n```prompt\nHello\n```\n"
    );
}

#[test]
fn write_keeps_created_unknown_keys_and_surrounding_text() {
    let existing = "---\ncreated: 2020-02-02T02:02:02\ncustom: keep me\nid: drop-me\ntitle: Old\n---\nIntro\n\n```prompt\nold\n```\n\nOutro\n";
    let mut p = prompt("a.md", "new\ncontent", &["x"]);
    p.description = Some("About".to_string());
    p.title = Some("   ".to_string());
    let w = write_prompt_file_at(&Some(existing.to_string()), &p, &settings(), "2099-01-01T00:00:00")
        .unwrap();
    let again = read_prompt_file("a.md", &w.text, &settings());
    assert_eq!(again.created, Some("2020-02-02T02:02:02".to_string()));
    assert_eq!(again.title, None);
    assert_eq!(again.description, Some("About".to_string()));
    assert_eq!(again.tags, strings(&["x"]));
    assert_eq!(again.content, "new\ncontent");
    assert!(w.text.contains("custom: keep me\n"));
    assert!(!w.text.contains("drop-me"));
    assert!(w.text.ends_with("---\n\nIntro\n\n```prompt\nnew\ncontent\n```\n\nOutro"));
}

#[test]
fn write_prefers_the_created_of_the_prompt() {
    let existing = "---\ncreated: 2020-02-02T02:02:02\n---\n";
    let mut p = prompt("a.md", "x", &[]);
    p.created = Some("2021-03-03T03:03:03".to_string());
    let w = write_prompt_file_at(&Some(existing.to_string()), &p, &settings(), "now").unwrap();
    assert_eq!(
        read_prompt_file("a.md", &w.text, &settings()).created,
        Some("2021-03-03T03:03:03".to_string())
    );
}

#[test]
fn write_adds_the_marker_tag_when_asked() {
    let marked = FrontmatterSettings {
        prompt_tags_property: "labels".to_string(),
        add_prompts_tag_to_tags: true,
    };
    let existing = "---\ntags: [keep]\n---\n";
    let w = write_prompt_file_at(
        &Some(existing.to_string()),
        &prompt("a.md", "x", &["mine"]),
        &marked,
        "now",
    )
    .unwrap();
    let plain = read_prompt_file("a.md", &w.text, &settings());
    assert_eq!(plain.tags, strings(&["keep", "prompts"]));
    let labelled = read_prompt_file("a.md", &w.text, &marked);
    assert_eq!(labelled.tags, strings(&["mine"]));
    let twice = write_prompt_file_at(&Some(w.text), &prompt("a.md", "x", &["mine"]), &marked, "now")
        .unwrap();
    assert_eq!(
        read_prompt_file("a.md", &twice.text, &settings()).tags,
        strings(&["keep", "prompts"])
    );
}

#[test]
fn write_dates_an_undated_prompt() {
    let w = write_prompt_file(&None, &prompt("a.md", "x", &[]), &settings()).unwrap();
    let created = read_prompt_file("a.md", &w.text, &settings()).created.unwrap();
    assert_eq!(created.len(), 19);
    let shape: String =
        created.chars().map(|c| if c.is_ascii_digit() { '0' } else { c }).collect();
    assert_eq!(shape, "0000-00-00T00:00:00");
}

#[test]
fn save_concrete_scenario() {
    let id = "2024-01-01-abcdef.md";
    let files = vec![file(id, "---\ntags: [foo, bar]\n---\n\n```prompt\nHello\n```\n")];
    let scanned = scan_vault(&files, &settings());
    assert_eq!(scanned.len(), 1);
    assert_eq!(scanned[0].id, id);
    assert_eq!(scanned[0].tags, strings(&["foo", "bar"]));
    assert_eq!(scanned[0].content, "Hello");

    let plan = save_prompt(&files, &input(Some(id), Some(id), "Hello\nWorld", &["foo"]), &settings())
        .unwrap();
    assert_eq!(plan.write.relative_path, id);
    assert_eq!(plan.stale_file, None);
    assert_eq!(plan.cache.len(), 2);
    assert_eq!(plan.cache[1], CacheOp::ReplaceTags(id.to_string(), strings(&["foo"])));

    let files = vec![file(id, &plan.write.text)];
    let read = find_prompt_by_id(&files, id, &settings()).unwrap();
    assert_eq!(read.content, "Hello\nWorld");
    assert_eq!(read.tags, strings(&["foo"]));
    match &plan.cache[0] {
        CacheOp::UpsertPrompt(row) => {
            assert_eq!(row.id, id);
            assert_eq!(row.text, "Hello\nWorld");
            assert_eq!(row.file_hash, read.file_hash);
        }
        other => panic!("unexpected write {:?}", other),
    }
}

#[test]
fn save_fails_when_the_name_belongs_to_another_prompt() {
    let files = vec![file("a.md", "x"), file("b.md", "y")];
    let renamed = save_prompt(&files, &input(Some("b"), Some("a.md"), "t", &[]), &settings());
    assert_eq!(renamed, Err(VaultError::FileAlreadyExists("b.md".to_string())));
    let created = save_prompt(&files, &input(Some("a.md"), None, "t", &[]), &settings());
    assert_eq!(created, Err(VaultError::FileAlreadyExists("a.md".to_string())));
    let blank_previous = save_prompt(&files, &input(Some("a.md"), Some("  "), "t", &[]), &settings());
    assert_eq!(blank_previous, Err(VaultError::FileAlreadyExists("a.md".to_string())));
}

#[test]
fn save_to_the_file_the_prompt_owns_succeeds() {
    let files = vec![file("a.md", "```prompt\nold\n```")];
    let plan = save_prompt(&files, &input(Some("a"), Some(" a.md "), "new", &[]), &settings()).unwrap();
    assert_eq!(plan.write.relative_path, "a.md");
    assert_eq!(plan.stale_file, None);
    assert_eq!(plan.cache.len(), 2);
}

#[test]
fn save_under_a_new_name_removes_the_old_row_and_file() {
    let files = vec![file("old.md", "---\ncustom: 1\n---\n```prompt\nold\n```")];
    let plan =
        save_prompt(&files, &input(Some("new"), Some("old"), "text", &["t"]), &settings()).unwrap();
    assert_eq!(plan.write.relative_path, "new.md");
    assert_eq!(plan.stale_file, Some("old.md".to_string()));
    assert_eq!(plan.cache.len(), 3);
    assert_eq!(plan.cache[0], CacheOp::DeletePrompt("old.md".to_string()));
    assert_eq!(plan.cache[2], CacheOp::ReplaceTags("new.md".to_string(), strings(&["t"])));
    assert!(!plan.write.text.contains("custom"));
}

#[test]
fn save_rejects_invalid_names() {
    let files = vec![file("a.md", "x")];
    for bad in ["../x", "/x", "d/x", ".."] {
        let r = save_prompt(&files, &input(Some(bad), None, "t", &[]), &settings());
        assert!(matches!(r, Err(VaultError::InvalidFilePath(_))));
        let r = save_prompt(&files, &input(Some("fine"), Some(bad), "t", &[]), &settings());
        assert!(matches!(r, Err(VaultError::InvalidFilePath(_))));
    }
}

#[test]
fn save_rejects_content_with_a_fence() {
    let r = save_prompt(&Vec::new(), &input(Some("a"), None, "x ``` y", &[]), &settings());
    assert!(matches!(r, Err(VaultError::InvalidContent(_))));
}

#[test]
fn save_without_a_name_uses_the_fresh_one() {
    let files = vec![file("a.md", "x")];
    let plan = save_prompt_with(
        &files,
        &input(Some("  "), None, "t", &[]),
        &settings(),
        "2024-01-01-0a1b2c.md",
        "2024-01-01T00:00:00",
    )
    .unwrap();
    assert_eq!(plan.write.relative_path, "2024-01-01-0a1b2c.md");
    let plan = save_prompt(&files, &input(None, None, "t", &[]), &settings()).unwrap();
    assert_eq!(plan.write.relative_path.len(), 20);
    assert!(plan.write.relative_path.ends_with(".md"));
}

#[test]
fn candidate_name_takes_six_digits() {
    assert_eq!(
        candidate_file_name("2024-01-01", "0123456789abcdef0123456789abcdef"),
        "2024-01-01-012345.md"
    );
    assert_eq!(candidate_file_name("d", "abc"), "d-abc.md");
}

#[test]
fn pick_takes_the_first_free_candidate() {
    let draws = strings(&["aaaaaa11", "bbbbbb22", "cccccc33"]);
    let taken = strings(&["d-aaaaaa.md", "d-cccccc.md"]);
    assert_eq!(pick_unique_name("d", &draws, &taken), Ok("d-bbbbbb.md".to_string()));
    assert_eq!(pick_unique_name("d", &draws, &Vec::new()), Ok("d-aaaaaa.md".to_string()));
}

#[test]
fn pick_fails_when_every_candidate_is_taken() {
    let draws = strings(&["aaaaaa11", "aaaaaa22"]);
    let taken = strings(&["d-aaaaaa.md"]);
    assert_eq!(
        pick_unique_name("d", &draws, &taken),
        Err(VaultError::FileAlreadyExists("Failed to generate unique filename".to_string()))
    );
    assert_eq!(
        pick_unique_name("d", &Vec::new(), &Vec::new()),
        Err(VaultError::FileAlreadyExists("Failed to generate unique filename".to_string()))
    );
}

#[test]
fn generated_name_is_a_date_and_six_hex_digits() {
    let taken = strings(&["a.md"]);
    let name = generate_unique_file_path(&taken).unwrap();
    assert_eq!(name.len(), 20);
    assert!(name.ends_with(".md"));
    assert_eq!(&name[4..5], "-");
    assert_eq!(&name[7..8], "-");
    assert_eq!(&name[10..11], "-");
    assert!(name[11..17].chars().all(|c| c.is_ascii_digit() || ('a'..='f').contains(&c)));
    assert!(!taken.contains(&name));
    assert_ne!(generate_unique_file_path(&taken).unwrap(), "a.md");
}

#[test]
fn delete_file_needs_a_valid_name_of_an_existing_file() {
    let names = strings(&["a.md"]);
    assert_eq!(delete_prompt_file(&names, " a "), Ok("a.md".to_string()));
    assert_eq!(
        delete_prompt_file(&names, "b"),
        Err(VaultError::PathNotFound("b.md".to_string()))
    );
    assert_eq!(
        delete_prompt_file(&names, "../a"),
        Err(VaultError::InvalidFilePath("path traversal".to_string()))
    );
}

#[test]
fn delete_targets_the_cached_path_or_the_id() {
    assert_eq!(delete_target(&Some("sub.md".to_string()), "id"), Ok("sub.md".to_string()));
    assert_eq!(delete_target(&None, "id"), Ok("id.md".to_string()));
    assert_eq!(
        delete_target(&None, "a/b"),
        Err(VaultError::InvalidFilePath("subfolders are not supported".to_string()))
    );
    assert_eq!(
        delete_target(&Some("/x".to_string()), "fine"),
        Err(VaultError::InvalidFilePath("absolute path".to_string()))
    );
}

#[test]
fn delete_goes_on_when_the_file_is_gone() {
    let expected = vec![CacheOp::DeletePrompt("a.md".to_string())];
    assert_eq!(delete_prompt(&RemovalOutcome::Removed, "a.md"), Ok(expected.clone()));
    assert_eq!(delete_prompt(&RemovalOutcome::Absent, "a.md"), Ok(expected));
}

#[test]
fn delete_stops_when_the_file_cannot_be_removed() {
    assert_eq!(
        delete_prompt(&RemovalOutcome::Failed("permission denied".to_string()), "a.md"),
        Err(VaultError::IoError("permission denied".to_string()))
    );
}
