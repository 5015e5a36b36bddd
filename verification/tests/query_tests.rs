use prompt_vault::config::{
    default_show_created_date, default_show_full_prompt, default_show_prompt_tags,
    default_show_prompt_titles, default_theme, AppConfig, ConfigError, FrontmatterSettings,
    ViewSettings,
};
use prompt_vault::models::{
    DbError, ExportedDatabase, ExportedTable, FilterConfig, Prompt, PromptRow, SortConfig,
    TableColumn, TableRow, ViewConfig,
};
use prompt_vault::query::{filter_prompts, prompt_passes, sort_prompts};
use prompt_vault::sql::sanitize_identifier;
use prompt_vault::sync::{duplicate_prompt, duplicate_prompt_with, CacheOp};
use prompt_vault::vault::{read_prompt_file, VaultError, VaultFile};
use std::collections::HashMap;

fn strings(items: &[&str]) -> Vec<String> {
    items.iter().map(|s| s.to_string()).collect()
}

fn prompt(id: &str, created: Option<&str>, text: &str, tags: &[&str]) -> Prompt {
    Prompt {
        id: id.to_string(),
        created: created.map(|c| c.to_string()),
        text: text.to_string(),
        tags: strings(tags),
        file_path: Some(id.to_string()),
        title: None,
        description: None,
    }
}

fn ids(prompts: &[Prompt]) -> Vec<String> {
    prompts.iter().map(|p| p.id.clone()).collect()
}

fn tag_filter(entries: &[&str]) -> Option<FilterConfig> {
    Some(FilterConfig { tags: Some(strings(entries)), search: None, favorite: None })
}

fn search_filter(words: &str) -> Option<FilterConfig> {
    Some(FilterConfig { tags: None, search: Some(words.to_string()), favorite: None })
}

fn sort(order: &str) -> Option<SortConfig> {
    Some(SortConfig { by: "created".to_string(), order: order.to_string() })
}

fn sample() -> Vec<Prompt> {
    vec![
        prompt("a", Some("2024-02-01"), "Write a HAIKU", &["poem", "short"]),
        prompt("b", None, "Summarise the text", &["work"]),
        prompt("c", Some("2023-12-31"), "haiku about rust", &["poem", "work"]),
        prompt("d", Some("2024-02-01"), "Outline", &[]),
    ]
}

#[test]
fn filter_requires_every_positive_tag() {
    let all = sample();
    assert_eq!(ids(&filter_prompts(&all, &tag_filter(&["poem"]), &None)), strings(&["a", "c"]));
    assert_eq!(ids(&filter_prompts(&all, &tag_filter(&["poem", " work "]), &None)), strings(&["c"]));
    assert_eq!(ids(&filter_prompts(&all, &tag_filter(&["absent"]), &None)), strings(&[]));
}

#[test]
fn filter_forbids_negative_tags() {
    let all = sample();
    assert_eq!(ids(&filter_prompts(&all, &tag_filter(&["-work"]), &None)), strings(&["a", "d"]));
    assert_eq!(
        ids(&filter_prompts(&all, &tag_filter(&["poem", " - short "]), &None)),
        strings(&["c"])
    );
}

#[test]
fn filter_entries_that_name_nothing_ask_nothing() {
    let all = sample();
    assert_eq!(ids(&filter_prompts(&all, &tag_filter(&[]), &None)).len(), 4);
    assert_eq!(ids(&filter_prompts(&all, &tag_filter(&["", "  ", "-", " -  "]), &None)).len(), 4);
    assert_eq!(ids(&filter_prompts(&all, &None, &None)).len(), 4);
}

#[test]
fn filter_search_ignores_case() {
    let all = sample();
    assert_eq!(ids(&filter_prompts(&all, &search_filter("haiku"), &None)), strings(&["a", "c"]));
    assert_eq!(ids(&filter_prompts(&all, &search_filter("RUST"), &None)), strings(&["c"]));
    assert_eq!(ids(&filter_prompts(&all, &search_filter(""), &None)).len(), 4);
    assert!(prompt_passes(&all[0], &search_filter("write")));
    assert!(!prompt_passes(&all[1], &search_filter("write")));
}

#[test]
fn sort_orders_by_date_and_keeps_equals_in_order() {
    let all = sample();
    assert_eq!(ids(&sort_prompts(&all, false)), strings(&["b", "c", "a", "d"]));
    assert_eq!(ids(&sort_prompts(&all, true)), strings(&["a", "d", "c", "b"]));
    assert_eq!(ids(&filter_prompts(&all, &None, &sort("asc"))), strings(&["b", "c", "a", "d"]));
    assert_eq!(ids(&filter_prompts(&all, &None, &sort("desc"))), strings(&["a", "d", "c", "b"]));
    assert_eq!(ids(&filter_prompts(&all, &None, &sort("other"))), strings(&["b", "c", "a", "d"]));
}

#[test]
fn sort_compares_dates_as_strings() {
    let all = vec![
        prompt("long", Some("2024-01-01T10"), "", &[]),
        prompt("short", Some("2024-01-01"), "", &[]),
        prompt("early", Some("2024-01-0"), "", &[]),
        prompt("empty", Some(""), "", &[]),
        prompt("none", None, "", &[]),
    ];
    assert_eq!(
        ids(&sort_prompts(&all, false)),
        strings(&["none", "empty", "early", "short", "long"])
    );
}

#[test]
fn filter_then_sort() {
    let all = sample();
    assert_eq!(ids(&filter_prompts(&all, &tag_filter(&["poem"]), &sort("asc"))), strings(&["c", "a"]));
}

#[test]
fn identifier_is_quoted() {
    assert_eq!(sanitize_identifier("prompts"), "\"prompts\"");
    assert_eq!(sanitize_identifier(""), "\"\"");
    assert_eq!(sanitize_identifier("a\"b"), "\"a\"\"b\"");
    assert_eq!(sanitize_identifier("\"; DROP TABLE x; --"), "\"\"\"; DROP TABLE x; --\"");
}

#[test]
fn duplicate_writes_a_copy_under_the_fresh_name() {
    let settings =
        FrontmatterSettings { prompt_tags_property: "tags".to_string(), add_prompts_tag_to_tags: false };
    let row = PromptRow {
        id: "a.md".to_string(),
        created: Some("2020-01-01T00:00:00".to_string()),
        text: "Hello".to_string(),
        title: Some("Greeting".to_string()),
        description: None,
        file_path: Some("a.md".to_string()),
        file_hash: Some("abc".to_string()),
    };
    let files = vec![VaultFile { name: "a.md".to_string(), text: Some("x".to_string()) }];
    let plan = duplicate_prompt_with(
        &files,
        &row,
        &strings(&["foo"]),
        &settings,
        "2024-05-05-abcdef.md",
        "2024-05-05T10:00:00",
    )
    .unwrap();
    assert_eq!(plan.write.relative_path, "2024-05-05-abcdef.md");
    let read = read_prompt_file("2024-05-05-abcdef.md", &plan.write.text, &settings);
    assert_eq!(read.content, "Hello");
    assert_eq!(read.tags, strings(&["foo"]));
    assert_eq!(read.title, Some("Greeting".to_string()));
    assert_eq!(read.created, Some("2024-05-05T10:00:00".to_string()));
    assert_eq!(plan.prompt.id, "2024-05-05-abcdef.md");
    assert_eq!(plan.prompt.text, "Hello");
    assert_eq!(plan.prompt.file_path, Some("2024-05-05-abcdef.md".to_string()));
    assert_eq!(plan.cache.len(), 2);
    match &plan.cache[0] {
        CacheOp::UpsertPrompt(new_row) => {
            assert_eq!(new_row.id, "2024-05-05-abcdef.md");
            assert_eq!(new_row.file_hash, None);
            assert_eq!(new_row.created, Some("2024-05-05T10:00:00".to_string()));
        }
        other => panic!("unexpected write {:?}", other),
    }
    assert_eq!(
        plan.cache[1],
        CacheOp::ReplaceTags("2024-05-05-abcdef.md".to_string(), strings(&["foo"]))
    );

    let drawn = duplicate_prompt(&files, &row, &strings(&[]), &settings).unwrap();
    assert_ne!(drawn.prompt.id, "a.md");
    assert_eq!(drawn.prompt.id.len(), 20);
    assert_eq!(drawn.prompt.created.as_ref().map(|c| c.len()), Some(19));
}

#[test]
fn errors_say_what_went_wrong() {
    assert_eq!(VaultError::NotConfigured.message(), "Vault path not configured");
    assert_eq!(VaultError::NotFound("a.md".to_string()).message(), "Prompt not found: a.md");
    assert_eq!(
        VaultError::PathNotFound("/v".to_string()).message(),
        "Vault path does not exist: /v"
    );
    assert_eq!(VaultError::IoError("x".to_string()).message(), "IO error: x");
    assert_eq!(VaultError::ParseError("x".to_string()).message(), "Parse error: x");
    assert_eq!(VaultError::SerializeError("x".to_string()).message(), "Serialize error: x");
    assert_eq!(VaultError::InvalidFilename("x".to_string()).message(), "Invalid filename: x");
    assert_eq!(
        VaultError::InvalidFilePath("empty path".to_string()).message(),
        "Invalid file path: empty path"
    );
    assert_eq!(
        VaultError::FileAlreadyExists("a.md".to_string()).message(),
        "File name already exists: a.md"
    );
    assert_eq!(VaultError::InvalidContent("x".to_string()).message(), "Invalid prompt content: x");
    assert_eq!(DbError::Database("x".to_string()).message(), "Database error: x");
    assert_eq!(DbError::NotFound("x".to_string()).message(), "Not found: x");
    assert_eq!(DbError::Serialization("x".to_string()).message(), "Serialization error: x");
    assert_eq!(ConfigError::PathError("x".to_string()).message(), "Path error: x");
    assert_eq!(ConfigError::IoError("x".to_string()).message(), "IO error: x");
    assert_eq!(ConfigError::ParseError("x".to_string()).message(), "Parse error: x");
    assert_eq!(ConfigError::SerializeError("x".to_string()).message(), "Serialize error: x");
}

#[test]
fn defaults_of_the_configuration() {
    assert_eq!(default_theme(), "dark");
    assert!(default_show_prompt_titles());
    assert!(!default_show_full_prompt());
    assert!(default_show_prompt_tags());
    assert!(default_show_created_date());
    let view = ViewSettings::default();
    assert!(view.show_prompt_titles && !view.show_full_prompt);
    assert!(view.show_prompt_tags && view.show_created_date);
    let config = AppConfig::default();
    assert_eq!(config.vault_path, None);
    assert_eq!(config.theme, "");
    assert_eq!(config.view, view);
    assert_eq!(config.frontmatter.prompt_tags_property, "tags");
    assert!(!config.frontmatter.add_prompts_tag_to_tags);
    let filter = FilterConfig::default();
    assert_eq!(filter.tags, None);
    assert_eq!(ViewConfig::default(), ViewConfig { filter: None, sort: None });
}

#[test]
fn table_row_holds_its_columns() {
    let mut data = HashMap::new();
    data.insert("id".to_string(), "a.md".to_string());
    data.insert("text".to_string(), "Hello".to_string());
    let row = TableRow::new(data.clone());
    assert_eq!(row.data, data);
    assert_eq!(TableRow::new(HashMap::new()).data.len(), 0);
    let column = TableColumn {
        cid: 0,
        name: "id".to_string(),
        type_: "TEXT".to_string(),
        notnull: 1,
        dflt_value: None,
        pk: 1,
    };
    let table = ExportedTable { schema: vec![column], rows: vec![row] };
    let mut tables = HashMap::new();
    tables.insert("prompts".to_string(), table);
    let database = ExportedDatabase { tables };
    assert_eq!(database.tables["prompts"].rows[0].data["text"], "Hello");
}
