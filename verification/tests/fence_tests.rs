use prompt_vault::fence::{extract_code_block_content, update_prompt_block};

#[test]
fn test_extract_code_block() {
    let markdown = "Some text\n\n```prompt\nThis is the prompt content\nwith multiple lines\n```\n\nMore text";

    let content = extract_code_block_content(markdown);
    assert_eq!(content, "This is the prompt content\nwith multiple lines");
}

#[test]
fn extract_without_fence_is_empty() {
    assert_eq!(extract_code_block_content("no block here\nat all"), "");
    assert_eq!(extract_code_block_content(""), "");
}

#[test]
fn extract_tilde_block_ignores_backtick_lines() {
    let markdown = "  ~~~prompt\nfirst\n```\nsecond\n ~~~\nafter";
    assert_eq!(extract_code_block_content(markdown), "first\n```\nsecond");
}

#[test]
fn extract_unclosed_block_runs_to_the_end() {
    assert_eq!(extract_code_block_content("```prompt\na\r\nb\n"), "a\nb");
}

#[test]
fn update_replaces_only_the_interior() {
    let body = "Intro\n```prompt\nold one\nold two\n```\nOutro\n";
    assert_eq!(
        update_prompt_block(body, "Hello\nWorld"),
        "Intro\n```prompt\nHello\nWorld\n```\nOutro\n"
    );
}

#[test]
fn update_with_empty_content_empties_the_block() {
    let body = "```prompt\nold\n```";
    assert_eq!(update_prompt_block(body, ""), "```prompt\n```");
}

#[test]
fn update_appends_a_block_when_none_exists() {
    assert_eq!(update_prompt_block("", "Hello"), "```prompt\nHello\n```\n");
    assert_eq!(
        update_prompt_block("Notes  \n\n", "Hello"),
        "Notes\n\n```prompt\nHello\n```\n"
    );
}

#[test]
fn update_appends_when_the_block_is_never_closed() {
    assert_eq!(
        update_prompt_block("```prompt\nold", "new"),
        "```prompt\nold\n\n```prompt\nnew\n```\n"
    );
}

#[test]
fn update_then_extract_gives_the_content_back() {
    let body = "Intro\n~~~prompt\nold\n~~~\nOutro";
    let updated = update_prompt_block(body, "Hello\nWorld");
    assert_eq!(extract_code_block_content(&updated), "Hello\nWorld");
    let fresh = update_prompt_block("Just notes", "Hello\nWorld");
    assert_eq!(extract_code_block_content(&fresh), "Hello\nWorld");
}

#[test]
fn extract_stops_at_a_second_opening_line_with_the_same_fence() {
    let markdown = "```prompt\na\n```prompt\nb\n```";
    assert_eq!(extract_code_block_content(markdown), "a");
    assert_eq!(
        update_prompt_block(markdown, "new"),
        "```prompt\nnew\n```prompt\nb\n```"
    );
}

#[test]
fn extract_keeps_an_opening_line_of_the_other_fence_as_content() {
    let markdown = "```prompt\na\n~~~prompt\nb\n```\nc";
    assert_eq!(extract_code_block_content(markdown), "a\n~~~prompt\nb");
}

#[test]
fn extract_takes_the_first_block_only() {
    let markdown = "~~~prompt\none\n~~~\n```prompt\ntwo\n```";
    assert_eq!(extract_code_block_content(markdown), "one");
}

#[test]
fn update_keeps_carriage_returns_outside_the_block() {
    let body = "Intro\r\n```prompt\r\nold\r\n```\r\nOutro\r";
    let updated = update_prompt_block(body, "new");
    assert_eq!(updated, "Intro\r\n```prompt\r\nnew\n```\r\nOutro\r");
    assert_eq!(extract_code_block_content(&updated), "new");
}

#[test]
fn written_content_with_a_final_line_feed_loses_it_in_a_closed_block() {
    let updated = update_prompt_block("```prompt\nold\n```", "new\n");
    assert_eq!(extract_code_block_content(&updated), "new");
    let appended = update_prompt_block("no block", "new\n");
    assert_eq!(extract_code_block_content(&appended), "new\n");
}

#[test]
fn update_keeps_all_text_outside_the_block() {
    let before = "  Intro \r\n\n\ttext\n";
    let after = "\r\n\nOutro  \n\n```prompt\nsecond\n```\n\n";
    let body = format!("{}  ~~~prompt x\nold\nlines\n ~~~{}", before, after);
    assert_eq!(
        update_prompt_block(&body, "new\r\ncontent"),
        format!("{}  ~~~prompt x\nnew\ncontent\n ~~~{}", before, after)
    );
    assert_eq!(
        update_prompt_block(&body, ""),
        format!("{}  ~~~prompt x\n ~~~{}", before, after)
    );
}

#[test]
fn update_of_a_block_at_the_very_end_keeps_the_missing_line_feed() {
    assert_eq!(update_prompt_block("```prompt\n```", "a\nb"), "```prompt\na\nb\n```");
    assert_eq!(update_prompt_block("```prompt\nx\n```\n", "a"), "```prompt\na\n```\n");
}
