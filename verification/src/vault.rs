//! Prompt files of the vault: their names, their text and what is read
//! from and written to them.

use vstd::prelude::*;
use crate::config::FrontmatterSettings;
use crate::fence::{
    block_content, extract_code_block_content, has_closed_block, update_prompt_block,
    with_block,
};
use crate::frontmatter::{
    extract_string, extract_tags, field_tags, field_text, framed_document, frontmatter_body,
    frontmatter_fields, lemma_normal_tags_are_kept, lemma_written_tags_are_read,
    normalize_frontmatter_key, normalized_tag, normalized_tags, parse_frontmatter,
    render_frontmatter, set_tags, tag_key_of, tag_list, FrontmatterMap,
};
use crate::round_trip::{is_plain, lemma_written_content_is_read, no_line_opens};
use crate::outside::{
    compute_file_hash, is_date_text, is_digest, is_lower_hex, is_timestamp_text, local_date,
    random_hex, sha256_hex, utc_timestamp,
};
use crate::text::{
    chain, chars_of, contains, contains_char, ends_with, has_char, has_sub, has_suffix,
    lemma_trim_keeps_char, lemma_trim_keeps_sub, lines_of, opt_text, push_all, slice_of,
    string_of, texts, trim, trim_of,
};
use crate::yaml::YamlShape;

verus! {

/// A prompt as a file of the vault holds it.
#[derive(Debug, Clone, PartialEq, Eq)]
pub struct PromptFile {
    /// The file's name relative to the vault's root; it identifies the prompt.
    pub id: String,
    /// The same relative name.
    pub file_path: String,
    pub tags: Vec<String>,
    /// When the prompt was created, as the frontmatter states it.
    pub created: Option<String>,
    /// What the fenced block holds.
    pub content: String,
    /// SHA-256 of the file's text, in lower-case hexadecimal digits.
    pub file_hash: Option<String>,
    pub title: Option<String>,
    pub description: Option<String>,
}

/// A prompt file as contracts speak of it.
pub struct PromptFileView {
    pub id: Seq<char>,
    pub file_path: Seq<char>,
    pub tags: Seq<Seq<char>>,
    pub created: Option<Seq<char>>,
    pub content: Seq<char>,
    pub file_hash: Option<Seq<char>>,
    pub title: Option<Seq<char>>,
    pub description: Option<Seq<char>>,
}

impl View for PromptFile {
    type V = PromptFileView;

    open spec fn view(&self) -> PromptFileView {
        PromptFileView {
            id: self.id@,
            file_path: self.file_path@,
            tags: texts(self.tags@),
            created: opt_text(self.created),
            content: self.content@,
            file_hash: opt_text(self.file_hash),
            title: opt_text(self.title),
            description: opt_text(self.description),
        }
    }
}

/// The views of a list of prompt files.
pub open spec fn prompt_views(files: Seq<PromptFile>) -> Seq<PromptFileView> {
    Seq::new(files.len(), |i: int| files[i]@)
}

/// An entry of the vault's directory: its name and, where it could be read
/// as text, what it holds.
#[derive(Debug, Clone, PartialEq, Eq)]
pub struct VaultFile {
    pub name: String,
    pub text: Option<String>,
}

/// Why an operation on the vault failed.
#[derive(Debug, Clone, PartialEq, Eq)]
pub enum VaultError {
    NotConfigured,
    NotFound(String),
    PathNotFound(String),
    IoError(String),
    ParseError(String),
    SerializeError(String),
    InvalidFilename(String),
    InvalidFilePath(String),
    FileAlreadyExists(String),
    InvalidContent(String),
}

/// Why a name cannot be the relative path of a prompt file.
pub enum PathFault {
    /// Nothing is left of it without the white space around it.
    Empty,
    /// It holds `..`.
    Traversal,
    /// It begins with a slash or a backslash.
    Absolute,
    /// It holds a slash or a backslash further on.
    Subfolder,
}

/// The first rule that `path` breaks, if it breaks one.
pub open spec fn path_fault(path: Seq<char>) -> Option<PathFault> {
    let t = trim_of(path);
    if t.len() == 0 {
        Some(PathFault::Empty)
    } else if has_sub(t, ".."@) {
        Some(PathFault::Traversal)
    } else if t[0] == '/' || t[0] == '\\' {
        Some(PathFault::Absolute)
    } else if has_char(t, '/') || has_char(t, '\\') {
        Some(PathFault::Subfolder)
    } else {
        None
    }
}

/// What the error says of a broken rule.
pub open spec fn fault_text(fault: PathFault) -> Seq<char> {
    match fault {
        PathFault::Empty => "empty path"@,
        PathFault::Traversal => "path traversal"@,
        PathFault::Absolute => "absolute path"@,
        PathFault::Subfolder => "subfolders are not supported"@,
    }
}

/// The name without the white space around it, ending in `.md`.
pub open spec fn normalized_path(path: Seq<char>) -> Seq<char> {
    let t = trim_of(path);
    if has_suffix(t, ".md"@) {
        t
    } else {
        t + ".md"@
    }
}

/// The relative path of the prompt file that `path` names. A name that
/// breaks a rule is rejected with `InvalidFilePath` and the rule's text.
pub fn normalize_relative_path(path: &str) -> (r: Result<String, VaultError>)
    ensures
        match r {
            Ok(p) => path_fault(path@) is None && p@ == normalized_path(path@),
            Err(VaultError::InvalidFilePath(m)) => path_fault(path@) matches Some(f) && m@
                == fault_text(f),
            Err(_) => false,
        },
{
    let mut t = trim(&chars_of(path));
    if t.len() == 0 {
        return Err(VaultError::InvalidFilePath("empty path".to_string()));
    }
    if contains(&t, &chars_of("..")) {
        return Err(VaultError::InvalidFilePath("path traversal".to_string()));
    }
    if t[0] == '/' || t[0] == '\\' {
        return Err(VaultError::InvalidFilePath("absolute path".to_string()));
    }
    if contains_char(&t, '/') || contains_char(&t, '\\') {
        return Err(VaultError::InvalidFilePath("subfolders are not supported".to_string()));
    }
    if !ends_with(&t, &chars_of(".md")) {
        push_all(&mut t, &chars_of(".md"));
    }
    Ok(string_of(&t))
}

/// No id that could lead out of the vault's directory is accepted: a name
/// that holds `..`, a slash or a backslash breaks a rule of paths, wherever
/// in the name it stands. Every operation that takes an id normalizes it
/// first and fails with `InvalidFilePath` on such a name.
pub proof fn lemma_unsafe_ids_are_rejected(id: Seq<char>)
    requires
        has_sub(id, ".."@) || has_char(id, '/') || has_char(id, '\\'),
    ensures
        path_fault(id) is Some,
{
    reveal_strlit("..");
    if has_sub(id, ".."@) {
        lemma_trim_keeps_sub(id, ".."@);
    } else if has_char(id, '/') {
        lemma_trim_keeps_char(id, '/');
    } else {
        lemma_trim_keeps_char(id, '\\');
    }
}

/// The prompt that a file of the given relative path and text holds. The
/// tags stand under the configured key.
pub open spec fn parsed_prompt(
    path: Seq<char>,
    text: Seq<char>,
    tags_property: Seq<char>,
) -> PromptFileView {
    let fields = frontmatter_fields(text);
    PromptFileView {
        id: path,
        file_path: path,
        tags: field_tags(fields, tag_key_of(tags_property)),
        created: field_text(fields, "created"@),
        content: block_content(frontmatter_body(text)),
        file_hash: Some(sha256_hex(text)),
        title: field_text(fields, "title"@),
        description: field_text(fields, "description"@),
    }
}

/// Whether a file name has the extension `md`: it ends in `.md` and holds
/// more than that.
pub open spec fn is_markdown_name(name: Seq<char>) -> bool {
    name.len() > 3 && has_suffix(name, ".md"@)
}

/// The prompts of a directory: one for each entry with the extension `md`
/// that could be read, in the order of the entries.
pub open spec fn scanned(files: Seq<VaultFile>, tags_property: Seq<char>) -> Seq<PromptFileView>
    decreases files.len(),
{
    if files.len() == 0 {
        Seq::empty()
    } else {
        let rest = scanned(files.drop_last(), tags_property);
        let file = files.last();
        if is_markdown_name(file.name@) && file.text is Some {
            rest.push(parsed_prompt(file.name@, file.text->0@, tags_property))
        } else {
            rest
        }
    }
}

/// The text of the first entry with the given name; `None` where there is
/// no such entry or it could not be read.
pub open spec fn readable_text(files: Seq<VaultFile>, name: Seq<char>) -> Option<Seq<char>>
    decreases files.len(),
{
    if files.len() == 0 {
        None
    } else if files[0].name@ == name {
        opt_text(files[0].text)
    } else {
        readable_text(files.drop_first(), name)
    }
}

/// Parses the text of the prompt file at `relative_path`.
pub fn read_prompt_file(relative_path: &str, text: &str, settings: &FrontmatterSettings) -> (prompt:
    PromptFile)
    ensures
        prompt@ == parsed_prompt(relative_path@, text@, settings.prompt_tags_property@),
        prompt@.file_hash matches Some(hash) && is_digest(hash),
{
    let file_hash = Some(compute_file_hash(text));
    let (map, body) = parse_frontmatter(text);
    let key = normalize_frontmatter_key(&settings.prompt_tags_property);
    let tags = extract_tags(&map, &key);
    let created = extract_string(&map, "created");
    let title = extract_string(&map, "title");
    let description = extract_string(&map, "description");
    let content = extract_code_block_content(&body);
    PromptFile {
        id: relative_path.to_string(),
        file_path: relative_path.to_string(),
        tags,
        created,
        content,
        file_hash,
        title,
        description,
    }
}

/// Whether a file name ends in `.md`. Only the text of such an entry is
/// ever read: a file that is scanned has the extension `md`, and a file
/// that is looked up has a normalized name.
pub fn has_markdown_suffix(name: &str) -> (b: bool)
    ensures
        b == has_suffix(name@, ".md"@),
{
    ends_with(&chars_of(name), &chars_of(".md"))
}

/// The entries without the text of those whose name does not end in `.md`.
pub open spec fn markdown_texts(files: Seq<VaultFile>) -> Seq<VaultFile> {
    Seq::new(
        files.len(),
        |i: int|
            if has_suffix(files[i].name@, ".md"@) {
                files[i]
            } else {
                VaultFile { name: files[i].name, text: None }
            },
    )
}

/// A normalized path ends in `.md`.
pub proof fn lemma_normalized_path_ends_in_md(path: Seq<char>)
    ensures
        has_suffix(normalized_path(path), ".md"@),
{
    reveal_strlit(".md");
    let t = trim_of(path);
    if !has_suffix(t, ".md"@) {
        let n = t + ".md"@;
        assert(n.subrange(n.len() - 3, n.len() as int) =~= ".md"@);
    }
}

/// The text of an entry whose name does not end in `.md` never matters:
/// without it the same prompts are scanned, and the same text is found
/// under every name that ends in `.md`.
pub proof fn lemma_only_markdown_texts_matter(
    files: Seq<VaultFile>,
    tags_property: Seq<char>,
    name: Seq<char>,
)
    ensures
        scanned(markdown_texts(files), tags_property) == scanned(files, tags_property),
        has_suffix(name, ".md"@) ==> readable_text(markdown_texts(files), name) == readable_text(
            files,
            name,
        ),
    decreases files.len(),
{
    let cut = markdown_texts(files);
    if files.len() > 0 {
        assert(cut.drop_last() =~= markdown_texts(files.drop_last()));
        assert(cut.drop_first() =~= markdown_texts(files.drop_first()));
        assert(cut.last() == cut[files.len() - 1]);
        assert(cut[0].name == files[0].name);
        lemma_only_markdown_texts_matter(files.drop_last(), tags_property, name);
        lemma_only_markdown_texts_matter(files.drop_first(), tags_property, name);
    }
}

fn has_markdown_extension(name: &str) -> (b: bool)
    ensures
        b == is_markdown_name(name@),
{
    let v = chars_of(name);
    v.len() > 3 && ends_with(&v, &chars_of(".md"))
}

/// The prompts of the vault, from the entries of its directory. An entry
/// without the extension `md`, or one that could not be read, is passed
/// over; the others are parsed in order.
pub fn scan_vault(files: &Vec<VaultFile>, settings: &FrontmatterSettings) -> (prompts: Vec<
    PromptFile,
>)
    ensures
        prompt_views(prompts@) == scanned(files@, settings.prompt_tags_property@),
{
    let mut prompts: Vec<PromptFile> = Vec::new();
    let mut i: usize = 0;
    assert(files@.take(0) =~= Seq::<VaultFile>::empty());
    assert(prompt_views(prompts@) =~= Seq::<PromptFileView>::empty());
    while i < files.len()
        invariant
            i <= files.len(),
            prompt_views(prompts@) == scanned(
                files@.take(i as int),
                settings.prompt_tags_property@,
            ),
        decreases files.len() - i,
    {
        let ghost before = prompt_views(prompts@);
        assert(files@.take(i + 1).drop_last() =~= files@.take(i as int));
        assert(files@.take(i + 1).last() == files@[i as int]);
        let file = &files[i];
        if has_markdown_extension(&file.name) {
            match &file.text {
                Some(text) => {
                    let prompt = read_prompt_file(&file.name, text, settings);
                    prompts.push(prompt);
                    assert(prompt_views(prompts@) =~= before.push(prompt@));
                },
                None => {},
            }
        }
        i += 1;
    }
    assert(files@.take(files.len() as int) =~= files@);
    prompts
}

/// The prompt with the given id, read from the entry that its normalized
/// path names. An id that breaks a rule of paths is rejected with
/// `InvalidFilePath`; where no entry of that name could be read the error
/// is `NotFound` with the id.
pub fn find_prompt_by_id(files: &Vec<VaultFile>, id: &str, settings: &FrontmatterSettings) -> (r:
    Result<PromptFile, VaultError>)
    ensures
        match r {
            Ok(prompt) => {
                &&& path_fault(id@) is None
                &&& readable_text(files@, normalized_path(id@)) matches Some(text) && prompt@
                    == parsed_prompt(normalized_path(id@), text, settings.prompt_tags_property@)
            },
            Err(VaultError::InvalidFilePath(m)) => path_fault(id@) matches Some(f) && m@
                == fault_text(f),
            Err(VaultError::NotFound(m)) => path_fault(id@) is None && readable_text(
                files@,
                normalized_path(id@),
            ) is None && m@ == id@,
            Err(_) => false,
        },
{
    let path = match normalize_relative_path(id) {
        Ok(path) => path,
        Err(e) => {
            return Err(e);
        },
    };
    let mut i: usize = 0;
    assert(files@.skip(0) =~= files@);
    while i < files.len()
        invariant
            i <= files.len(),
            path_fault(id@) is None,
            path@ == normalized_path(id@),
            readable_text(files@, path@) == readable_text(files@.skip(i as int), path@),
        decreases files.len() - i,
    {
        let file = &files[i];
        assert(files@.skip(i as int)[0] == files@[i as int]);
        if file.name == path {
            return match &file.text {
                Some(text) => Ok(read_prompt_file(&path, text, settings)),
                None => Err(VaultError::NotFound(id.to_string())),
            };
        }
        assert(files@.skip(i as int).drop_first() =~= files@.skip(i + 1));
        i += 1;
    }
    Err(VaultError::NotFound(id.to_string()))
}


/// What is to be written to the vault: the text of the file at the given
/// relative path.
#[derive(Debug, Clone, PartialEq, Eq)]
pub struct FileWrite {
    pub relative_path: String,
    pub text: String,
}

/// Whether `content` holds a fence, which a prompt's content must not.
pub open spec fn has_fence(content: Seq<char>) -> bool {
    has_sub(content, "```"@) || has_sub(content, "~~~"@)
}

/// Whether nothing is left of `t` without the white space around it.
pub open spec fn is_blank(t: Seq<char>) -> bool {
    trim_of(t).len() == 0
}

/// The fields with the string `value` under `key`; without the key where
/// the value is absent or blank.
pub open spec fn with_optional(
    fields: Map<Seq<char>, YamlShape>,
    key: Seq<char>,
    value: Option<Seq<char>>,
) -> Map<Seq<char>, YamlShape> {
    match value {
        Some(t) => if is_blank(t) {
            fields.remove(key)
        } else {
            fields.insert(key, YamlShape::Text(t))
        },
        None => fields.remove(key),
    }
}

/// The tags with the marker tag `prompts` among them.
pub open spec fn with_marker(tags: Seq<Seq<char>>) -> Seq<Seq<char>> {
    if tags.contains("prompts"@) {
        tags
    } else {
        tags.push("prompts"@)
    }
}

/// When the written prompt was created: what the prompt says, else what the
/// file said before, else now.
pub open spec fn created_of(
    fields: Map<Seq<char>, YamlShape>,
    prompt: PromptFileView,
    now: Seq<char>,
) -> Seq<char> {
    match prompt.created {
        Some(created) => created,
        None => match field_text(fields, "created"@) {
            Some(created) => created,
            None => now,
        },
    }
}

/// The fields with the marker tag among the tags under `tags`, where the
/// marker is asked for.
pub open spec fn with_marker_tag(fields: Map<Seq<char>, YamlShape>, add_marker: bool) -> Map<
    Seq<char>,
    YamlShape,
> {
    if add_marker {
        fields.insert("tags"@, tag_list(with_marker(field_tags(fields, "tags"@))))
    } else {
        fields
    }
}

/// The frontmatter of a written prompt. Onto the fields that the file had
/// come, in this order: `created`; the prompt's tags under the configured
/// key; the marker tag under `tags`, where asked for; `title` and
/// `description`, each set where the prompt has a value that is not blank
/// and taken away otherwise. The key `id` is taken away. Every other field
/// stays as it was.
pub open spec fn merged_fields(
    fields: Map<Seq<char>, YamlShape>,
    prompt: PromptFileView,
    tags_property: Seq<char>,
    add_marker: bool,
    now: Seq<char>,
) -> Map<Seq<char>, YamlShape> {
    let dated = fields.insert("created"@, YamlShape::Text(created_of(fields, prompt, now)));
    let tagged = dated.insert(tag_key_of(tags_property), tag_list(prompt.tags));
    let marked = with_marker_tag(tagged, add_marker);
    let titled = with_optional(marked, "title"@, prompt.title);
    let described = with_optional(titled, "description"@, prompt.description);
    described.remove("id"@)
}

/// Whether the codec writes the field under `key` when it writes a prompt.
pub open spec fn is_codec_key(key: Seq<char>, tags_property: Seq<char>, add_marker: bool) -> bool {
    ||| key == "created"@
    ||| key == tag_key_of(tags_property)
    ||| key == "title"@
    ||| key == "description"@
    ||| key == "id"@
    ||| add_marker && key == "tags"@
}

/// Writing a prompt leaves every field alone that the codec does not know:
/// such a field is in the frontmatter after the write exactly if it was
/// there before, with the value that it had.
pub proof fn lemma_merge_keeps_other_fields(
    fields: Map<Seq<char>, YamlShape>,
    prompt: PromptFileView,
    tags_property: Seq<char>,
    add_marker: bool,
    now: Seq<char>,
    key: Seq<char>,
)
    requires
        !is_codec_key(key, tags_property, add_marker),
    ensures
        merged_fields(fields, prompt, tags_property, add_marker, now).contains_key(key)
            == fields.contains_key(key),
        fields.contains_key(key) ==> merged_fields(
            fields,
            prompt,
            tags_property,
            add_marker,
            now,
        )[key] == fields[key],
{
}

/// The tags of a written prompt are read back as its tags, normalized once
/// on writing and once on reading. This holds unless the configured key is
/// one that the codec writes after the tags: `title`, `description` or `id`,
/// or `tags` where the marker tag is asked for.
pub proof fn lemma_merged_tags_are_read(
    fields: Map<Seq<char>, YamlShape>,
    prompt: PromptFileView,
    tags_property: Seq<char>,
    add_marker: bool,
    now: Seq<char>,
)
    requires
        tag_key_of(tags_property) != "title"@,
        tag_key_of(tags_property) != "description"@,
        tag_key_of(tags_property) != "id"@,
        !(add_marker && tag_key_of(tags_property) == "tags"@),
    ensures
        field_tags(
            merged_fields(fields, prompt, tags_property, add_marker, now),
            tag_key_of(tags_property),
        ) == normalized_tags(normalized_tags(prompt.tags)),
{
    let key = tag_key_of(tags_property);
    let dated = fields.insert("created"@, YamlShape::Text(created_of(fields, prompt, now)));
    lemma_written_tags_are_read(dated, key, prompt.tags);
    let tagged = dated.insert(key, tag_list(prompt.tags));
    let merged = merged_fields(fields, prompt, tags_property, add_marker, now);
    assert(merged.contains_key(key));
    assert(merged[key] == tagged[key]);
}

/// The date, the title and the description of a written prompt are read
/// back as they were merged: the date is the one that `created_of` chooses,
/// and the title and the description are those of the prompt, or absent
/// where the prompt has none or a blank one. This is stated for tags that
/// stand under a key of their own: where the tags stand under `created`,
/// `title` or `description`, the tags and that field overwrite each other.
pub proof fn lemma_merged_texts_are_read(
    fields: Map<Seq<char>, YamlShape>,
    prompt: PromptFileView,
    tags_property: Seq<char>,
    add_marker: bool,
    now: Seq<char>,
)
    requires
        tag_key_of(tags_property) != "created"@,
        tag_key_of(tags_property) != "title"@,
        tag_key_of(tags_property) != "description"@,
    ensures
        field_text(merged_fields(fields, prompt, tags_property, add_marker, now), "created"@)
            == Some(created_of(fields, prompt, now)),
        field_text(merged_fields(fields, prompt, tags_property, add_marker, now), "title"@)
            == match prompt.title {
            Some(t) => if is_blank(t) {
                None
            } else {
                Some(t)
            },
            None => None,
        },
        field_text(merged_fields(fields, prompt, tags_property, add_marker, now), "description"@)
            == match prompt.description {
            Some(t) => if is_blank(t) {
                None
            } else {
                Some(t)
            },
            None => None,
        },
{
    reveal_strlit("created");
    reveal_strlit("title");
    reveal_strlit("description");
    reveal_strlit("tags");
    reveal_strlit("id");
    assert("created"@.len() != "title"@.len());
    assert("created"@.len() != "description"@.len());
    assert("created"@.len() != "tags"@.len());
    assert("created"@.len() != "id"@.len());
    assert("title"@.len() != "description"@.len());
    assert("title"@.len() != "tags"@.len());
    assert("title"@.len() != "id"@.len());
    assert("description"@.len() != "tags"@.len());
    assert("description"@.len() != "id"@.len());
}

/// Whether reading `text` gives back what was written into it: the
/// frontmatter that is read holds the fields written, and the body that is
/// read holds the block of the body written. Whether a text is read so is
/// for the libraries that write and read YAML to decide.
pub open spec fn is_read_as_written(
    text: Seq<char>,
    fields: Map<Seq<char>, YamlShape>,
    body: Seq<char>,
) -> bool {
    &&& frontmatter_fields(text) == fields
    &&& block_content(frontmatter_body(text)) == block_content(body)
}

/// A prompt that was written is read back with its content and its tags,
/// wherever the text written is read as it was written.
///
/// The content has to be plain, and the body of the file before has to
/// close its block or open none. The tags come back normalized, and as
/// they were where their names are normalized already; no tag of the file
/// before is left. The key of the tags must not be one that the codec
/// writes after the tags.
pub proof fn lemma_written_prompt_is_read(
    written: FileWrite,
    existing: Option<Seq<char>>,
    prompt: PromptFileView,
    tags_property: Seq<char>,
    add_marker: bool,
    now: Seq<char>,
)
    requires
        write_outcome(Ok(written), existing, prompt, tags_property, add_marker, now),
        is_read_as_written(
            written.text@,
            merged_fields(existing_fields(existing), prompt, tags_property, add_marker, now),
            with_block(existing_body(existing), prompt.content),
        ),
        is_plain(prompt.content),
        has_closed_block(existing_body(existing)) || no_line_opens(
            lines_of(existing_body(existing)),
        ),
        tag_key_of(tags_property) != "title"@,
        tag_key_of(tags_property) != "description"@,
        tag_key_of(tags_property) != "id"@,
        !(add_marker && tag_key_of(tags_property) == "tags"@),
    ensures
        written.relative_path@ == normalized_path(prompt.file_path),
        parsed_prompt(written.relative_path@, written.text@, tags_property).content
            == prompt.content,
        parsed_prompt(written.relative_path@, written.text@, tags_property).tags
            == normalized_tags(normalized_tags(prompt.tags)),
        (forall|i: int|
            0 <= i < prompt.tags.len() ==> normalized_tag(
                #[trigger] prompt.tags[i],
            ) == Some(prompt.tags[i])) ==> parsed_prompt(
            written.relative_path@,
            written.text@,
            tags_property,
        ).tags == prompt.tags,
{
    let fields = existing_fields(existing);
    lemma_written_content_is_read(existing_body(existing), prompt.content);
    lemma_merged_tags_are_read(fields, prompt, tags_property, add_marker, now);
    if forall|i: int|
        0 <= i < prompt.tags.len() ==> normalized_tag(
            #[trigger] prompt.tags[i],
        ) == Some(prompt.tags[i]) {
        lemma_normal_tags_are_kept(prompt.tags);
    }
}

/// A content that holds a fence is never written: whatever else is asked
/// for, the write fails with `InvalidContent`.
pub proof fn lemma_fenced_content_is_rejected(
    r: Result<FileWrite, VaultError>,
    existing: Option<Seq<char>>,
    prompt: PromptFileView,
    tags_property: Seq<char>,
    add_marker: bool,
    now: Seq<char>,
)
    requires
        write_outcome(r, existing, prompt, tags_property, add_marker, now),
        has_sub(prompt.content, "```"@) || has_sub(prompt.content, "~~~"@),
    ensures
        r matches Err(VaultError::InvalidContent(_)),
{
}

/// The fields of the file that is overwritten; none where there is no file.
pub open spec fn existing_fields(existing: Option<Seq<char>>) -> Map<Seq<char>, YamlShape> {
    match existing {
        Some(text) => frontmatter_fields(text),
        None => Map::empty(),
    }
}

/// The body of the file that is overwritten; empty where there is no file.
pub open spec fn existing_body(existing: Option<Seq<char>>) -> Seq<char> {
    match existing {
        Some(text) => frontmatter_body(text),
        None => Seq::empty(),
    }
}

/// Whether `text` is a file that holds the given fields as its frontmatter,
/// written as YAML, and below it the given body.
pub open spec fn is_file_text(
    text: Seq<char>,
    fields: Map<Seq<char>, YamlShape>,
    body: Seq<char>,
) -> bool {
    exists|map: FrontmatterMap| #[trigger]
        map.document() matches Some(doc) && map@ == fields && text == framed_document(doc) + body
}

/// Whether a frontmatter with the given fields cannot be written as YAML.
pub open spec fn cannot_render(fields: Map<Seq<char>, YamlShape>) -> bool {
    exists|map: FrontmatterMap| #[trigger] map.document() is None && map@ == fields
}

/// What writing a prompt gives, for the text `existing` that the file held
/// before and the time `now`.
///
/// A content with a fence is rejected with `InvalidContent`, then a path
/// that breaks a rule with `InvalidFilePath`. Otherwise the file's text is
/// the merged frontmatter followed by the old body with the new content in
/// its block, unless the frontmatter cannot be written as YAML, which
/// gives `SerializeError`.
pub open spec fn write_outcome(
    r: Result<FileWrite, VaultError>,
    existing: Option<Seq<char>>,
    prompt: PromptFileView,
    tags_property: Seq<char>,
    add_marker: bool,
    now: Seq<char>,
) -> bool {
    let fields = merged_fields(existing_fields(existing), prompt, tags_property, add_marker, now);
    match r {
        Ok(w) => {
            &&& !has_fence(prompt.content)
            &&& path_fault(prompt.file_path) is None
            &&& w.relative_path@ == normalized_path(prompt.file_path)
            &&& is_file_text(w.text@, fields, with_block(existing_body(existing), prompt.content))
        },
        Err(VaultError::InvalidContent(m)) => {
            &&& has_fence(prompt.content)
            &&& m@ == "Prompt content cannot include ``` or ~~~"@
        },
        Err(VaultError::InvalidFilePath(m)) => {
            &&& !has_fence(prompt.content)
            &&& path_fault(prompt.file_path) matches Some(f) && m@ == fault_text(f)
        },
        Err(VaultError::SerializeError(_)) => {
            &&& !has_fence(prompt.content)
            &&& path_fault(prompt.file_path) is None
            &&& cannot_render(fields)
        },
        Err(_) => false,
    }
}

fn is_blank_text(t: &str) -> (b: bool)
    ensures
        b == is_blank(t@),
{
    trim(&chars_of(t)).len() == 0
}

/// Whether `t` is among the strings of `list`.
pub fn contains_text(list: &Vec<String>, t: &str) -> (b: bool)
    ensures
        b == texts(list@).contains(t@),
{
    let wanted = t.to_string();
    let mut i: usize = 0;
    while i < list.len()
        invariant
            i <= list.len(),
            wanted@ == t@,
            forall|j: int| 0 <= j < i ==> texts(list@)[j] != t@,
        decreases list.len() - i,
    {
        if list[i] == wanted {
            assert(texts(list@)[i as int] == t@);
            return true;
        }
        i += 1;
    }
    false
}

fn set_optional(map: &mut FrontmatterMap, key: &str, value: &Option<String>)
    ensures
        final(map)@ == with_optional(old(map)@, key@, opt_text(*value)),
{
    match value {
        Some(t) => {
            if is_blank_text(t) {
                map.remove(key);
            } else {
                map.set_text(key, t.clone());
            }
        },
        None => {
            map.remove(key);
        },
    }
}

/// Brings the frontmatter of a file up to date with the prompt that is
/// written to it: what `merged_fields` states.
pub fn merge_frontmatter(
    map: &mut FrontmatterMap,
    prompt: &PromptFile,
    settings: &FrontmatterSettings,
    now: &str,
)
    ensures
        final(map)@ == merged_fields(
            old(map)@,
            prompt@,
            settings.prompt_tags_property@,
            settings.add_prompts_tag_to_tags,
            now@,
        ),
{
    let created = match &prompt.created {
        Some(created) => created.clone(),
        None => match extract_string(map, "created") {
            Some(created) => created,
            None => now.to_string(),
        },
    };
    map.set_text("created", created);
    let key = normalize_frontmatter_key(&settings.prompt_tags_property);
    set_tags(map, &key, &prompt.tags);
    if settings.add_prompts_tag_to_tags {
        let mut tags = extract_tags(map, "tags");
        if !contains_text(&tags, "prompts") {
            let ghost before = texts(tags@);
            tags.push("prompts".to_string());
            assert(texts(tags@) =~= before.push("prompts"@));
        }
        set_tags(map, "tags", &tags);
    }
    set_optional(map, "title", &prompt.title);
    set_optional(map, "description", &prompt.description);
    map.remove("id");
}

/// The text of a file from its frontmatter, written as YAML, and its body.
pub fn assemble_file_text(head: &str, body: &str) -> (text: String)
    ensures
        text@ == head@ + body@,
{
    let mut out = chars_of(head);
    push_all(&mut out, &chars_of(body));
    string_of(&out)
}

/// The file that holds `prompt`, given the text `existing` that the file at
/// its path held before, if there was one, and the time `now` for a prompt
/// that was never dated: what `write_outcome` states.
pub fn write_prompt_file_at(
    existing: &Option<String>,
    prompt: &PromptFile,
    settings: &FrontmatterSettings,
    now: &str,
) -> (r: Result<FileWrite, VaultError>)
    ensures
        write_outcome(
            r,
            opt_text(*existing),
            prompt@,
            settings.prompt_tags_property@,
            settings.add_prompts_tag_to_tags,
            now@,
        ),
{
    let content = chars_of(&prompt.content);
    if contains(&content, &chars_of("```")) || contains(&content, &chars_of("~~~")) {
        return Err(
            VaultError::InvalidContent("Prompt content cannot include ``` or ~~~".to_string()),
        );
    }
    let relative_path = match normalize_relative_path(&prompt.file_path) {
        Ok(path) => path,
        Err(e) => {
            return Err(e);
        },
    };
    let (mut map, body) = match existing {
        Some(text) => parse_frontmatter(text),
        None => (FrontmatterMap::new(), String::new()),
    };
    assert(map@ =~= existing_fields(opt_text(*existing)));
    merge_frontmatter(&mut map, prompt, settings, now);
    match render_frontmatter(&map) {
        Ok(head) => {
            let updated = update_prompt_block(&body, &prompt.content);
            let text = assemble_file_text(&head, &updated);
            Ok(FileWrite { relative_path, text })
        },
        Err(e) => Err(e),
    }
}

/// The file that holds `prompt`, dated with the time of the call where the
/// prompt was never dated: what `write_outcome` states for some time that
/// has the form of a timestamp.
pub fn write_prompt_file(
    existing: &Option<String>,
    prompt: &PromptFile,
    settings: &FrontmatterSettings,
) -> (r: Result<FileWrite, VaultError>)
    ensures
        exists|now: Seq<char>|
            is_timestamp_text(now) && #[trigger] write_outcome(
                r,
                opt_text(*existing),
                prompt@,
                settings.prompt_tags_property@,
                settings.add_prompts_tag_to_tags,
                now,
            ),
{
    let now = utc_timestamp();
    write_prompt_file_at(existing, prompt, settings, &now)
}


/// How many names are tried before a fresh one is given up.
pub const NAME_ATTEMPTS: usize = 20;

/// Whether `draw` is what the random source hands out: 32 hexadecimal
/// digits in lower case.
pub open spec fn is_draw(draw: Seq<char>) -> bool {
    draw.len() == 32 && forall|i: int| 0 <= i < 32 ==> is_lower_hex(#[trigger] draw[i])
}

/// The first six characters of a draw, or all of a shorter one.
pub open spec fn short_of(draw: Seq<char>) -> Seq<char> {
    if draw.len() <= 6 {
        draw
    } else {
        draw.take(6)
    }
}

/// The file name made of a date and a draw: the date, a hyphen, six
/// characters of the draw and `.md`.
pub open spec fn candidate_name(date: Seq<char>, draw: Seq<char>) -> Seq<char> {
    date + "-"@ + short_of(draw) + ".md"@
}

/// The first candidate that no file of the vault has, if there is one.
pub open spec fn first_free(date: Seq<char>, draws: Seq<Seq<char>>, taken: Seq<Seq<char>>) -> Option<
    Seq<char>,
>
    decreases draws.len(),
{
    if draws.len() == 0 {
        None
    } else if !taken.contains(candidate_name(date, draws[0])) {
        Some(candidate_name(date, draws[0]))
    } else {
        first_free(date, draws.drop_first(), taken)
    }
}

/// What choosing a fresh name from the given draws gives: the first
/// candidate that is free, or `FileAlreadyExists` where all collide.
pub open spec fn unique_outcome(
    r: Result<String, VaultError>,
    date: Seq<char>,
    draws: Seq<Seq<char>>,
    taken: Seq<Seq<char>>,
) -> bool {
    match r {
        Ok(name) => first_free(date, draws, taken) == Some(name@),
        Err(VaultError::FileAlreadyExists(m)) => first_free(date, draws, taken) is None && m@
            == "Failed to generate unique filename"@,
        Err(_) => false,
    }
}

/// Whether `name` is a fresh name for the vault: made of a text in the form
/// of a date and a draw of the random source, and taken by no file.
pub open spec fn is_fresh_name(name: Seq<char>, taken: Seq<Seq<char>>) -> bool {
    &&& !taken.contains(name)
    &&& exists|date: Seq<char>, draw: Seq<char>|
        is_date_text(date) && is_draw(draw) && name == #[trigger] candidate_name(date, draw)
}

/// Whether all names that were tried are taken: there are a date and as
/// many draws as there are attempts of which every candidate is the name
/// of a file.
pub open spec fn all_names_taken(taken: Seq<Seq<char>>) -> bool {
    exists|date: Seq<char>, draws: Seq<Seq<char>>|
        {
            &&& is_date_text(date)
            &&& draws.len() == NAME_ATTEMPTS
            &&& forall|i: int| 0 <= i < draws.len() ==> is_draw(#[trigger] draws[i])
            &&& #[trigger] first_free(date, draws, taken) is None
        }
}

/// In a vault without files the first name that is tried is free.
pub proof fn lemma_empty_vault_has_free_names()
    ensures
        !all_names_taken(Seq::<Seq<char>>::empty()),
{
    let taken = Seq::<Seq<char>>::empty();
    assert forall|date: Seq<char>, draws: Seq<Seq<char>>|
        draws.len() == NAME_ATTEMPTS implies #[trigger] first_free(date, draws, taken) is Some by {
        assert(!taken.contains(candidate_name(date, draws[0])));
    }
}

/// The candidate that is chosen is free and comes from one of the draws.
pub proof fn lemma_first_free_is_free(
    date: Seq<char>,
    draws: Seq<Seq<char>>,
    taken: Seq<Seq<char>>,
)
    requires
        first_free(date, draws, taken) is Some,
    ensures
        !taken.contains(first_free(date, draws, taken)->0),
        exists|i: int|
            0 <= i < draws.len() && first_free(date, draws, taken)->0 == candidate_name(
                date,
                #[trigger] draws[i],
            ),
    decreases draws.len(),
{
    if taken.contains(candidate_name(date, draws[0])) {
        let rest = draws.drop_first();
        lemma_first_free_is_free(date, rest, taken);
        let i = choose|i: int|
            0 <= i < rest.len() && first_free(date, rest, taken)->0 == candidate_name(
                date,
                #[trigger] rest[i],
            );
        assert(rest[i] == draws[i + 1]);
    } else {
        assert(first_free(date, draws, taken)->0 == candidate_name(date, draws[0]));
    }
}

/// The file name made of a date and a draw of the random source.
pub fn candidate_file_name(date: &str, draw: &str) -> (name: String)
    ensures
        name@ == candidate_name(date@, draw@),
{
    let digits = chars_of(draw);
    let short = if digits.len() <= 6 {
        digits
    } else {
        slice_of(&digits, 0, 6)
    };
    let mut out = chars_of(date);
    push_all(&mut out, &chars_of("-"));
    push_all(&mut out, &short);
    push_all(&mut out, &chars_of(".md"));
    string_of(&out)
}

/// The first name among the candidates of `date` and `draws` that no file
/// of the vault has.
pub fn pick_unique_name(date: &str, draws: &Vec<String>, taken: &Vec<String>) -> (r: Result<
    String,
    VaultError,
>)
    ensures
        unique_outcome(r, date@, texts(draws@), texts(taken@)),
{
    let mut i: usize = 0;
    assert(texts(draws@).skip(0) =~= texts(draws@));
    while i < draws.len()
        invariant
            i <= draws.len(),
            first_free(date@, texts(draws@), texts(taken@)) == first_free(
                date@,
                texts(draws@).skip(i as int),
                texts(taken@),
            ),
        decreases draws.len() - i,
    {
        let candidate = candidate_file_name(date, &draws[i]);
        assert(texts(draws@).skip(i as int)[0] == draws@[i as int]@);
        if !contains_text(taken, &candidate) {
            return Ok(candidate);
        }
        assert(texts(draws@).skip(i as int).drop_first() =~= texts(draws@).skip(i + 1));
        i += 1;
    }
    Err(VaultError::FileAlreadyExists("Failed to generate unique filename".to_string()))
}

/// A fresh file name for a prompt: the day of the call, a hyphen, six
/// random hexadecimal digits and `.md`; the first of twenty such names that
/// no file of the vault has. Where all twenty are taken the error is
/// `FileAlreadyExists`.
pub fn generate_unique_file_path(taken: &Vec<String>) -> (r: Result<String, VaultError>)
    ensures
        exists|date: Seq<char>, draws: Seq<Seq<char>>|
            {
                &&& is_date_text(date)
                &&& draws.len() == NAME_ATTEMPTS
                &&& forall|i: int| 0 <= i < draws.len() ==> is_draw(#[trigger] draws[i])
                &&& #[trigger] unique_outcome(r, date, draws, texts(taken@))
            },
        r matches Ok(name) ==> is_fresh_name(name@, texts(taken@)),
        r is Err ==> all_names_taken(texts(taken@)),
{
    let date = local_date();
    let mut draws: Vec<String> = Vec::new();
    while draws.len() < NAME_ATTEMPTS
        invariant
            draws.len() <= NAME_ATTEMPTS,
            forall|i: int| 0 <= i < draws.len() ==> is_draw(#[trigger] texts(draws@)[i]),
        decreases NAME_ATTEMPTS - draws.len(),
    {
        let ghost before = texts(draws@);
        let draw = random_hex();
        draws.push(draw);
        assert(texts(draws@) =~= before.push(draw@));
    }
    let r = pick_unique_name(&date, &draws, taken);
    proof {
        if r is Ok {
            lemma_first_free_is_free(date@, texts(draws@), texts(taken@));
        }
    }
    r
}

/// The file to remove for the prompt with the given id: its normalized
/// path. An id that breaks a rule of paths is rejected with
/// `InvalidFilePath`; where the vault has no file of that name the error is
/// `PathNotFound` with the name.
pub fn delete_prompt_file(names: &Vec<String>, id: &str) -> (r: Result<String, VaultError>)
    ensures
        match r {
            Ok(path) => {
                &&& path_fault(id@) is None
                &&& path@ == normalized_path(id@)
                &&& texts(names@).contains(path@)
            },
            Err(VaultError::InvalidFilePath(m)) => path_fault(id@) matches Some(f) && m@
                == fault_text(f),
            Err(VaultError::PathNotFound(m)) => {
                &&& path_fault(id@) is None
                &&& m@ == normalized_path(id@)
                &&& !texts(names@).contains(m@)
            },
            Err(_) => false,
        },
{
    let path = match normalize_relative_path(id) {
        Ok(path) => path,
        Err(e) => {
            return Err(e);
        },
    };
    if contains_text(names, &path) {
        Ok(path)
    } else {
        Err(VaultError::PathNotFound(path))
    }
}


/// What an error says: the kind in words and, behind a colon, its detail.
pub open spec fn vault_error_text(e: VaultError) -> Seq<char> {
    match e {
        VaultError::NotConfigured => "Vault path not configured"@,
        VaultError::NotFound(m) => "Prompt not found: "@ + m@,
        VaultError::PathNotFound(m) => "Vault path does not exist: "@ + m@,
        VaultError::IoError(m) => "IO error: "@ + m@,
        VaultError::ParseError(m) => "Parse error: "@ + m@,
        VaultError::SerializeError(m) => "Serialize error: "@ + m@,
        VaultError::InvalidFilename(m) => "Invalid filename: "@ + m@,
        VaultError::InvalidFilePath(m) => "Invalid file path: "@ + m@,
        VaultError::FileAlreadyExists(m) => "File name already exists: "@ + m@,
        VaultError::InvalidContent(m) => "Invalid prompt content: "@ + m@,
    }
}

impl VaultError {
    /// The error in words.
    pub fn message(&self) -> (text: String)
        ensures
            text@ == vault_error_text(*self),
    {
        match self {
            VaultError::NotConfigured => "Vault path not configured".to_string(),
            VaultError::NotFound(m) => chain("Prompt not found: ", m),
            VaultError::PathNotFound(m) => chain("Vault path does not exist: ", m),
            VaultError::IoError(m) => chain("IO error: ", m),
            VaultError::ParseError(m) => chain("Parse error: ", m),
            VaultError::SerializeError(m) => chain("Serialize error: ", m),
            VaultError::InvalidFilename(m) => chain("Invalid filename: ", m),
            VaultError::InvalidFilePath(m) => chain("Invalid file path: ", m),
            VaultError::FileAlreadyExists(m) => chain("File name already exists: ", m),
            VaultError::InvalidContent(m) => chain("Invalid prompt content: ", m),
        }
    }
}


/// The hash of a file's text: its SHA-256 in lower-case hexadecimal digits.
pub fn hash_text(text: &str) -> (hash: String)
    ensures
        hash@ == sha256_hex(text@),
        is_digest(hash@),
{
    compute_file_hash(text)
}

} // verus!
