//! Reconciliation of the cache with the vault.
//!
//! The vault is the source of truth and the cache is derived from it. The
//! functions of this module decide what is to be done: they take what was
//! read from the vault and the cache and return the writes to carry out.

use vstd::prelude::*;
use crate::config::FrontmatterSettings;
use crate::models::{
    Prompt, PromptInput, PromptInputView, PromptRow, PromptRowView, PromptView, TagRow,
};
use crate::outside::{
    compute_file_hash, is_timestamp_text, local_timestamp, sha256_hex, utc_timestamp,
};
use crate::text::{chars_of, clone_opt, clone_texts, opt_text, texts, trim};
use crate::vault::{
    all_names_taken, contains_text, fault_text, generate_unique_file_path, is_blank,
    is_fresh_name,
    normalize_relative_path, normalized_path, path_fault, prompt_views, readable_text,
    scan_vault, scanned, write_outcome, write_prompt_file_at, FileWrite, PromptFile,
    PromptFileView, VaultError, VaultFile,
};

verus! {

/// What a reconciliation did.
#[derive(Debug, Clone, PartialEq, Eq)]
pub struct SyncStats {
    /// Prompts found in the vault.
    pub found: usize,
    /// Rows written: every prompt found.
    pub updated: usize,
    /// Rows removed because their file is gone.
    pub deleted: usize,
}

/// A write to the cache.
#[derive(Debug, Clone, PartialEq, Eq)]
pub enum CacheOp {
    /// Insert the row, or overwrite the row of the same id.
    UpsertPrompt(PromptRow),
    /// Give the prompt with this id exactly the tags of these names.
    ReplaceTags(String, Vec<String>),
    /// Remove the row of this id, and its tag associations with it.
    DeletePrompt(String),
}

/// A write to the cache as contracts speak of it.
pub enum CacheOpView {
    UpsertPrompt(PromptRowView),
    ReplaceTags(Seq<char>, Seq<Seq<char>>),
    DeletePrompt(Seq<char>),
}

impl View for CacheOp {
    type V = CacheOpView;

    open spec fn view(&self) -> CacheOpView {
        match self {
            CacheOp::UpsertPrompt(row) => CacheOpView::UpsertPrompt(row@),
            CacheOp::ReplaceTags(id, names) => CacheOpView::ReplaceTags(id@, texts(names@)),
            CacheOp::DeletePrompt(id) => CacheOpView::DeletePrompt(id@),
        }
    }
}

/// The views of a list of writes.
pub open spec fn op_views(ops: Seq<CacheOp>) -> Seq<CacheOpView> {
    Seq::new(ops.len(), |i: int| ops[i]@)
}

/// The writes of one reconciliation, to carry out in one transaction, and
/// its counts.
#[derive(Debug, Clone, PartialEq, Eq)]
pub struct SyncPlan {
    pub ops: Vec<CacheOp>,
    pub stats: SyncStats,
}

/// The row that mirrors a prompt file. Its id is the file's relative path.
pub open spec fn row_of(prompt: PromptFileView) -> PromptRowView {
    PromptRowView {
        id: prompt.file_path,
        created: prompt.created,
        text: prompt.content,
        title: prompt.title,
        description: prompt.description,
        file_path: Some(prompt.file_path),
        file_hash: prompt.file_hash,
    }
}

/// The relative paths of the given prompts.
pub open spec fn paths_of(prompts: Seq<PromptFileView>) -> Seq<Seq<char>> {
    Seq::new(prompts.len(), |i: int| prompts[i].file_path)
}

/// For each prompt, in order: its row is written and its tags replaced.
pub open spec fn upserts_of(prompts: Seq<PromptFileView>) -> Seq<CacheOpView>
    decreases prompts.len(),
{
    if prompts.len() == 0 {
        Seq::empty()
    } else {
        upserts_of(prompts.drop_last()).push(
            CacheOpView::UpsertPrompt(row_of(prompts.last())),
        ).push(CacheOpView::ReplaceTags(prompts.last().file_path, prompts.last().tags))
    }
}

/// The cached ids that no file found stands for, in order.
pub open spec fn stale_ids(cached: Seq<Seq<char>>, found: Seq<Seq<char>>) -> Seq<Seq<char>>
    decreases cached.len(),
{
    if cached.len() == 0 {
        Seq::empty()
    } else if found.contains(cached.last()) {
        stale_ids(cached.drop_last(), found)
    } else {
        stale_ids(cached.drop_last(), found).push(cached.last())
    }
}

/// The removal of each of the given rows.
pub open spec fn deletes_of(ids: Seq<Seq<char>>) -> Seq<CacheOpView> {
    Seq::new(ids.len(), |i: int| CacheOpView::DeletePrompt(ids[i]))
}

/// The writes that make the cache mirror the vault: every prompt found is
/// written, then every cached row without a file is removed.
pub open spec fn sync_ops(found: Seq<PromptFileView>, cached: Seq<Seq<char>>) -> Seq<CacheOpView> {
    upserts_of(found) + deletes_of(stale_ids(cached, paths_of(found)))
}

/// The row that mirrors a prompt file.
pub fn prompt_row(prompt: &PromptFile) -> (row: PromptRow)
    ensures
        row@ == row_of(prompt@),
{
    PromptRow {
        id: prompt.file_path.clone(),
        created: clone_opt(&prompt.created),
        text: prompt.content.clone(),
        title: clone_opt(&prompt.title),
        description: clone_opt(&prompt.description),
        file_path: Some(prompt.file_path.clone()),
        file_hash: clone_opt(&prompt.file_hash),
    }
}

/// One full reconciliation. `files` is the vault's directory as it was
/// read, `cached_ids` the ids of all rows of the cache. Every prompt found
/// is written to the cache whether it changed or not, and every row whose
/// file is gone is removed; the vault itself is never touched.
pub fn sync_vault(files: &Vec<VaultFile>, cached_ids: &Vec<String>, settings: &FrontmatterSettings) -> (plan:
    SyncPlan)
    ensures
        op_views(plan.ops@) == sync_ops(
            scanned(files@, settings.prompt_tags_property@),
            texts(cached_ids@),
        ),
        plan.stats.found == scanned(files@, settings.prompt_tags_property@).len(),
        plan.stats.updated == plan.stats.found,
        plan.stats.deleted == stale_ids(
            texts(cached_ids@),
            paths_of(scanned(files@, settings.prompt_tags_property@)),
        ).len(),
{
    let prompts = scan_vault(files, settings);
    let ghost found = prompt_views(prompts@);
    let mut ops: Vec<CacheOp> = Vec::new();
    let mut found_ids: Vec<String> = Vec::new();
    let mut i: usize = 0;
    assert(found.take(0) =~= Seq::<PromptFileView>::empty());
    assert(op_views(ops@) =~= upserts_of(found.take(0)));
    assert(texts(found_ids@) =~= paths_of(found.take(0)));
    while i < prompts.len()
        invariant
            i <= prompts.len(),
            found == prompt_views(prompts@),
            op_views(ops@) == upserts_of(found.take(i as int)),
            texts(found_ids@) == paths_of(found.take(i as int)),
        decreases prompts.len() - i,
    {
        let ghost ops_before = op_views(ops@);
        let ghost ids_before = texts(found_ids@);
        let prompt = &prompts[i];
        assert(found.take(i + 1).drop_last() =~= found.take(i as int));
        assert(found.take(i + 1).last() == prompt@);
        let row = prompt_row(prompt);
        let id = prompt.file_path.clone();
        let names = clone_texts(&prompt.tags);
        found_ids.push(prompt.file_path.clone());
        ops.push(CacheOp::UpsertPrompt(row));
        ops.push(CacheOp::ReplaceTags(id, names));
        assert(op_views(ops@) =~= ops_before.push(CacheOpView::UpsertPrompt(row_of(prompt@))).push(
            CacheOpView::ReplaceTags(prompt@.file_path, prompt@.tags),
        ));
        assert(texts(found_ids@) =~= ids_before.push(prompt@.file_path));
        assert(paths_of(found.take(i + 1)) =~= paths_of(found.take(i as int)).push(
            prompt@.file_path,
        ));
        i += 1;
    }
    assert(found.take(prompts.len() as int) =~= found);
    let found_count = prompts.len();
    let ghost upserts = op_views(ops@);
    let ghost cached = texts(cached_ids@);
    let mut deleted: usize = 0;
    let mut j: usize = 0;
    assert(cached.take(0) =~= Seq::<Seq<char>>::empty());
    assert(op_views(ops@) =~= upserts + deletes_of(stale_ids(cached.take(0), paths_of(found))));
    while j < cached_ids.len()
        invariant
            j <= cached_ids.len(),
            cached == texts(cached_ids@),
            texts(found_ids@) == paths_of(found),
            deleted == stale_ids(cached.take(j as int), paths_of(found)).len(),
            deleted <= j,
            op_views(ops@) == upserts + deletes_of(
                stale_ids(cached.take(j as int), paths_of(found)),
            ),
        decreases cached_ids.len() - j,
    {
        let ghost ops_before = op_views(ops@);
        let ghost stale_before = stale_ids(cached.take(j as int), paths_of(found));
        assert(cached.take(j + 1).drop_last() =~= cached.take(j as int));
        assert(cached.take(j + 1).last() == cached_ids@[j as int]@);
        if !contains_text(&found_ids, &cached_ids[j]) {
            ops.push(CacheOp::DeletePrompt(cached_ids[j].clone()));
            deleted += 1;
            assert(op_views(ops@) =~= ops_before.push(
                CacheOpView::DeletePrompt(cached_ids@[j as int]@),
            ));
            assert(deletes_of(stale_before.push(cached_ids@[j as int]@)) =~= deletes_of(
                stale_before,
            ).push(CacheOpView::DeletePrompt(cached_ids@[j as int]@)));
        }
        j += 1;
    }
    assert(cached.take(cached_ids.len() as int) =~= cached);
    SyncPlan { ops, stats: SyncStats { found: found_count, updated: found_count, deleted } }
}


/// What saving a prompt takes: the file to write first, then the writes to
/// the cache, to carry out in one transaction, and last the file to remove
/// where the prompt was renamed. Failing to remove that file does not fail
/// the save.
#[derive(Debug, Clone, PartialEq, Eq)]
pub struct SavePlan {
    pub write: FileWrite,
    pub cache: Vec<CacheOp>,
    pub stale_file: Option<String>,
}

/// The names of the entries of a directory.
pub open spec fn names_of(files: Seq<VaultFile>) -> Seq<Seq<char>> {
    Seq::new(files.len(), |i: int| files[i].name@)
}

/// The text, unless it is absent or blank.
pub open spec fn non_blank(o: Option<Seq<char>>) -> Option<Seq<char>> {
    match o {
        Some(t) => if is_blank(t) {
            None
        } else {
            Some(t)
        },
        None => None,
    }
}

/// The name that the prompt asks for: its own, or the fresh one where it
/// names none.
pub open spec fn wanted_path(input: PromptInputView, fresh: Seq<char>) -> Seq<char> {
    match non_blank(input.file_path) {
        Some(path) => path,
        None => fresh,
    }
}

/// The file that held the prompt before, normalized.
pub open spec fn previous_path(input: PromptInputView) -> Option<Seq<char>> {
    match non_blank(input.previous_file_path) {
        Some(path) => Some(normalized_path(path)),
        None => None,
    }
}

/// Whether saving moves the prompt to another file.
pub open spec fn is_rename(previous: Option<Seq<char>>, target: Seq<char>) -> bool {
    previous matches Some(p) && p != target
}

/// Whether the target belongs to another prompt: a file of that name
/// exists, and the prompt does not already live in it.
pub open spec fn collides(
    names: Seq<Seq<char>>,
    target: Seq<char>,
    previous: Option<Seq<char>>,
) -> bool {
    names.contains(target) && (previous is None || is_rename(previous, target))
}

/// The prompt file that a saved prompt becomes.
pub open spec fn saved_file(input: PromptInputView, target: Seq<char>) -> PromptFileView {
    PromptFileView {
        id: target,
        file_path: target,
        tags: input.tags,
        created: input.created,
        content: input.text,
        file_hash: None,
        title: input.title,
        description: input.description,
    }
}

/// The row of a saved prompt; `hash` is the hash of the file written.
pub open spec fn saved_row(
    input: PromptInputView,
    target: Seq<char>,
    hash: Seq<char>,
) -> PromptRowView {
    PromptRowView {
        id: target,
        created: input.created,
        text: input.text,
        title: input.title,
        description: input.description,
        file_path: Some(target),
        file_hash: Some(hash),
    }
}

/// The writes to the cache for a saved prompt: the row of the file it left
/// is removed where it was renamed, then its row is written and its tags
/// are replaced.
pub open spec fn save_ops(
    input: PromptInputView,
    target: Seq<char>,
    previous: Option<Seq<char>>,
    hash: Seq<char>,
) -> Seq<CacheOpView> {
    let writes = seq![
        CacheOpView::UpsertPrompt(saved_row(input, target, hash)),
        CacheOpView::ReplaceTags(target, input.tags),
    ];
    if is_rename(previous, target) {
        seq![CacheOpView::DeletePrompt(previous->0)] + writes
    } else {
        writes
    }
}

/// What a save gives once the names are settled: the outcome of writing
/// the file and, where that succeeds, the writes to the cache and the file
/// to remove.
pub open spec fn settled_outcome(
    r: Result<SavePlan, VaultError>,
    files: Seq<VaultFile>,
    input: PromptInputView,
    tags_property: Seq<char>,
    add_marker: bool,
    target: Seq<char>,
    previous: Option<Seq<char>>,
    now: Seq<char>,
) -> bool {
    let existing = readable_text(files, normalized_path(target));
    match r {
        Ok(plan) => {
            &&& write_outcome(
                Ok(plan.write),
                existing,
                saved_file(input, target),
                tags_property,
                add_marker,
                now,
            )
            &&& op_views(plan.cache@) == save_ops(
                input,
                target,
                previous,
                sha256_hex(plan.write.text@),
            )
            &&& opt_text(plan.stale_file) == if is_rename(previous, target) {
                previous
            } else {
                None
            }
        },
        Err(e) => write_outcome(
            Err(e),
            existing,
            saved_file(input, target),
            tags_property,
            add_marker,
            now,
        ),
    }
}

/// What saving a prompt gives, for the fresh name `fresh` to use where the
/// prompt names no file, and the time `now`.
///
/// The wanted name and then the previous name are normalized, and rejected
/// with `InvalidFilePath` where they break a rule. A target that belongs to
/// another prompt is rejected with `FileAlreadyExists` and its name. Then
/// the file is written as `write_outcome` states.
pub open spec fn save_outcome(
    r: Result<SavePlan, VaultError>,
    files: Seq<VaultFile>,
    input: PromptInputView,
    tags_property: Seq<char>,
    add_marker: bool,
    fresh: Seq<char>,
    now: Seq<char>,
) -> bool {
    let wanted = wanted_path(input, fresh);
    let target = normalized_path(wanted);
    match path_fault(wanted) {
        Some(f) => r matches Err(VaultError::InvalidFilePath(m)) && m@ == fault_text(f),
        None => match non_blank(input.previous_file_path) {
            Some(p) if path_fault(p) is Some => r matches Err(VaultError::InvalidFilePath(m))
                && m@ == fault_text(path_fault(p)->0),
            _ => if collides(names_of(files), target, previous_path(input)) {
                r matches Err(VaultError::FileAlreadyExists(m)) && m@ == target
            } else {
                settled_outcome(
                    r,
                    files,
                    input,
                    tags_property,
                    add_marker,
                    target,
                    previous_path(input),
                    now,
                )
            },
        },
    }
}

/// The text of the first entry with the given name, if it could be read.
pub fn find_text<'a>(files: &'a Vec<VaultFile>, name: &str) -> (r: Option<&'a String>)
    ensures
        match r {
            Some(text) => readable_text(files@, name@) == Some(text@),
            None => readable_text(files@, name@) is None,
        },
{
    let wanted = name.to_string();
    let mut i: usize = 0;
    assert(files@.skip(0) =~= files@);
    while i < files.len()
        invariant
            i <= files.len(),
            wanted@ == name@,
            readable_text(files@, name@) == readable_text(files@.skip(i as int), name@),
        decreases files.len() - i,
    {
        assert(files@.skip(i as int)[0] == files@[i as int]);
        if files[i].name == wanted {
            return match &files[i].text {
                Some(text) => Some(text),
                None => None,
            };
        }
        assert(files@.skip(i as int).drop_first() =~= files@.skip(i + 1));
        i += 1;
    }
    None
}

/// Whether an entry of the directory has the given name.
pub fn has_file(files: &Vec<VaultFile>, name: &str) -> (b: bool)
    ensures
        b == names_of(files@).contains(name@),
{
    let wanted = name.to_string();
    let mut i: usize = 0;
    while i < files.len()
        invariant
            i <= files.len(),
            wanted@ == name@,
            forall|j: int| 0 <= j < i ==> names_of(files@)[j] != name@,
        decreases files.len() - i,
    {
        if files[i].name == wanted {
            assert(names_of(files@)[i as int] == name@);
            return true;
        }
        i += 1;
    }
    false
}

fn text_if_not_blank(o: &Option<String>) -> (r: Option<String>)
    ensures
        opt_text(r) == non_blank(opt_text(*o)),
{
    match o {
        Some(t) => if trim(&chars_of(t)).len() == 0 {
            None
        } else {
            Some(t.clone())
        },
        None => None,
    }
}

/// Whether the prompt names no file, so that a fresh name is needed.
pub fn needs_fresh_name(input: &PromptInput) -> (b: bool)
    ensures
        b == (non_blank(input@.file_path) is None),
{
    text_if_not_blank(&input.file_path).is_none()
}

/// Plans the save of a prompt: what `save_outcome` states. `files` is the
/// vault's directory as it was read.
pub fn save_prompt_with(
    files: &Vec<VaultFile>,
    input: &PromptInput,
    settings: &FrontmatterSettings,
    fresh: &str,
    now: &str,
) -> (r: Result<SavePlan, VaultError>)
    ensures
        save_outcome(
            r,
            files@,
            input@,
            settings.prompt_tags_property@,
            settings.add_prompts_tag_to_tags,
            fresh@,
            now@,
        ),
{
    let wanted = match text_if_not_blank(&input.file_path) {
        Some(path) => path,
        None => fresh.to_string(),
    };
    let target = match normalize_relative_path(&wanted) {
        Ok(path) => path,
        Err(e) => {
            return Err(e);
        },
    };
    let previous = match text_if_not_blank(&input.previous_file_path) {
        Some(path) => match normalize_relative_path(&path) {
            Ok(path) => Some(path),
            Err(e) => {
                return Err(e);
            },
        },
        None => None,
    };
    let renamed = match &previous {
        Some(path) => *path != target,
        None => false,
    };
    assert(renamed == is_rename(opt_text(previous), target@));
    if (previous.is_none() || renamed) && has_file(files, &target) {
        return Err(VaultError::FileAlreadyExists(target));
    }
    let prompt = PromptFile {
        id: target.clone(),
        file_path: target.clone(),
        tags: clone_texts(&input.tags),
        created: clone_opt(&input.created),
        content: input.text.clone(),
        file_hash: None,
        title: clone_opt(&input.title),
        description: clone_opt(&input.description),
    };
    assert(prompt@ == saved_file(input@, target@));
    let existing = match normalize_relative_path(&target) {
        Ok(path) => clone_opt_ref(find_text(files, &path)),
        Err(_) => None,
    };
    let write = match write_prompt_file_at(&existing, &prompt, settings, now) {
        Ok(write) => write,
        Err(e) => {
            return Err(e);
        },
    };
    let row = PromptRow {
        id: target.clone(),
        created: clone_opt(&input.created),
        text: input.text.clone(),
        title: clone_opt(&input.title),
        description: clone_opt(&input.description),
        file_path: Some(target.clone()),
        file_hash: Some(compute_file_hash(&write.text)),
    };
    let mut cache: Vec<CacheOp> = Vec::new();
    let mut stale_file: Option<String> = None;
    if renamed {
        match previous {
            Some(path) => {
                cache.push(CacheOp::DeletePrompt(path.clone()));
                stale_file = Some(path);
            },
            None => {},
        }
    }
    cache.push(CacheOp::UpsertPrompt(row));
    cache.push(CacheOp::ReplaceTags(target, clone_texts(&input.tags)));
    assert(op_views(cache@) =~= save_ops(
        input@,
        target@,
        previous_path(input@),
        sha256_hex(write.text@),
    ));
    Ok(SavePlan { write, cache, stale_file })
}

fn clone_opt_ref(o: Option<&String>) -> (r: Option<String>)
    ensures
        match o {
            Some(s) => opt_text(r) == Some(s@),
            None => r is None,
        },
{
    match o {
        Some(s) => Some(s.clone()),
        None => None,
    }
}

/// Whether the save failed for want of a fresh name.
pub open spec fn no_fresh_name(r: Result<SavePlan, VaultError>) -> bool {
    r matches Err(VaultError::FileAlreadyExists(m)) && m@ == "Failed to generate unique filename"@
}

/// What a save gives that draws the fresh name and the time itself. Where
/// the prompt names its file, it is what `save_outcome` states for some
/// time. Where it names none, either no fresh name could be had because
/// all that were tried are taken, or it is what `save_outcome` states for
/// some fresh name and some time.
pub open spec fn drawn_outcome(
    r: Result<SavePlan, VaultError>,
    files: Seq<VaultFile>,
    input: PromptInputView,
    tags_property: Seq<char>,
    add_marker: bool,
) -> bool {
    if non_blank(input.file_path) is Some {
        exists|now: Seq<char>|
            is_timestamp_text(now) && #[trigger] save_outcome(
                r,
                files,
                input,
                tags_property,
                add_marker,
                Seq::empty(),
                now,
            )
    } else {
        (no_fresh_name(r) && all_names_taken(names_of(files))) || exists|
            fresh: Seq<char>,
            now: Seq<char>,
        |
            is_fresh_name(fresh, names_of(files)) && is_timestamp_text(now) && #[trigger] save_outcome(
                r,
                files,
                input,
                tags_property,
                add_marker,
                fresh,
                now,
            )
    }
}

/// Plans the save of a prompt, with a fresh name from the random source
/// where the prompt names no file and the time of the call for a prompt
/// that was never dated: what `drawn_outcome` states.
pub fn save_prompt(files: &Vec<VaultFile>, input: &PromptInput, settings: &FrontmatterSettings) -> (r:
    Result<SavePlan, VaultError>)
    ensures
        drawn_outcome(
            r,
            files@,
            input@,
            settings.prompt_tags_property@,
            settings.add_prompts_tag_to_tags,
        ),
{
    let now = utc_timestamp();
    if needs_fresh_name(input) {
        let names = file_names(files);
        match generate_unique_file_path(&names) {
            Ok(fresh) => save_prompt_with(files, input, settings, &fresh, &now),
            Err(e) => Err(e),
        }
    } else {
        let r = save_prompt_with(files, input, settings, "", &now);
        proof {
            reveal_strlit("");
            assert(""@ =~= Seq::<char>::empty());
        }
        r
    }
}

/// How the attempt to remove a prompt's file ended.
#[derive(Debug, Clone, PartialEq, Eq)]
pub enum RemovalOutcome {
    /// The file was removed.
    Removed,
    /// There was no such file.
    Absent,
    /// The file is there and could not be removed; the reason is given.
    Failed(String),
}

/// The name that a prompt's file is known by: the path that the cache
/// holds for it, or its id.
pub open spec fn known_path(cached_file_path: Option<Seq<char>>, id: Seq<char>) -> Seq<char> {
    match cached_file_path {
        Some(path) => path,
        None => id,
    }
}

/// The file to remove when the prompt with the given id is deleted: the
/// normalized form of the path that the cache holds for it, or of its id.
/// A name that breaks a rule of paths is rejected with `InvalidFilePath`.
pub fn delete_target(cached_file_path: &Option<String>, id: &str) -> (r: Result<String, VaultError>)
    ensures
        match r {
            Ok(path) => path_fault(known_path(opt_text(*cached_file_path), id@)) is None && path@
                == normalized_path(known_path(opt_text(*cached_file_path), id@)),
            Err(VaultError::InvalidFilePath(m)) => path_fault(
                known_path(opt_text(*cached_file_path), id@),
            ) matches Some(f) && m@ == fault_text(f),
            Err(_) => false,
        },
{
    match cached_file_path {
        Some(path) => normalize_relative_path(path),
        None => normalize_relative_path(id),
    }
}

/// What follows the attempt to remove a prompt's file. Where the file was
/// removed or was not there, the row of the prompt is removed from the
/// cache; where the removal failed, the cache is left as it is and the
/// error is `IoError` with the reason.
pub fn delete_prompt(outcome: &RemovalOutcome, id: &str) -> (r: Result<Vec<CacheOp>, VaultError>)
    ensures
        match r {
            Ok(ops) => !(outcome is Failed) && op_views(ops@) == seq![
                CacheOpView::DeletePrompt(id@),
            ],
            Err(VaultError::IoError(m)) => outcome matches RemovalOutcome::Failed(reason) && m@
                == reason@,
            Err(_) => false,
        },
{
    match outcome {
        RemovalOutcome::Failed(reason) => Err(VaultError::IoError(reason.clone())),
        _ => {
            let mut ops: Vec<CacheOp> = Vec::new();
            ops.push(CacheOp::DeletePrompt(id.to_string()));
            assert(op_views(ops@) =~= seq![CacheOpView::DeletePrompt(id@)]);
            Ok(ops)
        },
    }
}


/// A prompt cannot take the file of another: where the names are valid, a
/// file of the target's name exists and the prompt did not live in it, the
/// save fails with `FileAlreadyExists` and the target's name.
pub proof fn lemma_foreign_name_collides(
    r: Result<SavePlan, VaultError>,
    files: Seq<VaultFile>,
    input: PromptInputView,
    tags_property: Seq<char>,
    add_marker: bool,
    fresh: Seq<char>,
    now: Seq<char>,
)
    requires
        save_outcome(r, files, input, tags_property, add_marker, fresh, now),
        path_fault(wanted_path(input, fresh)) is None,
        non_blank(input.previous_file_path) matches Some(p) ==> path_fault(p) is None,
        names_of(files).contains(normalized_path(wanted_path(input, fresh))),
        previous_path(input) != Some(normalized_path(wanted_path(input, fresh))),
    ensures
        r matches Err(VaultError::FileAlreadyExists(m)) && m@ == normalized_path(
            wanted_path(input, fresh),
        ),
{
}

/// A prompt can be saved to the file it lives in: where the target is the
/// previous file, an existing file of that name is no collision, and the
/// save goes on to write the file. It then fails only for what the write
/// itself rejects.
pub proof fn lemma_own_file_is_no_collision(
    r: Result<SavePlan, VaultError>,
    files: Seq<VaultFile>,
    input: PromptInputView,
    tags_property: Seq<char>,
    add_marker: bool,
    fresh: Seq<char>,
    now: Seq<char>,
)
    requires
        save_outcome(r, files, input, tags_property, add_marker, fresh, now),
        path_fault(wanted_path(input, fresh)) is None,
        non_blank(input.previous_file_path) matches Some(p) && path_fault(p) is None,
        previous_path(input) == Some(normalized_path(wanted_path(input, fresh))),
    ensures
        settled_outcome(
            r,
            files,
            input,
            tags_property,
            add_marker,
            normalized_path(wanted_path(input, fresh)),
            previous_path(input),
            now,
        ),
        !(r matches Err(VaultError::FileAlreadyExists(_))),
        r matches Ok(plan) ==> plan.stale_file is None && op_views(plan.cache@).len() == 2,
{
}


/// What duplicating a prompt takes: the file to write, the writes to the
/// cache, and the new prompt as the cache will hold it.
#[derive(Debug, Clone, PartialEq, Eq)]
pub struct DuplicatePlan {
    pub write: FileWrite,
    pub cache: Vec<CacheOp>,
    pub prompt: Prompt,
}

/// The prompt file of a copy of the cached prompt `row` with the given
/// tags, under the name `fresh` and dated `created`.
pub open spec fn copied_file(
    row: PromptRowView,
    tags: Seq<Seq<char>>,
    fresh: Seq<char>,
    created: Seq<char>,
) -> PromptFileView {
    PromptFileView {
        id: fresh,
        file_path: fresh,
        tags: tags,
        created: Some(created),
        content: row.text,
        file_hash: None,
        title: row.title,
        description: row.description,
    }
}

/// The copy as the cache holds it after the writes.
pub open spec fn copied_prompt(
    row: PromptRowView,
    tags: Seq<Seq<char>>,
    fresh: Seq<char>,
    created: Seq<char>,
) -> PromptView {
    PromptView {
        id: fresh,
        created: Some(created),
        text: row.text,
        tags: tags,
        file_path: Some(fresh),
        title: row.title,
        description: row.description,
    }
}

/// The writes to the cache for a copy: its row, without a hash, and its
/// tags.
pub open spec fn copy_ops(
    row: PromptRowView,
    tags: Seq<Seq<char>>,
    fresh: Seq<char>,
    created: Seq<char>,
) -> Seq<CacheOpView> {
    seq![
        CacheOpView::UpsertPrompt(
            PromptRowView {
                id: fresh,
                created: Some(created),
                text: row.text,
                title: row.title,
                description: row.description,
                file_path: Some(fresh),
                file_hash: None,
            },
        ),
        CacheOpView::ReplaceTags(fresh, tags),
    ]
}

/// What duplicating gives, for the fresh name and the date of the copy: the
/// outcome of writing the copy's file and, where that succeeds, the writes
/// to the cache and the copy.
pub open spec fn duplicate_outcome(
    r: Result<DuplicatePlan, VaultError>,
    files: Seq<VaultFile>,
    row: PromptRowView,
    tags: Seq<Seq<char>>,
    tags_property: Seq<char>,
    add_marker: bool,
    fresh: Seq<char>,
    created: Seq<char>,
) -> bool {
    let existing = readable_text(files, normalized_path(fresh));
    let file = copied_file(row, tags, fresh, created);
    match r {
        Ok(plan) => {
            &&& write_outcome(Ok(plan.write), existing, file, tags_property, add_marker, created)
            &&& op_views(plan.cache@) == copy_ops(row, tags, fresh, created)
            &&& plan.prompt@ == copied_prompt(row, tags, fresh, created)
        },
        Err(e) => write_outcome(Err(e), existing, file, tags_property, add_marker, created),
    }
}

/// Plans the copy of a cached prompt under the name `fresh`, dated
/// `created`: what `duplicate_outcome` states.
pub fn duplicate_prompt_with(
    files: &Vec<VaultFile>,
    row: &PromptRow,
    tags: &Vec<String>,
    settings: &FrontmatterSettings,
    fresh: &str,
    created: &str,
) -> (r: Result<DuplicatePlan, VaultError>)
    ensures
        duplicate_outcome(
            r,
            files@,
            row@,
            texts(tags@),
            settings.prompt_tags_property@,
            settings.add_prompts_tag_to_tags,
            fresh@,
            created@,
        ),
{
    let file = PromptFile {
        id: fresh.to_string(),
        file_path: fresh.to_string(),
        tags: clone_texts(tags),
        created: Some(created.to_string()),
        content: row.text.clone(),
        file_hash: None,
        title: clone_opt(&row.title),
        description: clone_opt(&row.description),
    };
    let existing = match normalize_relative_path(fresh) {
        Ok(path) => clone_opt_ref(find_text(files, &path)),
        Err(_) => None,
    };
    let write = match write_prompt_file_at(&existing, &file, settings, created) {
        Ok(write) => write,
        Err(e) => {
            return Err(e);
        },
    };
    let new_row = PromptRow {
        id: fresh.to_string(),
        created: Some(created.to_string()),
        text: row.text.clone(),
        title: clone_opt(&row.title),
        description: clone_opt(&row.description),
        file_path: Some(fresh.to_string()),
        file_hash: None,
    };
    let mut cache: Vec<CacheOp> = Vec::new();
    cache.push(CacheOp::UpsertPrompt(new_row));
    cache.push(CacheOp::ReplaceTags(fresh.to_string(), clone_texts(tags)));
    assert(op_views(cache@) =~= copy_ops(row@, texts(tags@), fresh@, created@));
    let prompt = Prompt {
        id: fresh.to_string(),
        created: Some(created.to_string()),
        text: row.text.clone(),
        tags: clone_texts(tags),
        file_path: Some(fresh.to_string()),
        title: clone_opt(&row.title),
        description: clone_opt(&row.description),
    };
    Ok(DuplicatePlan { write, cache, prompt })
}

/// Whether the copy failed for want of a fresh name.
pub open spec fn no_name_for_copy(r: Result<DuplicatePlan, VaultError>) -> bool {
    r matches Err(VaultError::FileAlreadyExists(m)) && m@ == "Failed to generate unique filename"@
}

/// Plans the copy of a cached prompt under a fresh name from the random
/// source, dated with the time of the call. Either no fresh name could be
/// had because all that were tried are taken, or the plan is what
/// `duplicate_outcome` states for some fresh name and some time.
pub fn duplicate_prompt(
    files: &Vec<VaultFile>,
    row: &PromptRow,
    tags: &Vec<String>,
    settings: &FrontmatterSettings,
) -> (r: Result<DuplicatePlan, VaultError>)
    ensures
        (no_name_for_copy(r) && all_names_taken(names_of(files@))) || exists|
            fresh: Seq<char>,
            created: Seq<char>,
        |
            is_fresh_name(fresh, names_of(files@)) && is_timestamp_text(created)
                && #[trigger] duplicate_outcome(
                r,
                files@,
                row@,
                texts(tags@),
                settings.prompt_tags_property@,
                settings.add_prompts_tag_to_tags,
                fresh,
                created,
            ),
{
    let created = local_timestamp();
    let names = file_names(files);
    match generate_unique_file_path(&names) {
        Ok(fresh) => duplicate_prompt_with(files, row, tags, settings, &fresh, &created),
        Err(e) => Err(e),
    }
}

/// The names of the entries of a directory.
pub fn file_names(files: &Vec<VaultFile>) -> (names: Vec<String>)
    ensures
        texts(names@) == names_of(files@),
{
    let mut names: Vec<String> = Vec::new();
    let mut i: usize = 0;
    assert(texts(names@) =~= names_of(files@).take(0));
    while i < files.len()
        invariant
            i <= files.len(),
            texts(names@) == names_of(files@).take(i as int),
        decreases files.len() - i,
    {
        let ghost before = texts(names@);
        names.push(files[i].name.clone());
        assert(texts(names@) =~= before.push(files@[i as int].name@));
        i += 1;
        assert(names_of(files@).take(i as int) =~= before.push(files@[i - 1].name@));
    }
    assert(names_of(files@).take(files.len() as int) =~= names_of(files@));
    names
}


/// The tag of the given name: the row that the cache holds for it, or a new
/// row with the id `fresh_id` where it holds none. The flag says whether
/// the row is new and has to be inserted.
pub fn get_or_create_tag(existing: Option<TagRow>, name: &str, fresh_id: &str) -> (r: (TagRow, bool))
    ensures
        match existing {
            Some(row) => r.0 == row && !r.1,
            None => r.0.id@ == fresh_id@ && r.0.name@ == name@ && r.1,
        },
{
    match existing {
        Some(row) => (row, false),
        None => (TagRow { id: fresh_id.to_string(), name: name.to_string() }, true),
    }
}


/// Every prompt found stands for an entry of the directory: its path is
/// the name of an entry.
pub proof fn lemma_scanned_paths_are_names(files: Seq<VaultFile>, tags_property: Seq<char>)
    ensures
        forall|i: int|
            0 <= i < scanned(files, tags_property).len() ==> names_of(files).contains(
                #[trigger] paths_of(scanned(files, tags_property))[i],
            ),
    decreases files.len(),
{
    if files.len() > 0 {
        let rest = files.drop_last();
        let file = files.last();
        lemma_scanned_paths_are_names(rest, tags_property);
        let found = scanned(files, tags_property);
        assert forall|i: int| 0 <= i < found.len() implies names_of(files).contains(
            #[trigger] paths_of(found)[i],
        ) by {
            if i < scanned(rest, tags_property).len() {
                let path = paths_of(scanned(rest, tags_property))[i];
                assert(paths_of(found)[i] == path);
                let j = choose|j: int| 0 <= j < names_of(rest).len() && names_of(rest)[j] == path;
                assert(names_of(files)[j] == path);
            } else {
                assert(paths_of(found)[i] == file.name@);
                assert(names_of(files)[files.len() - 1] == file.name@);
            }
        }
    }
}

/// In a directory, where no two entries share a name, no two prompts found
/// share a path.
pub proof fn lemma_scanned_paths_are_distinct(files: Seq<VaultFile>, tags_property: Seq<char>)
    requires
        names_of(files).no_duplicates(),
    ensures
        paths_of(scanned(files, tags_property)).no_duplicates(),
    decreases files.len(),
{
    if files.len() > 0 {
        let rest = files.drop_last();
        let file = files.last();
        assert forall|a: int, b: int|
            0 <= a < rest.len() && 0 <= b < rest.len() && a != b implies names_of(rest)[a]
            != names_of(rest)[b] by {
            assert(names_of(files)[a] == names_of(rest)[a]);
            assert(names_of(files)[b] == names_of(rest)[b]);
        }
        lemma_scanned_paths_are_distinct(rest, tags_property);
        lemma_scanned_paths_are_names(rest, tags_property);
        let found = scanned(files, tags_property);
        let before = scanned(rest, tags_property);
        assert forall|a: int, b: int|
            0 <= a < found.len() && 0 <= b < found.len() && a != b implies paths_of(found)[a]
            != paths_of(found)[b] by {
            let last = files.len() - 1;
            assert(names_of(files)[last] == file.name@);
            if a < before.len() && b < before.len() {
                assert(paths_of(found)[a] == paths_of(before)[a]);
                assert(paths_of(found)[b] == paths_of(before)[b]);
            } else if a < before.len() {
                let path = paths_of(before)[a];
                assert(paths_of(found)[a] == path);
                let j = choose|j: int| 0 <= j < names_of(rest).len() && names_of(rest)[j] == path;
                assert(names_of(files)[j] == path);
            } else if b < before.len() {
                let path = paths_of(before)[b];
                assert(paths_of(found)[b] == path);
                let j = choose|j: int| 0 <= j < names_of(rest).len() && names_of(rest)[j] == path;
                assert(names_of(files)[j] == path);
            }
        }
    }
}

/// A prompt whose file is gone cannot be read: where no entry has the name,
/// there is no text to read, and looking the prompt up fails with
/// `NotFound`.
pub proof fn lemma_absent_file_is_not_read(files: Seq<VaultFile>, name: Seq<char>)
    requires
        !names_of(files).contains(name),
    ensures
        readable_text(files, name) is None,
    decreases files.len(),
{
    if files.len() > 0 {
        assert(names_of(files)[0] == files[0].name@);
        let rest = files.drop_first();
        assert forall|i: int| 0 <= i < rest.len() implies names_of(rest)[i] != name by {
            assert(names_of(files)[i + 1] == names_of(rest)[i]);
        }
        lemma_absent_file_is_not_read(rest, name);
    }
}

} // verus!
