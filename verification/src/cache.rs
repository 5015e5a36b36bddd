//! What the cache holds, as a mathematical model, and what the writes of a
//! plan do to it. The cache itself is a database outside this library; the
//! model states what its tables `prompts` and `prompt_tags` mean, and the
//! laws of reconciliation are proved over it.

use vstd::prelude::*;
use vstd::seq_lib::lemma_seq_contains_after_push;
use crate::models::PromptRowView;
use crate::sync::{
    deletes_of, paths_of, row_of, stale_ids, sync_ops, upserts_of, CacheOpView,
};
use crate::vault::PromptFileView;

verus! {

/// The rows of the cache by id, the names of the tags of each prompt, and
/// the names of all tags that are defined.
pub struct CacheModel {
    pub rows: Map<Seq<char>, PromptRowView>,
    pub tags: Map<Seq<char>, Set<Seq<char>>>,
    pub tag_names: Set<Seq<char>>,
}

/// The cache after one write. A row that is written takes the place of the
/// row of its id. Replacing the tags of a prompt gives it exactly the tags
/// named, defining those that were not defined. A row that is removed takes
/// its tag associations with it; the tags stay defined.
pub open spec fn apply_op(cache: CacheModel, op: CacheOpView) -> CacheModel {
    match op {
        CacheOpView::UpsertPrompt(row) => CacheModel {
            rows: cache.rows.insert(row.id, row),
            tags: cache.tags,
            tag_names: cache.tag_names,
        },
        CacheOpView::ReplaceTags(id, names) => CacheModel {
            rows: cache.rows,
            tags: cache.tags.insert(id, names.to_set()),
            tag_names: cache.tag_names.union(names.to_set()),
        },
        CacheOpView::DeletePrompt(id) => CacheModel {
            rows: cache.rows.remove(id),
            tags: cache.tags.remove(id),
            tag_names: cache.tag_names,
        },
    }
}

/// The tags of the prompt with the given id; none where nothing is known of
/// it.
pub open spec fn tags_of(cache: CacheModel, id: Seq<char>) -> Set<Seq<char>> {
    if cache.tags.contains_key(id) {
        cache.tags[id]
    } else {
        Set::empty()
    }
}

/// No write takes the definition of a tag away: a tag that was defined is
/// defined after any writes, whether a prompt still has it or not.
pub proof fn lemma_tag_definitions_persist(cache: CacheModel, ops: Seq<CacheOpView>, name: Seq<char>)
    requires
        cache.tag_names.contains(name),
    ensures
        apply_ops(cache, ops).tag_names.contains(name),
    decreases ops.len(),
{
    if ops.len() > 0 {
        lemma_tag_definitions_persist(cache, ops.drop_last(), name);
    }
}

/// Replacing the tags of a prompt is no diff: afterwards the prompt has the
/// tags named and no other, whatever it had before, and each of them is
/// defined.
pub proof fn lemma_replaced_tags_are_exact(
    cache: CacheModel,
    id: Seq<char>,
    names: Seq<Seq<char>>,
    name: Seq<char>,
)
    ensures
        tags_of(apply_op(cache, CacheOpView::ReplaceTags(id, names)), id).contains(name)
            == names.contains(name),
        names.contains(name) ==> apply_op(
            cache,
            CacheOpView::ReplaceTags(id, names),
        ).tag_names.contains(name),
{
}

/// The cache after the given writes, in order.
pub open spec fn apply_ops(cache: CacheModel, ops: Seq<CacheOpView>) -> CacheModel
    decreases ops.len(),
{
    if ops.len() == 0 {
        cache
    } else {
        apply_op(apply_ops(cache, ops.drop_last()), ops.last())
    }
}

/// The cache after a reconciliation that found the given prompts, when the
/// ids `cached` were read from it.
pub open spec fn after_sync(
    cache: CacheModel,
    found: Seq<PromptFileView>,
    cached: Seq<Seq<char>>,
) -> CacheModel {
    apply_ops(cache, sync_ops(found, cached))
}

/// Writes carried out one list after another are the writes of the joined
/// list.
pub proof fn lemma_apply_concat(cache: CacheModel, first: Seq<CacheOpView>, then: Seq<CacheOpView>)
    ensures
        apply_ops(cache, first + then) == apply_ops(apply_ops(cache, first), then),
    decreases then.len(),
{
    if then.len() == 0 {
        assert(first + then =~= first);
    } else {
        assert((first + then).drop_last() =~= first + then.drop_last());
        assert((first + then).last() == then.last());
        lemma_apply_concat(cache, first, then.drop_last());
    }
}

/// Writing the prompts found adds their paths to the ids of the cache.
pub proof fn lemma_upserts_add_paths(cache: CacheModel, found: Seq<PromptFileView>)
    ensures
        apply_ops(cache, upserts_of(found)).rows.dom() == cache.rows.dom().union(
            paths_of(found).to_set(),
        ),
    decreases found.len(),
{
    broadcast use lemma_seq_contains_after_push;

    if found.len() == 0 {
        assert(paths_of(found) =~= Seq::<Seq<char>>::empty());
        assert(apply_ops(cache, upserts_of(found)).rows.dom() =~= cache.rows.dom().union(
            paths_of(found).to_set(),
        ));
    } else {
        let rest = found.drop_last();
        let last = found.last();
        let upsert = CacheOpView::UpsertPrompt(row_of(last));
        let retag = CacheOpView::ReplaceTags(last.file_path, last.tags);
        let ops = upserts_of(found);
        assert(ops == upserts_of(rest).push(upsert).push(retag));
        assert(ops.drop_last() =~= upserts_of(rest).push(upsert));
        assert(ops.drop_last().drop_last() =~= upserts_of(rest));
        assert(ops.last() == retag);
        assert(ops.drop_last().last() == upsert);
        lemma_upserts_add_paths(cache, rest);
        let before = apply_ops(cache, upserts_of(rest));
        assert(apply_ops(cache, ops.drop_last()) == apply_op(before, upsert));
        assert(apply_ops(cache, ops) == apply_op(apply_op(before, upsert), retag));
        assert(paths_of(found) =~= paths_of(rest).push(last.file_path));
        paths_of(rest).lemma_push_to_set_commute(last.file_path);
        assert(apply_ops(cache, ops).rows.dom() =~= before.rows.dom().insert(last.file_path));
        assert(apply_ops(cache, ops).rows.dom() =~= cache.rows.dom().union(
            paths_of(found).to_set(),
        ));
    }
}

/// Removing rows takes their ids from the ids of the cache.
pub proof fn lemma_deletes_remove_ids(cache: CacheModel, ids: Seq<Seq<char>>)
    ensures
        apply_ops(cache, deletes_of(ids)).rows.dom() == cache.rows.dom().difference(ids.to_set()),
    decreases ids.len(),
{
    broadcast use lemma_seq_contains_after_push;

    if ids.len() == 0 {
        assert(apply_ops(cache, deletes_of(ids)).rows.dom() =~= cache.rows.dom().difference(
            ids.to_set(),
        ));
    } else {
        let rest = ids.drop_last();
        assert(deletes_of(ids).drop_last() =~= deletes_of(rest));
        assert(deletes_of(ids).last() == CacheOpView::DeletePrompt(ids.last()));
        lemma_deletes_remove_ids(cache, rest);
        assert(ids =~= rest.push(ids.last()));
        rest.lemma_push_to_set_commute(ids.last());
        assert(apply_ops(cache, deletes_of(ids)).rows.dom() =~= cache.rows.dom().difference(
            ids.to_set(),
        ));
    }
}

/// The stale ids are the cached ids that are not found.
pub proof fn lemma_stale_ids_are_the_missing(cached: Seq<Seq<char>>, found: Seq<Seq<char>>)
    ensures
        stale_ids(cached, found).to_set() == cached.to_set().difference(found.to_set()),
    decreases cached.len(),
{
    broadcast use lemma_seq_contains_after_push;

    if cached.len() == 0 {
        assert(stale_ids(cached, found).to_set() =~= cached.to_set().difference(found.to_set()));
    } else {
        let rest = cached.drop_last();
        let last = cached.last();
        lemma_stale_ids_are_the_missing(rest, found);
        assert(cached =~= rest.push(last));
        rest.lemma_push_to_set_commute(last);
        if found.contains(last) {
            assert(stale_ids(cached, found) == stale_ids(rest, found));
        } else {
            assert(stale_ids(cached, found) == stale_ids(rest, found).push(last));
            stale_ids(rest, found).lemma_push_to_set_commute(last);
        }
        assert(stale_ids(cached, found).to_set() =~= cached.to_set().difference(found.to_set()));
    }
}

/// Reconciliation makes the cache hold exactly the prompts of the vault:
/// after it the ids of the cache are the paths of the prompts found,
/// whatever the cache held before.
pub proof fn lemma_sync_mirrors_vault(
    cache: CacheModel,
    found: Seq<PromptFileView>,
    cached: Seq<Seq<char>>,
)
    requires
        cached.to_set() == cache.rows.dom(),
    ensures
        after_sync(cache, found, cached).rows.dom() == paths_of(found).to_set(),
{
    let upserts = upserts_of(found);
    let stale = stale_ids(cached, paths_of(found));
    lemma_apply_concat(cache, upserts, deletes_of(stale));
    lemma_upserts_add_paths(cache, found);
    lemma_deletes_remove_ids(apply_ops(cache, upserts), stale);
    lemma_stale_ids_are_the_missing(cached, paths_of(found));
    assert(after_sync(cache, found, cached).rows.dom() =~= paths_of(found).to_set());
}

/// No id that is found is stale.
pub proof fn lemma_found_ids_are_kept(cached: Seq<Seq<char>>, found: Seq<Seq<char>>)
    requires
        forall|i: int| 0 <= i < cached.len() ==> found.contains(#[trigger] cached[i]),
    ensures
        stale_ids(cached, found).len() == 0,
    decreases cached.len(),
{
    if cached.len() > 0 {
        let rest = cached.drop_last();
        assert forall|i: int| 0 <= i < rest.len() implies found.contains(#[trigger] rest[i]) by {
            assert(rest[i] == cached[i]);
        }
        lemma_found_ids_are_kept(rest, found);
        assert(cached.last() == cached[cached.len() - 1]);
    }
}

/// A second reconciliation of an unchanged vault removes nothing: when the
/// same prompts are found again, none of the ids that the cache holds after
/// the first pass is stale. The number of prompts found is the same both
/// times, since it depends on the vault alone.
pub proof fn lemma_sync_is_idempotent(
    cache: CacheModel,
    found: Seq<PromptFileView>,
    cached: Seq<Seq<char>>,
    cached_again: Seq<Seq<char>>,
)
    requires
        cached.to_set() == cache.rows.dom(),
        cached_again.to_set() == after_sync(cache, found, cached).rows.dom(),
    ensures
        stale_ids(cached_again, paths_of(found)).len() == 0,
        sync_ops(found, cached_again) == upserts_of(found),
{
    lemma_sync_mirrors_vault(cache, found, cached);
    assert forall|i: int| 0 <= i < cached_again.len() implies paths_of(found).contains(
        #[trigger] cached_again[i],
    ) by {
        assert(cached_again.to_set().contains(cached_again[i]));
    }
    lemma_found_ids_are_kept(cached_again, paths_of(found));
    assert(deletes_of(stale_ids(cached_again, paths_of(found))) =~= Seq::<CacheOpView>::empty());
    assert(sync_ops(found, cached_again) =~= upserts_of(found));
}

/// A row whose file is gone is removed: a cached id for which no prompt is
/// found is among the stale ids, and the cache does not hold it after the
/// reconciliation.
pub proof fn lemma_missing_file_is_pruned(
    cache: CacheModel,
    found: Seq<PromptFileView>,
    cached: Seq<Seq<char>>,
    id: Seq<char>,
)
    requires
        cached.to_set() == cache.rows.dom(),
        cached.contains(id),
        !paths_of(found).contains(id),
    ensures
        stale_ids(cached, paths_of(found)).contains(id),
        !after_sync(cache, found, cached).rows.contains_key(id),
{
    lemma_stale_ids_are_the_missing(cached, paths_of(found));
    assert(cached.to_set().difference(paths_of(found).to_set()).contains(id));
    assert(stale_ids(cached, paths_of(found)).to_set().contains(id));
    lemma_sync_mirrors_vault(cache, found, cached);
    assert(!paths_of(found).to_set().contains(id));
}

/// Where the cache lists each id once, the number of rows removed is the
/// number of cached ids without a file.
pub proof fn lemma_deleted_counts_the_missing(cached: Seq<Seq<char>>, found: Seq<Seq<char>>)
    requires
        cached.no_duplicates(),
    ensures
        stale_ids(cached, found).no_duplicates(),
        stale_ids(cached, found).len() == cached.to_set().difference(found.to_set()).len(),
    decreases cached.len(),
{
    lemma_stale_ids_are_distinct(cached, found);
    stale_ids(cached, found).unique_seq_to_set();
    lemma_stale_ids_are_the_missing(cached, found);
}

/// The stale ids of a list without duplicates have no duplicates, and each
/// is one of the list.
pub proof fn lemma_stale_ids_are_distinct(cached: Seq<Seq<char>>, found: Seq<Seq<char>>)
    requires
        cached.no_duplicates(),
    ensures
        stale_ids(cached, found).no_duplicates(),
        forall|x: Seq<char>| stale_ids(cached, found).contains(x) ==> cached.contains(x),
    decreases cached.len(),
{
    broadcast use lemma_seq_contains_after_push;

    if cached.len() > 0 {
        let rest = cached.drop_last();
        lemma_stale_ids_are_distinct(rest, found);
        assert(cached =~= rest.push(cached.last()));
        if rest.contains(cached.last()) {
            let i = choose|i: int| 0 <= i < rest.len() && rest[i] == cached.last();
            assert(cached[i] == cached[cached.len() - 1]);
        }
        let stale = stale_ids(rest, found);
        if !found.contains(cached.last()) {
            assert forall|i: int, j: int|
                0 <= i < stale.push(cached.last()).len() && 0 <= j < stale.push(
                    cached.last(),
                ).len() && i != j implies stale.push(cached.last())[i] != stale.push(
                cached.last(),
            )[j] by {
                if i < stale.len() {
                    assert(stale.contains(stale[i]));
                }
                if j < stale.len() {
                    assert(stale.contains(stale[j]));
                }
            }
        }
    }
}


/// Writes to other prompts leave the row and the tags of a prompt alone.
pub proof fn lemma_other_writes_keep_row(cache: CacheModel, found: Seq<PromptFileView>, id: Seq<char>)
    requires
        !paths_of(found).contains(id),
    ensures
        apply_ops(cache, upserts_of(found)).rows.contains_key(id) == cache.rows.contains_key(id),
        cache.rows.contains_key(id) ==> apply_ops(cache, upserts_of(found)).rows[id]
            == cache.rows[id],
        tags_of(apply_ops(cache, upserts_of(found)), id) == tags_of(cache, id),
    decreases found.len(),
{
    if found.len() > 0 {
        let rest = found.drop_last();
        let last = found.last();
        let upsert = CacheOpView::UpsertPrompt(row_of(last));
        let retag = CacheOpView::ReplaceTags(last.file_path, last.tags);
        let ops = upserts_of(found);
        assert(ops.drop_last() =~= upserts_of(rest).push(upsert));
        assert(ops.drop_last().drop_last() =~= upserts_of(rest));
        assert(ops.last() == retag);
        assert(ops.drop_last().last() == upsert);
        assert(paths_of(found)[found.len() - 1] == last.file_path);
        assert forall|i: int| 0 <= i < rest.len() implies paths_of(rest)[i] != id by {
            assert(paths_of(found)[i] == paths_of(rest)[i]);
        }
        lemma_other_writes_keep_row(cache, rest, id);
        let before = apply_ops(cache, upserts_of(rest));
        assert(apply_ops(cache, ops.drop_last()) == apply_op(before, upsert));
        assert(apply_ops(cache, ops) == apply_op(apply_op(before, upsert), retag));
    }
}

/// Removing other rows leaves the row and the tags of a prompt alone.
pub proof fn lemma_other_deletes_keep_row(cache: CacheModel, ids: Seq<Seq<char>>, id: Seq<char>)
    requires
        !ids.contains(id),
        cache.rows.contains_key(id),
    ensures
        apply_ops(cache, deletes_of(ids)).rows.contains_key(id),
        apply_ops(cache, deletes_of(ids)).rows[id] == cache.rows[id],
        tags_of(apply_ops(cache, deletes_of(ids)), id) == tags_of(cache, id),
    decreases ids.len(),
{
    if ids.len() > 0 {
        let rest = ids.drop_last();
        assert(deletes_of(ids).drop_last() =~= deletes_of(rest));
        assert(deletes_of(ids).last() == CacheOpView::DeletePrompt(ids.last()));
        assert(ids[ids.len() - 1] == ids.last());
        assert forall|i: int| 0 <= i < rest.len() implies rest[i] != id by {
            assert(ids[i] == rest[i]);
        }
        lemma_other_deletes_keep_row(cache, rest, id);
    }
}

/// After the prompts found were written, the cache holds for each of them
/// the row that mirrors it and exactly its tags, where no two of them share
/// a path.
pub proof fn lemma_upserts_mirror_prompts(cache: CacheModel, found: Seq<PromptFileView>, i: int)
    requires
        paths_of(found).no_duplicates(),
        0 <= i < found.len(),
    ensures
        apply_ops(cache, upserts_of(found)).rows.contains_key(found[i].file_path),
        apply_ops(cache, upserts_of(found)).rows[found[i].file_path] == row_of(found[i]),
        tags_of(apply_ops(cache, upserts_of(found)), found[i].file_path)
            == found[i].tags.to_set(),
    decreases found.len(),
{
    let rest = found.drop_last();
    let last = found.last();
    let upsert = CacheOpView::UpsertPrompt(row_of(last));
    let retag = CacheOpView::ReplaceTags(last.file_path, last.tags);
    let ops = upserts_of(found);
    assert(ops.drop_last() =~= upserts_of(rest).push(upsert));
    assert(ops.drop_last().drop_last() =~= upserts_of(rest));
    assert(ops.last() == retag);
    assert(ops.drop_last().last() == upsert);
    let before = apply_ops(cache, upserts_of(rest));
    assert(ops == upserts_of(rest).push(upsert).push(retag));
    assert(apply_ops(cache, ops.drop_last()) == apply_op(before, upsert));
    assert(apply_ops(cache, ops) == apply_op(apply_op(before, upsert), retag));
    if i < found.len() - 1 {
        assert(paths_of(found)[i] == found[i].file_path);
        assert(paths_of(found)[found.len() - 1] == last.file_path);
        assert(found[i].file_path != last.file_path);
        assert forall|a: int, b: int|
            0 <= a < rest.len() && 0 <= b < rest.len() && a != b implies paths_of(rest)[a]
            != paths_of(rest)[b] by {
            assert(paths_of(found)[a] == paths_of(rest)[a]);
            assert(paths_of(found)[b] == paths_of(rest)[b]);
        }
        assert(rest[i] == found[i]);
        lemma_upserts_mirror_prompts(cache, rest, i);
    }
}

/// Reconciliation makes the cache mirror the vault: afterwards the cache
/// holds, for each prompt found, the row that mirrors it and exactly its
/// tags. This is stated for a vault in which no two prompts share a path,
/// as in a directory.
pub proof fn lemma_sync_mirrors_prompts(
    cache: CacheModel,
    found: Seq<PromptFileView>,
    cached: Seq<Seq<char>>,
    i: int,
)
    requires
        paths_of(found).no_duplicates(),
        0 <= i < found.len(),
    ensures
        after_sync(cache, found, cached).rows.contains_key(found[i].file_path),
        after_sync(cache, found, cached).rows[found[i].file_path] == row_of(found[i]),
        tags_of(after_sync(cache, found, cached), found[i].file_path) == found[i].tags.to_set(),
{
    let upserts = upserts_of(found);
    let stale = stale_ids(cached, paths_of(found));
    let id = found[i].file_path;
    lemma_apply_concat(cache, upserts, deletes_of(stale));
    lemma_upserts_mirror_prompts(cache, found, i);
    lemma_stale_ids_are_the_missing(cached, paths_of(found));
    assert(paths_of(found)[i] == id);
    assert(paths_of(found).to_set().contains(id));
    assert(!stale.to_set().contains(id));
    lemma_other_deletes_keep_row(apply_ops(cache, upserts), stale, id);
}

} // verus!
