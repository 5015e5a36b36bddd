//! Filtering and sorting of the prompts that were read from the cache.

use vstd::prelude::*;
use vstd::seq_lib::{to_multiset_build, to_multiset_insert};
use crate::models::{FilterConfig, Prompt, PromptView, SortConfig};
use crate::outside::{lowercase_of, to_lowercase};
use crate::text::{
    chars_of, clone_opt, clone_texts, contains, has_sub, opt_text, slice_of, string_of, texts,
    trim, trim_of,
};
use crate::vault::contains_text;

verus! {

/// What one entry of a tag filter asks of a prompt.
pub enum TagTerm {
    /// The prompt has the tag.
    Require(Seq<char>),
    /// The prompt does not have the tag.
    Forbid(Seq<char>),
}

/// What an entry of a tag filter asks. White space around the entry does
/// not count. An entry that begins with `-` forbids the tag named behind
/// it, any other requires the tag it names; an entry that names nothing
/// asks nothing.
pub open spec fn tag_term(entry: Seq<char>) -> Option<TagTerm> {
    let t = trim_of(entry);
    if t.len() == 0 {
        None
    } else if t[0] == '-' {
        let name = trim_of(t.skip(1));
        if name.len() == 0 {
            None
        } else {
            Some(TagTerm::Forbid(name))
        }
    } else {
        Some(TagTerm::Require(t))
    }
}

/// Whether a prompt with the given tags meets every entry of the filter.
pub open spec fn meets_tags(tags: Seq<Seq<char>>, entries: Seq<Seq<char>>) -> bool {
    forall|i: int|
        0 <= i < entries.len() ==> match tag_term(#[trigger] entries[i]) {
            Some(TagTerm::Require(name)) => tags.contains(name),
            Some(TagTerm::Forbid(name)) => !tags.contains(name),
            None => true,
        }
}

/// Whether a text holds the words searched for, whatever the case of the
/// letters.
pub open spec fn meets_search(text: Seq<char>, search: Seq<char>) -> bool {
    has_sub(lowercase_of(text), lowercase_of(search))
}

/// Whether a prompt passes a filter: it meets the tag entries and the
/// search, as far as the filter has them.
pub open spec fn passes(
    prompt: PromptView,
    tags: Option<Seq<Seq<char>>>,
    search: Option<Seq<char>>,
) -> bool {
    &&& tags matches Some(entries) ==> meets_tags(prompt.tags, entries)
    &&& search matches Some(words) ==> words.len() == 0 || meets_search(prompt.text, words)
}

/// The prompts that pass, in their order.
pub open spec fn kept(
    prompts: Seq<PromptView>,
    tags: Option<Seq<Seq<char>>>,
    search: Option<Seq<char>>,
) -> Seq<PromptView>
    decreases prompts.len(),
{
    if prompts.len() == 0 {
        Seq::empty()
    } else if passes(prompts.last(), tags, search) {
        kept(prompts.drop_last(), tags, search).push(prompts.last())
    } else {
        kept(prompts.drop_last(), tags, search)
    }
}

/// Whether the text `a` comes before the text `b` in the order of strings:
/// at the first place where they differ `a` has the smaller character, or
/// `a` ends before `b` does.
pub open spec fn text_before(a: Seq<char>, b: Seq<char>) -> bool
    decreases a.len(),
{
    if b.len() == 0 {
        false
    } else if a.len() == 0 {
        true
    } else if a[0] != b[0] {
        (a[0] as u32) < (b[0] as u32)
    } else {
        text_before(a.drop_first(), b.drop_first())
    }
}

/// Whether the date `a` comes before the date `b`; a prompt without a date
/// comes before every dated one.
pub open spec fn created_before(a: Option<Seq<char>>, b: Option<Seq<char>>) -> bool {
    match (a, b) {
        (None, Some(_)) => true,
        (Some(x), Some(y)) => text_before(x, y),
        _ => false,
    }
}

/// Whether `a` has to stand before `b` in the sorted list.
pub open spec fn sorts_before(a: PromptView, b: PromptView, descending: bool) -> bool {
    if descending {
        created_before(b.created, a.created)
    } else {
        created_before(a.created, b.created)
    }
}

/// Where a prompt goes into a sorted list: before the first prompt that it
/// has to stand before, and so behind all that are its equals.
pub open spec fn insert_at(sorted: Seq<PromptView>, prompt: PromptView, descending: bool) -> int
    decreases sorted.len(),
{
    if sorted.len() == 0 {
        0
    } else if sorts_before(prompt, sorted[0], descending) {
        0
    } else {
        1 + insert_at(sorted.drop_first(), prompt, descending)
    }
}

/// The prompts sorted by their date. Prompts with equal dates keep their
/// order.
pub open spec fn sorted_by_created(prompts: Seq<PromptView>, descending: bool) -> Seq<PromptView>
    decreases prompts.len(),
{
    if prompts.len() == 0 {
        Seq::empty()
    } else {
        let sorted = sorted_by_created(prompts.drop_last(), descending);
        sorted.insert(insert_at(sorted, prompts.last(), descending), prompts.last())
    }
}

/// The views of a list of prompts.
pub open spec fn prompt_list(prompts: Seq<Prompt>) -> Seq<PromptView> {
    Seq::new(prompts.len(), |i: int| prompts[i]@)
}

/// The tag entries of a filter, if it has any.
pub open spec fn filter_tags(filter: Option<FilterConfig>) -> Option<Seq<Seq<char>>> {
    match filter {
        Some(f) => match f.tags {
            Some(entries) => Some(texts(entries@)),
            None => None,
        },
        None => None,
    }
}

/// The search of a filter, if it has one.
pub open spec fn filter_search(filter: Option<FilterConfig>) -> Option<Seq<char>> {
    match filter {
        Some(f) => opt_text(f.search),
        None => None,
    }
}

/// The selected prompts in the order asked for: filtered, then sorted by
/// date where a sort is given, descending where its order is `desc`.
pub open spec fn selected(
    prompts: Seq<PromptView>,
    filter: Option<FilterConfig>,
    sort: Option<SortConfig>,
) -> Seq<PromptView> {
    let passed = kept(prompts, filter_tags(filter), filter_search(filter));
    match sort {
        Some(s) => sorted_by_created(passed, s.order@ == "desc"@),
        None => passed,
    }
}

fn copy_prompt(prompt: &Prompt) -> (copy: Prompt)
    ensures
        copy@ == prompt@,
{
    Prompt {
        id: prompt.id.clone(),
        created: clone_opt(&prompt.created),
        text: prompt.text.clone(),
        tags: clone_texts(&prompt.tags),
        file_path: clone_opt(&prompt.file_path),
        title: clone_opt(&prompt.title),
        description: clone_opt(&prompt.description),
    }
}

/// Whether a prompt with the given tags meets one entry of a tag filter.
fn meets_entry(tags: &Vec<String>, entry: &str) -> (b: bool)
    ensures
        b == match tag_term(entry@) {
            Some(TagTerm::Require(name)) => texts(tags@).contains(name),
            Some(TagTerm::Forbid(name)) => !texts(tags@).contains(name),
            None => true,
        },
{
    let t = trim(&chars_of(entry));
    if t.len() == 0 {
        true
    } else if t[0] == '-' {
        let rest = slice_of(&t, 1, t.len());
        assert(rest@ =~= t@.skip(1));
        let name = trim(&rest);
        if name.len() == 0 {
            true
        } else {
            !contains_text(tags, &string_of(&name))
        }
    } else {
        contains_text(tags, &string_of(&t))
    }
}

fn meets_entries(tags: &Vec<String>, entries: &Vec<String>) -> (b: bool)
    ensures
        b == meets_tags(texts(tags@), texts(entries@)),
{
    let mut i: usize = 0;
    while i < entries.len()
        invariant
            i <= entries.len(),
            forall|j: int|
                0 <= j < i ==> match tag_term(#[trigger] texts(entries@)[j]) {
                    Some(TagTerm::Require(name)) => texts(tags@).contains(name),
                    Some(TagTerm::Forbid(name)) => !texts(tags@).contains(name),
                    None => true,
                },
        decreases entries.len() - i,
    {
        if !meets_entry(tags, &entries[i]) {
            assert(texts(entries@)[i as int] == entries@[i as int]@);
            return false;
        }
        assert(texts(entries@)[i as int] == entries@[i as int]@);
        i += 1;
    }
    true
}

/// Whether a prompt passes a filter.
pub fn prompt_passes(prompt: &Prompt, filter: &Option<FilterConfig>) -> (b: bool)
    ensures
        b == passes(prompt@, filter_tags(*filter), filter_search(*filter)),
{
    match filter {
        Some(f) => {
            let tags_ok = match &f.tags {
                Some(entries) => meets_entries(&prompt.tags, entries),
                None => true,
            };
            if !tags_ok {
                return false;
            }
            match &f.search {
                Some(words) => {
                    let wanted = chars_of(words);
                    if wanted.len() == 0 {
                        true
                    } else {
                        let text = chars_of(&to_lowercase(&prompt.text));
                        contains(&text, &chars_of(&to_lowercase(words)))
                    }
                },
                None => true,
            }
        },
        None => true,
    }
}

fn text_comes_before(a: &Vec<char>, b: &Vec<char>) -> (r: bool)
    ensures
        r == text_before(a@, b@),
{
    let mut i: usize = 0;
    assert(a@.skip(0) =~= a@ && b@.skip(0) =~= b@);
    while i < a.len() && i < b.len() && a[i] == b[i]
        invariant
            i <= a.len(),
            i <= b.len(),
            text_before(a@, b@) == text_before(a@.skip(i as int), b@.skip(i as int)),
        decreases a.len() - i,
    {
        assert(a@.skip(i as int).drop_first() =~= a@.skip(i + 1));
        assert(b@.skip(i as int).drop_first() =~= b@.skip(i + 1));
        i += 1;
    }
    if i == b.len() {
        false
    } else if i == a.len() {
        true
    } else {
        let x: u32 = a[i] as u32;
        let y: u32 = b[i] as u32;
        x < y
    }
}

fn created_comes_before(a: &Option<String>, b: &Option<String>) -> (r: bool)
    ensures
        r == created_before(opt_text(*a), opt_text(*b)),
{
    match b {
        None => false,
        Some(y) => match a {
            None => true,
            Some(x) => text_comes_before(&chars_of(x), &chars_of(y)),
        },
    }
}

fn stands_before(a: &Prompt, b: &Prompt, descending: bool) -> (r: bool)
    ensures
        r == sorts_before(a@, b@, descending),
{
    if descending {
        created_comes_before(&b.created, &a.created)
    } else {
        created_comes_before(&a.created, &b.created)
    }
}

/// The prompts sorted by their date, ascending or descending; prompts with
/// equal dates keep their order.
pub fn sort_prompts(prompts: &Vec<Prompt>, descending: bool) -> (sorted: Vec<Prompt>)
    ensures
        prompt_list(sorted@) == sorted_by_created(prompt_list(prompts@), descending),
{
    let mut sorted: Vec<Prompt> = Vec::new();
    let ghost all = prompt_list(prompts@);
    let mut i: usize = 0;
    assert(all.take(0) =~= Seq::<PromptView>::empty());
    assert(prompt_list(sorted@) =~= Seq::<PromptView>::empty());
    while i < prompts.len()
        invariant
            i <= prompts.len(),
            all == prompt_list(prompts@),
            prompt_list(sorted@) == sorted_by_created(all.take(i as int), descending),
        decreases prompts.len() - i,
    {
        let ghost before = prompt_list(sorted@);
        assert(all.take(i + 1).drop_last() =~= all.take(i as int));
        assert(all.take(i + 1).last() == prompts@[i as int]@);
        let prompt = copy_prompt(&prompts[i]);
        let mut at: usize = 0;
        assert(before.skip(0) =~= before);
        while at < sorted.len() && !stands_before(&prompt, &sorted[at], descending)
            invariant
                at <= sorted.len(),
                before == prompt_list(sorted@),
                insert_at(before, prompt@, descending) == at + insert_at(
                    before.skip(at as int),
                    prompt@,
                    descending,
                ),
            decreases sorted.len() - at,
        {
            assert(before.skip(at as int)[0] == sorted@[at as int]@);
            assert(before.skip(at as int).drop_first() =~= before.skip(at + 1));
            at += 1;
        }
        assert(insert_at(before, prompt@, descending) == at) by {
            if at < sorted.len() {
                assert(before.skip(at as int)[0] == sorted@[at as int]@);
            }
        }
        sorted.insert(at, prompt);
        assert(prompt_list(sorted@) =~= before.insert(at as int, prompt@));
        i += 1;
    }
    assert(all.take(prompts.len() as int) =~= all);
    sorted
}

/// The prompts that pass the filter, in the order that the sort asks for:
/// what `selected` states.
pub fn filter_prompts(prompts: &Vec<Prompt>, filter: &Option<FilterConfig>, sort: &Option<
    SortConfig,
>) -> (chosen: Vec<Prompt>)
    ensures
        prompt_list(chosen@) == selected(prompt_list(prompts@), *filter, *sort),
{
    let mut passed: Vec<Prompt> = Vec::new();
    let ghost all = prompt_list(prompts@);
    let mut i: usize = 0;
    assert(all.take(0) =~= Seq::<PromptView>::empty());
    assert(prompt_list(passed@) =~= Seq::<PromptView>::empty());
    while i < prompts.len()
        invariant
            i <= prompts.len(),
            all == prompt_list(prompts@),
            prompt_list(passed@) == kept(
                all.take(i as int),
                filter_tags(*filter),
                filter_search(*filter),
            ),
        decreases prompts.len() - i,
    {
        let ghost before = prompt_list(passed@);
        assert(all.take(i + 1).drop_last() =~= all.take(i as int));
        assert(all.take(i + 1).last() == prompts@[i as int]@);
        if prompt_passes(&prompts[i], filter) {
            let prompt = copy_prompt(&prompts[i]);
            passed.push(prompt);
            assert(prompt_list(passed@) =~= before.push(prompt@));
        }
        i += 1;
    }
    assert(all.take(prompts.len() as int) =~= all);
    match sort {
        Some(s) => {
            let descending = s.order == "desc".to_string();
            sort_prompts(&passed, descending)
        },
        None => passed,
    }
}


/// The order of strings is strict: no text comes before itself, and of two
/// texts at most one comes before the other.
pub proof fn lemma_text_order_is_strict(a: Seq<char>, b: Seq<char>)
    ensures
        !(text_before(a, b) && text_before(b, a)),
        !text_before(a, a),
    decreases a.len(),
{
    if a.len() > 0 {
        if b.len() > 0 && a[0] == b[0] {
            lemma_text_order_is_strict(a.drop_first(), b.drop_first());
        }
        lemma_text_order_is_strict(a.drop_first(), a.drop_first());
    }
}

/// The order of strings is total: of two different texts one comes before
/// the other.
pub proof fn lemma_text_order_is_total(a: Seq<char>, b: Seq<char>)
    ensures
        a == b || text_before(a, b) || text_before(b, a),
    decreases a.len(),
{
    if a.len() == 0 || b.len() == 0 {
        if a.len() == 0 && b.len() == 0 {
            assert(a =~= b);
        }
    } else if a[0] == b[0] {
        lemma_text_order_is_total(a.drop_first(), b.drop_first());
        if a.drop_first() == b.drop_first() {
            assert(a =~= seq![a[0]] + a.drop_first());
            assert(b =~= seq![b[0]] + b.drop_first());
        }
    } else {
        vstd::utf8::char_u32_cast(a[0], a[0] as u32);
        vstd::utf8::char_u32_cast(b[0], b[0] as u32);
    }
}

/// The order of strings is transitive.
pub proof fn lemma_text_order_is_transitive(a: Seq<char>, b: Seq<char>, c: Seq<char>)
    requires
        text_before(a, b),
        text_before(b, c),
    ensures
        text_before(a, c),
    decreases a.len(),
{
    if a.len() > 0 && a[0] == b[0] && b[0] == c[0] {
        lemma_text_order_is_transitive(a.drop_first(), b.drop_first(), c.drop_first());
    }
}

/// The order in which prompts are sorted is strict and transitive.
pub proof fn lemma_sort_order(a: PromptView, b: PromptView, c: PromptView, descending: bool)
    ensures
        !(sorts_before(a, b, descending) && sorts_before(b, a, descending)),
        sorts_before(a, b, descending) && sorts_before(b, c, descending) ==> sorts_before(
            a,
            c,
            descending,
        ),
{
    match (a.created, b.created) {
        (Some(x), Some(y)) => {
            lemma_text_order_is_strict(x, y);
            match c.created {
                Some(z) => {
                    if text_before(x, y) && text_before(y, z) {
                        lemma_text_order_is_transitive(x, y, z);
                    }
                    if text_before(z, y) && text_before(y, x) {
                        lemma_text_order_is_transitive(z, y, x);
                    }
                },
                None => {},
            }
        },
        _ => {},
    }
}

/// Whether no prompt of the list stands behind one that it has to stand
/// before.
pub open spec fn is_sorted(prompts: Seq<PromptView>, descending: bool) -> bool {
    forall|i: int, j: int|
        0 <= i < j < prompts.len() ==> !sorts_before(
            #[trigger] prompts[j],
            #[trigger] prompts[i],
            descending,
        )
}

/// Where a prompt goes into a list: within the list, behind prompts that
/// it does not have to stand before, and before one that it has to stand
/// before.
pub proof fn lemma_insert_at_found(sorted: Seq<PromptView>, prompt: PromptView, descending: bool)
    ensures
        0 <= insert_at(sorted, prompt, descending) <= sorted.len(),
        forall|i: int|
            0 <= i < insert_at(sorted, prompt, descending) ==> !sorts_before(
                prompt,
                #[trigger] sorted[i],
                descending,
            ),
        insert_at(sorted, prompt, descending) < sorted.len() ==> sorts_before(
            prompt,
            sorted[insert_at(sorted, prompt, descending)],
            descending,
        ),
    decreases sorted.len(),
{
    if sorted.len() > 0 && !sorts_before(prompt, sorted[0], descending) {
        let rest = sorted.drop_first();
        lemma_insert_at_found(rest, prompt, descending);
        let at = insert_at(sorted, prompt, descending);
        assert forall|i: int| 0 <= i < at implies !sorts_before(
            prompt,
            #[trigger] sorted[i],
            descending,
        ) by {
            if i > 0 {
                assert(rest[i - 1] == sorted[i]);
            }
        }
        if at < sorted.len() {
            assert(rest[at - 1] == sorted[at]);
        }
    }
}

/// Sorting gives the same prompts in an order in which none stands behind
/// one that it has to stand before.
pub proof fn lemma_sorted_is_sorted(prompts: Seq<PromptView>, descending: bool)
    ensures
        is_sorted(sorted_by_created(prompts, descending), descending),
        sorted_by_created(prompts, descending).to_multiset() == prompts.to_multiset(),
        sorted_by_created(prompts, descending).len() == prompts.len(),
    decreases prompts.len(),
{
    if prompts.len() > 0 {
        let rest = prompts.drop_last();
        let last = prompts.last();
        lemma_sorted_is_sorted(rest, descending);
        let before = sorted_by_created(rest, descending);
        let at = insert_at(before, last, descending);
        lemma_insert_at_found(before, last, descending);
        let after = before.insert(at, last);
        before.insert_ensures(at, last);
        to_multiset_insert(before, at, last);
        assert(prompts =~= rest.push(last));
        to_multiset_build(rest, last);
        assert forall|i: int, j: int| 0 <= i < j < after.len() implies !sorts_before(
            #[trigger] after[j],
            #[trigger] after[i],
            descending,
        ) by {
            if j < at {
                assert(after[i] == before[i] && after[j] == before[j]);
            } else if j == at {
                assert(after[i] == before[i]);
            } else if i < at {
                assert(after[i] == before[i]);
                assert(after[j] == before[j - 1]);
            } else if i == at {
                assert(after[j] == before[j - 1]);
                lemma_sort_order(before[j - 1], last, before[at], descending);
                lemma_sort_order(last, before[at], last, descending);
            } else {
                assert(after[i] == before[i - 1]);
                assert(after[j] == before[j - 1]);
            }
        }
    } else {
        assert(sorted_by_created(prompts, descending) =~= prompts);
    }
}

} // verus!
