//! The fenced content block of a prompt file's body.
//!
//! A body holds at most one block that counts: it opens at the first line
//! that, after leading white space, begins with the fence and the word
//! `prompt`, and closes at the next line that begins with the same fence.

use vstd::prelude::*;
use crate::text::{
    chars_of, fed, has_prefix, join_lines, join_of, line_start, line_starts, lines_of, push_all,
    rows, slice_of, split_lines, starts_with, string_of, trim_end, trim_end_of, trim_start,
    trim_start_of,
};

verus! {

/// The two delimiters that can fence a block.
#[derive(Clone, Copy, Debug)]
pub enum Fence {
    Backtick,
    Tilde,
}

/// The three characters of a fence.
pub open spec fn fence_mark(f: Fence) -> Seq<char> {
    match f {
        Fence::Backtick => "```"@,
        Fence::Tilde => "~~~"@,
    }
}

/// Whether `line` opens a prompt block.
pub open spec fn opens_block(line: Seq<char>) -> bool {
    let t = trim_start_of(line);
    has_prefix(t, "```prompt"@) || has_prefix(t, "~~~prompt"@)
}

/// The fence that an opening line uses.
pub open spec fn fence_of(line: Seq<char>) -> Fence {
    if has_prefix(trim_start_of(line), "~~~"@) {
        Fence::Tilde
    } else {
        Fence::Backtick
    }
}

/// Whether `line` closes a block opened with the fence `f`.
pub open spec fn closes_block(line: Seq<char>, f: Fence) -> bool {
    has_prefix(trim_start_of(line), fence_mark(f))
}

/// Index of the first opening line at or after `from`, or the number of
/// lines where there is none.
pub open spec fn opening_index(lines: Seq<Seq<char>>, from: int) -> int
    decreases lines.len() - from,
{
    if from >= lines.len() {
        lines.len() as int
    } else if from >= 0 && opens_block(lines[from]) {
        from
    } else {
        opening_index(lines, from + 1)
    }
}

/// Index of the first line at or after `from` that closes a block fenced
/// with `f`, or the number of lines where there is none.
pub open spec fn closing_index(lines: Seq<Seq<char>>, from: int, f: Fence) -> int
    decreases lines.len() - from,
{
    if from >= lines.len() {
        lines.len() as int
    } else if from >= 0 && closes_block(lines[from], f) {
        from
    } else {
        closing_index(lines, from + 1, f)
    }
}

/// Where the block of `lines` closes: the number of lines where no block
/// opens or the open block is never closed.
pub open spec fn block_end(lines: Seq<Seq<char>>) -> int {
    let s = opening_index(lines, 0);
    if s < lines.len() {
        closing_index(lines, s + 1, fence_of(lines[s]))
    } else {
        lines.len() as int
    }
}

/// The lines inside the block: those after the opening line up to the
/// closing line, or to the end where the block is never closed; none where
/// no block opens.
pub open spec fn block_lines(lines: Seq<Seq<char>>) -> Seq<Seq<char>> {
    let s = opening_index(lines, 0);
    if s < lines.len() {
        lines.subrange(s + 1, block_end(lines))
    } else {
        Seq::empty()
    }
}

/// The content that a prompt file's body holds.
pub open spec fn block_content(markdown: Seq<char>) -> Seq<char> {
    join_of(block_lines(lines_of(markdown)))
}

/// Whether `body` holds a block that is opened and closed.
pub open spec fn has_closed_block(body: Seq<char>) -> bool {
    let lines = lines_of(body);
    opening_index(lines, 0) < lines.len() && block_end(lines) < lines.len()
}

/// A new block that holds `content`, appended to what `body` holds before
/// its trailing white space.
pub open spec fn appended_block(body: Seq<char>, content: Seq<char>) -> Seq<char> {
    let head = trim_end_of(body);
    let sep = if head.len() > 0 {
        "\n\n"@
    } else {
        Seq::empty()
    };
    head + sep + "```prompt\n"@ + content + "\n```\n"@
}

/// Where the inside of a closed block begins: just behind the line feed that
/// ends the opening line.
pub open spec fn inside_start(body: Seq<char>) -> int {
    line_start(body, (opening_index(lines_of(body), 0) + 1) as nat)
}

/// Where the inside of a closed block ends: where the closing line begins.
pub open spec fn inside_end(body: Seq<char>) -> int {
    line_start(body, block_end(lines_of(body)) as nat)
}

/// `body` with `content` as the content of its block. In a body with a
/// closed block, what stands between the opening line and the closing line
/// is replaced by the lines of `content`, each with a line feed behind it;
/// all text up to the end of the opening line and from the closing line on
/// stays character for character. A body without a closed block gets a new
/// block at its end.
pub open spec fn with_block(body: Seq<char>, content: Seq<char>) -> Seq<char> {
    if has_closed_block(body) {
        body.take(inside_start(body)) + fed(lines_of(content)) + body.skip(inside_end(body))
    } else {
        appended_block(body, content)
    }
}

/// The search for an opening line ends at `k` when no line from `from` up
/// to `k` opens a block and the line at `k` does, or `k` is the number of
/// lines.
pub proof fn lemma_opening_index_is(lines: Seq<Seq<char>>, from: int, k: int)
    requires
        0 <= from <= k <= lines.len(),
        forall|j: int| from <= j < k ==> !opens_block(#[trigger] lines[j]),
        k < lines.len() ==> opens_block(lines[k]),
    ensures
        opening_index(lines, from) == k,
    decreases k - from,
{
    if from < k {
        lemma_opening_index_is(lines, from + 1, k);
    }
}

/// The search for a closing line ends at `k` when no line from `from` up
/// to `k` closes the block and the line at `k` does, or `k` is the number
/// of lines.
pub proof fn lemma_closing_index_is(lines: Seq<Seq<char>>, from: int, f: Fence, k: int)
    requires
        0 <= from <= k <= lines.len(),
        forall|j: int| from <= j < k ==> !closes_block(#[trigger] lines[j], f),
        k < lines.len() ==> closes_block(lines[k], f),
    ensures
        closing_index(lines, from, f) == k,
    decreases k - from,
{
    if from < k {
        lemma_closing_index_is(lines, from + 1, f, k);
    }
}

fn line_opens(line: &Vec<char>) -> (b: bool)
    ensures
        b == opens_block(line@),
{
    let t = trim_start(line);
    starts_with(&t, &chars_of("```prompt")) || starts_with(&t, &chars_of("~~~prompt"))
}

fn line_fence(line: &Vec<char>) -> (f: Fence)
    ensures
        f == fence_of(line@),
{
    let t = trim_start(line);
    if starts_with(&t, &chars_of("~~~")) {
        Fence::Tilde
    } else {
        Fence::Backtick
    }
}

fn line_closes(line: &Vec<char>, f: Fence) -> (b: bool)
    ensures
        b == closes_block(line@, f),
{
    let t = trim_start(line);
    match f {
        Fence::Backtick => starts_with(&t, &chars_of("```")),
        Fence::Tilde => starts_with(&t, &chars_of("~~~")),
    }
}

fn find_opening(lines: &Vec<Vec<char>>) -> (k: usize)
    ensures
        k == opening_index(rows(lines@), 0),
        k <= lines.len(),
{
    let mut k: usize = 0;
    while k < lines.len() && !line_opens(&lines[k])
        invariant
            k <= lines.len(),
            forall|j: int| 0 <= j < k ==> !opens_block(#[trigger] rows(lines@)[j]),
        decreases lines.len() - k,
    {
        k += 1;
    }
    proof {
        lemma_opening_index_is(rows(lines@), 0, k as int);
    }
    k
}

fn find_closing(lines: &Vec<Vec<char>>, from: usize, f: Fence) -> (k: usize)
    requires
        from <= lines.len(),
    ensures
        k == closing_index(rows(lines@), from as int, f),
        from <= k <= lines.len(),
{
    let mut k: usize = from;
    while k < lines.len() && !line_closes(&lines[k], f)
        invariant
            from <= k <= lines.len(),
            forall|j: int| from <= j < k ==> !closes_block(#[trigger] rows(lines@)[j], f),
        decreases lines.len() - k,
    {
        k += 1;
    }
    proof {
        lemma_closing_index_is(rows(lines@), from as int, f, k as int);
    }
    k
}

/// Where the block of `lines` opens and closes.
fn find_block(lines: &Vec<Vec<char>>) -> (r: (usize, usize))
    ensures
        r.0 == opening_index(rows(lines@), 0),
        r.1 == block_end(rows(lines@)),
        r.0 <= lines.len(),
        r.1 <= lines.len(),
        r.0 < lines.len() ==> r.0 < r.1,
{
    let s = find_opening(lines);
    if s < lines.len() {
        let f = line_fence(&lines[s]);
        let e = find_closing(lines, s + 1, f);
        (s, e)
    } else {
        (s, s)
    }
}

/// Appends copies of the rows `from..to` of `src` to `dst`.
fn push_rows(dst: &mut Vec<Vec<char>>, src: &Vec<Vec<char>>, from: usize, to: usize)
    requires
        from <= to <= src.len(),
    ensures
        rows(final(dst)@) == rows(old(dst)@) + rows(src@).subrange(from as int, to as int),
{
    let mut i: usize = from;
    assert(rows(dst@) =~= rows(old(dst)@) + rows(src@).subrange(from as int, i as int));
    while i < to
        invariant
            from <= i <= to,
            to <= src.len(),
            rows(dst@) == rows(old(dst)@) + rows(src@).subrange(from as int, i as int),
        decreases to - i,
    {
        let ghost before = rows(dst@);
        let row = slice_of(&src[i], 0, src[i].len());
        assert(row@ =~= src@[i as int]@);
        dst.push(row);
        i += 1;
        assert(rows(dst@) =~= before + seq![src@[i - 1]@]);
        assert(rows(dst@) =~= rows(old(dst)@) + rows(src@).subrange(from as int, i as int));
    }
}

/// The content of the prompt block of a file's body: its lines joined by
/// line feeds; empty where the body opens no block.
pub fn extract_code_block_content(markdown: &str) -> (content: String)
    ensures
        content@ == block_content(markdown@),
{
    let lines = split_lines(&chars_of(markdown));
    let (s, e) = find_block(&lines);
    let mut inner: Vec<Vec<char>> = Vec::new();
    if s < lines.len() {
        push_rows(&mut inner, &lines, s + 1, e);
    }
    assert(rows(inner@) =~= block_lines(rows(lines@)));
    string_of(&join_lines(&inner))
}

/// The body with `new_content` as the content of its prompt block: what
/// `with_block` states.
pub fn update_prompt_block(body: &str, new_content: &str) -> (updated: String)
    ensures
        updated@ == with_block(body@, new_content@),
{
    let text = chars_of(body);
    let lines = split_lines(&text);
    let (s, e) = find_block(&lines);
    if s < lines.len() && e < lines.len() {
        let starts = line_starts(&text);
        let from = starts[s + 1];
        let to = starts[e];
        let inner = split_lines(&chars_of(new_content));
        let mut out = slice_of(&text, 0, from);
        if inner.len() > 0 {
            push_all(&mut out, &join_lines(&inner));
            out.push('\n');
        }
        push_all(&mut out, &slice_of(&text, to, text.len()));
        assert(out@ =~= with_block(body@, new_content@));
        string_of(&out)
    } else {
        let mut out = trim_end(&text);
        if out.len() > 0 {
            push_all(&mut out, &chars_of("\n\n"));
        }
        push_all(&mut out, &chars_of("```prompt\n"));
        push_all(&mut out, &chars_of(new_content));
        push_all(&mut out, &chars_of("\n```\n"));
        assert(out@ =~= appended_block(body@, new_content@));
        string_of(&out)
    }
}

} // verus!
