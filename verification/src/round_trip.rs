//! What is written into the block of a body is what is read from it.
//!
//! The law of this module relates `with_block` and `block_content`; the
//! lemmas before it say how the lines of a text behave when the text is
//! taken apart and put together.

use vstd::prelude::*;
use crate::fence::{
    appended_block, block_content, block_end, block_lines, closes_block, closing_index,
    fence_mark, fence_of, has_closed_block, inside_end, inside_start, lemma_closing_index_is,
    lemma_opening_index_is, opening_index, opens_block, with_block, Fence,
};
use crate::text::{
    fed, has_char, has_prefix, has_sub, is_space, join_of, lemma_join_of_lines,
    lemma_leading_space, lemma_line_end_bounds, lemma_line_end_is, lemma_line_start,
    lemma_line_starts_grow,
    lemma_lines_concat, lemma_lines_hold_no_feed, lemma_lines_of_joined_feed,
    lemma_lines_of_one_line, lemma_lines_with_final_feed, lemma_trailing_space, line_end,
    lines_of, occurs_at, strip_cr, stripped, trim_end_of, trim_start_of,
};

verus! {

/// Whether `mark` can begin a line after white space: it is not empty and
/// holds no white space.
pub open spec fn is_mark(mark: Seq<char>) -> bool {
    mark.len() > 0 && forall|j: int| 0 <= j < mark.len() ==> !is_space(#[trigger] mark[j])
}

/// No line opens a block.
pub open spec fn no_line_opens(lines: Seq<Seq<char>>) -> bool {
    forall|i: int| 0 <= i < lines.len() ==> !opens_block(#[trigger] lines[i])
}

/// Where the search for an opening line ends: at the first opening line, or
/// behind the last line.
pub proof fn lemma_opening_index_found(lines: Seq<Seq<char>>, from: int)
    requires
        0 <= from <= lines.len(),
    ensures
        from <= opening_index(lines, from) <= lines.len(),
        forall|j: int| from <= j < opening_index(lines, from) ==> !opens_block(#[trigger] lines[j]),
        opening_index(lines, from) < lines.len() ==> opens_block(
            lines[opening_index(lines, from)],
        ),
    decreases lines.len() - from,
{
    if from < lines.len() && !opens_block(lines[from]) {
        lemma_opening_index_found(lines, from + 1);
    }
}

/// Where the search for a closing line ends: at the first closing line, or
/// behind the last line.
pub proof fn lemma_closing_index_found(lines: Seq<Seq<char>>, from: int, f: Fence)
    requires
        0 <= from <= lines.len(),
    ensures
        from <= closing_index(lines, from, f) <= lines.len(),
        forall|j: int|
            from <= j < closing_index(lines, from, f) ==> !closes_block(#[trigger] lines[j], f),
        closing_index(lines, from, f) < lines.len() ==> closes_block(
            lines[closing_index(lines, from, f)],
            f,
        ),
    decreases lines.len() - from,
{
    if from < lines.len() && !closes_block(lines[from], f) {
        lemma_closing_index_found(lines, from + 1, f);
    }
}

/// A line begins with a mark after white space exactly if it does so
/// without its trailing carriage return.
pub proof fn lemma_mark_survives_cr(x: Seq<char>, mark: Seq<char>)
    requires
        is_mark(mark),
    ensures
        has_prefix(trim_start_of(strip_cr(x)), mark) == has_prefix(trim_start_of(x), mark),
{
    if x.len() > 0 && x.last() == '\r' {
        let y = x.drop_last();
        let a = lemma_leading_space(x);
        let b = lemma_leading_space(y);
        assert(is_space('\r'));
        if a == x.len() {
            assert forall|j: int| 0 <= j < y.len() implies is_space(#[trigger] y[j]) by {
                assert(y[j] == x[j]);
            }
            if b < y.len() {
                assert(is_space(y[b]));
            }
            assert(trim_start_of(x).len() == 0);
            assert(trim_start_of(y).len() == 0);
        } else {
            assert(!is_space(x[a]));
            assert(a < x.len() - 1);
            if b < a {
                assert(y[b] == x[b]);
            }
            if a < b {
                assert(y[a] == x[a]);
            }
            assert(a == b);
            let t = trim_start_of(x);
            let u = trim_start_of(y);
            assert(u =~= t.drop_last());
            assert(t.last() == '\r');
            if has_prefix(t, mark) {
                if t.len() == mark.len() {
                    assert(t.subrange(0, mark.len() as int) =~= t);
                    assert(mark[mark.len() - 1] == '\r');
                }
                assert(u.subrange(0, mark.len() as int) =~= t.subrange(0, mark.len() as int));
            }
            if has_prefix(u, mark) {
                assert(u.subrange(0, mark.len() as int) =~= t.subrange(0, mark.len() as int));
            }
        }
    }
}

/// A line whose beginning begins with a mark after white space does so
/// itself.
pub proof fn lemma_mark_in_prefix(x: Seq<char>, k: int, mark: Seq<char>)
    requires
        is_mark(mark),
        0 <= k <= x.len(),
        has_prefix(trim_start_of(x.take(k)), mark),
    ensures
        has_prefix(trim_start_of(x), mark),
{
    let y = x.take(k);
    let a = lemma_leading_space(x);
    let b = lemma_leading_space(y);
    let u = trim_start_of(y);
    assert(u.subrange(0, mark.len() as int)[0] == u[0]);
    assert(!is_space(mark[0]));
    assert(b < y.len());
    assert(u[0] == y[b]);
    assert(y[b] == x[b]);
    if a < b {
        assert(y[a] == x[a]);
    }
    assert(a == b);
    let t = trim_start_of(x);
    assert(t.subrange(0, mark.len() as int) =~= u.subrange(0, mark.len() as int));
}

/// The marks of the fences hold no white space.
pub proof fn lemma_fence_marks()
    ensures
        is_mark("```prompt"@),
        is_mark("~~~prompt"@),
        is_mark("```"@),
        is_mark("~~~"@),
        "```"@.len() == 3,
        "~~~"@.len() == 3,
        "```prompt"@.subrange(0, 3) == "```"@,
        "~~~prompt"@.subrange(0, 3) == "~~~"@,
        "```"@ != "~~~"@,
{
    reveal_strlit("```prompt");
    reveal_strlit("~~~prompt");
    reveal_strlit("```");
    reveal_strlit("~~~");
    assert("```prompt"@.subrange(0, 3) =~= "```"@);
    assert("~~~prompt"@.subrange(0, 3) =~= "~~~"@);
    assert("```"@[0] != "~~~"@[0]);
}

/// Whether a line opens or closes a block, and with which fence, does not
/// depend on a trailing carriage return.
pub proof fn lemma_fences_survive_cr(x: Seq<char>)
    ensures
        opens_block(strip_cr(x)) == opens_block(x),
        fence_of(strip_cr(x)) == fence_of(x),
        forall|f: Fence| closes_block(strip_cr(x), f) == closes_block(x, f),
{
    lemma_fence_marks();
    lemma_mark_survives_cr(x, "```prompt"@);
    lemma_mark_survives_cr(x, "~~~prompt"@);
    lemma_mark_survives_cr(x, "```"@);
    lemma_mark_survives_cr(x, "~~~"@);
}

/// A line whose beginning opens a block opens a block.
pub proof fn lemma_opening_in_prefix(x: Seq<char>, k: int)
    requires
        0 <= k <= x.len(),
        opens_block(x.take(k)),
    ensures
        opens_block(x),
{
    lemma_fence_marks();
    if has_prefix(trim_start_of(x.take(k)), "```prompt"@) {
        lemma_mark_in_prefix(x, k, "```prompt"@);
    } else {
        lemma_mark_in_prefix(x, k, "~~~prompt"@);
    }
}

/// Each line of a text stands in the text.
pub proof fn lemma_line_is_in_text(s: Seq<char>, i: int) -> (start: int)
    requires
        0 <= i < lines_of(s).len(),
    ensures
        0 <= start,
        start + lines_of(s)[i].len() <= s.len(),
        s.subrange(start, start + lines_of(s)[i].len()) == lines_of(s)[i],
    decreases s.len(),
{
    lemma_line_end_bounds(s);
    let k = line_end(s) as int;
    if k >= s.len() {
        assert(s.subrange(0, s.len() as int) =~= s);
        0
    } else if i == 0 {
        let first = strip_cr(s.take(k));
        assert(s.subrange(0, first.len() as int) =~= first);
        0
    } else {
        let rest = s.skip(k + 1);
        assert(lines_of(s)[i] == lines_of(rest)[i - 1]);
        let start = lemma_line_is_in_text(rest, i - 1);
        let n = lines_of(s)[i].len() as int;
        assert(s.subrange(k + 1 + start, k + 1 + start + n) =~= rest.subrange(start, start + n));
        k + 1 + start
    }
}

/// A text of which a line begins with a mark after white space holds that
/// mark.
pub proof fn lemma_marked_line_marks_text(s: Seq<char>, i: int, mark: Seq<char>)
    requires
        0 <= i < lines_of(s).len(),
        has_prefix(trim_start_of(lines_of(s)[i]), mark),
    ensures
        has_sub(s, mark),
{
    let line = lines_of(s)[i];
    let start = lemma_line_is_in_text(s, i);
    let a = lemma_leading_space(line);
    let t = trim_start_of(line);
    assert(t.subrange(0, mark.len() as int) =~= line.subrange(a, a + mark.len()));
    assert(line.subrange(a, a + mark.len()) =~= s.subrange(
        start + a,
        start + a + mark.len(),
    ));
    assert(occurs_at(s, mark, start + a));
}


/// A line of a text holds no character that the text does not hold.
pub proof fn lemma_line_chars_are_in_text(s: Seq<char>, i: int, c: char)
    requires
        0 <= i < lines_of(s).len(),
        !has_char(s, c),
    ensures
        !has_char(lines_of(s)[i], c),
{
    let line = lines_of(s)[i];
    let start = lemma_line_is_in_text(s, i);
    if has_char(line, c) {
        let j = choose|j: int| 0 <= j < line.len() && line[j] == c;
        assert(s.subrange(start, start + line.len())[j] == s[start + j]);
    }
}

/// The beginning of a text opens no block that the text does not open.
pub proof fn lemma_prefix_opens_nothing_new(s: Seq<char>, k: int)
    requires
        no_line_opens(lines_of(s)),
        0 <= k <= s.len(),
    ensures
        no_line_opens(lines_of(s.take(k))),
    decreases s.len(),
{
    let p = s.take(k);
    if k > 0 {
        lemma_line_end_bounds(s);
        let k0 = line_end(s) as int;
        if k <= k0 {
            assert(!has_char(p, '\n')) by {
                if has_char(p, '\n') {
                    let j = choose|j: int| 0 <= j < p.len() && p[j] == '\n';
                    assert(p[j] == s[j]);
                }
            }
            lemma_lines_of_one_line(p);
            if opens_block(p) {
                if k0 >= s.len() {
                    lemma_opening_in_prefix(s, k);
                    assert(lines_of(s)[0] == s);
                } else {
                    let raw = s.take(k0);
                    assert(raw.take(k) =~= p);
                    lemma_opening_in_prefix(raw, k);
                    lemma_fences_survive_cr(raw);
                    assert(lines_of(s)[0] == strip_cr(raw));
                }
            }
        } else {
            let rest = s.skip(k0 + 1);
            assert forall|j: int| 0 <= j < k0 implies #[trigger] p[j] != '\n' by {
                assert(p[j] == s[j]);
            }
            assert(p[k0] == s[k0]);
            lemma_line_end_is(p, k0);
            assert(p.take(k0) =~= s.take(k0));
            assert(p.skip(k0 + 1) =~= rest.take(k - k0 - 1));
            assert forall|i: int| 0 <= i < lines_of(rest).len() implies !opens_block(
                #[trigger] lines_of(rest)[i],
            ) by {
                assert(lines_of(s)[i + 1] == lines_of(rest)[i]);
            }
            lemma_prefix_opens_nothing_new(rest, k - k0 - 1);
            assert forall|i: int| 0 <= i < lines_of(p).len() implies !opens_block(
                #[trigger] lines_of(p)[i],
            ) by {
                if i == 0 {
                    assert(lines_of(p)[0] == lines_of(s)[0]);
                } else {
                    assert(lines_of(p)[i] == lines_of(rest.take(k - k0 - 1))[i - 1]);
                }
            }
        }
    }
}

/// The lines of a body whose closed block was given a new content: the
/// lines up to the opening line, the lines of the content, each without a
/// trailing carriage return, and the lines from the closing line on. No
/// other line changes, and no other block is touched.
pub proof fn lemma_spliced_lines(body: Seq<char>, content: Seq<char>)
    requires
        has_closed_block(body),
    ensures
        opening_index(lines_of(body), 0) < block_end(lines_of(body)) < lines_of(body).len(),
        lines_of(with_block(body, content)) == lines_of(body).take(
            opening_index(lines_of(body), 0) + 1,
        ) + stripped(lines_of(content)) + lines_of(body).skip(block_end(lines_of(body))),
{
    let old_lines = lines_of(body);
    let s = opening_index(old_lines, 0);
    let e = block_end(old_lines);
    let f = fence_of(old_lines[s]);
    lemma_opening_index_found(old_lines, 0);
    lemma_closing_index_found(old_lines, s + 1, f);
    lemma_line_start(body, (s + 1) as nat);
    lemma_line_start(body, e as nat);
    let from = inside_start(body);
    let to = inside_end(body);
    let inner = lines_of(content);
    lemma_lines_hold_no_feed(content);
    let head = body.take(from);
    let mid = fed(inner);
    let tail = body.skip(to);
    assert(head.last() == body[from - 1]);
    assert(with_block(body, content) =~= head + (mid + tail));
    lemma_lines_concat(head, mid + tail);
    if inner.len() == 0 {
        assert(mid + tail =~= tail);
        assert(stripped(inner) =~= Seq::<Seq<char>>::empty());
        assert(lines_of(mid + tail) =~= stripped(inner) + lines_of(tail));
    } else {
        lemma_lines_of_joined_feed(inner);
        assert(mid.last() == '\n');
        lemma_lines_concat(mid, tail);
    }
    assert(lines_of(with_block(body, content)) =~= old_lines.take(s + 1) + stripped(inner)
        + old_lines.skip(e));
}

/// Writing a content into a closed block keeps all text outside the block:
/// the result begins with the body up to the line feed that ends the
/// opening line and ends with the body from the closing line on, character
/// for character; between them stand the lines of the content.
pub proof fn lemma_outside_of_block_is_kept(body: Seq<char>, content: Seq<char>)
    requires
        has_closed_block(body),
    ensures
        0 < inside_start(body) <= inside_end(body) < body.len(),
        body[inside_start(body) - 1] == '\n',
        with_block(body, content).take(inside_start(body)) == body.take(inside_start(body)),
        with_block(body, content).skip(inside_start(body) + fed(lines_of(content)).len())
            == body.skip(inside_end(body)),
{
    let old_lines = lines_of(body);
    let s = opening_index(old_lines, 0);
    let f = fence_of(old_lines[s]);
    lemma_opening_index_found(old_lines, 0);
    lemma_closing_index_found(old_lines, s + 1, f);
    lemma_line_start(body, (s + 1) as nat);
    lemma_line_start(body, block_end(old_lines) as nat);
    lemma_line_starts_grow(body, (s + 1) as nat, block_end(old_lines) as nat);
    let from = inside_start(body);
    let mid = fed(lines_of(content));
    let text = with_block(body, content);
    assert(text.take(from) =~= body.take(from));
    assert(text.skip(from + mid.len()) =~= body.skip(inside_end(body)));
}

/// What is read from a body whose closed block was given a new content: the
/// lines of that content, each without a trailing carriage return, joined.
pub proof fn lemma_replaced_block_is_read(body: Seq<char>, content: Seq<char>)
    requires
        has_closed_block(body),
        !has_sub(content, "```"@),
        !has_sub(content, "~~~"@),
    ensures
        block_content(with_block(body, content)) == join_of(stripped(lines_of(content))),
{
    let old_lines = lines_of(body);
    let s = opening_index(old_lines, 0);
    let e = block_end(old_lines);
    let f = fence_of(old_lines[s]);
    let inner = lines_of(content);
    lemma_opening_index_found(old_lines, 0);
    lemma_closing_index_found(old_lines, s + 1, f);
    lemma_fence_marks();
    lemma_spliced_lines(body, content);
    let read = lines_of(with_block(body, content));
    let close_at = s + 1 + inner.len();
    assert forall|j: int| 0 <= j < s implies !opens_block(#[trigger] read[j]) by {
        assert(read[j] == old_lines[j]);
    }
    assert(read[s] == old_lines[s]);
    lemma_opening_index_is(read, 0, s);
    assert forall|j: int| s + 1 <= j < close_at implies !closes_block(#[trigger] read[j], f) by {
        let line = inner[j - s - 1];
        assert(read[j] == strip_cr(line));
        lemma_fences_survive_cr(line);
        if closes_block(line, f) {
            lemma_marked_line_marks_text(content, j - s - 1, fence_mark(f));
        }
    }
    assert(read[close_at] == old_lines[e]);
    lemma_closing_index_is(read, s + 1, f, close_at);
    assert(block_end(read) == close_at);
    assert(block_lines(read) =~= stripped(inner)) by {
        assert forall|j: int| 0 <= j < inner.len() implies read.subrange(s + 1, close_at)[j]
            == strip_cr(inner[j]) by {
            assert(read[s + 1 + j] == strip_cr(inner[j]));
        }
    }
}

/// Whether a content is written in plain lines: it holds no carriage return
/// and does not end with a line feed.
pub open spec fn is_plain(content: Seq<char>) -> bool {
    !has_char(content, '\r') && (content.len() == 0 || content.last() != '\n')
}

/// A mark holds no line feed.
pub proof fn lemma_mark_holds_no_feed(mark: Seq<char>)
    requires
        is_mark(mark),
    ensures
        !has_char(mark, '\n'),
        mark.last() != '\r',
        trim_start_of(mark) == mark,
{
    assert(is_space('\n') && is_space('\r'));
    assert(mark.last() == mark[mark.len() - 1]);
    assert(!is_space(mark[0]));
}

/// A mark that stands in a text with a line feed behind it stands in the
/// text.
pub proof fn lemma_mark_is_before_feed(content: Seq<char>, mark: Seq<char>)
    requires
        is_mark(mark),
        has_sub(content + seq!['\n'], mark),
    ensures
        has_sub(content, mark),
{
    let fed = content + seq!['\n'];
    let i = choose|i: int| occurs_at(fed, mark, i);
    assert(is_space('\n'));
    if i + mark.len() > content.len() {
        assert(fed.subrange(i, i + mark.len())[mark.len() - 1] == fed[content.len() as int]);
        assert(mark[mark.len() - 1] == '\n');
    }
    assert(content.subrange(i, i + mark.len()) =~= fed.subrange(i, i + mark.len()));
    assert(occurs_at(content, mark, i));
}

/// What is read from a body that opened no block and was given a new one:
/// the lines of the content as they stand before the closing fence, joined.
pub proof fn lemma_appended_block_is_read(body: Seq<char>, content: Seq<char>)
    requires
        no_line_opens(lines_of(body)),
        !has_sub(content, "```"@),
    ensures
        block_content(appended_block(body, content)) == join_of(lines_of(content + seq!['\n'])),
{
    reveal_strlit("\n\n");
    reveal_strlit("```prompt\n");
    reveal_strlit("\n```\n");
    reveal_strlit("```prompt");
    reveal_strlit("```");
    reveal_strlit("~~~");
    lemma_fence_marks();
    let nl = seq!['\n'];
    let open = "```prompt"@;
    let close = "```"@;
    let none = Seq::<char>::empty();
    assert("```prompt\n"@ =~= open + nl);
    assert("\n```\n"@ =~= nl + close + nl);
    assert("\n\n"@ =~= nl + nl);
    lemma_mark_holds_no_feed(open);
    lemma_mark_holds_no_feed(close);
    assert(is_space('\n') && is_space('\r'));

    let inner = lines_of(content + nl);
    assert forall|j: int| 0 <= j < inner.len() implies !closes_block(
        #[trigger] inner[j],
        Fence::Backtick,
    ) by {
        if closes_block(inner[j], Fence::Backtick) {
            lemma_marked_line_marks_text(content + nl, j, close);
            lemma_mark_is_before_feed(content, close);
        }
    }

    lemma_lines_of_one_line(open);
    lemma_lines_of_one_line(close);
    assert(strip_cr(open) == open);
    assert(strip_cr(close) == close);
    let last_part = (content + nl) + (close + nl);
    lemma_lines_concat(content + nl, close + nl);
    let tail = (open + nl) + last_part;
    lemma_lines_concat(open + nl, last_part);
    assert(lines_of(tail) =~= seq![open] + inner + seq![close]);

    let head = trim_end_of(body);
    let k = lemma_trailing_space(body);
    lemma_prefix_opens_nothing_new(body, k);
    let before = if head.len() > 0 {
        lines_of(head) + seq![none]
    } else {
        Seq::<Seq<char>>::empty()
    };
    let text = appended_block(body, content);
    if head.len() > 0 {
        assert(head.last() == body[k - 1]);
        lemma_lines_with_final_feed(head);
        assert(none + nl =~= nl);
        lemma_lines_of_one_line(none);
        lemma_lines_concat(head + nl, nl);
        lemma_lines_concat(head + nl + nl, tail);
        assert(text =~= (head + nl + nl) + tail);
    } else {
        assert(text =~= tail);
    }
    let read = lines_of(text);
    assert(read =~= before + seq![open] + inner + seq![close]);
    let s = before.len() as int;
    let close_at = s + 1 + inner.len();
    assert(trim_start_of(none) == none);
    assert forall|j: int| 0 <= j < s implies !opens_block(#[trigger] read[j]) by {
        if j < s - 1 {
            assert(read[j] == lines_of(head)[j]);
        } else {
            assert(read[j] == none);
        }
    }
    assert(read[s] == open);
    assert(open.subrange(0, 9) =~= open);
    assert(opens_block(open));
    lemma_opening_index_is(read, 0, s);
    assert(fence_of(open) == Fence::Backtick) by {
        if has_prefix(open, "~~~"@) {
            assert(open.subrange(0, 3)[0] == open[0]);
        }
    }
    assert forall|j: int| s + 1 <= j < close_at implies !closes_block(
        #[trigger] read[j],
        Fence::Backtick,
    ) by {
        assert(read[j] == inner[j - s - 1]);
    }
    assert(read[close_at] == close);
    assert(close.subrange(0, 3) =~= close);
    assert(closes_block(close, Fence::Backtick));
    lemma_closing_index_is(read, s + 1, Fence::Backtick, close_at);
    assert(block_lines(read) =~= inner);
}

/// What is read from a body after `content` was written into its block. In
/// a closed block the content stands line by line, and each line loses a
/// trailing carriage return; in an appended block it stands as it is, with
/// a line feed behind it.
pub open spec fn read_back(body: Seq<char>, content: Seq<char>) -> Seq<char> {
    if has_closed_block(body) {
        join_of(stripped(lines_of(content)))
    } else {
        join_of(lines_of(content + seq!['\n']))
    }
}

/// What is read from a body after a content without a fence was written
/// into its block, for a body whose block is closed or that opens no block.
///
/// A body with a block that is opened and never closed is left out: it keeps
/// that block and gets a new one at its end, so that reading finds the old
/// one.
pub proof fn lemma_block_round_trip(body: Seq<char>, content: Seq<char>)
    requires
        !has_sub(content, "```"@),
        !has_sub(content, "~~~"@),
        has_closed_block(body) || no_line_opens(lines_of(body)),
    ensures
        block_content(with_block(body, content)) == read_back(body, content),
{
    if has_closed_block(body) {
        lemma_replaced_block_is_read(body, content);
    } else {
        lemma_appended_block_is_read(body, content);
    }
}

/// A plain content is read back as it is.
pub proof fn lemma_plain_content_is_kept(body: Seq<char>, content: Seq<char>)
    requires
        is_plain(content),
    ensures
        read_back(body, content) == content,
{
    let nl = seq!['\n'];
    let none = Seq::<char>::empty();
    let inner = lines_of(content);
    assert(stripped(inner) =~= inner) by {
        assert forall|i: int| 0 <= i < inner.len() implies strip_cr(#[trigger] inner[i])
            == inner[i] by {
            lemma_line_chars_are_in_text(content, i, '\r');
            if inner[i].len() > 0 && inner[i].last() == '\r' {
                assert(inner[i][inner[i].len() - 1] == '\r');
            }
        }
    }
    lemma_join_of_lines(content);
    if content.len() == 0 {
        assert(content + nl =~= none + nl);
        lemma_lines_of_one_line(none);
        assert(lines_of(content + nl) =~= seq![none]);
        assert(join_of(lines_of(content + nl)) =~= content);
    } else {
        lemma_lines_with_final_feed(content);
    }
}

/// What is written into the block of a body is what is read from it: the
/// content of `with_block(body, content)` is `content`, for a plain content
/// without a fence and a body whose block is closed or that opens no
/// block.
pub proof fn lemma_written_content_is_read(body: Seq<char>, content: Seq<char>)
    requires
        !has_sub(content, "```"@),
        !has_sub(content, "~~~"@),
        is_plain(content),
        has_closed_block(body) || no_line_opens(lines_of(body)),
    ensures
        block_content(with_block(body, content)) == content,
{
    lemma_block_round_trip(body, content);
    lemma_plain_content_is_kept(body, content);
}

} // verus!
