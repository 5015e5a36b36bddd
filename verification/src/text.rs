//! Character-sequence primitives on which the codec is built.
//!
//! Text is modelled as `Seq<char>`. The executable functions work on
//! `Vec<char>` and are specified by the spec functions of the same module.

use vstd::prelude::*;

verus! {

/// `String::push` of the standard library: the character is appended to
/// the string.
pub assume_specification[ String::push ](s: &mut String, c: char)
    ensures
        final(s)@ == old(s)@.push(c),
;

/// The characters of a string slice, in order.
pub fn chars_of(s: &str) -> (v: Vec<char>)
    ensures
        v@ == s@,
{
    let mut v: Vec<char> = Vec::new();
    for c in it: s.chars()
        invariant
            v@ == it.seq().take(it.index()),
    {
        v.push(c);
    }
    v
}

/// The string made of the given characters.
pub fn string_of(v: &Vec<char>) -> (s: String)
    ensures
        s@ == v@,
{
    let mut s = String::new();
    let mut i: usize = 0;
    while i < v.len()
        invariant
            i <= v.len(),
            s@ == v@.take(i as int),
        decreases v.len() - i,
    {
        s.push(v[i]);
        i += 1;
        assert(v@.take(i as int) == v@.take(i - 1).push(v@[i - 1]));
    }
    assert(v@.take(v.len() as int) == v@);
    s
}

/// Whether `c` is white space: a code point with the Unicode property
/// `White_Space`.
pub open spec fn is_space(c: char) -> bool {
    let n: u32 = c as u32;
    ||| 0x09 <= n <= 0x0D
    ||| n == 0x20
    ||| n == 0x85
    ||| n == 0xA0
    ||| n == 0x1680
    ||| 0x2000 <= n <= 0x200A
    ||| n == 0x2028
    ||| n == 0x2029
    ||| n == 0x202F
    ||| n == 0x205F
    ||| n == 0x3000
}

/// Whether `c` is white space.
pub fn is_whitespace(c: char) -> (b: bool)
    ensures
        b == is_space(c),
{
    let n: u32 = c as u32;
    (0x09 <= n && n <= 0x0D) || n == 0x20 || n == 0x85 || n == 0xA0 || n == 0x1680 || (0x2000 <= n
        && n <= 0x200A) || n == 0x2028 || n == 0x2029 || n == 0x202F || n == 0x205F || n == 0x3000
}

/// `s` without its leading white space.
pub open spec fn trim_start_of(s: Seq<char>) -> Seq<char>
    decreases s.len(),
{
    if s.len() > 0 && is_space(s[0]) {
        trim_start_of(s.drop_first())
    } else {
        s
    }
}

/// `s` without its trailing white space.
pub open spec fn trim_end_of(s: Seq<char>) -> Seq<char>
    decreases s.len(),
{
    if s.len() > 0 && is_space(s.last()) {
        trim_end_of(s.drop_last())
    } else {
        s
    }
}

/// `s` without leading and trailing white space.
pub open spec fn trim_of(s: Seq<char>) -> Seq<char> {
    trim_end_of(trim_start_of(s))
}

/// `s` without its leading run of the character `c`.
pub open spec fn strip_leading(s: Seq<char>, c: char) -> Seq<char>
    decreases s.len(),
{
    if s.len() > 0 && s[0] == c {
        strip_leading(s.drop_first(), c)
    } else {
        s
    }
}

/// Trimming at the start drops exactly the first `k` characters when these
/// are white space and the next one, if any, is not.
pub proof fn lemma_trim_start_is_skip(s: Seq<char>, k: int)
    requires
        0 <= k <= s.len(),
        forall|j: int| 0 <= j < k ==> is_space(#[trigger] s[j]),
        k < s.len() ==> !is_space(s[k]),
    ensures
        trim_start_of(s) == s.skip(k),
    decreases k,
{
    if k == 0 {
        assert(s.skip(0) =~= s);
    } else {
        let t = s.drop_first();
        assert forall|j: int| 0 <= j < k - 1 implies is_space(#[trigger] t[j]) by {
            assert(t[j] == s[j + 1]);
        }
        lemma_trim_start_is_skip(t, k - 1);
        assert(t.skip(k - 1) =~= s.skip(k));
    }
}

/// Trimming at the end keeps exactly the first `k` characters when all
/// after them are white space and the one before, if any, is not.
pub proof fn lemma_trim_end_is_take(s: Seq<char>, k: int)
    requires
        0 <= k <= s.len(),
        forall|j: int| k <= j < s.len() ==> is_space(#[trigger] s[j]),
        k > 0 ==> !is_space(s[k - 1]),
    ensures
        trim_end_of(s) == s.take(k),
    decreases s.len() - k,
{
    if k == s.len() {
        assert(s.take(k) =~= s);
    } else {
        let t = s.drop_last();
        lemma_trim_end_is_take(t, k);
        assert(t.take(k) =~= s.take(k));
    }
}

/// Stripping a leading run of `c` drops exactly the first `k` characters
/// when these are `c` and the next one, if any, is not.
pub proof fn lemma_strip_leading_is_skip(s: Seq<char>, c: char, k: int)
    requires
        0 <= k <= s.len(),
        forall|j: int| 0 <= j < k ==> #[trigger] s[j] == c,
        k < s.len() ==> s[k] != c,
    ensures
        strip_leading(s, c) == s.skip(k),
    decreases k,
{
    if k == 0 {
        assert(s.skip(0) =~= s);
    } else {
        let t = s.drop_first();
        assert forall|j: int| 0 <= j < k - 1 implies #[trigger] t[j] == c by {
            assert(t[j] == s[j + 1]);
        }
        lemma_strip_leading_is_skip(t, c, k - 1);
        assert(t.skip(k - 1) =~= s.skip(k));
    }
}

/// The characters of `v` from index `from` up to, not including, `to`.
pub fn slice_of(v: &Vec<char>, from: usize, to: usize) -> (r: Vec<char>)
    requires
        from <= to <= v.len(),
    ensures
        r@ == v@.subrange(from as int, to as int),
{
    let mut r: Vec<char> = Vec::new();
    let mut i: usize = from;
    while i < to
        invariant
            from <= i <= to,
            to <= v.len(),
            r@ == v@.subrange(from as int, i as int),
        decreases to - i,
    {
        r.push(v[i]);
        i += 1;
        assert(v@.subrange(from as int, i as int) == v@.subrange(from as int, i - 1).push(
            v@[i - 1],
        ));
    }
    r
}

/// Index of the first character of `v` that is not white space, or the
/// length of `v`.
fn leading_space(v: &Vec<char>) -> (k: usize)
    ensures
        k <= v.len(),
        forall|j: int| 0 <= j < k ==> is_space(#[trigger] v@[j]),
        k < v.len() ==> !is_space(v@[k as int]),
{
    let mut k: usize = 0;
    while k < v.len() && is_whitespace(v[k])
        invariant
            k <= v.len(),
            forall|j: int| 0 <= j < k ==> is_space(#[trigger] v@[j]),
        decreases v.len() - k,
    {
        k += 1;
    }
    k
}

/// Index after the last character of `v[from..]` that is not white space,
/// or `from`.
fn trailing_space(v: &Vec<char>, from: usize) -> (k: usize)
    requires
        from <= v.len(),
    ensures
        from <= k <= v.len(),
        forall|j: int| k <= j < v.len() ==> is_space(#[trigger] v@[j]),
        k > from ==> !is_space(v@[k - 1]),
{
    let mut k: usize = v.len();
    while k > from && is_whitespace(v[k - 1])
        invariant
            from <= k <= v.len(),
            forall|j: int| k <= j < v.len() ==> is_space(#[trigger] v@[j]),
        decreases k,
    {
        k -= 1;
    }
    k
}

/// `v` without its leading white space.
pub fn trim_start(v: &Vec<char>) -> (r: Vec<char>)
    ensures
        r@ == trim_start_of(v@),
{
    let k = leading_space(v);
    proof {
        lemma_trim_start_is_skip(v@, k as int);
    }
    slice_of(v, k, v.len())
}

/// `v` without its trailing white space.
pub fn trim_end(v: &Vec<char>) -> (r: Vec<char>)
    ensures
        r@ == trim_end_of(v@),
{
    let k = trailing_space(v, 0);
    proof {
        lemma_trim_end_is_take(v@, k as int);
    }
    slice_of(v, 0, k)
}

/// `v` without leading and trailing white space.
pub fn trim(v: &Vec<char>) -> (r: Vec<char>)
    ensures
        r@ == trim_of(v@),
{
    let a = leading_space(v);
    let b = trailing_space(v, a);
    proof {
        lemma_trim_start_is_skip(v@, a as int);
        let t = v@.skip(a as int);
        assert forall|j: int| b - a <= j < t.len() implies is_space(#[trigger] t[j]) by {
            assert(t[j] == v@[j + a]);
        }
        lemma_trim_end_is_take(t, b - a);
        assert(t.take(b - a) =~= v@.subrange(a as int, b as int));
    }
    slice_of(v, a, b)
}

/// `v` without its leading run of the character `c`.
pub fn trim_start_matches(v: &Vec<char>, c: char) -> (r: Vec<char>)
    ensures
        r@ == strip_leading(v@, c),
{
    let mut k: usize = 0;
    while k < v.len() && v[k] == c
        invariant
            k <= v.len(),
            forall|j: int| 0 <= j < k ==> #[trigger] v@[j] == c,
        decreases v.len() - k,
    {
        k += 1;
    }
    proof {
        lemma_strip_leading_is_skip(v@, c, k as int);
    }
    slice_of(v, k, v.len())
}


/// Appends the characters of `src` to `dst`.
pub fn push_all(dst: &mut Vec<char>, src: &Vec<char>)
    ensures
        final(dst)@ == old(dst)@ + src@,
{
    let mut i: usize = 0;
    while i < src.len()
        invariant
            i <= src.len(),
            dst@ == old(dst)@ + src@.take(i as int),
        decreases src.len() - i,
    {
        dst.push(src[i]);
        i += 1;
        assert(src@.take(i as int) == src@.take(i - 1).push(src@[i - 1]));
    }
    assert(src@.take(src.len() as int) == src@);
}

/// Whether `p` stands in `s` at index `i`.
pub open spec fn occurs_at(s: Seq<char>, p: Seq<char>, i: int) -> bool {
    0 <= i && i + p.len() <= s.len() && s.subrange(i, i + p.len()) == p
}

/// Whether `p` stands somewhere in `s`.
pub open spec fn has_sub(s: Seq<char>, p: Seq<char>) -> bool {
    exists|i: int| occurs_at(s, p, i)
}

/// Whether `s` begins with `p`.
pub open spec fn has_prefix(s: Seq<char>, p: Seq<char>) -> bool {
    occurs_at(s, p, 0)
}

/// Whether `s` ends with `p`.
pub open spec fn has_suffix(s: Seq<char>, p: Seq<char>) -> bool {
    occurs_at(s, p, s.len() - p.len())
}

/// Whether the character `c` stands somewhere in `s`.
pub open spec fn has_char(s: Seq<char>, c: char) -> bool {
    exists|i: int| 0 <= i < s.len() && s[i] == c
}

/// Whether `p` stands in `v` at index `i`.
pub fn matches_at(v: &Vec<char>, p: &Vec<char>, i: usize) -> (b: bool)
    ensures
        b == occurs_at(v@, p@, i as int),
{
    if i > v.len() || p.len() > v.len() - i {
        return false;
    }
    let mut j: usize = 0;
    while j < p.len()
        invariant
            j <= p.len(),
            i + p.len() <= v.len(),
            forall|k: int| 0 <= k < j ==> v@[i + k] == p@[k],
        decreases p.len() - j,
    {
        if v[i + j] != p[j] {
            proof {
                assert(v@.subrange(i as int, i + p.len())[j as int] == v@[i + j]);
            }
            return false;
        }
        j += 1;
    }
    assert(v@.subrange(i as int, i + p.len()) =~= p@);
    true
}

/// Whether `v` begins with `p`.
pub fn starts_with(v: &Vec<char>, p: &Vec<char>) -> (b: bool)
    ensures
        b == has_prefix(v@, p@),
{
    matches_at(v, p, 0)
}

/// Whether `v` ends with `p`.
pub fn ends_with(v: &Vec<char>, p: &Vec<char>) -> (b: bool)
    ensures
        b == has_suffix(v@, p@),
{
    if p.len() > v.len() {
        false
    } else {
        matches_at(v, p, v.len() - p.len())
    }
}

/// Whether `p` stands somewhere in `v`.
pub fn contains(v: &Vec<char>, p: &Vec<char>) -> (b: bool)
    ensures
        b == has_sub(v@, p@),
{
    let mut i: usize = 0;
    while i < v.len()
        invariant
            i <= v.len(),
            forall|k: int| 0 <= k < i ==> !occurs_at(v@, p@, k),
        decreases v.len() - i,
    {
        if matches_at(v, p, i) {
            return true;
        }
        i += 1;
    }
    matches_at(v, p, i)
}

/// Whether the character `c` stands somewhere in `v`.
pub fn contains_char(v: &Vec<char>, c: char) -> (b: bool)
    ensures
        b == has_char(v@, c),
{
    let mut i: usize = 0;
    while i < v.len()
        invariant
            i <= v.len(),
            forall|k: int| 0 <= k < i ==> v@[k] != c,
        decreases v.len() - i,
    {
        if v[i] == c {
            return true;
        }
        i += 1;
    }
    false
}

/// The views of the rows of a table of characters.
pub open spec fn rows(v: Seq<Vec<char>>) -> Seq<Seq<char>> {
    Seq::new(v.len(), |i: int| v[i]@)
}

/// Number of characters of `s` before its first line feed.
pub open spec fn line_end(s: Seq<char>) -> nat
    decreases s.len(),
{
    if s.len() == 0 || s[0] == '\n' {
        0
    } else {
        1 + line_end(s.drop_first())
    }
}

/// `l` without one trailing carriage return.
pub open spec fn strip_cr(l: Seq<char>) -> Seq<char> {
    if l.len() > 0 && l.last() == '\r' {
        l.drop_last()
    } else {
        l
    }
}

/// The lines of `s`. A line ends at a line feed, or at a carriage return
/// directly followed by one; the terminator is not part of the line. What
/// follows the last line feed is a line of its own unless it is empty, and
/// keeps a carriage return at its end.
pub open spec fn lines_of(s: Seq<char>) -> Seq<Seq<char>>
    decreases s.len(),
{
    if s.len() == 0 {
        Seq::empty()
    } else {
        let k = line_end(s);
        if k >= s.len() {
            seq![s]
        } else {
            seq![strip_cr(s.take(k as int))] + lines_of(s.skip(k as int + 1))
        }
    }
}

/// The lines joined by single line feeds.
pub open spec fn join_of(lines: Seq<Seq<char>>) -> Seq<char>
    decreases lines.len(),
{
    if lines.len() == 0 {
        Seq::empty()
    } else if lines.len() == 1 {
        lines[0]
    } else {
        join_of(lines.drop_last()) + seq!['\n'] + lines.last()
    }
}

/// The first line of `s` ends at index `k` when no line feed stands before
/// `k` and one stands at `k`, or `k` is the length of `s`.
pub proof fn lemma_line_end_is(s: Seq<char>, k: int)
    requires
        0 <= k <= s.len(),
        forall|j: int| 0 <= j < k ==> #[trigger] s[j] != '\n',
        k < s.len() ==> s[k] == '\n',
    ensures
        line_end(s) == k,
    decreases k,
{
    if k > 0 {
        let t = s.drop_first();
        assert forall|j: int| 0 <= j < k - 1 implies #[trigger] t[j] != '\n' by {
            assert(t[j] == s[j + 1]);
        }
        lemma_line_end_is(t, k - 1);
    }
}

/// The lines of `v`: what `lines_of` states.
pub fn split_lines(v: &Vec<char>) -> (r: Vec<Vec<char>>)
    ensures
        rows(r@) == lines_of(v@),
{
    let mut r: Vec<Vec<char>> = Vec::new();
    let mut pos: usize = 0;
    assert(v@.skip(0) =~= v@);
    assert(rows(r@) + lines_of(v@) =~= lines_of(v@));
    while pos < v.len()
        invariant
            pos <= v.len(),
            lines_of(v@) == rows(r@) + lines_of(v@.skip(pos as int)),
        decreases v.len() - pos,
    {
        let ghost rest = v@.skip(pos as int);
        let ghost before = rows(r@);
        let mut k: usize = pos;
        while k < v.len() && v[k] != '\n'
            invariant
                pos <= k <= v.len(),
                forall|j: int| pos <= j < k ==> v@[j] != '\n',
            decreases v.len() - k,
        {
            k += 1;
        }
        proof {
            assert forall|j: int| 0 <= j < k - pos implies #[trigger] rest[j] != '\n' by {
                assert(rest[j] == v@[pos + j]);
            }
            lemma_line_end_is(rest, k - pos);
        }
        if k == v.len() {
            let line = slice_of(v, pos, k);
            assert(line@ =~= rest);
            r.push(line);
            pos = k;
            assert(lines_of(v@.skip(pos as int)) =~= Seq::<Seq<char>>::empty());
            assert(rows(r@) =~= before + seq![rest]);
        } else {
            let end = if k > pos && v[k - 1] == '\r' {
                k - 1
            } else {
                k
            };
            let line = slice_of(v, pos, end);
            assert(rest.take(k - pos) =~= v@.subrange(pos as int, k as int));
            assert(line@ =~= strip_cr(rest.take(k - pos)));
            r.push(line);
            assert(rest.skip(k - pos + 1) =~= v@.skip(k + 1));
            pos = k + 1;
            assert(rows(r@) =~= before + seq![line@]);
            assert(lines_of(v@) =~= rows(r@) + lines_of(v@.skip(pos as int)));
        }
    }
    assert(lines_of(v@.skip(pos as int)) =~= Seq::<Seq<char>>::empty());
    assert(rows(r@) + Seq::<Seq<char>>::empty() =~= rows(r@));
    r
}

/// The lines joined by single line feeds.
pub fn join_lines(lines: &Vec<Vec<char>>) -> (r: Vec<char>)
    ensures
        r@ == join_of(rows(lines@)),
{
    let mut r: Vec<char> = Vec::new();
    let mut i: usize = 0;
    assert(rows(lines@).take(0) =~= Seq::<Seq<char>>::empty());
    while i < lines.len()
        invariant
            i <= lines.len(),
            r@ == join_of(rows(lines@).take(i as int)),
        decreases lines.len() - i,
    {
        let ghost done = rows(lines@).take(i as int);
        let ghost next = rows(lines@).take(i + 1);
        assert(next.drop_last() =~= done);
        assert(next.last() == lines@[i as int]@);
        if i > 0 {
            r.push('\n');
        } else {
            assert(next.len() == 1);
            assert(done.len() == 0);
        }
        push_all(&mut r, &lines[i]);
        assert(r@ =~= join_of(next));
        i += 1;
    }
    assert(rows(lines@).take(lines.len() as int) =~= rows(lines@));
    r
}


/// The views of a list of strings.
pub open spec fn texts(v: Seq<String>) -> Seq<Seq<char>> {
    Seq::new(v.len(), |i: int| v[i]@)
}

/// The view of a string that may be absent.
pub open spec fn opt_text(o: Option<String>) -> Option<Seq<char>> {
    match o {
        Some(s) => Some(s@),
        None => None,
    }
}

/// `s` without its leading repetitions of the text `p`.
pub open spec fn strip_leading_text(s: Seq<char>, p: Seq<char>) -> Seq<char>
    decreases s.len(),
{
    if p.len() > 0 && has_prefix(s, p) {
        strip_leading_text(s.skip(p.len() as int), p)
    } else {
        s
    }
}

/// `v` without its leading repetitions of the text `p`.
pub fn trim_start_matches_text(v: &Vec<char>, p: &Vec<char>) -> (r: Vec<char>)
    ensures
        r@ == strip_leading_text(v@, p@),
{
    let mut k: usize = 0;
    assert(v@.skip(0) =~= v@);
    while p.len() > 0 && matches_at(v, p, k)
        invariant
            k <= v.len(),
            strip_leading_text(v@, p@) == strip_leading_text(v@.skip(k as int), p@),
        decreases v.len() - k,
    {
        let ghost rest = v@.skip(k as int);
        assert(rest.subrange(0, p.len() as int) =~= v@.subrange(k as int, k + p.len()));
        assert(rest.skip(p.len() as int) =~= v@.skip(k + p.len()));
        k += p.len();
    }
    proof {
        let rest = v@.skip(k as int);
        if p.len() > 0 && has_prefix(rest, p@) {
            assert(rest.subrange(0, p.len() as int) =~= v@.subrange(k as int, k + p.len()));
        }
        assert(v@.skip(k as int) =~= v@.subrange(k as int, v.len() as int));
    }
    slice_of(v, k, v.len())
}

/// Whether `c` parts the tags of a tag list written as one string: a
/// comma or white space.
pub open spec fn is_tag_separator(c: char) -> bool {
    c == ',' || is_space(c)
}

/// Number of characters of `s` before its first tag separator.
pub open spec fn piece_end(s: Seq<char>) -> nat
    decreases s.len(),
{
    if s.len() == 0 || is_tag_separator(s[0]) {
        0
    } else {
        1 + piece_end(s.drop_first())
    }
}

/// The pieces of `s` between its tag separators, empty ones included: one
/// more than there are separators.
pub open spec fn pieces_of(s: Seq<char>) -> Seq<Seq<char>>
    decreases s.len(),
{
    let k = piece_end(s);
    if k >= s.len() {
        seq![s]
    } else {
        seq![s.take(k as int)] + pieces_of(s.skip(k as int + 1))
    }
}

/// The first piece of `s` ends at index `k` when no tag separator stands
/// before `k` and one stands at `k`, or `k` is the length of `s`.
pub proof fn lemma_piece_end_is(s: Seq<char>, k: int)
    requires
        0 <= k <= s.len(),
        forall|j: int| 0 <= j < k ==> !is_tag_separator(#[trigger] s[j]),
        k < s.len() ==> is_tag_separator(s[k]),
    ensures
        piece_end(s) == k,
    decreases k,
{
    if k > 0 {
        let t = s.drop_first();
        assert forall|j: int| 0 <= j < k - 1 implies !is_tag_separator(#[trigger] t[j]) by {
            assert(t[j] == s[j + 1]);
        }
        lemma_piece_end_is(t, k - 1);
    }
}

/// The pieces of `v` between its tag separators: what `pieces_of` states.
pub fn split_pieces(v: &Vec<char>) -> (r: Vec<Vec<char>>)
    ensures
        rows(r@) == pieces_of(v@),
{
    let mut r: Vec<Vec<char>> = Vec::new();
    let mut pos: usize = 0;
    assert(v@.skip(0) =~= v@);
    assert(rows(r@) + pieces_of(v@) =~= pieces_of(v@));
    loop
        invariant_except_break
            pieces_of(v@) == rows(r@) + pieces_of(v@.skip(pos as int)),
        invariant
            pos <= v.len(),
        ensures
            rows(r@) == pieces_of(v@),
        decreases v.len() - pos,
    {
        let ghost rest = v@.skip(pos as int);
        let ghost before = rows(r@);
        let mut k: usize = pos;
        while k < v.len() && !(v[k] == ',' || is_whitespace(v[k]))
            invariant
                pos <= k <= v.len(),
                forall|j: int| pos <= j < k ==> !is_tag_separator(v@[j]),
            decreases v.len() - k,
        {
            k += 1;
        }
        proof {
            assert forall|j: int| 0 <= j < k - pos implies !is_tag_separator(
                #[trigger] rest[j],
            ) by {
                assert(rest[j] == v@[pos + j]);
            }
            lemma_piece_end_is(rest, k - pos);
        }
        let piece = slice_of(v, pos, k);
        r.push(piece);
        assert(rows(r@) =~= before + seq![piece@]);
        if k == v.len() {
            assert(piece@ =~= rest);
            break;
        }
        assert(piece@ =~= rest.take(k - pos));
        assert(rest.skip(k - pos + 1) =~= v@.skip(k + 1));
        pos = k + 1;
        assert(pieces_of(v@) =~= rows(r@) + pieces_of(v@.skip(pos as int)));
    }
    r
}


/// A copy of a string that may be absent.
pub fn clone_opt(o: &Option<String>) -> (r: Option<String>)
    ensures
        opt_text(r) == opt_text(*o),
{
    match o {
        Some(s) => Some(s.clone()),
        None => None,
    }
}

/// A copy of a list of strings.
pub fn clone_texts(v: &Vec<String>) -> (r: Vec<String>)
    ensures
        texts(r@) == texts(v@),
{
    let mut r: Vec<String> = Vec::new();
    let mut i: usize = 0;
    while i < v.len()
        invariant
            i <= v.len(),
            r.len() == i,
            forall|j: int| 0 <= j < i ==> r@[j]@ == v@[j]@,
        decreases v.len() - i,
    {
        r.push(v[i].clone());
        i += 1;
    }
    assert(texts(r@) =~= texts(v@));
    r
}


/// Trimming keeps one stretch of `s`: all that stands before it and after
/// it is white space, and the stretch neither begins nor ends with white
/// space.
pub proof fn lemma_trim_is_subrange(s: Seq<char>) -> (bounds: (int, int))
    ensures
        0 <= bounds.0 <= bounds.1 <= s.len(),
        trim_of(s) == s.subrange(bounds.0, bounds.1),
        forall|j: int| 0 <= j < bounds.0 ==> is_space(#[trigger] s[j]),
        forall|j: int| bounds.1 <= j < s.len() ==> is_space(#[trigger] s[j]),
        bounds.0 < bounds.1 ==> !is_space(s[bounds.0]) && !is_space(s[bounds.1 - 1]),
{
    let a = lemma_leading_space(s);
    let t = s.skip(a);
    let n = lemma_trailing_space(t);
    assert(t.take(n) =~= s.subrange(a, a + n));
    assert forall|j: int| a + n <= j < s.len() implies is_space(#[trigger] s[j]) by {
        assert(t[j - a] == s[j]);
    }
    if 0 < n {
        assert(t[n - 1] == s[a + n - 1]);
        assert(t[0] == s[a]);
    }
    (a, a + n)
}

/// The number of characters that trimming drops at the start.
pub proof fn lemma_leading_space(s: Seq<char>) -> (k: int)
    ensures
        0 <= k <= s.len(),
        trim_start_of(s) == s.skip(k),
        forall|j: int| 0 <= j < k ==> is_space(#[trigger] s[j]),
        k < s.len() ==> !is_space(s[k]),
    decreases s.len(),
{
    if s.len() > 0 && is_space(s[0]) {
        let t = s.drop_first();
        let k = lemma_leading_space(t);
        assert(t.skip(k) =~= s.skip(k + 1));
        assert forall|j: int| 0 <= j < k + 1 implies is_space(#[trigger] s[j]) by {
            if j > 0 {
                assert(t[j - 1] == s[j]);
            }
        }
        if k + 1 < s.len() {
            assert(t[k] == s[k + 1]);
        }
        k + 1
    } else {
        assert(s.skip(0) =~= s);
        0
    }
}

/// The number of characters that trimming keeps at the end.
pub proof fn lemma_trailing_space(s: Seq<char>) -> (k: int)
    ensures
        0 <= k <= s.len(),
        trim_end_of(s) == s.take(k),
        forall|j: int| k <= j < s.len() ==> is_space(#[trigger] s[j]),
        k > 0 ==> !is_space(s[k - 1]),
    decreases s.len(),
{
    if s.len() > 0 && is_space(s.last()) {
        let t = s.drop_last();
        let k = lemma_trailing_space(t);
        assert(t.take(k) =~= s.take(k));
        assert forall|j: int| k <= j < s.len() implies is_space(#[trigger] s[j]) by {
            if j < t.len() {
                assert(t[j] == s[j]);
            }
        }
        if k > 0 {
            assert(t[k - 1] == s[k - 1]);
        }
        k
    } else {
        assert(s.take(s.len() as int) =~= s);
        s.len() as int
    }
}

/// A character that is no white space and stands in `s` stands in what is
/// left of `s` after trimming.
pub proof fn lemma_trim_keeps_char(s: Seq<char>, c: char)
    requires
        has_char(s, c),
        !is_space(c),
    ensures
        has_char(trim_of(s), c),
{
    let i = choose|i: int| 0 <= i < s.len() && s[i] == c;
    let (a, b) = lemma_trim_is_subrange(s);
    assert(a <= i < b);
    assert(trim_of(s)[i - a] == c);
}

/// A text without white space that stands in `s` stands in what is left of
/// `s` after trimming.
pub proof fn lemma_trim_keeps_sub(s: Seq<char>, p: Seq<char>)
    requires
        has_sub(s, p),
        p.len() > 0,
        forall|j: int| 0 <= j < p.len() ==> !is_space(#[trigger] p[j]),
    ensures
        has_sub(trim_of(s), p),
{
    let i = choose|i: int| occurs_at(s, p, i);
    let (a, b) = lemma_trim_is_subrange(s);
    assert(s.subrange(i, i + p.len())[0] == s[i]);
    assert(s.subrange(i, i + p.len())[p.len() - 1] == s[i + p.len() - 1]);
    assert(!is_space(p[0]) && !is_space(p[p.len() - 1]));
    assert(a <= i && i + p.len() <= b);
    assert(trim_of(s).subrange(i - a, i - a + p.len()) =~= s.subrange(i, i + p.len()));
    assert(occurs_at(trim_of(s), p, i - a));
}


/// Each line without one trailing carriage return.
pub open spec fn stripped(lines: Seq<Seq<char>>) -> Seq<Seq<char>> {
    Seq::new(lines.len(), |i: int| strip_cr(lines[i]))
}

/// The first line of `s` ends within `s`, at its first line feed if it has
/// one.
pub proof fn lemma_line_end_bounds(s: Seq<char>)
    ensures
        line_end(s) <= s.len(),
        forall|j: int| 0 <= j < line_end(s) ==> #[trigger] s[j] != '\n',
        line_end(s) < s.len() ==> s[line_end(s) as int] == '\n',
    decreases s.len(),
{
    if !(s.len() == 0 || s[0] == '\n') {
        let t = s.drop_first();
        lemma_line_end_bounds(t);
        assert forall|j: int| 0 <= j < line_end(s) implies #[trigger] s[j] != '\n' by {
            if j > 0 {
                assert(t[j - 1] == s[j]);
            }
        }
        if line_end(s) < s.len() {
            assert(t[line_end(t) as int] == s[line_end(s) as int]);
        }
    }
}

/// A text that ends a line can be split there: the lines of the whole are
/// the lines of the two parts.
pub proof fn lemma_lines_concat(a: Seq<char>, b: Seq<char>)
    requires
        a.len() > 0,
        a.last() == '\n',
    ensures
        lines_of(a + b) == lines_of(a) + lines_of(b),
    decreases a.len(),
{
    lemma_line_end_bounds(a);
    let k = line_end(a) as int;
    if k == a.len() {
        assert(a[a.len() - 1] != '\n');
    }
    let whole = a + b;
    assert forall|j: int| 0 <= j < k implies #[trigger] whole[j] != '\n' by {
        assert(whole[j] == a[j]);
    }
    assert(whole[k] == a[k]);
    lemma_line_end_is(whole, k);
    assert(whole.take(k) =~= a.take(k));
    let rest = a.skip(k + 1);
    assert(whole.skip(k + 1) =~= rest + b);
    if rest.len() == 0 {
        assert(rest + b =~= b);
        assert(lines_of(rest) =~= Seq::<Seq<char>>::empty());
        assert(lines_of(whole) =~= lines_of(a) + lines_of(b));
    } else {
        assert(rest.last() == a.last());
        lemma_lines_concat(rest, b);
        assert(lines_of(whole) =~= lines_of(a) + lines_of(b));
    }
}

/// A text without a line feed is one line, or none where it is empty; with
/// a line feed behind it, it is one line that loses a trailing carriage
/// return.
pub proof fn lemma_lines_of_one_line(x: Seq<char>)
    requires
        !has_char(x, '\n'),
    ensures
        lines_of(x) == if x.len() == 0 {
            Seq::<Seq<char>>::empty()
        } else {
            seq![x]
        },
        lines_of(x + seq!['\n']) == seq![strip_cr(x)],
{
    lemma_line_end_is(x, x.len() as int);
    let y = x + seq!['\n'];
    assert forall|j: int| 0 <= j < x.len() implies #[trigger] y[j] != '\n' by {
        assert(y[j] == x[j]);
    }
    lemma_line_end_is(y, x.len() as int);
    assert(y.take(x.len() as int) =~= x);
    assert(y.skip(x.len() as int + 1) =~= Seq::<char>::empty());
    assert(lines_of(y.skip(x.len() as int + 1)) =~= Seq::<Seq<char>>::empty());
    assert(lines_of(y) =~= seq![strip_cr(x)]);
}

/// No line holds a line feed.
pub proof fn lemma_lines_hold_no_feed(s: Seq<char>)
    ensures
        forall|i: int| 0 <= i < lines_of(s).len() ==> !has_char(#[trigger] lines_of(s)[i], '\n'),
    decreases s.len(),
{
    if s.len() > 0 {
        lemma_line_end_bounds(s);
        let k = line_end(s) as int;
        if k < s.len() {
            let rest = s.skip(k + 1);
            lemma_lines_hold_no_feed(rest);
            let first = strip_cr(s.take(k));
            assert(!has_char(first, '\n')) by {
                if has_char(first, '\n') {
                    let j = choose|j: int| 0 <= j < first.len() && first[j] == '\n';
                    assert(first[j] == s[j]);
                }
            }
            assert forall|i: int| 0 <= i < lines_of(s).len() implies !has_char(
                #[trigger] lines_of(s)[i],
                '\n',
            ) by {
                if i > 0 {
                    assert(lines_of(s)[i] == lines_of(rest)[i - 1]);
                }
            }
        } else {
            assert(!has_char(s, '\n')) by {
                if has_char(s, '\n') {
                    let j = choose|j: int| 0 <= j < s.len() && s[j] == '\n';
                }
            }
        }
    }
}

/// Joining puts the first line, a line feed and the join of the others.
pub proof fn lemma_join_front(x: Seq<char>, rest: Seq<Seq<char>>)
    requires
        rest.len() > 0,
    ensures
        join_of(seq![x] + rest) == x + seq!['\n'] + join_of(rest),
    decreases rest.len(),
{
    let all = seq![x] + rest;
    assert(all.last() == rest.last());
    if rest.len() == 1 {
        assert(all.drop_last() =~= seq![x]);
        assert(join_of(seq![x]) == x);
        assert(join_of(rest) == rest[0]);
        assert(join_of(all) == join_of(all.drop_last()) + seq!['\n'] + all.last());
        assert(join_of(all) =~= x + seq!['\n'] + join_of(rest));
    } else {
        assert(all.drop_last() =~= seq![x] + rest.drop_last());
        lemma_join_front(x, rest.drop_last());
        assert(join_of(all) =~= x + seq!['\n'] + join_of(rest));
    }
}

/// A text that is not empty has a line.
pub proof fn lemma_text_has_a_line(s: Seq<char>)
    requires
        s.len() > 0,
    ensures
        lines_of(s).len() > 0,
{
}

/// Splitting into lines and joining gives the text back, where the text
/// holds no carriage return and does not end with a line feed.
pub proof fn lemma_join_of_lines(c: Seq<char>)
    requires
        !has_char(c, '\r'),
        c.len() == 0 || c.last() != '\n',
    ensures
        join_of(lines_of(c)) == c,
    decreases c.len(),
{
    if c.len() == 0 {
        assert(join_of(lines_of(c)) =~= c);
    } else {
        lemma_line_end_bounds(c);
        let k = line_end(c) as int;
        if k < c.len() {
            let rest = c.skip(k + 1);
            assert(c[c.len() - 1] != '\n');
            assert(rest.len() > 0);
            assert(rest.last() == c.last());
            assert(!has_char(rest, '\r')) by {
                if has_char(rest, '\r') {
                    let j = choose|j: int| 0 <= j < rest.len() && rest[j] == '\r';
                    assert(c[j + k + 1] == '\r');
                }
            }
            lemma_join_of_lines(rest);
            lemma_text_has_a_line(rest);
            let first = c.take(k);
            if first.len() > 0 && first.last() == '\r' {
                assert(c[k - 1] == '\r');
            }
            assert(strip_cr(first) == first);
            lemma_join_front(first, lines_of(rest));
            assert(first + seq!['\n'] + rest =~= c);
        }
    }
}

/// A line feed behind a text that ends neither with a line feed nor with a
/// carriage return adds no line and changes none.
pub proof fn lemma_lines_with_final_feed(x: Seq<char>)
    requires
        x.len() > 0,
        x.last() != '\n',
        x.last() != '\r',
    ensures
        lines_of(x + seq!['\n']) == lines_of(x),
    decreases x.len(),
{
    lemma_line_end_bounds(x);
    let k = line_end(x) as int;
    let y = x + seq!['\n'];
    assert forall|j: int| 0 <= j < k implies #[trigger] y[j] != '\n' by {
        assert(y[j] == x[j]);
    }
    if k < x.len() {
        assert(y[k] == x[k]);
    }
    lemma_line_end_is(y, k);
    assert(y.take(k) =~= x.take(k));
    if k == x.len() {
        assert(x.take(k) =~= x);
        assert(y.skip(k + 1) =~= Seq::<char>::empty());
        assert(lines_of(y.skip(k + 1)) =~= Seq::<Seq<char>>::empty());
        assert(lines_of(y) =~= seq![x]);
    } else {
        let rest = x.skip(k + 1);
        assert(x[x.len() - 1] != '\n');
        assert(rest.len() > 0);
        assert(rest.last() == x.last());
        assert(y.skip(k + 1) =~= rest + seq!['\n']);
        lemma_lines_with_final_feed(rest);
    }
}

/// The lines of joined lines, with a line feed behind them, are these lines,
/// each without a trailing carriage return.
pub proof fn lemma_lines_of_joined_feed(lines: Seq<Seq<char>>)
    requires
        lines.len() > 0,
        forall|i: int| 0 <= i < lines.len() ==> !has_char(#[trigger] lines[i], '\n'),
    ensures
        lines_of(join_of(lines) + seq!['\n']) == stripped(lines),
    decreases lines.len(),
{
    if lines.len() == 1 {
        lemma_lines_of_one_line(lines[0]);
        assert(stripped(lines) =~= seq![strip_cr(lines[0])]);
    } else {
        let front = lines.drop_last();
        assert forall|i: int| 0 <= i < front.len() implies !has_char(#[trigger] front[i], '\n') by {
            assert(front[i] == lines[i]);
        }
        lemma_lines_of_joined_feed(front);
        let a = join_of(front) + seq!['\n'];
        let b = lines.last() + seq!['\n'];
        assert(join_of(lines) + seq!['\n'] =~= a + b);
        lemma_lines_concat(a, b);
        assert(lines.last() == lines[lines.len() - 1]);
        lemma_lines_of_one_line(lines.last());
        assert(stripped(lines) =~= stripped(front) + seq![strip_cr(lines.last())]);
    }
}

/// The two texts, one after the other.
pub fn chain(a: &str, b: &str) -> (r: String)
    ensures
        r@ == a@ + b@,
{
    let mut out = chars_of(a);
    push_all(&mut out, &chars_of(b));
    string_of(&out)
}

/// The index in `s` at which its line number `i` begins, counted from 0:
/// just behind the line feed that ends the line before. For the number of
/// a line that `s` does not have it is the length of `s`.
pub open spec fn line_start(s: Seq<char>, i: nat) -> int
    decreases i,
{
    if i == 0 {
        0
    } else {
        let k = line_end(s);
        if k >= s.len() {
            s.len() as int
        } else {
            k + 1 + line_start(s.skip(k as int + 1), (i - 1) as nat)
        }
    }
}

/// The lines written out, each with a line feed behind it.
pub open spec fn fed(lines: Seq<Seq<char>>) -> Seq<char> {
    if lines.len() == 0 {
        Seq::empty()
    } else {
        join_of(lines) + seq!['\n']
    }
}

/// Where a line begins, the text can be taken apart: what stands before is
/// the lines before, what stands from there on is the lines from there on.
/// A line that is not the first begins behind a line feed, and the next
/// line begins behind the line feed that ends it.
pub proof fn lemma_line_start(s: Seq<char>, i: nat)
    requires
        i < lines_of(s).len(),
    ensures
        0 <= line_start(s, i) < s.len(),
        lines_of(s.take(line_start(s, i))) == lines_of(s).take(i as int),
        lines_of(s.skip(line_start(s, i))) == lines_of(s).skip(i as int),
        i > 0 ==> s[line_start(s, i) - 1] == '\n',
        i + 1 < lines_of(s).len() ==> line_start(s, i + 1) == line_start(s, i) + line_end(
            s.skip(line_start(s, i)),
        ) + 1,
    decreases i,
{
    lemma_line_end_bounds(s);
    let k = line_end(s) as int;
    if i == 0 {
        assert(s.take(0) =~= Seq::<char>::empty());
        assert(s.skip(0) =~= s);
        assert(lines_of(s).take(0) =~= Seq::<Seq<char>>::empty());
        assert(lines_of(s).skip(0) =~= lines_of(s));
        if 1 < lines_of(s).len() {
            assert(k < s.len());
            assert(line_start(s.skip(k + 1), 0) == 0);
        }
    } else {
        assert(k < s.len());
        let rest = s.skip(k + 1);
        let j = (i - 1) as nat;
        assert(lines_of(s) == seq![strip_cr(s.take(k))] + lines_of(rest));
        lemma_line_start(rest, j);
        let q = line_start(rest, j);
        let p = line_start(s, i);
        assert(p == k + 1 + q);
        assert(s.skip(p) =~= rest.skip(q));
        assert(lines_of(s).skip(i as int) =~= lines_of(rest).skip(j as int));
        let head = s.take(k + 1);
        assert(s.take(p) =~= head + rest.take(q));
        assert(head.last() == s[k]);
        lemma_lines_concat(head, rest.take(q));
        assert forall|m: int| 0 <= m < k implies #[trigger] head[m] != '\n' by {
            assert(head[m] == s[m]);
        }
        lemma_line_end_is(head, k);
        assert(head.take(k) =~= s.take(k));
        assert(head.skip(k + 1) =~= Seq::<char>::empty());
        assert(lines_of(head.skip(k + 1)) =~= Seq::<Seq<char>>::empty());
        assert(lines_of(head) =~= seq![strip_cr(s.take(k))]);
        assert(lines_of(s).take(i as int) =~= seq![strip_cr(s.take(k))] + lines_of(rest).take(
            j as int,
        ));
        if j == 0 {
            assert(s[p - 1] == s[k]);
        } else {
            assert(rest[q - 1] == s[p - 1]);
        }
        if i + 1 < lines_of(s).len() {
            assert(line_start(s, i + 1) == k + 1 + line_start(rest, i));
        }
    }
}

/// A later line begins behind an earlier one.
pub proof fn lemma_line_starts_grow(s: Seq<char>, i: nat, j: nat)
    requires
        i <= j < lines_of(s).len(),
    ensures
        line_start(s, i) <= line_start(s, j),
        i < j ==> line_start(s, i) < line_start(s, j),
    decreases j,
{
    if i < j {
        let before = (j - 1) as nat;
        lemma_line_starts_grow(s, i, before);
        lemma_line_start(s, before);
    }
}

/// Where each line of `v` begins: what `line_start` states.
pub fn line_starts(v: &Vec<char>) -> (starts: Vec<usize>)
    ensures
        starts.len() == lines_of(v@).len(),
        forall|i: int| 0 <= i < starts.len() ==> starts@[i] == line_start(v@, i as nat),
        forall|i: int| 0 <= i < starts.len() ==> starts@[i] < v.len(),
{
    let mut starts: Vec<usize> = Vec::new();
    let mut pos: usize = 0;
    assert(v@.skip(0) =~= v@);
    while pos < v.len()
        invariant
            pos <= v.len(),
            lines_of(v@).len() == starts.len() + lines_of(v@.skip(pos as int)).len(),
            starts.len() < lines_of(v@).len() ==> pos == line_start(v@, starts.len() as nat),
            forall|i: int| 0 <= i < starts.len() ==> starts@[i] == line_start(v@, i as nat),
            forall|i: int| 0 <= i < starts.len() ==> starts@[i] < v.len(),
        decreases v.len() - pos,
    {
        let ghost rest = v@.skip(pos as int);
        let ghost count = starts.len() as nat;
        let mut k: usize = pos;
        while k < v.len() && v[k] != '\n'
            invariant
                pos <= k <= v.len(),
                forall|j: int| pos <= j < k ==> v@[j] != '\n',
            decreases v.len() - k,
        {
            k += 1;
        }
        proof {
            assert forall|j: int| 0 <= j < k - pos implies #[trigger] rest[j] != '\n' by {
                assert(rest[j] == v@[pos + j]);
            }
            lemma_line_end_is(rest, k - pos);
            lemma_text_has_a_line(rest);
        }
        starts.push(pos);
        if k == v.len() {
            pos = k;
            assert(lines_of(v@.skip(pos as int)) =~= Seq::<Seq<char>>::empty());
        } else {
            proof {
                assert(rest.skip(k - pos + 1) =~= v@.skip(k + 1));
                if count + 1 < lines_of(v@).len() {
                    lemma_line_start(v@, count);
                }
            }
            pos = k + 1;
        }
    }
    assert(lines_of(v@.skip(pos as int)) =~= Seq::<Seq<char>>::empty());
    starts
}

} // verus!
