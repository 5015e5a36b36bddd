//! Names in the text of SQL statements.

use vstd::prelude::*;
use crate::text::{chars_of, string_of};

verus! {

/// `name` with each double quote written twice.
pub open spec fn doubled_quotes(name: Seq<char>) -> Seq<char>
    decreases name.len(),
{
    if name.len() == 0 {
        Seq::empty()
    } else if name.last() == '"' {
        doubled_quotes(name.drop_last()).push('"').push('"')
    } else {
        doubled_quotes(name.drop_last()).push(name.last())
    }
}

/// `name` as a quoted identifier: between double quotes, with each double
/// quote inside written twice.
pub open spec fn quoted_identifier(name: Seq<char>) -> Seq<char> {
    seq!['"'] + doubled_quotes(name) + seq!['"']
}

/// A name of a table or column as it can stand in the text of a statement,
/// whatever characters it holds.
pub fn sanitize_identifier(name: &str) -> (quoted: String)
    ensures
        quoted@ == quoted_identifier(name@),
{
    let v = chars_of(name);
    let mut out: Vec<char> = Vec::new();
    out.push('"');
    let mut i: usize = 0;
    assert(v@.take(0) =~= Seq::<char>::empty());
    assert(out@ =~= seq!['"'] + doubled_quotes(v@.take(0)));
    while i < v.len()
        invariant
            i <= v.len(),
            out@ == seq!['"'] + doubled_quotes(v@.take(i as int)),
        decreases v.len() - i,
    {
        assert(v@.take(i + 1).drop_last() =~= v@.take(i as int));
        assert(v@.take(i + 1).last() == v@[i as int]);
        let ghost before = doubled_quotes(v@.take(i as int));
        if v[i] == '"' {
            out.push('"');
            out.push('"');
            assert(out@ =~= seq!['"'] + before.push('"').push('"'));
        } else {
            out.push(v[i]);
            assert(out@ =~= seq!['"'] + before.push(v@[i as int]));
        }
        i += 1;
    }
    assert(v@.take(v.len() as int) =~= v@);
    out.push('"');
    assert(out@ =~= quoted_identifier(name@));
    string_of(&out)
}

} // verus!
