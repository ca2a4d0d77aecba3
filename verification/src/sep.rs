//! Separator normalization for path strings that are shown to the outside.

use crate::text::push_char;
use vstd::prelude::*;

verus! {

/// The path `p` with every backslash rewritten to a forward slash.
pub open spec fn normalized(p: Seq<char>) -> Seq<char> {
    p.map_values(|c: char| if c == '\\' { '/' } else { c })
}

pub fn replace_sep(path: &str) -> (r: String)
    ensures
        r@ == normalized(path@),
{
    let mut out = String::new();
    for c in it: path.chars()
        invariant
            it.seq() == path@,
            out@ == normalized(path@.take(it.index() as int)),
    {
        assert(path@.take(it.index() + 1) == path@.take(it.index() as int).push(c));
        if c == '\\' {
            push_char(&mut out, '/');
        } else {
            push_char(&mut out, c);
        }
    }
    assert(path@.take(path@.len() as int) == path@);
    out
}

} // verus!
