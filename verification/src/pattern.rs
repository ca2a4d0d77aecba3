//! File extensions and the pattern store's matching rule.

use crate::text::push_char;
use vstd::prelude::*;

verus! {

/// The index of the last `'.'` in `name`, or `-1` when there is none.
pub open spec fn last_dot(name: Seq<char>) -> int
    decreases name.len(),
{
    if name.len() == 0 {
        -1
    } else if name.last() == '.' {
        name.len() - 1
    } else {
        last_dot(name.drop_last())
    }
}

/// The extension of a file name: the text strictly after its last `'.'`.
/// A name without a `'.'` has none; a name that ends in `'.'` has the empty one.
pub open spec fn extension(name: Seq<char>) -> Option<Seq<char>> {
    if last_dot(name) < 0 {
        None
    } else {
        Some(name.skip(last_dot(name) + 1))
    }
}

/// Whether the store `pats` holds the extension of `name`.
pub open spec fn in_store(pats: Seq<Seq<char>>, name: Seq<char>) -> bool {
    extension(name) matches Some(e) && pats.contains(e)
}

/// Whether a non-directory entry called `name` is a target under `pats`:
/// an empty store takes every entry, any other store those whose extension it holds.
pub open spec fn is_target(pats: Seq<Seq<char>>, name: Seq<char>) -> bool {
    pats.len() == 0 || in_store(pats, name)
}

/// `last_dot` finds a `'.'` after which no other follows, and `-1` only where none is.
pub proof fn lemma_last_dot(name: Seq<char>)
    ensures
        -1 <= last_dot(name) < name.len(),
        last_dot(name) >= 0 ==> name[last_dot(name)] == '.',
        forall|j: int| last_dot(name) < j < name.len() ==> name[j] != '.',
    decreases name.len(),
{
    if name.len() > 0 && name.last() != '.' {
        let front = name.drop_last();
        lemma_last_dot(front);
        assert forall|j: int| last_dot(name) < j < name.len() implies name[j] != '.' by {
            if j < front.len() {
                assert(front[j] == name[j]);
            }
        }
    }
}

/// How the extension grows when one character is appended to the name.
pub proof fn lemma_extension_push(name: Seq<char>, c: char)
    ensures
        extension(name.push(c)) == if c == '.' {
            Some(Seq::<char>::empty())
        } else {
            match extension(name) {
                Some(e) => Some(e.push(c)),
                None => None,
            }
        },
{
    let longer = name.push(c);
    assert(longer.drop_last() == name);
    lemma_last_dot(name);
    if c == '.' {
        assert(longer.skip(longer.len() as int) == Seq::<char>::empty());
    } else if last_dot(name) >= 0 {
        assert(longer.skip(last_dot(name) + 1) == name.skip(last_dot(name) + 1).push(c));
    }
}

/// Computes the extension of `name`.
pub fn extension_of(name: &str) -> (r: Option<String>)
    ensures
        r is Some == extension(name@) is Some,
        r matches Some(e) ==> extension(name@) == Some(e@),
{
    let mut ext: Option<String> = None;
    proof {
        assert(name@.take(0) == Seq::<char>::empty());
    }
    for c in it: name.chars()
        invariant
            it.seq() == name@,
            ext is Some == extension(name@.take(it.index() as int)) is Some,
            ext matches Some(e) ==> extension(name@.take(it.index() as int)) == Some(e@),
    {
        proof {
            let seen = name@.take(it.index() as int);
            assert(name@.take(it.index() + 1) == seen.push(c));
            lemma_extension_push(seen, c);
        }
        if c == '.' {
            ext = Some(String::new());
        } else {
            match ext {
                Some(mut e) => {
                    push_char(&mut e, c);
                    ext = Some(e);
                },
                None => {},
            }
        }
    }
    assert(name@.take(name@.len() as int) == name@);
    ext
}

/// Tests whether the store `pats` holds the extension of the file name `name`.
pub fn has_extension_in(pats: &Vec<String>, name: &str) -> (r: bool)
    ensures
        r == in_store(pats.deep_view(), name@),
{
    match extension_of(name) {
        None => false,
        Some(e) => {
            let mut i: usize = 0;
            while i < pats.len()
                invariant
                    i <= pats.len(),
                    extension(name@) == Some(e@),
                    forall|j: int| 0 <= j < i ==> pats[j]@ != e@,
                decreases pats.len() - i,
            {
                if pats[i] == e {
                    assert(pats.deep_view()[i as int] == e@);
                    assert(pats.deep_view().contains(e@));
                    return true;
                }
                i += 1;
            }
            assert forall|j: int| 0 <= j < pats.deep_view().len() implies pats.deep_view()[j]
                != e@ by {
                assert(pats.deep_view()[j] == pats[j]@);
            }
            false
        },
    }
}

} // verus!
