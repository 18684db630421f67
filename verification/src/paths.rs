//! SD card paths: `/`-separated, as the plugin and the homebrew write them.

use vstd::prelude::*;

use crate::text::{chars_of, push_char, push_str, string_of};

verus! {

/// `a/b`: one slash between the two parts (none added after an empty `a` or
/// one ending in a slash).
pub open spec fn join_spec(a: Seq<char>, b: Seq<char>) -> Seq<char> {
    if a.len() == 0 {
        b
    } else if a.last() == '/' {
        a + b
    } else {
        a + seq!['/'] + b
    }
}

pub fn join(a: &str, b: &str) -> (r: String)
    ensures
        r@ == join_spec(a@, b@),
{
    let av = chars_of(a);
    let mut r = string_of(av.as_slice());
    if av.len() > 0 && av[av.len() - 1] != '/' {
        push_char(&mut r, '/');
    }
    push_str(&mut r, b);
    proof {
        if av.len() == 0 {
            assert(r@ =~= b@);
        }
    }
    r
}

} // verus!
