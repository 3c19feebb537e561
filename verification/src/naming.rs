//! Functions on texts that the caller brings along, such as the one that gives
//! names their numbers.

use vstd::prelude::*;

verus! {

/// Whether `f` takes every text, and gives equal texts equal values.
pub open spec fn is_text_function<N, F: Fn(&str) -> N>(f: F) -> bool {
    &&& forall|s: &str| #[trigger] call_requires(f, (s,))
    &&& forall|s: &str, t: &str, a: N, b: N|
        s@ == t@ && #[trigger] call_ensures(f, (s,), a) && #[trigger] call_ensures(f, (t,), b)
            ==> a == b
}

/// Whether `f` may give a text this value.
pub open spec fn may_give<N, F: Fn(&str) -> N>(f: F, text: Seq<char>, value: N) -> bool {
    exists|s: &str| s@ == text && #[trigger] call_ensures(f, (s,), value)
}

/// The value that `f` gives a text.
pub open spec fn value_of<N, F: Fn(&str) -> N>(f: F, text: Seq<char>) -> N {
    choose|value: N| may_give(f, text, value)
}

/// Asks for the value of a text.
pub fn ask<N, F: Fn(&str) -> N>(f: &F, text: &str) -> (value: N)
    requires
        is_text_function(*f),
    ensures
        value == value_of(*f, text@),
{
    let value = f(text);
    proof {
        assert(may_give(*f, text@, value));
        assert(may_give(*f, text@, value_of(*f, text@)));
    }
    value
}

} // verus!
