//! The list type and its mathematical model.

use std::fmt::Display;
use vstd::prelude::*;

verus! {

/// A list of values of type `T`: either a value followed by the rest of the
/// list, which the node owns, or the empty list.
///
/// A list is built from the inside out, starting at `Empty`. Its length is
/// the depth of the nesting.
pub enum Test<T> where T: Display {
    TestNested(T, Box<Test<T>>),
    Empty,
}

impl<T: Display> Test<T> {
    /// The values of the list, outermost first.
    pub open spec fn values(self) -> Seq<T>
        decreases self,
    {
        match self {
            Test::TestNested(value, rest) => seq![value] + rest.values(),
            Test::Empty => Seq::empty(),
        }
    }
}

impl<T: Display> View for Test<T> {
    type V = Seq<T>;

    /// A list is viewed as the sequence of its values.
    open spec fn view(&self) -> Seq<T> {
        self.values()
    }
}

/// The view loses nothing: two lists that hold the same values in the same
/// order are the same list.
pub proof fn lemma_view_is_injective<T: Display>(a: Test<T>, b: Test<T>)
    requires
        a@ == b@,
    ensures
        a == b,
    decreases a,
{
    match (a, b) {
        (Test::TestNested(x, rest_a), Test::TestNested(y, rest_b)) => {
            assert(a@[0] == x && b@[0] == y);
            assert(rest_a@ =~= a@.skip(1));
            assert(rest_b@ =~= b@.skip(1));
            lemma_view_is_injective(*rest_a, *rest_b);
        },
        (Test::TestNested(x, _), Test::Empty) => {
            assert(a@.len() > 0);
        },
        (Test::Empty, Test::TestNested(y, _)) => {
            assert(b@.len() > 0);
        },
        (Test::Empty, Test::Empty) => {},
    }
}

} // verus!
