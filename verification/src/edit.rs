//! Edits made in place through the mutable cursor.

use crate::cursor::lemma_unused_rest_is_kept;
use crate::list::Test;
use vstd::prelude::*;
use vstd::string::StringExecFns;

verus! {

impl Test<String> {
    /// Appends `suffix` to every value of the list, walking it once with the
    /// mutable cursor.
    pub fn append_to_each(&mut self, suffix: &str)
        ensures
            final(self)@.len() == old(self)@.len(),
            forall|i: int|
                0 <= i < old(self)@.len() ==> (#[trigger] final(self)@[i])@ == old(self)@[i]@
                    + suffix@,
    {
        let ghost before = self@;
        let ghost mut written: Seq<String> = Seq::empty();
        let mut it = self.iter_mut();
        loop
            invariant
                it.rest() matches Some(node) && after_borrow(*self)@ == written + final(node)@,
                written.len() + it.ahead().len() == before.len(),
                forall|i: int|
                    0 <= i < written.len() ==> (#[trigger] written[i])@ == before[i]@ + suffix@,
                forall|i: int|
                    0 <= i < it.ahead().len() ==> #[trigger] it.ahead()[i] == before[written.len()
                        + i],
            ensures
                it.ahead().len() == 0,
            decreases it.ahead().len(),
        {
            match it.next() {
                Some(value) => {
                    value.append(suffix);
                    proof {
                        written = written.push(*value);
                    }
                },
                None => {
                    break ;
                },
            }
        }
        proof {
            // The cursor is given up on the empty end of the list.
            lemma_unused_rest_is_kept(it);
        }
    }
}

} // verus!
