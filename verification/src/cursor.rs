//! The two cursors that walk a list: one hands out its values for reading,
//! the other for writing.
//!
//! Both are iterators. The read-only cursor obeys the laws that `vstd` states
//! for iterators, so a `for` loop over it can be verified. Of the mutable
//! cursor the contract of `next` says all there is to say: what each call
//! hands out, and how the list will stand once the references are given back.

use crate::list::Test;
use std::fmt::Display;
use vstd::prelude::*;
use vstd::std_specs::iter::IteratorSpecImpl;

verus! {

/// A read-only cursor into a list. It hands out a reference to each value,
/// outermost first, and after the last one it hands out `None`, however
/// often it is asked.
pub struct Iter<'a, T> where T: Display {
    next: &'a Test<T>,
}

impl<'a, T: Display> Iter<'a, T> {
    /// The values that the cursor has yet to hand out, in order.
    pub closed spec fn ahead(self) -> Seq<T> {
        self.next@
    }
}

/// The items that the cursor will hand out are references to the values
/// ahead of it, one `next` takes one of them, and the walk ends.
impl<'a, T: Display> IteratorSpecImpl for Iter<'a, T> {
    open spec fn obeys_prophetic_iter_laws(&self) -> bool {
        true
    }

    open spec fn remaining(&self) -> Seq<Self::Item> {
        self.ahead().map_values(|value: T| &value)
    }

    open spec fn will_return_none(&self) -> bool {
        true
    }

    open spec fn decrease(&self) -> Option<nat> {
        Some(self.ahead().len())
    }

    open spec fn initial_value_relation(&self, init: &Self) -> bool {
        self.ahead() == init.ahead()
    }

    open spec fn peek(&self, index: int) -> Option<Self::Item> {
        if 0 <= index < self.ahead().len() {
            Some(&self.ahead()[index])
        } else {
            None
        }
    }
}

impl<'a, T: Display> Iterator for Iter<'a, T> {
    type Item = &'a T;

    /// Hands out the value under the cursor and moves the cursor past it, or
    /// returns `None` at the end of the list.
    fn next(&mut self) -> (item: Option<&'a T>)
        ensures
            old(self).ahead().len() == 0 ==> item is None && *final(self) == *old(self),
            old(self).ahead().len() > 0 ==> item == Some(&old(self).ahead()[0])
                && final(self).ahead() == old(self).ahead().skip(1),
    {
        match self.next {
            Test::Empty => None,
            Test::TestNested(value, rest) => {
                self.next = &**rest;
                proof {
                    assert(rest@ =~= (seq![*value] + rest@).skip(1));
                    assert(rest@.map_values(|value: T| &value) =~= (seq![*value] + rest@).map_values(
                        |value: T| &value,
                    ).drop_first());
                }
                Some(value)
            },
        }
    }
}

impl<T: Display> Test<T> {
    /// A read-only cursor placed on the first value of the list. The list is
    /// left as it is.
    pub fn iter(&self) -> (it: Iter<'_, T>)
        ensures
            it.ahead() == self@,
    {
        Iter { next: self }
    }
}

/// A cursor into a list that hands out each value for writing, outermost
/// first. It can change the values, never the shape of the list.
pub struct MutIter<'a, T> where T: Display {
    next: Option<&'a mut Test<T>>,
}

impl<'a, T: Display> MutIter<'a, T> {
    /// The stretch of the list that the cursor stands before, borrowed for
    /// writing: the node under the cursor and all that follows it. A cursor
    /// made by `iter_mut` holds one, and `next` never lets go of it: at the
    /// end of the list it is the empty list. `None` is a cursor that holds
    /// no list.
    pub closed spec fn rest(self) -> Option<&'a mut Test<T>> {
        self.next
    }

    /// The values that the cursor has yet to hand out, as they stand now.
    pub open spec fn ahead(self) -> Seq<T> {
        match self.rest() {
            Some(node) => node@,
            None => Seq::empty(),
        }
    }
}

/// The iterator laws of `vstd` speak of the items yet to come as a sequence
/// of plain values. References handed out for writing are none, so this impl
/// claims no law: `obeys_prophetic_iter_laws` is false, and `remaining` and
/// `peek` name no item. What the cursor does is stated on `next`; verified
/// code walks the cursor with `loop` and `next`, as `append_to_each` does.
impl<'a, T: Display> IteratorSpecImpl for MutIter<'a, T> {
    open spec fn obeys_prophetic_iter_laws(&self) -> bool {
        false
    }

    closed spec fn remaining(&self) -> Seq<Self::Item> {
        Seq::empty()
    }

    open spec fn will_return_none(&self) -> bool {
        true
    }

    open spec fn decrease(&self) -> Option<nat> {
        Some(self.ahead().len())
    }

    open spec fn initial_value_relation(&self, init: &Self) -> bool {
        self.rest() == init.rest()
    }

    closed spec fn peek(&self, index: int) -> Option<Self::Item> {
        None
    }
}

impl<'a, T: Display> Iterator for MutIter<'a, T> {
    type Item = &'a mut T;

    /// Hands out the value under the cursor for writing and moves the cursor
    /// one node on, or returns `None` at the end of the list.
    ///
    /// In the first case the list will hold, in place of that value,
    /// whatever the caller leaves behind the reference, followed by what the
    /// rest of the walk makes of the values after it. In the second the
    /// cursor stays where it is, on the empty list that ends the list.
    fn next(&mut self) -> (item: Option<&'a mut T>)
        ensures
            match item {
                Some(value) => {
                    &&& old(self).ahead().len() > 0
                    &&& *value == old(self).ahead()[0]
                    &&& final(self).ahead() == old(self).ahead().skip(1)
                    &&& old(self).rest() matches Some(before)
                    &&& final(self).rest() matches Some(after)
                    &&& final(before)@ == seq![*final(value)] + final(after)@
                },
                None => {
                    &&& old(self).ahead().len() == 0
                    &&& old(self).rest() is None ==> final(self).rest() is None
                    &&& old(self).rest() matches Some(before) ==> {
                        &&& final(self).rest() matches Some(after)
                        &&& *after == *before
                        &&& *final(after) == *final(before)
                    }
                },
            },
    {
        match self.next.take() {
            None => None,
            Some(node) => match node {
                Test::Empty => {
                    self.next = Some(node);
                    None
                },
                Test::TestNested(value, rest) => {
                    self.next = Some(&mut **rest);
                    proof {
                        assert(self.ahead() =~= old(self).ahead().skip(1));
                    }
                    Some(value)
                },
            },
        }
    }
}

impl<T: Display> Test<T> {
    /// A cursor for writing, placed on the first value of the list. While it
    /// or a reference it handed out is in use, the list is borrowed.
    pub fn iter_mut(&mut self) -> (it: MutIter<'_, T>)
        ensures
            it.rest() matches Some(node) && *node == *old(self) && *final(node) == *final(self),
    {
        MutIter { next: Some(self) }
    }
}

/// A mutable cursor that is used no more gives back what it had yet to walk
/// as it stands: the values that were not handed out stay as they are.
pub broadcast proof fn lemma_unused_rest_is_kept<'a, T: Display>(it: MutIter<'a, T>)
    ensures
        #[trigger] has_resolved(it) ==> (it.rest() matches Some(node) ==> *final(node) == *node),
{
}

/// What the call of `next` numbered `k`, counting from zero, hands out on a
/// cursor that has the values `ahead` before it: every call takes the first
/// value and leaves the others, and at the end of the list every call gives
/// `None`.
pub open spec fn handed_out<T>(ahead: Seq<T>, k: nat) -> Option<T>
    decreases k,
{
    if ahead.len() == 0 {
        None
    } else if k == 0 {
        Some(ahead[0])
    } else {
        handed_out(ahead.skip(1), (k - 1) as nat)
    }
}

/// A cursor hands out each value of the list once, in the order of the list,
/// and nothing after the last one. Every cursor that `iter` makes starts with
/// the whole list ahead of it, so a second walk hands out the same values as
/// the first.
pub proof fn lemma_handed_out_in_order<T: Display>(list: Test<T>, k: nat)
    ensures
        handed_out(list@, k) == if k < list@.len() {
            Some(list@[k as int])
        } else {
            None
        },
{
    lemma_handed_out_by_index(list@, k);
}

proof fn lemma_handed_out_by_index<T>(ahead: Seq<T>, k: nat)
    ensures
        handed_out(ahead, k) == if k < ahead.len() {
            Some(ahead[k as int])
        } else {
            None
        },
    decreases k,
{
    if ahead.len() > 0 && k > 0 {
        lemma_handed_out_by_index(ahead.skip(1), (k - 1) as nat);
    }
}

/// What a full walk of the mutable cursor leaves behind. Let `settled[i]` be
/// the values that the stretch of the list before the cursor holds, once all
/// borrows have ended, as of the call of `next` numbered `i`, and
/// `written[i]` the value left behind the reference which that call handed
/// out. Each call of `next` ties one stretch to the next, and the cursor is
/// given up on the empty list that ends the list, which stays empty. Then
/// the list ends up holding exactly the values written, in the order in
/// which the references were handed out.
pub proof fn lemma_walk_settles_in_order<T>(settled: Seq<Seq<T>>, written: Seq<T>)
    requires
        settled.len() == written.len() + 1,
        forall|i: int|
            0 <= i < written.len() ==> #[trigger] settled[i] == seq![written[i]] + settled[i + 1],
        settled.last().len() == 0,
    ensures
        settled[0] == written,
    decreases written.len(),
{
    if written.len() == 0 {
        assert(settled[0] =~= written);
    } else {
        let later = settled.skip(1);
        assert forall|i: int| 0 <= i < written.skip(1).len() implies #[trigger] later[i] == seq![
            written.skip(1)[i],
        ] + later[i + 1] by {
            assert(later[i] == settled[i + 1]);
        }
        lemma_walk_settles_in_order(later, written.skip(1));
        assert(settled[0] =~= written);
    }
}

} // verus!
