//! The textual rendering of a list: its values' texts in square brackets,
//! separated by a comma and a space, with empty texts left out.

use crate::list::Test;
use std::fmt::Display;
use vstd::prelude::*;
use vstd::string::to_string_from_display_ensures;
use vstd::string::StringExecFns;

verus! {

/// What stands between two texts that are next to each other in a rendering.
pub open spec fn separator() -> Seq<char> {
    seq![',', ' ']
}

/// The parts written one after the other, with the separator between each
/// part and the next.
pub open spec fn joined(parts: Seq<Seq<char>>) -> Seq<char>
    decreases parts.len(),
{
    if parts.len() == 0 {
        Seq::empty()
    } else if parts.len() == 1 {
        parts[0]
    } else {
        joined(parts.drop_last()) + separator() + parts.last()
    }
}

/// The texts that a rendering shows: those that are not empty, in order.
pub open spec fn shown(texts: Seq<Seq<char>>) -> Seq<Seq<char>> {
    texts.filter(|text: Seq<char>| text.len() > 0)
}

/// The rendering of a list whose values have the given texts.
pub open spec fn rendered(texts: Seq<Seq<char>>) -> Seq<char> {
    seq!['['] + joined(shown(texts)) + seq![']']
}

/// A rendering is at least the two brackets, opens with `[` and closes with
/// `]`.
pub proof fn lemma_rendered_is_bracketed(texts: Seq<Seq<char>>)
    ensures
        rendered(texts).len() >= 2,
        rendered(texts).first() == '[',
        rendered(texts).last() == ']',
{
}

/// Where every text is empty, none is shown.
proof fn lemma_nothing_shown(texts: Seq<Seq<char>>)
    requires
        forall|i: int| 0 <= i < texts.len() ==> texts[i].len() == 0,
    ensures
        shown(texts).len() == 0,
    decreases texts.len(),
{
    reveal(Seq::filter);
    if texts.len() > 0 {
        lemma_nothing_shown(texts.drop_last());
    }
}

/// A list that shows nothing, because it has no values or because every
/// value's text is empty, renders as the two brackets alone.
pub proof fn lemma_rendered_without_text(texts: Seq<Seq<char>>)
    requires
        forall|i: int| 0 <= i < texts.len() ==> texts[i].len() == 0,
    ensures
        rendered(texts) == seq!['[', ']'],
{
    lemma_nothing_shown(texts);
    assert(rendered(texts) =~= seq!['[', ']']);
}

/// Joining two runs of parts, neither of them empty, puts exactly one
/// separator between them.
pub proof fn lemma_joined_concat(a: Seq<Seq<char>>, b: Seq<Seq<char>>)
    requires
        a.len() > 0,
        b.len() > 0,
    ensures
        joined(a + b) == joined(a) + separator() + joined(b),
    decreases b.len(),
{
    assert((a + b).drop_last() =~= a + b.drop_last());
    if b.len() == 1 {
        assert(a + b.drop_last() =~= a);
    } else {
        lemma_joined_concat(a, b.drop_last());
        assert(joined(a + b) =~= joined(a) + separator() + joined(b));
    }
}

/// The rendering of one list followed by another. Where both show
/// something, it is the first rendering without its closing bracket, one
/// separator, and the second rendering without its opening bracket; where one
/// of them shows nothing, it is the rendering of the other.
pub proof fn lemma_rendered_concat(a: Seq<Seq<char>>, b: Seq<Seq<char>>)
    ensures
        rendered(a + b) == if shown(a).len() == 0 {
            rendered(b)
        } else if shown(b).len() == 0 {
            rendered(a)
        } else {
            rendered(a).drop_last() + separator() + rendered(b).drop_first()
        },
{
    Seq::filter_distributes_over_add(a, b, |text: Seq<char>| text.len() > 0);
    if shown(a).len() == 0 {
        assert(shown(a) + shown(b) =~= shown(b));
    } else if shown(b).len() == 0 {
        assert(shown(a) + shown(b) =~= shown(a));
    } else {
        lemma_joined_concat(shown(a), shown(b));
        assert(rendered(a).drop_last() =~= seq!['['] + joined(shown(a)));
        assert(rendered(b).drop_first() =~= joined(shown(b)) + seq![']']);
        assert(rendered(a + b) =~= rendered(a).drop_last() + separator() + rendered(
            b,
        ).drop_first());
    }
}

/// A value whose text is empty leaves no trace in the rendering: the list
/// renders as it would without that value, so no separator is written on its
/// account.
pub proof fn lemma_empty_text_is_left_out(texts: Seq<Seq<char>>, i: int)
    requires
        0 <= i < texts.len(),
        texts[i].len() == 0,
    ensures
        rendered(texts.remove(i)) == rendered(texts),
{
    let shows = |text: Seq<char>| text.len() > 0;
    let head = texts.take(i);
    let tail = texts.skip(i + 1);
    assert(texts =~= head.push(texts[i]) + tail);
    assert(texts.remove(i) =~= head + tail);
    head.lemma_filter_push(texts[i], shows);
    Seq::filter_distributes_over_add(head.push(texts[i]), tail, shows);
    Seq::filter_distributes_over_add(head, tail, shows);
}

/// Whether a separator stands in `text` at position `at`.
pub open spec fn separator_at(text: Seq<char>, at: int) -> bool {
    &&& 0 <= at
    &&& at + 2 <= text.len()
    &&& text[at] == ','
    &&& text[at + 1] == ' '
}

/// Whether two separators in a row stand in `text` at position `at`.
pub open spec fn doubled_at(text: Seq<char>, at: int) -> bool {
    separator_at(text, at) && separator_at(text, at + 2)
}

/// Whether `text` ends with a separator.
pub open spec fn ends_with_separator(text: Seq<char>) -> bool {
    separator_at(text, text.len() - 2)
}

/// Whether the texts themselves bring no separator to a place where the
/// rendering would show it as a leading or a doubled one: no text begins
/// with a separator or holds two in a row, and none but the last text shown
/// ends with one.
pub open spec fn free_of_stray_separators(texts: Seq<Seq<char>>) -> bool {
    &&& forall|i: int| 0 <= i < texts.len() ==> !separator_at(#[trigger] texts[i], 0)
    &&& forall|i: int, at: int| 0 <= i < texts.len() ==> !#[trigger] doubled_at(texts[i], at)
    &&& forall|i: int|
        0 <= i < texts.len() && ends_with_separator(#[trigger] texts[i]) ==> shown(
            texts.skip(i + 1),
        ).len() == 0
}

/// What holds of the texts shown, joined, where the texts are free of stray
/// separators: the induction behind `lemma_no_leading_or_doubled_separator`.
proof fn lemma_joined_has_no_stray_separator(texts: Seq<Seq<char>>)
    requires
        free_of_stray_separators(texts),
    ensures
        !separator_at(joined(shown(texts)), 0),
        forall|at: int| !doubled_at(joined(shown(texts)), at),
        shown(texts).len() > 0 ==> joined(shown(texts)).len() > 0,
        ends_with_separator(joined(shown(texts))) ==> exists|i: int|
            0 <= i < texts.len() && ends_with_separator(#[trigger] texts[i]),
    decreases texts.len(),
{
    let shows = |text: Seq<char>| text.len() > 0;
    reveal(Seq::filter);
    if texts.len() > 0 {
        let init = texts.drop_last();
        let last = texts.last();
        init.lemma_filter_push(last, shows);
        // A text of `init` that ends with a separator has nothing shown after
        // it, so `last` is empty then.
        assert forall|i: int|
            0 <= i < init.len() && ends_with_separator(#[trigger] init[i]) implies last.len() == 0
            && shown(init.skip(i + 1)).len() == 0 by {
            assert(texts.skip(i + 1) =~= init.skip(i + 1).push(last));
            init.skip(i + 1).lemma_filter_push(last, shows);
        }
        assert(free_of_stray_separators(init));
        lemma_joined_has_no_stray_separator(init);
        let before = joined(shown(init));
        let all = joined(shown(texts));
        if last.len() > 0 {
            assert(shown(init).push(last).drop_last() =~= shown(init));
            if shown(init).len() > 0 {
                // `all` is `before`, a separator and `last`. Two separators in
                // a row would lie in `before`, lie in `last`, end `before` or
                // begin `last`.
                let n = before.len() as int;
                assert(all == before + separator() + last);
                assert(!ends_with_separator(before));
                assert forall|at: int| !doubled_at(all, at) by {
                    if doubled_at(all, at) {
                        if at + 4 <= n {
                            assert(doubled_at(before, at));
                        } else if at >= n + 2 {
                            assert(doubled_at(last, at - n - 2));
                        } else if at == n - 2 {
                            assert(separator_at(before, n - 2));
                        } else if at == n {
                            assert(separator_at(last, 0));
                        }
                    }
                }
                assert(separator_at(all, 0) ==> separator_at(before, 0));
            }
            assert(ends_with_separator(all) ==> ends_with_separator(texts[texts.len() - 1]));
        } else {
            assert(all == before);
            if ends_with_separator(all) {
                let i = choose|i: int| 0 <= i < init.len() && ends_with_separator(#[trigger] init[i]);
                assert(ends_with_separator(texts[i]));
            }
        }
    }
}

/// No separator stands first in a rendering, and no two stand in a row,
/// unless the texts themselves bring one there.
pub proof fn lemma_no_leading_or_doubled_separator(texts: Seq<Seq<char>>)
    requires
        free_of_stray_separators(texts),
    ensures
        !separator_at(rendered(texts), 1),
        forall|at: int| !doubled_at(rendered(texts), at),
{
    lemma_joined_has_no_stray_separator(texts);
    let inner = joined(shown(texts));
    let all = rendered(texts);
    assert forall|k: int| 0 <= k < inner.len() implies all[k + 1] == inner[k] by {}
    assert(separator_at(all, 1) ==> separator_at(inner, 0));
    assert forall|at: int| !doubled_at(all, at) by {
        if doubled_at(all, at) && 1 <= at && at + 4 <= all.len() - 1 {
            assert(doubled_at(inner, at - 1));
        }
    }
}

/// The characters of each string.
pub open spec fn chars_of(texts: Seq<String>) -> Seq<Seq<char>> {
    texts.map_values(|text: String| text@)
}

/// Renders a list from the texts of its values: an opening bracket, the
/// texts that are not empty with a separator before each but the first of
/// them, and a closing bracket.
pub fn render_texts(texts: &[String]) -> (out: String)
    ensures
        out@ == rendered(chars_of(texts@)),
{
    let mut out = String::new();
    out.append("[");
    let mut any_shown = false;
    let mut i: usize = 0;
    proof {
        reveal_strlit("[");
        reveal(Seq::filter);
        assert(chars_of(texts@).take(0) =~= Seq::empty());
        assert(out@ =~= seq!['['] + joined(shown(chars_of(texts@).take(0))));
    }
    while i < texts.len()
        invariant
            0 <= i <= texts.len(),
            out@ == seq!['['] + joined(shown(chars_of(texts@).take(i as int))),
            any_shown == (shown(chars_of(texts@).take(i as int)).len() > 0),
        decreases texts.len() - i,
    {
        let text = texts[i].as_str();
        let ghost before = chars_of(texts@).take(i as int);
        proof {
            reveal_strlit(", ");
            assert(chars_of(texts@).take(i + 1) =~= before.push(text@));
            before.lemma_filter_push(text@, |text: Seq<char>| text.len() > 0);
        }
        if !text.is_empty() {
            if any_shown {
                out.append(", ");
            }
            out.append(text);
            any_shown = true;
            proof {
                let parts = shown(before).push(text@);
                assert(parts.drop_last() =~= shown(before));
                assert(out@ =~= seq!['['] + joined(parts));
            }
        }
        i += 1;
    }
    out.append("]");
    proof {
        reveal_strlit("]");
        assert(chars_of(texts@).take(texts@.len() as int) =~= chars_of(texts@));
    }
    out
}

impl<T: Display> Test<T> {
    /// Whether `texts` holds, value by value, a text that `to_string` may
    /// give for the values of the list.
    pub open spec fn shown_as(self, texts: Seq<String>) -> bool {
        &&& texts.len() == self@.len()
        &&& forall|i: int|
            0 <= i < texts.len() ==> to_string_from_display_ensures::<T>(
                &self@[i],
                #[trigger] texts[i],
            )
    }

    /// Renders the list: asks each value for its text, in order, and renders
    /// those texts with `render_texts`.
    ///
    /// What the text of a value is lies with the value's `Display` impl, so
    /// the contract names the texts only as what `to_string` gave. Where that
    /// impl reports an error, `to_string` panics, and so does this function.
    pub fn render(&self) -> (out: String)
        ensures
            exists|texts: Seq<String>| #[trigger]
                self.shown_as(texts) && out@ == rendered(chars_of(texts)),
            out@.len() >= 2,
            out@.first() == '[',
            out@.last() == ']',
            self@.len() == 0 ==> out@ == seq!['[', ']'],
    {
        let mut texts: Vec<String> = Vec::new();
        for value in it: self.iter()
            invariant
                texts@.len() == it.index(),
                it.seq().len() == self@.len(),
                forall|i: int| 0 <= i < it.seq().len() ==> *it.seq()[i] == self@[i],
                forall|i: int|
                    0 <= i < texts@.len() ==> to_string_from_display_ensures::<T>(
                        &self@[i],
                        #[trigger] texts@[i],
                    ),
        {
            texts.push(value.to_string());
        }
        assert(self.shown_as(texts@));
        proof {
            lemma_rendered_is_bracketed(chars_of(texts@));
            if self@.len() == 0 {
                lemma_rendered_without_text(chars_of(texts@));
            }
        }
        render_texts(texts.as_slice())
    }
}

} // verus!
