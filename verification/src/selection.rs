//! Text selection on a page: what pointer events do to it, double-click word
//! selection, and the text a selection covers.

use vstd::prelude::*;
use crate::text::{is_ws, is_whitespace_char, string_of_range};

verus! {

/// A pointer event on a page, reduced to what the selection logic reads.
/// `char_idx` is the character nearest to the pointer, when the page has
/// characters and the pointer position is known.
#[derive(Clone, Copy, PartialEq, Eq, Debug)]
pub enum PointerEvent {
    DragStarted { char_idx: Option<usize>, in_resize_margin: bool },
    Dragged { char_idx: Option<usize> },
    DoubleClicked { char_idx: Option<usize> },
    SecondaryClicked,
    Clicked { drag_stopped: bool },
    Nothing,
}

/// The selection: the page it is on and the characters where it started and
/// where it ends (either may come first).
#[derive(Clone, Copy, PartialEq, Eq, Debug, Structural)]
pub struct Selection {
    pub page: Option<usize>,
    pub start: Option<usize>,
    pub end: Option<usize>,
}

/// First character of the word around `i`: moves left while the character
/// before is not whitespace.
pub open spec fn word_start(chars: Seq<char>, i: nat) -> nat
    decreases i,
{
    if i > 0 && i - 1 < chars.len() && !is_ws(chars[i - 1]) {
        word_start(chars, (i - 1) as nat)
    } else {
        i
    }
}

/// Last character of the word around `i`: moves right while the character
/// after is not whitespace.
pub open spec fn word_end(chars: Seq<char>, i: nat) -> nat
    decreases chars.len() - i,
{
    if i + 1 < chars.len() && !is_ws(chars[i as int + 1]) {
        word_end(chars, i + 1)
    } else {
        i
    }
}

/// What an event on page `page` does to the selection, and whether it asks
/// to copy the selected text: pressing starts a selection at a character,
/// dragging moves its end, a double-click selects a word, a right-click on
/// the page holding a selection copies it, a plain click clears it.
pub open spec fn selection_step(s: Selection, page: usize, event: PointerEvent, chars: Seq<char>) -> (
    Selection,
    bool,
) {
    match event {
        PointerEvent::DragStarted { char_idx, in_resize_margin } => match char_idx {
            Some(i) => if in_resize_margin {
                (s, false)
            } else {
                (Selection { page: Some(page), start: Some(i), end: Some(i) }, false)
            },
            None => (s, false),
        },
        PointerEvent::Dragged { char_idx } => match char_idx {
            Some(i) => if s.page == Some(page) {
                (Selection { end: Some(i), ..s }, false)
            } else {
                (s, false)
            },
            None => (s, false),
        },
        PointerEvent::DoubleClicked { char_idx } => match char_idx {
            Some(i) => (
                Selection {
                    page: Some(page),
                    start: Some(word_start(chars, i as nat) as usize),
                    end: Some(word_end(chars, i as nat) as usize),
                },
                false,
            ),
            None => (s, false),
        },
        PointerEvent::SecondaryClicked => (
            s,
            s.page == Some(page) && s.start is Some && s.end is Some,
        ),
        PointerEvent::Clicked { drag_stopped } => if drag_stopped {
            (s, false)
        } else {
            (Selection { page: None, start: None, end: None }, false)
        },
        PointerEvent::Nothing => (s, false),
    }
}

/// The characters a selection covers on a page of `len` characters, as a
/// half-open range: from the smaller end to the larger, cut at the last
/// character; none when the smaller end lies past the text.
pub open spec fn covered_range(start: nat, end: nat, len: nat) -> Option<(nat, nat)> {
    let lo = if start <= end {
        start
    } else {
        end
    };
    let hi = if start <= end {
        end
    } else {
        start
    };
    if lo < len {
        Some((lo, if hi < len {
            hi + 1
        } else {
            len
        }))
    } else {
        None
    }
}

proof fn lemma_word_start_bounds(chars: Seq<char>, i: nat)
    ensures
        word_start(chars, i) <= i,
        forall|k: int| word_start(chars, i) <= k < i ==> !is_ws(#[trigger] chars[k]),
        word_start(chars, i) == 0 || word_start(chars, i) - 1 >= chars.len() || is_ws(
            chars[word_start(chars, i) - 1],
        ),
    decreases i,
{
    if i > 0 && i - 1 < chars.len() && !is_ws(chars[i - 1]) {
        lemma_word_start_bounds(chars, (i - 1) as nat);
    }
}

proof fn lemma_word_end_bounds(chars: Seq<char>, i: nat)
    ensures
        i <= word_end(chars, i),
        forall|k: int| i < k <= word_end(chars, i) ==> !is_ws(#[trigger] chars[k]),
        word_end(chars, i) + 1 >= chars.len() || is_ws(chars[word_end(chars, i) as int + 1]),
        i < chars.len() ==> word_end(chars, i) < chars.len(),
    decreases chars.len() - i,
{
    if i + 1 < chars.len() && !is_ws(chars[i as int + 1]) {
        lemma_word_end_bounds(chars, i + 1);
    }
}

/// A double-click selects the whole word around the character clicked: the
/// run of non-whitespace characters that reaches it, as far as it goes in
/// each direction.
pub proof fn law_word_is_maximal(chars: Seq<char>, i: nat)
    requires
        i < chars.len(),
    ensures
        word_start(chars, i) <= i <= word_end(chars, i) < chars.len(),
        forall|k: int| word_start(chars, i) <= k < i ==> !is_ws(#[trigger] chars[k]),
        forall|k: int| i < k <= word_end(chars, i) ==> !is_ws(#[trigger] chars[k]),
        word_start(chars, i) == 0 || is_ws(chars[word_start(chars, i) - 1]),
        word_end(chars, i) + 1 == chars.len() || is_ws(chars[word_end(chars, i) as int + 1]),
{
    lemma_word_start_bounds(chars, i);
    lemma_word_end_bounds(chars, i);
}

/// Bounds of the word around character `i`, as a double-click selects it.
pub fn word_bounds(chars: &Vec<char>, i: usize) -> (r: (usize, usize))
    requires
        i <= chars.len(),
    ensures
        r.0 == word_start(chars@, i as nat),
        r.1 == word_end(chars@, i as nat),
{
    let mut start = i;
    while start > 0 && !is_whitespace_char(chars[start - 1])
        invariant
            start <= i <= chars@.len(),
            word_start(chars@, i as nat) == word_start(chars@, start as nat),
        decreases start,
    {
        start = start - 1;
    }
    let mut end = i;
    while chars.len() > 0 && end < chars.len() - 1 && !is_whitespace_char(chars[end + 1])
        invariant
            i <= end,
            end <= chars@.len(),
            word_end(chars@, i as nat) == word_end(chars@, end as nat),
        decreases chars@.len() - end,
    {
        end = end + 1;
    }
    (start, end)
}

impl Selection {
    /// Nothing selected.
    pub fn none() -> (s: Selection)
        ensures
            s == (Selection { page: None, start: None, end: None }),
    {
        Selection { page: None, start: None, end: None }
    }

    /// Drops the selection.
    pub fn clear(&mut self)
        ensures
            *final(self) == (Selection { page: None, start: None, end: None }),
    {
        self.page = None;
        self.start = None;
        self.end = None;
    }

    /// Applies a pointer event on page `page`, whose characters are `chars`.
    /// Returns whether the event asks to copy the selected text.
    pub fn apply(&mut self, page: usize, event: PointerEvent, chars: &Vec<char>) -> (copy: bool)
        requires
            event matches PointerEvent::DoubleClicked { char_idx: Some(i) } ==> i <= chars@.len(),
        ensures
            (*final(self), copy) == selection_step(*old(self), page, event, chars@),
    {
        match event {
            PointerEvent::DragStarted { char_idx, in_resize_margin } => {
                if let Some(i) = char_idx {
                    if !in_resize_margin {
                        self.page = Some(page);
                        self.start = Some(i);
                        self.end = Some(i);
                    }
                }
                false
            },
            PointerEvent::Dragged { char_idx } => {
                if let Some(i) = char_idx {
                    if self.page == Some(page) {
                        self.end = Some(i);
                    }
                }
                false
            },
            PointerEvent::DoubleClicked { char_idx } => {
                if let Some(i) = char_idx {
                    let (a, b) = word_bounds(chars, i);
                    self.page = Some(page);
                    self.start = Some(a);
                    self.end = Some(b);
                }
                false
            },
            PointerEvent::SecondaryClicked => {
                self.page == Some(page) && self.start.is_some() && self.end.is_some()
            },
            PointerEvent::Clicked { drag_stopped } => {
                if !drag_stopped {
                    self.clear();
                }
                false
            },
            PointerEvent::Nothing => false,
        }
    }

    /// The characters to highlight on page `page` of `len` characters, as a
    /// half-open range.
    pub fn highlight_range(&self, page: usize, len: usize) -> (r: Option<(usize, usize)>)
        ensures
            r matches Some((lo, hi)) ==> self.page == Some(page) && self.start is Some
                && self.end is Some && covered_range(
                self.start->0 as nat,
                self.end->0 as nat,
                len as nat,
            ) == Some((lo as nat, hi as nat)),
            r is None ==> self.page != Some(page) || self.start is None || self.end is None
                || covered_range(self.start->0 as nat, self.end->0 as nat, len as nat) is None,
    {
        if self.page != Some(page) {
            return None;
        }
        match (self.start, self.end) {
            (Some(s), Some(e)) => {
                let lo = if s <= e {
                    s
                } else {
                    e
                };
                let hi = if s <= e {
                    e
                } else {
                    s
                };
                if lo < len {
                    Some((lo, if hi < len {
                        hi + 1
                    } else {
                        len
                    }))
                } else {
                    None
                }
            },
            _ => None,
        }
    }

    /// The selected text, given the characters of the selected page; none
    /// when nothing is selected or the selection lies past the text.
    pub fn selected_text(&self, chars: &Vec<char>) -> (r: Option<String>)
        ensures
            r matches Some(t) ==> {
                &&& self.page is Some
                &&& self.start is Some
                &&& self.end is Some
                &&& covered_range(self.start->0 as nat, self.end->0 as nat, chars@.len())
                    matches Some((lo, hi))
                &&& t@ == chars@.subrange(lo as int, hi as int)
            },
            r is None ==> self.page is None || self.start is None || self.end is None
                || covered_range(self.start->0 as nat, self.end->0 as nat, chars@.len()) is None,
    {
        match self.page {
            None => None,
            Some(p) => match self.highlight_range(p, chars.len()) {
                Some((lo, hi)) => Some(string_of_range(chars, lo, hi)),
                None => None,
            },
        }
    }
}

/// Pressing on a character and dragging to another on the same page selects
/// everything between the two, both included (cut at the end of the text).
pub proof fn law_drag_selects_between(
    s: Selection,
    page: usize,
    a: usize,
    b: usize,
    chars: Seq<char>,
)
    requires
        a < chars.len(),
    ensures
        ({
            let s1 = selection_step(
                s,
                page,
                PointerEvent::DragStarted { char_idx: Some(a), in_resize_margin: false },
                chars,
            ).0;
            let s2 = selection_step(s1, page, PointerEvent::Dragged { char_idx: Some(b) }, chars).0;
            &&& s2.page == Some(page)
            &&& covered_range(s2.start->0 as nat, s2.end->0 as nat, chars.len()) == Some(
                (
                    if a <= b {
                        a as nat
                    } else {
                        b as nat
                    },
                    if a <= b {
                        if b < chars.len() {
                            (b + 1) as nat
                        } else {
                            chars.len()
                        }
                    } else {
                        (a + 1) as nat
                    },
                ),
            )
        }),
{
}

/// A right-click on the page where a selection was started copies it, even
/// when it covers a single character.
pub proof fn law_right_click_copies(s: Selection, page: usize, a: usize, chars: Seq<char>)
    ensures
        selection_step(
            selection_step(
                s,
                page,
                PointerEvent::DragStarted { char_idx: Some(a), in_resize_margin: false },
                chars,
            ).0,
            page,
            PointerEvent::SecondaryClicked,
            chars,
        ).1,
{
}

/// A plain click (not the end of a drag) clears the selection, after which
/// there is nothing to copy.
pub proof fn law_click_clears(s: Selection, page: usize, chars: Seq<char>)
    ensures
        selection_step(s, page, PointerEvent::Clicked { drag_stopped: false }, chars).0.page
            is None,
        !selection_step(
            selection_step(s, page, PointerEvent::Clicked { drag_stopped: false }, chars).0,
            page,
            PointerEvent::SecondaryClicked,
            chars,
        ).1,
{
}

} // verus!
