//! View state and what the keyboard shortcuts do to it: night mode,
//! two-page mode, rotation, full screen, the overlays, and the keys that close the reader.

use vstd::prelude::*;
use crate::bookmarks::BookmarkNode;
use crate::search::SearchState;
use crate::text::{decimal, push_decimal, push_str_chars};

verus! {

/// The reader's view settings and which overlays are open.
pub struct ViewState {
    pub dark_mode: bool,
    pub dual_page: bool,
    pub fullscreen: bool,
    /// Quarter turns clockwise, 0 to 3.
    pub rotation: u8,
    pub goto_open: bool,
    pub outline_open: bool,
    pub search_open: bool,
    pub outline_filter: String,
    pub outline: Option<Vec<BookmarkNode>>,
}

/// Toast shown when full screen is switched.
pub open spec fn fullscreen_message(on: bool) -> Seq<char> {
    if on {
        "Plein écran activé"@
    } else {
        "Plein écran désactivé"@
    }
}

/// Toast shown when night mode is switched.
pub open spec fn dark_mode_message(on: bool) -> Seq<char> {
    if on {
        "Mode Nuit activé"@
    } else {
        "Mode Clair activé"@
    }
}

/// Toast shown when two-page mode is switched.
pub open spec fn dual_page_message(on: bool) -> Seq<char> {
    if on {
        "Mode Double Page : Activé"@
    } else {
        "Mode Page Simple : Activé"@
    }
}

/// Toast shown after a rotation: the angle in degrees.
pub open spec fn rotation_message(rotation: nat) -> Seq<char> {
    "Rotation : "@ + decimal(rotation * 90) + "°"@
}

/// Toast shown when reading resumes at a saved page (counted from zero).
pub open spec fn resume_message(page: nat, pages: nat) -> Seq<char> {
    "Reprise à la page "@ + decimal(page + 1) + " / "@ + decimal(pages)
}

/// The page to resume at when a document opens: the saved page, if one was
/// saved and it is a page after the first that the document has.
pub open spec fn resume_at(saved: Option<usize>, pages: nat) -> Option<usize> {
    match saved {
        Some(p) => if p > 0 && p < pages {
            Some(p)
        } else {
            None
        },
        None => None,
    }
}

/// The page to resume at, and the toast announcing it.
pub fn resume_page(saved: Option<usize>, pages: usize) -> (r: Option<(usize, String)>)
    ensures
        match r {
            Some((p, msg)) => resume_at(saved, pages as nat) == Some(p) && msg@ == resume_message(
                p as nat,
                pages as nat,
            ),
            None => resume_at(saved, pages as nat) is None,
        },
{
    match saved {
        Some(p) => {
            if p > 0 && p < pages {
                let mut msg = String::new();
                push_str_chars(&mut msg, "Reprise à la page ");
                push_decimal(&mut msg, p + 1);
                push_str_chars(&mut msg, " / ");
                push_decimal(&mut msg, pages);
                assert(msg@ =~= resume_message(p as nat, pages as nat));
                Some((p, msg))
            } else {
                None
            }
        },
        None => None,
    }
}

/// The quarter turn after `r`.
pub open spec fn next_rotation(r: nat) -> nat {
    (r + 1) % 4
}

/// Reading resumes at the page last recorded for a document, when that is
/// a page after the first that the document has.
pub proof fn law_resume_at_recorded_page(
    history: Map<Seq<char>, usize>,
    path: Seq<char>,
    page: usize,
    pages: nat,
)
    requires
        0 < page < pages,
    ensures
        resume_at(Some(history.insert(path, page)[path]), pages) == Some(page),
{
}

/// Four rotations bring the page back to where it was.
pub proof fn law_four_rotations(r: nat)
    requires
        r < 4,
    ensures
        next_rotation(next_rotation(next_rotation(next_rotation(r)))) == r,
{
}

impl ViewState {
    /// The view when the reader starts: night mode and two-page mode as the
    /// preferences say, no rotation, nothing open.
    pub fn new(dark_mode: bool, dual_page: bool) -> (v: ViewState)
        ensures
            v.dark_mode == dark_mode,
            v.dual_page == dual_page,
            !v.fullscreen,
            v.rotation == 0,
            !v.goto_open,
            !v.outline_open,
            !v.search_open,
            v.outline_filter@ == Seq::<char>::empty(),
            v.outline is None,
    {
        ViewState {
            dark_mode,
            dual_page,
            fullscreen: false,
            rotation: 0,
            goto_open: false,
            outline_open: false,
            search_open: false,
            outline_filter: String::new(),
            outline: None,
        }
    }

    /// Whether keys go to a text box rather than to the shortcuts: an
    /// overlay with a text box is open, or another text field has focus.
    pub fn is_typing(&self, text_field_focused: bool) -> (b: bool)
        ensures
            b == (self.goto_open || self.search_open || self.outline_open || text_field_focused),
    {
        self.goto_open || self.search_open || self.outline_open || text_field_focused
    }

    /// Whether the keys pressed close the reader: Escape always does, at
    /// once, whatever is open; Q does too, unless keys go to a text box.
    pub fn quit_requested(&self, escape: bool, q: bool, text_field_focused: bool) -> (quit: bool)
        ensures
            quit == (escape || (q && !(self.goto_open || self.search_open || self.outline_open
                || text_field_focused))),
    {
        escape || (q && !self.is_typing(text_field_focused))
    }

    /// Closes the go-to box.
    pub fn close_goto(&mut self)
        ensures
            *final(self) == (ViewState { goto_open: false, ..*old(self) }),
    {
        self.goto_open = false;
    }

    /// Closes the outline.
    pub fn close_outline(&mut self)
        ensures
            *final(self) == (ViewState { outline_open: false, ..*old(self) }),
    {
        self.outline_open = false;
    }

    /// Closes the search bar and drops its matches.
    pub fn close_search<R>(&mut self, search: &mut SearchState<R>)
        ensures
            *final(self) == (ViewState { search_open: false, ..*old(self) }),
            final(search).matches@.len() == 0,
            final(search).query == old(search).query,
            final(search).last_query == old(search).last_query,
            final(search).current == old(search).current,
            final(search).searching == old(search).searching,
    {
        self.search_open = false;
        search.clear_matches();
    }

    /// Switches full screen; gives the toast to show.
    pub fn toggle_fullscreen(&mut self) -> (msg: String)
        ensures
            *final(self) == (ViewState { fullscreen: !old(self).fullscreen, ..*old(self) }),
            msg@ == fullscreen_message(final(self).fullscreen),
    {
        self.fullscreen = !self.fullscreen;
        if self.fullscreen {
            "Plein écran activé".to_owned()
        } else {
            "Plein écran désactivé".to_owned()
        }
    }

    /// Switches night mode; gives the toast to show.
    pub fn toggle_dark_mode(&mut self) -> (msg: String)
        ensures
            *final(self) == (ViewState { dark_mode: !old(self).dark_mode, ..*old(self) }),
            msg@ == dark_mode_message(final(self).dark_mode),
    {
        self.dark_mode = !self.dark_mode;
        if self.dark_mode {
            "Mode Nuit activé".to_owned()
        } else {
            "Mode Clair activé".to_owned()
        }
    }

    /// Switches two-page mode; gives the toast to show.
    pub fn toggle_dual_page(&mut self) -> (msg: String)
        ensures
            *final(self) == (ViewState { dual_page: !old(self).dual_page, ..*old(self) }),
            msg@ == dual_page_message(final(self).dual_page),
    {
        self.dual_page = !self.dual_page;
        if self.dual_page {
            "Mode Double Page : Activé".to_owned()
        } else {
            "Mode Page Simple : Activé".to_owned()
        }
    }

    /// Turns the pages a quarter turn clockwise; gives the toast to show.
    pub fn cycle_rotation(&mut self) -> (msg: String)
        requires
            old(self).rotation < 255,
        ensures
            *final(self) == (ViewState {
                rotation: next_rotation(old(self).rotation as nat) as u8,
                ..*old(self)
            }),
            msg@ == rotation_message(final(self).rotation as nat),
    {
        self.rotation = (self.rotation + 1) % 4;
        let mut msg = String::new();
        push_str_chars(&mut msg, "Rotation : ");
        push_decimal(&mut msg, (self.rotation as usize) * 90);
        push_str_chars(&mut msg, "°");
        assert(msg@ =~= rotation_message(self.rotation as nat));
        msg
    }

    /// Opens or closes the go-to box; gives whether it is now open.
    pub fn toggle_goto(&mut self) -> (open: bool)
        ensures
            *final(self) == (ViewState { goto_open: !old(self).goto_open, ..*old(self) }),
            open == final(self).goto_open,
    {
        self.goto_open = !self.goto_open;
        self.goto_open
    }

    /// Opens or closes the search bar; closing it drops the matches.
    pub fn toggle_search<R>(&mut self, search: &mut SearchState<R>)
        ensures
            *final(self) == (ViewState { search_open: !old(self).search_open, ..*old(self) }),
            !final(self).search_open ==> final(search).matches@.len() == 0,
            final(self).search_open ==> final(search).matches@ == old(search).matches@,
            final(search).query == old(search).query,
            final(search).last_query == old(search).last_query,
            final(search).current == old(search).current,
            final(search).searching == old(search).searching,
    {
        self.search_open = !self.search_open;
        if !self.search_open {
            search.clear_matches();
        }
    }

    /// Opens or closes the outline; gives whether the outline must now be
    /// read from the document (it opened and was not read yet).
    pub fn toggle_outline(&mut self) -> (load: bool)
        ensures
            *final(self) == (ViewState { outline_open: !old(self).outline_open, ..*old(self) }),
            load == (final(self).outline_open && old(self).outline is None),
    {
        self.outline_open = !self.outline_open;
        self.outline_open && self.outline.is_none()
    }

    /// A document was opened: no rotation, the search bar and outline
    /// closed, the query, its matches, the outline and its filter forgotten.
    /// Night mode and two-page mode, which the preferences remember, stay.
    pub fn reset_for_document<R>(&mut self, search: &mut SearchState<R>)
        ensures
            final(self).rotation == 0,
            final(self).dual_page == old(self).dual_page,
            !final(self).search_open,
            !final(self).outline_open,
            final(self).outline is None,
            final(self).outline_filter@ == Seq::<char>::empty(),
            final(self).dark_mode == old(self).dark_mode,
            final(self).fullscreen == old(self).fullscreen,
            final(self).goto_open == old(self).goto_open,
            final(search).matches@.len() == 0,
            final(search).query@ == Seq::<char>::empty(),
            final(search).last_query@ == Seq::<char>::empty(),
            !final(search).searching,
            final(search).current == old(search).current,
    {
        self.rotation = 0;
        self.search_open = false;
        search.matches.clear();
        search.query = String::new();
        search.last_query = String::new();
        search.searching = false;
        self.outline_open = false;
        self.outline_filter = String::new();
        self.outline = None;
    }
}

} // verus!
