//! Text search results and their navigation, the match counter, and the
//! go-to-page box.

use vstd::prelude::*;
use crate::layout::{row_of, row_pages, rows_for};
use crate::text::{
    chars_of, decimal, is_blank, is_blank_str, parse_usize_spec, push_decimal, push_str_chars,
    trim, trim_bounds, parse_usize_range, lemma_decimal_parses,
};

verus! {

/// One occurrence of the query, on page `page_idx`, covering the areas
/// `rects` of that page.
pub struct SearchMatch<R> {
    pub page_idx: usize,
    pub rects: Vec<R>,
}

/// What a change of the query asks for.
#[derive(PartialEq, Eq, Debug, Clone, Copy)]
pub enum QueryChange {
    /// The query is the one last searched: nothing to do.
    Unchanged,
    /// The query changed to blank: stop any running search.
    Cleared,
    /// The query changed: stop any running search and start one for it.
    Started,
}

/// State of the search bar: the query being typed, the query last searched,
/// the matches found so far and which one is current.
pub struct SearchState<R> {
    pub query: String,
    pub last_query: String,
    pub matches: Vec<SearchMatch<R>>,
    pub current: usize,
    pub searching: bool,
}

/// The match after `c` among `n`, wrapping to the first.
pub open spec fn next_index(c: nat, n: nat) -> nat {
    (c + 1) % n
}

/// The match before `c` among `n`, wrapping to the last.
pub open spec fn previous_index(c: nat, n: nat) -> nat {
    if c == 0 {
        (n - 1) as nat
    } else {
        (c - 1) as nat
    }
}

/// The current match after `k` steps forward from `c`.
pub open spec fn steps_forward(c: nat, n: nat, k: nat) -> nat
    decreases k,
{
    if k == 0 {
        c
    } else {
        next_index(steps_forward(c, n, (k - 1) as nat), n)
    }
}

proof fn lemma_mod_succ(x: int, n: int)
    requires
        n > 0,
    ensures
        ((x % n) + 1) % n == (x + 1) % n,
{
    vstd::arithmetic::div_mod::lemma_add_mod_noop(x, 1, n);
    vstd::arithmetic::div_mod::lemma_add_mod_noop(x % n, 1, n);
    vstd::arithmetic::div_mod::lemma_mod_twice(x, n);
}

/// Stepping forward then back, or back then forward, returns to the same
/// match, and both stay among the matches.
pub proof fn law_next_previous_inverse(c: nat, n: nat)
    requires
        c < n,
    ensures
        previous_index(next_index(c, n), n) == c,
        next_index(previous_index(c, n), n) == c,
        next_index(c, n) < n,
        previous_index(c, n) < n,
{
    if c + 1 == n {
        vstd::arithmetic::div_mod::lemma_mod_self_0(n as int);
    } else {
        vstd::arithmetic::div_mod::lemma_small_mod(c + 1, n);
    }
    if c == 0 {
        vstd::arithmetic::div_mod::lemma_mod_self_0(n as int);
    } else {
        vstd::arithmetic::div_mod::lemma_small_mod(c, n);
    }
}

/// `k` steps forward from `c` land on `(c + k) mod n`; in particular `n`
/// steps go all the way round.
pub proof fn law_steps_forward(c: nat, n: nat, k: nat)
    requires
        c < n,
    ensures
        steps_forward(c, n, k) == (c + k) % n,
    decreases k,
{
    if k == 0 {
        vstd::arithmetic::div_mod::lemma_small_mod(c, n);
    } else {
        law_steps_forward(c, n, (k - 1) as nat);
        lemma_mod_succ((c + k - 1) as int, n as int);
    }
}

/// The text next to the search box: empty for a blank query; `n/... ` while
/// searching; `0 / 0` when nothing was found; else `current / total`,
/// counted from one.
pub open spec fn counter_text(query: Seq<char>, searching: bool, current: nat, total: nat) -> Seq<
    char,
> {
    if is_blank(query) {
        Seq::empty()
    } else if searching {
        decimal(total) + "/... "@
    } else if total == 0 {
        "0 / 0"@
    } else {
        decimal(current + 1) + " / "@ + decimal(total)
    }
}

impl<R> SearchState<R> {
    /// No query, no matches.
    pub fn new() -> (s: SearchState<R>)
        ensures
            s.query@ == Seq::<char>::empty(),
            s.last_query@ == Seq::<char>::empty(),
            s.matches@.len() == 0,
            s.current == 0,
            !s.searching,
    {
        SearchState {
            query: String::new(),
            last_query: String::new(),
            matches: Vec::new(),
            current: 0,
            searching: false,
        }
    }

    /// Reacts to the query as typed: when it differs from the one last
    /// searched, that becomes the query searched, the matches are dropped,
    /// the first match becomes current, and a search runs unless the query
    /// is blank.
    pub fn query_changed(&mut self) -> (r: QueryChange)
        ensures
            final(self).query@ == old(self).query@,
            old(self).query@ == old(self).last_query@ ==> r == QueryChange::Unchanged
                && final(self).last_query@ == old(self).last_query@
                && final(self).matches@ == old(self).matches@ && final(self).current
                == old(self).current && final(self).searching == old(self).searching,
            old(self).query@ != old(self).last_query@ ==> {
                &&& final(self).last_query@ == old(self).query@
                &&& final(self).matches@.len() == 0
                &&& final(self).current == 0
                &&& final(self).searching == !is_blank(old(self).query@)
                &&& r == if is_blank(old(self).query@) {
                    QueryChange::Cleared
                } else {
                    QueryChange::Started
                }
            },
    {
        if self.query == self.last_query {
            return QueryChange::Unchanged;
        }
        self.last_query = self.query.clone();
        self.matches.clear();
        self.current = 0;
        let blank = is_blank_str(self.query.as_str());
        self.searching = !blank;
        if blank {
            QueryChange::Cleared
        } else {
            QueryChange::Started
        }
    }

    /// Adds a match found by the running search. Returns whether it is the
    /// first one.
    pub fn push_match(&mut self, m: SearchMatch<R>) -> (first: bool)
        ensures
            final(self).matches@ == old(self).matches@.push(m),
            first == (old(self).matches@.len() == 0),
            final(self).current == old(self).current,
            final(self).searching == old(self).searching,
            final(self).query == old(self).query,
            final(self).last_query == old(self).last_query,
    {
        let first = self.matches.len() == 0;
        self.matches.push(m);
        first
    }

    /// The running search has gone through every page.
    pub fn finish(&mut self)
        ensures
            !final(self).searching,
            final(self).matches@ == old(self).matches@,
            final(self).current == old(self).current,
            final(self).query == old(self).query,
            final(self).last_query == old(self).last_query,
    {
        self.searching = false;
    }

    /// Drops the matches (the search bar closed).
    pub fn clear_matches(&mut self)
        ensures
            final(self).matches@.len() == 0,
            final(self).current == old(self).current,
            final(self).searching == old(self).searching,
            final(self).query == old(self).query,
            final(self).last_query == old(self).last_query,
    {
        self.matches.clear();
    }

    /// Makes the next match current, wrapping to the first, and gives its
    /// page; with no match, nothing changes.
    pub fn next(&mut self) -> (page: Option<usize>)
        ensures
            old(self).matches@.len() == 0 ==> page is None && final(self).current == old(
                self,
            ).current,
            old(self).matches@.len() > 0 ==> final(self).current == next_index(
                old(self).current as nat,
                old(self).matches@.len(),
            ) && page == Some(old(self).matches@[final(self).current as int].page_idx),
            final(self).matches@ == old(self).matches@,
            final(self).searching == old(self).searching,
            final(self).query == old(self).query,
            final(self).last_query == old(self).last_query,
    {
        let n = self.matches.len();
        if n == 0 {
            return None;
        }
        self.current = (self.current % n + 1) % n;
        proof {
            lemma_mod_succ(old(self).current as int, n as int);
        }
        Some(self.matches[self.current].page_idx)
    }

    /// Makes the previous match current, wrapping to the last, and gives its
    /// page; with no match, nothing changes.
    pub fn previous(&mut self) -> (page: Option<usize>)
        requires
            old(self).matches@.len() == 0 || old(self).current <= old(self).matches@.len(),
        ensures
            old(self).matches@.len() == 0 ==> page is None && final(self).current == old(
                self,
            ).current,
            old(self).matches@.len() > 0 ==> final(self).current == previous_index(
                old(self).current as nat,
                old(self).matches@.len(),
            ) && page == Some(old(self).matches@[final(self).current as int].page_idx),
            final(self).matches@ == old(self).matches@,
            final(self).searching == old(self).searching,
            final(self).query == old(self).query,
            final(self).last_query == old(self).last_query,
    {
        let n = self.matches.len();
        if n == 0 {
            return None;
        }
        if self.current == 0 {
            self.current = n - 1;
        } else {
            self.current = self.current - 1;
        }
        Some(self.matches[self.current].page_idx)
    }

    /// The counter shown next to the search box.
    pub fn counter(&self) -> (text: String)
        requires
            self.current < usize::MAX,
        ensures
            text@ == counter_text(
                self.query@,
                self.searching,
                self.current as nat,
                self.matches@.len(),
            ),
    {
        let mut text = String::new();
        if is_blank_str(self.query.as_str()) {
        } else if self.searching {
            push_decimal(&mut text, self.matches.len());
            push_str_chars(&mut text, "/... ");
        } else if self.matches.len() == 0 {
            push_str_chars(&mut text, "0 / 0");
        } else {
            push_decimal(&mut text, self.current + 1);
            push_str_chars(&mut text, " / ");
            push_decimal(&mut text, self.matches.len());
        }
        assert(text@ =~= counter_text(
            self.query@,
            self.searching,
            self.current as nat,
            self.matches@.len(),
        ));
        text
    }
}

/// The row to scroll to for what was typed in the go-to-page box: the
/// trimmed text read as a page number counted from one, when it names a
/// page of the document.
pub open spec fn goto_row(input: Seq<char>, pages: nat, dual: bool) -> Option<nat> {
    match parse_usize_spec(trim(input)) {
        Some(num) => if 1 <= num <= pages {
            Some(row_of((num - 1) as nat, dual))
        } else {
            None
        },
        None => None,
    }
}

/// The go-to box scrolls to a row that shows the page typed: when the
/// trimmed text is a page number `n` of the document (counted from one),
/// the row is one of the document's rows and page `n` (index `n - 1`) is on
/// it; any other text scrolls nowhere.
pub proof fn law_goto_shows_typed_page(input: Seq<char>, pages: nat, dual: bool)
    ensures
        match parse_usize_spec(trim(input)) {
            Some(n) => if 1 <= n <= pages {
                goto_row(input, pages, dual) matches Some(r) && r < rows_for(pages, dual)
                    && row_pages(r, pages, dual).contains((n - 1) as nat)
            } else {
                goto_row(input, pages, dual) is None
            },
            None => goto_row(input, pages, dual) is None,
        },
{
    if let Some(n) = parse_usize_spec(trim(input)) {
        if 1 <= n <= pages {
            let p = (n - 1) as nat;
            let r = row_of(p, dual);
            if dual {
                assert(p / 2 < (pages + 1) / 2);
                if p % 2 == 0 {
                    assert(row_pages(r, pages, dual)[0] == p);
                } else {
                    assert(2 * r + 1 == p);
                    assert(row_pages(r, pages, dual)[1] == p);
                }
            } else {
                assert(row_pages(r, pages, dual)[0] == p);
            }
        }
    }
}

/// Typing the number of a page of the document in the go-to box scrolls to
/// a row that shows that page.
pub proof fn law_goto_typed_number(n: usize, pages: nat, dual: bool)
    requires
        1 <= n <= pages,
    ensures
        goto_row(decimal(n as nat), pages, dual) matches Some(r) && r < rows_for(pages, dual)
            && row_pages(r, pages, dual).contains((n - 1) as nat),
{
    lemma_decimal_parses(n);
    law_goto_shows_typed_page(decimal(n as nat), pages, dual);
}

/// The row to scroll to for the go-to-page box, if the text names a page.
pub fn goto_target_row(input: &str, pages: usize, dual: bool) -> (r: Option<usize>)
    ensures
        match r {
            Some(row) => goto_row(input@, pages as nat, dual) == Some(row as nat),
            None => goto_row(input@, pages as nat, dual) is None,
        },
{
    let v = chars_of(input);
    let (a, b) = trim_bounds(&v, 0, v.len());
    assert(v@.subrange(0, v.len() as int) =~= input@);
    match parse_usize_range(&v, a, b) {
        Some(num) => {
            if num >= 1 && num <= pages {
                Some(crate::layout::row_of_page(num - 1, dual))
            } else {
                None
            }
        },
        None => None,
    }
}

} // verus!
