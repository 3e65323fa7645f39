//! The reading-position history: for each document path, the page the reader
//! was last on. Stored as text, one `page|path` line per document.

use vstd::prelude::*;
use crate::assoc::{
    map_of, lemma_map_of_dom, lemma_map_of_len, lemma_map_of_unique_lookup, lemma_map_of_update,
};
use crate::text::{
    chars_of, decimal, find_char, is_ws, lemma_decimal_parses, lemma_index_of,
    lemma_split_lines_cons, lemma_trimmed_last_not_ws, line_at, parse_usize_range,
    parse_usize_spec, push_decimal, push_range, split_lines, split_once, string_of_range,
    strip_cr, trim, trim_bounds,
};

verus! {

/// The entry one history line gives: the trimmed text before the first `|`
/// read as a page number, and the trimmed text after it as the path.
pub open spec fn history_line(line: Seq<char>) -> Option<(Seq<char>, usize)> {
    match split_once(line, '|') {
        Some((page_text, path_text)) => match parse_usize_spec(trim(page_text)) {
            Some(page) => Some((trim(path_text), page)),
            None => None,
        },
        None => None,
    }
}

/// The history read from a sequence of lines; lines that do not hold an
/// entry are skipped.
pub open spec fn history_of_lines(lines: Seq<Seq<char>>) -> Map<Seq<char>, usize>
    decreases lines.len(),
{
    if lines.len() == 0 {
        Map::empty()
    } else {
        let m = history_of_lines(lines.drop_last());
        match history_line(lines.last()) {
            Some((path, page)) => m.insert(path, page),
            None => m,
        }
    }
}

/// The history read from a whole text.
pub open spec fn history_of_text(text: Seq<char>) -> Map<Seq<char>, usize> {
    history_of_lines(split_lines(text))
}

/// The line written for one entry, without its line ending.
pub open spec fn entry_line(e: (Seq<char>, usize)) -> Seq<char> {
    decimal(e.1 as nat) + seq!['|'] + e.0
}

/// The text written for a sequence of entries: one line per entry, each
/// ended by `\n`.
pub open spec fn history_text(entries: Seq<(Seq<char>, usize)>) -> Seq<char>
    decreases entries.len(),
{
    if entries.len() == 0 {
        Seq::empty()
    } else {
        entry_line(entries[0]) + seq!['\n'] + history_text(entries.drop_first())
    }
}

/// A path that survives being written and read back: no line break in it,
/// and no whitespace at either end.
pub open spec fn is_storable_path(p: Seq<char>) -> bool {
    &&& forall|i: int| 0 <= i < p.len() ==> p[i] != '\n'
    &&& trim(p) == p
}

/// The entries after recording `page` for `path`: the entry for that path
/// takes the new page where it stands, or a new entry comes last.
pub open spec fn entries_after_insert(
    es: Seq<(Seq<char>, usize)>,
    path: Seq<char>,
    page: usize,
) -> Seq<(Seq<char>, usize)> {
    if exists|i: int| 0 <= i < es.len() && es[i].0 == path {
        es.update(choose|i: int| 0 <= i < es.len() && es[i].0 == path, (path, page))
    } else {
        es.push((path, page))
    }
}

/// The entries, in order, of the history read from a sequence of lines.
pub open spec fn entries_of_lines(lines: Seq<Seq<char>>) -> Seq<(Seq<char>, usize)>
    decreases lines.len(),
{
    if lines.len() == 0 {
        Seq::empty()
    } else {
        let es = entries_of_lines(lines.drop_last());
        match history_line(lines.last()) {
            Some((path, page)) => entries_after_insert(es, path, page),
            None => es,
        }
    }
}

/// Reading positions by document path.
pub struct History {
    entries: Vec<(String, usize)>,
}

impl View for History {
    type V = Map<Seq<char>, usize>;

    closed spec fn view(&self) -> Map<Seq<char>, usize> {
        map_of(self.entries_view())
    }
}

proof fn lemma_history_text_append(a: Seq<(Seq<char>, usize)>, e: (Seq<char>, usize))
    ensures
        history_text(a.push(e)) == history_text(a) + entry_line(e) + seq!['\n'],
    decreases a.len(),
{
    if a.len() == 0 {
        let t = a.push(e);
        assert(t.drop_first() =~= Seq::<(Seq<char>, usize)>::empty());
        assert(history_text(t.drop_first()) =~= Seq::<char>::empty());
        assert(t[0] == e);
        assert(history_text(t) =~= history_text(a) + entry_line(e) + seq!['\n']);
    } else {
        lemma_history_text_append(a.drop_first(), e);
        assert(a.push(e).drop_first() =~= a.drop_first().push(e));
        assert(history_text(a.push(e)) =~= history_text(a) + entry_line(e) + seq!['\n']);
    }
}

impl History {
    /// The entries in the order they are written out, as plain values.
    pub closed spec fn entries_view(&self) -> Seq<(Seq<char>, usize)> {
        self.entries@.map_values(|e: (String, usize)| (e.0@, e.1))
    }

    /// No path occurs twice.
    pub closed spec fn wf(&self) -> bool {
        forall|a: int, b: int|
            0 <= a < b < self.entries@.len() ==> self.entries@[a].0@ != self.entries@[b].0@
    }

    /// An empty history.
    pub fn new() -> (h: History)
        ensures
            h.wf(),
            h@ == Map::<Seq<char>, usize>::empty(),
            h.entries_view() == Seq::<(Seq<char>, usize)>::empty(),
    {
        let h = History { entries: Vec::new() };
        assert(h.entries_view() =~= Seq::<(Seq<char>, usize)>::empty());
        h
    }

    /// Number of documents in the history.
    pub fn len(&self) -> (n: usize)
        requires
            self.wf(),
        ensures
            self@.dom().finite(),
            n == self@.dom().len(),
    {
        proof {
            lemma_map_of_len(self.entries_view());
        }
        self.entries.len()
    }

    fn position(&self, path: &String) -> (r: Option<usize>)
        requires
            self.wf(),
        ensures
            match r {
                Some(i) => i < self.entries@.len() && self.entries@[i as int].0@ == path@,
                None => forall|i: int|
                    0 <= i < self.entries@.len() ==> self.entries@[i].0@ != path@,
            },
    {
        let mut i: usize = 0;
        while i < self.entries.len()
            invariant
                i <= self.entries@.len(),
                forall|k: int| 0 <= k < i ==> self.entries@[k].0@ != path@,
            decreases self.entries@.len() - i,
        {
            if self.entries[i].0 == *path {
                return Some(i);
            }
            i = i + 1;
        }
        None
    }

    /// The page recorded for a document, if any.
    pub fn get(&self, path: &String) -> (r: Option<usize>)
        requires
            self.wf(),
        ensures
            r == (if self@.contains_key(path@) {
                Some(self@[path@])
            } else {
                None
            }),
    {
        let ghost es = self.entries_view();
        proof {
            lemma_map_of_dom(es, path@);
        }
        match self.position(path) {
            Some(i) => {
                proof {
                    lemma_map_of_unique_lookup(es, i as int);
                }
                Some(self.entries[i].1)
            },
            None => {
                assert forall|i: int| 0 <= i < es.len() implies es[i].0 != path@ by {
                    assert(es[i].0 == self.entries@[i].0@);
                }
                None
            },
        }
    }

    /// Records `page` for `path`, replacing what was recorded for it before.
    pub fn insert(&mut self, path: String, page: usize)
        requires
            old(self).wf(),
        ensures
            final(self).wf(),
            final(self)@ == old(self)@.insert(path@, page),
            final(self).entries_view() == entries_after_insert(old(self).entries_view(), path@, page),
    {
        let ghost es = self.entries_view();
        let ghost p = path@;
        match self.position(&path) {
            Some(i) => {
                self.entries.set(i, (path, page));
                proof {
                    lemma_map_of_update(es, i as int, page);
                    assert(self.entries_view() =~= es.update(i as int, (es[i as int].0, page)));
                    assert(es[i as int].0 == p);
                    let j = choose|j: int| 0 <= j < es.len() && es[j].0 == p;
                    assert(j == i as int) by {
                        if j != i as int {
                            assert(old(self).entries@[j].0@ == es[j].0);
                            assert(old(self).entries@[i as int].0@ == es[i as int].0);
                        }
                    }
                }
            },
            None => {
                self.entries.push((path, page));
                proof {
                    assert(self.entries_view() =~= es.push((p, page)));
                    assert(self.entries_view().drop_last() =~= es);
                    assert(!exists|j: int| 0 <= j < es.len() && es[j].0 == p) by {
                        assert forall|j: int| 0 <= j < es.len() implies es[j].0 != p by {
                            assert(es[j].0 == old(self).entries@[j].0@);
                        }
                    }
                }
            },
        }
    }

    /// Records that the reader is on `page` of `path`. Returns whether the
    /// history changed, that is, whether it held another page (or none) for
    /// that path; afterwards reading the path gives `page`.
    pub fn record(&mut self, path: String, page: usize) -> (changed: bool)
        requires
            old(self).wf(),
        ensures
            final(self).wf(),
            final(self)@ == old(self)@.insert(path@, page),
            final(self)@[path@] == page,
            final(self).entries_view() == entries_after_insert(old(self).entries_view(), path@, page),
            changed == !(old(self)@.contains_key(path@) && old(self)@[path@] == page),
    {
        let current = self.get(&path);
        if current != Some(page) {
            self.insert(path, page);
            true
        } else {
            let ghost es = self.entries_view();
            let ghost p = path@;
            proof {
                assert(self@.insert(p, page) =~= self@);
                lemma_map_of_dom(es, p);
                let j = choose|j: int| 0 <= j < es.len() && es[j].0 == p;
                lemma_map_of_unique_lookup(es, j);
                assert(es.update(j, (p, page)) =~= es);
            }
            false
        }
    }

    /// The history as text: one `page|path` line per document, each ended by
    /// a line feed.
    pub fn to_text(&self) -> (text: String)
        ensures
            text@ == history_text(self.entries_view()),
    {
        let ghost es = self.entries_view();
        let mut out = String::new();
        let mut i: usize = 0;
        while i < self.entries.len()
            invariant
                i <= self.entries@.len(),
                es == self.entries_view(),
                out@ == history_text(es.take(i as int)),
            decreases self.entries@.len() - i,
        {
            let ghost before = out@;
            push_decimal(&mut out, self.entries[i].1);
            out.push('|');
            let path = chars_of(self.entries[i].0.as_str());
            push_range(&mut out, &path, 0, path.len());
            out.push('\n');
            proof {
                assert(path@.subrange(0, path@.len() as int) =~= path@);
                assert(es[i as int] == (self.entries@[i as int].0@, self.entries@[i as int].1));
                lemma_history_text_append(es.take(i as int), es[i as int]);
                assert(es.take(i + 1) =~= es.take(i as int).push(es[i as int]));
                assert(out@ =~= history_text(es.take(i + 1)));
            }
            i = i + 1;
        }
        assert(es.take(i as int) =~= es);
        out
    }

    /// Reads a history from text: every line of the form `page|path`, page
    /// and path trimmed, gives an entry; other lines are skipped; a later
    /// line for a path replaces an earlier one.
    pub fn from_text(text: &str) -> (h: History)
        ensures
            h.wf(),
            h@ == history_of_text(text@),
            h.entries_view() == entries_of_lines(split_lines(text@)),
    {
        let s = chars_of(text);
        let mut h = History::new();
        let ghost mut seen: Seq<Seq<char>> = Seq::empty();
        let mut pos: usize = 0;
        proof {
            crate::text::lemma_split_lines_from_start(s@);
        }
        while pos < s.len()
            invariant
                pos <= s.len(),
                h.wf(),
                split_lines(s@) == seen + split_lines(s@.skip(pos as int)),
                h@ == history_of_lines(seen),
                h.entries_view() == entries_of_lines(seen),
            decreases s.len() - pos,
        {
            let (end, next) = line_at(&s, pos);
            let ghost line = s@.subrange(pos as int, end as int);
            match parse_history_line(&s, pos, end) {
                Some((path, page)) => {
                    h.insert(path, page);
                },
                None => {},
            }
            proof {
                assert(seen.push(line).drop_last() =~= seen);
                assert(split_lines(s@) =~= seen.push(line) + split_lines(s@.skip(next as int)));
                seen = seen.push(line);
            }
            pos = next;
        }
        proof {
            crate::text::lemma_split_lines_from_start(s@);
            assert(seen + Seq::<Seq<char>>::empty() =~= seen);
            assert(s@ == text@);
        }
        h
    }
}

/// Reads one history line held in `s[lo..hi]`.
fn parse_history_line(s: &Vec<char>, lo: usize, hi: usize) -> (r: Option<(String, usize)>)
    requires
        lo <= hi <= s.len(),
    ensures
        match r {
            Some((path, page)) => history_line(s@.subrange(lo as int, hi as int)) == Some(
                (path@, page),
            ),
            None => history_line(s@.subrange(lo as int, hi as int)) is None,
        },
{
    let ghost line = s@.subrange(lo as int, hi as int);
    let bar = find_char(s, lo, hi, '|');
    if bar == hi {
        return None;
    }
    assert(line.take(bar - lo) =~= s@.subrange(lo as int, bar as int));
    assert(line.skip(bar - lo + 1) =~= s@.subrange(bar + 1, hi as int));
    let (a, b) = trim_bounds(s, lo, bar);
    match parse_usize_range(s, a, b) {
        None => None,
        Some(page) => {
            let (c, d) = trim_bounds(s, bar + 1, hi);
            Some((string_of_range(s, c, d), page))
        },
    }
}

/// A history line of a page number, `|` and a path reads as that page for
/// the path without the whitespace around it, whatever the path holds
/// (a further `|` included).
pub proof fn law_history_line_reads(page: usize, path: Seq<char>)
    ensures
        history_line(decimal(page as nat) + seq!['|'] + path) == Some((trim(path), page)),
{
    let d = decimal(page as nat);
    let l = d + seq!['|'] + path;
    crate::text::lemma_decimal_digits(page as nat);
    lemma_decimal_parses(page);
    assert forall|i: int| 0 <= i < d.len() implies l[i] != '|' by {
        assert(l[i] == d[i]);
        assert(crate::text::is_digit(d[i]));
    }
    assert(l[d.len() as int] == '|');
    lemma_index_of(l, '|', d.len() as int);
    assert(l.take(d.len() as int) =~= d);
    assert(l.skip(d.len() as int + 1) =~= path);
}

/// Writing a history out and reading the text back gives the same history,
/// provided no path in it holds a line break or starts or ends with
/// whitespace.
pub proof fn lemma_history_round_trip(h: History)
    requires
        forall|p: Seq<char>| #[trigger] h@.contains_key(p) ==> is_storable_path(p),
    ensures
        history_of_text(history_text(h.entries_view())) == h@,
{
    let es = h.entries_view();
    assert forall|i: int| 0 <= i < es.len() implies is_storable_path(#[trigger] es[i].0) by {
        lemma_map_of_dom(es, es[i].0);
        assert(exists|j: int| 0 <= j < es.len() && es[j].0 == es[i].0);
        assert(h@.contains_key(es[i].0));
    }
    lemma_text_round_trip(es);
}

proof fn lemma_entry_line_reads_back(e: (Seq<char>, usize))
    requires
        is_storable_path(e.0),
    ensures
        history_line(entry_line(e)) == Some(e),
        forall|i: int| 0 <= i < entry_line(e).len() ==> entry_line(e)[i] != '\n',
        strip_cr(entry_line(e)) == entry_line(e),
{
    let d = decimal(e.1 as nat);
    let l = entry_line(e);
    lemma_decimal_parses(e.1);
    lemma_decimal_chars(e.1 as nat);
    assert forall|i: int| 0 <= i < d.len() implies l[i] != '|' by {
        assert(l[i] == d[i]);
    }
    assert(l[d.len() as int] == '|');
    lemma_index_of(l, '|', d.len() as int);
    assert(l.take(d.len() as int) =~= d);
    assert(l.skip(d.len() as int + 1) =~= e.0);
    assert forall|i: int| 0 <= i < l.len() implies l[i] != '\n' by {
        if i < d.len() {
            assert(l[i] == d[i]);
        } else if i > d.len() {
            assert(l[i] == e.0[i - d.len() - 1]);
        }
    }
    if e.0.len() > 0 {
        assert(l.last() == e.0.last());
        lemma_trimmed_last_not_ws(e.0);
    }
}

proof fn lemma_decimal_chars(n: nat)
    ensures
        forall|i: int|
            0 <= i < decimal(n).len() ==> #[trigger] decimal(n)[i] != '|' && decimal(n)[i] != '\n',
{
    crate::text::lemma_decimal_digits(n);
    assert forall|i: int| 0 <= i < decimal(n).len() implies #[trigger] decimal(n)[i] != '|'
        && decimal(n)[i] != '\n' by {
        assert(crate::text::is_digit(decimal(n)[i]));
    }
}

proof fn lemma_text_lines(es: Seq<(Seq<char>, usize)>)
    requires
        forall|i: int| 0 <= i < es.len() ==> is_storable_path(#[trigger] es[i].0),
    ensures
        split_lines(history_text(es)) == es.map_values(|e: (Seq<char>, usize)| entry_line(e)),
    decreases es.len(),
{
    if es.len() == 0 {
        assert(split_lines(Seq::<char>::empty()) =~= Seq::<Seq<char>>::empty());
        assert(es.map_values(|e: (Seq<char>, usize)| entry_line(e)) =~= Seq::<Seq<char>>::empty());
    } else {
        let t = es.drop_first();
        assert forall|i: int| 0 <= i < t.len() implies is_storable_path(#[trigger] t[i].0) by {
            assert(t[i] == es[i + 1]);
        }
        lemma_text_lines(t);
        assert(is_storable_path(es[0].0));
        lemma_entry_line_reads_back(es[0]);
        lemma_split_lines_cons(entry_line(es[0]), history_text(t));
        assert(es.map_values(|e: (Seq<char>, usize)| entry_line(e)) =~= seq![entry_line(es[0])]
            + t.map_values(|e: (Seq<char>, usize)| entry_line(e)));
    }
}

proof fn lemma_lines_read_back(es: Seq<(Seq<char>, usize)>)
    requires
        forall|i: int| 0 <= i < es.len() ==> is_storable_path(#[trigger] es[i].0),
    ensures
        history_of_lines(es.map_values(|e: (Seq<char>, usize)| entry_line(e))) == map_of(es),
    decreases es.len(),
{
    let ls = es.map_values(|e: (Seq<char>, usize)| entry_line(e));
    if es.len() > 0 {
        let p = es.drop_last();
        assert forall|i: int| 0 <= i < p.len() implies is_storable_path(#[trigger] p[i].0) by {
            assert(p[i] == es[i]);
        }
        lemma_lines_read_back(p);
        assert(ls.drop_last() =~= p.map_values(|e: (Seq<char>, usize)| entry_line(e)));
        assert(is_storable_path(es[es.len() - 1].0));
        lemma_entry_line_reads_back(es.last());
    } else {
        assert(ls =~= Seq::<Seq<char>>::empty());
    }
}

proof fn lemma_text_round_trip(es: Seq<(Seq<char>, usize)>)
    requires
        forall|i: int| 0 <= i < es.len() ==> is_storable_path(#[trigger] es[i].0),
    ensures
        history_of_text(history_text(es)) == map_of(es),
{
    lemma_text_lines(es);
    lemma_lines_read_back(es);
}

} // verus!
