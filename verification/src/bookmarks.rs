//! The document outline: bookmark trees flattened into an indented list, and
//! filtering that list by a typed text.

use vstd::prelude::*;
use crate::text::{chars_of, contains_chars, contains_text, trim, trim_bounds, string_of_range};

verus! {

/// A bookmark of the document outline, as the document gives it: its title,
/// the page it leads to, and the bookmarks nested under it.
pub struct BookmarkTree {
    pub title: Option<String>,
    pub page_index: Option<usize>,
    pub children: Vec<BookmarkTree>,
}

/// One line of the flattened outline.
pub struct BookmarkNode {
    pub title: String,
    pub page_index: usize,
    pub level: usize,
}

/// Title shown for a bookmark without one.
pub open spec fn untitled() -> Seq<char> {
    "Sans titre"@
}

/// The outline line for one bookmark at nesting level `level`: its title or
/// the stand-in title, its page or the first page.
pub open spec fn node_of(t: BookmarkTree, level: nat) -> (Seq<char>, usize, nat) {
    (
        match t.title {
            Some(s) => s@,
            None => untitled(),
        },
        match t.page_index {
            Some(p) => p,
            None => 0,
        },
        level,
    )
}

/// The outline in reading order: each bookmark, then the bookmarks nested
/// under it one level deeper, then its next sibling.
pub open spec fn flatten_forest(ts: Seq<BookmarkTree>, level: nat) -> Seq<(Seq<char>, usize, nat)>
    decreases ts,
{
    if ts.len() == 0 {
        Seq::empty()
    } else {
        proof {
            assert(decreases_to!(ts => ts[0]));
        }
        seq![node_of(ts[0], level)] + flatten_forest(ts[0].children@, level + 1) + flatten_forest(
            ts.drop_first(),
            level,
        )
    }
}

/// How deep the bookmarks nest: one for bookmarks without children.
pub open spec fn forest_depth(ts: Seq<BookmarkTree>) -> nat
    decreases ts,
{
    if ts.len() == 0 {
        0
    } else {
        proof {
            assert(decreases_to!(ts => ts[0]));
        }
        let a = 1 + forest_depth(ts[0].children@);
        let b = forest_depth(ts.drop_first());
        if a >= b {
            a
        } else {
            b
        }
    }
}

/// The plain value of an outline line.
pub open spec fn node_view(n: BookmarkNode) -> (Seq<char>, usize, nat) {
    (n.title@, n.page_index, n.level as nat)
}

proof fn lemma_flatten_split(ts: Seq<BookmarkTree>, i: int, level: nat)
    requires
        0 <= i < ts.len(),
    ensures
        flatten_forest(ts.take(i + 1), level) == flatten_forest(ts.take(i), level) + seq![
            node_of(ts[i], level),
        ] + flatten_forest(ts[i].children@, level + 1),
    decreases i,
{
    let a = ts.take(i + 1);
    if i == 0 {
        assert(a.drop_first() =~= Seq::<BookmarkTree>::empty());
        assert(ts.take(0) =~= Seq::<BookmarkTree>::empty());
        assert(flatten_forest(a, level) =~= flatten_forest(ts.take(i), level) + seq![
            node_of(ts[i], level),
        ] + flatten_forest(ts[i].children@, level + 1));
    } else {
        let t = ts.drop_first();
        lemma_flatten_split(t, i - 1, level);
        assert(a.drop_first() =~= t.take(i));
        assert(ts.take(i).drop_first() =~= t.take(i - 1));
        assert(a[0] == ts[0]);
        assert(ts.take(i)[0] == ts[0]);
        assert(flatten_forest(a, level) =~= flatten_forest(ts.take(i), level) + seq![
            node_of(ts[i], level),
        ] + flatten_forest(ts[i].children@, level + 1));
    }
}

proof fn lemma_depth_parts(ts: Seq<BookmarkTree>, i: int)
    requires
        0 <= i < ts.len(),
    ensures
        1 + forest_depth(ts[i].children@) <= forest_depth(ts),
    decreases i,
{
    if i > 0 {
        lemma_depth_parts(ts.drop_first(), i - 1);
        assert(ts.drop_first()[i - 1] == ts[i]);
    }
}

/// Indentation of the flattened outline: a list of bookmarks flattened at
/// `level` starts with its first bookmark at exactly that level, followed,
/// when that bookmark has children, by its first child exactly one level
/// deeper; no line is shallower than `level`; and no line is more than one
/// level deeper than the line before it.
pub proof fn law_outline_levels(ts: Seq<BookmarkTree>, level: nat)
    ensures
        ts.len() > 0 ==> flatten_forest(ts, level).len() > 0 && flatten_forest(ts, level)[0].2
            == level,
        ts.len() > 0 && ts[0].children@.len() > 0 ==> flatten_forest(ts, level).len() > 1
            && flatten_forest(ts, level)[1].2 == level + 1,
        forall|i: int|
            0 <= i < flatten_forest(ts, level).len() ==> #[trigger] flatten_forest(ts, level)[i].2
                >= level,
        forall|i: int|
            0 < i < flatten_forest(ts, level).len() ==> #[trigger] flatten_forest(ts, level)[i].2
                <= flatten_forest(ts, level)[i - 1].2 + 1,
    decreases ts,
{
    if ts.len() > 0 {
        assert(decreases_to!(ts => ts[0]));
        let c = ts[0].children@;
        let rest = ts.drop_first();
        law_outline_levels(c, level + 1);
        law_outline_levels(rest, level);
        let n0 = seq![node_of(ts[0], level)];
        let a = flatten_forest(c, level + 1);
        let b = flatten_forest(rest, level);
        let f = flatten_forest(ts, level);
        assert(f == n0 + a + b);
        assert(rest.len() == 0 ==> b.len() == 0);
        assert forall|i: int| 0 <= i < f.len() implies #[trigger] f[i].2 >= level by {
            if i == 0 {
            } else if i <= a.len() {
                assert(f[i] == a[i - 1]);
            } else {
                assert(f[i] == b[i - 1 - a.len()]);
            }
        }
        assert forall|i: int| 0 < i < f.len() implies #[trigger] f[i].2 <= f[i - 1].2 + 1 by {
            if i == 1 && a.len() > 0 {
                assert(f[1] == a[0]);
            } else if i <= a.len() {
                assert(f[i] == a[i - 1]);
                assert(f[i - 1] == a[i - 2]);
            } else if i == a.len() + 1 {
                assert(f[i] == b[0]);
                assert(f[i - 1].2 >= level);
            } else {
                assert(f[i] == b[i - 1 - a.len()]);
                assert(f[i - 1] == b[i - 2 - a.len()]);
            }
        }
        if c.len() > 0 {
            assert(f[1] == a[0]);
        }
    }
}

fn flatten_into(ts: &Vec<BookmarkTree>, level: usize, out: &mut Vec<BookmarkNode>)
    requires
        level + forest_depth(ts@) <= usize::MAX,
    ensures
        final(out)@.map_values(|n: BookmarkNode| node_view(n)) == old(out)@.map_values(
            |n: BookmarkNode| node_view(n),
        ) + flatten_forest(ts@, level as nat),
    decreases ts@,
{
    let ghost start = out@.map_values(|n: BookmarkNode| node_view(n));
    let mut i: usize = 0;
    assert(ts@.take(0) =~= Seq::<BookmarkTree>::empty());
    assert(start + flatten_forest(ts@.take(0), level as nat) =~= start);
    while i < ts.len()
        invariant
            i <= ts@.len(),
            level + forest_depth(ts@) <= usize::MAX,
            out@.map_values(|n: BookmarkNode| node_view(n)) == start + flatten_forest(
                ts@.take(i as int),
                level as nat,
            ),
        decreases ts@.len() - i,
    {
        let t = &ts[i];
        let title = match &t.title {
            Some(s) => s.clone(),
            None => "Sans titre".to_owned(),
        };
        let page = match t.page_index {
            Some(p) => p,
            None => 0,
        };
        proof {
            lemma_depth_parts(ts@, i as int);
        }
        let ghost before = out@;
        out.push(BookmarkNode { title, page_index: page, level });
        assert(out@.map_values(|n: BookmarkNode| node_view(n)) =~= before.map_values(
            |n: BookmarkNode| node_view(n),
        ).push(node_of(ts@[i as int], level as nat)));
        proof {
            assert(decreases_to!(ts@ => ts@[i as int]));
        }
        flatten_into(&t.children, level + 1, out);
        proof {
            lemma_flatten_split(ts@, i as int, level as nat);
        }
        assert(out@.map_values(|n: BookmarkNode| node_view(n)) =~= start + flatten_forest(
            ts@.take(i + 1),
            level as nat,
        ));
        i = i + 1;
    }
    assert(ts@.take(i as int) =~= ts@);
}

/// The outline as an indented list: every bookmark in reading order with its
/// nesting level, top-level bookmarks at level zero.
pub fn flatten_bookmarks(roots: &Vec<BookmarkTree>) -> (list: Vec<BookmarkNode>)
    requires
        forest_depth(roots@) <= usize::MAX,
    ensures
        list@.map_values(|n: BookmarkNode| node_view(n)) == flatten_forest(roots@, 0),
{
    let mut out: Vec<BookmarkNode> = Vec::new();
    flatten_into(roots, 0, &mut out);
    assert(Seq::<BookmarkNode>::empty().map_values(|n: BookmarkNode| node_view(n))
        =~= Seq::<(Seq<char>, usize, nat)>::empty());
    assert(flatten_forest(roots@, 0) =~= Seq::<(Seq<char>, usize, nat)>::empty()
        + flatten_forest(roots@, 0));
    out
}


/// The lowercase form `str::to_lowercase` gives of a text (full Unicode case
/// mapping, the same for every locale).
pub uninterp spec fn unicode_lowercase(s: Seq<char>) -> Seq<char>;

/// Calls `str::to_lowercase`. Its result is named by `unicode_lowercase` of
/// the argument; nothing more is claimed of it.
#[verifier::external_body]
fn to_lowercase(s: &str) -> (r: String)
    ensures
        r@ == unicode_lowercase(s@),
{
    s.to_lowercase()
}

/// Whether the outline line with title `title` is listed for the filter
/// text `filter`: every line when the trimmed, lowercased filter is empty;
/// otherwise the lines whose lowercased title contains it.
pub open spec fn listed_for_filter(title: Seq<char>, filter: Seq<char>) -> bool {
    let f = unicode_lowercase(trim(filter));
    f.len() == 0 || contains_text(unicode_lowercase(title), f)
}

/// A line is listed when the filter, once trimmed, is its own title: a
/// title always contains itself, whatever case mapping applies.
pub proof fn law_title_matches_itself(title: Seq<char>, filter: Seq<char>)
    requires
        trim(filter) == title,
    ensures
        listed_for_filter(title, filter),
{
    let f = unicode_lowercase(trim(filter));
    let hay = unicode_lowercase(title);
    assert(hay == f);
    assert(hay.subrange(0, 0 + f.len() as int) =~= f);
    assert(contains_text(hay, f));
}

/// Indices of the outline lines listed for a filter text, in order.
pub fn filter_outline(items: &Vec<BookmarkNode>, filter: &str) -> (r: Vec<usize>)
    ensures
        forall|k: int| 0 <= k < r@.len() ==> #[trigger] r@[k] < items@.len(),
        forall|a: int, b: int| 0 <= a < b < r@.len() ==> r@[a] < r@[b],
        forall|i: int|
            0 <= i < items@.len() ==> (r@.contains(i as usize) <==> listed_for_filter(
                #[trigger] items@[i].title@,
                filter@,
            )),
{
    let fv = chars_of(filter);
    let (a, b) = trim_bounds(&fv, 0, fv.len());
    assert(fv@.subrange(0, fv.len() as int) =~= filter@);
    let trimmed = string_of_range(&fv, a, b);
    let lowered = to_lowercase(trimmed.as_str());
    let needle = chars_of(lowered.as_str());
    let mut r: Vec<usize> = Vec::new();
    let mut i: usize = 0;
    while i < items.len()
        invariant
            i <= items@.len(),
            needle@ == unicode_lowercase(trim(filter@)),
            forall|k: int| 0 <= k < r@.len() ==> #[trigger] r@[k] < i,
            forall|x: int, y: int| 0 <= x < y < r@.len() ==> r@[x] < r@[y],
            forall|j: int|
                0 <= j < i ==> (r@.contains(j as usize) <==> listed_for_filter(
                    #[trigger] items@[j].title@,
                    filter@,
                )),
        decreases items@.len() - i,
    {
        let keep = if needle.len() == 0 {
            true
        } else {
            let title = to_lowercase(items[i].title.as_str());
            let hay = chars_of(title.as_str());
            contains_chars(&hay, &needle)
        };
        let ghost before = r@;
        if keep {
            r.push(i);
        }
        assert forall|j: int|
            0 <= j < i + 1 implies (r@.contains(j as usize) <==> listed_for_filter(
                #[trigger] items@[j].title@,
                filter@,
            )) by {
            if j < i {
                if r@.contains(j as usize) {
                    let k = choose|k: int| 0 <= k < r@.len() && r@[k] == j as usize;
                    if k < before.len() {
                        assert(before[k] == j as usize);
                    }
                }
                if before.contains(j as usize) {
                    let k = choose|k: int| 0 <= k < before.len() && before[k] == j as usize;
                    assert(r@[k] == j as usize);
                }
            } else {
                if keep {
                    assert(r@[r@.len() - 1] == i);
                } else {
                    assert(!before.contains(i));
                }
            }
        }
        i = i + 1;
    }
    r
}

} // verus!
