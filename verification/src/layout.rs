//! Page layout in whole numbers: rows of one or two pages, the pages a range
//! of rows shows, pages to prepare ahead, the page indicator, and which
//! rendered pages to let go when too many are kept.

use vstd::prelude::*;
use crate::text::{decimal, push_decimal, push_str_chars};

verus! {

/// Rendered pages kept before some are let go.
pub const TEXTURE_CACHE_LIMIT: usize = 30;

/// Rendered pages left once the farthest are let go.
pub const TEXTURE_CACHE_KEEP: usize = 22;

/// Number of rows for `pages` pages: two pages a row in dual mode.
pub open spec fn rows_for(pages: nat, dual: bool) -> nat {
    if dual {
        (pages + 1) / 2
    } else {
        pages
    }
}

/// The row that shows page `page`.
pub open spec fn row_of(page: nat, dual: bool) -> nat {
    if dual {
        page / 2
    } else {
        page
    }
}

/// The pages row `row` shows, left to right.
pub open spec fn row_pages(row: nat, pages: nat, dual: bool) -> Seq<nat> {
    if dual {
        if 2 * row + 1 < pages {
            seq![2 * row, 2 * row + 1]
        } else {
            seq![2 * row]
        }
    } else {
        seq![row]
    }
}

/// Number of rows needed to show `pages` pages.
pub fn row_count(pages: usize, dual: bool) -> (n: usize)
    ensures
        n == rows_for(pages as nat, dual),
{
    if dual {
        pages / 2 + pages % 2
    } else {
        pages
    }
}

/// The row that shows a page.
pub fn row_of_page(page: usize, dual: bool) -> (row: usize)
    ensures
        row == row_of(page as nat, dual),
{
    if dual {
        page / 2
    } else {
        page
    }
}

/// The pages a row shows, left to right.
pub fn pages_in_row(row: usize, pages: usize, dual: bool) -> (v: Vec<usize>)
    requires
        dual ==> 2 * row + 1 <= usize::MAX,
    ensures
        v@.len() == row_pages(row as nat, pages as nat, dual).len(),
        forall|i: int|
            0 <= i < v@.len() ==> v@[i] as nat == #[trigger] row_pages(
                row as nat,
                pages as nat,
                dual,
            )[i],
{
    let mut v: Vec<usize> = Vec::new();
    if dual {
        let p1 = row * 2;
        let p2 = row * 2 + 1;
        v.push(p1);
        if p2 < pages {
            v.push(p2);
        }
    } else {
        v.push(row);
    }
    v
}

/// Every page is shown by exactly one row: the row `row_of` names is among
/// the first `rows_for` rows and shows the page, and every page a row among
/// them shows exists and is placed by `row_of` in that row.
pub proof fn law_rows_partition_pages(pages: nat, dual: bool)
    ensures
        forall|p: nat|
            p < pages ==> #[trigger] row_of(p, dual) < rows_for(pages, dual) && row_pages(
                row_of(p, dual),
                pages,
                dual,
            ).contains(p),
        forall|r: nat, i: int|
            r < rows_for(pages, dual) && 0 <= i < row_pages(r, pages, dual).len() ==> {
                let q = #[trigger] row_pages(r, pages, dual)[i];
                q < pages && row_of(q, dual) == r
            },
{
    assert forall|p: nat| p < pages implies #[trigger] row_of(p, dual) < rows_for(pages, dual)
        && row_pages(row_of(p, dual), pages, dual).contains(p) by {
        let r = row_of(p, dual);
        if dual {
            assert(p / 2 < (pages + 1) / 2);
            if p % 2 == 0 {
                assert(row_pages(r, pages, dual)[0] == p);
            } else {
                assert(2 * r + 1 == p);
                assert(row_pages(r, pages, dual)[1] == p);
            }
        } else {
            assert(row_pages(r, pages, dual)[0] == p);
        }
    }
}

/// The first page a range of rows shows and the page after the last one.
pub fn visible_pages(row_start: usize, row_end: usize, pages: usize, dual: bool) -> (r: (
    usize,
    usize,
))
    requires
        dual ==> 2 * row_end <= usize::MAX,
        dual ==> 2 * row_start <= usize::MAX,
    ensures
        r.0 == if dual {
            2 * row_start
        } else {
            row_start as int
        },
        r.1 == if dual {
            if 2 * row_end < pages {
                2 * row_end
            } else {
                pages as int
            }
        } else {
            if row_end < pages {
                row_end as int
            } else {
                pages as int
            }
        },
        forall|p: nat|
            p < pages ==> (r.0 <= p < r.1 <==> row_start <= #[trigger] row_of(p, dual) < row_end),
{
    if dual {
        let e = row_end * 2;
        (row_start * 2, if e < pages {
            e
        } else {
            pages
        })
    } else {
        (row_start, if row_end < pages {
            row_end
        } else {
            pages
        })
    }
}

/// How many pages before and after the visible ones are prepared.
pub open spec fn precache_count(dual: bool) -> nat {
    if dual {
        4
    } else {
        2
    }
}

/// The pages to prepare after and before the visible range
/// `first..after_last`, each as a half-open range.
pub fn precache_ranges(first: usize, after_last: usize, pages: usize, dual: bool) -> (r: (
    (usize, usize),
    (usize, usize),
))
    requires
        after_last + precache_count(dual) <= usize::MAX,
    ensures
        r.0.0 == after_last,
        r.0.1 == if after_last + precache_count(dual) < pages {
            after_last + precache_count(dual)
        } else {
            pages as int
        },
        r.1.1 == first,
        r.1.0 == if first >= precache_count(dual) {
            first - precache_count(dual)
        } else {
            0
        },
{
    let n: usize = if dual {
        4
    } else {
        2
    };
    let ahead_end = after_last + n;
    let ahead = (after_last, if ahead_end < pages {
        ahead_end
    } else {
        pages
    });
    let behind_start = if first >= n {
        first - n
    } else {
        0
    };
    (ahead, (behind_start, first))
}

/// Whether a thin line separates row `row` from the next: single-page mode
/// only, and not after the last page.
pub fn shows_separator(row: usize, pages: usize, dual: bool) -> (b: bool)
    ensures
        b == (!dual && row + 1 < pages),
{
    !dual && pages > 0 && row < pages - 1
}

/// The text of the page indicator: `Page p / n`, or `Pages p - q / n` for a
/// row of two pages.
pub open spec fn indicator_text(first: nat, last: nat, pages: nat) -> Seq<char> {
    if first == last {
        "Page "@ + decimal(first) + " / "@ + decimal(pages)
    } else {
        "Pages "@ + decimal(first) + " - "@ + decimal(last) + " / "@ + decimal(pages)
    }
}

/// `x` held between `lo` and `hi`.
pub open spec fn clamp(x: int, lo: int, hi: int) -> int {
    if x < lo {
        lo
    } else if x > hi {
        hi
    } else {
        x
    }
}

/// The first page (counted from one) shown by row `row`, held within the
/// document.
pub open spec fn indicator_first(row: nat, pages: nat, dual: bool) -> int {
    if dual {
        clamp((2 * row + 1) as int, 1, pages as int)
    } else {
        clamp((row + 1) as int, 1, pages as int)
    }
}

/// The last page (counted from one) the indicator names.
pub open spec fn indicator_last(row: nat, pages: nat, dual: bool) -> int {
    let f = indicator_first(row, pages, dual);
    if dual {
        if f + 1 < pages {
            f + 1
        } else {
            pages as int
        }
    } else {
        f
    }
}

/// The page indicator names the pages of the row being read: for a row of
/// the document, its first page is the first page the row shows and its
/// last page the last one the row shows (both counted from one); past the
/// last row it names the last page.
pub proof fn law_indicator_names_row(row: nat, pages: nat, dual: bool)
    requires
        pages >= 1,
    ensures
        row < rows_for(pages, dual) ==> indicator_first(row, pages, dual) - 1 == row_pages(
            row,
            pages,
            dual,
        )[0] && indicator_last(row, pages, dual) - 1 == row_pages(row, pages, dual).last(),
        row >= rows_for(pages, dual) ==> indicator_first(row, pages, dual) == pages
            && indicator_last(row, pages, dual) == pages,
{
}

/// For the row at the reading position: the index of the page being read
/// (counted from zero) and the indicator text.
pub fn page_indicator(row: usize, pages: usize, dual: bool) -> (r: (usize, String))
    requires
        pages >= 1,
        dual ==> 2 * row + 1 <= usize::MAX,
        !dual ==> row + 1 <= usize::MAX,
    ensures
        r.0 < pages,
        r.0 == indicator_first(row as nat, pages as nat, dual) - 1,
        row < rows_for(pages as nat, dual) ==> r.0 == row_pages(row as nat, pages as nat, dual)[0],
        row >= rows_for(pages as nat, dual) ==> r.0 == pages - 1,
        r.1@ == indicator_text(
            indicator_first(row as nat, pages as nat, dual) as nat,
            indicator_last(row as nat, pages as nat, dual) as nat,
            pages as nat,
        ),
{
    let first: usize = if dual {
        let p = row * 2 + 1;
        if p > pages {
            pages
        } else {
            p
        }
    } else {
        let p = row + 1;
        if p > pages {
            pages
        } else {
            p
        }
    };
    let last: usize = if dual {
        if first < pages {
            first + 1
        } else {
            pages
        }
    } else {
        first
    };
    let mut text = String::new();
    if first == last {
        push_str_chars(&mut text, "Page ");
        push_decimal(&mut text, first);
        push_str_chars(&mut text, " / ");
        push_decimal(&mut text, pages);
    } else {
        push_str_chars(&mut text, "Pages ");
        push_decimal(&mut text, first);
        push_str_chars(&mut text, " - ");
        push_decimal(&mut text, last);
        push_str_chars(&mut text, " / ");
        push_decimal(&mut text, pages);
    }
    assert(text@ =~= indicator_text(first as nat, last as nat, pages as nat));
    proof {
        law_indicator_names_row(row as nat, pages as nat, dual);
    }
    (first - 1, text)
}

/// Twice the distance from page `p` to the middle of `first..after_last`.
pub open spec fn distance_to_middle(p: nat, first: nat, after_last: nat) -> nat {
    let d = 2 * p - (first + after_last);
    if d < 0 {
        (-d) as nat
    } else {
        d as nat
    }
}

/// Every page of the visible range `first..after_last` is at least as near
/// its middle as any page outside it, and strictly nearer except for the
/// first visible page and the page just after the range, which are equally
/// near.
pub proof fn law_visible_pages_nearest(u: nat, v: nat, first: nat, after_last: nat)
    requires
        first <= u < after_last,
        v < first || v >= after_last,
    ensures
        distance_to_middle(u, first, after_last) <= distance_to_middle(v, first, after_last),
        distance_to_middle(u, first, after_last) == distance_to_middle(v, first, after_last)
            ==> u == first && v == after_last,
{
}

fn distance(p: usize, first: usize, after_last: usize) -> (d: u128)
    ensures
        d == distance_to_middle(p as nat, first as nat, after_last as nat),
{
    let a = (p as u128) * 2;
    let b = (first as u128) + (after_last as u128);
    if a >= b {
        a - b
    } else {
        b - a
    }
}

/// How many of `n` rendered pages are let go.
pub open spec fn eviction_count(n: nat) -> nat {
    if n > TEXTURE_CACHE_LIMIT {
        (n - TEXTURE_CACHE_KEEP) as nat
    } else {
        0
    }
}

/// The rendered pages to let go: none while at most `TEXTURE_CACHE_LIMIT`
/// are kept; otherwise all but `TEXTURE_CACHE_KEEP`, the ones farthest from
/// the middle of the visible range `first..after_last` (no page let go is
/// nearer to it than a page kept).
pub fn pages_to_evict(resident: &Vec<usize>, first: usize, after_last: usize) -> (out: Vec<usize>)
    requires
        resident@.no_duplicates(),
    ensures
        out@.len() == eviction_count(resident@.len()),
        resident@.len() - out@.len() <= TEXTURE_CACHE_LIMIT,
        out@.no_duplicates(),
        forall|i: int| 0 <= i < out@.len() ==> resident@.contains(#[trigger] out@[i]),
        forall|i: int, k: usize|
            0 <= i < out@.len() && #[trigger] resident@.contains(k) && !out@.contains(k) ==> distance_to_middle(
                #[trigger] out@[i] as nat,
                first as nat,
                after_last as nat,
            ) >= distance_to_middle(k as nat, first as nat, after_last as nat),
        forall|u: usize, v: usize|
            #[trigger] out@.contains(u) && #[trigger] resident@.contains(v) && !out@.contains(v)
                && first <= u < after_last && (v < first || v >= after_last) ==> u == first
                && v == after_last,
{
    let n = resident.len();
    let mut out: Vec<usize> = Vec::new();
    if n <= TEXTURE_CACHE_LIMIT {
        return out;
    }
    let count = n - TEXTURE_CACHE_KEEP;
    let mut remaining: Vec<usize> = resident.clone();
    assert(remaining@ =~= resident@);
    while out.len() < count
        invariant
            count == n - TEXTURE_CACHE_KEEP,
            n == resident@.len(),
            n > TEXTURE_CACHE_LIMIT,
            out@.len() <= count,
            out@.no_duplicates(),
            remaining@.no_duplicates(),
            out@.len() + remaining@.len() == n,
            forall|t: int| 0 <= t < out@.len() ==> resident@.contains(#[trigger] out@[t]),
            forall|t: int| 0 <= t < remaining@.len() ==> resident@.contains(#[trigger] remaining@[t]),
            forall|k: usize|
                #[trigger] resident@.contains(k) ==> out@.contains(k) || remaining@.contains(k),
            forall|x: usize| #[trigger] out@.contains(x) ==> !remaining@.contains(x),
            forall|a: int, b: int|
                0 <= a < out@.len() && 0 <= b < remaining@.len() ==> distance_to_middle(
                    #[trigger] out@[a] as nat,
                    first as nat,
                    after_last as nat,
                ) >= distance_to_middle(
                    #[trigger] remaining@[b] as nat,
                    first as nat,
                    after_last as nat,
                ),
        decreases count - out@.len(),
    {
        let mut best: usize = 0;
        let mut best_d = distance(remaining[0], first, after_last);
        let mut j: usize = 1;
        while j < remaining.len()
            invariant
                0 < remaining@.len(),
                best < j <= remaining@.len(),
                best_d == distance_to_middle(remaining@[best as int] as nat, first as nat, after_last as nat),
                forall|b: int|
                    0 <= b < j ==> distance_to_middle(
                        #[trigger] remaining@[b] as nat,
                        first as nat,
                        after_last as nat,
                    ) <= best_d,
            decreases remaining@.len() - j,
        {
            let d = distance(remaining[j], first, after_last);
            if d > best_d {
                best = j;
                best_d = d;
            }
            j = j + 1;
        }
        let ghost old_out = out@;
        let ghost old_rem = remaining@;
        let x = remaining.remove(best);
        out.push(x);
        proof {
            assert(old_rem[best as int] == x);
            assert(old_rem.contains(x));
            assert(!old_out.contains(x));
            assert forall|a: int, b: int| 0 <= a < b < out@.len() implies out@[a] != out@[b] by {
                if b == old_out.len() {
                    assert(old_out[a] == out@[a]);
                    assert(old_out.contains(out@[a]));
                } else {
                    assert(old_out[a] == out@[a] && old_out[b] == out@[b]);
                }
            }
            assert forall|t: int| 0 <= t < remaining@.len() implies resident@.contains(
                #[trigger] remaining@[t],
            ) by {
                if t < best {
                    assert(remaining@[t] == old_rem[t]);
                } else {
                    assert(remaining@[t] == old_rem[t + 1]);
                }
            }
            assert forall|y: usize| old_rem.contains(y) && y != x implies remaining@.contains(y) by {
                let i = choose|i: int| 0 <= i < old_rem.len() && old_rem[i] == y;
                if i < best {
                    assert(remaining@[i] == y);
                } else {
                    assert(i != best);
                    assert(remaining@[i - 1] == y);
                }
            }
            assert forall|y: usize| remaining@.contains(y) implies old_rem.contains(y) && y != x by {
                let i = choose|i: int| 0 <= i < remaining@.len() && remaining@[i] == y;
                if i < best {
                    assert(old_rem[i] == y);
                } else {
                    assert(old_rem[i + 1] == y);
                }
            }
            assert forall|k: usize| #[trigger] resident@.contains(k) implies out@.contains(k)
                || remaining@.contains(k) by {
                if old_out.contains(k) {
                    let t = choose|t: int| 0 <= t < old_out.len() && old_out[t] == k;
                    assert(out@[t] == k);
                } else if k == x {
                    assert(out@[old_out.len() as int] == k);
                }
            }
            assert forall|y: usize| #[trigger] out@.contains(y) implies !remaining@.contains(y) by {
                let t = choose|t: int| 0 <= t < out@.len() && out@[t] == y;
                if t < old_out.len() {
                    assert(old_out.contains(y));
                }
            }
            assert forall|t: int| 0 <= t < out@.len() implies resident@.contains(#[trigger] out@[t]) by {
                if t < old_out.len() {
                    assert(out@[t] == old_out[t]);
                }
            }
            assert forall|a: int, b: int|
                0 <= a < out@.len() && 0 <= b < remaining@.len() implies distance_to_middle(
                    #[trigger] out@[a] as nat,
                    first as nat,
                    after_last as nat,
                ) >= distance_to_middle(
                    #[trigger] remaining@[b] as nat,
                    first as nat,
                    after_last as nat,
                ) by {
                let ob = if b < best {
                    b
                } else {
                    b + 1
                };
                assert(remaining@[b] == old_rem[ob]);
            }
        }
    }
    assert forall|u: usize, v: usize|
        #[trigger] out@.contains(u) && #[trigger] resident@.contains(v) && !out@.contains(v)
            && first <= u < after_last && (v < first || v >= after_last) implies u == first
            && v == after_last by {
        let i = choose|i: int| 0 <= i < out@.len() && out@[i] == u;
        law_visible_pages_nearest(u as nat, v as nat, first as nat, after_last as nat);
        assert(distance_to_middle(out@[i] as nat, first as nat, after_last as nat)
            >= distance_to_middle(v as nat, first as nat, after_last as nat));
    }
    out
}

} // verus!
