//! The `queue` command: one line per track, pages of five lines, and the
//! back/next navigation between pages.

use vstd::prelude::*;
use vstd::string::*;
use crate::handlers::{SongMetadata, TrackLength};
use crate::text::{decimal, push_all, push_decimal, push_str, string_of, chars_of};
use crate::timestamp::{format_queue_duration, queue_length_text};

verus! {

broadcast use vstd::string::group_string_axioms;

/// Tracks shown on one page of the queue.
pub const TRACKS_PER_PAGE: usize = 5;

/// The whole seconds of an optional track length.
pub open spec fn whole_secs(d: Option<TrackLength>) -> Option<nat> {
    match d {
        Some(l) => Some(l.secs as nat),
        None => None,
    }
}

/// The line of the track at position `i` (from 0) in the queue listing.
pub open spec fn queue_line_text(i: nat, t: SongMetadata) -> Seq<char> {
    "**"@ + decimal(i + 1) + ".** ["@ + t.title@ + "]("@ + t.url@ + ") | `"@ + queue_length_text(
        whole_secs(t.duration),
    ) + "`\n*Requested by: "@ + t.request_by@ + "*"@
}

/// The line of the track at position `i` (from 0) in the queue listing.
pub fn queue_line(i: usize, t: &SongMetadata) -> (r: String)
    requires
        i < usize::MAX,
    ensures
        r@ == queue_line_text(i as nat, *t),
{
    let secs: Option<u64> = match t.duration {
        Some(l) => Some(l.secs),
        None => None,
    };
    let d = format_queue_duration(secs);
    let mut m: Vec<char> = Vec::new();
    push_str(&mut m, "**");
    push_decimal(&mut m, (i + 1) as u64);
    push_str(&mut m, ".** [");
    push_str(&mut m, t.title.as_str());
    push_str(&mut m, "](");
    push_str(&mut m, t.url.as_str());
    push_str(&mut m, ") | `");
    push_str(&mut m, d.as_str());
    push_str(&mut m, "`\n*Requested by: ");
    push_str(&mut m, t.request_by.as_str());
    push_str(&mut m, "*");
    assert(m@ =~= queue_line_text(i as nat, *t));
    string_of(m.as_slice())
}

/// The lines of the queue listing, one per track, in queue order.
pub fn queue_lines(tracks: &Vec<SongMetadata>) -> (r: Vec<String>)
    ensures
        r@.len() == tracks@.len(),
        forall|i: int| 0 <= i < r@.len() ==> (#[trigger] r@[i])@ == queue_line_text(i as nat, tracks@[i]),
{
    let mut r: Vec<String> = Vec::new();
    let mut i: usize = 0;
    while i < tracks.len()
        invariant
            i <= tracks@.len(),
            r@.len() == i,
            forall|k: int| 0 <= k < i ==> (#[trigger] r@[k])@ == queue_line_text(k as nat, tracks@[k]),
        decreases tracks@.len() - i,
    {
        r.push(queue_line(i, &tracks[i]));
        i += 1;
    }
    r
}

/// The number of pages for `n` lines: `ceil(n / 5)`.
pub open spec fn pages_for(n: nat) -> nat {
    ((n + 4) / 5) as nat
}

/// The number of pages of the queue listing for `n` tracks: the ceiling of
/// `n / 5`.
pub fn page_count(n: usize) -> (r: usize)
    ensures
        r == pages_for(n as nat),
{
    if n % 5 == 0 {
        n / 5
    } else {
        n / 5 + 1
    }
}

/// The page shown after pressing "back" on page `current` of `total`.
pub open spec fn prev_page_spec(current: nat, total: nat) -> nat {
    if current == 0 {
        (total - 1) as nat
    } else {
        (current - 1) as nat
    }
}

/// The page shown after pressing "next" on page `current` of `total`.
pub open spec fn next_page_spec(current: nat, total: nat) -> nat {
    (current + 1) % total
}

/// The page after pressing "back": the previous one, from the first to the
/// last.
pub fn prev_page(current: usize, total: usize) -> (r: usize)
    requires
        total > 0,
    ensures
        r == prev_page_spec(current as nat, total as nat),
{
    if current == 0 {
        total - 1
    } else {
        current - 1
    }
}

/// The page after pressing "next": the following one, from the last back to
/// the first.
pub fn next_page(current: usize, total: usize) -> (r: usize)
    requires
        total > 0,
        current < usize::MAX,
    ensures
        r == next_page_spec(current as nat, total as nat),
{
    (current + 1) % total
}

/// Pressing "next" after "back" returns to the page shown before, and so
/// does "back" after "next"; both keep the page among the `total` pages.
pub proof fn lemma_page_navigation(current: nat, total: nat)
    requires
        current < total,
    ensures
        prev_page_spec(current, total) < total,
        next_page_spec(current, total) < total,
        next_page_spec(prev_page_spec(current, total), total) == current,
        prev_page_spec(next_page_spec(current, total), total) == current,
{
    if current + 1 == total {
        assert((current + 1) % total == 0) by (nonlinear_arith)
            requires
                current + 1 == total,
                total > 0,
        ;
    } else {
        assert((current + 1) % total == current + 1) by (nonlinear_arith)
            requires
                current + 1 < total,
        ;
    }
    if current == 0 {
        assert(((total - 1) as nat + 1) % total == 0) by (nonlinear_arith)
            requires
                total > 0,
        ;
    } else {
        assert(((current - 1) as nat + 1) % total == current) by (nonlinear_arith)
            requires
                0 < current < total,
        ;
    }
}

/// The lines on page `page`: from line `5 * page`, at most five.
pub open spec fn page_lines(lines: Seq<Seq<char>>, page: nat) -> Seq<Seq<char>> {
    let start = page * 5;
    let end = if start + 5 < lines.len() {
        start + 5
    } else {
        lines.len()
    };
    lines.subrange(start as int, end as int)
}

/// Every line of the listing is on exactly one page: line `i` is line
/// `i % 5` of page `i / 5`, which is one of the `pages_for(n)` pages; every
/// one of those pages has lines, and a page past them has none.
pub proof fn lemma_pages_cover(lines: Seq<Seq<char>>, i: int, p: nat)
    requires
        0 <= i < lines.len(),
    ensures
        i / 5 < pages_for(lines.len()),
        i % 5 < page_lines(lines, (i / 5) as nat).len(),
        page_lines(lines, (i / 5) as nat)[i % 5] == lines[i],
        p < pages_for(lines.len()) <==> p * 5 < lines.len(),
        p < pages_for(lines.len()) ==> page_lines(lines, p).len() > 0,
{
    let q = i / 5;
    let r = i % 5;
    assert(i == q * 5 + r && 0 <= r < 5) by (nonlinear_arith)
        requires
            q == i / 5,
            r == i % 5,
            i >= 0,
    ;
    assert(q < (lines.len() + 4) / 5) by (nonlinear_arith)
        requires
            i == q * 5 + r,
            0 <= r < 5,
            i < lines.len(),
    ;
    assert(p < (lines.len() + 4) / 5 <==> p * 5 < lines.len()) by (nonlinear_arith);
}

/// `parts` joined with the separator `sep`.
pub open spec fn join_with(parts: Seq<Seq<char>>, sep: Seq<char>) -> Seq<char>
    decreases parts.len(),
{
    if parts.len() == 0 {
        Seq::empty()
    } else if parts.len() == 1 {
        parts[0]
    } else {
        join_with(parts.drop_last(), sep) + sep + parts.last()
    }
}

/// The description of page `page` of the queue: its lines separated by a
/// blank line.
pub fn page_description(lines: &Vec<String>, page: usize) -> (r: String)
    requires
        page * 5 <= lines@.len(),
    ensures
        r@ == join_with(page_lines(lines@.map_values(|l: String| l@), page as nat), "\n\n"@),
{
    let ghost views = lines@.map_values(|l: String| l@);
    let len = lines.len();
    let start = page * 5;
    let end = if len - start > 5 {
        start + 5
    } else {
        lines.len()
    };
    let ghost target = page_lines(views, page as nat);
    assert(target == views.subrange(start as int, end as int));
    let mut m: Vec<char> = Vec::new();
    let mut i = start;
    while i < end
        invariant
            start <= i <= end <= lines@.len(),
            views == lines@.map_values(|l: String| l@),
            m@ == join_with(views.subrange(start as int, i as int), "\n\n"@),
        decreases end - i,
    {
        let ghost before = views.subrange(start as int, i as int);
        assert(views.subrange(start as int, i + 1).drop_last() == before);
        assert(views.subrange(start as int, i + 1).last() == lines@[i as int]@);
        if i > start {
            push_str(&mut m, "\n\n");
        } else {
            assert(views.subrange(start as int, i + 1).len() == 1);
            assert(m@ == Seq::<char>::empty());
        }
        push_str(&mut m, lines[i].as_str());
        if i == start {
            assert(m@ =~= views.subrange(start as int, i + 1)[0]);
        }
        i += 1;
    }
    string_of(m.as_slice())
}

/// The footer of page `page` (from 0) of `total_pages`, for `n` tracks.
pub open spec fn page_footer_text(page: nat, total_pages: nat, n: nat) -> Seq<char> {
    "Page "@ + decimal(page + 1) + " of "@ + decimal(total_pages) + " | Total songs: "@ + decimal(n)
}

/// The footer of page `page` (from 0) of `total_pages`, for `n` tracks.
pub fn page_footer(page: usize, total_pages: usize, n: usize) -> (r: String)
    requires
        page < usize::MAX,
    ensures
        r@ == page_footer_text(page as nat, total_pages as nat, n as nat),
{
    let mut m: Vec<char> = Vec::new();
    push_str(&mut m, "Page ");
    push_decimal(&mut m, (page + 1) as u64);
    push_str(&mut m, " of ");
    push_decimal(&mut m, total_pages as u64);
    push_str(&mut m, " | Total songs: ");
    push_decimal(&mut m, n as u64);
    assert(m@ =~= page_footer_text(page as nat, total_pages as nat, n as nat));
    string_of(m.as_slice())
}

} // verus!
