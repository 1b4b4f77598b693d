//! Segmenting one line of pixels into spans and sorting each span.
//!
//! A line is one row or one column of the grid. Pixels whose luminance
//! lies outside the threshold window are boundary pixels: they separate
//! the line into maximal runs of in-window pixels, the spans. A span of
//! at least two pixels that is closed by a boundary pixel is rewritten
//! in the requested order; boundary pixels, shorter spans, and the
//! trailing run after the last boundary pixel (which no boundary pixel
//! ever closes) are copied through unchanged.

use vstd::prelude::*;

use crate::pixel::{is_boundary, Pixel};
use crate::settings::Order;
use crate::span::{sort_by_order, sort_span};

verus! {

/// The index of the first boundary pixel at or after `j`, or the length
/// of the line when no boundary pixel follows.
pub open spec fn next_boundary(line: Seq<Pixel>, lo: u8, hi: u8, j: int) -> int
    decreases line.len() - j when 0 <= j <= line.len()
{
    if j >= line.len() {
        line.len() as int
    } else if is_boundary(line[j], lo, hi) {
        j
    } else {
        next_boundary(line, lo, hi, j + 1)
    }
}

/// The start of the maximal run of in-window pixels containing `j`:
/// the line start, or the index just after the nearest boundary pixel
/// before `j`.
pub open spec fn run_start(line: Seq<Pixel>, lo: u8, hi: u8, j: int) -> int
    decreases j when 0 <= j <= line.len()
{
    if j <= 0 {
        0
    } else if is_boundary(line[j - 1], lo, hi) {
        j
    } else {
        run_start(line, lo, hi, j - 1)
    }
}

/// The output pixel at index `j` of a processed line. A boundary pixel
/// is itself. An in-window pixel belongs to the maximal run
/// `[run_start, next_boundary)`: when that run is closed by a boundary
/// pixel and holds at least two pixels, the run appears sorted in the
/// requested order; a run that reaches the end of the line is never
/// flushed, and a run of one pixel is left as it is.
pub open spec fn line_out_at(line: Seq<Pixel>, lo: u8, hi: u8, ord: Order, j: int) -> Pixel {
    if is_boundary(line[j], lo, hi) {
        line[j]
    } else {
        let a = run_start(line, lo, hi, j);
        let b = next_boundary(line, lo, hi, j);
        if b == line.len() {
            line[j]
        } else if b - a >= 2 {
            sort_by_order(line.subrange(a, b), ord)[j - a]
        } else {
            line[j]
        }
    }
}

/// The whole processed line.
pub open spec fn line_out(line: Seq<Pixel>, lo: u8, hi: u8, ord: Order) -> Seq<Pixel> {
    Seq::new(line.len(), |j: int| line_out_at(line, lo, hi, ord, j))
}

/// Within a run of in-window pixels bounded on the right by `b` (a
/// boundary pixel or the end of the line), every index of the run sees
/// `b` as its next boundary.
pub proof fn lemma_next_boundary_reaches(line: Seq<Pixel>, lo: u8, hi: u8, j: int, b: int)
    requires
        0 <= j <= b <= line.len(),
        forall|k: int| j <= k < b ==> !is_boundary(#[trigger] line[k], lo, hi),
        b < line.len() ==> is_boundary(line[b], lo, hi),
    ensures
        next_boundary(line, lo, hi, j) == b,
    decreases b - j,
{
    if j < b {
        lemma_next_boundary_reaches(line, lo, hi, j + 1, b);
    }
}

/// Within a run of in-window pixels starting at `a` (the line start or
/// the index after a boundary pixel), every index of the run sees `a`
/// as its run start.
pub proof fn lemma_run_start_reaches(line: Seq<Pixel>, lo: u8, hi: u8, a: int, j: int)
    requires
        0 <= a <= j <= line.len(),
        forall|k: int| a <= k < j ==> !is_boundary(#[trigger] line[k], lo, hi),
        a == 0 || is_boundary(line[a - 1], lo, hi),
    ensures
        run_start(line, lo, hi, j) == a,
    decreases j - a,
{
    if a < j {
        lemma_run_start_reaches(line, lo, hi, a, j - 1);
    }
}

/// A boundary pixel is never reordered: the output of a processed line
/// is bit-identical to the input at every index whose luminance lies
/// outside the threshold window.
pub proof fn lemma_boundary_unchanged(line: Seq<Pixel>, lo: u8, hi: u8, ord: Order, j: int)
    requires
        0 <= j < line.len(),
        is_boundary(line[j], lo, hi),
    ensures
        line_out(line, lo, hi, ord)[j] == line[j],
{
}

/// A trailing run is never flushed: when no boundary pixel stands at or
/// after `j`, the output at `j` is the input pixel, in input order.
pub proof fn lemma_trailing_run_unchanged(line: Seq<Pixel>, lo: u8, hi: u8, ord: Order, j: int)
    requires
        0 <= j < line.len(),
        forall|k: int| j <= k < line.len() ==> !is_boundary(#[trigger] line[k], lo, hi),
    ensures
        line_out(line, lo, hi, ord)[j] == line[j],
{
    lemma_next_boundary_reaches(line, lo, hi, j, line.len() as int);
}

/// Sorting is a permutation, never lossy: over any maximal span
/// `[a, b)` of at least two in-window pixels that is closed by a
/// boundary pixel at `b`, the multiset of output pixels equals the
/// multiset of input pixels.
pub proof fn lemma_span_multiset(line: Seq<Pixel>, lo: u8, hi: u8, ord: Order, a: int, b: int)
    requires
        0 <= a,
        a + 2 <= b < line.len(),
        forall|k: int| a <= k < b ==> !is_boundary(#[trigger] line[k], lo, hi),
        is_boundary(line[b], lo, hi),
        a == 0 || is_boundary(line[a - 1], lo, hi),
    ensures
        line_out(line, lo, hi, ord).subrange(a, b).to_multiset() == line.subrange(
            a,
            b,
        ).to_multiset(),
{
    let span = line.subrange(a, b);
    let sorted = sort_by_order(span, ord);
    crate::span::lemma_sort_by_order_len(span, ord);
    assert forall|j: int| a <= j < b implies line_out(line, lo, hi, ord)[j] == sorted[j - a] by {
        lemma_run_start_reaches(line, lo, hi, a, j);
        lemma_next_boundary_reaches(line, lo, hi, j, b);
    }
    assert(line_out(line, lo, hi, ord).subrange(a, b) =~= sorted);
    crate::span::lemma_sort_by_order_multiset(span, ord);
}

/// Process one line: copy it, then rewrite every closed span of at
/// least two pixels in the requested order. Boundary pixels, spans of
/// one pixel, and the trailing run stay in input order.
pub fn sort_line(line: &Vec<Pixel>, lo: u8, hi: u8, ord: Order) -> (out: Vec<Pixel>)
    ensures
        out@ == line_out(line@, lo, hi, ord),
        out@.len() == line@.len(),
{
    let n = line.len();
    let mut out: Vec<Pixel> = Vec::new();
    let mut c: usize = 0;
    while c < n
        invariant
            c <= n == line@.len(),
            out@.len() == c,
            forall|j: int| 0 <= j < c ==> #[trigger] out@[j] == line@[j],
        decreases n - c,
    {
        out.push(line[c]);
        c = c + 1;
    }

    let mut span_start: usize = 0;
    let mut i: usize = 0;
    while i < n
        invariant
            span_start <= i <= n == line@.len(),
            out@.len() == n,
            span_start == 0 || is_boundary(line@[span_start - 1], lo, hi),
            forall|k: int| span_start <= k < i ==> !is_boundary(#[trigger] line@[k], lo, hi),
            forall|j: int| span_start <= j < n ==> #[trigger] out@[j] == line@[j],
            forall|j: int|
                0 <= j < span_start ==> #[trigger] out@[j] == line_out_at(line@, lo, hi, ord, j),
        decreases n - i,
    {
        if line[i].is_boundary(lo, hi) {
            if i - span_start >= 2 {
                let sorted = sort_span(line, span_start, i, ord);
                proof {
                    lemma_run_start_reaches(line@, lo, hi, span_start as int, i as int);
                    lemma_next_boundary_reaches(line@, lo, hi, span_start as int, i as int);
                    assert(forall|j: int| span_start <= j < i ==> run_start(line@, lo, hi, j)
                        == span_start) by {
                        assert forall|j: int| span_start <= j < i implies run_start(
                            line@,
                            lo,
                            hi,
                            j,
                        ) == span_start by {
                            lemma_run_start_reaches(line@, lo, hi, span_start as int, j);
                        }
                    }
                    assert(forall|j: int| span_start <= j < i ==> next_boundary(line@, lo, hi, j)
                        == i) by {
                        assert forall|j: int| span_start <= j < i implies next_boundary(
                            line@,
                            lo,
                            hi,
                            j,
                        ) == i by {
                            lemma_next_boundary_reaches(line@, lo, hi, j, i as int);
                        }
                    }
                }
                let mut k: usize = span_start;
                while k < i
                    invariant
                        span_start <= k <= i <= n == line@.len(),
                        out@.len() == n,
                        i - span_start >= 2,
                        sorted@ == sort_by_order(
                            line@.subrange(span_start as int, i as int),
                            ord,
                        ),
                        sorted@.len() == i - span_start,
                        forall|j: int| k <= j < n ==> #[trigger] out@[j] == line@[j],
                        forall|j: int|
                            0 <= j < span_start ==> #[trigger] out@[j] == line_out_at(
                                line@,
                                lo,
                                hi,
                                ord,
                                j,
                            ),
                        forall|j: int|
                            span_start <= j < k ==> #[trigger] out@[j] == sorted@[j - span_start],
                    decreases i - k,
                {
                    out.set(k, sorted[k - span_start]);
                    k = k + 1;
                }
                proof {
                    assert forall|j: int| span_start <= j < i implies #[trigger] out@[j]
                        == line_out_at(line@, lo, hi, ord, j) by {
                        assert(out@[j] == sorted@[j - span_start]);
                    }
                }
            } else {
                proof {
                    assert forall|j: int| span_start <= j < i implies #[trigger] out@[j]
                        == line_out_at(line@, lo, hi, ord, j) by {
                        lemma_run_start_reaches(line@, lo, hi, span_start as int, j);
                        lemma_next_boundary_reaches(line@, lo, hi, j, i as int);
                    }
                }
            }
            assert(out@[i as int] == line_out_at(line@, lo, hi, ord, i as int));
            span_start = i + 1;
        }
        i = i + 1;
    }
    proof {
        assert forall|j: int| span_start <= j < n implies #[trigger] out@[j] == line_out_at(
            line@,
            lo,
            hi,
            ord,
            j,
        ) by {
            lemma_next_boundary_reaches(line@, lo, hi, j, n as int);
        }
        assert(out@ =~= line_out(line@, lo, hi, ord));
    }
    out
}

} // verus!
