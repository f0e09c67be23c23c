//! Window planning: an interval becomes at most [`MAX_WINDOWS`] windows of
//! one common stride.
//!
//! Positions are 32-bit. An interval that is empty, inverted, or reaches
//! below zero or above `u32::MAX` has no windows; nothing is an error.
use vstd::prelude::*;

verus! {

/// The largest number of windows that one query is cut into.
pub const MAX_WINDOWS: u32 = 1000;

/// How much of its stride a window spans.
#[derive(Clone, Copy, PartialEq, Eq, Structural, Debug)]
pub enum Coverage {
    /// The single position at the start of the stride. The windows then
    /// sample the interval and leave gaps wherever the stride exceeds 1.
    Sample,
    /// The whole stride, cut off at the interval's end. The windows then
    /// tile the interval.
    Stride,
}

/// A half-open range `[begin, end)` of positions on one chromosome.
#[derive(PartialEq, Eq, Debug)]
pub struct Window {
    pub chromosome: String,
    pub begin: u32,
    pub end: u32,
}

/// What a [`Window`] stands for in contracts.
pub struct WindowView {
    pub chromosome: Seq<char>,
    pub begin: int,
    pub end: int,
}

impl View for Window {
    type V = WindowView;

    open spec fn view(&self) -> WindowView {
        WindowView { chromosome: self.chromosome@, begin: self.begin as int, end: self.end as int }
    }
}

/// The views of a sequence of windows, in order.
pub open spec fn views(windows: Seq<Window>) -> Seq<WindowView> {
    Seq::new(windows.len(), |i: int| windows[i]@)
}

/// The stride between the starts of consecutive windows of `[start, end)`:
/// the interval's length over [`MAX_WINDOWS`], rounded up, and at least 1.
pub open spec fn stride(start: int, end: int) -> int {
    let q = (end - start + MAX_WINDOWS - 1) / (MAX_WINDOWS as int);
    if q < 1 {
        1
    } else {
        q
    }
}

/// Whether `[start, end)` is a non-empty interval of 32-bit positions.
pub open spec fn plannable(start: int, end: int) -> bool {
    0 <= start < end <= u32::MAX
}

/// The number of windows of `[start, end)`: its length over its stride,
/// rounded up, where the interval is plannable, and none where it is not.
pub open spec fn window_count(start: int, end: int) -> nat {
    if plannable(start, end) {
        ((end - start + stride(start, end) - 1) / stride(start, end)) as nat
    } else {
        0
    }
}

/// The window of index `x` of `[start, end)`: it begins `x` strides after
/// `start`, and ends after one position or one stride, but never after `end`.
pub open spec fn window_at(
    chromosome: Seq<char>,
    start: int,
    end: int,
    coverage: Coverage,
    x: int,
) -> WindowView {
    let begin = start + stride(start, end) * x;
    let width = match coverage {
        Coverage::Sample => 1,
        Coverage::Stride => stride(start, end),
    };
    WindowView { chromosome, begin, end: if begin + width < end { begin + width } else { end } }
}

/// The windows of `[start, end)` on `chromosome`, in order.
pub open spec fn plan_spec(chromosome: Seq<char>, start: int, end: int, coverage: Coverage) -> Seq<
    WindowView,
> {
    Seq::new(window_count(start, end), |x: int| window_at(chromosome, start, end, coverage, x))
}

/// The stride is the least positive number of positions that lets
/// [`MAX_WINDOWS`] strides reach from `start` to `end`.
pub proof fn lemma_stride_is_least(start: int, end: int)
    ensures
        1 <= stride(start, end),
        end - start <= stride(start, end) * MAX_WINDOWS,
        stride(start, end) == 1 || (stride(start, end) - 1) * MAX_WINDOWS < end - start,
        end - start <= MAX_WINDOWS ==> stride(start, end) == 1,
{
}

/// On a plannable interval the window of index `x` begins before `end`
/// exactly when `x` is below the window count, which is between 1 and
/// [`MAX_WINDOWS`].
pub proof fn lemma_count_is_exact(start: int, end: int, x: int)
    requires
        plannable(start, end),
        0 <= x,
    ensures
        1 <= window_count(start, end) <= MAX_WINDOWS,
        x < window_count(start, end) <==> start + stride(start, end) * x < end,
{
    let s = stride(start, end);
    let span = end - start;
    let n = (span + s - 1) / s;
    lemma_stride_is_least(start, end);
    assert(s * n <= span + s - 1 < s * n + s) by (nonlinear_arith)
        requires
            n == (span + s - 1) / s,
            1 <= s,
    ;
    assert(1 <= n <= 1000) by (nonlinear_arith)
        requires
            s * n <= span + s - 1 < s * n + s,
            1 <= s,
            1 <= span <= s * 1000,
    ;
    assert(x < n <==> s * x < span) by (nonlinear_arith)
        requires
            s * n <= span + s - 1 < s * n + s,
            1 <= s,
            0 <= x,
    ;
}

/// Computes the stride of `[start, end)`. Every pair of bounds is accepted:
/// an empty or inverted interval has stride 1.
pub fn step_size(start: i64, end: i64) -> (step: i64)
    ensures
        step == stride(start as int, end as int),
        1 <= step,
{
    let span: i128 = end as i128 - start as i128;
    let most: i128 = MAX_WINDOWS as i128;
    if span <= most {
        1
    } else {
        ((span + most - 1) / most) as i64
    }
}

/// Cuts `[start, end)` on `chromosome` into its windows.
///
/// The windows begin at `start`, `start + stride`, `start + 2 * stride` and
/// so on, for as long as that is below `end`; there are never more than
/// [`MAX_WINDOWS`] of them. With [`Coverage::Sample`] each window is one
/// position wide; with [`Coverage::Stride`] each runs up to the next one's
/// begin and the last one up to `end`. An interval that is not
/// [`plannable`] has no windows.
pub fn plan(chromosome: &str, start: i64, end: i64, coverage: Coverage) -> (windows: Vec<Window>)
    ensures
        views(windows@) == plan_spec(chromosome@, start as int, end as int, coverage),
        windows.len() == window_count(start as int, end as int),
        windows.len() <= MAX_WINDOWS,
{
    let mut windows: Vec<Window> = Vec::new();
    if start < 0 || end > u32::MAX as i64 || end <= start {
        assert(views(windows@) =~= plan_spec(chromosome@, start as int, end as int, coverage));
        return windows;
    }
    let step: u64 = step_size(start, end) as u64;
    let width: u64 = match coverage {
        Coverage::Sample => 1,
        Coverage::Stride => step,
    };
    let last: u64 = end as u64;
    let mut begin: u64 = start as u64;
    proof {
        lemma_stride_is_least(start as int, end as int);
        lemma_count_is_exact(start as int, end as int, 0);
    }
    while begin < last
        invariant
            plannable(start as int, end as int),
            last == end,
            step == stride(start as int, end as int),
            width == match coverage {
                Coverage::Sample => 1,
                Coverage::Stride => stride(start as int, end as int),
            },
            1 <= step <= 0x1_0000_0000,
            windows.len() <= window_count(start as int, end as int) <= MAX_WINDOWS,
            begin == start + step * windows.len(),
            forall|i: int|
                0 <= i < windows.len() ==> (#[trigger] windows[i])@ == window_at(
                    chromosome@,
                    start as int,
                    end as int,
                    coverage,
                    i,
                ),
        decreases window_count(start as int, end as int) - windows.len(),
    {
        proof {
            lemma_count_is_exact(start as int, end as int, windows.len() as int);
            assert(step * (windows.len() + 1) == step * windows.len() + step)
                by (nonlinear_arith);
        }
        let stop: u64 = if begin + width < last {
            begin + width
        } else {
            last
        };
        windows.push(Window { chromosome: chromosome.to_owned(), begin: begin as u32, end: stop as u32 });
        begin = begin + step;
    }
    proof {
        lemma_count_is_exact(start as int, end as int, windows.len() as int);
        assert(views(windows@) =~= plan_spec(chromosome@, start as int, end as int, coverage));
    }
    windows
}

/// The windows of an interval begin at its start, their begins increase
/// strictly, and each begins inside the interval.
pub proof fn lemma_begins_increase(chromosome: Seq<char>, start: int, end: int, coverage: Coverage)
    ensures
        ({
            let w = plan_spec(chromosome, start, end, coverage);
            &&& w.len() > 0 ==> w[0].begin == start
            &&& forall|i: int, j: int|
                #![trigger w[i], w[j]]
                0 <= i < j < w.len() ==> w[i].begin < w[j].begin
            &&& forall|i: int| 0 <= i < w.len() ==> start <= (#[trigger] w[i]).begin < end
        }),
{
    let w = plan_spec(chromosome, start, end, coverage);
    let s = stride(start, end);
    assert forall|i: int, j: int|
        #![trigger w[i], w[j]]
        0 <= i < j < w.len() implies w[i].begin < w[j].begin by {
        assert(s * i < s * j) by (nonlinear_arith)
            requires
                1 <= s,
                i < j,
        ;
    }
    assert forall|i: int| 0 <= i < w.len() implies start <= (#[trigger] w[i]).begin < end by {
        lemma_count_is_exact(start, end, i);
        assert(0 <= s * i) by (nonlinear_arith)
            requires
                1 <= s,
                0 <= i,
        ;
    }
}

/// An interval that is empty, or plannable and no longer than
/// [`MAX_WINDOWS`], has stride 1 and one window per position, whatever the
/// coverage.
pub proof fn lemma_short_interval_is_cut_by_position(
    chromosome: Seq<char>,
    start: int,
    end: int,
    coverage: Coverage,
)
    requires
        start == end || plannable(start, end),
        end - start <= MAX_WINDOWS,
    ensures
        stride(start, end) == 1,
        window_count(start, end) == end - start,
        plan_spec(chromosome, start, end, coverage) == Seq::new(
            (end - start) as nat,
            |i: int| WindowView { chromosome, begin: start + i, end: start + i + 1 },
        ),
{
    let s = stride(start, end);
    assert(s == 1);
    assert((end - start + s - 1) / s == end - start);
    let p = plan_spec(chromosome, start, end, coverage);
    assert forall|i: int| 0 <= i < p.len() implies p[i] == (WindowView {
        chromosome,
        begin: start + i,
        end: start + i + 1,
    }) by {
        assert(s * i == i);
    }
    assert(p =~= Seq::new(
        (end - start) as nat,
        |i: int| WindowView { chromosome, begin: start + i, end: start + i + 1 },
    ));
}

/// An interval that is empty or inverted, or that reaches outside the 32-bit
/// positions, has no windows.
pub proof fn lemma_no_windows_outside_range(
    chromosome: Seq<char>,
    start: int,
    end: int,
    coverage: Coverage,
)
    requires
        start >= end || start < 0 || end > u32::MAX,
    ensures
        window_count(start, end) == 0,
        plan_spec(chromosome, start, end, coverage) == Seq::<WindowView>::empty(),
{
    assert(plan_spec(chromosome, start, end, coverage) =~= Seq::<WindowView>::empty());
}

/// Every window lies on the query's chromosome, is not empty, and stays
/// inside the interval.
pub proof fn lemma_windows_lie_inside(
    chromosome: Seq<char>,
    start: int,
    end: int,
    coverage: Coverage,
)
    ensures
        plan_spec(chromosome, start, end, coverage).len() <= MAX_WINDOWS,
        forall|i: int|
            0 <= i < plan_spec(chromosome, start, end, coverage).len() ==> {
                let w = #[trigger] plan_spec(chromosome, start, end, coverage)[i];
                &&& w.chromosome == chromosome
                &&& start <= w.begin < w.end <= end
            },
{
    let p = plan_spec(chromosome, start, end, coverage);
    if plannable(start, end) {
        lemma_count_is_exact(start, end, 0);
        lemma_begins_increase(chromosome, start, end, coverage);
        assert forall|i: int| 0 <= i < p.len() implies start <= (#[trigger] p[i]).begin < p[i].end
            <= end by {
            lemma_stride_is_least(start, end);
        }
    }
}

/// With [`Coverage::Stride`] the windows of a plannable interval tile it:
/// the first begins at `start`, each ends where the next begins, the last
/// ends at `end`, and none is longer than the stride.
pub proof fn lemma_strides_tile(chromosome: Seq<char>, start: int, end: int)
    requires
        plannable(start, end),
    ensures
        ({
            let w = plan_spec(chromosome, start, end, Coverage::Stride);
            &&& w.len() >= 1
            &&& w[0].begin == start
            &&& w[w.len() - 1].end == end
            &&& forall|i: int| 0 <= i < w.len() - 1 ==> (#[trigger] w[i]).end == w[i + 1].begin
            &&& forall|i: int|
                0 <= i < w.len() ==> (#[trigger] w[i]).end - w[i].begin <= stride(start, end)
        }),
{
    let w = plan_spec(chromosome, start, end, Coverage::Stride);
    let s = stride(start, end);
    let n = window_count(start, end) as int;
    lemma_count_is_exact(start, end, n);
    assert forall|i: int| 0 <= i < w.len() - 1 implies (#[trigger] w[i]).end == w[i + 1].begin by {
        lemma_count_is_exact(start, end, i + 1);
        assert(s * (i + 1) == s * i + s) by (nonlinear_arith);
    }
    assert(w[n - 1].end == end) by {
        assert(s * n == s * (n - 1) + s) by (nonlinear_arith);
    }
}

/// With [`Coverage::Sample`] every window is the single position at which
/// it begins.
pub proof fn lemma_samples_are_single(chromosome: Seq<char>, start: int, end: int)
    ensures
        forall|i: int|
            0 <= i < plan_spec(chromosome, start, end, Coverage::Sample).len() ==> {
                let w = #[trigger] plan_spec(chromosome, start, end, Coverage::Sample)[i];
                w.end == w.begin + 1
            },
{
    if plannable(start, end) {
        lemma_begins_increase(chromosome, start, end, Coverage::Sample);
    }
}

} // verus!
