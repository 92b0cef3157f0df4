//! What hopping windows are for: a row lands in every window that covers its time, and in no
//! other.
//!
//! The laws on distances hold of all windows. The laws on points in time are stated for windows
//! that are measured in days and milliseconds, which have a fixed length, for an engine that
//! [`keeps_time`], and for rows whose first window does not start before the epoch.
use crate::array::{
    law_compaction_is_full, law_compaction_keeps_visible_rows, Column, DataChunk,
};
use crate::error::RwError;
use crate::expr::{evaluates, ExprType, Expression};
use crate::hop_window::{HopWindowExecutor2, HopWindowPlan};
use crate::interval::{law_fewer_steps_fit, IntervalUnit};
use crate::types::{Datum, ScalarImpl};
use vstd::arithmetic::mul::{lemma_mul_is_distributive_add, lemma_mul_is_distributive_sub};
use vstd::prelude::*;

verus! {

/// The length in microseconds of an interval without months.
pub open spec fn micros(interval: IntervalUnit) -> int {
    (interval.days * 86_400_000 + interval.ms) * 1000
}

/// The largest multiple of `length` that is not after `time`.
pub open spec fn tumble(time: int, length: int) -> int {
    time - time % length
}

/// The point in time that an expression denotes on a row, in microseconds.
///
/// It is defined for a column that holds a timestamp, and for a point in time that is moved by,
/// or rounded down to a multiple of, a constant interval without months. Only times that are not
/// before the epoch are rounded.
pub open spec fn time_of(expr: Expression, row: Seq<Datum>) -> Option<int>
    decreases expr,
{
    match expr {
        Expression::InputRef(e) => if e.idx < row.len() {
            match row[e.idx as int] {
                Some(ScalarImpl::Timestamp(t)) => Some(t as int),
                _ => None,
            }
        } else {
            None
        },
        Expression::Binary(e) => match (time_of(e.left, row), e.right) {
            (Some(t), Expression::Literal(right)) => match right.literal {
                Some(ScalarImpl::Interval(interval)) => if interval.months != 0 {
                    None
                } else {
                    match e.expr_type {
                        ExprType::Add => Some(t + micros(interval)),
                        ExprType::Subtract => Some(t - micros(interval)),
                        ExprType::TumbleStart => if t >= 0 && micros(interval) > 0 {
                            Some(tumble(t, micros(interval)))
                        } else {
                            None
                        },
                    }
                },
                _ => None,
            },
            _ => None,
        },
        _ => None,
    }
}

/// The values of one row.
pub open spec fn row_of(chunk: DataChunk, r: int) -> Seq<Datum> {
    Seq::new(chunk.columns@.len(), |c: int| chunk.columns@[c]@[r])
}

/// `datum` is the timestamp `time`.
pub open spec fn is_time(datum: Datum, time: int) -> bool {
    datum matches Some(ScalarImpl::Timestamp(t)) && t == time
}

/// On a chunk that has one value per row in each column, the engine's columns have so too, and
/// wherever an expression denotes a point in time, the value is that timestamp.
pub open spec fn keeps_time<F>(eval: F) -> bool where
    F: Fn(&Expression, &DataChunk) -> Result<Column, RwError>,
 {
    forall|expr: Expression, input: DataChunk, out: Column| #[trigger]
        evaluates(eval, expr, input, Ok(out)) && input.is_full() ==> {
            &&& out@.len() == input.capacity
            &&& forall|r: int|
                0 <= r < input.capacity && time_of(expr, #[trigger] row_of(input, r)) is Some
                    ==> is_time(out@[r], time_of(expr, row_of(input, r))->Some_0)
        }
}

/// Every window is `window_size` long: that is the distance from its start to its end.
pub proof fn law_window_length_is_window_size<C>(
    executor: HopWindowExecutor2<C>,
    plan: HopWindowPlan,
    i: int,
)
    requires
        executor.has_plan(plan),
        0 <= i,
        plan.has_window(i),
    ensures
        plan.slides(i + plan.units)@.minus(plan.slides(i)@) == executor.window_size@,
{
    let slide = plan.window_slide@;
    law_fewer_steps_fit(slide, i, i + plan.units);
    lemma_mul_is_distributive_add(slide.months, i, plan.units as int);
    lemma_mul_is_distributive_add(slide.days, i, plan.units as int);
    lemma_mul_is_distributive_add(slide.ms, i, plan.units as int);
}

/// Each window starts one slide after the one before it, and the first one at no distance.
pub proof fn law_windows_start_one_slide_apart(plan: HopWindowPlan, i: int)
    requires
        0 <= i,
        plan.has_window(i + 1),
    ensures
        plan.slides(0)@ == crate::interval::Span::zero(),
        plan.slides(i + 1)@.minus(plan.slides(i)@) == plan.window_slide@,
{
    let slide = plan.window_slide@;
    law_fewer_steps_fit(slide, i, i + 1 + plan.units);
    law_fewer_steps_fit(slide, i + 1, i + 1 + plan.units);
    lemma_mul_is_distributive_add(slide.months, i, 1);
    lemma_mul_is_distributive_add(slide.days, i, 1);
    lemma_mul_is_distributive_add(slide.ms, i, 1);
}

/// A window that can be expressed makes every earlier one expressible: only the last windows of a
/// chunk can fail for an overflow.
pub proof fn law_earlier_windows_exist(plan: HopWindowPlan, i: int, j: int)
    requires
        0 <= i <= j,
        plan.has_window(j),
    ensures
        plan.has_window(i),
{
    law_fewer_steps_fit(plan.window_slide@, i + plan.units, j + plan.units);
}

/// `n` slides of fixed length are `n` times as long as one.
proof fn lemma_slides_micros(plan: HopWindowPlan, n: int)
    requires
        plan.window_slide.months == 0,
        plan.window_slide@.times(n).fits(),
    ensures
        plan.slides(n).months == 0,
        micros(plan.slides(n)) == micros(plan.window_slide) * n,
{
    let days = plan.window_slide.days as int;
    let ms = plan.window_slide.ms as int;
    assert(((days * n) * 86_400_000 + (ms * n)) * 1000 == ((days * 86_400_000 + ms) * 1000) * n)
        by (nonlinear_arith);
}

/// A window of length `size` that starts at `start` is one of those at multiples of `slide`, and it
/// covers `time`.
pub open spec fn covers(start: int, size: int, slide: int, time: int) -> bool {
    start % slide == 0 && start <= time < start + size
}

/// The starts of the windows of length `n * slide` that cover `time`, at multiples of `slide`, are
/// `n` consecutive multiples from `tumble(time - (n - 1) * slide, slide)` on.
pub proof fn law_covering_windows(time: int, slide: int, n: int, start: int)
    requires
        slide > 0,
        n >= 1,
    ensures
        ({
            let first = tumble(time - slide * (n - 1), slide);
            covers(start, slide * n, slide, time) <==> exists|i: int|
                0 <= i < n && start == first + #[trigger] (slide * i)
        }),
{
    let x = time - slide * (n - 1);
    let first = tumble(x, slide);
    let j = x / slide;
    vstd::arithmetic::div_mod::lemma_fundamental_div_mod(x, slide);
    vstd::arithmetic::div_mod::lemma_mod_bound(x, slide);
    assert(first == slide * j);
    lemma_mul_is_distributive_sub(slide, n, 1);
    if covers(start, slide * n, slide, time) {
        let k = start / slide;
        vstd::arithmetic::div_mod::lemma_fundamental_div_mod(start, slide);
        assert(start == slide * k);
        let i = k - j;
        lemma_mul_is_distributive_sub(slide, k, j);
        assert(slide * i == start - first);
        assert(0 <= i) by (nonlinear_arith)
            requires
                slide > 0,
                slide * i > -slide,
        ;
        assert(i < n) by (nonlinear_arith)
            requires
                slide > 0,
                slide * i < slide * n,
        ;
        assert(start == first + slide * i);
    }
    if exists|i: int| 0 <= i < n && start == first + #[trigger] (slide * i) {
        let i = choose|i: int| 0 <= i < n && start == first + #[trigger] (slide * i);
        assert(start == slide * (j + i)) by {
            lemma_mul_is_distributive_add(slide, j, i);
        }
        vstd::arithmetic::div_mod::lemma_mod_multiples_basic(j + i, slide);
        assert(slide * (j + i) == (j + i) * slide) by (nonlinear_arith);
        assert(0 <= slide * i <= slide * (n - 1)) by (nonlinear_arith)
            requires
                slide > 0,
                0 <= i <= n - 1,
        ;
    }
}

/// Behind the `width` columns of the child, `out` gives row `r` the window of length `size` that
/// starts at `start`.
pub open spec fn gives_window(out: DataChunk, width: int, r: int, start: int, size: int) -> bool {
    &&& out.columns@.len() == width + 2
    &&& is_time(out.columns@[width]@[r], start)
    &&& is_time(out.columns@[width + 1]@[r], start + size)
}

/// The executor yields, for a chunk of its child, one chunk per slide in the window size. Each has
/// the child's columns unchanged. Chunk `i` gives a row at `time` the window that starts `i` slides
/// after the first multiple of the slide whose window covers `time`.
proof fn lemma_windows_of_row<C, F>(
    executor: HopWindowExecutor2<C>,
    plan: HopWindowPlan,
    eval: F,
    chunk: DataChunk,
    outs: Seq<DataChunk>,
    r: int,
    time: int,
    i: int,
) where F: Fn(&Expression, &DataChunk) -> Result<Column, RwError>
    requires
        executor.has_plan(plan),
        executor.window_slide.months == 0,
        micros(executor.window_slide) > 0,
        keeps_time(eval),
        plan.expands_compacted(eval, chunk, outs, Ok(())),
        chunk.is_full(),
        executor.time_col_idx < chunk.columns@.len(),
        0 <= r < chunk.capacity,
        is_time(chunk.columns@[executor.time_col_idx as int]@[r], time),
        time >= micros(executor.window_size) - micros(executor.window_slide),
        0 <= i < plan.units,
    ensures
        outs.len() == plan.units,
        outs[i].columns@.take(chunk.columns@.len() as int) == chunk.columns@,
        ({
            let slide = micros(executor.window_slide);
            let first = tumble(time - slide * (plan.units - 1), slide);
            gives_window(
                outs[i],
                chunk.columns@.len() as int,
                r,
                first + slide * i,
                slide * plan.units,
            )
        }),
{
    let slide = micros(executor.window_slide);
    let first = tumble(time - slide * (plan.units - 1), slide);
    let width = chunk.columns@.len() as int;
    let (origin_cols, hop_start_chunk) = choose|origin_cols: Seq<Column>, hop_start_chunk: DataChunk|
        {
            &&& #[trigger] plan.opens(eval, chunk, origin_cols, hop_start_chunk)
            &&& plan.makes_windows(eval, origin_cols, hop_start_chunk, outs, Ok(()))
        };
    let hop_start = choose|hop_start: Column|
        {
            &&& #[trigger] evaluates(eval, plan.hop_start, chunk, Ok(hop_start))
            &&& hop_start_chunk.consists_of(seq![hop_start])
        };

    // The first window: the size less one slide is `units - 1` slides.
    crate::interval::law_one_step_less(executor.window_slide@, plan.units as int);
    law_fewer_steps_fit(executor.window_slide@, plan.units - 1, plan.units as int);
    lemma_slides_micros(plan, plan.units - 1);
    lemma_slides_micros(plan, plan.units as int);
    assert(plan.slides(plan.units as int) == executor.window_size);
    lemma_mul_is_distributive_sub(slide, plan.units as int, 1);
    let row = row_of(chunk, r);
    assert(row[executor.time_col_idx as int] == chunk.columns@[executor.time_col_idx as int]@[r]);
    reveal_with_fuel(time_of, 4);
    assert(time_of(plan.hop_start, row) == Some(first));
    assert(is_time(hop_start@[r], first));

    // Window `i`, counted from the first.
    assert(plan.makes_window(eval, origin_cols, hop_start_chunk, i, outs[i]));
    let (start, end) = choose|start: Column, end: Column|
        {
            &&& #[trigger] evaluates(eval, plan.window_start(i), hop_start_chunk, Ok(start))
            &&& #[trigger] evaluates(eval, plan.window_end(i), hop_start_chunk, Ok(end))
            &&& crate::array::same_length(origin_cols.push(start).push(end))
            &&& outs[i].consists_of(origin_cols.push(start).push(end))
        };
    law_fewer_steps_fit(executor.window_slide@, i, i + plan.units);
    lemma_slides_micros(plan, i);
    lemma_slides_micros(plan, i + plan.units);
    lemma_mul_is_distributive_add(slide, i, plan.units as int);
    let hop_row = row_of(hop_start_chunk, r);
    assert(hop_row[0] == hop_start@[r]);
    assert(time_of(plan.window_start(i), hop_row) == Some(first + slide * i));
    assert(time_of(plan.window_end(i), hop_row) == Some(first + slide * i + slide * plan.units));
    assert(outs[i].columns@.take(width) == chunk.columns@);
}

/// The start of the first window of length `size`, at a multiple of `slide`, that covers `time`.
pub open spec fn first_start(time: int, size: int, slide: int) -> int {
    tumble(time - (size - slide), slide)
}

/// The chunks `outs` give row `r` each window that covers `time` exactly once, and no other window,
/// from the first on and each one slide after the one before it. The windows start at multiples of
/// `slide` and are `size` long.
pub open spec fn gives_covering_windows(
    outs: Seq<DataChunk>,
    width: int,
    r: int,
    time: int,
    slide: int,
    size: int,
) -> bool {
    &&& forall|i: int|
        0 <= i < outs.len() ==> gives_window(
            #[trigger] outs[i],
            width,
            r,
            first_start(time, size, slide) + slide * i,
            size,
        )
    &&& forall|i: int|
        0 <= i < outs.len() ==> exists|start: int| #[trigger]
            covers(start, size, slide, time) && gives_window(
                #[trigger] outs[i],
                width,
                r,
                start,
                size,
            )
    &&& forall|start: int| #[trigger]
        covers(start, size, slide, time) ==> exists|i: int|
            0 <= i < outs.len() && gives_window(#[trigger] outs[i], width, r, start, size)
    &&& forall|i: int, j: int, start: int|
        0 <= i < outs.len() && 0 <= j < outs.len() && #[trigger] gives_window(
            outs[i],
            width,
            r,
            start,
            size,
        ) && #[trigger] gives_window(outs[j], width, r, start, size) ==> i == j
}

/// A row lands in every window that covers its time, once, and in no other.
///
/// For a chunk without hidden rows that the executor expands, there is one output chunk for each
/// slide in the window size, and each keeps the child's columns. The windows that they give a row
/// at `time` are those that start at a multiple of the slide, are `window_size` long and cover
/// `time`.
pub proof fn law_row_lands_in_covering_windows<C, F>(
    executor: HopWindowExecutor2<C>,
    plan: HopWindowPlan,
    eval: F,
    chunk: DataChunk,
    outs: Seq<DataChunk>,
    r: int,
    time: int,
) where F: Fn(&Expression, &DataChunk) -> Result<Column, RwError>
    requires
        executor.has_plan(plan),
        executor.window_slide.months == 0,
        micros(executor.window_slide) > 0,
        keeps_time(eval),
        plan.expands_compacted(eval, chunk, outs, Ok(())),
        chunk.is_full(),
        executor.time_col_idx < chunk.columns@.len(),
        0 <= r < chunk.capacity,
        is_time(chunk.columns@[executor.time_col_idx as int]@[r], time),
        time >= micros(executor.window_size) - micros(executor.window_slide),
    ensures
        outs.len() == plan.units,
        forall|i: int|
            0 <= i < outs.len() ==> (#[trigger] outs[i]).columns@.take(chunk.columns@.len() as int)
                == chunk.columns@,
        gives_covering_windows(
            outs,
            chunk.columns@.len() as int,
            r,
            time,
            micros(executor.window_slide),
            micros(executor.window_size),
        ),
{
    let slide = micros(executor.window_slide);
    let size = micros(executor.window_size);
    let width = chunk.columns@.len() as int;
    let first = tumble(time - slide * (plan.units - 1), slide);
    lemma_windows_of_row(executor, plan, eval, chunk, outs, r, time, 0);
    lemma_slides_micros(plan, plan.units as int);
    assert(plan.slides(plan.units as int) == executor.window_size);
    assert(slide * plan.units == size);
    lemma_mul_is_distributive_sub(slide, plan.units as int, 1);
    assert(first == first_start(time, size, slide));
    assert forall|i: int| 0 <= i < outs.len() implies gives_window(
        #[trigger] outs[i],
        width,
        r,
        first + slide * i,
        size,
    ) by {
        lemma_windows_of_row(executor, plan, eval, chunk, outs, r, time, i);
    }
    assert forall|i: int| 0 <= i < outs.len() implies (#[trigger] outs[i]).columns@.take(width)
        == chunk.columns@ by {
        lemma_windows_of_row(executor, plan, eval, chunk, outs, r, time, i);
    }
    assert forall|i: int| 0 <= i < outs.len() implies exists|start: int| #[trigger]
        covers(start, size, slide, time) && gives_window(
            #[trigger] outs[i],
            width,
            r,
            start,
            size,
        ) by {
        lemma_windows_of_row(executor, plan, eval, chunk, outs, r, time, i);
        law_covering_windows(time, slide, plan.units as int, first + slide * i);
        assert(covers(first + slide * i, size, slide, time));
    }
    assert forall|start: int| #[trigger] covers(start, size, slide, time) implies exists|i: int|
        0 <= i < outs.len() && gives_window(#[trigger] outs[i], width, r, start, size) by {
        law_covering_windows(time, slide, plan.units as int, start);
        let i = choose|i: int| 0 <= i < plan.units && start == first + #[trigger] (slide * i);
        lemma_windows_of_row(executor, plan, eval, chunk, outs, r, time, i);
    }
    assert forall|i: int, j: int, start: int|
        0 <= i < outs.len() && 0 <= j < outs.len() && #[trigger] gives_window(
            outs[i],
            width,
            r,
            start,
            size,
        ) && #[trigger] gives_window(outs[j], width, r, start, size) implies i == j by {
        lemma_windows_of_row(executor, plan, eval, chunk, outs, r, time, i);
        lemma_windows_of_row(executor, plan, eval, chunk, outs, r, time, j);
        assert(i == j) by (nonlinear_arith)
            requires
                slide > 0,
                slide * i == slide * j,
        ;
    }
}

/// In the stream of the executor, every visible row of the child lands in every window that covers
/// its time, once, and in no other, and keeps its values.
///
/// `k` is a chunk of the child before which, and in which, nothing failed. Its rows leave in the
/// chunks from `k * units` on, one for each slide in the window size, in the order that they had.
pub proof fn law_stream_gives_covering_windows<C, F>(
    executor: HopWindowExecutor2<C>,
    plan: HopWindowPlan,
    eval: F,
    items: Seq<Result<DataChunk, RwError>>,
    n: int,
    outs: Seq<DataChunk>,
    outcome: Result<(), RwError>,
    k: int,
    p: int,
    time: int,
) where F: Fn(&Expression, &DataChunk) -> Result<Column, RwError>
    requires
        executor.has_plan(plan),
        executor.window_slide.months == 0,
        micros(executor.window_slide) > 0,
        keeps_time(eval),
        plan.streams(eval, items, n, outs, outcome),
        0 <= k < n,
        items[k]->Ok_0.is_full(),
        executor.time_col_idx < items[k]->Ok_0.columns@.len(),
        items[k]->Ok_0.is_visible(p),
        is_time(items[k]->Ok_0.columns@[executor.time_col_idx as int]@[p], time),
        time >= micros(executor.window_size) - micros(executor.window_slide),
    ensures
        ({
            let chunk = items[k]->Ok_0;
            let windows = outs.subrange(k * plan.units, (k + 1) * plan.units);
            let width = chunk.columns@.len() as int;
            let r = chunk.position(p);
            &&& items[k] is Ok
            &&& windows.len() == plan.units
            &&& forall|i: int, c: int|
                0 <= i < windows.len() && 0 <= c < width ==> (#[trigger] windows[i].columns@[c])@[r]
                    == chunk.columns@[c]@[p]
            &&& gives_covering_windows(
                windows,
                width,
                r,
                time,
                micros(executor.window_slide),
                micros(executor.window_size),
            )
        }),
{
    let chunk = items[k]->Ok_0;
    let windows = outs.subrange(k * plan.units, (k + 1) * plan.units);
    let r = chunk.position(p);
    assert(items[k] is Ok && plan.expands(eval, chunk, windows, Ok(())));
    let compacted = choose|compacted: DataChunk|
        {
            &&& #[trigger] compacted.is_compaction_of(chunk)
            &&& plan.expands_compacted(eval, compacted, windows, Ok(()))
        };
    law_compaction_keeps_visible_rows(chunk, compacted, p);
    law_compaction_is_full(chunk, compacted);
    law_row_lands_in_covering_windows(executor, plan, eval, compacted, windows, r, time);
    assert forall|i: int, c: int|
        0 <= i < windows.len() && 0 <= c < chunk.columns@.len() implies (
    #[trigger] windows[i].columns@[c])@[r] == chunk.columns@[c]@[p] by {
        assert(windows[i].columns@.take(compacted.columns@.len() as int)[c]
            == compacted.columns@[c]);
    }
}

/// The windows of `n` slides and the tumbling window of one slide differ by whole slides.
///
/// `hopping` and `tumbling` have the same slide, time column and child, and the size of the windows
/// of `tumbling` is one slide. Then `tumbling` sends one chunk for each chunk of the child, and
/// gives a row at `time` the window from `tumble(time, slide)` on. Window `i` of the `n` that
/// `hopping` gives the row starts `n - 1 - i` slides before that one, and is `n` slides long.
pub proof fn law_hopping_windows_precede_tumbling_window<C, F>(
    hopping: HopWindowExecutor2<C>,
    tumbling: HopWindowExecutor2<C>,
    hopping_plan: HopWindowPlan,
    tumbling_plan: HopWindowPlan,
    eval: F,
    items: Seq<Result<DataChunk, RwError>>,
    hopping_n: int,
    tumbling_n: int,
    hopping_outs: Seq<DataChunk>,
    tumbling_outs: Seq<DataChunk>,
    hopping_outcome: Result<(), RwError>,
    tumbling_outcome: Result<(), RwError>,
    k: int,
    i: int,
    p: int,
    time: int,
) where F: Fn(&Expression, &DataChunk) -> Result<Column, RwError>
    requires
        hopping.has_plan(hopping_plan),
        tumbling.has_plan(tumbling_plan),
        hopping.window_slide == tumbling.window_slide,
        tumbling.window_size == tumbling.window_slide,
        hopping.time_col_idx == tumbling.time_col_idx,
        hopping.window_slide.months == 0,
        micros(hopping.window_slide) > 0,
        keeps_time(eval),
        hopping_plan.streams(eval, items, hopping_n, hopping_outs, hopping_outcome),
        tumbling_plan.streams(eval, items, tumbling_n, tumbling_outs, tumbling_outcome),
        0 <= k < hopping_n,
        0 <= k < tumbling_n,
        0 <= i < hopping_plan.units,
        items[k]->Ok_0.is_full(),
        hopping.time_col_idx < items[k]->Ok_0.columns@.len(),
        items[k]->Ok_0.is_visible(p),
        is_time(items[k]->Ok_0.columns@[hopping.time_col_idx as int]@[p], time),
        time >= micros(hopping.window_size) - micros(hopping.window_slide),
    ensures
        ({
            let slide = micros(hopping.window_slide);
            let n = hopping_plan.units as int;
            let width = items[k]->Ok_0.columns@.len() as int;
            let r = items[k]->Ok_0.position(p);
            &&& tumbling_outcome is Ok ==> tumbling_outs.len() == items.len()
            &&& gives_window(tumbling_outs[k], width, r, tumble(time, slide), slide)
            &&& gives_window(
                hopping_outs[k * n + i],
                width,
                r,
                tumble(time, slide) - slide * (n - 1 - i),
                slide * n,
            )
        }),
{
    let slide = micros(hopping.window_slide);
    let size = micros(hopping.window_size);
    let n = hopping_plan.units as int;
    let first = first_start(time, size, slide);

    // One slide goes into one slide once.
    assert(tumbling.window_size@.is_multiple(tumbling.window_slide@, 1));
    crate::interval::law_multiple_is_unique(
        tumbling.window_size@,
        tumbling.window_slide@,
        1,
        tumbling_plan.units as int,
    );

    lemma_slides_micros(hopping_plan, n);
    assert(hopping_plan.slides(n) == hopping.window_size);
    lemma_mul_is_distributive_sub(slide, n, 1);
    assert(0 <= slide * (n - 1)) by (nonlinear_arith)
        requires
            slide > 0,
            n >= 1,
    ;
    law_stream_gives_covering_windows(
        hopping,
        hopping_plan,
        eval,
        items,
        hopping_n,
        hopping_outs,
        hopping_outcome,
        k,
        p,
        time,
    );
    law_stream_gives_covering_windows(
        tumbling,
        tumbling_plan,
        eval,
        items,
        tumbling_n,
        tumbling_outs,
        tumbling_outcome,
        k,
        p,
        time,
    );

    // The chunks of the two streams.
    assert(0 <= k * n <= k * n + i < (k + 1) * n <= hopping_n * n) by (nonlinear_arith)
        requires
            0 <= k < hopping_n,
            0 <= i < n,
    ;
    assert(hopping_outs.subrange(k * n, (k + 1) * n)[i] == hopping_outs[k * n + i]);
    assert(tumbling_outs.subrange(k * 1, (k + 1) * 1)[0] == tumbling_outs[k]);
    assert(first_start(time, slide, slide) + slide * 0 == tumble(time, slide));

    // Rounding down commutes with going back by whole slides.
    vstd::arithmetic::div_mod::lemma_mod_multiples_vanish(-(n - 1), time, slide);
    assert(slide * -(n - 1) + time == time - slide * (n - 1)) by (nonlinear_arith);
    lemma_mul_is_distributive_sub(slide, n - 1, i);
    assert(first + slide * i == tumble(time, slide) - slide * (n - 1 - i));
}

} // verus!
