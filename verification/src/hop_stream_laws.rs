//! What holds of the whole stream of a hop window executor, for any child.
use crate::array::{
    law_compaction_is_full, law_compaction_keeps_visible_rows,
    law_compaction_picks_the_visible_rows, picks_rows, same_length, Column, DataChunk,
};
use crate::error::RwError;
use crate::expr::{evaluates, ExprType, Expression};
use crate::hop_window::{HopWindowExecutor2, HopWindowPlan};
use crate::hop_window_laws::{
    gives_covering_windows, is_time, keeps_time, law_earlier_windows_exist,
    law_stream_gives_covering_windows, micros,
};
use crate::interval::{
    law_fewer_steps_fit, law_multiple_is_unique, law_one_step_less, law_units_are_independent,
    IntervalUnit,
};
use crate::plan::{builds, BoxedExecutor2, PlanNode};
use crate::projection::keeps_rows;
use crate::projection_laws::never_fails;
use crate::stream::ChunkStream;
use crate::types::ScalarImpl;
use vstd::prelude::*;

verus! {

/// `size` is `n` times `slide`, unit by unit, and `slide` is not zero.
pub open spec fn is_slides(size: IntervalUnit, slide: IntervalUnit, n: int) -> bool {
    &&& slide.months != 0 || slide.days != 0 || slide.ms != 0
    &&& size.months == slide.months * n
    &&& size.days == slide.days * n
    &&& size.ms == slide.ms * n
}

/// A number of slides that the executor can work with.
pub open spec fn is_count(n: int) -> bool {
    1 <= n <= usize::MAX && n <= i64::MAX
}

/// A window size that is not a positive whole number of slides is refused at once.
pub proof fn law_other_window_sizes_are_refused<C, F>(
    executor: HopWindowExecutor2<C>,
    eval: F,
    items: Seq<Result<DataChunk, RwError>>,
    r: ChunkStream,
) where F: Fn(&Expression, &DataChunk) -> Result<Column, RwError>
    requires
        executor.executes(eval, items, r),
        forall|n: int|
            is_count(n) ==> !#[trigger] is_slides(executor.window_size, executor.window_slide, n),
    ensures
        r.chunks@.len() == 0,
        r.outcome == Err::<(), RwError>(
            RwError::WindowNotDivisible {
                window_size: executor.window_size,
                window_slide: executor.window_slide,
            },
        ),
{
    if executor.divisible() {
        let n = choose|n: int|
            1 <= n <= usize::MAX && n <= i64::MAX && #[trigger] executor.window_size@.is_multiple(
                executor.window_slide@,
                n,
            );
        law_units_are_independent(executor.window_size, executor.window_slide, n);
        assert(is_slides(executor.window_size, executor.window_slide, n));
    }
}

/// A window of `units` slides is planned with `units` windows.
proof fn lemma_plan<C, F>(
    executor: HopWindowExecutor2<C>,
    eval: F,
    items: Seq<Result<DataChunk, RwError>>,
    r: ChunkStream,
    units: int,
) -> (planned: (HopWindowPlan, int)) where F: Fn(&Expression, &DataChunk) -> Result<Column, RwError>
    requires
        executor.executes(eval, items, r),
        is_count(units),
        is_slides(executor.window_size, executor.window_slide, units),
    ensures
        executor.has_plan(planned.0),
        planned.0.units == units,
        planned.0.streams(eval, items, planned.1, r.chunks@, r.outcome),
{
    law_units_are_independent(executor.window_size, executor.window_slide, units);
    assert(executor.divisible());
    let (plan, n) = choose|plan: HopWindowPlan, n: int|
        #[trigger] executor.has_plan(plan) && #[trigger] plan.streams(
            eval,
            items,
            n,
            r.chunks@,
            r.outcome,
        );
    law_multiple_is_unique(
        executor.window_size@,
        executor.window_slide@,
        plan.units as int,
        units,
    );
    (plan, n)
}

/// A chunk of the child that fails leaves fewer chunks than it has windows.
proof fn lemma_failed_expansion<F>(
    plan: HopWindowPlan,
    eval: F,
    data_chunk: DataChunk,
    outs: Seq<DataChunk>,
    e: RwError,
) where F: Fn(&Expression, &DataChunk) -> Result<Column, RwError>
    requires
        plan.expands(eval, data_chunk, outs, Err(e)),
        plan.units >= 1,
    ensures
        outs.len() < plan.units,
{
}

/// A stream that ends well has expanded every chunk of the child: there are as many chunks as the
/// child sent, times the number of slides in the window size.
///
/// A stream that ends with an error has expanded the first chunks of the child, and no more than a
/// part of the next one. Where that is an error of the child, it is the error of the stream.
pub proof fn law_stream_expands_every_chunk<C, F>(
    executor: HopWindowExecutor2<C>,
    eval: F,
    items: Seq<Result<DataChunk, RwError>>,
    r: ChunkStream,
    units: int,
) where F: Fn(&Expression, &DataChunk) -> Result<Column, RwError>
    requires
        executor.executes(eval, items, r),
        is_count(units),
        is_slides(executor.window_size, executor.window_slide, units),
    ensures
        r.outcome is Ok ==> {
            &&& r.chunks@.len() == items.len() * units
            &&& forall|k: int| 0 <= k < items.len() ==> (#[trigger] items[k]) is Ok
        },
        r.outcome is Err ==> exists|n: int|
            #![trigger items[n]]
            {
                &&& 0 <= n < items.len()
                &&& n * units <= r.chunks@.len() < (n + 1) * units
                &&& forall|k: int| 0 <= k < n ==> (#[trigger] items[k]) is Ok
                &&& items[n] is Err ==> r.chunks@.len() == n * units && r.outcome->Err_0
                    == items[n]->Err_0
            },
{
    let (plan, n) = lemma_plan(executor, eval, items, r, units);
    if r.outcome is Err {
        let item = items[n];
        if item is Ok {
            lemma_failed_expansion(
                plan,
                eval,
                item->Ok_0,
                r.chunks@.skip(n * plan.units),
                r.outcome->Err_0,
            );
        }
        assert((n + 1) * units == n * units + units) by (nonlinear_arith);
    }
}

/// The chunks of the stream that child chunk `k` was expanded into, where there are that many.
proof fn lemma_expanded<C, F>(
    executor: HopWindowExecutor2<C>,
    eval: F,
    items: Seq<Result<DataChunk, RwError>>,
    r: ChunkStream,
    units: int,
    k: int,
) -> (planned: (HopWindowPlan, int)) where F: Fn(&Expression, &DataChunk) -> Result<Column, RwError>
    requires
        executor.executes(eval, items, r),
        is_count(units),
        is_slides(executor.window_size, executor.window_slide, units),
        0 <= k,
        (r.outcome is Ok && k < items.len()) || (k + 1) * units <= r.chunks@.len(),
    ensures
        executor.has_plan(planned.0),
        planned.0.units == units,
        planned.0.streams(eval, items, planned.1, r.chunks@, r.outcome),
        k < planned.1 <= items.len(),
        items[k] is Ok,
        0 <= k * units <= (k + 1) * units <= r.chunks@.len(),
        planned.0.expands(
            eval,
            items[k]->Ok_0,
            r.chunks@.subrange(k * units, (k + 1) * units),
            Ok(()),
        ),
{
    let (plan, n) = lemma_plan(executor, eval, items, r, units);
    if r.outcome is Err && items[n] is Ok {
        lemma_failed_expansion(
            plan,
            eval,
            items[n]->Ok_0,
            r.chunks@.skip(n * plan.units),
            r.outcome->Err_0,
        );
    }
    if k >= n {
        assert((k + 1) * units >= n * units + units) by (nonlinear_arith)
            requires
                k >= n,
                units >= 1,
        ;
    }
    assert(0 <= k * units <= (k + 1) * units <= n * units) by (nonlinear_arith)
        requires
            0 <= k < n,
            units >= 1,
    ;
    assert(items[k] is Ok);
    (plan, n)
}

/// Each chunk of the child leaves once for each slide in the window size, with all rows that are
/// not hidden, in their order, and two more columns. That holds of any window and any engine.
///
/// `k` is any chunk of the child, where the stream ends well, and otherwise one that the stream has
/// come past; `i` is any of its windows.
pub proof fn law_every_visible_row_leaves_once_per_slide<C, F>(
    executor: HopWindowExecutor2<C>,
    eval: F,
    items: Seq<Result<DataChunk, RwError>>,
    r: ChunkStream,
    units: int,
    k: int,
    i: int,
) where F: Fn(&Expression, &DataChunk) -> Result<Column, RwError>
    requires
        executor.executes(eval, items, r),
        is_count(units),
        is_slides(executor.window_size, executor.window_slide, units),
        0 <= k,
        (r.outcome is Ok && k < items.len()) || (k + 1) * units <= r.chunks@.len(),
        0 <= i < units,
        items[k]->Ok_0.is_full(),
    ensures
        k < items.len(),
        items[k] is Ok,
        0 <= k * units + i < r.chunks@.len(),
        ({
            let chunk = items[k]->Ok_0;
            let out = r.chunks@[k * units + i];
            &&& out.columns@.len() == chunk.columns@.len() + 2
            &&& out.visibility is None
            &&& exists|rows: Seq<int>|
                {
                    &&& #[trigger] picks_rows(chunk, out, rows)
                    &&& chunk.columns@.len() > 0 ==> out.capacity == rows.len() && forall|c: int|
                        0 <= c < out.columns@.len() ==> (#[trigger] out.columns@[c]).array@.len()
                            == rows.len()
                }
        }),
{
    let (plan, n) = lemma_expanded(executor, eval, items, r, units, k);
    let chunk = items[k]->Ok_0;
    let windows = r.chunks@.subrange(k * units, (k + 1) * units);
    assert((k + 1) * units == k * units + units) by (nonlinear_arith);
    let out = r.chunks@[k * units + i];
    assert(windows[i] == out);
    let compacted = choose|compacted: DataChunk|
        {
            &&& #[trigger] compacted.is_compaction_of(chunk)
            &&& plan.expands_compacted(eval, compacted, windows, Ok(()))
        };
    let (origin_cols, hop_start_chunk) = choose|
        origin_cols: Seq<Column>,
        hop_start_chunk: DataChunk,
    |
        {
            &&& #[trigger] plan.opens(eval, compacted, origin_cols, hop_start_chunk)
            &&& plan.makes_windows(eval, origin_cols, hop_start_chunk, windows, Ok(()))
        };
    assert(plan.makes_window(eval, origin_cols, hop_start_chunk, i, windows[i]));
    let (start, end) = choose|start: Column, end: Column|
        {
            &&& #[trigger] evaluates(eval, plan.window_start(i), hop_start_chunk, Ok(start))
            &&& #[trigger] evaluates(eval, plan.window_end(i), hop_start_chunk, Ok(end))
            &&& same_length(origin_cols.push(start).push(end))
            &&& out.consists_of(origin_cols.push(start).push(end))
        };
    law_compaction_picks_the_visible_rows(chunk, compacted);
    law_compaction_is_full(chunk, compacted);
    let rows = choose|rows: Seq<int>| #[trigger]
        picks_rows(chunk, compacted, rows) && rows.len() == compacted.capacity;
    assert forall|c: int| 0 <= c < chunk.columns@.len() implies #[trigger] out.columns@[c]
        == compacted.columns@[c] by {}
    assert(picks_rows(chunk, out, rows)) by {
        assert forall|c: int, q: int| 0 <= c < chunk.columns@.len() && 0 <= q < rows.len() implies (
        #[trigger] out.columns@[c]).array@[q] == chunk.columns@[c].array@[#[trigger] rows[q]] by {
            assert(compacted.columns@[c].array@[q] == chunk.columns@[c].array@[rows[q]]);
        }
    }
    if chunk.columns@.len() > 0 {
        assert(compacted.columns@[0]@.len() == compacted.capacity);
        assert forall|c: int| 0 <= c < out.columns@.len() implies (
        #[trigger] out.columns@[c]).array@.len() == rows.len() by {
            assert(origin_cols.push(start).push(end)[c]@.len() == origin_cols.push(start).push(
                end,
            )[0]@.len());
        }
    }
}

/// Every row of the child that is not hidden is in every window that covers its time, once, in
/// ascending order, and in no other, and keeps its values.
///
/// `k` is any chunk of the child, where the stream ends well, and otherwise one that the stream has
/// come past. The windows are measured in days and milliseconds, and the first one of the row does
/// not start before the epoch.
pub proof fn law_every_row_is_in_its_covering_windows<C, F>(
    executor: HopWindowExecutor2<C>,
    eval: F,
    items: Seq<Result<DataChunk, RwError>>,
    r: ChunkStream,
    units: int,
    k: int,
    p: int,
    time: int,
) where F: Fn(&Expression, &DataChunk) -> Result<Column, RwError>
    requires
        executor.executes(eval, items, r),
        is_count(units),
        is_slides(executor.window_size, executor.window_slide, units),
        executor.window_slide.months == 0,
        micros(executor.window_slide) > 0,
        keeps_time(eval),
        0 <= k,
        (r.outcome is Ok && k < items.len()) || (k + 1) * units <= r.chunks@.len(),
        items[k]->Ok_0.is_full(),
        executor.time_col_idx < items[k]->Ok_0.columns@.len(),
        items[k]->Ok_0.is_visible(p),
        is_time(items[k]->Ok_0.columns@[executor.time_col_idx as int]@[p], time),
        time >= micros(executor.window_size) - micros(executor.window_slide),
    ensures
        k < items.len(),
        items[k] is Ok,
        (k + 1) * units <= r.chunks@.len(),
        ({
            let chunk = items[k]->Ok_0;
            let width = chunk.columns@.len() as int;
            let row = chunk.position(p);
            &&& forall|i: int, c: int|
                k * units <= i < (k + 1) * units && 0 <= c < width ==> (
                #[trigger] r.chunks@[i].columns@[c]).array@[row] == chunk.columns@[c].array@[p]
            &&& gives_covering_windows(
                r.chunks@.subrange(k * units, (k + 1) * units),
                width,
                row,
                time,
                micros(executor.window_slide),
                micros(executor.window_size),
            )
        }),
{
    let (plan, n) = lemma_expanded(executor, eval, items, r, units, k);
    law_stream_gives_covering_windows(
        executor,
        plan,
        eval,
        items,
        n,
        r.chunks@,
        r.outcome,
        k,
        p,
        time,
    );
    let chunk = items[k]->Ok_0;
    let windows = r.chunks@.subrange(k * units, (k + 1) * units);
    assert forall|i: int, c: int|
        k * units <= i < (k + 1) * units && 0 <= c < chunk.columns@.len() implies (
    #[trigger] r.chunks@[i].columns@[c]).array@[chunk.position(p)] == chunk.columns@[c].array@[p] by {
        assert(windows[i - k * units] == r.chunks@[i]);
        assert(windows[i - k * units].columns@[c]@[chunk.position(p)] == chunk.columns@[c]@[p]);
    }
}

/// Ways to reckon with points in time: `add` and `subtract` move one by an interval, and
/// `tumble_start` rounds one down.
pub struct Calendar {
    pub add: spec_fn(int, IntervalUnit) -> int,
    pub subtract: spec_fn(int, IntervalUnit) -> int,
    pub tumble_start: spec_fn(int, IntervalUnit) -> int,
}

/// A reference to column `idx`, moved by an interval.
pub open spec fn is_moved(
    expr: Expression,
    op: ExprType,
    idx: int,
    interval: IntervalUnit,
) -> bool {
    &&& expr matches Expression::Binary(e) && e.expr_type == op
    &&& expr->Binary_0.left matches Expression::InputRef(column) && column.idx == idx
    &&& expr->Binary_0.right matches Expression::Literal(constant) && constant.literal == Some(
        ScalarImpl::Interval(interval),
    )
}

/// A reference to column `idx`, moved back by `by` and rounded down to a multiple of `slide`.
pub open spec fn is_first_start(
    expr: Expression,
    idx: int,
    by: IntervalUnit,
    slide: IntervalUnit,
) -> bool {
    &&& expr matches Expression::Binary(e) && e.expr_type == ExprType::TumbleStart
    &&& is_moved(expr->Binary_0.left, ExprType::Subtract, idx, by)
    &&& expr->Binary_0.right matches Expression::Literal(constant) && constant.literal == Some(
        ScalarImpl::Interval(slide),
    )
}

/// On a chunk that has one value per row in each column, the engine's columns have so too, and the
/// engine moves timestamps, and rounds them when they were moved back, by this calendar.
pub open spec fn reckons_by<F>(eval: F, calendar: Calendar) -> bool where
    F: Fn(&Expression, &DataChunk) -> Result<Column, RwError>,
 {
    &&& forall|expr: Expression, input: DataChunk, out: Column| #[trigger]
        evaluates(eval, expr, input, Ok(out)) && input.is_full() ==> out@.len() == input.capacity
    &&& forall|
        expr: Expression,
        input: DataChunk,
        out: Column,
        idx: int,
        interval: IntervalUnit,
        row: int,
        time: int,
    |
        #![trigger evaluates(eval, expr, input, Ok(out)), is_moved(expr, ExprType::Add, idx, interval), is_time(input.columns@[idx]@[row], time)]
        evaluates(eval, expr, input, Ok(out)) && input.is_full() && is_moved(
            expr,
            ExprType::Add,
            idx,
            interval,
        ) && 0 <= idx < input.columns@.len() && 0 <= row < input.capacity && is_time(
            input.columns@[idx]@[row],
            time,
        ) ==> is_time(out@[row], (calendar.add)(time, interval))
    &&& forall|
        expr: Expression,
        input: DataChunk,
        out: Column,
        idx: int,
        by: IntervalUnit,
        slide: IntervalUnit,
        row: int,
        time: int,
    |
        #![trigger evaluates(eval, expr, input, Ok(out)), is_first_start(expr, idx, by, slide), is_time(input.columns@[idx]@[row], time)]
        evaluates(eval, expr, input, Ok(out)) && input.is_full() && is_first_start(
            expr,
            idx,
            by,
            slide,
        ) && 0 <= idx < input.columns@.len() && 0 <= row < input.capacity && is_time(
            input.columns@[idx]@[row],
            time,
        ) ==> is_time(
            out@[row],
            (calendar.tumble_start)((calendar.subtract)(time, by), slide),
        )
}

/// The windows of a row, for any window and any calendar, one with months too.
///
/// The first window starts where the row's time, moved back by the window size less one slide,
/// rounds down to. Window `i` starts `i` slides after that, and ends `i` slides and a window size
/// after it.
pub proof fn law_windows_by_calendar<C, F>(
    executor: HopWindowExecutor2<C>,
    eval: F,
    calendar: Calendar,
    items: Seq<Result<DataChunk, RwError>>,
    r: ChunkStream,
    units: int,
    k: int,
    i: int,
    p: int,
    time: int,
    less_one: IntervalUnit,
    to_start: IntervalUnit,
    to_end: IntervalUnit,
) where F: Fn(&Expression, &DataChunk) -> Result<Column, RwError>
    requires
        executor.executes(eval, items, r),
        is_count(units),
        is_slides(executor.window_size, executor.window_slide, units),
        reckons_by(eval, calendar),
        0 <= k,
        (r.outcome is Ok && k < items.len()) || (k + 1) * units <= r.chunks@.len(),
        0 <= i < units,
        items[k]->Ok_0.is_full(),
        executor.time_col_idx < items[k]->Ok_0.columns@.len(),
        items[k]->Ok_0.is_visible(p),
        is_time(items[k]->Ok_0.columns@[executor.time_col_idx as int]@[p], time),
        less_one.months == executor.window_size.months - executor.window_slide.months,
        less_one.days == executor.window_size.days - executor.window_slide.days,
        less_one.ms == executor.window_size.ms - executor.window_slide.ms,
        to_start.months == executor.window_slide.months * i,
        to_start.days == executor.window_slide.days * i,
        to_start.ms == executor.window_slide.ms * i,
        to_end.months == executor.window_slide.months * (i + units),
        to_end.days == executor.window_slide.days * (i + units),
        to_end.ms == executor.window_slide.ms * (i + units),
    ensures
        ({
            let chunk = items[k]->Ok_0;
            let width = chunk.columns@.len() as int;
            let row = chunk.position(p);
            let out = r.chunks@[k * units + i];
            let first = (calendar.tumble_start)(
                (calendar.subtract)(time, less_one),
                executor.window_slide,
            );
            &&& out.columns@.len() == width + 2
            &&& is_time(out.columns@[width]@[row], (calendar.add)(first, to_start))
            &&& is_time(out.columns@[width + 1]@[row], (calendar.add)(first, to_end))
        }),
{
    let (plan, n) = lemma_expanded(executor, eval, items, r, units, k);
    let chunk = items[k]->Ok_0;
    let row = chunk.position(p);
    let width = chunk.columns@.len() as int;
    let idx = executor.time_col_idx as int;
    let slide = executor.window_slide;
    let windows = r.chunks@.subrange(k * units, (k + 1) * units);
    assert((k + 1) * units == k * units + units) by (nonlinear_arith);
    let out = r.chunks@[k * units + i];
    assert(windows[i] == out);
    let compacted = choose|compacted: DataChunk|
        {
            &&& #[trigger] compacted.is_compaction_of(chunk)
            &&& plan.expands_compacted(eval, compacted, windows, Ok(()))
        };
    law_compaction_keeps_visible_rows(chunk, compacted, p);
    law_compaction_is_full(chunk, compacted);
    let (origin_cols, hop_start_chunk) = choose|
        origin_cols: Seq<Column>,
        hop_start_chunk: DataChunk,
    |
        {
            &&& #[trigger] plan.opens(eval, compacted, origin_cols, hop_start_chunk)
            &&& plan.makes_windows(eval, origin_cols, hop_start_chunk, windows, Ok(()))
        };
    let hop_start = choose|hop_start: Column|
        {
            &&& #[trigger] evaluates(eval, plan.hop_start, compacted, Ok(hop_start))
            &&& hop_start_chunk.consists_of(seq![hop_start])
        };

    // The start of the first window.
    law_one_step_less(slide@, units);
    law_fewer_steps_fit(slide@, units - 1, units);
    law_units_are_independent(executor.window_size, slide, units);
    assert(is_first_start(plan.hop_start, idx, less_one, slide));
    assert(is_time(compacted.columns@[idx]@[row], time));
    let first = (calendar.tumble_start)((calendar.subtract)(time, less_one), slide);
    assert(is_time(hop_start@[row], first));
    assert(hop_start_chunk.is_full());
    assert(hop_start_chunk.columns@[0] == hop_start);
    assert(is_time(hop_start_chunk.columns@[0]@[row], first));

    // The start and the end of window `i`.
    assert(plan.makes_window(eval, origin_cols, hop_start_chunk, i, windows[i]));
    let (start, end) = choose|start: Column, end: Column|
        {
            &&& #[trigger] evaluates(eval, plan.window_start(i), hop_start_chunk, Ok(start))
            &&& #[trigger] evaluates(eval, plan.window_end(i), hop_start_chunk, Ok(end))
            &&& same_length(origin_cols.push(start).push(end))
            &&& out.consists_of(origin_cols.push(start).push(end))
        };
    law_fewer_steps_fit(slide@, i, i + units);
    law_units_are_independent(slide, slide, i);
    law_units_are_independent(slide, slide, i + units);
    assert(plan.slides(i) == to_start);
    assert(plan.slides(i + plan.units) == to_end);
    assert(is_moved(plan.window_start(i), ExprType::Add, 0, to_start));
    assert(is_moved(plan.window_end(i), ExprType::Add, 0, to_end));
}

/// The distance of `n` slides is an interval, and `n` is not too large to count slides by.
pub open spec fn is_distance(slide: IntervalUnit, n: int) -> bool {
    &&& n <= i32::MAX
    &&& i32::MIN <= slide.months * n <= i32::MAX
    &&& i32::MIN <= slide.days * n <= i32::MAX
    &&& i64::MIN <= slide.ms * n <= i64::MAX
}

/// A chunk that every part of the executor can work with: each column has one value per row, and
/// one per visibility flag, where there are flags.
pub open spec fn is_sound(chunk: DataChunk) -> bool {
    &&& forall|c: int|
        0 <= c < chunk.columns@.len() ==> (#[trigger] chunk.columns@[c])@.len() == chunk.capacity
    &&& chunk.visibility is Some ==> forall|c: int|
        0 <= c < chunk.columns@.len() ==> (#[trigger] chunk.columns@[c])@.len()
            == chunk.visibility->Some_0@.len()
}

/// With an engine that never fails, a window of a sound chunk fails only for an overflow.
proof fn lemma_only_overflow_fails<F>(
    plan: HopWindowPlan,
    eval: F,
    chunk: DataChunk,
    outs: Seq<DataChunk>,
    outcome: Result<(), RwError>,
) where F: Fn(&Expression, &DataChunk) -> Result<Column, RwError>
    requires
        plan.expands(eval, chunk, outs, outcome),
        never_fails(eval),
        keeps_rows(eval),
        is_sound(chunk),
        plan.units >= 1,
    ensures
        forall|i: int| 0 <= i < outs.len() ==> #[trigger] plan.has_window(i),
        outcome is Ok ==> outs.len() == plan.units,
        outcome is Err ==> outs.len() < plan.units && !plan.has_window(outs.len() as int)
            && outcome->Err_0 == (RwError::SlideNotMultipliable {
            window_slide: plan.window_slide,
            factor: outs.len() as usize,
        }),
{
    assert(chunk.matches_visibility());
    assert(chunk.is_full());
    let compacted = choose|compacted: DataChunk|
        {
            &&& #[trigger] compacted.is_compaction_of(chunk)
            &&& plan.expands_compacted(eval, compacted, outs, outcome)
        };
    law_compaction_is_full(chunk, compacted);
    if outcome is Err && evaluates(eval, plan.hop_start, compacted, Err(outcome->Err_0)) {
        assert(false);
    }
    let (origin_cols, hop_start_chunk) = choose|
        origin_cols: Seq<Column>,
        hop_start_chunk: DataChunk,
    |
        {
            &&& #[trigger] plan.opens(eval, compacted, origin_cols, hop_start_chunk)
            &&& plan.makes_windows(eval, origin_cols, hop_start_chunk, outs, outcome)
        };
    assert forall|i: int| 0 <= i < outs.len() implies #[trigger] plan.has_window(i) by {
        assert(plan.makes_window(eval, origin_cols, hop_start_chunk, i, outs[i]));
    }
    if outcome is Err {
        let i = outs.len() as int;
        let e = outcome->Err_0;
        let hop_start = choose|hop_start: Column|
            {
                &&& #[trigger] evaluates(eval, plan.hop_start, compacted, Ok(hop_start))
                &&& hop_start_chunk.consists_of(seq![hop_start])
            };
        assert(hop_start_chunk.is_full());
        assert(plan.fails_window(eval, origin_cols, hop_start_chunk, i, e));
        if plan.has_window(i) {
            assert(!evaluates(eval, plan.window_start(i), hop_start_chunk, Err(e)));
            assert(!evaluates(eval, plan.window_end(i), hop_start_chunk, Err(e)));
            let (start, end) = choose|start: Column, end: Column|
                {
                    &&& #[trigger] evaluates(eval, plan.window_start(i), hop_start_chunk, Ok(start))
                    &&& #[trigger] evaluates(eval, plan.window_end(i), hop_start_chunk, Ok(end))
                    &&& !same_length(origin_cols.push(start).push(end))
                    &&& e is UnequalColumns
                };
            let columns = origin_cols.push(start).push(end);
            assert forall|c: int| 0 <= c < columns.len() implies #[trigger] columns[c]@.len()
                == compacted.capacity by {
                if c < origin_cols.len() {
                    assert(columns[c] == compacted.columns@[c]);
                    assert(compacted.columns@[c]@.len() == compacted.capacity);
                }
            }
            assert(columns[0]@.len() == compacted.capacity);
        }
    }
}

proof fn lemma_distances(plan: HopWindowPlan, i: int)
    ensures
        plan.has_window(i) <==> is_distance(plan.window_slide, i + plan.units),
{
    law_units_are_independent(plan.window_slide, plan.window_slide, i + plan.units);
}

/// With an engine that never fails, a child of sound chunks and distances that can be expressed,
/// the stream goes on to the child's first error, and ends well where the child has none.
///
/// `n` is the number of chunks before the child's first error, or of all its chunks.
pub proof fn law_hop_stream_ends_with_its_child<C, F>(
    executor: HopWindowExecutor2<C>,
    eval: F,
    items: Seq<Result<DataChunk, RwError>>,
    r: ChunkStream,
    units: int,
    n: int,
) where F: Fn(&Expression, &DataChunk) -> Result<Column, RwError>
    requires
        executor.executes(eval, items, r),
        is_count(units),
        is_slides(executor.window_size, executor.window_slide, units),
        is_distance(executor.window_slide, units - 1 + units),
        never_fails(eval),
        keeps_rows(eval),
        0 <= n <= items.len(),
        forall|k: int|
            0 <= k < n ==> (#[trigger] items[k]) is Ok && is_sound(items[k]->Ok_0),
        n < items.len() ==> items[n] is Err,
    ensures
        r.chunks@.len() == n * units,
        n == items.len() ==> r.outcome is Ok,
        n < items.len() ==> r.outcome == Err::<(), RwError>(items[n]->Err_0),
{
    let (plan, m) = lemma_plan(executor, eval, items, r, units);
    if n < m {
        assert(items[n] is Ok);
    }
    if r.outcome is Err && items[m] is Ok {
        let outs = r.chunks@.skip(m * plan.units);
        lemma_only_overflow_fails(plan, eval, items[m]->Ok_0, outs, Err(r.outcome->Err_0));
        let i = outs.len() as int;
        lemma_distances(plan, units - 1);
        law_earlier_windows_exist(plan, i, units - 1);
    }
}

/// With an engine that never fails, a distance that cannot be expressed ends the stream in the
/// child's first chunk, behind the windows whose distances can be expressed.
pub proof fn law_overflow_ends_the_stream<C, F>(
    executor: HopWindowExecutor2<C>,
    eval: F,
    items: Seq<Result<DataChunk, RwError>>,
    r: ChunkStream,
    units: int,
    i: int,
) where F: Fn(&Expression, &DataChunk) -> Result<Column, RwError>
    requires
        executor.executes(eval, items, r),
        is_count(units),
        is_slides(executor.window_size, executor.window_slide, units),
        0 <= i < units,
        i > 0 ==> is_distance(executor.window_slide, i - 1 + units),
        !is_distance(executor.window_slide, i + units),
        never_fails(eval),
        keeps_rows(eval),
        items.len() > 0,
        items[0] is Ok,
        is_sound(items[0]->Ok_0),
    ensures
        r.chunks@.len() == i,
        r.outcome == Err::<(), RwError>(
            RwError::SlideNotMultipliable {
                window_slide: executor.window_slide,
                factor: i as usize,
            },
        ),
{
    let (plan, m) = lemma_plan(executor, eval, items, r, units);
    lemma_distances(plan, i);
    lemma_distances(plan, i - 1);
    if m > 0 {
        assert(items[0] is Ok);
        let first = r.chunks@.subrange(0 * plan.units, (0 + 1) * plan.units);
        assert(plan.expands(eval, items[0]->Ok_0, first, Ok(())));
        lemma_only_overflow_fails(plan, eval, items[0]->Ok_0, first, Ok(()));
        assert(plan.has_window(i));
    }
    assert(0 * plan.units == 0);
    assert(r.chunks@.skip(0) == r.chunks@);
    lemma_only_overflow_fails(plan, eval, items[0]->Ok_0, r.chunks@, Err(r.outcome->Err_0));
    let made = r.chunks@.len() as int;
    if made > i {
        assert(plan.has_window(i));
    }
    if made < i {
        law_earlier_windows_exist(plan, made, i - 1);
    }
}

/// An executor that was built has the child that was built from the node's first child, and its
/// schema; the identity of the node; and the time column, slide and size that the node's fields
/// give. Otherwise the node is of another kind, has no child, has a child that cannot be built, or
/// lacks a field, and the error says which.
pub proof fn law_built_hop_window_follows_its_node<C, N, B>(
    source: PlanNode<N>,
    build_child: B,
    r: Result<HopWindowExecutor2<BoxedExecutor2<C>>, RwError>,
) where B: Fn(&PlanNode<N>) -> Result<BoxedExecutor2<C>, RwError>
    requires
        HopWindowExecutor2::comes_of(source, build_child, r),
    ensures
        r is Ok ==> {
            let executor = r->Ok_0;
            &&& source.node_body is Some && source.node_body->Some_0 is HopWindow
            &&& source.children@.len() > 0
            &&& call_ensures(build_child, (&source.children@[0],), Ok(executor.child))
            &&& executor.schema.fields@ == executor.child.schema.fields@
            &&& executor.identity == source.identity
            &&& {
                let node = source.node_body->Some_0->HopWindow_0;
                &&& node.time_col is Some && executor.time_col_idx
                    == node.time_col->Some_0.column_idx as usize
                &&& node.window_slide == Some(executor.window_slide)
                &&& node.window_size == Some(executor.window_size)
            }
        },
        !(source.node_body is Some && source.node_body->Some_0 is HopWindow) ==> r is Err
            && r->Err_0 is NodeBodyMismatch,
        source.node_body is Some && source.node_body->Some_0 is HopWindow
            && source.children@.len() == 0 ==> r is Err && r->Err_0 is MissingChild,
        source.node_body is Some && source.node_body->Some_0 is HopWindow && source.children@.len()
            > 0 && r is Err ==> {
            let node = source.node_body->Some_0->HopWindow_0;
            let e = r->Err_0;
            ||| call_ensures(build_child, (&source.children@[0],), Err(e))
            ||| node.time_col is None && e is FieldNotFound && e->FieldNotFound_0@ == "time_col"@
            ||| node.time_col is Some && node.window_slide is None && e is FieldNotFound
                && e->FieldNotFound_0@ == "window_slide"@
            ||| node.time_col is Some && node.window_slide is Some && node.window_size is None && e
                is FieldNotFound && e->FieldNotFound_0@ == "window_size"@
        },
{
    if source.node_body is Some && source.node_body->Some_0 is HopWindow && source.children@.len()
        > 0 && !(r is Err && builds(build_child, source.children@[0], Err(r->Err_0))) {
        let child = choose|child: BoxedExecutor2<C>|
            {
                &&& #[trigger] builds(build_child, source.children@[0], Ok(child))
                &&& HopWindowExecutor2::built_from(
                    source.node_body->Some_0->HopWindow_0,
                    source.identity,
                    child,
                    r,
                )
            };
        assert(call_ensures(build_child, (&source.children@[0],), Ok(child)));
    }
}

} // verus!
