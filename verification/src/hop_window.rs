//! The hop window executor: assigns each row to every hopping window that covers its time.
//!
//! Hopping windows all have the length `window_size`, and one starts every `window_slide`. A row
//! is therefore covered by as many windows as there are slides in the size, and leaves the
//! executor once for each of them, with the start and the end of the window appended.
use crate::array::{same_length, share_all, Column, DataChunk};
use crate::error::RwError;
use crate::expr::{
    binary, evaluates, evaluates_anything, input_ref, interval_literal, new_binary_expr,
    new_input_ref_expr, new_interval_expr, ExprType, Expression,
};
use crate::interval::{law_fewer_steps_fit, law_one_step_less, IntervalUnit};
use crate::plan::{
    builds, builds_anything, is_missing, BoxedExecutor2, HopWindowNode, NodeBody, PlanNode,
};
use crate::stream::ChunkStream;
use crate::types::{DataType, Schema};
use vstd::prelude::*;

verus! {

/// Assigns the rows of its child to hopping windows.
pub struct HopWindowExecutor2<C> {
    pub child: C,
    pub schema: Schema,
    pub identity: String,
    pub time_col_idx: usize,
    pub window_slide: IntervalUnit,
    pub window_size: IntervalUnit,
}

/// What the executor works out once, before it reads its child.
pub struct HopWindowPlan {
    pub window_slide: IntervalUnit,
    /// The number of windows that cover a row.
    pub units: usize,
    /// The start of the first window that covers a row.
    pub hop_start: Expression,
}

/// The windows that are still to be made for one chunk of the child.
pub struct HopWindowBatch {
    pub origin_cols: Vec<Column>,
    /// The start of the first window of each row, as the only column.
    pub hop_start_chunk: DataChunk,
    /// The number of the window to be made next.
    pub next: usize,
}

impl<C> HopWindowExecutor2<C> {
    pub fn new(
        child: C,
        schema: Schema,
        identity: String,
        time_col_idx: usize,
        window_slide: IntervalUnit,
        window_size: IntervalUnit,
    ) -> (r: Self)
        ensures
            r == (HopWindowExecutor2 {
                child,
                schema,
                identity,
                time_col_idx,
                window_slide,
                window_size,
            }),
    {
        HopWindowExecutor2 { child, schema, identity, time_col_idx, window_slide, window_size }
    }

    pub fn schema(&self) -> (r: &Schema)
        ensures
            *r == self.schema,
    {
        &self.schema
    }

    pub fn identity(&self) -> (r: &str)
        ensures
            r@ == self.identity@,
    {
        self.identity.as_str()
    }

    /// The window size is a positive whole number of slides that a machine word can count.
    pub open spec fn divisible(self) -> bool {
        exists|n: int|
            1 <= n <= usize::MAX && n <= i64::MAX && #[trigger] self.window_size@.is_multiple(
                self.window_slide@,
                n,
            )
    }

    /// `plan` counts the slides in the window size, and finds the start of the first window as
    /// `tumble_start(time_col - (window_size - window_slide), window_slide)`.
    pub open spec fn has_plan(self, plan: HopWindowPlan) -> bool {
        &&& plan.window_slide == self.window_slide
        &&& 1 <= plan.units <= i64::MAX
        &&& self.window_size@.is_multiple(self.window_slide@, plan.units as int)
        &&& plan.hop_start == binary(
            ExprType::TumbleStart,
            DataType::Timestamp,
            binary(
                ExprType::Subtract,
                DataType::Timestamp,
                input_ref(
                    self.schema@[self.time_col_idx as int].data_type,
                    self.time_col_idx,
                ),
                interval_literal(self.window_size@.minus(self.window_slide@).to_interval()),
            ),
            interval_literal(self.window_slide),
        )
    }

    /// Works out what does not depend on the child's rows.
    ///
    /// A window size that is not a positive whole number of slides is refused. Any other window
    /// size is accepted: the subtraction of the slide from it never overflows.
    pub fn plan(&self) -> (r: Result<HopWindowPlan, RwError>)
        requires
            self.divisible() ==> self.time_col_idx < self.schema@.len(),
        ensures
            match r {
                Ok(plan) => self.divisible() && self.has_plan(plan),
                Err(e) => !self.divisible() && e == (RwError::WindowNotDivisible {
                    window_size: self.window_size,
                    window_slide: self.window_slide,
                }),
            },
    {
        let window_slide = self.window_slide;
        let window_size = self.window_size;
        let units: usize = match window_size.exact_div(&window_slide) {
            Some(quotient) if quotient > 0 => match usize::try_from(quotient) {
                Ok(units) => units,
                Err(_) => {
                    proof {
                        self.lemma_only_quotient(quotient as int);
                    }
                    return Err(RwError::WindowNotDivisible { window_size, window_slide });
                },
            },
            other => {
                proof {
                    if let Some(quotient) = other {
                        self.lemma_only_quotient(quotient as int);
                    }
                }
                return Err(RwError::WindowNotDivisible { window_size, window_slide });
            },
        };
        let time_col_data_type = self.schema.fields[self.time_col_idx].data_type;
        let time_col_ref: Expression = new_input_ref_expr(time_col_data_type, self.time_col_idx);
        let window_size_sub_slide = match window_size.checked_sub(&window_slide) {
            Some(difference) => difference,
            None => {
                proof {
                    law_one_step_less(window_slide@, units as int);
                    law_fewer_steps_fit(window_slide@, units - 1, units as int);
                }
                return Err(RwError::WindowNotSubtractable { window_size, window_slide });
            },
        };
        let hop_start: Expression = new_binary_expr(
            ExprType::TumbleStart,
            DataType::Timestamp,
            new_binary_expr(
                ExprType::Subtract,
                DataType::Timestamp,
                time_col_ref,
                new_interval_expr(window_size_sub_slide),
            ),
            new_interval_expr(window_slide),
        );
        Ok(HopWindowPlan { window_slide, units, hop_start })
    }

    proof fn lemma_only_quotient(self, quotient: int)
        requires
            self.window_size@.is_multiple(self.window_slide@, quotient),
            quotient <= 0 || quotient > usize::MAX,
        ensures
            !self.divisible(),
    {
        assert forall|n: int| #[trigger]
            self.window_size@.is_multiple(self.window_slide@, n) implies n == quotient by {
            crate::interval::law_multiple_is_unique(
                self.window_size@,
                self.window_slide@,
                n,
                quotient,
            );
        }
    }
}

impl HopWindowPlan {
    /// The distance of `n` slides.
    pub open spec fn slides(self, n: int) -> IntervalUnit {
        self.window_slide@.times(n).to_interval()
    }

    /// The distances from the first window's start to the start and the end of window `i` can be
    /// expressed.
    pub open spec fn has_window(self, i: int) -> bool {
        i + self.units <= i32::MAX && self.window_slide@.times(i + self.units).fits()
    }

    /// The start of window `i`: `i` slides after that of the first window.
    pub open spec fn window_start(self, i: int) -> Expression {
        binary(
            ExprType::Add,
            DataType::Timestamp,
            input_ref(DataType::Timestamp, 0),
            interval_literal(self.slides(i)),
        )
    }

    /// The end of window `i`: a window size after its start.
    pub open spec fn window_end(self, i: int) -> Expression {
        binary(
            ExprType::Add,
            DataType::Timestamp,
            input_ref(DataType::Timestamp, 0),
            interval_literal(self.slides(i + self.units)),
        )
    }

    /// `out` is what window `i` makes of a chunk: its columns, and behind them the start and the
    /// end of the window.
    pub open spec fn makes_window<F>(
        self,
        eval: F,
        origin_cols: Seq<Column>,
        hop_start_chunk: DataChunk,
        i: int,
        out: DataChunk,
    ) -> bool where F: Fn(&Expression, &DataChunk) -> Result<Column, RwError> {
        &&& self.has_window(i)
        &&& exists|start: Column, end: Column|
            {
                &&& #[trigger] evaluates(eval, self.window_start(i), hop_start_chunk, Ok(start))
                &&& #[trigger] evaluates(eval, self.window_end(i), hop_start_chunk, Ok(end))
                &&& same_length(origin_cols.push(start).push(end))
                &&& out.consists_of(origin_cols.push(start).push(end))
            }
    }

    /// Window `i` cannot be made, because of `e`: a distance overflows, or the engine fails on the
    /// start, or after that on the end, or the engine's columns do not have one value for each row.
    pub open spec fn fails_window<F>(
        self,
        eval: F,
        origin_cols: Seq<Column>,
        hop_start_chunk: DataChunk,
        i: int,
        e: RwError,
    ) -> bool where F: Fn(&Expression, &DataChunk) -> Result<Column, RwError> {
        if !self.has_window(i) {
            e == (RwError::SlideNotMultipliable {
                window_slide: self.window_slide,
                factor: i as usize,
            })
        } else {
            ||| evaluates(eval, self.window_start(i), hop_start_chunk, Err(e))
            ||| exists|start: Column|
                {
                    &&& #[trigger] evaluates(eval, self.window_start(i), hop_start_chunk, Ok(start))
                    &&& evaluates(eval, self.window_end(i), hop_start_chunk, Err(e))
                }
            ||| exists|start: Column, end: Column|
                {
                    &&& #[trigger] evaluates(eval, self.window_start(i), hop_start_chunk, Ok(start))
                    &&& #[trigger] evaluates(eval, self.window_end(i), hop_start_chunk, Ok(end))
                    &&& !same_length(origin_cols.push(start).push(end))
                    &&& e is UnequalColumns
                }
        }
    }

    /// The expressions for the start and the end of window `i`.
    pub fn window_exprs(&self, i: usize) -> (r: Result<(Expression, Expression), RwError>)
        ensures
            match r {
                Ok((start, end)) => self.has_window(i as int) && start == self.window_start(
                    i as int,
                ) && end == self.window_end(i as int),
                Err(e) => !self.has_window(i as int) && e == (RwError::SlideNotMultipliable {
                    window_slide: self.window_slide,
                    factor: i,
                }),
            },
    {
        let window_slide = self.window_slide;
        proof {
            if self.has_window(i as int) {
                law_fewer_steps_fit(window_slide@, i as int, i + self.units);
            }
        }
        let window_start_offset = match window_slide.checked_mul_int(i) {
            Some(offset) => offset,
            None => {
                return Err(RwError::SlideNotMultipliable { window_slide, factor: i });
            },
        };
        let end_factor: usize = match i.checked_add(self.units) {
            Some(factor) => factor,
            None => {
                return Err(RwError::SlideNotMultipliable { window_slide, factor: i });
            },
        };
        let window_end_offset = match window_slide.checked_mul_int(end_factor) {
            Some(offset) => offset,
            None => {
                return Err(RwError::SlideNotMultipliable { window_slide, factor: i });
            },
        };
        let window_start_expr: Expression = new_binary_expr(
            ExprType::Add,
            DataType::Timestamp,
            new_input_ref_expr(DataType::Timestamp, 0),
            new_interval_expr(window_start_offset),
        );
        let window_end_expr: Expression = new_binary_expr(
            ExprType::Add,
            DataType::Timestamp,
            new_input_ref_expr(DataType::Timestamp, 0),
            new_interval_expr(window_end_offset),
        );
        Ok((window_start_expr, window_end_expr))
    }

    /// `batch` holds the columns of the compacted chunk and, for each of its rows, the start of
    /// the row's first window.
    pub open spec fn opens<F>(
        self,
        eval: F,
        compacted: DataChunk,
        origin_cols: Seq<Column>,
        hop_start_chunk: DataChunk,
    ) -> bool where F: Fn(&Expression, &DataChunk) -> Result<Column, RwError> {
        &&& origin_cols == compacted.columns@
        &&& exists|hop_start: Column|
            {
                &&& #[trigger] evaluates(eval, self.hop_start, compacted, Ok(hop_start))
                &&& hop_start_chunk.consists_of(seq![hop_start])
            }
    }

    /// Drops the hidden rows of a chunk and finds the start of the first window of each other row.
    pub fn open_chunk<F>(&self, data_chunk: DataChunk, eval: &F) -> (r: Result<
        HopWindowBatch,
        RwError,
    >) where F: Fn(&Expression, &DataChunk) -> Result<Column, RwError>
        requires
            evaluates_anything(*eval),
        ensures
            match r {
                Ok(batch) => {
                    &&& data_chunk.matches_visibility()
                    &&& batch.next == 0
                    &&& exists|compacted: DataChunk|
                        {
                            &&& #[trigger] compacted.is_compaction_of(data_chunk)
                            &&& self.opens(
                                *eval,
                                compacted,
                                batch.origin_cols@,
                                batch.hop_start_chunk,
                            )
                        }
                },
                Err(e) => if !data_chunk.matches_visibility() {
                    e is UnequalColumns
                } else {
                    exists|compacted: DataChunk|
                        {
                            &&& #[trigger] compacted.is_compaction_of(data_chunk)
                            &&& evaluates(*eval, self.hop_start, compacted, Err(e))
                        }
                },
            },
    {
        let compacted: DataChunk = match data_chunk.compact() {
            Ok(compacted) => compacted,
            Err(e) => {
                return Err(e);
            },
        };
        let hop_start: Column = match eval(&self.hop_start, &compacted) {
            Ok(column) => column,
            Err(e) => {
                assert(evaluates(*eval, self.hop_start, compacted, Err(e)));
                return Err(e);
            },
        };
        assert(evaluates(*eval, self.hop_start, compacted, Ok(hop_start)));
        let mut hop_start_cols: Vec<Column> = Vec::new();
        hop_start_cols.push(hop_start);
        assert(hop_start_cols@ == seq![hop_start]);
        let hop_start_chunk: DataChunk = DataChunk::of_columns(hop_start_cols);
        let batch = HopWindowBatch { origin_cols: compacted.columns, hop_start_chunk, next: 0 };
        assert(self.opens(*eval, compacted, batch.origin_cols@, batch.hop_start_chunk));
        Ok(batch)
    }
}

impl HopWindowBatch {
    /// The chunk of one window: the columns of the child's chunk, and behind them the start and
    /// the end of the window. All of them must agree in length.
    pub fn window_chunk(&self, window_start: Column, window_end: Column) -> (r: Result<
        DataChunk,
        RwError,
    >)
        ensures
            ({
                let columns = self.origin_cols@.push(window_start).push(window_end);
                match r {
                    Ok(chunk) => same_length(columns) && chunk.consists_of(columns),
                    Err(e) => !same_length(columns) && e is UnequalColumns,
                }
            }),
    {
        let mut new_cols: Vec<Column> = share_all(&self.origin_cols);
        new_cols.push(window_start);
        new_cols.push(window_end);
        DataChunk::try_from(new_cols)
    }

    /// Makes the next window, until there is one for each slide in the window size. After a
    /// failure there are no more.
    pub fn next_chunk<F>(&mut self, plan: &HopWindowPlan, eval: &F) -> (r: Option<
        Result<DataChunk, RwError>,
    >) where F: Fn(&Expression, &DataChunk) -> Result<Column, RwError>
        requires
            evaluates_anything(*eval),
        ensures
            final(self).origin_cols == old(self).origin_cols,
            final(self).hop_start_chunk == old(self).hop_start_chunk,
            match r {
                None => old(self).next >= plan.units && final(self).next == old(self).next,
                Some(Ok(chunk)) => {
                    &&& old(self).next < plan.units
                    &&& final(self).next == old(self).next + 1
                    &&& plan.makes_window(
                        *eval,
                        old(self).origin_cols@,
                        old(self).hop_start_chunk,
                        old(self).next as int,
                        chunk,
                    )
                },
                Some(Err(e)) => {
                    &&& old(self).next < plan.units
                    &&& final(self).next == plan.units
                    &&& plan.fails_window(
                        *eval,
                        old(self).origin_cols@,
                        old(self).hop_start_chunk,
                        old(self).next as int,
                        e,
                    )
                },
            },
    {
        let i: usize = self.next;
        if i >= plan.units {
            return None;
        }
        self.next = plan.units;
        let (start_expr, end_expr) = match plan.window_exprs(i) {
            Ok(exprs) => exprs,
            Err(e) => {
                return Some(Err(e));
            },
        };
        let window_start: Column = match eval(&start_expr, &self.hop_start_chunk) {
            Ok(column) => column,
            Err(e) => {
                assert(evaluates(*eval, start_expr, self.hop_start_chunk, Err(e)));
                return Some(Err(e));
            },
        };
        assert(evaluates(*eval, start_expr, self.hop_start_chunk, Ok(window_start)));
        let window_end: Column = match eval(&end_expr, &self.hop_start_chunk) {
            Ok(column) => column,
            Err(e) => {
                assert(evaluates(*eval, end_expr, self.hop_start_chunk, Err(e)));
                return Some(Err(e));
            },
        };
        assert(evaluates(*eval, end_expr, self.hop_start_chunk, Ok(window_end)));
        match self.window_chunk(window_start, window_end) {
            Ok(chunk) => {
                self.next = i + 1;
                Some(Ok(chunk))
            },
            Err(e) => Some(Err(e)),
        }
    }
}

impl HopWindowPlan {
    /// Making the windows of one compacted chunk, in order, gives the chunks `outs` and ends with
    /// `outcome`: after the last window, or at the first one that cannot be made.
    pub open spec fn makes_windows<F>(
        self,
        eval: F,
        origin_cols: Seq<Column>,
        hop_start_chunk: DataChunk,
        outs: Seq<DataChunk>,
        outcome: Result<(), RwError>,
    ) -> bool where F: Fn(&Expression, &DataChunk) -> Result<Column, RwError> {
        &&& forall|i: int|
            0 <= i < outs.len() ==> #[trigger] self.makes_window(
                eval,
                origin_cols,
                hop_start_chunk,
                i,
                outs[i],
            )
        &&& match outcome {
            Ok(_) => outs.len() == self.units,
            Err(e) => outs.len() < self.units && self.fails_window(
                eval,
                origin_cols,
                hop_start_chunk,
                outs.len() as int,
                e,
            ),
        }
    }

    /// One chunk of the child, once compacted, turns into the chunks `outs` and ends with
    /// `outcome`.
    pub open spec fn expands_compacted<F>(
        self,
        eval: F,
        compacted: DataChunk,
        outs: Seq<DataChunk>,
        outcome: Result<(), RwError>,
    ) -> bool where F: Fn(&Expression, &DataChunk) -> Result<Column, RwError> {
        ||| exists|origin_cols: Seq<Column>, hop_start_chunk: DataChunk|
            {
                &&& #[trigger] self.opens(eval, compacted, origin_cols, hop_start_chunk)
                &&& self.makes_windows(eval, origin_cols, hop_start_chunk, outs, outcome)
            }
        ||| outcome matches Err(e) && outs.len() == 0 && evaluates(
            eval,
            self.hop_start,
            compacted,
            Err(e),
        )
    }

    /// One chunk of the child turns into the chunks `outs` and ends with `outcome`.
    pub open spec fn expands<F>(
        self,
        eval: F,
        data_chunk: DataChunk,
        outs: Seq<DataChunk>,
        outcome: Result<(), RwError>,
    ) -> bool where F: Fn(&Expression, &DataChunk) -> Result<Column, RwError> {
        if !data_chunk.matches_visibility() {
            outs.len() == 0 && outcome == Err::<(), RwError>(RwError::UnequalColumns)
        } else {
            exists|compacted: DataChunk|
                {
                    &&& #[trigger] compacted.is_compaction_of(data_chunk)
                    &&& self.expands_compacted(eval, compacted, outs, outcome)
                }
        }
    }

    /// Appends what one chunk of the child turns into.
    fn expand<F>(&self, data_chunk: DataChunk, eval: &F, outs: &mut Vec<DataChunk>) -> (outcome:
        Result<(), RwError>) where F: Fn(&Expression, &DataChunk) -> Result<Column, RwError>
        requires
            evaluates_anything(*eval),
        ensures
            final(outs)@.len() >= old(outs)@.len(),
            final(outs)@.take(old(outs)@.len() as int) == old(outs)@,
            self.expands(*eval, data_chunk, final(outs)@.skip(old(outs)@.len() as int), outcome),
    {
        let ghost before = outs@;
        proof {
            assert(before.skip(before.len() as int) == Seq::<DataChunk>::empty());
        }
        let mut batch: HopWindowBatch = match self.open_chunk(data_chunk, eval) {
            Ok(batch) => batch,
            Err(e) => {
                return Err(e);
            },
        };
        let ghost compacted = choose|compacted: DataChunk|
            {
                &&& #[trigger] compacted.is_compaction_of(data_chunk)
                &&& self.opens(*eval, compacted, batch.origin_cols@, batch.hop_start_chunk)
            };
        let ghost origin_cols = batch.origin_cols@;
        let ghost hop_start_chunk = batch.hop_start_chunk;
        let ghost mut made: Seq<DataChunk> = Seq::empty();
        loop
            invariant
                evaluates_anything(*eval),
                before == old(outs)@,
                data_chunk.matches_visibility(),
                compacted.is_compaction_of(data_chunk),
                self.opens(*eval, compacted, origin_cols, hop_start_chunk),
                batch.origin_cols@ == origin_cols,
                batch.hop_start_chunk == hop_start_chunk,
                batch.next <= self.units,
                made.len() == batch.next,
                outs@ == before + made,
                forall|i: int|
                    0 <= i < made.len() ==> #[trigger] self.makes_window(
                        *eval,
                        origin_cols,
                        hop_start_chunk,
                        i,
                        made[i],
                    ),
            decreases self.units - batch.next,
        {
            match batch.next_chunk(self, eval) {
                None => {
                    assert(self.makes_windows(*eval, origin_cols, hop_start_chunk, made, Ok(())));
                    assert(self.expands_compacted(*eval, compacted, made, Ok(())));
                    assert(outs@.skip(before.len() as int) == made);
                    assert(outs@.take(before.len() as int) == before);
                    return Ok(());
                },
                Some(Ok(chunk)) => {
                    outs.push(chunk);
                    proof {
                        made = made.push(chunk);
                    }
                },
                Some(Err(e)) => {
                    assert(self.makes_windows(*eval, origin_cols, hop_start_chunk, made, Err(e)));
                    assert(self.expands_compacted(*eval, compacted, made, Err(e)));
                    assert(outs@.skip(before.len() as int) == made);
                    assert(outs@.take(before.len() as int) == before);
                    return Err(e);
                },
            }
        }
    }

    /// The first `n` chunks of the child are there, and each turns into `units` chunks of `outs`.
    pub open spec fn expands_first<F>(
        self,
        eval: F,
        items: Seq<Result<DataChunk, RwError>>,
        n: int,
        outs: Seq<DataChunk>,
    ) -> bool where F: Fn(&Expression, &DataChunk) -> Result<Column, RwError> {
        &&& 0 <= n <= items.len()
        &&& n * self.units <= outs.len()
        &&& forall|k: int|
            0 <= k < n ==> {
                &&& #[trigger] items[k] is Ok
                &&& self.expands(
                    eval,
                    items[k]->Ok_0,
                    outs.subrange(k * self.units, (k + 1) * self.units),
                    Ok(()),
                )
            }
    }

    proof fn lemma_expands_first_extends<F>(
        self,
        eval: F,
        items: Seq<Result<DataChunk, RwError>>,
        n: int,
        outs: Seq<DataChunk>,
        more: Seq<DataChunk>,
    ) where F: Fn(&Expression, &DataChunk) -> Result<Column, RwError>
        requires
            self.expands_first(eval, items, n, outs),
            outs.len() == n * self.units,
            outs.len() <= more.len(),
            more.take(outs.len() as int) == outs,
        ensures
            self.expands_first(eval, items, n, more),
            n < items.len() && items[n] is Ok && self.expands(
                eval,
                items[n]->Ok_0,
                more.skip(outs.len() as int),
                Ok(()),
            ) && more.len() == (n + 1) * self.units ==> self.expands_first(
                eval,
                items,
                n + 1,
                more,
            ),
    {
        assert forall|k: int| 0 <= k < n implies outs.subrange(
            k * self.units,
            (k + 1) * self.units,
        ) == #[trigger] more.subrange(k * self.units, (k + 1) * self.units) by {
            assert(0 <= k * self.units <= (k + 1) * self.units <= n * self.units)
                by (nonlinear_arith)
                requires
                    0 <= k < n,
            ;
            assert(more.take(outs.len() as int).subrange(k * self.units, (k + 1) * self.units)
                == more.subrange(k * self.units, (k + 1) * self.units));
        }
        if more.len() == (n + 1) * self.units {
            assert(more.skip(outs.len() as int) == more.subrange(
                n * self.units,
                (n + 1) * self.units,
            ));
        }
    }

    /// A chunk that expands without failing turns into one chunk per window.
    proof fn lemma_complete_expansion<F>(
        self,
        eval: F,
        data_chunk: DataChunk,
        outs: Seq<DataChunk>,
    ) where F: Fn(&Expression, &DataChunk) -> Result<Column, RwError>
        requires
            self.expands(eval, data_chunk, outs, Ok(())),
        ensures
            outs.len() == self.units,
    {
    }

    /// The stream of a child that sends `items` is `outs` and ends with `outcome`: after the
    /// child's last chunk, or at the first thing that fails behind `n` complete chunks.
    pub open spec fn streams<F>(
        self,
        eval: F,
        items: Seq<Result<DataChunk, RwError>>,
        n: int,
        outs: Seq<DataChunk>,
        outcome: Result<(), RwError>,
    ) -> bool where F: Fn(&Expression, &DataChunk) -> Result<Column, RwError> {
        &&& self.expands_first(eval, items, n, outs)
        &&& match outcome {
            Ok(_) => n == items.len() && outs.len() == n * self.units,
            Err(e) => n < items.len() && match items[n] {
                Ok(data_chunk) => self.expands(
                    eval,
                    data_chunk,
                    outs.skip(n * self.units),
                    Err(e),
                ),
                Err(child_error) => e == child_error && outs.len() == n * self.units,
            },
        }
    }
}

impl<C> HopWindowExecutor2<C> {
    /// `r` is the whole stream of the executor, for a child that sends `items`.
    pub open spec fn executes<F>(
        self,
        eval: F,
        items: Seq<Result<DataChunk, RwError>>,
        r: ChunkStream,
    ) -> bool where F: Fn(&Expression, &DataChunk) -> Result<Column, RwError> {
        if self.divisible() {
            exists|plan: HopWindowPlan, n: int|
                #[trigger] self.has_plan(plan) && #[trigger] plan.streams(
                    eval,
                    items,
                    n,
                    r.chunks@,
                    r.outcome,
                )
        } else {
            r.chunks@.len() == 0 && r.outcome == Err::<(), RwError>(
                RwError::WindowNotDivisible {
                    window_size: self.window_size,
                    window_slide: self.window_slide,
                },
            )
        }
    }

    /// The whole stream of the executor, for a child that sends `child_chunks`: the chunks that it
    /// yields, and the error that ends it, if one does.
    pub fn do_execute<F>(
        &self,
        child_chunks: Vec<Result<DataChunk, RwError>>,
        eval: &F,
    ) -> (r: ChunkStream) where
        F: Fn(&Expression, &DataChunk) -> Result<Column, RwError>,

        requires
            evaluates_anything(*eval),
            self.divisible() ==> self.time_col_idx < self.schema@.len(),
        ensures
            self.executes(*eval, child_chunks@, r),
    {
        let mut outs: Vec<DataChunk> = Vec::new();
        let plan: HopWindowPlan = match self.plan() {
            Ok(plan) => plan,
            Err(e) => {
                return ChunkStream { chunks: outs, outcome: Err(e) };
            },
        };
        let ghost items = child_chunks@;
        let ghost units = plan.units as int;
        for item in it: child_chunks
            invariant
                evaluates_anything(*eval),
                it.seq() == items,
                self.divisible(),
                self.has_plan(plan),
                units == plan.units,
                items == child_chunks@,
                outs@.len() == it.index() * units,
                plan.expands_first(*eval, items, it.index() as int, outs@),
        {
            let ghost n = it.index() as int;
            let ghost before = outs@;
            match item {
                Err(e) => {
                    let r = ChunkStream { chunks: outs, outcome: Err(e) };
                    assert(plan.streams(*eval, items, n, r.chunks@, r.outcome));
                    return r;
                },
                Ok(data_chunk) => {
                    let outcome: Result<(), RwError> = plan.expand(data_chunk, eval, &mut outs);
                    proof {
                        if outcome is Ok {
                            plan.lemma_complete_expansion(
                                *eval,
                                data_chunk,
                                outs@.skip(before.len() as int),
                            );
                            assert((n + 1) * units == n * units + units) by (nonlinear_arith);
                        }
                        plan.lemma_expands_first_extends(*eval, items, n, before, outs@);
                    }
                    match outcome {
                        Err(e) => {
                            let r = ChunkStream { chunks: outs, outcome: Err(e) };
                            assert(plan.streams(*eval, items, n, r.chunks@, r.outcome));
                            return r;
                        },
                        Ok(_) => {},
                    }
                },
            }
        }
        let r = ChunkStream { chunks: outs, outcome: Ok(()) };
        assert(plan.streams(*eval, items, items.len() as int, r.chunks@, r.outcome));
        r
    }
}

impl<C> HopWindowExecutor2<BoxedExecutor2<C>> {
    /// `r` is what comes of a hop window node over `child`: the executor that the node describes,
    /// or an error on the first of its fields that is absent.
    pub open spec fn built_from(
        node: HopWindowNode,
        identity: String,
        child: BoxedExecutor2<C>,
        r: Result<Self, RwError>,
    ) -> bool {
        match r {
            Ok(executor) => {
                &&& executor.child == child
                &&& executor.schema@ == child.schema@
                &&& executor.identity == identity
                &&& node.time_col matches Some(time_col) && executor.time_col_idx
                    == time_col.column_idx as usize
                &&& node.window_slide == Some(executor.window_slide)
                &&& node.window_size == Some(executor.window_size)
            },
            Err(e) => if node.time_col is None {
                is_missing(e, "time_col")
            } else if node.window_slide is None {
                is_missing(e, "window_slide")
            } else {
                node.window_size is None && is_missing(e, "window_size")
            },
        }
    }

    /// `r` is what comes of a plan node: of one that is a hop window node with a child, what its
    /// first child and then its fields allow.
    pub open spec fn comes_of<N, B>(
        source: PlanNode<N>,
        build_child: B,
        r: Result<Self, RwError>,
    ) -> bool where B: Fn(&PlanNode<N>) -> Result<BoxedExecutor2<C>, RwError> {
        match source.node_body {
            Some(NodeBody::HopWindow(node)) => if source.children@.len() == 0 {
                r == Err::<Self, RwError>(RwError::MissingChild)
            } else {
                ||| exists|child: BoxedExecutor2<C>|
                    {
                        &&& #[trigger] builds(build_child, source.children@[0], Ok(child))
                        &&& Self::built_from(node, source.identity, child, r)
                    }
                ||| r matches Err(e) && builds(build_child, source.children@[0], Err(e))
            },
            _ => r == Err::<Self, RwError>(RwError::NodeBodyMismatch),
        }
    }

    /// Builds the executor that a plan node describes, over the executor of the node's first child.
    ///
    /// What is wrong with the kind of the node or with its children comes first, then what is
    /// wrong with the child itself, then a field of the node that is absent.
    pub fn new_boxed_executor2<N, B>(source: &PlanNode<N>, build_child: &B) -> (r: Result<
        Self,
        RwError,
    >) where B: Fn(&PlanNode<N>) -> Result<BoxedExecutor2<C>, RwError>
        requires
            source.node_body is Some,
            builds_anything(*build_child),
        ensures
            Self::comes_of(*source, *build_child, r),
    {
        let node: &HopWindowNode = match &source.node_body {
            Some(NodeBody::HopWindow(node)) => node,
            _ => {
                return Err(RwError::NodeBodyMismatch);
            },
        };
        if source.children.len() == 0 {
            return Err(RwError::MissingChild);
        }
        let proto_child = &source.children[0];
        let child: BoxedExecutor2<C> = match build_child(proto_child) {
            Ok(child) => child,
            Err(e) => {
                assert(builds(*build_child, source.children@[0], Err(e)));
                return Err(e);
            },
        };
        assert(builds(*build_child, source.children@[0], Ok(child)));
        let schema: Schema = child.schema.duplicate();
        let identity: String = source.identity.clone();
        let time_col_idx: usize = match node.get_time_col() {
            Ok(time_col) => time_col.column_idx as usize,
            Err(e) => {
                return Err(e);
            },
        };
        let window_slide = match node.get_window_slide() {
            Ok(window_slide) => window_slide,
            Err(e) => {
                return Err(e);
            },
        };
        let window_size = match node.get_window_size() {
            Ok(window_size) => window_size,
            Err(e) => {
                return Err(e);
            },
        };
        Ok(
            HopWindowExecutor2::new(
                child,
                schema,
                identity,
                time_col_idx,
                window_slide,
                window_size,
            ),
        )
    }
}

/// The two outcomes are the same: executors that agree in every field, or the same error.
pub open spec fn same_outcome<C>(
    a: Result<HopWindowExecutor2<BoxedExecutor2<C>>, RwError>,
    b: Result<HopWindowExecutor2<BoxedExecutor2<C>>, RwError>,
) -> bool {
    match (a, b) {
        (Ok(x), Ok(y)) => {
            &&& x.child == y.child
            &&& x.schema@ == y.schema@
            &&& x.identity == y.identity
            &&& x.time_col_idx == y.time_col_idx
            &&& x.window_slide == y.window_slide
            &&& x.window_size == y.window_size
        },
        (Err(x), Err(y)) => x.same(y),
        _ => false,
    }
}

/// Of the children of a hop window node only the first matters.
///
/// Two nodes that differ only in the children behind the first one have the same possible
/// outcomes. Where building a child is a function of its node, there is only one outcome.
pub proof fn law_further_children_do_not_matter<C, N, B>(
    source: PlanNode<N>,
    extended: PlanNode<N>,
    build_child: B,
    r: Result<HopWindowExecutor2<BoxedExecutor2<C>>, RwError>,
    s: Result<HopWindowExecutor2<BoxedExecutor2<C>>, RwError>,
) where B: Fn(&PlanNode<N>) -> Result<BoxedExecutor2<C>, RwError>
    requires
        source.node_body == extended.node_body,
        source.identity == extended.identity,
        1 <= source.children@.len() <= extended.children@.len(),
        source.children@[0] == extended.children@[0],
        HopWindowExecutor2::comes_of(source, build_child, r),
        HopWindowExecutor2::comes_of(extended, build_child, s),
    ensures
        HopWindowExecutor2::comes_of(extended, build_child, r),
        HopWindowExecutor2::comes_of(source, build_child, s),
        (forall|x: Result<BoxedExecutor2<C>, RwError>, y: Result<BoxedExecutor2<C>, RwError>|
            #[trigger] builds(build_child, source.children@[0], x) && #[trigger] builds(
                build_child,
                source.children@[0],
                y,
            ) ==> x == y) ==> same_outcome(r, s),
{
}

} // verus!
