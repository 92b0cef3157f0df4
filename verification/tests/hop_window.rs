use std::cell::Cell;

use risingwave_core::array::{Column, DataChunk};
use risingwave_core::error::RwError;
use risingwave_core::expr::{
    new_binary_expr, new_input_ref_expr, new_interval_expr, ExprType, Expression,
};
use risingwave_core::hop_window::HopWindowExecutor2;
use risingwave_core::interval::IntervalUnit;
use risingwave_core::plan::{BoxedExecutor2, HopWindowNode, InputRefNode, NodeBody, PlanNode};
use risingwave_core::stream::ChunkStream;
use risingwave_core::types::{copy_datum, DataType, Datum, Field, ScalarImpl, Schema};

const SECOND: i64 = 1_000_000;
/// 2022-02-02T00:00:00.
const DAY: i64 = 19_025 * 86_400 * SECOND;

fn minutes(m: i64) -> IntervalUnit {
    IntervalUnit::new(0, 0, m * 60_000)
}

fn micros(interval: &IntervalUnit) -> i64 {
    assert_eq!(interval.months, 0);
    (i64::from(interval.days) * 86_400_000 + interval.ms) * 1000
}

fn apply(op: ExprType, left: &Datum, right: &Datum) -> Result<Datum, RwError> {
    let (t, interval) = match (left, right) {
        (Some(ScalarImpl::Timestamp(t)), Some(ScalarImpl::Interval(interval))) => {
            (*t, micros(interval))
        }
        (None, _) | (_, None) => return Ok(None),
        _ => return Err(RwError::Engine("not a timestamp and an interval".to_string())),
    };
    let value = match op {
        ExprType::Add => t.checked_add(interval),
        ExprType::Subtract => t.checked_sub(interval),
        ExprType::TumbleStart => t.checked_sub(t.rem_euclid(interval)),
    };
    match value {
        Some(value) => Ok(Some(ScalarImpl::Timestamp(value))),
        None => Err(RwError::Engine("out of range".to_string())),
    }
}

/// An engine for timestamps and intervals without months.
fn eval(expr: &Expression, input: &DataChunk) -> Result<Column, RwError> {
    match expr {
        Expression::InputRef(e) => Ok(input.column_at(e.idx).share()),
        Expression::Literal(e) => {
            Ok(Column::new((0..input.capacity).map(|_| copy_datum(&e.literal)).collect()))
        }
        Expression::Binary(e) => {
            let left = eval(&e.left, input)?;
            let right = eval(&e.right, input)?;
            let mut values = Vec::new();
            for (l, r) in left.array.iter().zip(right.array.iter()) {
                values.push(apply(e.expr_type, l, r)?);
            }
            Ok(Column::new(values))
        }
        Expression::Engine(_) => Err(RwError::Engine("unknown expression".to_string())),
    }
}

fn at(time: &str) -> Datum {
    let mut seconds = 0;
    for part in time.split(':') {
        seconds = seconds * 60 + part.parse::<i64>().unwrap();
    }
    Some(ScalarImpl::Timestamp(DAY + seconds * SECOND))
}

/// A chunk from rows of integers (`I`) and times of the day (`TS`).
fn from_pretty(text: &str) -> DataChunk {
    let mut lines = text.lines();
    let types: Vec<&str> = lines.next().unwrap().split_whitespace().collect();
    let mut columns: Vec<Vec<Datum>> = types.iter().map(|_| Vec::new()).collect();
    for line in lines {
        for (c, value) in line.split_whitespace().enumerate() {
            columns[c].push(match types[c] {
                "I" => Some(ScalarImpl::Int64(value.parse().unwrap())),
                _ => at(value),
            });
        }
    }
    DataChunk::of_columns(columns.into_iter().map(Column::new).collect())
}

fn schema() -> Schema {
    Schema::new(vec![
        Field::unnamed(DataType::Int64),
        Field::unnamed(DataType::Int64),
        Field::with_name(DataType::Timestamp, "created_at".to_string()),
    ])
}

fn executor(window_slide: IntervalUnit, window_size: IntervalUnit) -> HopWindowExecutor2<()> {
    HopWindowExecutor2::new(
        (),
        schema(),
        "HopWindowExecutor2".to_string(),
        2,
        window_slide,
        window_size,
    )
}

fn input() -> DataChunk {
    from_pretty(
        "I I TS
         1 1 10:00:00
         2 3 10:05:00
         3 2 10:14:00
         4 1 10:22:00
         5 3 10:33:00
         6 2 10:42:00
         7 1 10:51:00
         8 3 11:02:00",
    )
}

fn first_output() -> DataChunk {
    from_pretty(
        "I I TS       TS       TS
         1 1 10:00:00 09:45:00 10:15:00
         2 3 10:05:00 09:45:00 10:15:00
         3 2 10:14:00 09:45:00 10:15:00
         4 1 10:22:00 10:00:00 10:30:00
         5 3 10:33:00 10:15:00 10:45:00
         6 2 10:42:00 10:15:00 10:45:00
         7 1 10:51:00 10:30:00 11:00:00
         8 3 11:02:00 10:45:00 11:15:00",
    )
}

fn second_output() -> DataChunk {
    from_pretty(
        "I I TS       TS       TS
         1 1 10:00:00 10:00:00 10:30:00
         2 3 10:05:00 10:00:00 10:30:00
         3 2 10:14:00 10:00:00 10:30:00
         4 1 10:22:00 10:15:00 10:45:00
         5 3 10:33:00 10:30:00 11:00:00
         6 2 10:42:00 10:30:00 11:00:00
         7 1 10:51:00 10:45:00 11:15:00
         8 3 11:02:00 11:00:00 11:30:00",
    )
}

#[test]
fn hop_window_test_project_executor() {
    let executor = executor(minutes(15), minutes(30));
    let stream = executor.do_execute(vec![Ok(input())], &eval);
    assert_eq!(stream.chunks.len(), 2);
    assert_eq!(stream.chunks[0], first_output());
    assert_eq!(stream.chunks[1], second_output());
    assert_eq!(stream.outcome, Ok(()));
}

#[test]
fn hop_window_step_by_step() {
    let executor = executor(minutes(15), minutes(30));
    let plan = executor.plan().unwrap();
    assert_eq!(plan.units, 2);
    let mut batch = plan.open_chunk(input(), &eval).unwrap();
    assert_eq!(batch.next_chunk(&plan, &eval), Some(Ok(first_output())));
    assert_eq!(batch.next_chunk(&plan, &eval), Some(Ok(second_output())));
    assert_eq!(batch.next_chunk(&plan, &eval), None);
    assert_eq!(batch.next_chunk(&plan, &eval), None);
}

#[test]
fn hop_window_getters() {
    let executor = executor(minutes(15), minutes(30));
    assert_eq!(executor.schema().fields.len(), 3);
    assert_eq!(executor.schema().fields[2].name, "created_at");
    assert_eq!(executor.identity(), "HopWindowExecutor2");
}

#[test]
fn hop_start_is_tumble_start_of_shifted_time() {
    let plan = executor(minutes(15), minutes(30)).plan().unwrap();
    let expected = new_binary_expr(
        ExprType::TumbleStart,
        DataType::Timestamp,
        new_binary_expr(
            ExprType::Subtract,
            DataType::Timestamp,
            new_input_ref_expr(DataType::Timestamp, 2),
            new_interval_expr(minutes(15)),
        ),
        new_interval_expr(minutes(15)),
    );
    assert_eq!(plan.hop_start, expected);
}

#[test]
fn window_expressions_are_slides_apart() {
    let plan = executor(IntervalUnit::new(1, 2, 3), IntervalUnit::new(4, 8, 12)).plan().unwrap();
    assert_eq!(plan.units, 4);
    let (start, end) = plan.window_exprs(3).unwrap();
    let shifted = |interval| {
        new_binary_expr(
            ExprType::Add,
            DataType::Timestamp,
            new_input_ref_expr(DataType::Timestamp, 0),
            new_interval_expr(interval),
        )
    };
    assert_eq!(start, shifted(IntervalUnit::new(3, 6, 9)));
    assert_eq!(end, shifted(IntervalUnit::new(7, 14, 21)));
}

#[test]
fn window_size_must_be_whole_slides() {
    let refused = |slide, size| {
        let stream = executor(slide, size).do_execute(vec![Ok(input())], &eval);
        assert!(stream.chunks.is_empty());
        assert_eq!(
            stream.outcome,
            Err(RwError::WindowNotDivisible { window_size: size, window_slide: slide })
        );
    };
    refused(minutes(20), minutes(30));
    refused(minutes(30), minutes(15));
    refused(minutes(0), minutes(30));
    refused(minutes(0), minutes(0));
    refused(minutes(15), minutes(0));
    refused(minutes(15), minutes(-30));
    refused(minutes(15), IntervalUnit::new(1, 0, 30 * 60_000));
    // The time column is not looked at before the window is accepted.
    let mut without_columns = executor(minutes(20), minutes(30));
    without_columns.schema = Schema::new(vec![]);
    assert!(without_columns.plan().is_err());
}

#[test]
fn negative_slides_can_divide() {
    assert_eq!(executor(minutes(-15), minutes(-30)).plan().unwrap().units, 2);
    let smallest = IntervalUnit::new(i32::MIN, i32::MIN, i64::MIN);
    assert_eq!(executor(smallest, smallest).plan().unwrap().units, 1);
}

#[test]
fn a_distance_that_overflows_ends_the_stream() {
    // Window 0 ends at three slides, window 1 at four, window 2 would at five.
    let slide = IntervalUnit::new(0, 0, i64::MAX / 4);
    let size = IntervalUnit::new(0, 0, i64::MAX / 4 * 3);
    let any_time = |_: &Expression, input: &DataChunk| -> Result<Column, RwError> {
        Ok(Column::new((0..input.capacity).map(|_| None).collect()))
    };
    let stream = executor(slide, size).do_execute(vec![Ok(input()), Ok(input())], &any_time);
    assert_eq!(stream.chunks.len(), 2);
    assert_eq!(
        stream.outcome,
        Err(RwError::SlideNotMultipliable { window_slide: slide, factor: 2 })
    );
}

#[test]
fn too_many_windows_end_the_stream_at_the_first() {
    let slide = IntervalUnit::new(0, 0, 1);
    let size = IntervalUnit::new(0, 0, i64::MAX);
    let stream = executor(slide, size).do_execute(vec![Ok(input())], &eval);
    assert!(stream.chunks.is_empty());
    assert_eq!(
        stream.outcome,
        Err(RwError::SlideNotMultipliable { window_slide: slide, factor: 0 })
    );
}

#[test]
fn hidden_rows_are_dropped() {
    let mut chunk = input();
    chunk.visibility = Some(vec![false, true, false, false, false, false, false, true]);
    let stream = executor(minutes(15), minutes(30)).do_execute(vec![Ok(chunk)], &eval);
    assert_eq!(
        stream,
        ChunkStream {
            chunks: vec![
                from_pretty(
                    "I I TS       TS       TS
                     2 3 10:05:00 09:45:00 10:15:00
                     8 3 11:02:00 10:45:00 11:15:00",
                ),
                from_pretty(
                    "I I TS       TS       TS
                     2 3 10:05:00 10:00:00 10:30:00
                     8 3 11:02:00 11:00:00 11:30:00",
                ),
            ],
            outcome: Ok(()),
        }
    );
}

#[test]
fn visibility_must_match_the_columns() {
    let mut chunk = input();
    chunk.visibility = Some(vec![true]);
    let stream = executor(minutes(15), minutes(30)).do_execute(vec![Ok(chunk)], &eval);
    assert!(stream.chunks.is_empty());
    assert_eq!(stream.outcome, Err(RwError::UnequalColumns));
}

#[test]
fn null_times_have_null_windows() {
    let column = |datum: Datum| Column::new(vec![datum]);
    let chunk = DataChunk::of_columns(vec![column(None), column(None), column(None)]);
    let stream = executor(minutes(15), minutes(15)).do_execute(vec![Ok(chunk)], &eval);
    assert_eq!(stream.chunks.len(), 1);
    assert_eq!(stream.chunks[0].dimension(), 5);
    assert_eq!(*stream.chunks[0].column_at(3), column(None));
    assert_eq!(*stream.chunks[0].column_at(4), column(None));
}

#[test]
fn an_error_of_the_child_ends_the_stream() {
    let error = || RwError::Engine("child".to_string());
    let stream = executor(minutes(15), minutes(30)).do_execute(
        vec![Ok(input()), Err(error()), Ok(input())],
        &eval,
    );
    assert_eq!(stream.chunks, vec![first_output(), second_output()]);
    assert_eq!(stream.outcome, Err(error()));
}

#[test]
fn an_error_of_the_engine_ends_the_stream() {
    // Evaluations of one chunk: the first start, then start and end of each window.
    for failing in 0..5 {
        let calls = Cell::new(0);
        let flaky = |expr: &Expression, input: &DataChunk| -> Result<Column, RwError> {
            let call = calls.get();
            calls.set(call + 1);
            if call == failing {
                Err(RwError::Engine("engine".to_string()))
            } else {
                eval(expr, input)
            }
        };
        let stream = executor(minutes(15), minutes(30)).do_execute(vec![Ok(input())], &flaky);
        assert_eq!(stream.chunks.len(), if failing < 3 { 0 } else { 1 });
        assert_eq!(stream.outcome, Err(RwError::Engine("engine".to_string())));
        assert_eq!(calls.get(), failing + 1);
    }
}

#[test]
fn a_failed_window_is_the_last() {
    let plan = executor(minutes(15), minutes(30)).plan().unwrap();
    let mut batch = plan.open_chunk(input(), &eval).unwrap();
    let failing = |_: &Expression, _: &DataChunk| -> Result<Column, RwError> {
        Err(RwError::Engine("engine".to_string()))
    };
    assert!(matches!(batch.next_chunk(&plan, &failing), Some(Err(RwError::Engine(_)))));
    assert_eq!(batch.next_chunk(&plan, &eval), None);
}

#[test]
fn window_columns_must_have_a_value_per_row() {
    let short = |_: &Expression, _: &DataChunk| -> Result<Column, RwError> {
        Ok(Column::new(vec![None]))
    };
    let stream = executor(minutes(15), minutes(30)).do_execute(vec![Ok(input())], &short);
    assert!(stream.chunks.is_empty());
    assert_eq!(stream.outcome, Err(RwError::UnequalColumns));
}

#[test]
fn a_row_lands_in_the_windows_that_cover_it_and_no_other() {
    let (slide, size) = (7 * 60 * SECOND, 35 * 60 * SECOND);
    let stream = executor(minutes(7), minutes(35)).do_execute(vec![Ok(input())], &eval);
    assert_eq!(stream.chunks.len(), 5);
    let time = |c: usize, r: usize, chunk: &DataChunk| match chunk.column_at(c).array[r] {
        Some(ScalarImpl::Timestamp(t)) => t,
        _ => panic!("not a timestamp"),
    };
    for r in 0..8 {
        let t = time(2, r, &stream.chunks[0]);
        let mut starts = Vec::new();
        for chunk in &stream.chunks {
            assert_eq!(time(4, r, chunk) - time(3, r, chunk), size);
            starts.push(time(3, r, chunk));
        }
        let covering: Vec<i64> = (t / slide - 10..t / slide + 10)
            .map(|k| k * slide)
            .filter(|start| *start <= t && t < *start + size)
            .collect();
        assert_eq!(starts, covering);
    }
}

fn node(children: Vec<PlanNode<()>>, node_body: NodeBody<()>) -> PlanNode<()> {
    PlanNode { children, identity: "hop".to_string(), node_body: Some(node_body) }
}

fn leaf() -> PlanNode<()> {
    node(vec![], NodeBody::Other)
}

fn hop_node(column_idx: i32) -> HopWindowNode {
    HopWindowNode {
        time_col: Some(InputRefNode { column_idx }),
        window_slide: Some(minutes(15)),
        window_size: Some(minutes(30)),
    }
}

fn build(source: &PlanNode<()>) -> Result<HopWindowExecutor2<BoxedExecutor2<u8>>, RwError> {
    HopWindowExecutor2::new_boxed_executor2(source, &|child: &PlanNode<()>| {
        assert_eq!(*child, leaf());
        Ok(BoxedExecutor2::new(7, schema()))
    })
}

#[test]
fn a_hop_window_is_built_from_its_node() {
    let executor = build(&node(vec![leaf()], NodeBody::HopWindow(hop_node(2)))).unwrap();
    assert_eq!(executor.child.executor, 7);
    assert_eq!(executor.schema, schema());
    assert_eq!(executor.identity, "hop");
    assert_eq!(executor.time_col_idx, 2);
    assert_eq!(executor.window_slide, minutes(15));
    assert_eq!(executor.window_size, minutes(30));
    let wrapped = build(&node(vec![leaf()], NodeBody::HopWindow(hop_node(-1)))).unwrap();
    assert_eq!(wrapped.time_col_idx, -1_i32 as usize);
}

#[test]
fn a_hop_window_node_can_be_wrong() {
    let error = |source| match build(&source) {
        Ok(_) => panic!("built"),
        Err(e) => e,
    };
    assert_eq!(error(node(vec![leaf()], NodeBody::Other)), RwError::NodeBodyMismatch);
    assert_eq!(error(node(vec![], NodeBody::HopWindow(hop_node(2)))), RwError::MissingChild);
    let absent = |name: &str| RwError::FieldNotFound(name.to_string());
    let mut hop = hop_node(2);
    hop.window_size = None;
    assert_eq!(error(node(vec![leaf()], NodeBody::HopWindow(hop))), absent("window_size"));
    let mut hop = hop_node(2);
    hop.window_slide = None;
    hop.window_size = None;
    assert_eq!(error(node(vec![leaf()], NodeBody::HopWindow(hop))), absent("window_slide"));
    let mut hop = hop_node(2);
    hop.time_col = None;
    hop.window_size = None;
    assert_eq!(error(node(vec![leaf()], NodeBody::HopWindow(hop))), absent("time_col"));
}

#[test]
fn an_error_of_the_child_comes_before_an_absent_field() {
    let mut hop = hop_node(2);
    hop.time_col = None;
    let built = HopWindowExecutor2::<BoxedExecutor2<u8>>::new_boxed_executor2(
        &node(vec![leaf()], NodeBody::HopWindow(hop)),
        &|_: &PlanNode<()>| Err(RwError::Engine("child".to_string())),
    );
    assert!(matches!(built, Err(RwError::Engine(_))));
}

#[test]
fn hopping_windows_precede_the_tumbling_window() {
    let slide = 7 * 60 * SECOND;
    let hopping = executor(minutes(7), minutes(35)).do_execute(vec![Ok(input()), Ok(input())], &eval);
    let tumbling = executor(minutes(7), minutes(7)).do_execute(vec![Ok(input()), Ok(input())], &eval);
    assert_eq!(tumbling.chunks.len(), 2);
    assert_eq!(hopping.chunks.len(), 10);
    let time = |chunk: &DataChunk, c: usize, r: usize| match chunk.column_at(c).array[r] {
        Some(ScalarImpl::Timestamp(t)) => t,
        _ => panic!("not a timestamp"),
    };
    for k in 0..2 {
        for r in 0..8 {
            let t = time(&tumbling.chunks[k], 2, r);
            let start = time(&tumbling.chunks[k], 3, r);
            assert_eq!(start, t - t % slide);
            assert_eq!(time(&tumbling.chunks[k], 4, r), start + slide);
            for i in 0..5 {
                let chunk = &hopping.chunks[k * 5 + i];
                assert_eq!(time(chunk, 3, r), start - (4 - i as i64) * slide);
                assert_eq!(time(chunk, 4, r) - time(chunk, 3, r), 5 * slide);
            }
        }
    }
}

#[test]
fn further_children_do_not_matter() {
    let one = build(&node(vec![leaf()], NodeBody::HopWindow(hop_node(2)))).unwrap();
    let further = node(vec![], NodeBody::HopWindow(hop_node(1)));
    let three = build(&node(
        vec![leaf(), further, leaf()],
        NodeBody::HopWindow(hop_node(2)),
    ))
    .unwrap();
    assert_eq!(one.child, three.child);
    assert_eq!(one.schema, three.schema);
    assert_eq!(one.identity, three.identity);
    assert_eq!(one.time_col_idx, three.time_col_idx);
    assert_eq!(one.window_slide, three.window_slide);
    assert_eq!(one.window_size, three.window_size);
}
