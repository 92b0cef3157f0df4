use risingwave_core::array::{share_all, Column, DataChunk};
use risingwave_core::error::{ErrorCode, RwError};
use risingwave_core::interval::IntervalUnit;
use risingwave_core::text::{decimal_text, join};
use risingwave_core::types::{copy_datum, DataType, Datum, Field, ScalarImpl, Schema};

fn interval(months: i32, days: i32, ms: i64) -> IntervalUnit {
    IntervalUnit::new(months, days, ms)
}

#[test]
fn exact_division_of_intervals() {
    assert_eq!(interval(0, 0, 30).exact_div(&interval(0, 0, 15)), Some(2));
    assert_eq!(interval(6, -4, 2).exact_div(&interval(3, -2, 1)), Some(2));
    assert_eq!(interval(-6, 4, -2).exact_div(&interval(3, -2, 1)), Some(-2));
    assert_eq!(interval(0, 0, 0).exact_div(&interval(0, 1, 0)), Some(0));
    assert_eq!(interval(0, 0, 31).exact_div(&interval(0, 0, 15)), None);
    assert_eq!(interval(6, 4, 0).exact_div(&interval(3, 1, 0)), None);
    assert_eq!(interval(6, 4, 0).exact_div(&interval(3, 0, 0)), None);
    assert_eq!(interval(1, 0, 0).exact_div(&interval(0, 0, 0)), None);
    assert_eq!(interval(0, 0, 0).exact_div(&interval(0, 0, 0)), None);
    assert_eq!(interval(0, 0, i64::MIN).exact_div(&interval(0, 0, 1)), Some(i64::MIN));
    assert_eq!(interval(0, 0, i64::MIN).exact_div(&interval(0, 0, -1)), None);
    assert_eq!(interval(i32::MIN, 0, 0).exact_div(&interval(-1, 0, 0)), Some(1 << 31));
}

#[test]
fn checked_subtraction_of_intervals() {
    assert_eq!(interval(5, 6, 7).checked_sub(&interval(1, 8, 7)), Some(interval(4, -2, 0)));
    assert_eq!(interval(i32::MIN, 0, 0).checked_sub(&interval(1, 0, 0)), None);
    assert_eq!(interval(0, i32::MAX, 0).checked_sub(&interval(0, -1, 0)), None);
    assert_eq!(interval(0, 0, i64::MIN).checked_sub(&interval(0, 0, 1)), None);
    assert_eq!(
        interval(0, 0, i64::MIN).checked_sub(&interval(0, 0, -1)),
        Some(interval(0, 0, i64::MIN + 1))
    );
}

#[test]
fn checked_multiplication_of_intervals() {
    assert_eq!(interval(1, -2, 3).checked_mul_int(4), Some(interval(4, -8, 12)));
    assert_eq!(interval(1, -2, 3).checked_mul_int(0), Some(interval(0, 0, 0)));
    assert_eq!(interval(0, 0, 1).checked_mul_int(i32::MAX as usize), Some(interval(0, 0, 2147483647)));
    assert_eq!(interval(0, 0, 1).checked_mul_int(i32::MAX as usize + 1), None);
    assert_eq!(interval(1 << 30, 0, 0).checked_mul_int(2), None);
    assert_eq!(interval(0, 1 << 30, 0).checked_mul_int(2), None);
    assert_eq!(interval(0, 0, 1 << 62).checked_mul_int(2), None);
}

#[test]
fn a_multiple_determines_its_factor_and_loses_a_step() {
    let step = interval(2, -3, 5);
    for n in 1..6 {
        let whole = step.checked_mul_int(n).unwrap();
        assert_eq!(whole.exact_div(&step), Some(n as i64));
        assert_eq!(whole.checked_sub(&step), step.checked_mul_int(n - 1));
    }
}

fn ints(values: &[i64]) -> Column {
    Column::new(values.iter().map(|v| Some(ScalarImpl::Int64(*v))).collect())
}

#[test]
fn chunks_need_columns_of_one_length() {
    assert_eq!(DataChunk::try_from(vec![]), Err(RwError::NoColumns));
    assert_eq!(
        DataChunk::try_from(vec![ints(&[1]), ints(&[1, 2])]),
        Err(RwError::UnequalColumns)
    );
    let chunk = DataChunk::try_from(vec![ints(&[1, 2]), ints(&[3, 4])]).unwrap();
    assert_eq!(chunk.dimension(), 2);
    assert_eq!(chunk.capacity, 2);
    assert_eq!(chunk.visibility, None);
    assert_eq!(*chunk.column_at(1), ints(&[3, 4]));
}

#[test]
fn a_chunk_without_columns() {
    assert_eq!(DataChunk::of_columns(vec![]).capacity, 0);
    let dummy = DataChunk::new_dummy(3);
    assert_eq!(dummy.capacity, 3);
    assert_eq!(dummy.dimension(), 0);
}

#[test]
fn compaction_keeps_the_visible_rows() {
    let mut chunk = DataChunk::of_columns(vec![ints(&[1, 2, 3]), ints(&[4, 5, 6])]);
    chunk.visibility = Some(vec![true, false, true]);
    let compacted = chunk.compact().unwrap();
    assert_eq!(compacted, DataChunk::of_columns(vec![ints(&[1, 3]), ints(&[4, 6])]));
    let again = compacted.compact().unwrap();
    assert_eq!(again, DataChunk::of_columns(vec![ints(&[1, 3]), ints(&[4, 6])]));
    let mut dummy = DataChunk::new_dummy(3);
    dummy.visibility = Some(vec![false, true, true]);
    assert_eq!(dummy.compact(), Ok(DataChunk::new_dummy(2)));
}

#[test]
fn compaction_needs_a_flag_per_row() {
    let mut chunk = DataChunk::of_columns(vec![ints(&[1, 2, 3])]);
    chunk.visibility = Some(vec![true]);
    assert_eq!(chunk.compact(), Err(RwError::UnequalColumns));
}

#[test]
fn shared_columns_are_the_same_column() {
    let columns = vec![ints(&[1]), ints(&[2, 3])];
    let shared = share_all(&columns);
    assert_eq!(shared, columns);
    assert!(std::sync::Arc::ptr_eq(&shared[1].array, &columns[1].array));
    assert_eq!(shared[1].len(), 2);
}

#[test]
fn values_are_copied() {
    let values: Vec<Datum> = vec![
        None,
        Some(ScalarImpl::Bool(true)),
        Some(ScalarImpl::Int16(-1)),
        Some(ScalarImpl::Int32(2)),
        Some(ScalarImpl::Int64(3)),
        Some(ScalarImpl::Float32(1.5_f32.to_bits())),
        Some(ScalarImpl::Float64(2.5_f64.to_bits())),
        Some(ScalarImpl::Utf8("text".to_string())),
        Some(ScalarImpl::Interval(interval(1, 2, 3))),
        Some(ScalarImpl::Timestamp(4)),
        Some(ScalarImpl::Opaque(5)),
    ];
    for value in &values {
        assert_eq!(copy_datum(value), *value);
    }
}

#[test]
fn schemas_are_copied() {
    let schema = Schema::new(vec![
        Field::unnamed(DataType::Boolean),
        Field::with_name(DataType::Varchar, "name".to_string()),
    ]);
    assert_eq!(schema.duplicate(), schema);
    assert_eq!(schema.fields[0].name, "");
}

#[test]
fn numbers_are_written_in_decimal() {
    for n in [0_usize, 9, 10, 1024, usize::MAX] {
        assert_eq!(decimal_text(n), format!("{}", n));
    }
    assert_eq!(join("a", "", "bc", "d"), "abcd");
}

#[test]
fn errors_are_classed_and_written_out() {
    let (window_size, window_slide) = (interval(0, 0, 30), interval(0, 0, 20));
    let code = |e: RwError| e.code("SIZE", "SLIDE");
    let unknown = |text: &str| Some(ErrorCode::UnknownError(text.to_string()));
    assert_eq!(
        code(RwError::WindowNotDivisible { window_size, window_slide }),
        unknown("window_size SIZE cannot be divided by window_slide SLIDE")
    );
    assert_eq!(
        code(RwError::WindowNotSubtractable { window_size, window_slide }),
        unknown("window_size SIZE cannot be subtracted by window_slide SLIDE")
    );
    assert_eq!(
        code(RwError::SlideNotMultipliable { window_slide, factor: 120 }),
        unknown("window_slide SLIDE cannot be multiplied by 120")
    );
    assert_eq!(
        code(RwError::MissingChild),
        Some(ErrorCode::InternalError("Child interpreting error".to_string()))
    );
}

#[test]
fn errors_of_the_engine_are_left_to_it() {
    for e in [
        RwError::NoColumns,
        RwError::UnequalColumns,
        RwError::NodeBodyMismatch,
        RwError::ChildCount { actual: 2 },
        RwError::FieldNotFound("time_col".to_string()),
        RwError::Engine("engine".to_string()),
    ] {
        assert_eq!(e.code("SIZE", "SLIDE"), None);
    }
}
