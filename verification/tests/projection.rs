use std::cell::Cell;

use risingwave_core::array::{Column, DataChunk};
use risingwave_core::error::RwError;
use risingwave_core::expr::{
    new_input_ref_expr, EngineExpression, Expression, LiteralExpression,
};
use risingwave_core::plan::{BoxedExecutor2, NodeBody, PlanNode, ProjectNode};
use risingwave_core::projection::ProjectionExecutor2;
use risingwave_core::types::{copy_datum, DataType, Datum, Field, ScalarImpl, Schema};

/// An engine for references and literals.
fn eval(expr: &Expression, input: &DataChunk) -> Result<Column, RwError> {
    match expr {
        Expression::InputRef(e) => Ok(input.column_at(e.idx).share()),
        Expression::Literal(e) => {
            Ok(Column::new((0..input.capacity).map(|_| copy_datum(&e.literal)).collect()))
        }
        _ => Err(RwError::Engine("unknown expression".to_string())),
    }
}

fn int32(value: i32) -> Datum {
    Some(ScalarImpl::Int32(value))
}

fn int32s(values: &[i32]) -> Column {
    Column::new(values.iter().map(|v| int32(*v)).collect())
}

fn literal(value: i32) -> Expression {
    Expression::Literal(LiteralExpression {
        return_type: DataType::Int32,
        literal: int32(value),
    })
}

fn unnamed(data_types: &[DataType]) -> Schema {
    Schema::new(data_types.iter().map(|t| Field::unnamed(*t)).collect())
}

fn executor(expr: Vec<Expression>, child_schema: Schema) -> ProjectionExecutor2<()> {
    let fields = expr.iter().map(|e| Field::unnamed(e.return_type())).collect();
    ProjectionExecutor2 {
        expr,
        child: BoxedExecutor2::new((), child_schema),
        schema: Schema::new(fields),
        identity: "ProjectionExecutor2".to_string(),
    }
}

#[test]
fn projection_test_project_executor() {
    let col1 = int32s(&[1, 2, 33333, 4, 5]);
    let col2 = int32s(&[7, 8, 66666, 4, 3]);
    let chunk = DataChunk::of_columns(vec![col1, col2]);

    let expr_vec = vec![new_input_ref_expr(DataType::Int32, 0)];
    let proj_executor = executor(expr_vec, unnamed(&[DataType::Int32, DataType::Int32]));

    let fields = &proj_executor.schema().fields;
    assert_eq!(fields[0].data_type, DataType::Int32);

    let stream = proj_executor.do_execute(vec![Ok(chunk)], &eval);
    assert_eq!(stream.chunks.len(), 1);
    let result_chunk = &stream.chunks[0];
    assert_eq!(result_chunk.dimension(), 1);
    assert_eq!(
        *result_chunk.column_at(0).array,
        vec![int32(1), int32(2), int32(33333), int32(4), int32(5)]
    );
    assert_eq!(stream.outcome, Ok(()));
}

#[test]
fn test_project_dummy_chunk() {
    // One single row with no column.
    let values = DataChunk::new_dummy(1);
    let proj_executor = executor(vec![literal(1)], Schema::new(vec![]));
    let stream = proj_executor.do_execute(vec![Ok(values)], &eval);
    assert_eq!(*stream.chunks[0].column_at(0), int32s(&[1]));
}

#[test]
fn schema_is_that_of_the_child() {
    let proj_executor = executor(vec![literal(1)], unnamed(&[DataType::Varchar, DataType::Date]));
    assert_eq!(*proj_executor.schema(), unnamed(&[DataType::Varchar, DataType::Date]));
    assert_eq!(proj_executor.schema, unnamed(&[DataType::Int32]));
    assert_eq!(proj_executor.identity(), "ProjectionExecutor2");
}

#[test]
fn columns_come_in_the_order_of_the_expressions() {
    let proj_executor = executor(
        vec![
            new_input_ref_expr(DataType::Int32, 1),
            literal(9),
            new_input_ref_expr(DataType::Int32, 0),
        ],
        unnamed(&[DataType::Int32, DataType::Int32]),
    );
    let chunk = DataChunk::of_columns(vec![int32s(&[1, 2]), int32s(&[3, 4])]);
    let projected = proj_executor.project(&chunk, &eval).unwrap();
    assert_eq!(projected.columns, vec![int32s(&[3, 4]), int32s(&[9, 9]), int32s(&[1, 2])]);
    assert_eq!(projected.visibility, None);
    assert_eq!(projected.capacity, chunk.capacity);
}

#[test]
fn the_first_expression_that_fails_ends_the_stream() {
    let failing = Expression::Engine(EngineExpression { return_type: DataType::Int32, id: 1 });
    let proj_executor = executor(
        vec![literal(1), failing, literal(2)],
        unnamed(&[DataType::Int32]),
    );
    let calls = Cell::new(0);
    let counted = |expr: &Expression, input: &DataChunk| -> Result<Column, RwError> {
        calls.set(calls.get() + 1);
        eval(expr, input)
    };
    let chunk = || Ok(DataChunk::of_columns(vec![int32s(&[1])]));
    let stream = proj_executor.do_execute(vec![chunk(), chunk()], &counted);
    assert!(stream.chunks.is_empty());
    assert_eq!(stream.outcome, Err(RwError::Engine("unknown expression".to_string())));
    assert_eq!(calls.get(), 2);
}

#[test]
fn an_error_of_the_child_ends_the_projection() {
    let proj_executor = executor(vec![literal(1)], unnamed(&[DataType::Int32]));
    let chunk = || Ok(DataChunk::of_columns(vec![int32s(&[5, 6])]));
    let error = || RwError::Engine("child".to_string());
    let stream = proj_executor.do_execute(vec![chunk(), Err(error()), chunk()], &eval);
    assert_eq!(stream.chunks, vec![DataChunk::of_columns(vec![int32s(&[1, 1])])]);
    assert_eq!(stream.outcome, Err(error()));
}

fn leaf() -> PlanNode<i32> {
    PlanNode { children: vec![], identity: "leaf".to_string(), node_body: Some(NodeBody::Other) }
}

fn node(children: Vec<PlanNode<i32>>, node_body: NodeBody<i32>) -> PlanNode<i32> {
    PlanNode { children, identity: "project".to_string(), node_body: Some(node_body) }
}

fn project(select_list: Vec<i32>) -> NodeBody<i32> {
    NodeBody::Project(ProjectNode { select_list })
}

fn build(source: &PlanNode<i32>) -> Result<ProjectionExecutor2<u8>, RwError> {
    ProjectionExecutor2::new_boxed_executor2(
        source,
        &|child: &PlanNode<i32>| {
            assert_eq!(*child, leaf());
            Ok(BoxedExecutor2::new(7, unnamed(&[DataType::Date])))
        },
        &|expr: &i32| {
            if *expr < 0 {
                Err(RwError::Engine(format!("expression {}", expr)))
            } else {
                Ok(literal(*expr))
            }
        },
    )
}

#[test]
fn a_projection_is_built_from_its_node() {
    let executor = build(&node(vec![leaf()], project(vec![3, 4]))).unwrap();
    assert_eq!(executor.expr, vec![literal(3), literal(4)]);
    assert_eq!(executor.child.executor, 7);
    assert_eq!(executor.schema, unnamed(&[DataType::Int32, DataType::Int32]));
    assert_eq!(executor.identity, "project");
}

#[test]
fn a_projection_node_can_be_wrong() {
    let error = |source| match build(&source) {
        Ok(_) => panic!("built"),
        Err(e) => e,
    };
    assert_eq!(error(node(vec![], project(vec![1]))), RwError::ChildCount { actual: 0 });
    assert_eq!(
        error(node(vec![leaf(), leaf()], NodeBody::Other)),
        RwError::ChildCount { actual: 2 }
    );
    assert_eq!(error(node(vec![leaf()], NodeBody::Other)), RwError::NodeBodyMismatch);
    assert_eq!(
        error(node(vec![leaf()], project(vec![1, -2, -3]))),
        RwError::Engine("expression -2".to_string())
    );
}

#[test]
fn an_error_of_the_child_comes_before_an_expression() {
    let built = ProjectionExecutor2::<u8>::new_boxed_executor2(
        &node(vec![leaf()], project(vec![1])),
        &|_: &PlanNode<i32>| Err(RwError::Engine("child".to_string())),
        &|_: &i32| Err(RwError::Engine("expression".to_string())),
    );
    match built {
        Ok(_) => panic!("built"),
        Err(e) => assert_eq!(e, RwError::Engine("child".to_string())),
    }
}
