//! What a projection makes of its child's rows.
use crate::array::{Column, DataChunk};
use crate::error::RwError;
use crate::expr::{evaluates, Expression};
use crate::plan::{builds, BoxedExecutor2, PlanNode};
use crate::projection::{
    builds_all, builds_expr, evaluates_all, projects, projects_stream, ProjectionExecutor2,
};
use crate::types::DataType;
use vstd::prelude::*;

verus! {

/// Column `k` of a projection is what the engine makes of expression `k` on the input, for each
/// expression of the list, and there are no other columns and no hidden rows.
///
/// Where a projection fails, it is because the engine fails on an expression, with the same error,
/// and not on those before it.
pub proof fn law_each_column_is_its_expression<F>(
    eval: F,
    exprs: Seq<Expression>,
    input: DataChunk,
    outcome: Result<DataChunk, RwError>,
) where F: Fn(&Expression, &DataChunk) -> Result<Column, RwError>
    requires
        projects(eval, exprs, input, outcome),
    ensures
        outcome is Ok ==> {
            let out = outcome->Ok_0;
            &&& out.columns@.len() == exprs.len()
            &&& out.visibility is None
            &&& exprs.len() > 0 ==> out.capacity == out.columns@[0].array@.len()
            &&& exprs.len() == 0 ==> out.capacity == 0
            &&& forall|k: int|
                0 <= k < exprs.len() ==> call_ensures(
                    eval,
                    (&exprs[k], &input),
                    Ok(#[trigger] out.columns@[k]),
                )
        },
        outcome is Err ==> exists|k: int|
            {
                &&& 0 <= k < exprs.len()
                &&& call_ensures(eval, (&#[trigger] exprs[k], &input), Err(outcome->Err_0))
                &&& forall|j: int|
                    #![trigger exprs[j]]
                    0 <= j < k ==> exists|column: Column| #[trigger]
                        call_ensures(eval, (&exprs[j], &input), Ok(column))
            },
{
    match outcome {
        Ok(out) => {
            let columns = choose|columns: Seq<Column>| #[trigger]
                evaluates_all(eval, exprs, input, columns) && out.consists_of(columns);
            assert forall|k: int| 0 <= k < exprs.len() implies call_ensures(
                eval,
                (&exprs[k], &input),
                Ok(#[trigger] out.columns@[k]),
            ) by {
                assert(evaluates(eval, exprs[k], input, Ok(columns[k])));
            }
        },
        Err(e) => {
            let columns = choose|columns: Seq<Column>|
                {
                    &&& columns.len() < exprs.len()
                    &&& #[trigger] evaluates_all(
                        eval,
                        exprs.take(columns.len() as int),
                        input,
                        columns,
                    )
                    &&& evaluates(eval, exprs[columns.len() as int], input, Err(e))
                };
            let k = columns.len() as int;
            assert forall|j: int|
                #![trigger exprs[j]]
                0 <= j < k implies exists|column: Column| #[trigger]
                call_ensures(eval, (&exprs[j], &input), Ok(column)) by {
                assert(evaluates(eval, exprs.take(k)[j], input, Ok(columns[j])));
                assert(call_ensures(eval, (&exprs[j], &input), Ok(columns[j])));
            }
            assert(call_ensures(eval, (&exprs[k], &input), Err(e)));
        },
    }
}

/// The engine evaluates a reference to the column that it names.
pub open spec fn reads_columns<F>(eval: F) -> bool where
    F: Fn(&Expression, &DataChunk) -> Result<Column, RwError>,
 {
    forall|expr: Expression, input: DataChunk, out: Column| #[trigger]
        call_ensures(eval, (&expr, &input), Ok(out)) && expr is InputRef
            && expr->InputRef_0.idx < input.columns@.len() ==> out.array@
            == input.columns@[expr->InputRef_0.idx as int].array@
}

/// A projection on references picks columns: column `k` holds the values of the column of the input
/// that expression `k` names.
pub proof fn law_references_pick_columns<F>(
    eval: F,
    exprs: Seq<Expression>,
    input: DataChunk,
    out: DataChunk,
    k: int,
) where F: Fn(&Expression, &DataChunk) -> Result<Column, RwError>
    requires
        reads_columns(eval),
        projects(eval, exprs, input, Ok(out)),
        0 <= k < exprs.len(),
        exprs[k] is InputRef,
        exprs[k]->InputRef_0.idx < input.columns@.len(),
    ensures
        k < out.columns@.len(),
        out.columns@[k].array@ == input.columns@[exprs[k]->InputRef_0.idx as int].array@,
{
    law_each_column_is_its_expression(eval, exprs, input, Ok(out));
    assert(call_ensures(eval, (&exprs[k], &input), Ok(out.columns@[k])));
}

/// Two projections on references in turn pick the column that the one names among those that the
/// other picked.
pub proof fn law_references_compose<F>(
    eval: F,
    first: Seq<Expression>,
    second: Seq<Expression>,
    input: DataChunk,
    middle: DataChunk,
    out: DataChunk,
    k: int,
) where F: Fn(&Expression, &DataChunk) -> Result<Column, RwError>
    requires
        reads_columns(eval),
        projects(eval, first, input, Ok(middle)),
        projects(eval, second, middle, Ok(out)),
        0 <= k < second.len(),
        second[k] is InputRef,
        second[k]->InputRef_0.idx < first.len(),
        first[second[k]->InputRef_0.idx as int] is InputRef,
        first[second[k]->InputRef_0.idx as int]->InputRef_0.idx < input.columns@.len(),
    ensures
        out.columns@[k].array@ == input.columns@[first[second[k]->InputRef_0.idx as int]->InputRef_0.idx as int].array@,
{
    law_each_column_is_its_expression(eval, first, input, Ok(middle));
    law_references_pick_columns(eval, first, input, middle, second[k]->InputRef_0.idx as int);
    law_references_pick_columns(eval, second, middle, out, k);
}

/// The engine never fails.
pub open spec fn never_fails<F>(eval: F) -> bool where
    F: Fn(&Expression, &DataChunk) -> Result<Column, RwError>,
 {
    forall|expr: Expression, input: DataChunk, outcome: Result<Column, RwError>| #[trigger]
        call_ensures(eval, (&expr, &input), outcome) ==> outcome is Ok
}

/// A stream that ends well has one chunk for each chunk of the child, with one column for each
/// expression, which the engine made of that expression on that chunk.
pub proof fn law_complete_stream_projects_every_chunk<F>(
    eval: F,
    exprs: Seq<Expression>,
    items: Seq<Result<DataChunk, RwError>>,
    outs: Seq<DataChunk>,
    outcome: Result<(), RwError>,
) where F: Fn(&Expression, &DataChunk) -> Result<Column, RwError>
    requires
        projects_stream(eval, exprs, items, outs, outcome),
    ensures
        outcome is Ok ==> outs.len() == items.len(),
        outcome is Err ==> outs.len() < items.len(),
        outcome is Err && items[outs.len() as int] is Err ==> outcome->Err_0
            == items[outs.len() as int]->Err_0,
        outcome is Err && items[outs.len() as int] is Ok ==> exists|c: int|
            0 <= c < exprs.len() && call_ensures(
                eval,
                (&#[trigger] exprs[c], &items[outs.len() as int]->Ok_0),
                Err(outcome->Err_0),
            ),
        forall|k: int|
            #![trigger outs[k]]
            0 <= k < outs.len() ==> {
                &&& items[k] is Ok
                &&& outs[k].columns@.len() == exprs.len()
                &&& outs[k].visibility is None
            },
        forall|k: int, c: int|
            0 <= k < outs.len() && 0 <= c < exprs.len() ==> call_ensures(
                eval,
                (&exprs[c], &items[k]->Ok_0),
                Ok(#[trigger] outs[k].columns@[c]),
            ),
{
    assert forall|k: int| #![trigger outs[k]] 0 <= k < outs.len() implies items[k] is Ok && projects(
        eval,
        exprs,
        items[k]->Ok_0,
        Ok(outs[k]),
    ) by {
        assert(items[k] is Ok);
    }
    assert forall|k: int| #![trigger outs[k]] 0 <= k < outs.len() implies {
        &&& items[k] is Ok
        &&& outs[k].columns@.len() == exprs.len()
        &&& outs[k].visibility is None
    } by {
        law_each_column_is_its_expression(eval, exprs, items[k]->Ok_0, Ok(outs[k]));
    }
    assert forall|k: int, c: int| 0 <= k < outs.len() && 0 <= c < exprs.len() implies call_ensures(
        eval,
        (&exprs[c], &items[k]->Ok_0),
        Ok(#[trigger] outs[k].columns@[c]),
    ) by {
        law_each_column_is_its_expression(eval, exprs, items[k]->Ok_0, Ok(outs[k]));
    }
    if outcome is Err && items[outs.len() as int] is Ok {
        law_each_column_is_its_expression(
            eval,
            exprs,
            items[outs.len() as int]->Ok_0,
            Err(outcome->Err_0),
        );
    }
}

/// With an engine that never fails, the stream goes on to the child's first error, and ends well
/// where the child has none.
pub proof fn law_stream_ends_with_its_child<F>(
    eval: F,
    exprs: Seq<Expression>,
    items: Seq<Result<DataChunk, RwError>>,
    outs: Seq<DataChunk>,
    outcome: Result<(), RwError>,
    n: int,
) where F: Fn(&Expression, &DataChunk) -> Result<Column, RwError>
    requires
        projects_stream(eval, exprs, items, outs, outcome),
        never_fails(eval),
        0 <= n <= items.len(),
        forall|k: int| 0 <= k < n ==> (#[trigger] items[k]) is Ok,
        n < items.len() ==> items[n] is Err,
    ensures
        outs.len() == n,
        n == items.len() ==> outcome is Ok,
        n < items.len() ==> outcome == Err::<(), RwError>(items[n]->Err_0),
{
    law_complete_stream_projects_every_chunk(eval, exprs, items, outs, outcome);
    if n < outs.len() {
        let out = outs[n];
        assert(items[n] is Ok);
    }
}

/// An executor that was built has one expression for each entry of the select list, built from that
/// entry, and an unnamed field of its type; its child is built from the node's only child; its
/// identity is that of the node.
pub proof fn law_built_projection_follows_its_node<C, N, B, E>(
    source: PlanNode<N>,
    build_child: B,
    build_expr: E,
    r: Result<ProjectionExecutor2<C>, RwError>,
) where
    B: Fn(&PlanNode<N>) -> Result<BoxedExecutor2<C>, RwError>,
    E: Fn(&N) -> Result<Expression, RwError>,

    requires
        ProjectionExecutor2::comes_of(source, build_child, build_expr, r),
    ensures
        r is Ok ==> {
            let executor = r->Ok_0;
            &&& source.children@.len() == 1
            &&& source.node_body is Some && source.node_body->Some_0 is Project
            &&& executor.identity == source.identity
            &&& call_ensures(build_child, (&source.children@[0],), Ok(executor.child))
            &&& executor.expr@.len() == source.node_body->Some_0->Project_0.select_list@.len()
            &&& executor.schema.fields@.len() == executor.expr@.len()
            &&& forall|k: int|
                #![trigger executor.expr@[k]]
                0 <= k < executor.expr@.len() ==> {
                    &&& call_ensures(
                        build_expr,
                        (&source.node_body->Some_0->Project_0.select_list@[k],),
                        Ok(executor.expr@[k]),
                    )
                    &&& executor.schema.fields@[k].name@.len() == 0
                    &&& executor.schema.fields@[k].data_type == type_of(executor.expr@[k])
                }
        },
        source.children@.len() != 1 ==> r is Err && r->Err_0 == (RwError::ChildCount {
            actual: source.children@.len() as usize,
        }),
        source.children@.len() == 1 && !(source.node_body is Some && source.node_body->Some_0
            is Project) ==> r is Err && r->Err_0 is NodeBodyMismatch,
        source.children@.len() == 1 && source.node_body is Some && source.node_body->Some_0
            is Project && r is Err ==> {
            ||| call_ensures(build_child, (&source.children@[0],), Err(r->Err_0))
            ||| exists|k: int|
                {
                    &&& 0 <= k < source.node_body->Some_0->Project_0.select_list@.len()
                    &&& call_ensures(
                        build_expr,
                        (&#[trigger] source.node_body->Some_0->Project_0.select_list@[k],),
                        Err(r->Err_0),
                    )
                }
        },
{
    if source.children@.len() == 1 && source.node_body is Some && source.node_body->Some_0
        is Project {
        let select_list = source.node_body->Some_0->Project_0.select_list@;
        if !(r is Err && builds(build_child, source.children@[0], Err(r->Err_0))) {
            let child = choose|child: BoxedExecutor2<C>|
                {
                    &&& #[trigger] builds(build_child, source.children@[0], Ok(child))
                    &&& ProjectionExecutor2::built_from(
                        build_expr,
                        select_list,
                        source.identity,
                        child,
                        r,
                    )
                };
            match r {
                Ok(executor) => {
                    assert forall|k: int|
                        #![trigger executor.expr@[k]]
                        0 <= k < executor.expr@.len() implies {
                        &&& call_ensures(build_expr, (&select_list[k],), Ok(executor.expr@[k]))
                        &&& executor.schema.fields@[k].name@.len() == 0
                        &&& executor.schema.fields@[k].data_type == type_of(executor.expr@[k])
                    } by {
                        assert(builds_expr(build_expr, select_list[k], Ok(executor.expr@[k])));
                        assert(executor.schema@[k] == executor.schema.fields@[k]);
                    }
                },
                Err(e) => {
                    let exprs = choose|exprs: Seq<Expression>|
                        {
                            &&& exprs.len() < select_list.len()
                            &&& #[trigger] builds_all(
                                build_expr,
                                select_list.take(exprs.len() as int),
                                exprs,
                            )
                            &&& builds_expr(build_expr, select_list[exprs.len() as int], Err(e))
                        };
                    let k = exprs.len() as int;
                    assert(call_ensures(build_expr, (&select_list[k],), Err(e)));
                },
            }
        }
    }
}

/// The type that an expression says its values have.
pub open spec fn type_of(expr: Expression) -> DataType {
    match expr {
        Expression::InputRef(e) => e.return_type,
        Expression::Literal(e) => e.return_type,
        Expression::Binary(e) => e.return_type,
        Expression::Engine(e) => e.return_type,
    }
}

} // verus!
