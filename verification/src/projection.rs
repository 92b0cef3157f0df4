//! The projection executor: replaces the columns of each chunk by those of its expressions.
use crate::array::{Column, DataChunk};
use crate::error::RwError;
use crate::expr::{evaluates, evaluates_anything, Expression};
use crate::plan::{builds, builds_anything, BoxedExecutor2, NodeBody, PlanNode, ProjectNode};
use crate::stream::ChunkStream;
use crate::types::{Field, Schema};
use vstd::prelude::*;

verus! {

/// Evaluates a list of expressions on each chunk of its child.
pub struct ProjectionExecutor2<C> {
    pub expr: Vec<Expression>,
    pub child: BoxedExecutor2<C>,
    pub schema: Schema,
    pub identity: String,
}

/// `columns` are possible outcomes of evaluating `exprs` on `input`, one for one.
pub open spec fn evaluates_all<F>(
    eval: F,
    exprs: Seq<Expression>,
    input: DataChunk,
    columns: Seq<Column>,
) -> bool where F: Fn(&Expression, &DataChunk) -> Result<Column, RwError> {
    &&& columns.len() == exprs.len()
    &&& forall|k: int|
        0 <= k < exprs.len() ==> evaluates(eval, exprs[k], input, Ok(#[trigger] columns[k]))
}

/// `outcome` is what a projection on `exprs` makes of `input`: a chunk of one column for each
/// expression, or the error of the first expression that fails.
pub open spec fn projects<F>(
    eval: F,
    exprs: Seq<Expression>,
    input: DataChunk,
    outcome: Result<DataChunk, RwError>,
) -> bool where F: Fn(&Expression, &DataChunk) -> Result<Column, RwError> {
    match outcome {
        Ok(out) => exists|columns: Seq<Column>| #[trigger]
            evaluates_all(eval, exprs, input, columns) && out.consists_of(columns),
        Err(e) => exists|columns: Seq<Column>|
            {
                &&& columns.len() < exprs.len()
                &&& #[trigger] evaluates_all(
                    eval,
                    exprs.take(columns.len() as int),
                    input,
                    columns,
                )
                &&& evaluates(eval, exprs[columns.len() as int], input, Err(e))
            },
    }
}

/// Chunk by chunk, `outs` is what a projection on `exprs` makes of the first of `items`.
pub open spec fn projects_first<F>(
    eval: F,
    exprs: Seq<Expression>,
    items: Seq<Result<DataChunk, RwError>>,
    outs: Seq<DataChunk>,
) -> bool where F: Fn(&Expression, &DataChunk) -> Result<Column, RwError> {
    &&& outs.len() <= items.len()
    &&& forall|k: int|
        0 <= k < outs.len() ==> #[trigger] items[k] is Ok && projects(
            eval,
            exprs,
            items[k]->Ok_0,
            Ok(outs[k]),
        )
}

/// The stream of a projection whose child sends `items` is `outs` and ends with `outcome`: one
/// chunk for each chunk of the child, up to the first thing that fails.
pub open spec fn projects_stream<F>(
    eval: F,
    exprs: Seq<Expression>,
    items: Seq<Result<DataChunk, RwError>>,
    outs: Seq<DataChunk>,
    outcome: Result<(), RwError>,
) -> bool where F: Fn(&Expression, &DataChunk) -> Result<Column, RwError> {
    &&& projects_first(eval, exprs, items, outs)
    &&& match outcome {
        Ok(_) => outs.len() == items.len(),
        Err(e) => outs.len() < items.len() && match items[outs.len() as int] {
            Ok(data_chunk) => projects(eval, exprs, data_chunk, Err(e)),
            Err(child_error) => e == child_error,
        },
    }
}

/// On a chunk that has one value per row in each column, the engine's columns have so too.
pub open spec fn keeps_rows<F>(eval: F) -> bool where
    F: Fn(&Expression, &DataChunk) -> Result<Column, RwError>,
 {
    forall|expr: Expression, input: DataChunk, out: Column| #[trigger]
        evaluates(eval, expr, input, Ok(out)) && input.is_full() ==> out@.len() == input.capacity
}

/// With an engine whose columns have one value for each row, a projection on at least one
/// expression keeps the number of rows, even of a chunk without columns.
pub proof fn law_projection_keeps_rows<F>(
    eval: F,
    exprs: Seq<Expression>,
    input: DataChunk,
    out: DataChunk,
) where F: Fn(&Expression, &DataChunk) -> Result<Column, RwError>
    requires
        keeps_rows(eval),
        exprs.len() > 0,
        input.is_full(),
        projects(eval, exprs, input, Ok(out)),
    ensures
        out.capacity == input.capacity,
        out.columns@.len() == exprs.len(),
        out.is_full(),
{
    let columns = choose|columns: Seq<Column>| #[trigger]
        evaluates_all(eval, exprs, input, columns) && out.consists_of(columns);
    assert forall|k: int| 0 <= k < columns.len() implies (#[trigger] columns[k])@.len()
        == input.capacity by {
        assert(evaluates(eval, exprs[k], input, Ok(columns[k])));
    }
}

impl<C> ProjectionExecutor2<C> {
    /// The schema of the child.
    pub fn schema(&self) -> (r: &Schema)
        ensures
            *r == self.child.schema,
    {
        &self.child.schema
    }

    pub fn identity(&self) -> (r: &str)
        ensures
            r@ == self.identity@,
    {
        self.identity.as_str()
    }

    /// Evaluates the expressions on one chunk, in order.
    pub fn project<F>(&self, data_chunk: &DataChunk, eval: &F) -> (r: Result<
        DataChunk,
        RwError,
    >) where F: Fn(&Expression, &DataChunk) -> Result<Column, RwError>
        requires
            evaluates_anything(*eval),
        ensures
            projects(*eval, self.expr@, *data_chunk, r),
    {
        let mut columns: Vec<Column> = Vec::new();
        for k in 0..self.expr.len()
            invariant
                evaluates_anything(*eval),
                evaluates_all(*eval, self.expr@.take(k as int), *data_chunk, columns@),
        {
            match eval(&self.expr[k], data_chunk) {
                Ok(column) => {
                    assert(evaluates(*eval, self.expr@[k as int], *data_chunk, Ok(column)));
                    columns.push(column);
                },
                Err(e) => {
                    assert(evaluates(*eval, self.expr@[k as int], *data_chunk, Err(e)));
                    assert(evaluates_all(
                        *eval,
                        self.expr@.take(columns@.len() as int),
                        *data_chunk,
                        columns@,
                    ));
                    return Err(e);
                },
            }
        }
        assert(self.expr@.take(self.expr@.len() as int) == self.expr@);
        Ok(DataChunk::of_columns(columns))
    }

    /// The whole stream of the executor, for a child that sends `child_chunks`: the chunks that it
    /// yields, and the error that ends it, if one does.
    pub fn do_execute<F>(
        &self,
        child_chunks: Vec<Result<DataChunk, RwError>>,
        eval: &F,
    ) -> (r: ChunkStream) where
        F: Fn(&Expression, &DataChunk) -> Result<Column, RwError>,

        requires
            evaluates_anything(*eval),
        ensures
            projects_stream(*eval, self.expr@, child_chunks@, r.chunks@, r.outcome),
    {
        let mut outs: Vec<DataChunk> = Vec::new();
        for item in it: child_chunks
            invariant
                evaluates_anything(*eval),
                it.seq() == child_chunks@,
                outs@.len() == it.index(),
                projects_first(*eval, self.expr@, child_chunks@, outs@),
        {
            let data_chunk: DataChunk = match item {
                Ok(data_chunk) => data_chunk,
                Err(e) => {
                    return ChunkStream { chunks: outs, outcome: Err(e) };
                },
            };
            match self.project(&data_chunk, eval) {
                Ok(projected) => {
                    outs.push(projected);
                },
                Err(e) => {
                    return ChunkStream { chunks: outs, outcome: Err(e) };
                },
            }
        }
        ChunkStream { chunks: outs, outcome: Ok(()) }
    }
}

/// `outcome` is a possible outcome of the engine's building an expression from `node`.
pub open spec fn builds_expr<N, E>(
    build_expr: E,
    node: N,
    outcome: Result<Expression, RwError>,
) -> bool where E: Fn(&N) -> Result<Expression, RwError> {
    call_ensures(build_expr, (&node,), outcome)
}

/// `exprs` are possible outcomes of building expressions from `nodes`, one for one.
pub open spec fn builds_all<N, E>(build_expr: E, nodes: Seq<N>, exprs: Seq<Expression>) -> bool where
    E: Fn(&N) -> Result<Expression, RwError>,
 {
    &&& exprs.len() == nodes.len()
    &&& forall|k: int|
        0 <= k < nodes.len() ==> builds_expr(build_expr, nodes[k], Ok(#[trigger] exprs[k]))
}

/// The fields of a projection: unnamed, and of the types of its expressions.
pub open spec fn fields_of(exprs: Seq<Expression>, fields: Seq<Field>) -> bool {
    &&& fields.len() == exprs.len()
    &&& forall|k: int|
        0 <= k < exprs.len() ==> (#[trigger] fields[k]).is_unnamed(exprs[k].return_type_spec())
}

impl<C> ProjectionExecutor2<C> {
    /// `r` is what comes of a projection node over `child`: an executor of the expressions that
    /// the engine builds for the select list, or the error of the first one that it cannot build.
    pub open spec fn built_from<N, E>(
        build_expr: E,
        select_list: Seq<N>,
        identity: String,
        child: BoxedExecutor2<C>,
        r: Result<Self, RwError>,
    ) -> bool where E: Fn(&N) -> Result<Expression, RwError> {
        match r {
            Ok(executor) => {
                &&& builds_all(build_expr, select_list, executor.expr@)
                &&& executor.child == child
                &&& fields_of(executor.expr@, executor.schema@)
                &&& executor.identity == identity
            },
            Err(e) => exists|exprs: Seq<Expression>|
                {
                    &&& exprs.len() < select_list.len()
                    &&& #[trigger] builds_all(
                        build_expr,
                        select_list.take(exprs.len() as int),
                        exprs,
                    )
                    &&& builds_expr(build_expr, select_list[exprs.len() as int], Err(e))
                },
        }
    }

    /// `r` is what comes of a plan node: of one that is a projection node with one child, what its
    /// child and then its select list allow.
    pub open spec fn comes_of<N, B, E>(
        source: PlanNode<N>,
        build_child: B,
        build_expr: E,
        r: Result<Self, RwError>,
    ) -> bool where
        B: Fn(&PlanNode<N>) -> Result<BoxedExecutor2<C>, RwError>,
        E: Fn(&N) -> Result<Expression, RwError>,
     {
        if source.children@.len() != 1 {
            r == Err::<Self, RwError>(
                RwError::ChildCount { actual: source.children@.len() as usize },
            )
        } else {
            match source.node_body {
                Some(NodeBody::Project(node)) => {
                    ||| exists|child: BoxedExecutor2<C>|
                        {
                            &&& #[trigger] builds(build_child, source.children@[0], Ok(child))
                            &&& Self::built_from(
                                build_expr,
                                node.select_list@,
                                source.identity,
                                child,
                                r,
                            )
                        }
                    ||| r matches Err(e) && builds(build_child, source.children@[0], Err(e))
                },
                _ => r == Err::<Self, RwError>(RwError::NodeBodyMismatch),
            }
        }
    }

    /// Builds the executor that a plan node describes, over the executor of its only child.
    ///
    /// What is wrong with the number of children comes first, then the kind of the node, then what
    /// is wrong with the child itself, then an expression that cannot be built.
    pub fn new_boxed_executor2<N, B, E>(
        source: &PlanNode<N>,
        build_child: &B,
        build_expr: &E,
    ) -> (r: Result<Self, RwError>) where
        B: Fn(&PlanNode<N>) -> Result<BoxedExecutor2<C>, RwError>,
        E: Fn(&N) -> Result<Expression, RwError>,

        requires
            source.children@.len() == 1 ==> source.node_body is Some,
            builds_anything(*build_child),
            forall|node: &N| call_requires(*build_expr, (node,)),
        ensures
            Self::comes_of(*source, *build_child, *build_expr, r),
    {
        if source.children.len() != 1 {
            return Err(RwError::ChildCount { actual: source.children.len() });
        }
        let project_node: &ProjectNode<N> = match &source.node_body {
            Some(NodeBody::Project(node)) => node,
            _ => {
                return Err(RwError::NodeBodyMismatch);
            },
        };
        let child_node: BoxedExecutor2<C> = match build_child(&source.children[0]) {
            Ok(child) => child,
            Err(e) => {
                assert(builds(*build_child, source.children@[0], Err(e)));
                return Err(e);
            },
        };
        assert(builds(*build_child, source.children@[0], Ok(child_node)));
        let select_list: &Vec<N> = &project_node.select_list;
        let mut project_exprs: Vec<Expression> = Vec::new();
        let mut fields: Vec<Field> = Vec::new();
        for k in 0..select_list.len()
            invariant
                forall|node: &N| call_requires(*build_expr, (node,)),
                builds_all(*build_expr, select_list@.take(k as int), project_exprs@),
                fields_of(project_exprs@, fields@),
                source.children@.len() == 1,
                source.node_body == Some(NodeBody::Project(*project_node)),
                *select_list == project_node.select_list,
                builds(*build_child, source.children@[0], Ok(child_node)),
        {
            match build_expr(&select_list[k]) {
                Ok(expr) => {
                    assert(builds_expr(*build_expr, select_list@[k as int], Ok(expr)));
                    fields.push(Field::unnamed(expr.return_type()));
                    project_exprs.push(expr);
                },
                Err(e) => {
                    assert(builds_expr(*build_expr, select_list@[k as int], Err(e)));
                    assert(builds_all(
                        *build_expr,
                        select_list@.take(project_exprs@.len() as int),
                        project_exprs@,
                    ));
                    return Err(e);
                },
            }
        }
        assert(select_list@.take(select_list@.len() as int) == select_list@);
        Ok(
            ProjectionExecutor2 {
                expr: project_exprs,
                child: child_node,
                schema: Schema { fields },
                identity: source.identity.clone(),
            },
        )
    }
}

} // verus!
