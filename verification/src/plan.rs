//! Plan nodes, from which executors are built.
use crate::error::RwError;
use crate::interval::IntervalUnit;
use crate::types::Schema;
use vstd::prelude::*;

verus! {

/// A column named by a plan.
#[derive(Debug, PartialEq, Eq)]
pub struct InputRefNode {
    pub column_idx: i32,
}

#[derive(Debug, PartialEq, Eq)]
pub struct HopWindowNode {
    pub time_col: Option<InputRefNode>,
    pub window_slide: Option<IntervalUnit>,
    pub window_size: Option<IntervalUnit>,
}

/// `N` is the engine's own description of an expression.
#[derive(Debug, PartialEq, Eq)]
pub struct ProjectNode<N> {
    pub select_list: Vec<N>,
}

#[derive(Debug, PartialEq, Eq)]
pub enum NodeBody<N> {
    HopWindow(HopWindowNode),
    Project(ProjectNode<N>),
    /// Any other kind of node.
    Other,
}

#[derive(Debug, PartialEq, Eq)]
pub struct PlanNode<N> {
    pub children: Vec<PlanNode<N>>,
    pub identity: String,
    pub node_body: Option<NodeBody<N>>,
}

/// An executor as its parent sees it: something to run, and the schema of what it sends.
#[derive(Debug, PartialEq, Eq)]
pub struct BoxedExecutor2<C> {
    pub executor: C,
    pub schema: Schema,
}

impl<C> BoxedExecutor2<C> {
    pub fn new(executor: C, schema: Schema) -> (r: Self)
        ensures
            r == (BoxedExecutor2 { executor, schema }),
    {
        BoxedExecutor2 { executor, schema }
    }
}

/// `outcome` is a possible outcome of building an executor for `node`.
pub open spec fn builds<N, C, B>(
    build_child: B,
    node: PlanNode<N>,
    outcome: Result<BoxedExecutor2<C>, RwError>,
) -> bool where B: Fn(&PlanNode<N>) -> Result<BoxedExecutor2<C>, RwError> {
    call_ensures(build_child, (&node,), outcome)
}

/// An executor can be asked for on any node.
pub open spec fn builds_anything<N, C, B>(build_child: B) -> bool where
    B: Fn(&PlanNode<N>) -> Result<BoxedExecutor2<C>, RwError>,
 {
    forall|node: &PlanNode<N>| call_requires(build_child, (node,))
}

/// `e` says that the field `name` is absent.
pub open spec fn is_missing(e: RwError, name: &str) -> bool {
    e matches RwError::FieldNotFound(field) && field@ == name@
}

impl HopWindowNode {
    pub fn get_time_col(&self) -> (r: Result<&InputRefNode, RwError>)
        ensures
            match r {
                Ok(time_col) => self.time_col == Some(*time_col),
                Err(e) => self.time_col is None && is_missing(e, "time_col"),
            },
    {
        match &self.time_col {
            Some(time_col) => Ok(time_col),
            None => Err(RwError::FieldNotFound("time_col".to_owned())),
        }
    }

    pub fn get_window_slide(&self) -> (r: Result<IntervalUnit, RwError>)
        ensures
            match r {
                Ok(window_slide) => self.window_slide == Some(window_slide),
                Err(e) => self.window_slide is None && is_missing(e, "window_slide"),
            },
    {
        match &self.window_slide {
            Some(window_slide) => Ok(*window_slide),
            None => Err(RwError::FieldNotFound("window_slide".to_owned())),
        }
    }

    pub fn get_window_size(&self) -> (r: Result<IntervalUnit, RwError>)
        ensures
            match r {
                Ok(window_size) => self.window_size == Some(window_size),
                Err(e) => self.window_size is None && is_missing(e, "window_size"),
            },
    {
        match &self.window_size {
            Some(window_size) => Ok(*window_size),
            None => Err(RwError::FieldNotFound("window_size".to_owned())),
        }
    }
}

} // verus!
