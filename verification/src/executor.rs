//! The execution engine's front: it plans the run of a manifest and stops
//! there. No node action is carried out.

use vstd::prelude::*;
use crate::dag::{topological_order, topological_sort};
use crate::schema::{JadeSkill, JadeSkillView};

verus! {

/// Plans the execution of manifests.
pub struct JadeExecutor {
    /// Whether a run only reports what it would do.
    pub dry_run: bool,
}

/// What a run reports.
#[derive(Debug)]
pub enum Execution {
    /// The plan of a dry run: the order of the nodes and their number.
    DryRun { execution_order: Vec<String>, node_count: usize },
    /// The order in which the nodes were taken.
    Executed { execution_order: Vec<String> },
}

/// A report, over characters.
pub enum ExecutionView {
    DryRun { execution_order: Seq<Seq<char>>, node_count: usize },
    Executed { execution_order: Seq<Seq<char>> },
}

impl View for Execution {
    type V = ExecutionView;

    open spec fn view(&self) -> ExecutionView {
        match self {
            Execution::DryRun { execution_order, node_count } => ExecutionView::DryRun {
                execution_order: execution_order.deep_view(),
                node_count: *node_count,
            },
            Execution::Executed { execution_order } => ExecutionView::Executed {
                execution_order: execution_order.deep_view(),
            },
        }
    }
}

/// The outcome of a run, over characters.
pub open spec fn execution_view(r: Result<Execution, String>) -> Result<ExecutionView, Seq<char>> {
    match r {
        Ok(report) => Ok(report@),
        Err(why) => Err(why@),
    }
}

/// What a run reports for a manifest: the execution order of its graph,
/// with the number of nodes if the run is dry, or the error of a graph
/// that cannot be ordered.
pub open spec fn execution(dry_run: bool, skill: JadeSkillView) -> Result<ExecutionView, Seq<char>> {
    match topological_order(skill.execution_dag) {
        Err(why) => Err(why),
        Ok(order) => if dry_run {
            Ok(
                ExecutionView::DryRun {
                    execution_order: order,
                    node_count: skill.execution_dag.nodes.len() as usize,
                },
            )
        } else {
            Ok(ExecutionView::Executed { execution_order: order })
        },
    }
}

impl JadeExecutor {
    pub fn new(dry_run: bool) -> (executor: Self)
        ensures
            executor.dry_run == dry_run,
    {
        JadeExecutor { dry_run }
    }

    /// Plans the run of a manifest: its nodes in execution order. `inputs`,
    /// the input document as JSON text, is not consulted, since no node
    /// action is carried out.
    pub fn execute(&self, skill: &JadeSkill, inputs: &str) -> (result: Result<Execution, String>)
        ensures
            execution_view(result) == execution(self.dry_run, skill@),
    {
        let order = match topological_sort(skill) {
            Ok(order) => order,
            Err(why) => {
                return Err(why);
            },
        };
        if self.dry_run {
            Ok(
                Execution::DryRun {
                    execution_order: order,
                    node_count: skill.execution_dag.nodes.len(),
                },
            )
        } else {
            Ok(Execution::Executed { execution_order: order })
        }
    }
}

} // verus!
