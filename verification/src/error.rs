//! The ways in which building or running a circuit can end short of success.

use crate::component::Condition;
use crate::model::FaultView;
use crate::netlist::{
    all_resolved, is_feedback_loop, is_first_dangling, is_first_repeat, names_on, unique_ids,
    Description,
};
use crate::ports::{views, Id, Input};
use vstd::prelude::*;

verus! {

/// Why a circuit cannot be simulated.
#[derive(Debug)]
pub enum BuildError {
    /// Two components have this name.
    DuplicateId(Id),
    /// Input port `port` of component `component` is bound to `input`,
    /// which names no output of the circuit.
    UnresolvedInput { component: Id, port: Id, input: Input },
    /// The components of these names read each other in a circle, each the
    /// next and the last the first, with no register among them.
    CombinatorialCycle(Vec<Id>),
}

impl BuildError {
    /// Whether this error is the one that building the circuit `net` ends in.
    /// A repeated name is reported before an input that names no output, and
    /// that before a feedback loop.
    pub open spec fn explains(self, net: Seq<Description>) -> bool {
        match self {
            BuildError::DuplicateId(id) => exists|j: int|
                is_first_repeat(net, j) && id@ == (#[trigger] net[j]).id,
            BuildError::UnresolvedInput { component, port, input } => {
                &&& unique_ids(net)
                &&& exists|v: int, k: int|
                    {
                        &&& #[trigger] is_first_dangling(net, v, k)
                        &&& component@ == net[v].id
                        &&& port@ == net[v].ports.inputs[k].port_id
                        &&& input@ == net[v].ports.inputs[k].input
                    }
            },
            BuildError::CombinatorialCycle(ids) => {
                &&& unique_ids(net)
                &&& all_resolved(net)
                &&& exists|path: Seq<usize>|
                    #[trigger] is_feedback_loop(net, path) && views(ids@) == names_on(net, path)
            },
        }
    }
}

/// A condition that stopped a cycle, with the component that raised it: its
/// place in the circuit and its name.
#[derive(Debug)]
pub struct Fault {
    pub unit: usize,
    pub component: Id,
    pub condition: Condition,
}

impl View for Fault {
    type V = FaultView;

    open spec fn view(&self) -> FaultView {
        FaultView { unit: self.unit, component: self.component@, condition: self.condition@ }
    }
}

impl Clone for Fault {
    fn clone(&self) -> (r: Self)
        ensures
            r == *self,
    {
        Fault {
            unit: self.unit,
            component: self.component.clone(),
            condition: self.condition.clone(),
        }
    }
}

/// The condition that a pass recorded, as mathematics.
pub open spec fn fault_view(fault: Option<Fault>) -> Option<FaultView> {
    match fault {
        Some(f) => Some(f@),
        None => None,
    }
}

} // verus!
