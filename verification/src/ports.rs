//! How a component names its inputs and outputs, and how an input is bound to
//! an output of another component.

use vstd::prelude::*;

verus! {

/// The name of a component or of a port.
pub type Id = String;

/// The views of the elements of a sequence, in order.
pub open spec fn views<T: View>(items: Seq<T>) -> Seq<T::V> {
    Seq::new(items.len(), |i: int| items[i]@)
}

/// Whether `name` is spelled as `text` is.
pub fn is_named(name: &String, text: &str) -> (r: bool)
    ensures
        r == (name@ == text@),
{
    let other = text.to_owned();
    *name == other
}

/// A reference to an output of a component: the component's id and the
/// output's name.
#[derive(Debug)]
pub struct Input {
    pub id: Id,
    pub field: Id,
}

/// An [`Input`] with its names as character sequences.
pub struct InputView {
    pub id: Seq<char>,
    pub field: Seq<char>,
}

impl View for Input {
    type V = InputView;

    open spec fn view(&self) -> InputView {
        InputView { id: self.id@, field: self.field@ }
    }
}

impl Clone for Input {
    fn clone(&self) -> (r: Self)
        ensures
            r == *self,
    {
        Input { id: self.id.clone(), field: self.field.clone() }
    }
}

impl Input {
    /// The reference to output `field` of component `id`.
    pub fn new(id: &str, field: &str) -> (r: Input)
        ensures
            r@ == (InputView { id: id@, field: field@ }),
    {
        Input { id: id.to_owned(), field: field.to_owned() }
    }
}

/// A named input port and the output it is bound to.
#[derive(Debug)]
pub struct InputPort {
    pub port_id: Id,
    pub input: Input,
}

/// An [`InputPort`] with its names as character sequences.
pub struct InputPortView {
    pub port_id: Seq<char>,
    pub input: InputView,
}

impl View for InputPort {
    type V = InputPortView;

    open spec fn view(&self) -> InputPortView {
        InputPortView { port_id: self.port_id@, input: self.input@ }
    }
}

impl Clone for InputPort {
    fn clone(&self) -> (r: Self)
        ensures
            r == *self,
    {
        InputPort { port_id: self.port_id.clone(), input: self.input.clone() }
    }
}

impl InputPort {
    /// The port `port_id`, bound to `input`.
    pub fn new(port_id: &str, input: Input) -> (r: InputPort)
        ensures
            r@ == (InputPortView { port_id: port_id@, input: input@ }),
    {
        InputPort { port_id: port_id.to_owned(), input }
    }
}

/// Whether a component's outputs follow its inputs within a cycle or are
/// stored from one cycle to the next.
#[derive(Clone, Copy, Debug, PartialEq, Eq, Structural)]
pub enum OutputType {
    /// The outputs are a function of the inputs of the same cycle.
    Combinatorial,
    /// The outputs are state: they change only when the cycle ends.
    Sequential,
}

/// The surface of a component: its input ports in order, the kind of its
/// outputs, and the names of its outputs in order.
#[derive(Debug)]
pub struct Ports {
    pub inputs: Vec<InputPort>,
    pub out_type: OutputType,
    pub outputs: Vec<Id>,
}

/// A [`Ports`] with its names as character sequences.
pub struct PortsView {
    pub inputs: Seq<InputPortView>,
    pub out_type: OutputType,
    pub outputs: Seq<Seq<char>>,
}

impl View for Ports {
    type V = PortsView;

    open spec fn view(&self) -> PortsView {
        PortsView {
            inputs: views(self.inputs@),
            out_type: self.out_type,
            outputs: views(self.outputs@),
        }
    }
}

impl PortsView {
    /// The surface after the port named `target` has been bound to `input`.
    /// A name that no port has changes nothing.
    pub open spec fn rewired(self, target: Seq<char>, input: InputView) -> PortsView {
        PortsView {
            inputs: Seq::new(
                self.inputs.len(),
                |k: int|
                    if self.inputs[k].port_id == target {
                        InputPortView { port_id: target, input }
                    } else {
                        self.inputs[k]
                    },
            ),
            out_type: self.out_type,
            outputs: self.outputs,
        }
    }
}

impl Ports {
    /// The surface with copies of the given input ports and output names.
    pub fn new(inputs: Vec<&InputPort>, out_type: OutputType, outputs: Vec<&str>) -> (r: Ports)
        ensures
            r@.inputs == Seq::new(inputs@.len(), |k: int| inputs@[k]@),
            r@.out_type == out_type,
            r@.outputs == Seq::new(outputs@.len(), |k: int| outputs@[k]@),
    {
        let mut ins: Vec<InputPort> = Vec::new();
        let mut k: usize = 0;
        while k < inputs.len()
            invariant
                k <= inputs.len(),
                ins@.len() == k,
                forall|j: int| 0 <= j < k ==> ins@[j]@ == inputs@[j]@,
            decreases inputs.len() - k,
        {
            ins.push(inputs[k].clone());
            k += 1;
        }
        let mut outs: Vec<Id> = Vec::new();
        let mut k: usize = 0;
        while k < outputs.len()
            invariant
                k <= outputs.len(),
                outs@.len() == k,
                forall|j: int| 0 <= j < k ==> outs@[j]@ == outputs@[j]@,
            decreases outputs.len() - k,
        {
            outs.push(outputs[k].to_owned());
            k += 1;
        }
        let r = Ports { inputs: ins, out_type, outputs: outs };
        assert(r@.inputs =~= Seq::new(inputs@.len(), |k: int| inputs@[k]@));
        assert(r@.outputs =~= Seq::new(outputs@.len(), |k: int| outputs@[k]@));
        r
    }
}

impl Clone for Ports {
    fn clone(&self) -> (r: Self)
        ensures
            r@ == self@,
    {
        let mut ins: Vec<InputPort> = Vec::new();
        let mut k: usize = 0;
        while k < self.inputs.len()
            invariant
                k <= self.inputs.len(),
                ins@.len() == k,
                forall|j: int| 0 <= j < k ==> ins@[j]@ == self.inputs@[j]@,
            decreases self.inputs.len() - k,
        {
            ins.push(self.inputs[k].clone());
            k += 1;
        }
        let mut outs: Vec<Id> = Vec::new();
        let mut k: usize = 0;
        while k < self.outputs.len()
            invariant
                k <= self.outputs.len(),
                outs@.len() == k,
                forall|j: int| 0 <= j < k ==> outs@[j]@ == self.outputs@[j]@,
            decreases self.outputs.len() - k,
        {
            outs.push(self.outputs[k].clone());
            k += 1;
        }
        let r = Ports { inputs: ins, out_type: self.out_type, outputs: outs };
        assert(r@.inputs =~= self@.inputs);
        assert(r@.outputs =~= self@.outputs);
        r
    }
}

} // verus!
