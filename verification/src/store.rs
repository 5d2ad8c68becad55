//! The components of a circuit, in the order in which they were put in.

use crate::component::Component;
use crate::error::BuildError;
use crate::netlist::{described, Description};
use crate::ports::{Id, Ports};
use vstd::prelude::*;

verus! {

/// The components of a circuit. The order is the order of insertion; it
/// decides how the circuit is listed and saved, not what it computes.
pub struct ComponentStore<C: Component> {
    pub store: Vec<C>,
}

impl<C: Component> ComponentStore<C> {
    /// What the components say of themselves.
    pub open spec fn netlist(&self) -> Seq<Description> {
        Seq::new(
            self.store@.len(),
            |v: int| Description { id: self.store@[v].id(), ports: self.store@[v].ports() },
        )
    }

    /// The store without components.
    pub fn new() -> (r: Self)
        ensures
            r.store@ == Seq::<C>::empty(),
    {
        ComponentStore { store: Vec::new() }
    }

    /// The name and the surface of every component, in the store's order.
    pub fn describe(&self) -> (r: (Vec<Id>, Vec<Ports>))
        ensures
            r.0@.len() == self.store@.len(),
            r.1@.len() == self.store@.len(),
            described(r.0@, r.1@) == self.netlist(),
    {
        let mut ids: Vec<Id> = Vec::new();
        let mut ports: Vec<Ports> = Vec::new();
        let mut v: usize = 0;
        while v < self.store.len()
            invariant
                v <= self.store@.len(),
                ids@.len() == v,
                ports@.len() == v,
                forall|u: int| 0 <= u < v ==> (#[trigger] ids@[u])@ == self.store@[u].id(),
                forall|u: int| 0 <= u < v ==> (#[trigger] ports@[u])@ == self.store@[u].ports(),
            decreases self.store@.len() - v,
        {
            let (id, surface) = self.store[v].get_id_ports();
            ids.push(id);
            ports.push(surface);
            v += 1;
        }
        assert(described(ids@, ports@) =~= self.netlist());
        (ids, ports)
    }

    /// Puts a component in behind the others, unless one of them has its
    /// name already.
    pub fn add(&mut self, component: C) -> (r: Result<(), BuildError>)
        ensures
            match r {
                Ok(_) => {
                    &&& final(self).store@ == old(self).store@.push(component)
                    &&& forall|v: int|
                        0 <= v < old(self).store@.len() ==> (#[trigger] old(self).store@[v]).id()
                            != component.id()
                },
                Err(e) => {
                    &&& final(self).store@ == old(self).store@
                    &&& e matches BuildError::DuplicateId(id)
                    &&& id@ == component.id()
                    &&& exists|v: int|
                        0 <= v < old(self).store@.len() && (#[trigger] old(self).store@[v]).id()
                            == component.id()
                },
            },
    {
        let (new_id, _) = component.get_id_ports();
        let mut v: usize = 0;
        while v < self.store.len()
            invariant
                v <= self.store@.len(),
                *self == *old(self),
                new_id@ == component.id(),
                forall|u: int| 0 <= u < v ==> (#[trigger] self.store@[u]).id() != component.id(),
            decreases self.store@.len() - v,
        {
            let (id, _) = self.store[v].get_id_ports();
            if id == new_id {
                return Err(BuildError::DuplicateId(new_id));
            }
            v += 1;
        }
        self.store.push(component);
        Ok(())
    }
}

} // verus!
