//! What the window around a simulator remembers, and how it answers the
//! buttons. Drawing and waiting for input are the window's; what an event
//! changes is decided here.

use crate::component::Component;
use crate::error::{BuildError, Fault};
use crate::model::Machine;
use crate::netlist::{all_resolved, buildable, has_feedback_loop, unique_ids};
use crate::simulator::Simulator;
use crate::store::ComponentStore;
use vstd::prelude::*;

verus! {

/// What the preferences button prints.
pub const PREFERENCES: &'static str = "Preferences";

/// The state behind the window: the simulator, whether it is stepped by
/// hand (`pause`) or runs free, whether the circuit has been saved, and
/// whether the note about the program is shown.
pub struct Gui<C: Component> {
    pub simulator: Simulator<C>,
    pub pause: bool,
    pub is_saved: bool,
    pub show_about: bool,
}

/// What a button or a key asks for.
#[derive(Debug, PartialEq, Eq, Copy, Clone, Structural)]
pub enum GuiEvent {
    Clock,
    Reset,
    UnClock,
    Play,
    Pause,
    PlayToggle,
    Preferences,
    ShowAbout,
    HideAbout,
}

/// What the window has to do once an event is dealt with.
#[derive(Debug)]
pub enum GuiAction {
    /// Draw again, nothing else.
    Nothing,
    /// Print this line.
    Print(String),
    /// Show the condition that stopped the cycle or the reset.
    Report(Fault),
}

impl<C: Component> Gui<C> {
    /// The simulator after `event`.
    pub open spec fn machine_after(machine: Machine<C>, event: GuiEvent) -> Machine<C> {
        match event {
            GuiEvent::Clock => machine.clocked(),
            GuiEvent::Reset => machine.restarted(),
            GuiEvent::UnClock => machine.unclocked(),
            _ => machine,
        }
    }

    /// Whether the simulator is stepped by hand after `event`.
    pub open spec fn pause_after(pause: bool, event: GuiEvent) -> bool {
        match event {
            GuiEvent::Reset => true,
            GuiEvent::Play => false,
            GuiEvent::Pause => true,
            GuiEvent::PlayToggle => !pause,
            _ => pause,
        }
    }

    /// Whether the note about the program is shown after `event`.
    pub open spec fn about_after(show_about: bool, event: GuiEvent) -> bool {
        match event {
            GuiEvent::ShowAbout => true,
            GuiEvent::HideAbout => false,
            _ => show_about,
        }
    }

    /// Deals with an event. A cycle forward, a cycle back and a reset go to
    /// the simulator; a reset also goes back to stepping by hand. The other
    /// events change what the window remembers. A condition that stopped a
    /// cycle or a reset is handed back to be shown.
    pub fn event(&mut self, event: GuiEvent) -> (action: GuiAction)
        requires
            old(self).simulator.wf(),
        ensures
            final(self).simulator.wf(),
            final(self).simulator@ == Self::machine_after(old(self).simulator@, event),
            final(self).pause == Self::pause_after(old(self).pause, event),
            final(self).is_saved == old(self).is_saved,
            final(self).show_about == Self::about_after(old(self).show_about, event),
            match action {
                GuiAction::Nothing => event != GuiEvent::Preferences && ((event == GuiEvent::Clock
                    || event == GuiEvent::Reset) ==> final(self).simulator@.fault is None),
                GuiAction::Print(line) => event == GuiEvent::Preferences && line@ == PREFERENCES@,
                GuiAction::Report(fault) => (event == GuiEvent::Clock || event == GuiEvent::Reset)
                    && final(self).simulator@.fault == Some(fault@),
            },
    {
        match event {
            GuiEvent::Clock => {
                match self.simulator.clock() {
                    Ok(_) => GuiAction::Nothing,
                    Err(fault) => GuiAction::Report(fault),
                }
            },
            GuiEvent::Reset => {
                let outcome = self.simulator.reset();
                self.pause = true;
                match outcome {
                    Ok(_) => GuiAction::Nothing,
                    Err(fault) => GuiAction::Report(fault),
                }
            },
            GuiEvent::UnClock => {
                self.simulator.un_clock();
                GuiAction::Nothing
            },
            GuiEvent::Play => {
                self.pause = false;
                GuiAction::Nothing
            },
            GuiEvent::Pause => {
                self.pause = true;
                GuiAction::Nothing
            },
            GuiEvent::PlayToggle => {
                self.pause = !self.pause;
                GuiAction::Nothing
            },
            GuiEvent::Preferences => GuiAction::Print(PREFERENCES.to_owned()),
            GuiEvent::ShowAbout => {
                self.show_about = true;
                GuiAction::Nothing
            },
            GuiEvent::HideAbout => {
                self.show_about = false;
                GuiAction::Nothing
            },
        }
    }

    /// Deals with the request to close the window. The first request while
    /// the circuit is unsaved is held back, and the circuit counts as saved
    /// from then on. Tells whether the request is held back.
    pub fn window_close(&mut self) -> (held_back: bool)
        ensures
            held_back == !old(self).is_saved,
            final(self).is_saved,
            final(self).simulator == old(self).simulator,
            final(self).pause == old(self).pause,
            final(self).show_about == old(self).show_about,
    {
        if !self.is_saved {
            self.is_saved = true;
            true
        } else {
            false
        }
    }
}

/// Builds the simulator for a circuit and the state of the window around it:
/// stepping by hand, the circuit unsaved, the note about the program hidden.
/// The simulator is at its start, so that the window shows settled values at
/// once.
pub fn gui<C: Component>(cs: ComponentStore<C>) -> (r: Result<Gui<C>, BuildError>)
    ensures
        match r {
            Ok(window) => {
                &&& window.simulator.wf()
                &&& window.simulator@.wf()
                &&& window.simulator@.circuit.units == cs.store@
                &&& window.simulator@ == Machine::started(window.simulator@.circuit)
                &&& window.pause
                &&& !window.is_saved
                &&& !window.show_about
            },
            Err(e) => e.explains(cs.netlist()),
        },
        r is Ok <==> buildable(cs.netlist()),
        r matches Err(BuildError::DuplicateId(_)) <==> !unique_ids(cs.netlist()),
        r matches Err(BuildError::UnresolvedInput { .. }) <==> unique_ids(cs.netlist())
            && !all_resolved(cs.netlist()),
        r matches Err(BuildError::CombinatorialCycle(_)) <==> unique_ids(cs.netlist())
            && all_resolved(cs.netlist()) && has_feedback_loop(cs.netlist()),
{
    match Simulator::build(cs) {
        Ok(simulator) => Ok(Gui { simulator, pause: true, is_saved: false, show_about: false }),
        Err(e) => Err(e),
    }
}

} // verus!
