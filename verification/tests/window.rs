use syncrim::component::Position;
use syncrim::components::{Add, Constant, Halt, Register, Unit};
use syncrim::error::BuildError;
use syncrim::gui::{gui, Gui, GuiAction, GuiEvent, PREFERENCES};
use syncrim::ports::Input;
use syncrim::signal::SignalValue;
use syncrim::store::ComponentStore;

fn origin() -> Position {
    Position::new(0, 0)
}

fn counter(stop_on: u32) -> ComponentStore<Unit> {
    ComponentStore {
        store: vec![
            Unit::Constant(Constant::new("one", origin(), SignalValue::Data(1))),
            Unit::Register(Register::new(
                "reg",
                origin(),
                Input::new("add", "out"),
                SignalValue::Data(0),
            )),
            Unit::Add(Add::new(
                "add",
                origin(),
                Input::new("reg", "out"),
                Input::new("one", "out"),
            )),
            Unit::Halt(Halt::new(
                "stop",
                origin(),
                Input::new("add", "out"),
                SignalValue::Data(stop_on),
            )),
        ],
    }
}

fn window(stop_on: u32) -> Gui<Unit> {
    match gui(counter(stop_on)) {
        Ok(window) => window,
        Err(e) => panic!("{:?}", e),
    }
}

fn count(window: &Gui<Unit>) -> Option<SignalValue> {
    window.simulator.get_input_value(&Input::new("reg", "out"))
}

#[test]
fn gui_starts_paused_and_settled() {
    let w = window(100);
    assert!(w.pause);
    assert!(!w.is_saved);
    assert!(!w.show_about);
    assert_eq!(w.simulator.cycle(), 0);
    assert_eq!(
        w.simulator.get_input_value(&Input::new("add", "out")),
        Some(SignalValue::Data(1))
    );
}

#[test]
fn gui_refuses_a_circuit_that_cannot_be_built() {
    let mut cs = counter(100);
    cs.store.push(Unit::Constant(Constant::new("one", origin(), SignalValue::Data(2))));
    match gui(cs) {
        Err(BuildError::DuplicateId(id)) => assert_eq!(id, "one"),
        Err(other) => panic!("{:?}", other),
        Ok(_) => panic!("the circuit should not build"),
    }
}

#[test]
fn clock_unclock_and_reset_events() {
    let mut w = window(100);
    w.pause = false;
    assert!(matches!(w.event(GuiEvent::Clock), GuiAction::Nothing));
    assert!(matches!(w.event(GuiEvent::Clock), GuiAction::Nothing));
    assert_eq!(count(&w), Some(SignalValue::Data(2)));
    assert_eq!(w.simulator.cycle(), 2);
    assert!(!w.pause);
    assert!(matches!(w.event(GuiEvent::UnClock), GuiAction::Nothing));
    assert_eq!(count(&w), Some(SignalValue::Data(1)));
    assert_eq!(w.simulator.cycle(), 1);
    assert!(!w.pause);
    assert!(matches!(w.event(GuiEvent::Reset), GuiAction::Nothing));
    assert_eq!(count(&w), Some(SignalValue::Data(0)));
    assert_eq!(w.simulator.cycle(), 0);
    assert!(w.pause);
    assert!(matches!(w.event(GuiEvent::UnClock), GuiAction::Nothing));
    assert_eq!(count(&w), Some(SignalValue::Data(0)));
}

#[test]
fn clock_event_reports_a_condition() {
    let mut w = window(2);
    assert!(matches!(w.event(GuiEvent::Clock), GuiAction::Nothing));
    match w.event(GuiEvent::Clock) {
        GuiAction::Report(fault) => assert_eq!(fault.component, "stop"),
        other => panic!("{:?}", other),
    }
    assert_eq!(count(&w), Some(SignalValue::Data(1)));
    let mut at_start = window(1);
    match at_start.event(GuiEvent::Reset) {
        GuiAction::Report(fault) => assert_eq!(fault.component, "stop"),
        other => panic!("{:?}", other),
    }
    assert!(at_start.pause);
}

#[test]
fn play_pause_and_toggle_events() {
    let mut w = window(100);
    assert!(matches!(w.event(GuiEvent::Play), GuiAction::Nothing));
    assert!(!w.pause);
    assert!(matches!(w.event(GuiEvent::Play), GuiAction::Nothing));
    assert!(!w.pause);
    assert!(matches!(w.event(GuiEvent::Pause), GuiAction::Nothing));
    assert!(w.pause);
    assert!(matches!(w.event(GuiEvent::PlayToggle), GuiAction::Nothing));
    assert!(!w.pause);
    assert!(matches!(w.event(GuiEvent::PlayToggle), GuiAction::Nothing));
    assert!(w.pause);
    assert_eq!(w.simulator.cycle(), 0);
}

#[test]
fn about_and_preferences_events() {
    let mut w = window(100);
    assert!(matches!(w.event(GuiEvent::ShowAbout), GuiAction::Nothing));
    assert!(w.show_about);
    assert!(matches!(w.event(GuiEvent::HideAbout), GuiAction::Nothing));
    assert!(!w.show_about);
    match w.event(GuiEvent::Preferences) {
        GuiAction::Print(line) => {
            assert_eq!(line, "Preferences");
            assert_eq!(line, PREFERENCES);
        }
        other => panic!("{:?}", other),
    }
    assert!(w.pause);
    assert!(!w.is_saved);
    assert_eq!(GuiEvent::Clock, GuiEvent::Clock);
    assert_ne!(GuiEvent::Clock, GuiEvent::UnClock);
}

#[test]
fn first_close_of_an_unsaved_window_is_held_back() {
    let mut w = window(100);
    assert!(w.window_close());
    assert!(w.is_saved);
    assert!(!w.window_close());
    assert!(w.is_saved);
    assert!(w.pause);
}
