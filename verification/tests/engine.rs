use syncrim::component::{Component, Condition, Position};
use syncrim::components::{Add, Constant, FullAdd, Halt, Mux, Register, Unit, Wire};
use syncrim::error::BuildError;
use syncrim::netlist::Slot;
use syncrim::plan::Plan;
use syncrim::ports::Input;
use syncrim::signal::SignalValue;
use syncrim::simulator::Simulator;
use syncrim::state::SimState;
use syncrim::store::ComponentStore;

fn origin() -> Position {
    Position::new(0.0f32.to_bits(), 0.0f32.to_bits())
}

fn constant(id: &str, value: u32) -> Unit {
    Unit::Constant(Constant::new(id, origin(), SignalValue::Data(value)))
}

fn adder(id: &str, a: (&str, &str), b: (&str, &str)) -> Unit {
    Unit::Add(Add::new(id, origin(), Input::new(a.0, a.1), Input::new(b.0, b.1)))
}

fn register(id: &str, from: (&str, &str), init: SignalValue) -> Unit {
    Unit::Register(Register::new(id, origin(), Input::new(from.0, from.1), init))
}

fn value(sim: &Simulator<Unit>, id: &str, field: &str) -> Option<SignalValue> {
    sim.get_input_value(&Input::new(id, field))
}

fn build(store: Vec<Unit>) -> Simulator<Unit> {
    match Simulator::build(ComponentStore { store }) {
        Ok(sim) => sim,
        Err(e) => panic!("the circuit should build, got {:?}", e),
    }
}

fn build_error(store: Vec<Unit>) -> BuildError {
    match Simulator::build(ComponentStore { store }) {
        Ok(_) => panic!("the circuit should not build"),
        Err(e) => e,
    }
}

fn two_constants_and_adder(first: &str) -> Vec<Unit> {
    vec![constant("c1", 5), constant("c2", 3), adder("add", (first, "out"), ("c2", "out"))]
}

fn counter(init: u32) -> Vec<Unit> {
    vec![
        adder("add", ("reg", "out"), ("one", "out")),
        register("reg", ("add", "out"), SignalValue::Data(init)),
        constant("one", 1),
    ]
}

fn state_of(sim: &Simulator<Unit>) -> Vec<Vec<SignalValue>> {
    sim.state().values.clone()
}

#[test]
fn adder_shows_sum_after_build() {
    let sim = build(two_constants_and_adder("c1"));
    assert_eq!(value(&sim, "add", "out"), Some(SignalValue::Data(8)));
    assert_eq!(sim.state().get(Slot { unit: 2, port: 0 }), Some(SignalValue::Data(8)));
    assert_eq!(sim.cycle(), 0);
    assert!(sim.condition().is_none());
}

#[test]
fn unknown_component_fails_build() {
    match build_error(two_constants_and_adder("nowhere")) {
        BuildError::UnresolvedInput { component, port, input } => {
            assert_eq!(component, "add");
            assert_eq!(port, "a_in");
            assert_eq!(input.id, "nowhere");
            assert_eq!(input.field, "out");
        }
        other => panic!("expected an unresolved input, got {:?}", other),
    }
}

#[test]
fn unknown_output_fails_build() {
    let store = vec![constant("c1", 5), adder("add", ("c1", "out"), ("c1", "carry"))];
    match build_error(store) {
        BuildError::UnresolvedInput { component, port, input } => {
            assert_eq!(component, "add");
            assert_eq!(port, "b_in");
            assert_eq!(input.id, "c1");
            assert_eq!(input.field, "carry");
        }
        other => panic!("expected an unresolved input, got {:?}", other),
    }
}

#[test]
fn first_unresolved_input_is_reported() {
    let store = vec![
        adder("x", ("c", "out"), ("gone", "out")),
        adder("y", ("lost", "out"), ("c", "out")),
        constant("c", 1),
    ];
    match build_error(store) {
        BuildError::UnresolvedInput { component, port, .. } => {
            assert_eq!(component, "x");
            assert_eq!(port, "b_in");
        }
        other => panic!("expected an unresolved input, got {:?}", other),
    }
}

#[test]
fn duplicate_id_fails_build() {
    let store = vec![constant("a", 1), constant("b", 2), constant("a", 3), constant("b", 4)];
    match build_error(store) {
        BuildError::DuplicateId(id) => assert_eq!(id, "a"),
        other => panic!("expected a duplicate id, got {:?}", other),
    }
}

#[test]
fn duplicate_id_is_reported_before_other_faults() {
    let store = vec![
        adder("a", ("a", "out"), ("nowhere", "out")),
        adder("a", ("a", "out"), ("a", "out")),
    ];
    match build_error(store) {
        BuildError::DuplicateId(id) => assert_eq!(id, "a"),
        other => panic!("expected a duplicate id, got {:?}", other),
    }
}

#[test]
fn unresolved_input_is_reported_before_cycle() {
    let store = vec![adder("a", ("a", "out"), ("nowhere", "out"))];
    assert!(matches!(build_error(store), BuildError::UnresolvedInput { .. }));
}

#[test]
fn self_loop_is_a_combinatorial_cycle() {
    let store = vec![constant("one", 1), adder("a", ("a", "out"), ("one", "out"))];
    match build_error(store) {
        BuildError::CombinatorialCycle(ids) => assert_eq!(ids, vec!["a".to_string()]),
        other => panic!("expected a cycle, got {:?}", other),
    }
}

#[test]
fn loop_of_two_adders_is_a_combinatorial_cycle() {
    let store = vec![
        constant("one", 1),
        adder("x", ("y", "out"), ("one", "out")),
        adder("y", ("x", "out"), ("one", "out")),
        adder("z", ("x", "out"), ("y", "out")),
    ];
    match build_error(store) {
        BuildError::CombinatorialCycle(ids) => {
            assert_eq!(ids.len(), 2);
            assert!(ids.contains(&"x".to_string()));
            assert!(ids.contains(&"y".to_string()));
        }
        other => panic!("expected a cycle, got {:?}", other),
    }
}

#[test]
fn cycle_names_only_components_on_the_loop() {
    let store = vec![
        adder("tail", ("x", "out"), ("x", "out")),
        adder("x", ("y", "out"), ("y", "out")),
        adder("y", ("w", "out"), ("w", "out")),
        adder("w", ("x", "out"), ("x", "out")),
    ];
    match build_error(store) {
        BuildError::CombinatorialCycle(ids) => {
            let mut sorted = ids.clone();
            sorted.sort();
            assert_eq!(sorted, vec!["w".to_string(), "x".to_string(), "y".to_string()]);
            let n = ids.len();
            let reads = |a: &str, b: &str| {
                matches!((a, b), ("x", "y") | ("y", "w") | ("w", "x"))
            };
            for k in 0..n {
                assert!(reads(&ids[k], &ids[(k + 1) % n]));
            }
        }
        other => panic!("expected a cycle, got {:?}", other),
    }
}

#[test]
fn check_answers_as_build_does_and_leaves_the_store() {
    let good = ComponentStore { store: counter(0) };
    assert!(Plan::check(&good).is_ok());
    assert_eq!(good.store.len(), 3);
    assert!(Simulator::build(good).is_ok());
    let looped = ComponentStore {
        store: vec![constant("one", 1), adder("a", ("a", "out"), ("one", "out"))],
    };
    match Plan::check(&looped) {
        Err(BuildError::CombinatorialCycle(ids)) => assert_eq!(ids, vec!["a".to_string()]),
        other => panic!("expected a cycle, got {:?}", other),
    }
    let mut mended = looped;
    mended.store[1].set_id_port("a_in".to_string(), Input::new("one", "out"));
    assert!(Plan::check(&mended).is_ok());
    let doubled = ComponentStore { store: vec![constant("c", 1), constant("c", 2)] };
    assert!(matches!(Plan::check(&doubled), Err(BuildError::DuplicateId(_))));
    let dangling = ComponentStore { store: two_constants_and_adder("nowhere") };
    assert!(matches!(Plan::check(&dangling), Err(BuildError::UnresolvedInput { .. })));
}

#[test]
fn plan_runs_the_two_passes_on_a_state_of_its_shape() {
    let plan = match Plan::new(ComponentStore { store: counter(5) }) {
        Ok(plan) => plan,
        Err(e) => panic!("{:?}", e),
    };
    let mut state = plan.initial_state();
    assert!(plan.fits(&state));
    assert_eq!(
        state.values,
        vec![vec![SignalValue::Unknown], vec![SignalValue::Data(5)], vec![SignalValue::Unknown]]
    );
    assert!(plan.propagate(&mut state).is_none());
    assert_eq!(
        state.values,
        vec![vec![SignalValue::Data(6)], vec![SignalValue::Data(5)], vec![SignalValue::Data(1)]]
    );
    assert!(plan.latch(&mut state).is_none());
    assert_eq!(
        state.values,
        vec![vec![SignalValue::Data(6)], vec![SignalValue::Data(6)], vec![SignalValue::Data(1)]]
    );
    assert!(!plan.fits(&SimState { values: vec![] }));
    assert!(!plan.fits(&SimState { values: vec![vec![], vec![SignalValue::Unknown], vec![]] }));
    assert_eq!(
        plan.slot_of(&Input::new("reg", "out")),
        Some(Slot { unit: 1, port: 0 })
    );
    assert_eq!(plan.slot_of(&Input::new("reg", "in")), None);
    assert_eq!(plan.order(), &vec![1, 2, 0]);
}

#[test]
fn same_store_gives_same_plan() {
    let store = || {
        vec![
            adder("sum2", ("sum1", "out"), ("reg", "out")),
            adder("sum1", ("c1", "out"), ("c2", "out")),
            register("reg", ("sum2", "out"), SignalValue::Data(0)),
            constant("c1", 1),
            constant("c2", 2),
        ]
    };
    let first = build(store());
    let second = build(store());
    assert_eq!(first.plan().order(), second.plan().order());
    assert_eq!(first.plan().order(), &vec![2, 3, 4, 1, 0]);
    assert_eq!(state_of(&first), state_of(&second));
}

#[test]
fn feedback_through_register_builds() {
    let sim = build(counter(0));
    assert_eq!(value(&sim, "reg", "out"), Some(SignalValue::Data(0)));
    assert_eq!(value(&sim, "add", "out"), Some(SignalValue::Data(1)));
    assert_eq!(value(&sim, "one", "out"), Some(SignalValue::Data(1)));
}

#[test]
fn empty_store_builds() {
    let mut sim = build(vec![]);
    assert!(sim.plan().order().is_empty());
    assert!(sim.clock().is_ok());
    assert_eq!(sim.cycle(), 1);
    assert!(state_of(&sim).is_empty());
}

#[test]
fn order_puts_every_component_behind_what_it_reads() {
    let store = vec![
        adder("sum2", ("sum1", "out"), ("reg", "out")),
        adder("sum1", ("c1", "out"), ("c2", "out")),
        register("reg", ("sum2", "out"), SignalValue::Data(0)),
        constant("c1", 1),
        constant("c2", 2),
    ];
    let sim = build(store);
    let order = sim.plan().order().clone();
    let mut sorted = order.clone();
    sorted.sort();
    assert_eq!(sorted, vec![0, 1, 2, 3, 4]);
    let place = |unit: usize| order.iter().position(|&u| u == unit).unwrap();
    assert!(place(3) < place(1));
    assert!(place(4) < place(1));
    assert!(place(1) < place(0));
    assert!(place(2) < place(0));
    // units that wait for nothing come first
    assert!(place(2) < place(1));
    assert!(place(3) < 3 && place(4) < 3 && place(2) < 3);
    assert_eq!(value(&sim, "sum1", "out"), Some(SignalValue::Data(3)));
    assert_eq!(value(&sim, "sum2", "out"), Some(SignalValue::Data(3)));
}

#[test]
fn clock_twice_without_registers_gives_same_state() {
    let mut sim = build(two_constants_and_adder("c1"));
    assert!(sim.clock().is_ok());
    let first = state_of(&sim);
    assert!(sim.clock().is_ok());
    assert_eq!(state_of(&sim), first);
    assert_eq!(
        first,
        vec![
            vec![SignalValue::Data(5)],
            vec![SignalValue::Data(3)],
            vec![SignalValue::Data(8)]
        ]
    );
}

#[test]
fn clock_twice_with_condition_gives_same_state() {
    let store = vec![
        constant("c1", 5),
        adder("add", ("c1", "out"), ("c1", "out")),
        Unit::Halt(Halt::new("stop", origin(), Input::new("add", "out"), SignalValue::Data(10))),
        adder("late", ("add", "out"), ("c1", "out")),
    ];
    let mut sim = build(store);
    let first = sim.clock();
    let after_first = state_of(&sim);
    let second = sim.clock();
    assert_eq!(state_of(&sim), after_first);
    assert_eq!(first.unwrap_err().component, "stop");
    assert_eq!(second.unwrap_err().component, "stop");
}

#[test]
fn counter_counts_one_per_clock() {
    let mut sim = build(counter(7));
    for n in 1..=20u32 {
        assert!(sim.clock().is_ok());
        assert_eq!(value(&sim, "reg", "out"), Some(SignalValue::Data(7 + n)));
        assert_eq!(sim.cycle(), n as usize);
    }
}

#[test]
fn register_shows_old_value_to_readers_during_cycle() {
    let mut sim = build(counter(0));
    assert!(sim.clock().is_ok());
    // the adder was evaluated while the register still showed 0
    assert_eq!(value(&sim, "add", "out"), Some(SignalValue::Data(1)));
    assert_eq!(value(&sim, "reg", "out"), Some(SignalValue::Data(1)));
    assert!(sim.clock().is_ok());
    assert_eq!(value(&sim, "add", "out"), Some(SignalValue::Data(2)));
    assert_eq!(value(&sim, "reg", "out"), Some(SignalValue::Data(2)));
}

#[test]
fn registers_latch_together() {
    let chain = |first: &str, second: &str| {
        let mut store = vec![constant("c", 9)];
        for id in [first, second] {
            if id == "r1" {
                store.push(register("r1", ("c", "out"), SignalValue::Data(1)));
            } else {
                store.push(register("r2", ("r1", "out"), SignalValue::Data(2)));
            }
        }
        store
    };
    for (first, second) in [("r1", "r2"), ("r2", "r1")] {
        let mut sim = build(chain(first, second));
        assert_eq!(value(&sim, "r1", "out"), Some(SignalValue::Data(1)));
        assert_eq!(value(&sim, "r2", "out"), Some(SignalValue::Data(2)));
        assert!(sim.clock().is_ok());
        assert_eq!(value(&sim, "r1", "out"), Some(SignalValue::Data(9)));
        assert_eq!(value(&sim, "r2", "out"), Some(SignalValue::Data(1)));
        assert!(sim.clock().is_ok());
        assert_eq!(value(&sim, "r2", "out"), Some(SignalValue::Data(9)));
    }
}

#[test]
fn unclock_restores_state_before_each_clock() {
    let mut sim = build(counter(0));
    let start = state_of(&sim);
    let mut seen = vec![start.clone()];
    for _ in 0..5 {
        assert!(sim.clock().is_ok());
        seen.push(state_of(&sim));
    }
    for back in (0..5).rev() {
        sim.un_clock();
        assert_eq!(state_of(&sim), seen[back]);
        assert_eq!(sim.cycle(), back);
    }
    assert_eq!(state_of(&sim), start);
}

#[test]
fn unclock_with_empty_history_changes_nothing() {
    let mut sim = build(counter(3));
    let start = state_of(&sim);
    sim.un_clock();
    assert_eq!(state_of(&sim), start);
    assert_eq!(sim.cycle(), 0);
    assert!(sim.history().snapshots.is_empty());
}

#[test]
fn snapshot_is_not_changed_by_later_cycles() {
    let mut sim = build(counter(0));
    assert!(sim.clock().is_ok());
    let pushed = sim.history().snapshots[0].values.clone();
    assert!(sim.clock().is_ok());
    assert!(sim.clock().is_ok());
    assert_eq!(sim.history().snapshots[0].values, pushed);
    assert_eq!(sim.history().snapshots.len(), 3);
}

#[test]
fn reset_twice_is_reset_once() {
    let mut sim = build(counter(4));
    let start = state_of(&sim);
    for _ in 0..3 {
        assert!(sim.clock().is_ok());
    }
    assert!(sim.reset().is_ok());
    let once = state_of(&sim);
    assert_eq!(once, start);
    assert_eq!(sim.cycle(), 0);
    assert!(sim.reset().is_ok());
    assert_eq!(state_of(&sim), once);
    sim.un_clock();
    assert_eq!(state_of(&sim), once);
    assert_eq!(sim.cycle(), 0);
}

fn counter_with_halt(stop_on: u32) -> Vec<Unit> {
    vec![
        constant("one", 1),
        register("reg", ("add", "out"), SignalValue::Data(0)),
        adder("add", ("reg", "out"), ("one", "out")),
        Unit::Halt(Halt::new("stop", origin(), Input::new("add", "out"), SignalValue::Data(stop_on))),
        adder("after", ("add", "out"), ("one", "out")),
    ]
}

#[test]
fn halt_stops_the_cycle_and_keeps_earlier_outputs() {
    let mut sim = build(counter_with_halt(3));
    assert!(sim.condition().is_none());
    assert!(sim.clock().is_ok());
    assert!(sim.clock().is_ok());
    assert_eq!(value(&sim, "reg", "out"), Some(SignalValue::Data(2)));
    assert_eq!(value(&sim, "add", "out"), Some(SignalValue::Data(2)));
    assert_eq!(value(&sim, "after", "out"), Some(SignalValue::Data(3)));
    let fault = sim.clock().unwrap_err();
    assert_eq!(fault.component, "stop");
    assert_eq!(fault.unit, 3);
    match &fault.condition {
        Condition::Halt(message) => assert_eq!(message, "halt: the watched value was reached"),
        other => panic!("expected a halt, got {:?}", other),
    }
    assert_eq!(fault.condition.message(), "halt: the watched value was reached");
    // written before the halt in this pass
    assert_eq!(value(&sim, "add", "out"), Some(SignalValue::Data(3)));
    // not reached in this pass
    assert_eq!(value(&sim, "after", "out"), Some(SignalValue::Data(3)));
    // no register latched
    assert_eq!(value(&sim, "reg", "out"), Some(SignalValue::Data(2)));
    assert_eq!(sim.cycle(), 3);
    assert_eq!(sim.condition().as_ref().unwrap().component, "stop");
    // the failed cycle can be undone like any other
    sim.un_clock();
    assert_eq!(value(&sim, "add", "out"), Some(SignalValue::Data(2)));
    assert_eq!(sim.cycle(), 2);
}

#[test]
fn clock_after_condition_goes_on_from_partial_state() {
    let mut sim = build(counter_with_halt(1));
    // the start pass already meets the watched value
    assert_eq!(sim.condition().as_ref().unwrap().component, "stop");
    assert_eq!(value(&sim, "after", "out"), Some(SignalValue::Unknown));
    assert!(sim.clock().is_err());
    assert_eq!(value(&sim, "reg", "out"), Some(SignalValue::Data(0)));
    assert!(sim.reset().is_err());
    assert_eq!(sim.cycle(), 0);
}

#[test]
fn undriven_input_raises_condition_at_build() {
    let store = vec![
        register("reg", ("add", "out"), SignalValue::Unknown),
        adder("add", ("reg", "out"), ("reg", "out")),
    ];
    let mut sim = build(store);
    let fault = sim.condition().clone().unwrap();
    assert_eq!(fault.component, "add");
    assert_eq!(fault.condition.message(), "add: an input holds no value");
    assert!(matches!(fault.condition, Condition::Error(_)));
    assert_eq!(value(&sim, "add", "out"), Some(SignalValue::Unknown));
    assert_eq!(sim.clock().unwrap_err().component, "add");
}

#[test]
fn get_input_value_of_unknown_names_is_none() {
    let sim = build(two_constants_and_adder("c1"));
    assert_eq!(value(&sim, "nowhere", "out"), None);
    assert_eq!(value(&sim, "add", "carry"), None);
    assert_eq!(sim.state().get(Slot { unit: 3, port: 0 }), None);
    assert_eq!(sim.state().get(Slot { unit: 0, port: 1 }), None);
}

#[test]
fn rewire_and_rebuild() {
    let sim = build(two_constants_and_adder("c1"));
    let mut store = sim.into_store();
    store.store[2].set_id_port("a_in".to_string(), Input::new("c2", "out"));
    store.store[2].set_id_port("no_such_port".to_string(), Input::new("nowhere", "out"));
    let sim = match Simulator::build(store) {
        Ok(sim) => sim,
        Err(e) => panic!("{:?}", e),
    };
    assert_eq!(value(&sim, "add", "out"), Some(SignalValue::Data(6)));
    let (id, ports) = sim.plan().components()[2].get_id_ports();
    assert_eq!(id, "add");
    assert_eq!(ports.inputs[0].input.id, "c2");
    assert_eq!(ports.inputs[1].input.id, "c2");
    assert_eq!(sim.plan().ids(), &vec!["c1".to_string(), "c2".to_string(), "add".to_string()]);
}

#[test]
fn store_add_refuses_a_second_component_of_a_name() {
    let mut store: ComponentStore<Unit> = ComponentStore::new();
    assert!(store.add(constant("a", 1)).is_ok());
    assert!(store.add(constant("b", 2)).is_ok());
    match store.add(constant("a", 3)) {
        Err(BuildError::DuplicateId(id)) => assert_eq!(id, "a"),
        other => panic!("expected a duplicate id, got {:?}", other),
    }
    assert_eq!(store.store.len(), 2);
    let (ids, ports) = store.describe();
    assert_eq!(ids, vec!["a".to_string(), "b".to_string()]);
    assert_eq!(ports.len(), 2);
    assert_eq!(ports[0].outputs, vec!["out".to_string()]);
}

#[test]
fn full_adder_and_mux_in_a_circuit() {
    let store = vec![
        constant("a", 10),
        constant("b", 3),
        constant("sub", 1),
        constant("sel", 1),
        Unit::FullAdd(FullAdd::new(
            "fa",
            origin(),
            Input::new("a", "out"),
            Input::new("b", "out"),
            Input::new("sub", "out"),
        )),
        Unit::Mux(Mux::new(
            "mux".to_string(),
            origin(),
            Input::new("sel", "out"),
            vec![Input::new("a", "out"), Input::new("fa", "out")],
        )),
        Unit::Wire(Wire::new(
            "w".to_string(),
            vec![origin(), Position::new(1.5f32.to_bits(), 2.5f32.to_bits())],
            Input::new("mux", "out"),
        )),
    ];
    let mut sim = build(store);
    assert_eq!(value(&sim, "fa", "out"), Some(SignalValue::Data(7)));
    assert_eq!(value(&sim, "mux", "out"), Some(SignalValue::Data(7)));
    assert!(sim.clock().is_ok());
    assert_eq!(value(&sim, "mux", "out"), Some(SignalValue::Data(7)));
    assert_eq!(state_of(&sim)[6], vec![]);
}
