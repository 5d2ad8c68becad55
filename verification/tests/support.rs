use syncrim::graph::{is_in_range, schedule};
use syncrim::label::{alu_label, op_name, value_text, values_text};
use syncrim::netlist::Slot;
use syncrim::ports::{is_named, Input, InputPort, OutputType, Ports};
use syncrim::signal::{ConversionError, SignalValue};
use syncrim::state::{copy_values, History, SimState};
use syncrim::text::{decimal_text, hexadecimal_text};
use syncrim::wiring::{dependencies, find_duplicate, resolve, resolve_all};

#[test]
fn unknown_does_not_convert() {
    assert_eq!(SignalValue::Unknown.unsigned(), Err(ConversionError {}));
    assert_eq!(SignalValue::Unknown.signed(), Err(ConversionError {}));
}

#[test]
fn data_converts_to_unsigned_and_signed() {
    assert_eq!(SignalValue::Data(0).unsigned(), Ok(0));
    assert_eq!(SignalValue::Data(0xFFFF_FFFF).unsigned(), Ok(0xFFFF_FFFF));
    assert_eq!(SignalValue::Data(0).signed(), Ok(0));
    assert_eq!(SignalValue::Data(0x7FFF_FFFF).signed(), Ok(i32::MAX));
    assert_eq!(SignalValue::Data(0x8000_0000).signed(), Ok(i32::MIN));
    assert_eq!(SignalValue::Data(0xFFFF_FFFF).signed(), Ok(-1));
    assert_eq!(SignalValue::Data(0xFFFF_FFFE).signed(), Ok(-2));
}

#[test]
fn values_are_made_from_numbers() {
    assert_eq!(SignalValue::from_unsigned(7), SignalValue::Data(7));
    assert_eq!(SignalValue::from_signed(7), SignalValue::Data(7));
    assert_eq!(SignalValue::from_signed(0), SignalValue::Data(0));
    assert_eq!(SignalValue::from_signed(-1), SignalValue::Data(0xFFFF_FFFF));
    assert_eq!(SignalValue::from_signed(i32::MIN), SignalValue::Data(0x8000_0000));
    assert_eq!(SignalValue::from_signed(i32::MAX), SignalValue::Data(0x7FFF_FFFF));
    assert_eq!(SignalValue::from_bool(true), SignalValue::Data(1));
    assert_eq!(SignalValue::from_bool(false), SignalValue::Data(0));
    for v in [-5i32, 0, 5, i32::MIN, i32::MAX] {
        assert_eq!(SignalValue::from_signed(v).signed(), Ok(v));
    }
}

#[test]
fn values_convert_through_std_traits() {
    assert_eq!(SignalValue::from(7u32), SignalValue::Data(7));
    assert_eq!(SignalValue::from(-2i32), SignalValue::Data(0xFFFF_FFFE));
    assert_eq!(SignalValue::from(true), SignalValue::Data(1));
    assert_eq!(SignalValue::from(false), SignalValue::Data(0));
    let made: SignalValue = 9u32.into();
    assert_eq!(made, SignalValue::Data(9));
    assert_eq!(u32::try_from(SignalValue::Data(0xFFFF_FFFF)), Ok(0xFFFF_FFFF));
    assert_eq!(i32::try_from(SignalValue::Data(0xFFFF_FFFF)), Ok(-1));
    assert_eq!(u32::try_from(SignalValue::Unknown), Err(ConversionError {}));
    assert_eq!(i32::try_from(SignalValue::Unknown), Err(ConversionError {}));
    let read: Result<u32, ConversionError> = SignalValue::Data(3).try_into();
    assert_eq!(read, Ok(3));
}

#[test]
fn decimal_text_of_numbers() {
    assert_eq!(decimal_text(0), "0");
    assert_eq!(decimal_text(7), "7");
    assert_eq!(decimal_text(10), "10");
    assert_eq!(decimal_text(409), "409");
    assert_eq!(decimal_text(1234567890), "1234567890");
    assert_eq!(decimal_text(usize::MAX), usize::MAX.to_string());
}

#[test]
fn hexadecimal_text_of_numbers() {
    assert_eq!(hexadecimal_text(0), "0");
    assert_eq!(hexadecimal_text(9), "9");
    assert_eq!(hexadecimal_text(10), "a");
    assert_eq!(hexadecimal_text(15), "f");
    assert_eq!(hexadecimal_text(16), "10");
    assert_eq!(hexadecimal_text(255), "ff");
    assert_eq!(hexadecimal_text(0xDEAD_BEEF), "deadbeef");
    assert_eq!(hexadecimal_text(u32::MAX), "ffffffff");
    assert_eq!(hexadecimal_text(0x1234_5678), format!("{:x}", 0x1234_5678u32));
}

#[test]
fn value_text_of_values() {
    assert_eq!(value_text(SignalValue::Data(0)), "0x0");
    assert_eq!(value_text(SignalValue::Data(42)), "0x2a");
    assert_eq!(value_text(SignalValue::Data(42)), format!("{:#x}", 42u32));
    assert_eq!(value_text(SignalValue::Unknown), "Err(ConversionError)");
    assert_eq!(value_text(SignalValue::Unknown), format!("{:?}", SignalValue::Unknown.unsigned()));
}

#[test]
fn values_text_joins_in_order() {
    assert_eq!(values_text(&vec![]), "");
    let values = vec![
        SignalValue::Data(3),
        SignalValue::Data(4),
        SignalValue::Unknown,
        SignalValue::Data(42),
        SignalValue::Data(1),
    ];
    assert_eq!(values_text(&values), "0x30x4Err(ConversionError)0x2a0x1");
}

#[test]
fn op_names() {
    let expected = [
        (0, "ADD"),
        (1, "ADDU"),
        (2, "SUB"),
        (3, "SUBU"),
        (4, "AND"),
        (5, "OR"),
        (6, "XOR"),
        (7, "NOR"),
        (8, "DONOTHING"),
        (9, "UNDEF"),
        (10, "SLT"),
        (11, "SLTU"),
        (12, "SLL"),
        (13, "SRL"),
        (14, "SRA"),
        (15, "LUI"),
        (16, "UNDEF"),
        (u32::MAX, "UNDEF"),
    ];
    for (op, name) in expected {
        assert_eq!(op_name(op), name);
    }
    assert_eq!(alu_label(Some(2)), "ALU\nSUB");
    assert_eq!(alu_label(Some(99)), "ALU\nUNDEF");
    assert_eq!(alu_label(None), "ALU\nno sim");
}

#[test]
fn is_named_compares_spelling() {
    assert!(is_named(&"out".to_string(), "out"));
    assert!(!is_named(&"out".to_string(), "Out"));
    assert!(!is_named(&"out".to_string(), "ou"));
    assert!(is_named(&String::new(), ""));
}

fn check_order(deps: &[Vec<usize>], order: &[usize]) {
    let n = deps.len();
    let mut sorted = order.to_vec();
    sorted.sort();
    assert_eq!(sorted, (0..n).collect::<Vec<usize>>());
    let place = |v: usize| order.iter().position(|&u| u == v).unwrap();
    for v in 0..n {
        for &u in &deps[v] {
            assert!(place(u) < place(v));
        }
    }
    let sources = deps.iter().filter(|d| d.is_empty()).count();
    for q in 0..sources {
        assert!(deps[order[q]].is_empty());
    }
}

fn check_cycle(deps: &[Vec<usize>], cycle: &[usize]) {
    assert!(!cycle.is_empty());
    let n = cycle.len();
    for k in 0..n {
        assert!(deps[cycle[k]].contains(&cycle[(k + 1) % n]));
    }
}

#[test]
fn schedule_orders_a_graph() {
    let deps = vec![vec![1, 2], vec![3], vec![3, 1], vec![], vec![], vec![0, 4]];
    match schedule(&deps) {
        Ok(order) => {
            check_order(&deps, &order);
            assert_eq!(order, vec![3, 4, 1, 2, 0, 5]);
        }
        Err(cycle) => panic!("unexpected cycle {:?}", cycle),
    }
    assert_eq!(schedule(&vec![]), Ok(vec![]));
    assert_eq!(schedule(&vec![vec![], vec![], vec![]]), Ok(vec![0, 1, 2]));
    // a chain against the numbering takes one sweep for each link
    let chain = vec![vec![1], vec![2], vec![3], vec![]];
    assert_eq!(schedule(&chain), Ok(vec![3, 2, 1, 0]));
}

#[test]
fn graph_range_is_checked() {
    assert!(is_in_range(&vec![]));
    assert!(is_in_range(&vec![vec![0, 1], vec![]]));
    assert!(!is_in_range(&vec![vec![0, 2], vec![]]));
    assert!(!is_in_range(&vec![vec![], vec![usize::MAX]]));
}

#[test]
fn schedule_finds_a_cycle() {
    let deps = vec![vec![], vec![0, 2], vec![3], vec![1], vec![3]];
    match schedule(&deps) {
        Ok(order) => panic!("unexpected order {:?}", order),
        Err(cycle) => {
            check_cycle(&deps, &cycle);
            assert_eq!(cycle.len(), 3);
        }
    }
    assert_eq!(schedule(&vec![vec![0]]), Err(vec![0]));
    let two = vec![vec![1], vec![0]];
    match schedule(&two) {
        Err(cycle) => check_cycle(&two, &cycle),
        Ok(order) => panic!("unexpected order {:?}", order),
    }
}

fn surface(inputs: &[(&str, &str, &str)], out_type: OutputType, outputs: &[&str]) -> Ports {
    let ports: Vec<InputPort> =
        inputs.iter().map(|(p, id, field)| InputPort::new(p, Input::new(id, field))).collect();
    Ports::new(ports.iter().collect(), out_type, outputs.to_vec())
}

fn sample() -> (Vec<String>, Vec<Ports>) {
    let ids = vec!["a".to_string(), "b".to_string(), "r".to_string()];
    let ports = vec![
        surface(&[], OutputType::Combinatorial, &["out", "aux"]),
        surface(&[("x", "a", "aux"), ("y", "r", "q")], OutputType::Combinatorial, &["out"]),
        surface(&[("d", "b", "out")], OutputType::Sequential, &["q"]),
    ];
    (ids, ports)
}

#[test]
fn resolve_finds_the_named_output() {
    let (ids, ports) = sample();
    assert_eq!(resolve(&ids, &ports, &Input::new("a", "aux")), Some(Slot { unit: 0, port: 1 }));
    assert_eq!(resolve(&ids, &ports, &Input::new("r", "q")), Some(Slot { unit: 2, port: 0 }));
    assert_eq!(resolve(&ids, &ports, &Input::new("r", "out")), None);
    assert_eq!(resolve(&ids, &ports, &Input::new("c", "out")), None);
}

#[test]
fn resolve_all_binds_every_input() {
    let (ids, ports) = sample();
    let wiring = resolve_all(&ids, &ports).unwrap();
    assert_eq!(
        wiring,
        vec![
            vec![],
            vec![Slot { unit: 0, port: 1 }, Slot { unit: 2, port: 0 }],
            vec![Slot { unit: 1, port: 0 }]
        ]
    );
    assert_eq!(dependencies(&ports, &wiring), vec![vec![], vec![0, 2], vec![]]);
    let (ids, mut ports) = sample();
    ports[2] = surface(&[("d", "b", "nope")], OutputType::Sequential, &["q"]);
    assert_eq!(resolve_all(&ids, &ports), Err((2, 0)));
}

#[test]
fn find_duplicate_gives_the_first_repeat() {
    let (mut ids, mut ports) = sample();
    assert_eq!(find_duplicate(&ids, &ports), None);
    ids.push("b".to_string());
    ports.push(surface(&[], OutputType::Combinatorial, &[]));
    ids.push("a".to_string());
    ports.push(surface(&[], OutputType::Combinatorial, &[]));
    assert_eq!(find_duplicate(&ids, &ports), Some(3));
    assert_eq!(find_duplicate(&vec![], &vec![]), None);
}

#[test]
fn state_and_history() {
    let mut state = SimState {
        values: vec![vec![SignalValue::Data(1), SignalValue::Unknown], vec![], vec![SignalValue::Data(2)]],
    };
    let snapshot = state.snapshot();
    state.set_outputs(0, vec![SignalValue::Data(7), SignalValue::Data(8)]);
    assert_eq!(snapshot.values[0], vec![SignalValue::Data(1), SignalValue::Unknown]);
    assert_eq!(state.get(Slot { unit: 0, port: 1 }), Some(SignalValue::Data(8)));
    assert_eq!(state.get(Slot { unit: 1, port: 0 }), None);
    assert_eq!(state.get(Slot { unit: 2, port: 0 }), Some(SignalValue::Data(2)));
    assert_eq!(copy_values(&state.values[0]), vec![SignalValue::Data(7), SignalValue::Data(8)]);
    let mut history = History::new();
    assert_eq!(history.len(), 0);
    assert!(history.pop().is_none());
    history.push(snapshot);
    history.push(state.snapshot());
    assert_eq!(history.len(), 2);
    assert_eq!(history.pop().unwrap().values, state.values);
    assert_eq!(history.len(), 1);
    history.clear();
    assert_eq!(history.len(), 0);
    assert!(history.pop().is_none());
}
