use syncrim::component::{read, Component, Condition, Position};
use syncrim::components::{
    Add, Constant, FullAdd, Halt, Mux, Register, Unit, Wire, FULL_ADD_A_IN_ID, FULL_ADD_B_IN_ID,
    FULL_ADD_OUT_ID, FULL_ADD_SUB_IN_ID,
};
use syncrim::ports::{Input, InputPort, OutputType, Ports};
use syncrim::signal::SignalValue;

fn pos(x: f32, y: f32) -> Position {
    Position::new(x.to_bits(), y.to_bits())
}

fn data(words: &[u32]) -> Vec<SignalValue> {
    words.iter().map(|w| SignalValue::Data(*w)).collect()
}

fn full_adder() -> FullAdd {
    FullAdd::new(
        "fa",
        pos(10.0, 20.0),
        Input::new("a", "out"),
        Input::new("b", "out"),
        Input::new("s", "out"),
    )
}

fn full_add(a: u32, b: u32, sub: u32) -> SignalValue {
    full_adder().clock(&data(&[a, b, sub]), &vec![]).unwrap()[0]
}

#[test]
fn full_adder_adds() {
    assert_eq!(full_add(5, 3, 0), SignalValue::Data(8));
    assert_eq!(full_add(0, 0, 0), SignalValue::Data(0));
    assert_eq!(full_add(0xFFFF_FFFF, 1, 0), SignalValue::Data(0));
    assert_eq!(full_add(0xFFFF_FFFF, 0xFFFF_FFFF, 0), SignalValue::Data(0xFFFF_FFFE));
}

#[test]
fn full_adder_subtracts_when_sub_is_one() {
    assert_eq!(full_add(5, 3, 1), SignalValue::Data(2));
    assert_eq!(full_add(3, 5, 1), SignalValue::Data(0xFFFF_FFFE));
    assert_eq!(full_add(0, 0, 1), SignalValue::Data(0));
    assert_eq!(full_add(0, 0xFFFF_FFFF, 1), SignalValue::Data(1));
    assert_eq!(full_add(7, 7, 1), SignalValue::Data(0));
}

#[test]
fn full_adder_adds_when_sub_is_not_one() {
    assert_eq!(full_add(5, 3, 2), SignalValue::Data(8));
    assert_eq!(full_add(5, 3, 0xFFFF_FFFF), SignalValue::Data(8));
}

#[test]
fn full_adder_reports_undriven_input() {
    let fa = full_adder();
    let inputs = vec![SignalValue::Data(1), SignalValue::Unknown, SignalValue::Data(0)];
    match fa.clock(&inputs, &vec![]) {
        Err(Condition::Error(message)) => {
            assert_eq!(message, "full adder: an input holds no value")
        }
        other => panic!("expected an error, got {:?}", other),
    }
    // too few values count as undriven
    assert!(fa.clock(&data(&[1, 2]), &vec![]).is_err());
}

#[test]
fn full_adder_describes_itself() {
    let fa = full_adder();
    assert_eq!(fa.pos, pos(10.0, 20.0));
    assert_eq!(f32::from_bits(fa.pos.x), 10.0);
    let (id, ports) = fa.get_id_ports();
    assert_eq!(id, "fa");
    assert_eq!(ports.out_type, OutputType::Combinatorial);
    assert_eq!(ports.outputs, vec![FULL_ADD_OUT_ID.to_string()]);
    let names: Vec<&str> = ports.inputs.iter().map(|p| p.port_id.as_str()).collect();
    assert_eq!(names, vec![FULL_ADD_A_IN_ID, FULL_ADD_B_IN_ID, FULL_ADD_SUB_IN_ID]);
    assert_eq!(names, vec!["full_add_a_in", "full_add_b_in", "full_add_sub_in"]);
    let sources: Vec<&str> = ports.inputs.iter().map(|p| p.input.id.as_str()).collect();
    assert_eq!(sources, vec!["a", "b", "s"]);
    assert_eq!(fa.reset(), vec![SignalValue::Unknown]);
}

#[test]
fn full_adder_rewires_named_port_only() {
    let mut fa = full_adder();
    fa.set_id_port(FULL_ADD_B_IN_ID.to_string(), Input::new("x", "y"));
    assert_eq!(fa.a_in.id, "a");
    assert_eq!(fa.b_in.id, "x");
    assert_eq!(fa.b_in.field, "y");
    assert_eq!(fa.sub_in.id, "s");
    fa.set_id_port("elsewhere".to_string(), Input::new("p", "q"));
    assert_eq!(fa.a_in.id, "a");
    assert_eq!(fa.b_in.id, "x");
    assert_eq!(fa.sub_in.id, "s");
    fa.set_id_port(FULL_ADD_SUB_IN_ID.to_string(), Input::new("p", "q"));
    assert_eq!(fa.sub_in.id, "p");
    fa.set_id_port(FULL_ADD_A_IN_ID.to_string(), Input::new("m", "n"));
    assert_eq!(fa.a_in.field, "n");
    assert_eq!(fa.id, "fa");
}

#[test]
fn full_adder_clone_dummy_and_rc() {
    let fa = full_adder();
    let copy = fa.clone();
    assert_eq!(copy.id, "fa");
    assert_eq!(copy.b_in.id, "b");
    let dummy = FullAdd::dummy();
    assert_eq!(dummy.id, "dummy");
    assert_eq!(dummy.pos, Position::new(0, 0));
    for input in [&dummy.a_in, &dummy.b_in, &dummy.sub_in] {
        assert_eq!(input.id, "dummy");
        assert_eq!(input.field, "out");
    }
    let shared = FullAdd::rc_new(
        "fa2",
        pos(1.0, 2.0),
        Input::new("a", "out"),
        Input::new("b", "out"),
        Input::new("s", "out"),
    );
    assert_eq!(shared.id, "fa2");
    assert_eq!(shared.sub_in.id, "s");
    assert_eq!(std::rc::Rc::strong_count(&shared), 1);
}

#[test]
fn add_wraps_round() {
    let add = Add::new("add", pos(0.0, 0.0), Input::new("a", "out"), Input::new("b", "out"));
    assert_eq!(add.clock(&data(&[2, 3]), &vec![]).unwrap(), data(&[5]));
    assert_eq!(add.clock(&data(&[0xFFFF_FFFF, 2]), &vec![]).unwrap(), data(&[1]));
    match add.clock(&vec![SignalValue::Unknown, SignalValue::Data(1)], &vec![]) {
        Err(Condition::Error(message)) => assert_eq!(message, "add: an input holds no value"),
        other => panic!("expected an error, got {:?}", other),
    }
    let (_, ports) = add.get_id_ports();
    assert_eq!(ports.inputs[0].port_id, "a_in");
    assert_eq!(ports.inputs[1].port_id, "b_in");
    assert_eq!(ports.outputs, vec!["out".to_string()]);
}

#[test]
fn add_rewires() {
    let mut add = Add::new("add", pos(0.0, 0.0), Input::new("a", "out"), Input::new("b", "out"));
    add.set_id_port("b_in".to_string(), Input::new("c", "out"));
    assert_eq!(add.a_in.id, "a");
    assert_eq!(add.b_in.id, "c");
    add.set_id_port("a_in".to_string(), Input::new("d", "out"));
    assert_eq!(add.a_in.id, "d");
    add.set_id_port("out".to_string(), Input::new("e", "out"));
    assert_eq!(add.a_in.id, "d");
    assert_eq!(add.b_in.id, "c");
}

#[test]
fn constant_puts_out_its_value() {
    let c = Constant::new("c", pos(0.0, 0.0), SignalValue::Data(42));
    assert_eq!(c.clock(&vec![], &vec![]).unwrap(), data(&[42]));
    assert_eq!(c.reset(), vec![SignalValue::Unknown]);
    let (id, ports) = c.get_id_ports();
    assert_eq!(id, "c");
    assert!(ports.inputs.is_empty());
    assert_eq!(ports.outputs, vec!["out".to_string()]);
    assert_eq!(ports.out_type, OutputType::Combinatorial);
    let mut c = c;
    c.set_id_port("out".to_string(), Input::new("x", "y"));
    assert_eq!(c.value, SignalValue::Data(42));
}

#[test]
fn register_takes_in_its_input() {
    let mut r = Register::new("r", pos(0.0, 0.0), Input::new("d", "out"), SignalValue::Data(9));
    assert_eq!(r.reset(), data(&[9]));
    assert_eq!(r.clock(&data(&[4]), &data(&[9])).unwrap(), data(&[4]));
    assert_eq!(
        r.clock(&vec![SignalValue::Unknown], &data(&[9])).unwrap(),
        vec![SignalValue::Unknown]
    );
    let (_, ports) = r.get_id_ports();
    assert_eq!(ports.out_type, OutputType::Sequential);
    assert_eq!(ports.inputs[0].port_id, "r_in");
    assert_eq!(ports.outputs, vec!["out".to_string()]);
    r.set_id_port("r_in".to_string(), Input::new("e", "q"));
    assert_eq!(r.r_in.id, "e");
    assert_eq!(r.r_in.field, "q");
}

fn mux(n: usize) -> Mux {
    let m_in: Vec<Input> = (0..n).map(|i| Input::new(&format!("src{}", i), "out")).collect();
    Mux::new("mux".to_string(), pos(0.0, 0.0), Input::new("sel", "out"), m_in)
}

#[test]
fn mux_names_its_inputs() {
    let m = mux(12);
    assert_eq!(m.id, "mux");
    assert_eq!(m.select.port_id, "select");
    assert_eq!(m.select.input.id, "sel");
    let names: Vec<&str> = m.m_in.iter().map(|p| p.port_id.as_str()).collect();
    assert_eq!(
        names,
        vec!["in0", "in1", "in2", "in3", "in4", "in5", "in6", "in7", "in8", "in9", "in10", "in11"]
    );
    assert_eq!(m.m_in[11].input.id, "src11");
    let (id, ports) = m.get_id_ports();
    assert_eq!(id, "mux");
    assert_eq!(ports.inputs.len(), 13);
    assert_eq!(ports.inputs[0].port_id, "select");
    assert_eq!(ports.inputs[1].port_id, "in0");
    assert_eq!(ports.inputs[12].port_id, "in11");
    assert_eq!(ports.inputs[12].input.id, "src11");
    assert_eq!(ports.outputs, vec!["out".to_string()]);
}

#[test]
fn mux_selects() {
    let m = mux(3);
    assert_eq!(m.clock(&data(&[0, 10, 20, 30]), &vec![]).unwrap(), data(&[10]));
    assert_eq!(m.clock(&data(&[2, 10, 20, 30]), &vec![]).unwrap(), data(&[30]));
    let unknown_data =
        vec![SignalValue::Data(1), SignalValue::Data(10), SignalValue::Unknown, SignalValue::Data(30)];
    assert_eq!(m.clock(&unknown_data, &vec![]).unwrap(), vec![SignalValue::Unknown]);
    match m.clock(&data(&[3, 10, 20, 30]), &vec![]) {
        Err(Condition::Error(message)) => {
            assert_eq!(message, "mux: the select value names no input")
        }
        other => panic!("expected an error, got {:?}", other),
    }
    match m.clock(&vec![SignalValue::Unknown], &vec![]) {
        Err(Condition::Error(message)) => {
            assert_eq!(message, "mux: the select input holds no value")
        }
        other => panic!("expected an error, got {:?}", other),
    }
}

#[test]
fn mux_rewires() {
    let mut m = mux(3);
    m.set_id_port("in1".to_string(), Input::new("x", "y"));
    assert_eq!(m.m_in[0].input.id, "src0");
    assert_eq!(m.m_in[1].input.id, "x");
    assert_eq!(m.m_in[1].port_id, "in1");
    assert_eq!(m.m_in[2].input.id, "src2");
    assert_eq!(m.select.input.id, "sel");
    m.set_id_port("select".to_string(), Input::new("z", "out"));
    assert_eq!(m.select.input.id, "z");
    m.set_id_port("in3".to_string(), Input::new("q", "out"));
    assert_eq!(m.m_in.len(), 3);
    assert_eq!(m.m_in[2].input.id, "src2");
}

#[test]
fn wire_has_one_input_and_no_output() {
    let mut w = Wire::new(
        "w".to_string(),
        vec![pos(0.0, 0.0), pos(1.0, 1.0)],
        Input::new("a", "out"),
    );
    assert_eq!(w.id, "w");
    assert_eq!(w.id_tmp, "w");
    assert!(!w.properties_window);
    assert_eq!(w.pos.len(), 2);
    assert_eq!(w.input_id.port_id, "in");
    let (id, ports) = w.get_id_ports();
    assert_eq!(id, "w");
    assert_eq!(ports.inputs.len(), 1);
    assert_eq!(ports.inputs[0].input.id, "a");
    assert!(ports.outputs.is_empty());
    assert_eq!(ports.out_type, OutputType::Combinatorial);
    assert_eq!(w.clock(&data(&[1]), &vec![]).unwrap(), vec![]);
    assert_eq!(w.reset(), vec![]);
    w.set_id_port("in".to_string(), Input::new("b", "out"));
    assert_eq!(w.input_id.input.id, "b");
    w.set_id_port("out".to_string(), Input::new("c", "out"));
    assert_eq!(w.input_id.input.id, "b");
}

#[test]
fn halt_raises_on_its_value_only() {
    let mut h = Halt::new("h", pos(0.0, 0.0), Input::new("a", "out"), SignalValue::Data(3));
    assert_eq!(h.clock(&data(&[2]), &vec![]).unwrap(), vec![]);
    assert_eq!(h.clock(&vec![SignalValue::Unknown], &vec![]).unwrap(), vec![]);
    match h.clock(&data(&[3]), &vec![]) {
        Err(Condition::Halt(message)) => assert_eq!(message, "halt: the watched value was reached"),
        other => panic!("expected a halt, got {:?}", other),
    }
    let on_unknown = Halt::new("h", pos(0.0, 0.0), Input::new("a", "out"), SignalValue::Unknown);
    assert!(on_unknown.clock(&vec![], &vec![]).is_err());
    assert!(on_unknown.clock(&data(&[0]), &vec![]).is_ok());
    h.set_id_port("in".to_string(), Input::new("b", "out"));
    assert_eq!(h.input.id, "b");
    let (_, ports) = h.get_id_ports();
    assert_eq!(ports.inputs[0].port_id, "in");
    assert!(ports.outputs.is_empty());
}

#[test]
fn unit_behaves_as_the_component_inside() {
    let mut u = Unit::FullAdd(full_adder());
    assert_eq!(u.clock(&data(&[9, 4, 1]), &vec![]).unwrap(), data(&[5]));
    let (id, ports) = u.get_id_ports();
    assert_eq!(id, "fa");
    assert_eq!(ports.inputs.len(), 3);
    u.set_id_port(FULL_ADD_A_IN_ID.to_string(), Input::new("n", "out"));
    match &u {
        Unit::FullAdd(fa) => assert_eq!(fa.a_in.id, "n"),
        other => panic!("{:?}", other),
    }
    assert_eq!(u.reset(), vec![SignalValue::Unknown]);
    let r = Unit::Register(Register::new(
        "r",
        pos(0.0, 0.0),
        Input::new("d", "out"),
        SignalValue::Data(1),
    ));
    assert_eq!(r.reset(), data(&[1]));
    assert_eq!(r.get_id_ports().1.out_type, OutputType::Sequential);
}

#[test]
fn read_gives_unknown_beyond_the_end() {
    let values = data(&[1, 2]);
    assert_eq!(read(&values, 0), SignalValue::Data(1));
    assert_eq!(read(&values, 1), SignalValue::Data(2));
    assert_eq!(read(&values, 2), SignalValue::Unknown);
    assert_eq!(read(&vec![], 0), SignalValue::Unknown);
}

#[test]
fn ports_new_copies_its_arguments() {
    let a = InputPort::new("p", Input::new("x", "out"));
    let b = InputPort::new("q", Input::new("y", "o2"));
    let ports = Ports::new(vec![&a, &b], OutputType::Sequential, vec!["one", "two"]);
    assert_eq!(ports.inputs.len(), 2);
    assert_eq!(ports.inputs[0].port_id, "p");
    assert_eq!(ports.inputs[1].input.field, "o2");
    assert_eq!(ports.out_type, OutputType::Sequential);
    assert_eq!(ports.outputs, vec!["one".to_string(), "two".to_string()]);
    let copy = ports.clone();
    assert_eq!(copy.inputs[1].port_id, "q");
    assert_eq!(copy.outputs, ports.outputs);
    assert_eq!(copy.out_type, OutputType::Sequential);
    let input = Input::new("x", "out").clone();
    assert_eq!(input.id, "x");
    assert_eq!(input.field, "out");
}
