use fiberslice::error::Error;
use fiberslice::float_text::display_float;
use fiberslice::gcode::instruction::{Instruction, InstructionType};
use fiberslice::gcode::movement::Movements;
use fiberslice::gcode::parser::{
    compute_parameters, parse_comment_into_state, parse_comment_to_state, parse_content,
    read_content, read_parameters,
};
use fiberslice::gcode::state::{State, StateField};
use fiberslice::slicer::print_type::PrintType;

fn chars(s: &str) -> Vec<char> {
    s.chars().collect()
}

const SAMPLE: &str = "\
;FLAVOR:Marlin
;LAYER:0
;TYPE:WALL-OUTER
G0 X10 Y20 Z0.2
G1 X11 Y20 E0.5 ; first wall line
G1 X11 Y21 E1.0
;TYPE:FILL
G1 X12 Y22 E1.5
;LAYER:1
G1 Z0.4
;TYPE:SKIRT
";

#[test]
fn reads_blocks_by_state_change() {
    let code = parse_content(SAMPLE).unwrap();
    assert_eq!(code.len(), 2);

    // `;TYPE:FILL` names no print type, so it closes nothing.
    let first = &code[0];
    assert_eq!(first.range(), (0, 7));
    assert_eq!(first.state().layer, Some(0));
    assert_eq!(first.state().print_type, Some(PrintType::WallOuter));
    assert_eq!(first.instructions().len(), 4);
    assert_eq!(first.instructions()[0].to_gcode(), "G0 X10 Y20 Z0.2");
    assert_eq!(first.instructions()[1].to_gcode(), "G1 X11 Y20 E0.5");

    let second = &code[1];
    assert_eq!(second.range(), (8, 9));
    assert_eq!(second.state().layer, Some(1));
    assert_eq!(second.state().print_type, Some(PrintType::WallOuter));
    assert_eq!(second.instructions().len(), 1);
}

#[test]
fn rejected_state_change_keeps_the_block_open() {
    let code = parse_content("G1 X1\n;FILL\nG1 X2\n;MESH:part\nG1 X3\n").unwrap();
    assert_eq!(code.len(), 2);
    assert_eq!(code[0].instructions().len(), 2);
    assert_eq!(code[0].range(), (0, 2));
    assert_eq!(code[1].instructions().len(), 1);
    assert_eq!(code[1].range(), (3, 4));
    assert_eq!(code[1].state().mesh.as_deref(), Some("part"));
}

#[test]
fn last_block_is_closed_on_the_last_line() {
    let code = parse_content("G1 X1\nG1 X2").unwrap();
    assert_eq!(code.len(), 1);
    assert_eq!(code[0].range(), (0, 1));
    let read = code[0].instructions();
    assert_eq!(read.len(), 2);
    assert_eq!(*read[0].instruction_type(), InstructionType::G1);
    assert_eq!(read[0].movements().X.as_deref(), Some("1"));
    assert_eq!(read[1].movements().X.as_deref(), Some("2"));
}

#[test]
fn empty_text_has_no_blocks() {
    assert_eq!(parse_content("").unwrap().len(), 0);
    assert_eq!(parse_content("\n\n  \n").unwrap().len(), 0);
}

#[test]
fn block_ends_on_the_line_before_its_state_change() {
    let code = parse_content("G1 X1\r\nG1 X2\r\n;LAYER:4\r\nG1 X3 ;LAYER:5\r\nG0 X4\r\n;TYPE:SKIRT\n").unwrap();
    assert_eq!(code.len(), 3);
    assert_eq!(code[0].range(), (0, 1));
    assert_eq!(code[1].range(), (2, 2));
    assert_eq!(code[1].state().layer, Some(4));
    assert_eq!(code[2].range(), (3, 4));
    assert_eq!(code[2].state().layer, Some(5));
}

#[test]
fn unknown_command_words_are_skipped() {
    let code = parse_content("M104 S200\nT0\nG1 X1\n;LAYER:1\n").unwrap();
    assert_eq!(code.len(), 1);
    assert_eq!(code[0].instructions().len(), 1);
    assert_eq!(*code[0].instructions()[0].instruction_type(), InstructionType::G1);
}

#[test]
fn bad_movement_value_is_an_error_with_its_line() {
    match parse_content("G1 X1\nG1 Xabc\n") {
        Err(Error::GCodeParseError(message, line)) => {
            assert_eq!(message, "Invalid movement value: abc");
            assert_eq!(line, 1);
        }
        other => panic!("unexpected {:?}", other),
    }
}

#[test]
fn stand_alone_g_words_become_children() {
    let code = parse_content("G1 X1 G24 M30 M104\n").unwrap();
    let read = &code[0].instructions()[0];
    assert_eq!(read.child_instructions(), &vec![InstructionType::G24]);
    assert_eq!(read.movements().X.as_deref(), Some("1"));
    assert_eq!(read.to_gcode(), "G1 X1 G24");
}

#[test]
fn movement_values_are_kept_as_displayed() {
    let code = parse_content("G1 X1.50 Y+.5 Z1e3 E-0.000 F12.30E-1\n").unwrap();
    let read = &code[0].instructions()[0];
    assert_eq!(read.movements().X.as_deref(), Some("1.5"));
    assert_eq!(read.movements().Y.as_deref(), Some("0.5"));
    assert_eq!(read.movements().Z.as_deref(), Some("1000"));
    assert_eq!(read.movements().E.as_deref(), Some("-0"));
    assert_eq!(read.movements().F.as_deref(), Some("1.23"));
    assert_eq!(read.to_gcode(), "G1 X1.5 Y0.5 Z1000 E-0 F1.23");
}

#[test]
fn other_g_words_are_errors() {
    match parse_content("G1\nG1 G5\n") {
        Err(Error::UnknownInstructionType(message)) => {
            assert_eq!(message, "Unknown instruction type: G5");
        }
        other => panic!("unexpected {:?}", other),
    }
    match parse_content("G1\nG1 G0\n") {
        Err(Error::GCodeParseError(message, line)) => {
            assert_eq!(message, "Invalid instruction type: G0");
            assert_eq!(line, 1);
        }
        other => panic!("unexpected {:?}", other),
    }
}

#[test]
fn skipped_parameter_words() {
    let code = parse_content("G1 S100 M3 X5\n;TYPE:SKIRT\n").unwrap();
    let i = &code[0].instructions()[0];
    assert_eq!(i.movements().X.as_deref(), Some("5"));
    assert_eq!(i.movements().Y, None);
}

#[test]
fn panicking_inputs_are_reported_as_none() {
    assert!(read_content("G1 X1 ;LAYER:2\n").is_none());
    assert!(read_content("G1 \u{e9}1\n").is_none());
    assert!(read_content(";TYPE:\n").is_none());
    assert!(read_content(";TYPE: \u{e9}x\n").is_none());
    assert!(read_content("G1 X1 ;LAYER:2\n;x\n").is_none());
    assert!(matches!(read_content("G1 X1\n;LAYER:2\n"), Some(Ok(_))));
}

#[test]
fn state_changes() {
    let mut state = State::empty();
    assert!(state.parse("LAYER:12".to_string()).is_ok());
    assert_eq!(state.layer, Some(12));
    assert!(state.parse("TYPE:external perimeter".to_string()).is_ok());
    assert_eq!(state.print_type, Some(PrintType::ExternalPerimeter));
    assert!(state.parse("TYPE: wall-inner ".to_string()).is_ok());
    assert_eq!(state.print_type, Some(PrintType::WallInner));
    assert!(state.parse("MESH:cube.stl".to_string()).is_ok());
    assert_eq!(state.mesh.as_deref(), Some("cube.stl"));
    assert_eq!(state.layer, Some(12));
}

#[test]
fn state_change_errors() {
    let mut state = State::empty();
    let message = |r: Result<(), Error>| match r {
        Err(Error::GCodeStateParseError(m)) => m,
        other => panic!("unexpected {:?}", other),
    };
    assert_eq!(message(state.parse("LAYER".to_string())), "Invalid State Change");
    assert_eq!(message(state.parse("LAYER:x".to_string())), "Invalid Layer");
    assert_eq!(message(state.parse("LAYER:-1".to_string())), "Invalid Layer");
    assert_eq!(message(state.parse("TYPE:FILL".to_string())), "Invalid Print Type");
    assert_eq!(message(state.parse("FLAVOR:Marlin".to_string())), "Invalid GCodeState Type");
    assert_eq!(state.layer, None);
    assert_eq!(state.print_type, None);
}

#[test]
fn state_field_values() {
    match StateField::try_from_string("LAYER:+7:rest".to_string()) {
        Ok(StateField::LAYER(n)) => assert_eq!(n, 7),
        other => panic!("unexpected {:?}", other),
    }
    match StateField::try_from_string("TYPE:Bridge-infill".to_string()) {
        Ok(StateField::TYPE(t)) => assert_eq!(t, PrintType::BridgeInfill),
        other => panic!("unexpected {:?}", other),
    }
    assert!(StateField::read_chars(&chars("TYPE:")).is_none());
}

#[test]
fn comment_to_state_leaves_the_given_state() {
    let mut base = State::empty();
    base.parse("LAYER:3".to_string()).unwrap();
    let next = parse_comment_to_state(&chars("TYPE:SUPPORT"), base.duplicate()).unwrap();
    assert_eq!(next.layer, Some(3));
    assert_eq!(next.print_type, Some(PrintType::Support));
    assert_eq!(base.print_type, None);
    assert!(parse_comment_into_state(&chars("LAYER:9"), &mut base).is_ok());
    assert_eq!(base.layer, Some(9));
}

#[test]
fn parameters_are_read_into_children_and_movements() {
    let words: Vec<Vec<char>> = vec![chars("G1"), chars("X1.5"), chars("M3"), chars("F1200")];
    let mut children = Vec::new();
    let mut movements = Movements::new();
    compute_parameters(&words, 1, &mut children, &mut movements, 0).unwrap();
    assert!(children.is_empty());
    assert_eq!(movements.X.as_deref(), Some("1.5"));
    assert_eq!(movements.F.as_deref(), Some("1200"));

    let words: Vec<Vec<char>> = vec![chars("X1"), chars("G24")];
    let mut children = Vec::new();
    let mut movements = Movements::new();
    compute_parameters(&words, 0, &mut children, &mut movements, 0).unwrap();
    assert_eq!(children, vec![InstructionType::G24]);
    assert_eq!(movements.X.as_deref(), Some("1"));

    // The words before a failing one stay read.
    let words: Vec<Vec<char>> = vec![chars("X1"), chars("G24"), chars("Yabc"), chars("Z2")];
    let mut children = Vec::new();
    let mut movements = Movements::new();
    match compute_parameters(&words, 0, &mut children, &mut movements, 6) {
        Err(Error::GCodeParseError(message, line)) => {
            assert_eq!(message, "Invalid movement value: abc");
            assert_eq!(line, 6);
        }
        other => panic!("unexpected {:?}", other),
    }
    assert_eq!(children, vec![InstructionType::G24]);
    assert_eq!(movements.X.as_deref(), Some("1"));
    assert_eq!(movements.Z, None);

    let bad: Vec<Vec<char>> = vec![chars("\u{e9}")];
    let mut children = Vec::new();
    let mut movements = Movements::new();
    assert!(read_parameters(&bad, 0, &mut children, &mut movements, 0).is_none());
}

#[test]
fn written_instruction_is_read_back() {
    let mut movements = Movements::new();
    movements.set_movement("X", "1.5".to_string());
    movements.set_movement("E", "-0.25".to_string());
    movements.set_movement("Z", "1000".to_string());
    let instruction = Instruction::new(InstructionType::G1, vec![InstructionType::G24], movements);
    let line = instruction.to_gcode();
    assert_eq!(line, "G1 X1.5 Z1000 E-0.25 G24");
    let code = parse_content(&format!("{}\n;LAYER:1\n", line)).unwrap();
    let read = &code[0].instructions()[0];
    assert_eq!(read.to_gcode(), line);
    assert_eq!(read.child_instructions(), &vec![InstructionType::G24]);
}

fn shown(s: &str) -> String {
    display_float(&chars(s)).into_iter().collect()
}

#[test]
fn float_texts_as_display_writes_them() {
    for (literal, value) in [
        ("1.50", 1.50f64),
        ("+3", 3.0),
        (".25", 0.25),
        ("100", 100.0),
        ("1e3", 1e3),
        ("12.3400e-2", 12.34e-2),
        ("-0.0", -0.0),
        ("0", 0.0),
        ("1E-7", 1e-7),
        ("123456789012345", 123456789012345.0),
        ("9.5e20", 9.5e20),
        ("-inf", f64::NEG_INFINITY),
        ("Infinity", f64::INFINITY),
    ] {
        assert_eq!(shown(literal), format!("{}", value), "{}", literal);
    }
    assert_eq!(shown("-NaN"), "NaN");
    // Too many digits or out of range: kept as written.
    assert_eq!(shown("0.12345678901234567"), "0.12345678901234567");
    assert_eq!(shown("1e400"), "1e400");
}

#[test]
fn float_texts_agree_with_display_over_many_literals() {
    let mut checked = 0;
    for mantissa in ["0", "7", "10", "105", "3.25", "0.0040", "123456.789", "999999999999999", ".000123"] {
        for exponent in [-320, -307, -30, -5, -1, 0, 1, 4, 17, 30, 300, 307, 320] {
            for sign in ["", "-", "+"] {
                let literal = format!("{}{}e{}", sign, mantissa, exponent);
                let value: f64 = literal.parse().unwrap();
                let written = shown(&literal);
                if written != literal {
                    assert_eq!(written, format!("{}", value), "{}", literal);
                    checked += 1;
                }
            }
        }
    }
    assert!(checked > 200);
    assert_eq!(shown("1e-307"), format!("{}", 1e-307f64));
    assert_eq!(shown("9.99999999999999e307"), format!("{}", 9.99999999999999e307f64));
}
