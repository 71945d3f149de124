use fiberslice::gcode::instruction::{InstructionModul, InstructionType};
use fiberslice::gcode::mesh::{plan_path_mesh, MeshPiece};
use fiberslice::settings::tree::{SettingTree, TreeNode};
use fiberslice::gcode::movement::Movements;
use fiberslice::gcode::path::{layers_of, PathModul};
use fiberslice::gcode::state::State;
use fiberslice::gcode::SourceBuilder;
use fiberslice::layer::{MeshRange, PartCoordinator};
use fiberslice::number::{is_float_text, parse_usize};
use fiberslice::picking::{PickingState, PointerButton};
use fiberslice::prelude::shared::{UnparallelShared, UnparallelSharedMut};
use fiberslice::prelude::wrap::WrappedShared;
use fiberslice::settings::filament::{Enable, FilamentType};
use fiberslice::slicer::print_type::PrintType;
use fiberslice::tools::Tool;
use fiberslice::ui::Theme;

fn chars(s: &str) -> Vec<char> {
    s.chars().collect()
}

fn state_at(layer: Option<usize>) -> State {
    let mut s = State::empty();
    if let Some(l) = layer {
        s.parse(format!("LAYER:{}", l)).unwrap();
    }
    s
}

#[test]
fn blocks_are_grouped_by_layer_in_order() {
    let moduls = vec![
        PathModul::new(vec!["a"], (0, 1), state_at(Some(2))),
        PathModul::new(vec!["b"], (2, 3), state_at(None)),
        PathModul::new(vec!["c"], (4, 5), state_at(Some(2))),
        PathModul::new(vec!["d"], (6, 7), state_at(Some(0))),
    ];
    let layers = layers_of(moduls);
    assert_eq!(layers.len(), 2);
    let two: Vec<&str> = layers[&2].iter().map(|m| m.paths[0]).collect();
    assert_eq!(two, vec!["a", "c"]);
    let zero: Vec<(usize, usize)> = layers[&0].iter().map(|m| m.line_range).collect();
    assert_eq!(zero, vec![(2, 3), (6, 7)]);
}

#[test]
fn part_meshes_follow_one_another() {
    let mut coordinator = PartCoordinator::new();
    coordinator.add_triangle();
    coordinator.add_triangle();
    coordinator.next_part_meshref(state_at(Some(1)), (0, 4)).unwrap();
    coordinator.add_triangle();
    coordinator.next_part_meshref(state_at(Some(9)), (5, 6)).unwrap();
    coordinator.finish().unwrap();
    let parts = coordinator.child_models();
    assert_eq!(parts.len(), 1);
    assert_eq!(
        parts[0].child_meshes(),
        &vec![MeshRange { start: 0, end: 6 }, MeshRange { start: 6, end: 9 }]
    );
    assert_eq!(parts[0].main, Some(MeshRange { start: 0, end: 9 }));
    assert_eq!(parts[0].line_range(), (0, 4));
    assert_eq!(parts[0].state().layer, Some(1));
    coordinator.add_triangle();
    coordinator.finish().unwrap();
    assert_eq!(coordinator.child_models()[0].main, Some(MeshRange { start: 9, end: 12 }));
}

#[test]
fn drag_flags_and_picking() {
    let mut state = PickingState::new();
    assert!(!state.handle_mouse_input(PointerButton::Left, true, false, false, true));
    assert!(!state.is_drag_left());
    assert!(state.handle_mouse_input(PointerButton::Left, true, false, true, true));
    assert!(state.is_drag_left());
    assert!(!state.handle_mouse_input(PointerButton::Right, true, true, true, true));
    assert!(state.is_drag_right());
    assert_eq!(state.drags_on_motion(false), (true, true));
    assert_eq!(state.drags_on_motion(true), (false, false));
    assert!(!state.handle_mouse_input(PointerButton::Left, false, false, true, true));
    assert!(!state.is_drag_left());
    assert!(!state.handle_mouse_input(PointerButton::Other, true, false, true, false));
    assert!(state.is_drag_right());
}

#[test]
fn theme_toggles_back_and_forth() {
    assert_eq!(Theme::Light.toggled(), Theme::Dark);
    assert_eq!(Theme::Dark.toggled(), Theme::Light);
    assert_eq!(Theme::Light.toggled().toggled(), Theme::Light);
}

#[test]
fn enumerations_and_defaults() {
    assert_eq!(Tool::iter(), vec![Tool::List, Tool::Measure, Tool::Intersection]);
    assert_eq!(Tool::iter().len(), Tool::COUNT);
    assert_eq!(FilamentType::default(), FilamentType::PLA);
    assert_eq!(FilamentType::iter(), vec![FilamentType::PLA, FilamentType::ABS]);
    let enable = Enable::default();
    assert!(!enable.fan_always_on && !enable.enable_auto_cooling);
}

#[test]
fn print_type_names_and_colors() {
    assert_eq!(PrintType::WallOuter.name(), "WallOuter");
    assert_eq!(PrintType::from_name("ExternalPerimeter"), Some(PrintType::ExternalPerimeter));
    assert_eq!(PrintType::from_name("external perimeter"), None);
    assert_eq!(PrintType::TopSolidInfill.rgba(), [130, 130, 0, 255]);
    assert_ne!(PrintType::Skin.rgba(), PrintType::SolidInfill.rgba());
    assert_ne!(PrintType::WallOuter.rgba(), PrintType::WallInner.rgba());
    let all = [
        PrintType::InternalInfill,
        PrintType::SolidInfill,
        PrintType::Skin,
        PrintType::BridgeInfill,
        PrintType::TopSolidInfill,
        PrintType::Skirt,
        PrintType::Brim,
        PrintType::Support,
        PrintType::Perimeter,
        PrintType::ExternalPerimeter,
        PrintType::OverhangPerimeter,
        PrintType::WallOuter,
        PrintType::WallInner,
        PrintType::Unknown,
    ];
    for (i, a) in all.iter().enumerate() {
        for b in all.iter().skip(i + 1) {
            assert_ne!(a.rgba(), b.rgba(), "{:?} and {:?}", a, b);
        }
    }
    assert_eq!(PrintType::Unknown.rgba(), [0, 0, 0, 255]);
    assert_eq!(PrintType::COUNT, 14);
}

#[test]
fn movements_take_over_set_parameters() {
    let mut current = Movements::new();
    current.set_movement("X", "1".to_string());
    current.set_movement("Y", "2".to_string());
    let mut next = Movements::new();
    next.set_movement("Y", "3".to_string());
    next.set_movement("E", "0.1".to_string());
    next.set_movement("Q", "9".to_string());
    current.add_movements(&next);
    assert_eq!(current.to_gcode(), "X1 Y3 E0.1");
    assert!(Movements::is_movement("F"));
    assert!(!Movements::is_movement("G"));
    assert_eq!(Movements::new().to_gcode(), "");
}

#[test]
fn source_builder_joins_words() {
    let mut builder = SourceBuilder::new();
    builder.push_instruction(InstructionType::G24);
    builder.push_movement("X", "4");
    builder.push_instruction(InstructionType::M30);
    assert_eq!(builder.finish(), "G24 X4 M30");
    assert_eq!(SourceBuilder::new().finish(), "");
}

#[test]
fn pushing_movements_appends_their_gcode() {
    let mut movements = Movements::new();
    movements.set_movement("Y", "2".to_string());
    movements.set_movement("X", "1".to_string());

    let mut builder = SourceBuilder::new();
    builder.push_movements(&movements);
    assert_eq!(builder.finish(), movements.to_gcode());

    let mut builder = SourceBuilder::new();
    builder.push_instruction(InstructionType::G1);
    builder.push_movements(&movements);
    assert_eq!(builder.finish(), format!("G1 {}", movements.to_gcode()));

    let mut builder = SourceBuilder::new();
    builder.push_instruction(InstructionType::G1);
    builder.push_movements(&Movements::new());
    assert_eq!(builder.finish(), "G1");
}

#[test]
fn instruction_types() {
    assert!(InstructionType::G24.is_stand_alone());
    assert!(!InstructionType::G1.is_stand_alone());
    assert_eq!(InstructionType::try_from_str("M30").unwrap(), InstructionType::M30);
    match InstructionType::try_from_str("G2") {
        Err(fiberslice::error::Error::UnknownInstructionType(m)) => {
            assert_eq!(m, "Unknown instruction type: G2")
        }
        other => panic!("unexpected {:?}", other),
    }
    let mut modul = InstructionModul::new(3, State::empty());
    assert!(modul.is_empty());
    assert_eq!(modul.range(), (3, 3));
    modul.finish(8);
    assert_eq!(modul.range(), (3, 8));
}

#[test]
fn numbers() {
    assert_eq!(parse_usize(&chars("42")), Some(42));
    assert_eq!(parse_usize(&chars("+7")), Some(7));
    assert_eq!(parse_usize(&chars("")), None);
    assert_eq!(parse_usize(&chars("18446744073709551616")), None);
    assert!(is_float_text(&chars("-1.5e3")));
    assert!(is_float_text(&chars(".5")));
    assert!(is_float_text(&chars("5.")));
    assert!(is_float_text(&chars("INF")));
    assert!(is_float_text(&chars("+nan")));
    assert!(!is_float_text(&chars(".")));
    assert!(!is_float_text(&chars("1e")));
    assert!(!is_float_text(&chars("0x10")));
    assert!(!is_float_text(&chars(" 1")));
    assert_eq!("-1.5e3".parse::<f64>().is_ok(), true);
}

#[test]
fn shared_values() {
    let shared = UnparallelShared::from_inner(5);
    let other = shared.clone();
    assert_eq!(*other.inner(), 5);
    let cell = UnparallelSharedMut::from_inner(vec![1]);
    let other_cell = cell.clone();
    other_cell.inner().borrow_mut().push(2);
    assert_eq!(*cell.inner().borrow(), vec![1, 2]);
    let wrapped = WrappedShared::from_inner("text");
    assert_eq!(*wrapped.inner(), "text");
}

#[test]
fn path_mesh_plan() {
    let plan = plan_path_mesh(&vec![true, true, false, true]);
    assert_eq!(
        plan.pieces,
        vec![
            MeshPiece::StartCap(0),
            MeshPiece::Segment(0),
            MeshPiece::Connection(0, 1),
            MeshPiece::Segment(1),
            MeshPiece::EndCap(1),
            MeshPiece::EndCap(3),
            MeshPiece::StartCap(3),
            MeshPiece::Segment(3),
        ]
    );
    assert_eq!(plan.offsets, vec![72, 78]);
    assert!(plan_path_mesh(&Vec::new()).pieces.is_empty());
    let single = plan_path_mesh(&vec![false]);
    assert_eq!(single.pieces, vec![MeshPiece::EndCap(0)]);
    assert_eq!(single.offsets, vec![6]);
}

#[test]
fn tree_from_roots() {
    let tree: SettingTree<u8> = SettingTree::from_roots(vec![(
        "a".to_string(),
        TreeNode::Value {
            changed: false,
            is_not_default: false,
            weight: 0,
            value: 1,
            description: "A".to_string(),
            unit: None,
        },
    )]);
    let raw = tree.collect_values(false);
    assert_eq!(raw.len(), 1);
    assert_eq!(raw[0].0, "a");
    assert_eq!(raw[0].1.value, 1);
}

#[test]
fn names_are_read_back() {
    let all = [
        PrintType::InternalInfill,
        PrintType::SolidInfill,
        PrintType::Skin,
        PrintType::BridgeInfill,
        PrintType::TopSolidInfill,
        PrintType::Skirt,
        PrintType::Brim,
        PrintType::Support,
        PrintType::Perimeter,
        PrintType::ExternalPerimeter,
        PrintType::OverhangPerimeter,
        PrintType::WallOuter,
        PrintType::WallInner,
        PrintType::Unknown,
    ];
    assert_eq!(all.len(), PrintType::COUNT);
    for t in all {
        assert_eq!(PrintType::from_name(t.name()), Some(t));
    }
    for t in [InstructionType::G1, InstructionType::G0, InstructionType::G24, InstructionType::M30] {
        assert_eq!(InstructionType::try_from_str(t.name()).unwrap(), t);
    }
    for n in [0usize, 7, 10, 99, 12345, usize::MAX] {
        assert_eq!(parse_usize(&chars(&n.to_string())), Some(n));
        let mut state = State::empty();
        state.parse(format!("LAYER:{}", n)).unwrap();
        assert_eq!(state.layer, Some(n));
    }
}
