use fiberslice::settings::tree::{RawSetting, SettingTree, TreeNode};

#[derive(Debug, Clone, PartialEq)]
enum NodeValue {
    Text(String),
    Float(f32),
    Bool(bool),
}

fn value(weight: usize, description: &str, unit: Option<&str>, value: NodeValue, changed: bool) -> TreeNode<NodeValue> {
    TreeNode::Value {
        changed,
        is_not_default: false,
        weight,
        value,
        description: description.to_string(),
        unit: unit.map(|u| u.to_string()),
    }
}

fn branch(weight: usize, description: &str, changed: bool) -> TreeNode<NodeValue> {
    TreeNode::Branch {
        changed,
        weight,
        children: Vec::new(),
        description: description.to_string(),
    }
}

fn create_test_tree() -> SettingTree<NodeValue> {
    let mut tree = SettingTree::new();
    let mut general = branch(0, "General", false);
    general.add("z_offset", value(0, "Z Offset", Some("mm"), NodeValue::Float(0.0), false));
    tree.add("general", general);
    let mut limits = branch(1, "Limits", false);
    let mut max_feedrates = branch(0, "Max Feedrates", false);
    max_feedrates.add("movements_x", value(0, "X", Some("mm/s"), NodeValue::Float(0.0), false));
    max_feedrates.add("movements_y", value(1, "Y", Some("mm/s"), NodeValue::Float(0.0), false));
    max_feedrates.add("movements_z", value(2, "Z", Some("mm/s"), NodeValue::Float(0.0), false));
    limits.add("max_feedrates", max_feedrates);
    tree.add("limits", limits);
    tree
}

#[test]
fn setup() {}

#[test]
fn collects_every_value_at_its_dotted_path() {
    let tree = create_test_tree();
    let raw = tree.collect_values(false);
    let paths: Vec<&str> = raw.iter().map(|(p, _)| p.as_str()).collect();
    assert_eq!(
        paths,
        vec![
            "general.z_offset",
            "limits.max_feedrates.movements_x",
            "limits.max_feedrates.movements_y",
            "limits.max_feedrates.movements_z",
        ]
    );
    let (_, y) = &raw[2];
    assert_eq!(y.weight, 1);
    assert_eq!(y.description, "Y");
    assert_eq!(y.unit.as_deref(), Some("mm/s"));
    assert_eq!(y.value, NodeValue::Float(0.0));
}

#[test]
fn collects_only_through_changed_nodes() {
    let mut tree = SettingTree::new();
    let mut a = branch(0, "A", true);
    a.add("x", value(0, "X", None, NodeValue::Bool(true), true));
    a.add("y", value(1, "Y", None, NodeValue::Bool(false), false));
    tree.add("a", a);
    let mut b = branch(1, "B", false);
    b.add("z", value(0, "Z", None, NodeValue::Text("z".to_string()), true));
    tree.add("b", b);
    let changed = tree.collect_values(true);
    assert_eq!(changed.len(), 1);
    assert_eq!(changed[0].0, "a.x");
    assert_eq!(changed[0].1.value, NodeValue::Bool(true));
    assert_eq!(tree.collect_values(false).len(), 3);
}

#[test]
fn adding_under_an_existing_name_replaces_the_child() {
    let mut tree = SettingTree::new();
    tree.add("speed", value(0, "Speed", None, NodeValue::Float(1.0), false));
    tree.add("fan", value(1, "Fan", None, NodeValue::Bool(true), false));
    tree.add("speed", value(2, "Speed", None, NodeValue::Float(2.0), false));
    assert_eq!(tree.root_children().len(), 2);
    assert_eq!(tree.root_children()[0].0, "speed");
    assert_eq!(tree.root_children()[0].1.weight(), 2);
    let raw = tree.collect_values(false);
    assert_eq!(raw[0].1.value, NodeValue::Float(2.0));
}

#[test]
fn test_from_into_raw() {
    let mut raw = std::collections::HashMap::new();
    raw.insert(
        "general.nice.huhu".to_string(),
        RawSetting {
            weight: 0,
            value: NodeValue::Float(0.0),
            description: "Z Huhu".to_string(),
            unit: Some("mm".to_string()),
        },
    );

    raw.insert(
        "general.nice2.dir.nextval".to_string(),
        RawSetting {
            weight: 0,
            value: NodeValue::Float(0.0),
            description: "Z Haha".to_string(),
            unit: Some("mm".to_string()),
        },
    );

    raw.insert(
        "general1.nice2.haha4".to_string(),
        RawSetting {
            weight: 0,
            value: NodeValue::Float(0.0),
            description: "Z Haha4".to_string(),
            unit: Some("mm".to_string()),
        },
    );
    assert_eq!(raw.len(), 3);
    assert_eq!(raw["general1.nice2.haha4"].description, "Z Haha4");
}
