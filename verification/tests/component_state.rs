use fiberslice::ui::ComponentState;

struct Panel {
    enabled: bool,
}

impl ComponentState for Panel {
    type Boundary = (u32, u32);

    fn get_boundary(&self) -> (u32, u32) {
        (0, 0)
    }

    fn get_enabled(&mut self) -> &mut bool {
        &mut self.enabled
    }
}

#[test]
fn component_name_defaults_to_component() {
    let mut panel = Panel { enabled: true };
    assert_eq!(panel.get_name(), "Component");
    *panel.get_enabled() = false;
    assert!(!panel.enabled);
    assert_eq!(panel.get_boundary(), (0, 0));
}
