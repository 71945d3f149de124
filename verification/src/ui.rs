//! What the user interface is told and how it looks.
use vstd::prelude::*;

verus! {

/// A message for the user interface. `S` is the section of G-code text that
/// `FocusGCode` brings into view.
#[derive(Debug, Clone)]
pub enum UiEvent<S> {
    ShowInfo(String),
    ShowSuccess(String),
    ShowError(String),
    ShowProgressBar(u32, String),
    FocusGCode(S),
}

/// The colour theme of the user interface.
#[derive(Debug, Clone, Copy, PartialEq, Eq, Structural)]
pub enum Theme {
    Light,
    Dark,
}

impl Theme {
    /// The other theme: what toggling the theme switches to.
    pub fn toggled(&self) -> (r: Theme)
        ensures
            r == toggled_theme(*self),
    {
        match self {
            Theme::Light => Theme::Dark,
            Theme::Dark => Theme::Light,
        }
    }
}

/// The theme that toggling switches to from `t`.
pub open spec fn toggled_theme(t: Theme) -> Theme {
    match t {
        Theme::Light => Theme::Dark,
        Theme::Dark => Theme::Light,
    }
}

/// Law: toggling the theme twice gives back the theme, and toggling always changes it.
pub proof fn law_toggle_theme_twice(t: Theme)
    ensures
        toggled_theme(toggled_theme(t)) == t,
        toggled_theme(t) != t,
{
}

/// A part of the user interface that lies within a boundary and can be switched off.
pub trait ComponentState {
    /// Where the component lies.
    type Boundary;

    fn get_boundary(&self) -> Self::Boundary;

    fn get_enabled(&mut self) -> &mut bool;

    /// The component's name; unless an implementation says otherwise, `"Component"`.
    fn get_name(&self) -> (r: &str)
        default_ensures
            r@ == "Component"@,
    {
        "Component"
    }
}

} // verus!
