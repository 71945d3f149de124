//! The axis parameters of a G-code command.
use vstd::prelude::*;
use crate::text::{chars_of, eq_str};
use super::{SourceBuilder, joined, pushed_all, fresh_source};

verus! {

/// The parameters `X`, `Y`, `Z`, `E` and `F` of a command, each kept as the decimal text of
/// its value. The reader keeps the text that `Display` writes for the `f64` of the G-code's
/// literal (`X1.50` is kept as `1.5`); [`Movements::set_movement`] keeps the text it is
/// given. [`Movements::to_gcode`] writes each value as it is kept.
#[allow(non_snake_case)]
#[derive(Debug)]
pub struct Movements {
    pub X: Option<String>,
    pub Y: Option<String>,
    pub Z: Option<String>,
    pub E: Option<String>,
    pub F: Option<String>,
}

pub struct MovementsView {
    pub x: Option<Seq<char>>,
    pub y: Option<Seq<char>>,
    pub z: Option<Seq<char>>,
    pub e: Option<Seq<char>>,
    pub f: Option<Seq<char>>,
}

pub open spec fn opt_text(o: Option<String>) -> Option<Seq<char>> {
    match o {
        Some(s) => Some(s@),
        None => None,
    }
}

impl View for Movements {
    type V = MovementsView;

    open spec fn view(&self) -> MovementsView {
        MovementsView {
            x: opt_text(self.X),
            y: opt_text(self.Y),
            z: opt_text(self.Z),
            e: opt_text(self.E),
            f: opt_text(self.F),
        }
    }
}

impl MovementsView {
    pub open spec fn empty() -> MovementsView {
        MovementsView { x: None, y: None, z: None, e: None, f: None }
    }
}

/// Whether `name` is one of the movement parameters `X`, `Y`, `Z`, `E`, `F`.
pub open spec fn is_movement_name(name: Seq<char>) -> bool {
    name == "X"@ || name == "Y"@ || name == "Z"@ || name == "E"@ || name == "F"@
}

/// The parameters after setting `name` to `value`; any other name changes nothing.
pub open spec fn with_movement(m: MovementsView, name: Seq<char>, value: Seq<char>) -> MovementsView {
    if name == "X"@ {
        MovementsView { x: Some(value), ..m }
    } else if name == "Y"@ {
        MovementsView { y: Some(value), ..m }
    } else if name == "Z"@ {
        MovementsView { z: Some(value), ..m }
    } else if name == "E"@ {
        MovementsView { e: Some(value), ..m }
    } else if name == "F"@ {
        MovementsView { f: Some(value), ..m }
    } else {
        m
    }
}

pub open spec fn overlay_one(base: Option<Seq<char>>, top: Option<Seq<char>>) -> Option<Seq<char>> {
    match top {
        Some(v) => Some(v),
        None => base,
    }
}

/// `base` with every parameter that `top` sets taken from `top`.
pub open spec fn overlay(base: MovementsView, top: MovementsView) -> MovementsView {
    MovementsView {
        x: overlay_one(base.x, top.x),
        y: overlay_one(base.y, top.y),
        z: overlay_one(base.z, top.z),
        e: overlay_one(base.e, top.e),
        f: overlay_one(base.f, top.f),
    }
}

pub open spec fn token_of(name: Seq<char>, value: Option<Seq<char>>) -> Seq<Seq<char>> {
    match value {
        Some(v) => seq![name + v],
        None => seq![],
    }
}

/// The G-code words of the parameters that are set, in the order X, Y, Z, E, F.
pub open spec fn movement_tokens(m: MovementsView) -> Seq<Seq<char>> {
    token_of("X"@, m.x) + token_of("Y"@, m.y) + token_of("Z"@, m.z) + token_of("E"@, m.e)
        + token_of("F"@, m.f)
}

/// Every word of the parameters is non-empty: it starts with the parameter's name.
pub proof fn lemma_movement_tokens_nonempty(m: MovementsView)
    ensures
        forall|k: int|
            0 <= k < movement_tokens(m).len() ==> (#[trigger] movement_tokens(m)[k]).len() > 0,
{
    reveal_strlit("X");
    reveal_strlit("Y");
    reveal_strlit("Z");
    reveal_strlit("E");
    reveal_strlit("F");
    let tx = token_of("X"@, m.x);
    let ty = token_of("Y"@, m.y);
    let tz = token_of("Z"@, m.z);
    let te = token_of("E"@, m.e);
    let tf = token_of("F"@, m.f);
    let all = movement_tokens(m);
    assert forall|k: int| 0 <= k < all.len() implies (#[trigger] all[k]).len() > 0 by {
        if k < tx.len() {
            assert(all[k] == tx[k]);
        } else if k < tx.len() + ty.len() {
            assert(all[k] == ty[k - tx.len()]);
        } else if k < tx.len() + ty.len() + tz.len() {
            assert(all[k] == tz[k - tx.len() - ty.len()]);
        } else if k < tx.len() + ty.len() + tz.len() + te.len() {
            assert(all[k] == te[k - tx.len() - ty.len() - tz.len()]);
        } else {
            assert(all[k] == tf[k - tx.len() - ty.len() - tz.len() - te.len()]);
        }
    }
}

fn copy_text(o: &Option<String>) -> (r: Option<String>)
    ensures
        opt_text(r) == opt_text(*o),
{
    match o {
        Some(s) => Some(s.clone()),
        None => None,
    }
}

impl Movements {
    pub fn new() -> (r: Self)
        ensures
            r@ == MovementsView::empty(),
    {
        Movements { X: None, Y: None, Z: None, E: None, F: None }
    }

    /// A copy with the same parameters.
    pub fn duplicate(&self) -> (r: Self)
        ensures
            r@ == self@,
    {
        Movements {
            X: copy_text(&self.X),
            Y: copy_text(&self.Y),
            Z: copy_text(&self.Z),
            E: copy_text(&self.E),
            F: copy_text(&self.F),
        }
    }

    pub fn is_movement(movement_str: &str) -> (r: bool)
        ensures
            r == is_movement_name(movement_str@),
    {
        let v = chars_of(movement_str);
        Movements::is_movement_chars(&v)
    }

    pub fn is_movement_chars(name: &Vec<char>) -> (r: bool)
        ensures
            r == is_movement_name(name@),
    {
        eq_str(name, "X") || eq_str(name, "Y") || eq_str(name, "Z") || eq_str(name, "E") || eq_str(
            name,
            "F",
        )
    }

    pub fn set_movement(&mut self, movement_str: &str, value: String)
        ensures
            final(self)@ == with_movement(old(self)@, movement_str@, value@),
    {
        let v = chars_of(movement_str);
        self.set_movement_chars(&v, value);
    }

    pub fn set_movement_chars(&mut self, name: &Vec<char>, value: String)
        ensures
            final(self)@ == with_movement(old(self)@, name@, value@),
    {
        if eq_str(name, "X") {
            self.X = Some(value);
        } else if eq_str(name, "Y") {
            self.Y = Some(value);
        } else if eq_str(name, "Z") {
            self.Z = Some(value);
        } else if eq_str(name, "E") {
            self.E = Some(value);
        } else if eq_str(name, "F") {
            self.F = Some(value);
        }
    }

    /// Takes over every parameter that `movements` sets.
    pub fn add_movements(&mut self, movements: &Movements)
        ensures
            final(self)@ == overlay(old(self)@, movements@),
    {
        if let Some(x) = &movements.X {
            self.X = Some(x.clone());
        }
        if let Some(y) = &movements.Y {
            self.Y = Some(y.clone());
        }
        if let Some(z) = &movements.Z {
            self.Z = Some(z.clone());
        }
        if let Some(e) = &movements.E {
            self.E = Some(e.clone());
        }
        if let Some(f) = &movements.F {
            self.F = Some(f.clone());
        }
    }

    /// The G-code words of the set parameters, separated by single spaces.
    pub fn to_gcode(&self) -> (r: String)
        ensures
            r@ == joined(movement_tokens(self@)),
    {
        let mut builder = SourceBuilder::new();
        builder.push_movements(self);
        proof {
            super::law_builder_joins(movement_tokens(self@));
        }
        builder.finish()
    }
}

/// Law: taking over parameters is associative.
pub proof fn law_overlay_associative(a: MovementsView, b: MovementsView, c: MovementsView)
    ensures
        overlay(overlay(a, b), c) == overlay(a, overlay(b, c)),
{
}

/// Law: taking over the same parameters twice changes nothing the second time.
pub proof fn law_overlay_idempotent(a: MovementsView, b: MovementsView)
    ensures
        overlay(overlay(a, b), b) == overlay(a, b),
{
}

/// Law: parameters with nothing set change nothing, and taking them over from an empty base
/// gives them back.
pub proof fn law_overlay_empty(a: MovementsView)
    ensures
        overlay(a, MovementsView::empty()) == a,
        overlay(MovementsView::empty(), a) == a,
{
}

/// Law: taking over the parameters of `top` replaces each parameter that `top` sets with
/// its value, and keeps each parameter that `top` does not set as it was in `base`.
pub proof fn law_overlay_takes_set_values(base: MovementsView, top: MovementsView)
    ensures
        top.x matches Some(v) ==> overlay(base, top).x == Some(v),
        top.y matches Some(v) ==> overlay(base, top).y == Some(v),
        top.z matches Some(v) ==> overlay(base, top).z == Some(v),
        top.e matches Some(v) ==> overlay(base, top).e == Some(v),
        top.f matches Some(v) ==> overlay(base, top).f == Some(v),
        top.x is None ==> overlay(base, top).x == base.x,
        top.y is None ==> overlay(base, top).y == base.y,
        top.z is None ==> overlay(base, top).z == base.z,
        top.e is None ==> overlay(base, top).e == base.e,
        top.f is None ==> overlay(base, top).f == base.f,
{
}

/// Law: setting a parameter by its name gives it that value and leaves the others as they
/// were; a name that is no parameter changes nothing.
pub proof fn law_with_movement_sets_named(m: MovementsView, value: Seq<char>)
    ensures
        with_movement(m, "X"@, value) == (MovementsView { x: Some(value), ..m }),
        with_movement(m, "Y"@, value) == (MovementsView { y: Some(value), ..m }),
        with_movement(m, "Z"@, value) == (MovementsView { z: Some(value), ..m }),
        with_movement(m, "E"@, value) == (MovementsView { e: Some(value), ..m }),
        with_movement(m, "F"@, value) == (MovementsView { f: Some(value), ..m }),
        forall|name: Seq<char>| !is_movement_name(name) ==> #[trigger] with_movement(m, name, value) == m,
{
    reveal_strlit("X");
    reveal_strlit("Y");
    reveal_strlit("Z");
    reveal_strlit("E");
    reveal_strlit("F");
    assert("Y"@[0] != "X"@[0]);
    assert("Z"@[0] != "X"@[0] && "Z"@[0] != "Y"@[0]);
    assert("E"@[0] != "X"@[0] && "E"@[0] != "Y"@[0] && "E"@[0] != "Z"@[0]);
    assert("F"@[0] != "X"@[0] && "F"@[0] != "Y"@[0] && "F"@[0] != "Z"@[0] && "F"@[0] != "E"@[0]);
}

} // verus!
