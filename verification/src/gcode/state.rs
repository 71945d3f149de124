//! The print state that G-code comments such as `;LAYER:3` or `;TYPE:WALL-OUTER` set.
use vstd::prelude::*;
use crate::error::{Error, ErrorView};
use crate::number::{decimal, law_parse_usize_decimal, parse_usize, parse_usize_spec};
use crate::slicer::print_type::{PrintType, print_type_from_name, print_type_name};
use crate::text::{
    ascii_lower, ascii_upper, chars_of, eq_str, find_char, find_first, find_from,
    is_ascii_char, lemma_find_char, lemma_find_char_skip, slice_vec, string_of, to_ascii_lower, to_ascii_upper, trim, trim_chars,
};

verus! {

/// One state change read from a comment.
#[allow(non_camel_case_types, clippy::upper_case_acronyms)]
#[derive(Debug)]
pub enum StateField {
    LAYER(usize),
    TYPE(PrintType),
    MESH(String),
}

pub enum FieldView {
    Layer(usize),
    Type(PrintType),
    Mesh(Seq<char>),
}

impl View for StateField {
    type V = FieldView;

    open spec fn view(&self) -> FieldView {
        match self {
            StateField::LAYER(n) => FieldView::Layer(*n),
            StateField::TYPE(t) => FieldView::Type(*t),
            StateField::MESH(m) => FieldView::Mesh(m@),
        }
    }
}

/// What reading a comment as a state change comes to: a field, an error with its message,
/// or a panic of the reader.
pub enum FieldOutcome {
    Parsed(FieldView),
    Rejected(Seq<char>),
    Panics,
}

/// The text before the first `:`.
pub open spec fn state_variant(s: Seq<char>) -> Seq<char> {
    match find_char(s, ':') {
        Some(i) => s.take(i),
        None => s,
    }
}

/// The text between the first and the second `:`, if there is a first one.
pub open spec fn state_value(s: Seq<char>) -> Option<Seq<char>> {
    match find_char(s, ':') {
        None => None,
        Some(i) => {
            let r = s.skip(i + 1);
            Some(
                match find_char(r, ':') {
                    Some(j) => r.take(j),
                    None => r,
                },
            )
        },
    }
}

/// Removes each `sep` in turn, first uppercasing the character after it when another
/// character follows that one; `None` where the reader would cut a multi-byte character.
pub open spec fn join_at(v: Seq<char>, sep: char) -> Option<Seq<char>>
    decreases v.len(),
{
    match find_char(v, sep) {
        None => Some(v),
        Some(i) => if 0 <= i < v.len() {
            if i + 1 < v.len() && !is_ascii_char(v[i + 1]) {
                None
            } else {
                let v2 = if i + 2 < v.len() {
                    v.update(i + 1, ascii_upper(v[i + 1]))
                } else {
                    v
                };
                join_at(v2.remove(i), sep)
            }
        } else {
            None
        },
    }
}

pub open spec fn lower_all(s: Seq<char>) -> Seq<char> {
    Seq::new(s.len(), |i: int| ascii_lower(s[i]))
}

/// A `TYPE` value brought to the shape of a print type name: trimmed, lowercased, first
/// character uppercased, and spaces and dashes removed with the character after each
/// uppercased. `None` where the reader panics: an empty value, or a multi-byte character
/// where a byte range of the text ends.
pub open spec fn normalized_type(value: Seq<char>) -> Option<Seq<char>> {
    let t = lower_all(trim(value));
    if t.len() == 0 || !is_ascii_char(t[0]) {
        None
    } else {
        match join_at(t.update(0, ascii_upper(t[0])), ' ') {
            None => None,
            Some(u) => join_at(u, '-'),
        }
    }
}

/// Reading a comment's text as a state change.
pub open spec fn field_outcome(s: Seq<char>) -> FieldOutcome {
    match state_value(s) {
        None => FieldOutcome::Rejected("Invalid State Change"@),
        Some(v) => {
            let variant = state_variant(s);
            if variant == "LAYER"@ {
                match parse_usize_spec(v) {
                    Some(n) => FieldOutcome::Parsed(FieldView::Layer(n)),
                    None => FieldOutcome::Rejected("Invalid Layer"@),
                }
            } else if variant == "TYPE"@ {
                match normalized_type(v) {
                    None => FieldOutcome::Panics,
                    Some(t) => match print_type_from_name(t) {
                        Some(p) => FieldOutcome::Parsed(FieldView::Type(p)),
                        None => FieldOutcome::Rejected("Invalid Print Type"@),
                    },
                }
            } else if variant == "MESH"@ {
                FieldOutcome::Parsed(FieldView::Mesh(v))
            } else {
                FieldOutcome::Rejected("Invalid GCodeState Type"@)
            }
        },
    }
}

/// The print state: the current layer, print type and mesh, each unset until a comment
/// sets it.
#[derive(Debug)]
pub struct State {
    pub layer: Option<usize>,
    pub print_type: Option<PrintType>,
    pub mesh: Option<String>,
}

pub struct StateView {
    pub layer: Option<usize>,
    pub print_type: Option<PrintType>,
    pub mesh: Option<Seq<char>>,
}

impl StateView {
    pub open spec fn empty() -> StateView {
        StateView { layer: None, print_type: None, mesh: None }
    }
}

impl View for State {
    type V = StateView;

    open spec fn view(&self) -> StateView {
        StateView {
            layer: self.layer,
            print_type: self.print_type,
            mesh: match self.mesh {
                Some(m) => Some(m@),
                None => None,
            },
        }
    }
}

/// Law: the comment that names a layer by its decimal number is read as that layer.
pub proof fn law_layer_comment(n: usize)
    ensures
        field_outcome("LAYER:"@ + decimal(n as nat)) == FieldOutcome::Parsed(FieldView::Layer(n)),
{
    reveal_strlit("LAYER:");
    reveal_strlit("LAYER");
    let d = decimal(n as nat);
    let s = "LAYER:"@ + d;
    law_parse_usize_decimal(n);
    crate::number::lemma_decimal_digits(n as nat);
    lemma_find_char(s, ':', 5);
    assert(s.skip(6) =~= d);
    lemma_find_char(d, ':', d.len() as int);
    assert(s.take(5) =~= "LAYER"@);
}

/// Law: a `TYPE` comment whose value, brought to the shape of a print type name, is the
/// name of a print type is read as that print type.
pub proof fn law_type_comment(v: Seq<char>, t: PrintType)
    requires
        forall|i: int| 0 <= i < v.len() ==> v[i] != ':',
        normalized_type(v) == Some(print_type_name(t)),
    ensures
        field_outcome("TYPE:"@ + v) == FieldOutcome::Parsed(FieldView::Type(t)),
{
    reveal_strlit("TYPE:");
    reveal_strlit("TYPE");
    reveal_strlit("LAYER");
    let s = "TYPE:"@ + v;
    crate::slicer::print_type::law_print_type_name_round_trip(t);
    lemma_find_char(s, ':', 4);
    assert(s.skip(5) =~= v);
    lemma_find_char(v, ':', v.len() as int);
    assert(s.take(4) =~= "TYPE"@);
    assert("TYPE"@ != "LAYER"@);
}

/// The state after one change.
pub open spec fn apply_field(s: StateView, f: FieldView) -> StateView {
    match f {
        FieldView::Layer(n) => StateView { layer: Some(n), ..s },
        FieldView::Type(t) => StateView { print_type: Some(t), ..s },
        FieldView::Mesh(m) => StateView { mesh: Some(m), ..s },
    }
}

/// Removes each `sep` of `v` as [`join_at`] states; `false` where the reader would panic.
fn join_all(v: &mut Vec<char>, sep: char) -> (ok: bool)
    ensures
        ok == join_at(old(v)@, sep) is Some,
        ok ==> join_at(old(v)@, sep) == Some(final(v)@),
{
    let ghost target = join_at(old(v)@, sep);
    loop
        invariant_except_break
            join_at(v@, sep) == target,
            target == join_at(old(v)@, sep),
        ensures
            target == Some(v@),
        decreases v.len(),
    {
        match find_first(v, sep) {
            None => {
                assert(join_at(v@, sep) == Some(v@));
                break;
            },
            Some(i) => {
                let ghost before = v@;
                if i + 1 < v.len() && !((v[i + 1] as u32) < 0x80) {
                    return false;
                }
                if v.len() - i > 2 {
                    let c = to_ascii_upper(v[i + 1]);
                    v.set(i + 1, c);
                }
                v.remove(i);
                proof {
                    let v2 = if i + 2 < before.len() {
                        before.update(i + 1, ascii_upper(before[i + 1]))
                    } else {
                        before
                    };
                    assert(v@ =~= v2.remove(i as int));
                }
            },
        }
    }
    true
}

fn lowercase_chars(v: &Vec<char>) -> (r: Vec<char>)
    ensures
        r@ == lower_all(v@),
{
    let mut r: Vec<char> = Vec::new();
    let mut i: usize = 0;
    while i < v.len()
        invariant
            i <= v.len(),
            r@ == lower_all(v@.take(i as int)),
        decreases v.len() - i,
    {
        r.push(to_ascii_lower(v[i]));
        i = i + 1;
        assert(r@ =~= lower_all(v@.take(i as int)));
    }
    assert(v@.take(v@.len() as int) =~= v@);
    r
}

/// The value brought to the shape of a print type name, or `None` where the reader panics.
fn normalize_type(value: &Vec<char>) -> (r: Option<Vec<char>>)
    ensures
        match r {
            Some(t) => normalized_type(value@) == Some(t@),
            None => normalized_type(value@) is None,
        },
{
    let t0 = trim_chars(value);
    let mut t = lowercase_chars(&t0);
    if t.len() == 0 || !((t[0] as u32) < 0x80) {
        return None;
    }
    let c = to_ascii_upper(t[0]);
    t.set(0, c);
    if !join_all(&mut t, ' ') {
        return None;
    }
    if !join_all(&mut t, '-') {
        return None;
    }
    Some(t)
}

impl StateField {
    /// Reads a comment's text as a state change (`StateField::try_from`).
    pub fn try_from_chars(s: &Vec<char>) -> (r: Result<StateField, Error>)
        requires
            !(field_outcome(s@) is Panics),
        ensures
            match field_outcome(s@) {
                FieldOutcome::Parsed(f) => r matches Ok(v) && v@ == f,
                FieldOutcome::Rejected(m) => r matches Err(e) && e@
                    == ErrorView::GCodeStateParseError(m),
                FieldOutcome::Panics => false,
            },
    {
        match StateField::read_chars(s) {
            Some(r) => r,
            None => {
                assert(false);
                Err(Error::GCodeStateParseError("Invalid GCodeState Type".to_owned()))
            },
        }
    }

    /// Reads a comment's text as a state change, or gives `None` where
    /// `StateField::try_from` panics (a `TYPE` value that is empty or cuts a multi-byte
    /// character where it is reshaped).
    pub fn read_chars(s: &Vec<char>) -> (r: Option<Result<StateField, Error>>)
        ensures
            match field_outcome(s@) {
                FieldOutcome::Parsed(f) => r matches Some(Ok(v)) && v@ == f,
                FieldOutcome::Rejected(m) => r matches Some(Err(e)) && e@
                    == ErrorView::GCodeStateParseError(m),
                FieldOutcome::Panics => r is None,
            },
    {
        let first = find_first(s, ':');
        let colon = match first {
            None => {
                return Some(Err(Error::GCodeStateParseError("Invalid State Change".to_owned())));
            },
            Some(i) => i,
        };
        let second = find_from(s, colon + 1, ':');
        let value = match second {
            Some(j) => slice_vec(s, colon + 1, j),
            None => slice_vec(s, colon + 1, s.len()),
        };
        let variant = slice_vec(s, 0, colon);
        proof {
            let r = s@.skip(colon + 1);
            assert(variant@ =~= s@.take(colon as int));
            match second {
                Some(j) => {
                    lemma_find_char_skip(s@, colon + 1, ':', j as int);
                    assert(value@ =~= r.take(j - colon - 1));
                },
                None => {
                    lemma_find_char_skip(s@, colon + 1, ':', s@.len() as int);
                    assert(value@ =~= r);
                },
            }
        }
        if eq_str(&variant, "LAYER") {
            match parse_usize(&value) {
                Some(n) => Some(Ok(StateField::LAYER(n))),
                None => Some(Err(Error::GCodeStateParseError("Invalid Layer".to_owned()))),
            }
        } else if eq_str(&variant, "TYPE") {
            match normalize_type(&value) {
                None => None,
                Some(t) => match PrintType::from_chars(&t) {
                    Some(p) => Some(Ok(StateField::TYPE(p))),
                    None => Some(Err(Error::GCodeStateParseError("Invalid Print Type".to_owned()))),
                },
            }
        } else if eq_str(&variant, "MESH") {
            Some(Ok(StateField::MESH(string_of(&value))))
        } else {
            Some(Err(Error::GCodeStateParseError("Invalid GCodeState Type".to_owned())))
        }
    }

    /// `StateField::try_from(String)`.
    pub fn try_from_string(s: String) -> (r: Result<StateField, Error>)
        requires
            !(field_outcome(s@) is Panics),
        ensures
            match field_outcome(s@) {
                FieldOutcome::Parsed(f) => r matches Ok(v) && v@ == f,
                FieldOutcome::Rejected(m) => r matches Err(e) && e@
                    == ErrorView::GCodeStateParseError(m),
                FieldOutcome::Panics => false,
            },
    {
        let v = chars_of(s.as_str());
        StateField::try_from_chars(&v)
    }
}

impl State {
    pub fn empty() -> (r: Self)
        ensures
            r@ == StateView::empty(),
    {
        State { layer: None, print_type: None, mesh: None }
    }

    /// A copy with the same layer, print type and mesh.
    pub fn duplicate(&self) -> (r: Self)
        ensures
            r@ == self@,
    {
        State {
            layer: self.layer,
            print_type: self.print_type,
            mesh: match &self.mesh {
                Some(m) => Some(m.clone()),
                None => None,
            },
        }
    }

    /// Applies the state change that `line` holds; on an error the state stays as it was.
    pub fn parse(&mut self, line: String) -> (r: Result<(), Error>)
        requires
            !(field_outcome(line@) is Panics),
        ensures
            match field_outcome(line@) {
                FieldOutcome::Parsed(f) => r is Ok && final(self)@ == apply_field(old(self)@, f),
                FieldOutcome::Rejected(m) => r matches Err(e) && e@
                    == ErrorView::GCodeStateParseError(m) && final(self)@ == old(self)@,
                FieldOutcome::Panics => false,
            },
    {
        let v = chars_of(line.as_str());
        self.parse_chars(&v)
    }

    /// [`State::parse`] on the characters of a line.
    pub fn parse_chars(&mut self, line: &Vec<char>) -> (r: Result<(), Error>)
        requires
            !(field_outcome(line@) is Panics),
        ensures
            match field_outcome(line@) {
                FieldOutcome::Parsed(f) => r is Ok && final(self)@ == apply_field(old(self)@, f),
                FieldOutcome::Rejected(m) => r matches Err(e) && e@
                    == ErrorView::GCodeStateParseError(m) && final(self)@ == old(self)@,
                FieldOutcome::Panics => false,
            },
    {
        match self.read_chars(line) {
            Some(r) => r,
            None => {
                assert(false);
                Ok(())
            },
        }
    }

    /// Applies the state change that `line` holds, or gives `None`, leaving the state as it
    /// was, where [`State::parse`] panics.
    pub fn read_chars(&mut self, line: &Vec<char>) -> (r: Option<Result<(), Error>>)
        ensures
            match field_outcome(line@) {
                FieldOutcome::Parsed(f) => r matches Some(Ok(_)) && final(self)@ == apply_field(
                    old(self)@,
                    f,
                ),
                FieldOutcome::Rejected(m) => r matches Some(Err(e)) && e@
                    == ErrorView::GCodeStateParseError(m) && final(self)@ == old(self)@,
                FieldOutcome::Panics => r is None && final(self)@ == old(self)@,
            },
    {
        let variant = StateField::read_chars(line);
        match variant {
            Some(Ok(StateField::LAYER(value))) => {
                self.layer = Some(value);
            },
            Some(Ok(StateField::TYPE(value))) => {
                self.print_type = Some(value);
            },
            Some(Ok(StateField::MESH(value))) => {
                self.mesh = Some(value);
            },
            Some(Err(e)) => {
                return Some(Err(e));
            },
            None => {
                return None;
            },
        }
        Some(Ok(()))
    }
}

} // verus!
