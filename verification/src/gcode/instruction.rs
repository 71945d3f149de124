//! G-code commands and the blocks of commands that share one print state.
use vstd::prelude::*;
use crate::error::Error;
use crate::text::{chars_of, eq_str, string_with_prefix};
use super::movement::{Movements, MovementsView, movement_tokens};
use super::state::{State, StateView};
use super::{SourceBuilder, fresh_source, joined, law_builder_joins, pushed_all};

verus! {

/// The G-code commands that the reader understands.
#[derive(Debug, Clone, Copy, PartialEq, Eq, Structural)]
pub enum InstructionType {
    G1,
    G0,
    G24,
    M30,
}

/// The command word that names each instruction type.
pub open spec fn instruction_type_name(t: InstructionType) -> Seq<char> {
    match t {
        InstructionType::G1 => "G1"@,
        InstructionType::G0 => "G0"@,
        InstructionType::G24 => "G24"@,
        InstructionType::M30 => "M30"@,
    }
}

/// The instruction type that a command word names, if any.
pub open spec fn instruction_type_of(word: Seq<char>) -> Option<InstructionType> {
    if word == "G1"@ {
        Some(InstructionType::G1)
    } else if word == "G0"@ {
        Some(InstructionType::G0)
    } else if word == "G24"@ {
        Some(InstructionType::G24)
    } else if word == "M30"@ {
        Some(InstructionType::M30)
    } else {
        None
    }
}

/// Whether an instruction type stands alone rather than carrying movements.
pub open spec fn stand_alone(t: InstructionType) -> bool {
    t == InstructionType::G24 || t == InstructionType::M30
}

/// The message of the error for a word that names no instruction type.
pub open spec fn unknown_instruction_message(word: Seq<char>) -> Seq<char> {
    "Unknown instruction type: "@ + word
}

impl InstructionType {
    pub fn is_stand_alone(&self) -> (r: bool)
        ensures
            r == stand_alone(*self),
    {
        match self {
            InstructionType::G1 => false,
            InstructionType::G0 => false,
            InstructionType::G24 => true,
            InstructionType::M30 => true,
        }
    }

    /// The command word of this instruction type.
    pub fn name(&self) -> (r: &'static str)
        ensures
            r@ == instruction_type_name(*self),
    {
        match self {
            InstructionType::G1 => "G1",
            InstructionType::G0 => "G0",
            InstructionType::G24 => "G24",
            InstructionType::M30 => "M30",
        }
    }

    /// The instruction type named by `word`, or `UnknownInstructionType` with the word in
    /// its message.
    pub fn from_chars(word: &Vec<char>) -> (r: Result<InstructionType, Error>)
        ensures
            match instruction_type_of(word@) {
                Some(t) => r == Ok::<InstructionType, Error>(t),
                None => r matches Err(e) && e@ == crate::error::ErrorView::UnknownInstructionType(
                    unknown_instruction_message(word@),
                ),
            },
    {
        if eq_str(word, "G1") {
            Ok(InstructionType::G1)
        } else if eq_str(word, "G0") {
            Ok(InstructionType::G0)
        } else if eq_str(word, "G24") {
            Ok(InstructionType::G24)
        } else if eq_str(word, "M30") {
            Ok(InstructionType::M30)
        } else {
            Err(Error::UnknownInstructionType(string_with_prefix("Unknown instruction type: ", word)))
        }
    }

    /// `InstructionType::try_from(&str)`.
    pub fn try_from_str(value: &str) -> (r: Result<InstructionType, Error>)
        ensures
            match instruction_type_of(value@) {
                Some(t) => r == Ok::<InstructionType, Error>(t),
                None => r matches Err(e) && e@ == crate::error::ErrorView::UnknownInstructionType(
                    unknown_instruction_message(value@),
                ),
            },
    {
        let word = chars_of(value);
        InstructionType::from_chars(&word)
    }
}

/// Law: every instruction type is read back from its own command word.
pub proof fn law_instruction_type_name_round_trip(t: InstructionType)
    ensures
        instruction_type_of(instruction_type_name(t)) == Some(t),
{
    reveal_strlit("G1");
    reveal_strlit("G0");
    reveal_strlit("G24");
    reveal_strlit("M30");
    assert("G0"@[1] != "G1"@[1]);
    assert("G24"@.len() != "G1"@.len());
    assert("G24"@.len() != "G0"@.len());
    assert("M30"@.len() != "G1"@.len());
    assert("M30"@.len() != "G0"@.len());
    assert("M30"@[0] != "G24"@[0]);
}

/// One command with its movement parameters.
#[derive(Debug)]
pub struct Instruction {
    instruction_type: InstructionType,
    child_instructions: Vec<InstructionType>,
    movements: Movements,
}

pub struct InstructionView {
    pub instruction_type: InstructionType,
    pub child_instructions: Seq<InstructionType>,
    pub movements: MovementsView,
}

impl View for Instruction {
    type V = InstructionView;

    closed spec fn view(&self) -> InstructionView {
        InstructionView {
            instruction_type: self.instruction_type,
            child_instructions: self.child_instructions@,
            movements: self.movements@,
        }
    }
}

impl Instruction {
    pub fn new(
        instruction_type: InstructionType,
        child_instructions: Vec<InstructionType>,
        movements: Movements,
    ) -> (r: Instruction)
        ensures
            r@ == (InstructionView {
                instruction_type,
                child_instructions: child_instructions@,
                movements: movements@,
            }),
    {
        Instruction { instruction_type, child_instructions, movements }
    }

    pub fn instruction_type(&self) -> (r: &InstructionType)
        ensures
            *r == self@.instruction_type,
    {
        &self.instruction_type
    }

    pub fn child_instructions(&self) -> (r: &Vec<InstructionType>)
        ensures
            r@ == self@.child_instructions,
    {
        &self.child_instructions
    }

    pub fn movements(&self) -> (r: &Movements)
        ensures
            r@ == self@.movements,
    {
        &self.movements
    }

    /// The G-code line of this instruction: its command word, the words of its movement
    /// parameters, then the command words of its child instructions, separated by spaces.
    pub fn to_gcode(&self) -> (r: String)
        ensures
            r@ == joined(instruction_tokens(self@)),
    {
        let mut builder = SourceBuilder::new();
        builder.push_instruction(self.instruction_type);
        builder.push_movements(&self.movements);
        let ghost head = seq![instruction_type_name(self.instruction_type)] + movement_tokens(
            self.movements@,
        );
        let ghost names = child_names(self.child_instructions@);
        proof {
            reveal_with_fuel(pushed_all, 2);
            assert(seq![instruction_type_name(self.instruction_type)].drop_last()
                =~= Seq::<Seq<char>>::empty());
            super::lemma_pushed_all_concat(
                fresh_source(),
                seq![instruction_type_name(self.instruction_type)],
                movement_tokens(self.movements@),
            );
            assert(head + names.take(0) =~= head);
        }
        let mut i: usize = 0;
        while i < self.child_instructions.len()
            invariant
                i <= self.child_instructions.len(),
                names == child_names(self.child_instructions@),
                builder@ == pushed_all(fresh_source(), head + names.take(i as int)),
                super::source_wf(builder@),
            decreases self.child_instructions.len() - i,
        {
            builder.push_instruction(self.child_instructions[i]);
            proof {
                assert((head + names.take(i + 1)).drop_last() =~= head + names.take(i as int));
                assert((head + names.take(i + 1)).last() == names[i as int]);
            }
            i = i + 1;
        }
        proof {
            assert(names.take(i as int) =~= names);
            assert(head + names =~= instruction_tokens(self@));
            law_builder_joins(instruction_tokens(self@));
        }
        builder.finish()
    }
}

/// The command words of some instruction types.
pub open spec fn child_names(ts: Seq<InstructionType>) -> Seq<Seq<char>> {
    Seq::new(ts.len(), |i: int| instruction_type_name(ts[i]))
}

/// The words of an instruction's G-code line, in the order they are written.
pub open spec fn instruction_tokens(v: InstructionView) -> Seq<Seq<char>> {
    seq![instruction_type_name(v.instruction_type)] + movement_tokens(v.movements) + child_names(
        v.child_instructions,
    )
}

/// A run of instructions that share one print state, with the lines it covers.
#[derive(Debug)]
pub struct InstructionModul {
    instructions: Vec<Instruction>,
    start: usize,
    end: Option<usize>,
    state: State,
}

pub struct ModulView {
    pub instructions: Seq<InstructionView>,
    pub start: usize,
    pub end: Option<usize>,
    pub state: StateView,
}

impl View for InstructionModul {
    type V = ModulView;

    closed spec fn view(&self) -> ModulView {
        ModulView {
            instructions: Seq::new(self.instructions@.len(), |i: int| self.instructions@[i]@),
            start: self.start,
            end: self.end,
            state: self.state@,
        }
    }
}

/// The line range of a block: from its start to its end, or to its start while open.
pub open spec fn modul_range(m: ModulView) -> (usize, usize) {
    (m.start, match m.end {
        Some(e) => e,
        None => m.start,
    })
}

impl InstructionModul {
    pub fn empty() -> (r: Self)
        ensures
            r@ == (ModulView {
                instructions: seq![],
                start: 0,
                end: None,
                state: StateView::empty(),
            }),
    {
        let r = InstructionModul {
            instructions: Vec::new(),
            start: 0,
            end: None,
            state: State::empty(),
        };
        assert(r@.instructions =~= Seq::<InstructionView>::empty());
        r
    }

    pub fn new(start: usize, state: State) -> (r: Self)
        ensures
            r@ == (ModulView { instructions: seq![], start, end: None, state: state@ }),
    {
        let r = InstructionModul { instructions: Vec::new(), start, end: None, state };
        assert(r@.instructions =~= Seq::<InstructionView>::empty());
        r
    }

    pub fn instructions(&self) -> (r: &Vec<Instruction>)
        ensures
            r@.len() == self@.instructions.len(),
            forall|i: int| 0 <= i < r@.len() ==> #[trigger] r@[i]@ == self@.instructions[i],
    {
        &self.instructions
    }

    pub fn state(&self) -> (r: &State)
        ensures
            r@ == self@.state,
    {
        &self.state
    }

    pub fn state_mut(&mut self) -> (r: &mut State)
        ensures
            r@ == old(self)@.state,
            final(self)@ == (ModulView { state: final(r)@, ..old(self)@ }),
    {
        &mut self.state
    }

    pub fn is_empty(&self) -> (r: bool)
        ensures
            r == (self@.instructions.len() == 0),
    {
        self.instructions.len() == 0
    }

    pub fn push(&mut self, instruction: Instruction)
        ensures
            final(self)@ == (ModulView {
                instructions: old(self)@.instructions.push(instruction@),
                ..old(self)@
            }),
    {
        self.instructions.push(instruction);
        assert(self@.instructions =~= old(self)@.instructions.push(instruction@));
    }

    pub fn finish(&mut self, end: usize)
        ensures
            final(self)@ == (ModulView { end: Some(end), ..old(self)@ }),
    {
        self.end = Some(end);
    }

    pub fn range(&self) -> (r: (usize, usize))
        ensures
            r == modul_range(self@),
    {
        (self.start, match self.end {
            Some(e) => e,
            None => self.start,
        })
    }
}

} // verus!
