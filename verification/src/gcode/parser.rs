//! Reading G-code text into blocks of instructions.
//!
//! The text is read line by line. Each line is trimmed; a line that starts with `;` is a
//! comment, and the text after the first `;` of any other line is a comment too. A comment
//! that names a state change (`LAYER:`, `TYPE:`, `MESH:`) closes the current block when it
//! holds instructions and opens a new one with the changed state; before the first
//! instruction of a block it changes that block's state. The block still open at the end of
//! the text is closed on the last line where it holds instructions. The words before a
//! comment form an instruction when the first of them names an instruction type; its
//! parameters are the movement values `X`, `Y`, `Z`, `E`, `F` and the stand-alone `G`
//! instructions (`G24`) that it carries as child instructions; `M` words are skipped.
use vstd::prelude::*;
use crate::error::{Error, ErrorView};
use crate::float_text::{display_float, display_text};
use crate::number::{is_float_literal, is_float_text, lemma_float_literal_plain};
use crate::text::{
    chars_of, find_char, find_first, is_ascii_char, is_ws, lemma_find_char, lemma_lines_len, lines,
    lines_of, slice_vec, string_with_prefix, trim, trim_chars, words, words_of,
};
use super::instruction::{
    Instruction, InstructionModul, InstructionType, InstructionView, ModulView, child_names,
    instruction_tokens, instruction_type_name, instruction_type_of,
    law_instruction_type_name_round_trip, stand_alone, unknown_instruction_message,
};
use super::movement::{
    Movements, MovementsView, is_movement_name, movement_tokens, token_of, with_movement,
};
use super::{joined, lemma_joined_chars, lemma_words_joined, plain_word};
use super::state::{FieldOutcome, State, StateView, apply_field, field_outcome};
use super::GCode;

verus! {

/// The reader between two lines: the closed blocks and the open one.
pub struct ParseView {
    pub moduls: Seq<ModulView>,
    pub current: ModulView,
}

/// What reading comes to: the reader's state, an error, or a panic.
pub enum ParseOutcome {
    Running(ParseView),
    Failed(ErrorView),
    Panics,
}

/// What reading the parameters of one instruction comes to. A failure carries the child
/// instructions and movements as they stood when the failing word was met: the words before
/// it stay read.
pub enum ParamOutcome {
    Params(Seq<InstructionType>, MovementsView),
    Failed(ErrorView, Seq<InstructionType>, MovementsView),
    Panics,
}

pub open spec fn empty_modul() -> ModulView {
    ModulView { instructions: seq![], start: 0, end: None, state: StateView::empty() }
}

pub open spec fn initial_parse() -> ParseView {
    ParseView { moduls: seq![], current: empty_modul() }
}

/// Reading the parameter words `words[k..]` of the instruction on line `index`, given the
/// child instructions and movements read so far.
///
/// Each word is split after its first character (which panics for a multi-byte first
/// character). A movement's value is kept as the text that `Display` writes for the `f64`
/// it reads as. A word starting with `G` must be the whole name of a stand-alone instruction
/// type, which becomes a child instruction. A word starting with `M` is skipped. A word
/// naming a movement must carry a number, and any other word is skipped.
pub open spec fn params_from(
    words: Seq<Seq<char>>,
    k: int,
    children: Seq<InstructionType>,
    m: MovementsView,
    index: usize,
) -> ParamOutcome
    decreases words.len() - k,
{
    if k < 0 || k >= words.len() {
        ParamOutcome::Params(children, m)
    } else {
        let w = words[k];
        if w.len() == 0 || !is_ascii_char(w[0]) {
            ParamOutcome::Panics
        } else {
            let name = w.take(1);
            let value = w.skip(1);
            if w[0] == 'G' {
                match instruction_type_of(w) {
                    None => ParamOutcome::Failed(
                        ErrorView::UnknownInstructionType(unknown_instruction_message(w)),
                        children,
                        m,
                    ),
                    Some(t) => if stand_alone(t) {
                        params_from(words, k + 1, children.push(t), m, index)
                    } else {
                        ParamOutcome::Failed(
                            ErrorView::GCodeParseError("Invalid instruction type: "@ + w, index),
                            children,
                            m,
                        )
                    },
                }
            } else if w[0] == 'M' {
                params_from(words, k + 1, children, m, index)
            } else if is_movement_name(name) {
                if is_float_literal(value) {
                    params_from(
                        words,
                        k + 1,
                        children,
                        with_movement(m, name, display_text(value)),
                        index,
                    )
                } else {
                    ParamOutcome::Failed(
                        ErrorView::GCodeParseError("Invalid movement value: "@ + value, index),
                        children,
                        m,
                    )
                }
            } else {
                params_from(words, k + 1, children, m, index)
            }
        }
    }
}

/// Reading the instruction part of line `index` (the text before any comment).
pub open spec fn instruction_step(st: ParseView, part: Seq<char>, index: usize) -> ParseOutcome {
    let ws = words(part);
    if ws.len() == 0 {
        ParseOutcome::Running(st)
    } else {
        match instruction_type_of(ws[0]) {
            None => ParseOutcome::Running(st),
            Some(t) => match params_from(ws, 1, seq![], MovementsView::empty(), index) {
                ParamOutcome::Params(children, m) => ParseOutcome::Running(
                    ParseView {
                        current: ModulView {
                            instructions: st.current.instructions.push(
                                InstructionView {
                                    instruction_type: t,
                                    child_instructions: children,
                                    movements: m,
                                },
                            ),
                            ..st.current
                        },
                        ..st
                    },
                ),
                ParamOutcome::Failed(e, _, _) => ParseOutcome::Failed(e),
                ParamOutcome::Panics => ParseOutcome::Panics,
            },
        }
    }
}

/// Reading the comment text of line `count`.
pub open spec fn comment_step(st: ParseView, text: Seq<char>, count: usize) -> ParseOutcome {
    match field_outcome(text) {
        FieldOutcome::Panics => ParseOutcome::Panics,
        FieldOutcome::Rejected(_) => ParseOutcome::Running(st),
        FieldOutcome::Parsed(f) => if st.current.instructions.len() == 0 {
            ParseOutcome::Running(
                ParseView {
                    current: ModulView {
                        state: apply_field(st.current.state, f),
                        ..st.current
                    },
                    ..st
                },
            )
        } else if count == 0 {
            ParseOutcome::Panics
        } else {
            ParseOutcome::Running(
                ParseView {
                    moduls: st.moduls.push(
                        ModulView { end: Some((count - 1) as usize), ..st.current },
                    ),
                    current: ModulView {
                        instructions: seq![],
                        start: count,
                        end: None,
                        state: apply_field(st.current.state, f),
                    },
                },
            )
        },
    }
}

/// Reading line `index`.
pub open spec fn line_step(st: ParseView, raw: Seq<char>, index: usize) -> ParseOutcome {
    let line = trim(raw);
    if line.len() > 0 && line[0] == ';' {
        comment_step(st, line.drop_first(), index)
    } else {
        match find_char(line, ';') {
            Some(k) => match instruction_step(st, line.take(k), index) {
                ParseOutcome::Running(st2) => {
                    let c = line.skip(k + 1);
                    if c.len() > 0 {
                        comment_step(st2, c, index)
                    } else {
                        ParseOutcome::Running(st2)
                    }
                },
                other => other,
            },
            None => instruction_step(st, line, index),
        }
    }
}

/// Reading the lines `ls[i..]`.
pub open spec fn run_lines(ls: Seq<Seq<char>>, i: int, st: ParseView) -> ParseOutcome
    decreases ls.len() - i,
{
    if i < 0 || i >= ls.len() {
        ParseOutcome::Running(st)
    } else {
        match line_step(st, ls[i], i as usize) {
            ParseOutcome::Running(st2) => run_lines(ls, i + 1, st2),
            other => other,
        }
    }
}

/// Reading a whole text.
pub open spec fn parse_outcome(content: Seq<char>) -> ParseOutcome {
    run_lines(lines(content), 0, initial_parse())
}

pub open spec fn moduls_view(v: Seq<InstructionModul>) -> Seq<ModulView> {
    Seq::new(v.len(), |i: int| v[i]@)
}

pub open spec fn words_view(v: Seq<Vec<char>>) -> Seq<Seq<char>> {
    Seq::new(v.len(), |i: int| v[i]@)
}

/// Whether `r` is what reading comes to, where the reader's state is given by the closed
/// blocks `moduls` and the open block `current`; a panic is `None`.
pub open spec fn read_as(
    outcome: ParseOutcome,
    r: Option<Result<(), Error>>,
    moduls: Seq<ModulView>,
    current: ModulView,
) -> bool {
    match outcome {
        ParseOutcome::Running(st) => r matches Some(Ok(_)) && moduls == st.moduls && current
            == st.current,
        ParseOutcome::Failed(e) => r matches Some(Err(x)) && x@ == e,
        ParseOutcome::Panics => r is None,
    }
}

/// The blocks that reading comes to once `line_count` lines are read: the closed ones, and
/// the one still open, closed on the last line, where it holds instructions.
pub open spec fn finished_blocks(st: ParseView, line_count: nat) -> Seq<ModulView> {
    if st.current.instructions.len() > 0 {
        st.moduls.push(ModulView { end: Some((line_count - 1) as usize), ..st.current })
    } else {
        st.moduls
    }
}

/// Reads G-code text into its blocks of instructions. Every instruction that is read lands
/// in a block: the block still open at the end of the text is closed on the last line.
pub fn parse_content(content: &str) -> (r: Result<GCode, Error>)
    requires
        !(parse_outcome(content@) is Panics),
    ensures
        match parse_outcome(content@) {
            ParseOutcome::Running(st) => r matches Ok(g) && moduls_view(g@) == finished_blocks(
                st,
                lines(content@).len(),
            ),
            ParseOutcome::Failed(e) => r matches Err(x) && x@ == e,
            ParseOutcome::Panics => false,
        },
{
    match read_content(content) {
        Some(r) => r,
        None => {
            assert(false);
            Ok(Vec::new())
        },
    }
}

/// Reads G-code text as [`parse_content`] does, or gives `None` where [`parse_content`]
/// panics: a parameter word that starts with a multi-byte character, a state change on the
/// first line after an instruction on it, or a `TYPE` value that cannot be reshaped.
pub fn read_content(content: &str) -> (r: Option<Result<GCode, Error>>)
    ensures
        match parse_outcome(content@) {
            ParseOutcome::Running(st) => r matches Some(Ok(g)) && moduls_view(g@)
                == finished_blocks(st, lines(content@).len()),
            ParseOutcome::Failed(e) => r matches Some(Err(x)) && x@ == e,
            ParseOutcome::Panics => r is None,
        },
{
    let chars = chars_of(content);
    let lines_vec = lines_of(&chars);
    let ghost ls = lines(content@);
    let mut moduls: Vec<InstructionModul> = Vec::new();
    let mut modul = InstructionModul::empty();
    let mut index: usize = 0;
    assert(moduls_view(moduls@) =~= Seq::<ModulView>::empty());
    while index < lines_vec.len()
        invariant
            index <= lines_vec.len(),
            lines_vec@.len() == ls.len(),
            forall|i: int| 0 <= i < lines_vec@.len() ==> #[trigger] lines_vec@[i]@ == ls[i],
            ls == lines(content@),
            index == 0 ==> modul@.instructions.len() == 0,
            parse_outcome(content@) == run_lines(
                ls,
                index as int,
                ParseView { moduls: moduls_view(moduls@), current: modul@ },
            ),
        decreases lines_vec.len() - index,
    {
        let res = compute_line(&lines_vec[index], index, &mut modul, &mut moduls);
        match res {
            Some(Ok(())) => {},
            Some(Err(e)) => {
                return Some(Err(e));
            },
            None => {
                return None;
            },
        }
        index = index + 1;
    }
    let ghost fin = ParseView { moduls: moduls_view(moduls@), current: modul@ };
    assert(parse_outcome(content@) == ParseOutcome::Running(fin));
    if !modul.is_empty() {
        modul.finish(lines_vec.len() - 1);
        moduls.push(modul);
        assert(moduls_view(moduls@) =~= finished_blocks(fin, ls.len()));
    }
    Some(Ok(moduls))
}

/// Reads one line.
fn compute_line(
    raw: &Vec<char>,
    index: usize,
    modul: &mut InstructionModul,
    moduls: &mut Vec<InstructionModul>,
) -> (r: Option<Result<(), Error>>)
    ensures
        read_as(
            line_step(
                ParseView { moduls: moduls_view(old(moduls)@), current: old(modul)@ },
                raw@,
                index,
            ),
            r,
            moduls_view(final(moduls)@),
            final(modul)@,
        ),
{
    let line = trim_chars(raw);
    let line = &line;
    if line.len() > 0 && line[0] == ';' {
        let text = slice_vec(line, 1, line.len());
        assert(text@ =~= line@.drop_first());
        if compute_comment(&text, index, modul, moduls) {
            Some(Ok(()))
        } else {
            None
        }
    } else {
        match find_first(line, ';') {
            Some(k) => {
                let instruction = slice_vec(line, 0, k);
                let comment = slice_vec(line, k + 1, line.len());
                assert(instruction@ =~= line@.take(k as int));
                assert(comment@ =~= line@.skip(k + 1));
                match compute_instruction(&instruction, index, modul) {
                    Some(Ok(())) => {},
                    other => {
                        return other;
                    },
                }
                if comment.len() > 0 {
                    if !compute_comment(&comment, index, modul, moduls) {
                        return None;
                    }
                }
                Some(Ok(()))
            },
            None => compute_instruction(line, index, modul),
        }
    }
}

/// Reads the comment text of line `count`; `false` where the reader panics.
fn compute_comment(
    line: &Vec<char>,
    count: usize,
    modul: &mut InstructionModul,
    moduls: &mut Vec<InstructionModul>,
) -> (ok: bool)
    ensures
        ok == !(comment_step(
            ParseView { moduls: moduls_view(old(moduls)@), current: old(modul)@ },
            line@,
            count,
        ) is Panics),
        ok ==> comment_step(
            ParseView { moduls: moduls_view(old(moduls)@), current: old(modul)@ },
            line@,
            count,
        ) == ParseOutcome::Running(
            ParseView { moduls: moduls_view(final(moduls)@), current: final(modul)@ },
        ),
{
    if modul.is_empty() {
        let state = modul.state_mut();
        match state.read_chars(line) {
            None => false,
            Some(_) => true,
        }
    } else {
        let mut next = modul.state().duplicate();
        match next.read_chars(line) {
            None => false,
            Some(Err(_)) => true,
            Some(Ok(())) => {
                if count == 0 {
                    return false;
                }
                let mut owned_modul = InstructionModul::new(count, next);
                std::mem::swap(&mut owned_modul, modul);
                owned_modul.finish(count - 1);
                moduls.push(owned_modul);
                assert(moduls_view(moduls@) =~= moduls_view(old(moduls)@).push(owned_modul@));
                true
            },
        }
    }
}

/// Reads the instruction part of line `index`.
fn compute_instruction(line: &Vec<char>, index: usize, modul: &mut InstructionModul) -> (r: Option<
    Result<(), Error>,
>)
    ensures
        match instruction_step(ParseView { moduls: seq![], current: old(modul)@ }, line@, index) {
            ParseOutcome::Running(st) => r matches Some(Ok(_)) && final(modul)@ == st.current,
            ParseOutcome::Failed(e) => r matches Some(Err(x)) && x@ == e,
            ParseOutcome::Panics => r is None,
        },
{
    let parameters = words_of(line);
    assert(words_view(parameters@) =~= words(line@));
    if parameters.len() > 0 {
        if let Ok(main_instruction) = InstructionType::from_chars(&parameters[0]) {
            let mut child_instructions: Vec<InstructionType> = Vec::new();
            let mut movements = Movements::new();
            match read_parameters(
                &parameters,
                1,
                &mut child_instructions,
                &mut movements,
                index,
            ) {
                Some(Ok(())) => {},
                other => {
                    return other;
                },
            }
            let instruction = Instruction::new(main_instruction, child_instructions, movements);
            modul.push(instruction);
        }
    }
    Some(Ok(()))
}

/// Applies the state change of a comment to a copy of `last_state`.
pub fn parse_comment_to_state(line: &Vec<char>, last_state: State) -> (r: Result<State, Error>)
    requires
        !(field_outcome(line@) is Panics),
    ensures
        match field_outcome(line@) {
            FieldOutcome::Parsed(f) => r matches Ok(s) && s@ == apply_field(last_state@, f),
            FieldOutcome::Rejected(m) => r matches Err(e) && e@ == ErrorView::GCodeStateParseError(m),
            FieldOutcome::Panics => false,
        },
{
    let mut last_state = last_state;
    match parse_comment_into_state(line, &mut last_state) {
        Ok(()) => Ok(last_state),
        Err(e) => Err(e),
    }
}

/// Applies the state change of a comment to `last_state`.
pub fn parse_comment_into_state(line: &Vec<char>, last_state: &mut State) -> (r: Result<(), Error>)
    requires
        !(field_outcome(line@) is Panics),
    ensures
        match field_outcome(line@) {
            FieldOutcome::Parsed(f) => r is Ok && final(last_state)@ == apply_field(
                old(last_state)@,
                f,
            ),
            FieldOutcome::Rejected(m) => r matches Err(e) && e@ == ErrorView::GCodeStateParseError(m)
                && final(last_state)@ == old(last_state)@,
            FieldOutcome::Panics => false,
        },
{
    last_state.parse_chars(line)
}

/// Reads the parameter words `parameters[first..]` of the instruction on line `index` into
/// `child_instructions` and `movements`.
pub fn compute_parameters(
    parameters: &Vec<Vec<char>>,
    first: usize,
    child_instructions: &mut Vec<InstructionType>,
    movements: &mut Movements,
    index: usize,
) -> (r: Result<(), Error>)
    requires
        first <= parameters.len(),
        !(params_from(
            words_view(parameters@),
            first as int,
            old(child_instructions)@,
            old(movements)@,
            index,
        ) is Panics),
    ensures
        match params_from(
            words_view(parameters@),
            first as int,
            old(child_instructions)@,
            old(movements)@,
            index,
        ) {
            ParamOutcome::Params(ch, m) => r is Ok && final(child_instructions)@ == ch
                && final(movements)@ == m,
            ParamOutcome::Failed(e, ch, m) => r matches Err(x) && x@ == e
                && final(child_instructions)@ == ch && final(movements)@ == m,
            ParamOutcome::Panics => false,
        },
{
    match read_parameters(parameters, first, child_instructions, movements, index) {
        Some(r) => r,
        None => {
            assert(false);
            Ok(())
        },
    }
}

/// Reads parameter words as [`compute_parameters`] does, or gives `None` where it panics:
/// on a word that starts with a multi-byte character.
pub fn read_parameters(
    parameters: &Vec<Vec<char>>,
    first: usize,
    child_instructions: &mut Vec<InstructionType>,
    movements: &mut Movements,
    index: usize,
) -> (r: Option<Result<(), Error>>)
    requires
        first <= parameters.len(),
    ensures
        match params_from(
            words_view(parameters@),
            first as int,
            old(child_instructions)@,
            old(movements)@,
            index,
        ) {
            ParamOutcome::Params(ch, m) => r matches Some(Ok(_)) && final(child_instructions)@
                == ch && final(movements)@ == m,
            ParamOutcome::Failed(e, ch, m) => r matches Some(Err(x)) && x@ == e
                && final(child_instructions)@ == ch && final(movements)@ == m,
            ParamOutcome::Panics => r is None,
        },
{
    let ghost ws = words_view(parameters@);
    let ghost target = params_from(
        ws,
        first as int,
        old(child_instructions)@,
        old(movements)@,
        index,
    );
    let mut k = first;
    while k < parameters.len()
        invariant
            first <= k <= parameters.len(),
            ws == words_view(parameters@),
            target == params_from(ws, k as int, child_instructions@, movements@, index),
            target == params_from(
                words_view(parameters@),
                first as int,
                old(child_instructions)@,
                old(movements)@,
                index,
            ),
        decreases parameters.len() - k,
    {
        let word = &parameters[k];
        assert(ws[k as int] == word@);
        if word.len() == 0 || !((word[0] as u32) < 0x80) {
            return None;
        }
        let movement = slice_vec(word, 0, 1);
        let value = slice_vec(word, 1, word.len());
        assert(movement@ =~= word@.take(1));
        assert(value@ =~= word@.skip(1));
        if word[0] == 'G' {
            let instruction_type = match InstructionType::from_chars(word) {
                Ok(t) => t,
                Err(e) => {
                    return Some(Err(e));
                },
            };
            if instruction_type.is_stand_alone() {
                child_instructions.push(instruction_type);
            } else {
                return Some(
                    Err(
                        Error::GCodeParseError(
                            string_with_prefix("Invalid instruction type: ", word),
                            index,
                        ),
                    ),
                );
            }
        } else if word[0] == 'M' {
        } else if Movements::is_movement_chars(&movement) {
            if is_float_text(&value) {
                let text = crate::text::string_of(&display_float(&value));
                movements.set_movement_chars(&movement, text);
            } else {
                return Some(
                    Err(
                        Error::GCodeParseError(
                            string_with_prefix("Invalid movement value: ", &value),
                            index,
                        ),
                    ),
                );
            }
        }
        k = k + 1;
    }
    Some(Ok(()))
}

/// The last line of a closed block, or -1 for an open one.
pub open spec fn block_end(m: ModulView) -> int {
    match m.end {
        Some(e) => e as int,
        None => -1,
    }
}

/// Closed blocks in order: the first starts at line 0, each next one starts on the line
/// after the previous one ends, and each holds at least one instruction, starts no later
/// than it ends and ends before line `line_count`.
pub open spec fn blocks_consecutive(ms: Seq<ModulView>, line_count: int) -> bool {
    &&& ms.len() > 0 ==> ms[0].start == 0
    &&& forall|k: int|
        0 <= k < ms.len() - 1 ==> #[trigger] ms[k + 1].start == block_end(ms[k]) + 1
    &&& forall|k: int|
        0 <= k < ms.len() ==> {
            &&& (#[trigger] ms[k]).instructions.len() > 0
            &&& ms[k].end is Some
            &&& ms[k].start <= block_end(ms[k]) < line_count
        }
}

/// What holds of the reader before line `i`.
pub open spec fn reader_inv(st: ParseView, i: int) -> bool {
    &&& blocks_consecutive(st.moduls, i)
    &&& st.moduls.len() == 0 ==> st.current.start == 0
    &&& st.moduls.len() > 0 ==> st.current.start == block_end(st.moduls.last()) + 1
    &&& st.current.start == 0 || st.current.start < i
    &&& st.current.end is None
    &&& 0 <= i
}

proof fn lemma_instruction_step_inv(st: ParseView, part: Seq<char>, index: usize)
    requires
        reader_inv(st, index as int),
        instruction_step(st, part, index) is Running,
    ensures
        instruction_step(st, part, index) matches ParseOutcome::Running(st2) && st2.moduls
            == st.moduls && st2.current.start == st.current.start && st2.current.end
            == st.current.end && reader_inv(st2, index as int),
{
}

proof fn lemma_comment_step_inv(st: ParseView, text: Seq<char>, count: usize)
    requires
        reader_inv(st, count as int),
        comment_step(st, text, count) is Running,
    ensures
        comment_step(st, text, count) matches ParseOutcome::Running(st2) && reader_inv(
            st2,
            count + 1,
        ),
{
    match comment_step(st, text, count) {
        ParseOutcome::Running(st2) => {
            if st2.moduls.len() == st.moduls.len() + 1 {
                let ms = st2.moduls;
                assert(ms.last() == ModulView { end: Some((count - 1) as usize), ..st.current });
                assert forall|k: int| 0 <= k < ms.len() - 1 implies #[trigger] ms[k + 1].start
                    == block_end(ms[k]) + 1 by {
                    if k < ms.len() - 2 {
                        assert(ms[k] == st.moduls[k]);
                        assert(ms[k + 1] == st.moduls[k + 1]);
                    } else {
                        assert(ms[k] == st.moduls.last());
                    }
                }
                assert forall|k: int| 0 <= k < ms.len() implies {
                    &&& (#[trigger] ms[k]).instructions.len() > 0
                    &&& ms[k].end is Some
                    &&& ms[k].start <= block_end(ms[k]) < count + 1
                } by {
                    if k < ms.len() - 1 {
                        assert(ms[k] == st.moduls[k]);
                    }
                }
            }
        },
        _ => {},
    }
}

proof fn lemma_line_step_inv(st: ParseView, raw: Seq<char>, index: usize)
    requires
        reader_inv(st, index as int),
        line_step(st, raw, index) is Running,
    ensures
        line_step(st, raw, index) matches ParseOutcome::Running(st2) && reader_inv(
            st2,
            index + 1,
        ),
{
    let line = trim(raw);
    if line.len() > 0 && line[0] == ';' {
        lemma_comment_step_inv(st, line.drop_first(), index);
    } else {
        match find_char(line, ';') {
            Some(k) => {
                lemma_instruction_step_inv(st, line.take(k), index);
                match instruction_step(st, line.take(k), index) {
                    ParseOutcome::Running(st2) => {
                        let c = line.skip(k + 1);
                        if c.len() > 0 {
                            lemma_comment_step_inv(st2, c, index);
                        }
                    },
                    _ => {},
                }
            },
            None => {
                lemma_instruction_step_inv(st, line, index);
            },
        }
    }
    match line_step(st, raw, index) {
        ParseOutcome::Running(st2) => {
            lemma_blocks_widen(st2.moduls, index as int, index + 1);
        },
        _ => {},
    }
}

proof fn lemma_blocks_widen(ms: Seq<ModulView>, a: int, b: int)
    requires
        blocks_consecutive(ms, a),
        a <= b,
    ensures
        blocks_consecutive(ms, b),
{
}

proof fn lemma_run_lines_inv(ls: Seq<Seq<char>>, i: int, st: ParseView)
    requires
        0 <= i <= ls.len(),
        ls.len() <= usize::MAX,
        reader_inv(st, i),
        run_lines(ls, i, st) is Running,
    ensures
        run_lines(ls, i, st) matches ParseOutcome::Running(fin) && blocks_consecutive(
            fin.moduls,
            ls.len() as int,
        ) && reader_inv(fin, ls.len() as int),
    decreases ls.len() - i,
{
    if i < ls.len() {
        lemma_line_step_inv(st, ls[i], i as usize);
        match line_step(st, ls[i], i as usize) {
            ParseOutcome::Running(st2) => {
                lemma_run_lines_inv(ls, i + 1, st2);
            },
            _ => {},
        }
    }
}

proof fn lemma_blocks_push(ms: Seq<ModulView>, b: ModulView, n: int)
    requires
        blocks_consecutive(ms, n),
        b.instructions.len() > 0,
        b.end is Some,
        b.start <= block_end(b) < n,
        ms.len() == 0 ==> b.start == 0,
        ms.len() > 0 ==> b.start == block_end(ms.last()) + 1,
    ensures
        blocks_consecutive(ms.push(b), n),
{
    let ms2 = ms.push(b);
    assert forall|k: int| 0 <= k < ms2.len() - 1 implies #[trigger] ms2[k + 1].start
        == block_end(ms2[k]) + 1 by {
        if k < ms2.len() - 2 {
            assert(ms2[k] == ms[k]);
            assert(ms2[k + 1] == ms[k + 1]);
        } else {
            assert(ms2[k] == ms.last());
        }
    }
    assert forall|k: int| 0 <= k < ms2.len() implies {
        &&& (#[trigger] ms2[k]).instructions.len() > 0
        &&& ms2[k].end is Some
        &&& ms2[k].start <= block_end(ms2[k]) < n
    } by {
        if k < ms.len() {
            assert(ms2[k] == ms[k]);
        }
    }
}

/// Law: the blocks that reading a text gives back cover its lines in order and without
/// gaps. The first starts at line 0, each next one on the line after the previous one
/// ends; each holds an instruction and ends on a line of the text, no earlier than it
/// starts.
pub proof fn law_blocks_consecutive(content: Seq<char>)
    requires
        content.len() <= usize::MAX,
        parse_outcome(content) is Running,
    ensures
        parse_outcome(content) matches ParseOutcome::Running(st) && blocks_consecutive(
            finished_blocks(st, lines(content).len()),
            lines(content).len() as int,
        ),
{
    let ls = lines(content);
    lemma_lines_len(content);
    lemma_run_lines_inv(ls, 0, initial_parse());
    match parse_outcome(content) {
        ParseOutcome::Running(fin) => {
            if fin.current.instructions.len() > 0 {
                assert(ls.len() > 0);
                lemma_blocks_push(
                    fin.moduls,
                    ModulView { end: Some((ls.len() - 1) as usize), ..fin.current },
                    ls.len() as int,
                );
            }
        },
        _ => {},
    }
}

/// The comment of a line, where it has a non-empty one: the text after a leading `;`, or
/// after the first `;` that follows an instruction.
pub open spec fn line_comment(raw: Seq<char>) -> Option<Seq<char>> {
    let line = trim(raw);
    if line.len() > 0 && line[0] == ';' {
        Some(line.drop_first())
    } else {
        match find_char(line, ';') {
            Some(k) => if line.skip(k + 1).len() > 0 {
                Some(line.skip(k + 1))
            } else {
                None
            },
            None => None,
        }
    }
}

/// Whether line `i` of `ls` has a comment that names a state change.
pub open spec fn state_change_line(ls: Seq<Seq<char>>, i: int) -> bool {
    &&& 0 <= i < ls.len()
    &&& line_comment(ls[i]) matches Some(c)
    &&& field_outcome(c) is Parsed
}

/// Every block after the first starts on a line that names a state change.
pub open spec fn blocks_open_on_state_changes(ls: Seq<Seq<char>>, ms: Seq<ModulView>) -> bool {
    forall|k: int| 1 <= k < ms.len() ==> state_change_line(ls, (#[trigger] ms[k]).start as int)
}

/// What holds of the starts of the blocks while reading `ls`.
pub open spec fn starts_inv(ls: Seq<Seq<char>>, st: ParseView) -> bool {
    &&& blocks_open_on_state_changes(ls, st.moduls)
    &&& st.moduls.len() > 0 ==> state_change_line(ls, st.current.start as int)
}

proof fn lemma_comment_step_start(st: ParseView, text: Seq<char>, count: usize)
    requires
        comment_step(st, text, count) is Running,
    ensures
        comment_step(st, text, count) matches ParseOutcome::Running(st2) && ((st2.moduls
            == st.moduls && st2.current.start == st.current.start) || (field_outcome(
            text,
        ) is Parsed && st2.moduls.drop_last() == st.moduls && st2.moduls.len() == st.moduls.len()
            + 1 && st2.moduls.last().start == st.current.start && st2.current.start == count)),
{
    match comment_step(st, text, count) {
        ParseOutcome::Running(st2) => {
            if st2.moduls.len() == st.moduls.len() + 1 {
                assert(st2.moduls.drop_last() =~= st.moduls);
            }
        },
        _ => {},
    }
}

proof fn lemma_line_step_start(st: ParseView, raw: Seq<char>, index: usize)
    requires
        line_step(st, raw, index) is Running,
    ensures
        line_step(st, raw, index) matches ParseOutcome::Running(st2) && ((st2.moduls == st.moduls
            && st2.current.start == st.current.start) || (line_comment(raw) matches Some(c)
            && field_outcome(c) is Parsed && st2.moduls.drop_last() == st.moduls
            && st2.moduls.len() == st.moduls.len() + 1 && st2.moduls.last().start
            == st.current.start && st2.current.start == index)),
{
    let line = trim(raw);
    if line.len() > 0 && line[0] == ';' {
        lemma_comment_step_start(st, line.drop_first(), index);
    } else {
        match find_char(line, ';') {
            Some(k) => {
                match instruction_step(st, line.take(k), index) {
                    ParseOutcome::Running(st2) => {
                        let c = line.skip(k + 1);
                        if c.len() > 0 {
                            lemma_comment_step_start(st2, c, index);
                        }
                    },
                    _ => {},
                }
            },
            None => {},
        }
    }
}

proof fn lemma_run_lines_starts(ls: Seq<Seq<char>>, i: int, st: ParseView)
    requires
        0 <= i <= ls.len(),
        ls.len() <= usize::MAX,
        starts_inv(ls, st),
        run_lines(ls, i, st) is Running,
    ensures
        run_lines(ls, i, st) matches ParseOutcome::Running(fin) && starts_inv(ls, fin),
    decreases ls.len() - i,
{
    if i < ls.len() {
        lemma_line_step_start(st, ls[i], i as usize);
        match line_step(st, ls[i], i as usize) {
            ParseOutcome::Running(st2) => {
                if st2.moduls.len() == st.moduls.len() + 1 {
                    assert forall|k: int| 1 <= k < st2.moduls.len() implies state_change_line(
                        ls,
                        (#[trigger] st2.moduls[k]).start as int,
                    ) by {
                        if k < st.moduls.len() {
                            assert(st2.moduls[k] == st2.moduls.drop_last()[k]);
                        }
                    }
                }
                lemma_run_lines_starts(ls, i + 1, st2);
            },
            _ => {},
        }
    }
}

/// Law: every block that reading a text gives back, but the first, starts on a line whose
/// comment names a state change: a new block is opened by a state change alone.
pub proof fn law_blocks_open_on_state_changes(content: Seq<char>)
    requires
        content.len() <= usize::MAX,
        parse_outcome(content) is Running,
    ensures
        parse_outcome(content) matches ParseOutcome::Running(st) && blocks_open_on_state_changes(
            lines(content),
            finished_blocks(st, lines(content).len()),
        ),
{
    let ls = lines(content);
    lemma_lines_len(content);
    lemma_run_lines_starts(ls, 0, initial_parse());
    match parse_outcome(content) {
        ParseOutcome::Running(fin) => {
            let fb = finished_blocks(fin, ls.len());
            assert forall|k: int| 1 <= k < fb.len() implies state_change_line(
                ls,
                (#[trigger] fb[k]).start as int,
            ) by {
                if k < fin.moduls.len() {
                    assert(fb[k] == fin.moduls[k]);
                }
            }
        },
        _ => {},
    }
}

/// Whether every movement parameter that is set holds a float literal.
pub open spec fn literal_movements(m: MovementsView) -> bool {
    &&& m.x matches Some(t) ==> is_float_literal(t)
    &&& m.y matches Some(t) ==> is_float_literal(t)
    &&& m.z matches Some(t) ==> is_float_literal(t)
    &&& m.e matches Some(t) ==> is_float_literal(t)
    &&& m.f matches Some(t) ==> is_float_literal(t)
}

/// Whether every movement parameter that is set holds the text that `Display` writes for
/// its value.
pub open spec fn displayed_movements(m: MovementsView) -> bool {
    &&& m.x matches Some(t) ==> display_text(t) == t
    &&& m.y matches Some(t) ==> display_text(t) == t
    &&& m.z matches Some(t) ==> display_text(t) == t
    &&& m.e matches Some(t) ==> display_text(t) == t
    &&& m.f matches Some(t) ==> display_text(t) == t
}

/// The parameters after setting `name` to the value in `o`, if there is one.
pub open spec fn with_optional(m: MovementsView, name: Seq<char>, o: Option<Seq<char>>) -> MovementsView {
    match o {
        Some(v) => with_movement(m, name, v),
        None => m,
    }
}

pub open spec fn is_movement_letter(c: char) -> bool {
    c == 'X' || c == 'Y' || c == 'Z' || c == 'E' || c == 'F'
}

proof fn lemma_movement_names()
    ensures
        "X"@ == seq!['X'],
        "Y"@ == seq!['Y'],
        "Z"@ == seq!['Z'],
        "E"@ == seq!['E'],
        "F"@ == seq!['F'],
{
    reveal_strlit("X");
    reveal_strlit("Y");
    reveal_strlit("Z");
    reveal_strlit("E");
    reveal_strlit("F");
}

proof fn lemma_params_token(
    ws: Seq<Seq<char>>,
    k: int,
    children: Seq<InstructionType>,
    m: MovementsView,
    index: usize,
    c: char,
    o: Option<Seq<char>>,
)
    requires
        0 <= k,
        k + token_of(seq![c], o).len() <= ws.len(),
        ws.subrange(k, k + token_of(seq![c], o).len()) == token_of(seq![c], o),
        is_movement_letter(c),
        o matches Some(t) ==> is_float_literal(t) && display_text(t) == t,
    ensures
        params_from(ws, k, children, m, index) == params_from(
            ws,
            k + token_of(seq![c], o).len(),
            children,
            with_optional(m, seq![c], o),
            index,
        ),
{
    lemma_movement_names();
    match o {
        Some(t) => {
            let w = ws[k];
            assert(w == ws.subrange(k, k + 1)[0]);
            assert(w == seq![c] + t);
            assert(w[0] == c);
            assert(w.take(1) =~= seq![c]);
            assert(w.skip(1) =~= t);
        },
        None => {
            assert(k + 0 == k);
        },
    }
}

proof fn lemma_token_plain(c: char, o: Option<Seq<char>>)
    requires
        is_movement_letter(c),
        o matches Some(t) ==> is_float_literal(t),
    ensures
        forall|k: int|
            0 <= k < token_of(seq![c], o).len() ==> plain_word(#[trigger] token_of(seq![c], o)[k]),
{
    match o {
        Some(t) => {
            lemma_float_literal_plain(t);
            let w = seq![c] + t;
            assert forall|i: int| 0 <= i < w.len() implies !is_ws(#[trigger] w[i]) && w[i]
                != ';' by {
                if i > 0 {
                    assert(w[i] == t[i - 1]);
                }
            }
            assert(token_of(seq![c], o)[0] == w);
        },
        None => {},
    }
}

proof fn lemma_movement_tokens_plain(m: MovementsView)
    requires
        literal_movements(m),
    ensures
        forall|k: int|
            0 <= k < movement_tokens(m).len() ==> plain_word(#[trigger] movement_tokens(m)[k]),
{
    lemma_movement_names();
    lemma_token_plain('X', m.x);
    lemma_token_plain('Y', m.y);
    lemma_token_plain('Z', m.z);
    lemma_token_plain('E', m.e);
    lemma_token_plain('F', m.f);
    let tx = token_of("X"@, m.x);
    let ty = token_of("Y"@, m.y);
    let tz = token_of("Z"@, m.z);
    let te = token_of("E"@, m.e);
    let tf = token_of("F"@, m.f);
    let all = movement_tokens(m);
    assert(all == tx + ty + tz + te + tf);
    assert forall|k: int| 0 <= k < all.len() implies plain_word(#[trigger] all[k]) by {
        if k < tx.len() {
            assert(all[k] == tx[k]);
        } else if k < tx.len() + ty.len() {
            assert(all[k] == ty[k - tx.len()]);
        } else if k < tx.len() + ty.len() + tz.len() {
            assert(all[k] == tz[k - tx.len() - ty.len()]);
        } else if k < tx.len() + ty.len() + tz.len() + te.len() {
            assert(all[k] == te[k - tx.len() - ty.len() - tz.len()]);
        } else {
            assert(all[k] == tf[k - tx.len() - ty.len() - tz.len() - te.len()]);
        }
    }
}

/// Whether every child instruction is one that the reader makes: a stand-alone `G`
/// instruction (`M` words are skipped).
pub open spec fn readable_children(cs: Seq<InstructionType>) -> bool {
    forall|i: int| 0 <= i < cs.len() ==> #[trigger] cs[i] == InstructionType::G24
}

proof fn lemma_type_names_plain()
    ensures
        forall|t: InstructionType| plain_word(#[trigger] instruction_type_name(t)),
{
    reveal_strlit("G1");
    reveal_strlit("G0");
    reveal_strlit("G24");
    reveal_strlit("M30");
}

proof fn lemma_read_back_children(
    ws: Seq<Seq<char>>,
    k: int,
    cs: Seq<InstructionType>,
    ch: Seq<InstructionType>,
    m: MovementsView,
    index: usize,
)
    requires
        0 <= k,
        k + cs.len() == ws.len(),
        ws.subrange(k, ws.len() as int) == child_names(cs),
        readable_children(cs),
    ensures
        params_from(ws, k, ch, m, index) == ParamOutcome::Params(ch + cs, m),
    decreases cs.len(),
{
    if cs.len() == 0 {
        assert(ch + cs =~= ch);
    } else {
        let t = cs[0];
        let w = ws[k];
        assert(w == ws.subrange(k, ws.len() as int)[0]);
        assert(w == instruction_type_name(t));
        lemma_type_names_plain();
        law_instruction_type_name_round_trip(t);
        assert(t == InstructionType::G24);
        reveal_strlit("G24");
        assert(w[0] == 'G');
        assert(is_ascii_char(w[0]));
        assert forall|i: int| 0 <= i < cs.len() - 1 implies #[trigger] ws.subrange(
            k + 1,
            ws.len() as int,
        )[i] == child_names(cs.drop_first())[i] by {
            assert(ws.subrange(k, ws.len() as int)[i + 1] == child_names(cs)[i + 1]);
        }
        assert(ws.subrange(k + 1, ws.len() as int) =~= child_names(cs.drop_first()));
        assert(readable_children(cs.drop_first())) by {
            assert forall|i: int| 0 <= i < cs.drop_first().len() implies #[trigger] cs.drop_first()[i]
                == InstructionType::G24 by {
                assert(cs.drop_first()[i] == cs[i + 1]);
            }
        }
        lemma_read_back_children(ws, k + 1, cs.drop_first(), ch.push(t), m, index);
        assert(ch.push(t) + cs.drop_first() =~= ch + cs);
    }
}

proof fn lemma_instruction_tokens(v: InstructionView)
    requires
        literal_movements(v.movements),
    ensures
        instruction_tokens(v) == seq![instruction_type_name(v.instruction_type)] + movement_tokens(
            v.movements,
        ) + child_names(v.child_instructions),
        forall|k: int|
            0 <= k < instruction_tokens(v).len() ==> plain_word(#[trigger] instruction_tokens(v)[k]),
        instruction_tokens(v)[0][0] != ';',
{
    let tokens = instruction_tokens(v);
    let name = instruction_type_name(v.instruction_type);
    let mt = movement_tokens(v.movements);
    let cn = child_names(v.child_instructions);
    lemma_movement_tokens_plain(v.movements);
    lemma_type_names_plain();
    assert forall|k: int| 0 <= k < tokens.len() implies plain_word(#[trigger] tokens[k]) by {
        if k > 0 && k < 1 + mt.len() {
            assert(tokens[k] == mt[k - 1]);
        } else if k >= 1 + mt.len() {
            assert(tokens[k] == cn[k - 1 - mt.len()]);
        }
    }
    assert(tokens[0] == name);
}

proof fn lemma_read_back_params(v: InstructionView, index: usize)
    requires
        readable_children(v.child_instructions),
        literal_movements(v.movements),
        displayed_movements(v.movements),
    ensures
        params_from(instruction_tokens(v), 1, seq![], MovementsView::empty(), index)
            == ParamOutcome::Params(v.child_instructions, v.movements),
{
    let m = v.movements;
    let tokens = instruction_tokens(v);
    lemma_instruction_tokens(v);
    lemma_movement_names();
    let tx = token_of("X"@, m.x);
    let ty = token_of("Y"@, m.y);
    let tz = token_of("Z"@, m.z);
    let te = token_of("E"@, m.e);
    let tf = token_of("F"@, m.f);
    let k1 = 1 + tx.len();
    let k2 = k1 + ty.len();
    let k3 = k2 + tz.len();
    let k4 = k3 + te.len();
    let k5 = k4 + tf.len();
    let cn = child_names(v.child_instructions);
    assert(tokens =~= seq![tokens[0]] + tx + ty + tz + te + tf + cn);
    assert(tokens.subrange(1, k1 as int) =~= tx);
    assert(tokens.subrange(k1 as int, k2 as int) =~= ty);
    assert(tokens.subrange(k2 as int, k3 as int) =~= tz);
    assert(tokens.subrange(k3 as int, k4 as int) =~= te);
    assert(tokens.subrange(k4 as int, k5 as int) =~= tf);
    let m0 = MovementsView::empty();
    let m1 = with_optional(m0, "X"@, m.x);
    let m2 = with_optional(m1, "Y"@, m.y);
    let m3 = with_optional(m2, "Z"@, m.z);
    let m4 = with_optional(m3, "E"@, m.e);
    let m5 = with_optional(m4, "F"@, m.f);
    lemma_params_token(tokens, 1, seq![], m0, index, 'X', m.x);
    lemma_params_token(tokens, k1 as int, seq![], m1, index, 'Y', m.y);
    lemma_params_token(tokens, k2 as int, seq![], m2, index, 'Z', m.z);
    lemma_params_token(tokens, k3 as int, seq![], m3, index, 'E', m.e);
    lemma_params_token(tokens, k4 as int, seq![], m4, index, 'F', m.f);
    assert(k5 + cn.len() == tokens.len());
    assert(tokens.subrange(k5 as int, tokens.len() as int) =~= cn);
    assert(m5 == m);
    lemma_read_back_children(tokens, k5 as int, v.child_instructions, seq![], m, index);
    assert(seq![] + v.child_instructions =~= v.child_instructions);
}

/// Law: a line that `Instruction::to_gcode` writes is read back as the same instruction,
/// child instructions included, appended to the open block. This holds where every child
/// instruction is a `G24` (as those the reader makes are) and every movement value is a
/// float literal written as `Display` writes its value.
pub proof fn law_instruction_line_read_back(v: InstructionView, st: ParseView, index: usize)
    requires
        readable_children(v.child_instructions),
        literal_movements(v.movements),
        displayed_movements(v.movements),
    ensures
        line_step(st, joined(instruction_tokens(v)), index) == ParseOutcome::Running(
            ParseView {
                current: ModulView {
                    instructions: st.current.instructions.push(v),
                    ..st.current
                },
                ..st
            },
        ),
{
    let tokens = instruction_tokens(v);
    lemma_instruction_tokens(v);
    lemma_joined_chars(tokens);
    let line = joined(tokens);
    assert(!is_ws(line[0]));
    assert(!is_ws(line.last()));
    assert(trim(line) == line);
    lemma_find_char(line, ';', line.len() as int);
    lemma_words_joined(tokens);
    law_instruction_type_name_round_trip(v.instruction_type);
    lemma_read_back_params(v, index);
}

} // verus!
