//! G-code: reading it into blocks of instructions, and writing instructions back.
use vstd::prelude::*;
use crate::text::{append_str, is_ws, lemma_words_concat, lemma_words_single, lemma_words_trailing_ws, no_ws, words};
use self::instruction::{InstructionType, instruction_type_name};
use self::movement::{Movements, movement_tokens, token_of};

pub mod instruction;
pub mod mesh;
pub mod movement;
pub mod parser;
pub mod path;
pub mod state;

verus! {

/// G-code read into blocks of instructions.
pub type GCode = Vec<self::instruction::InstructionModul>;

/// The settings for turning G-code into meshes; there are none yet.
pub struct MeshSettings {}

/// Words joined by single spaces.
pub open spec fn joined(tokens: Seq<Seq<char>>) -> Seq<char>
    decreases tokens.len(),
{
    if tokens.len() == 0 {
        seq![]
    } else if tokens.len() == 1 {
        tokens[0]
    } else {
        joined(tokens.drop_last()) + seq![' '] + tokens.last()
    }
}

/// A [`SourceBuilder`] as a value: whether nothing was written yet, and the text so far.
pub struct SourceView {
    pub first: bool,
    pub source: Seq<char>,
}

/// The builder after writing one more word.
pub open spec fn pushed(b: SourceView, token: Seq<char>) -> SourceView {
    SourceView {
        first: false,
        source: if b.first {
            b.source + token
        } else {
            b.source + seq![' '] + token
        },
    }
}

/// The builder after writing several words in turn.
pub open spec fn pushed_all(b: SourceView, tokens: Seq<Seq<char>>) -> SourceView
    decreases tokens.len(),
{
    if tokens.len() == 0 {
        b
    } else {
        pushed(pushed_all(b, tokens.drop_last()), tokens.last())
    }
}

pub open spec fn fresh_source() -> SourceView {
    SourceView { first: true, source: seq![] }
}

/// A builder is in order when it is marked as having written nothing exactly when its text
/// is empty.
pub open spec fn source_wf(b: SourceView) -> bool {
    b.first == (b.source.len() == 0)
}

/// The text that writing the non-empty words `tokens` appends to `source`: nothing where
/// there are none, the words joined by spaces where `source` is empty, and otherwise a
/// space and the words joined by spaces.
pub open spec fn appended(source: Seq<char>, tokens: Seq<Seq<char>>) -> Seq<char> {
    if tokens.len() == 0 {
        source
    } else if source.len() == 0 {
        joined(tokens)
    } else {
        source + seq![' '] + joined(tokens)
    }
}

proof fn lemma_joined_nonempty(tokens: Seq<Seq<char>>)
    requires
        tokens.len() > 0,
        forall|k: int| 0 <= k < tokens.len() ==> (#[trigger] tokens[k]).len() > 0,
    ensures
        joined(tokens).len() > 0,
    decreases tokens.len(),
{
    assert(tokens[tokens.len() - 1].len() > 0);
}

/// Law: writing non-empty words to a builder that is in order keeps it in order and
/// appends the words to its text, separated from it and from one another by single spaces.
pub proof fn law_builder_appends(b: SourceView, tokens: Seq<Seq<char>>)
    requires
        source_wf(b),
        forall|k: int| 0 <= k < tokens.len() ==> (#[trigger] tokens[k]).len() > 0,
    ensures
        source_wf(pushed_all(b, tokens)),
        pushed_all(b, tokens).source == appended(b.source, tokens),
    decreases tokens.len(),
{
    if tokens.len() > 0 {
        let init = tokens.drop_last();
        assert forall|k: int| 0 <= k < init.len() implies (#[trigger] init[k]).len() > 0 by {
            assert(init[k] == tokens[k]);
        }
        law_builder_appends(b, init);
        assert(tokens[tokens.len() - 1].len() > 0);
        if init.len() == 0 {
            assert(Seq::<char>::empty() + tokens.last() =~= tokens.last());
        } else {
            lemma_joined_nonempty(init);
            if b.source.len() > 0 {
                assert(b.source + seq![' '] + joined(init) + seq![' '] + tokens.last() =~= b.source
                    + seq![' '] + (joined(init) + seq![' '] + tokens.last()));
            }
        }
    }
}

/// Law: writing the parameters of `m` to a builder that is in order appends their G-code,
/// as [`Movements::to_gcode`](self::movement::Movements::to_gcode) writes it, to the text:
/// nothing where no parameter is set, and otherwise after a space unless the text is empty.
pub proof fn law_push_movements_appends(b: SourceView, m: self::movement::MovementsView)
    requires
        source_wf(b),
    ensures
        source_wf(pushed_all(b, movement_tokens(m))),
        pushed_all(b, movement_tokens(m)).source == if joined(movement_tokens(m)).len() == 0 {
            b.source
        } else if b.source.len() == 0 {
            joined(movement_tokens(m))
        } else {
            b.source + seq![' '] + joined(movement_tokens(m))
        },
{
    self::movement::lemma_movement_tokens_nonempty(m);
    law_builder_appends(b, movement_tokens(m));
    if movement_tokens(m).len() > 0 {
        lemma_joined_nonempty(movement_tokens(m));
    }
}

/// Law: a fresh builder that is given some words holds them joined by single spaces.
pub proof fn law_builder_joins(tokens: Seq<Seq<char>>)
    ensures
        pushed_all(fresh_source(), tokens) == (SourceView {
            first: tokens.len() == 0,
            source: joined(tokens),
        }),
    decreases tokens.len(),
{
    if tokens.len() > 0 {
        law_builder_joins(tokens.drop_last());
        if tokens.len() == 1 {
            assert(tokens.drop_last() =~= Seq::<Seq<char>>::empty());
            assert(Seq::<char>::empty() + tokens[0] =~= tokens[0]);
        }
    }
}

pub(crate) proof fn lemma_pushed_all_concat(b: SourceView, s: Seq<Seq<char>>, t: Seq<Seq<char>>)
    ensures
        pushed_all(b, s + t) == pushed_all(pushed_all(b, s), t),
    decreases t.len(),
{
    if t.len() == 0 {
        assert(s + t =~= s);
    } else {
        assert((s + t).drop_last() =~= s + t.drop_last());
        lemma_pushed_all_concat(b, s, t.drop_last());
    }
}

/// A word that can stand in a G-code line: not empty, without whitespace and without `;`.
pub open spec fn plain_word(t: Seq<char>) -> bool {
    &&& t.len() > 0
    &&& no_ws(t)
    &&& forall|i: int| 0 <= i < t.len() ==> #[trigger] t[i] != ';'
}

/// Words joined by spaces split back into the same words.
pub proof fn lemma_words_joined(tokens: Seq<Seq<char>>)
    requires
        forall|k: int| 0 <= k < tokens.len() ==> plain_word(#[trigger] tokens[k]),
    ensures
        words(joined(tokens)) == tokens,
    decreases tokens.len(),
{
    if tokens.len() == 0 {
        assert(words(Seq::<char>::empty()) =~= Seq::<Seq<char>>::empty());
    } else if tokens.len() == 1 {
        assert(plain_word(tokens[0]));
        lemma_words_single(tokens[0]);
        assert(seq![tokens[0]] =~= tokens);
    } else {
        let init = tokens.drop_last();
        assert forall|k: int| 0 <= k < init.len() implies plain_word(#[trigger] init[k]) by {
            assert(init[k] == tokens[k]);
        }
        lemma_words_joined(init);
        let a = joined(init) + seq![' '];
        assert(is_ws(' '));
        assert(a.last() == ' ');
        lemma_words_concat(a, tokens.last());
        lemma_words_trailing_ws(joined(init), ' ');
        assert(plain_word(tokens[tokens.len() - 1]));
        lemma_words_single(tokens.last());
        assert(init + seq![tokens.last()] =~= tokens);
    }
}

/// The characters of words joined by spaces: no `;`, and the first and last are those of
/// the first and last word.
pub proof fn lemma_joined_chars(tokens: Seq<Seq<char>>)
    requires
        tokens.len() > 0,
        forall|k: int| 0 <= k < tokens.len() ==> plain_word(#[trigger] tokens[k]),
    ensures
        joined(tokens).len() > 0,
        joined(tokens)[0] == tokens[0][0],
        joined(tokens).last() == tokens.last().last(),
        forall|i: int| 0 <= i < joined(tokens).len() ==> #[trigger] joined(tokens)[i] != ';',
    decreases tokens.len(),
{
    assert(plain_word(tokens[0]));
    assert(plain_word(tokens[tokens.len() - 1]));
    if tokens.len() > 1 {
        let init = tokens.drop_last();
        assert forall|k: int| 0 <= k < init.len() implies plain_word(#[trigger] init[k]) by {
            assert(init[k] == tokens[k]);
        }
        lemma_joined_chars(init);
        let j = joined(tokens);
        let ji = joined(init);
        let l = tokens.last();
        assert(j == ji + seq![' '] + l);
        assert forall|i: int| 0 <= i < j.len() implies #[trigger] j[i] != ';' by {
            if i < ji.len() {
                assert(j[i] == ji[i]);
            } else if i == ji.len() {
                assert(j[i] == ' ');
            } else {
                assert(j[i] == l[i - ji.len() - 1]);
            }
        }
        assert(j[0] == ji[0]);
    }
}

/// Builds one line of G-code from words.
pub struct SourceBuilder {
    first: bool,
    source: String,
}

impl View for SourceBuilder {
    type V = SourceView;

    closed spec fn view(&self) -> SourceView {
        SourceView { first: self.first, source: self.source@ }
    }
}

impl SourceBuilder {
    pub fn new() -> (r: Self)
        ensures
            r@ == fresh_source(),
            source_wf(r@),
    {
        SourceBuilder { first: true, source: String::new() }
    }

    fn push_word(&mut self, word: &str)
        requires
            source_wf(old(self)@),
            word@.len() > 0,
        ensures
            final(self)@ == pushed(old(self)@, word@),
            source_wf(final(self)@),
    {
        let ghost b = self@;
        if !self.first {
            append_str(&mut self.source, " ");
            proof {
                reveal_strlit(" ");
                assert(" "@ =~= seq![' ']);
            }
        } else {
            self.first = false;
        }
        append_str(&mut self.source, word);
        assert(self@.source =~= pushed(b, word@).source);
    }

    /// Writes the word of one movement parameter: its name followed by its value's text,
    /// which together are not empty.
    pub fn push_movement(&mut self, movement_str: &str, value: &str)
        requires
            source_wf(old(self)@),
            movement_str@.len() + value@.len() > 0,
        ensures
            final(self)@ == pushed(old(self)@, movement_str@ + value@),
            source_wf(final(self)@),
    {
        let ghost b = self@;
        if !self.first {
            append_str(&mut self.source, " ");
            proof {
                reveal_strlit(" ");
                assert(" "@ =~= seq![' ']);
            }
        } else {
            self.first = false;
        }
        append_str(&mut self.source, movement_str);
        append_str(&mut self.source, value);
        assert(self@.source =~= pushed(b, movement_str@ + value@).source);
    }

    /// Writes the words of the set parameters, in the order X, Y, Z, E, F.
    pub fn push_movements(&mut self, movements: &Movements)
        requires
            source_wf(old(self)@),
        ensures
            final(self)@ == pushed_all(old(self)@, movement_tokens(movements@)),
            source_wf(final(self)@),
    {
        proof {
            reveal_strlit("X");
            reveal_strlit("Y");
            reveal_strlit("Z");
            reveal_strlit("E");
            reveal_strlit("F");
        }
        let ghost b0 = self@;
        let ghost tx = token_of("X"@, movements@.x);
        let ghost ty = token_of("Y"@, movements@.y);
        let ghost tz = token_of("Z"@, movements@.z);
        let ghost te = token_of("E"@, movements@.e);
        let ghost tf = token_of("F"@, movements@.f);
        if let Some(x) = &movements.X {
            self.push_movement("X", x.as_str());
        }
        assert(self@ == pushed_all(b0, tx)) by {
            reveal_with_fuel(pushed_all, 2);
            assert(seq![] + tx =~= tx);
        }
        if let Some(y) = &movements.Y {
            self.push_movement("Y", y.as_str());
        }
        proof {
            reveal_with_fuel(pushed_all, 2);
            lemma_pushed_all_concat(b0, tx, ty);
        }
        if let Some(z) = &movements.Z {
            self.push_movement("Z", z.as_str());
        }
        proof {
            reveal_with_fuel(pushed_all, 2);
            lemma_pushed_all_concat(b0, tx + ty, tz);
        }
        if let Some(e) = &movements.E {
            self.push_movement("E", e.as_str());
        }
        proof {
            reveal_with_fuel(pushed_all, 2);
            lemma_pushed_all_concat(b0, tx + ty + tz, te);
        }
        if let Some(f) = &movements.F {
            self.push_movement("F", f.as_str());
        }
        proof {
            reveal_with_fuel(pushed_all, 2);
            lemma_pushed_all_concat(b0, tx + ty + tz + te, tf);
        }
    }

    /// Writes the command word of an instruction type.
    pub fn push_instruction(&mut self, instruction: InstructionType)
        requires
            source_wf(old(self)@),
        ensures
            final(self)@ == pushed(old(self)@, instruction_type_name(instruction)),
            source_wf(final(self)@),
    {
        proof {
            reveal_strlit("G1");
            reveal_strlit("G0");
            reveal_strlit("G24");
            reveal_strlit("M30");
        }
        self.push_word(instruction.name());
    }

    /// The line written so far.
    pub fn finish(self) -> (r: String)
        ensures
            r@ == self@.source,
    {
        self.source
    }
}

} // verus!
