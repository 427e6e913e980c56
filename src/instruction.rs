use vstd::prelude::*;

use crate::text::{
    chars_of, integer_value, is_digit, lemma_integer_text_is_word, parse_integer_in, split_tokens,
    tokens,
};

verus! {

/// An operand of an instruction: an address literal and whether it is read
/// through one level of indirection (`&`) or used as it is (`$`).
#[derive(Debug, Clone, PartialEq, Eq)]
pub struct Operand {
    pub literal: String,
    pub indirect: bool,
}

pub struct OperandView {
    pub literal: Seq<char>,
    pub indirect: bool,
}

impl View for Operand {
    type V = OperandView;

    open spec fn view(&self) -> OperandView {
        OperandView { literal: self.literal@, indirect: self.indirect }
    }
}

/// A decoded instruction.
#[derive(Debug, Clone, PartialEq, Eq)]
pub enum Instruction {
    /// Increment the counter at the target address.
    Succ { target: Operand },
    /// Jump to `jump` when the counter at `test` is zero, else decrement it.
    BeqzPred { test: Operand, jump: Operand },
    /// Halt.
    Exit,
}

pub enum InstructionView {
    Succ { target: OperandView },
    BeqzPred { test: OperandView, jump: OperandView },
    Exit,
}

impl View for Instruction {
    type V = InstructionView;

    open spec fn view(&self) -> InstructionView {
        match self {
            Instruction::Succ { target } => InstructionView::Succ { target: target@ },
            Instruction::BeqzPred { test, jump } => InstructionView::BeqzPred {
                test: test@,
                jump: jump@,
            },
            Instruction::Exit => InstructionView::Exit,
        }
    }
}

/// The model of an optional instruction.
pub open spec fn opt_view(r: Option<Instruction>) -> Option<InstructionView> {
    match r {
        Some(i) => Some(i@),
        None => None,
    }
}

pub open spec fn exit_word() -> Seq<char> {
    seq!['e', 'x', 'i', 't']
}

pub open spec fn succ_word() -> Seq<char> {
    seq!['s', 'u', 'c', 'c']
}

pub open spec fn beqz_pred_word() -> Seq<char> {
    seq!['b', 'e', 'q', 'z', '-', 'p', 'r', 'e', 'd']
}

/// An operand token: `&` or `$` followed at once by an integer literal.
pub open spec fn decode_operand(tok: Seq<char>) -> Option<OperandView> {
    if tok.len() > 0 && (tok[0] == '&' || tok[0] == '$') && integer_value(tok.skip(1)) is Some {
        Some(OperandView { literal: tok.skip(1), indirect: tok[0] == '&' })
    } else {
        None
    }
}

/// The instruction that the text `s` spells, or `None` when it spells none:
/// `exit`, `succ <operand>` or `beqz-pred <operand> <operand>`, as
/// whitespace-separated tokens and with nothing more.
pub open spec fn decode(s: Seq<char>) -> Option<InstructionView> {
    let t = tokens(s);
    if t.len() == 1 && t[0] == exit_word() {
        Some(InstructionView::Exit)
    } else if t.len() == 2 && t[0] == succ_word() {
        match decode_operand(t[1]) {
            Some(o) => Some(InstructionView::Succ { target: o }),
            None => None,
        }
    } else if t.len() == 3 && t[0] == beqz_pred_word() {
        match (decode_operand(t[1]), decode_operand(t[2])) {
            (Some(a), Some(b)) => Some(InstructionView::BeqzPred { test: a, jump: b }),
            _ => None,
        }
    } else {
        None
    }
}

/// Whether `cs[a..b]` is the word `w`.
fn span_is(cs: &Vec<char>, a: usize, b: usize, w: &Vec<char>) -> (r: bool)
    requires
        a <= b <= cs@.len(),
    ensures
        r == (cs@.subrange(a as int, b as int) == w@),
{
    if b - a != w.len() {
        return false;
    }
    let mut k: usize = 0;
    while k < w.len()
        invariant
            a <= b <= cs@.len(),
            b - a == w@.len(),
            k <= w@.len(),
            forall|j: int| 0 <= j < k ==> cs@[a + j] == w@[j],
        decreases w@.len() - k,
    {
        if cs[a + k] != w[k] {
            assert(cs@.subrange(a as int, b as int)[k as int] != w@[k as int]);
            return false;
        }
        k = k + 1;
    }
    assert(cs@.subrange(a as int, b as int) =~= w@);
    true
}

/// The operand that `cs[a..b]` spells; its literal is taken from `s`, whose
/// characters `cs` holds.
fn operand_at(s: &str, cs: &Vec<char>, a: usize, b: usize) -> (r: Option<Operand>)
    requires
        cs@ == s@,
        a <= b <= cs@.len(),
    ensures
        decode_operand(cs@.subrange(a as int, b as int)) == match r {
            Some(o) => Some(o@),
            None => None::<OperandView>,
        },
{
    let ghost tok = cs@.subrange(a as int, b as int);
    if a < b && (cs[a] == '&' || cs[a] == '$') {
        assert(tok.skip(1) =~= cs@.subrange(a + 1, b as int));
        if parse_integer_in(cs, a + 1, b).is_some() {
            let literal = s.substring_char(a + 1, b).to_owned();
            Some(Operand { literal, indirect: cs[a] == '&' })
        } else {
            None
        }
    } else {
        None
    }
}

impl Instruction {
    /// Decodes the text of one memory cell.
    pub fn parse(s: &str) -> (r: Option<Instruction>)
        ensures
            opt_view(r) == decode(s@),
    {
        let cs = chars_of(s);
        let spans = split_tokens(&cs);
        let exit = vec!['e', 'x', 'i', 't'];
        let succ = vec!['s', 'u', 'c', 'c'];
        let beqz = vec!['b', 'e', 'q', 'z', '-', 'p', 'r', 'e', 'd'];
        assert(exit@ =~= exit_word());
        assert(succ@ =~= succ_word());
        assert(beqz@ =~= beqz_pred_word());
        if spans.len() == 1 && span_is(&cs, spans[0].0, spans[0].1, &exit) {
            Some(Instruction::Exit)
        } else if spans.len() == 2 && span_is(&cs, spans[0].0, spans[0].1, &succ) {
            match operand_at(s, &cs, spans[1].0, spans[1].1) {
                Some(target) => Some(Instruction::Succ { target }),
                None => None,
            }
        } else if spans.len() == 3 && span_is(&cs, spans[0].0, spans[0].1, &beqz) {
            let test = operand_at(s, &cs, spans[1].0, spans[1].1);
            let jump = operand_at(s, &cs, spans[2].0, spans[2].1);
            match (test, jump) {
                (Some(test), Some(jump)) => Some(Instruction::BeqzPred { test, jump }),
                _ => None,
            }
        } else {
            None
        }
    }
}

/// Tokens of the form `exit`.
pub open spec fn exit_shape(t: Seq<Seq<char>>) -> bool {
    t == seq![exit_word()]
}

/// Tokens of the form `succ <operand>`.
pub open spec fn succ_shape(t: Seq<Seq<char>>) -> bool {
    t.len() == 2 && t[0] == succ_word() && decode_operand(t[1]) is Some
}

/// Tokens of the form `beqz-pred <operand> <operand>`.
pub open spec fn beqz_pred_shape(t: Seq<Seq<char>>) -> bool {
    t.len() == 3 && t[0] == beqz_pred_word() && decode_operand(t[1]) is Some && decode_operand(
        t[2],
    ) is Some
}

/// Decoding is total: every text either decodes to the one instruction that
/// its shape names (`exit`, `succ` with one operand, `beqz-pred` with two) or
/// is rejected, and nothing but the text decides which.
pub proof fn decode_total(s: Seq<char>)
    ensures
        (decode(s) == Some(InstructionView::Exit)) == exit_shape(tokens(s)),
        (decode(s) matches Some(InstructionView::Succ { target })) == succ_shape(tokens(s)),
        (decode(s) matches Some(InstructionView::BeqzPred { test, jump })) == beqz_pred_shape(
            tokens(s),
        ),
        (decode(s) is None) == (!exit_shape(tokens(s)) && !succ_shape(tokens(s))
            && !beqz_pred_shape(tokens(s))),
{
    let t = tokens(s);
    if t.len() == 1 && t[0] == exit_word() {
        assert(t =~= seq![exit_word()]);
    }
    if exit_shape(t) {
        assert(t[0] == exit_word());
    }
}

/// Decoding the same text twice gives the same instruction.
pub proof fn decode_is_deterministic(s1: Seq<char>, s2: Seq<char>, r1: Option<Instruction>, r2: Option<Instruction>)
    requires
        s1 == s2,
        opt_view(r1) == decode(s1),
        opt_view(r2) == decode(s2),
    ensures
        opt_view(r1) == opt_view(r2),
{
}

/// The text of an integer never decodes as an instruction.
pub proof fn lemma_integer_text_is_not_instruction(t: Seq<char>)
    requires
        integer_value(t) is Some,
    ensures
        decode(t) is None,
{
    lemma_integer_text_is_word(t);
    if t == exit_word() {
        assert(t[0] == 'e');
        assert(!is_digit('e'));
    }
    assert(tokens(t)[0] == t);
}

} // verus!
