use counter_vm::instruction::{Instruction, Operand};
use counter_vm::text::{chars_of, decimal_string, parse_integer, split_tokens};

fn op(literal: &str, indirect: bool) -> Operand {
    Operand { literal: literal.to_string(), indirect }
}

#[test]
fn decodes_exit() {
    assert_eq!(Instruction::parse("exit"), Some(Instruction::Exit));
    assert_eq!(Instruction::parse("  exit \t"), Some(Instruction::Exit));
}

#[test]
fn decodes_succ_in_both_modes() {
    assert_eq!(
        Instruction::parse("succ $3"),
        Some(Instruction::Succ { target: op("3", false) })
    );
    assert_eq!(
        Instruction::parse("  succ   &-12 "),
        Some(Instruction::Succ { target: op("-12", true) })
    );
}

#[test]
fn decodes_beqz_pred() {
    assert_eq!(
        Instruction::parse("beqz-pred &1 $2"),
        Some(Instruction::BeqzPred { test: op("1", true), jump: op("2", false) })
    );
}

#[test]
fn decoder_splits_on_unicode_whitespace() {
    assert_eq!(
        Instruction::parse("succ\u{3000}$4"),
        Some(Instruction::Succ { target: op("4", false) })
    );
}

#[test]
fn decoder_rejects_malformed_text() {
    for text in [
        "",
        "   ",
        "exit now",
        "EXIT",
        "succ",
        "succ 3",
        "succ $",
        "succ $x",
        "succ $1x",
        "succ &&1",
        "succ $1 $2",
        "beqz-pred $1",
        "beqz-pred $1 2",
        "beqz-pred $1 $2 $3",
        "jump $1",
        "42",
    ] {
        assert_eq!(Instruction::parse(text), None, "{text:?}");
    }
}

#[test]
fn decoding_twice_gives_equal_instructions() {
    for text in ["exit", "succ &5", "beqz-pred $0 &9", "bogus"] {
        assert_eq!(Instruction::parse(text), Instruction::parse(text));
    }
}

#[test]
fn integers_parse_like_signed_64_bit_literals() {
    assert_eq!(parse_integer("0"), Some(0));
    assert_eq!(parse_integer("+5"), Some(5));
    assert_eq!(parse_integer("-17"), Some(-17));
    assert_eq!(parse_integer("007"), Some(7));
    assert_eq!(parse_integer("9223372036854775807"), Some(i64::MAX));
    assert_eq!(parse_integer("-9223372036854775808"), Some(i64::MIN));
    assert_eq!(parse_integer("9223372036854775808"), None);
    assert_eq!(parse_integer("-9223372036854775809"), None);
    assert_eq!(parse_integer(""), None);
    assert_eq!(parse_integer("-"), None);
    assert_eq!(parse_integer(" 1"), None);
    assert_eq!(parse_integer("1 "), None);
    assert_eq!(parse_integer("12a"), None);
}

#[test]
fn decimal_text_of_integers() {
    assert_eq!(decimal_string(0), "0");
    assert_eq!(decimal_string(7), "7");
    assert_eq!(decimal_string(1203), "1203");
    assert_eq!(decimal_string(-45), "-45");
    assert_eq!(decimal_string(9223372036854775808), "9223372036854775808");
}

#[test]
fn tokens_are_runs_without_whitespace() {
    let cs = chars_of("  ab c\tdef ");
    assert_eq!(split_tokens(&cs), vec![(2, 4), (5, 6), (7, 10)]);
    assert_eq!(split_tokens(&chars_of("")), vec![]);
}

#[test]
fn decimal_text_reads_back_as_the_same_integer() {
    for v in [0i64, 1, -1, 99, -12345, i64::MAX, i64::MIN] {
        assert_eq!(parse_integer(&decimal_string(v as i128)), Some(v));
    }
}
