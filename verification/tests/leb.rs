use gorilla::helpers::{leb128_unsigned, span_to_line};
use gorilla::ast::Span;
use gorilla::grammar::Grammar;
use gorilla::leb::decode_unsigned;

#[test]
fn leb128_encodes_known_values() {
    assert_eq!(leb128_unsigned(0), vec![0]);
    assert_eq!(leb128_unsigned(127), vec![0x7f]);
    assert_eq!(leb128_unsigned(128), vec![0x80, 0x01]);
    assert_eq!(leb128_unsigned(624485), vec![0xe5, 0x8e, 0x26]);
    assert_eq!(
        leb128_unsigned(u64::MAX),
        vec![0xff, 0xff, 0xff, 0xff, 0xff, 0xff, 0xff, 0xff, 0xff, 0x01]
    );
}

#[test]
fn leb128_round_trips() {
    for v in [0u64, 1, 127, 128, 300, 16383, 16384, 624485, 1 << 32, (1 << 63) - 1, 1 << 63, u64::MAX] {
        assert_eq!(decode_unsigned(&leb128_unsigned(v)), Some(v));
    }
}

#[test]
fn leb128_decoder_reads_the_front_only() {
    assert_eq!(decode_unsigned(&vec![0xe5, 0x8e, 0x26, 0xff, 0xff]), Some(624485));
    assert_eq!(decode_unsigned(&vec![0x84, 0x80, 0x00]), Some(4));
}

#[test]
fn leb128_decoder_rejects_bad_input() {
    assert_eq!(decode_unsigned(&vec![]), None);
    assert_eq!(decode_unsigned(&vec![0x80]), None);
    assert_eq!(decode_unsigned(&vec![0xe5, 0x8e]), None);
    assert_eq!(
        decode_unsigned(&vec![0xff, 0xff, 0xff, 0xff, 0xff, 0xff, 0xff, 0xff, 0xff, 0x02]),
        None
    );
    assert_eq!(
        decode_unsigned(&vec![0x80, 0x80, 0x80, 0x80, 0x80, 0x80, 0x80, 0x80, 0x80, 0x80, 0x00]),
        None
    );
}

#[test]
fn span_to_line_counts_line_feeds_before_the_start() {
    let src = "a\nbb\n\nc";
    assert_eq!(span_to_line(src, Span { start: 0, end: 1 }), 0);
    assert_eq!(span_to_line(src, Span { start: 1, end: 2 }), 0);
    assert_eq!(span_to_line(src, Span { start: 2, end: 4 }), 1);
    assert_eq!(span_to_line(src, Span { start: 5, end: 5 }), 2);
    assert_eq!(span_to_line(src, Span { start: 6, end: 7 }), 3);
    assert_eq!(span_to_line(src, Span { start: 600, end: 700 }), 3);
    assert_eq!(span_to_line("", Span { start: 0, end: 0 }), 0);
}

#[test]
fn opcodes_have_their_bytes() {
    let all = [
        (Grammar::Magic, 0x69u8),
        (Grammar::Pop, 1),
        (Grammar::Noop, 2),
        (Grammar::Advance, 3),
        (Grammar::Back, 4),
        (Grammar::Integer, 5),
        (Grammar::String, 6),
        (Grammar::Null, 7),
        (Grammar::Getvar, 8),
        (Grammar::Setvar, 9),
        (Grammar::GetInstance, 10),
        (Grammar::Call, 11),
        (Grammar::JumpIfFalse, 12),
        (Grammar::Jump, 13),
        (Grammar::JumpTo, 14),
        (Grammar::Function, 15),
    ];
    for (g, byte) in all {
        assert_eq!(u8::from(g), byte);
        assert_eq!(g.to_byte(), byte);
        assert_eq!(Grammar::from(byte), g);
        assert_eq!(Grammar::from_byte(byte), Some(g));
    }
    assert_eq!(Grammar::from_byte(0), None);
    assert_eq!(Grammar::from_byte(16), None);
    assert_eq!(Grammar::from(200), Grammar::Noop);
}
