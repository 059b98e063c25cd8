use chip8::instr::{assemble, Addr, Instr, Labels};
use chip8::parser::{ErrorLocation, ParseError, Parser};

fn parse(src: &str) -> Result<Vec<Instr>, ParseError> {
    Parser::new(src).parse()
}

fn err(pos: usize, message: &str) -> Result<Vec<Instr>, ParseError> {
    Err(ParseError { pos, message: message.to_string() })
}

fn label(s: &str) -> Addr {
    Addr::Label(s.to_string())
}

#[test]
fn parses_every_instruction_form() {
    let src = "\
cls
ret
j 0x123
call 291
jri0 16
jri $a, 5
seqi $1, 0x20
snei $2, 0b101
seq $3, $4
sne $5, $6
sk $7
snk $8
seti $9, 255
seti I, 0xABC
addi $b, 1
set $c, $d
or $0, $1
and $0, $1
xor $0, $1
add $0, $1
subf $0, $1
srlf $0, $1
subnf $0, $1
sllf $0, $1
add I, $e
rand $f, 0xff
sprite $1, $2, 15
bcd $3
set $4, DELAY
set $5, KEY
set DELAY, $6
set SOUND, $7
set I, FONT[$8]
set [I], $9
set $a, [I]
.word 0xBEEF
.byte 7
";
    let expected = vec![
        Instr::Cls,
        Instr::Ret,
        Instr::J(Addr::Val(0x123)),
        Instr::Call(Addr::Val(291)),
        Instr::Jri0(16),
        Instr::Jri(0xA, 5),
        Instr::Seqi(1, 0x20),
        Instr::Snei(2, 5),
        Instr::SeqReg(3, 4),
        Instr::Sne(5, 6),
        Instr::Sk(7),
        Instr::Snk(8),
        Instr::Seti(9, 255),
        Instr::SetAddrI(Addr::Val(0xABC)),
        Instr::Addi(0xB, 1),
        Instr::SetReg(0xC, 0xD),
        Instr::Or(0, 1),
        Instr::And(0, 1),
        Instr::Xor(0, 1),
        Instr::Add(0, 1),
        Instr::Subf(0, 1),
        Instr::Srlf(0, 1),
        Instr::Subnf(0, 1),
        Instr::Sllf(0, 1),
        Instr::AddMemI(0xE),
        Instr::Rand(0xF, 0xFF),
        Instr::Sprite(1, 2, 15),
        Instr::Bcd(3),
        Instr::GetDelay(4),
        Instr::GetKey(5),
        Instr::SetDelay(6),
        Instr::SetSound(7),
        Instr::SetFont(8),
        Instr::SetMemI(9),
        Instr::GetMemI(0xA),
        Instr::Word(0xBEEF),
        Instr::Byte(7),
    ];
    assert_eq!(parse(src), Ok(expected));
}

#[test]
fn registers_may_be_written_with_v() {
    assert_eq!(parse("set VA, VF"), Ok(vec![Instr::SetReg(0xA, 0xF)]));
    assert_eq!(parse("sprite V1, V2, 3"), Ok(vec![Instr::Sprite(1, 2, 3)]));
    assert_eq!(parse("set I, FONT[V3]"), Ok(vec![Instr::SetFont(3)]));
    assert_eq!(parse("add V1, $2"), Ok(vec![Instr::Add(1, 2)]));
}

#[test]
fn single_operand_shifts_use_register_zero() {
    assert_eq!(parse("srlf $3\nsllf $4"), Ok(vec![Instr::Srlf(3, 0), Instr::Sllf(4, 0)]));
}

#[test]
fn numbers() {
    assert_eq!(parse("jri0 0"), Ok(vec![Instr::Jri0(0)]));
    assert_eq!(parse("jri0 007"), Ok(vec![Instr::Jri0(7)]));
    assert_eq!(parse("jri0 0XfF"), Ok(vec![Instr::Jri0(255)]));
    assert_eq!(parse("jri0 0B11"), Ok(vec![Instr::Jri0(3)]));
    assert_eq!(parse("jri0 4095"), Ok(vec![Instr::Jri0(4095)]));
    assert_eq!(parse(".word 0xffff"), Ok(vec![Instr::Word(0xFFFF)]));
}

#[test]
fn labels_and_comments() {
    let src = "# a comment\nstart:\n  j start # jump back\ncall sub\nseti I, data\n";
    assert_eq!(
        parse(src),
        Ok(vec![
            Instr::Label("start".to_string()),
            Instr::J(label("start")),
            Instr::Call(label("sub")),
            Instr::SetAddrI(label("data")),
        ])
    );
}

#[test]
fn empty_and_blank_sources() {
    assert_eq!(parse(""), Ok(vec![]));
    assert_eq!(parse("  \n\t # only a comment"), Ok(vec![]));
}

#[test]
fn unicode_whitespace_is_skipped() {
    assert_eq!(parse("cls\u{3000}ret\u{a0}\u{2028}"), Ok(vec![Instr::Cls, Instr::Ret]));
}

#[test]
fn error_unknown_instruction() {
    assert_eq!(parse("cls\nfoo $1"), err(7, "unknown instruction `foo`"));
}

#[test]
fn error_unknown_directive() {
    assert_eq!(parse(".data 1"), err(5, "Unknown directive data"));
}

#[test]
fn error_expected_identifier() {
    assert_eq!(parse("."), err(1, "expected identifier"));
    assert_eq!(parse("cls 5"), err(4, "expected identifier, got `5`"));
}

#[test]
fn error_expected_char() {
    assert_eq!(parse("seqi $1 5"), err(8, "expected `,`, got `5`"));
    assert_eq!(parse("seqi $1"), err(7, "expected `,`, got EOF"));
    assert_eq!(parse("sk 1"), err(3, "expected `$`, got `1`"));
}

#[test]
fn error_register() {
    assert_eq!(parse("sk $"), err(4, "Expected register"));
    assert_eq!(parse("sk $g"), err(5, "Expected hex digit after `$`, got `g`"));
}

#[test]
fn error_positions_are_byte_offsets() {
    // "é" takes two bytes
    assert_eq!(parse("# é\nsk $é"), err(11, "Expected hex digit after `$`, got `é`"));
}

#[test]
fn error_numbers() {
    assert_eq!(parse("jri0 x"), err(5, "expected digits"));
    assert_eq!(parse("jri0 0x"), err(5, "expected digits"));
    assert_eq!(parse("jri0 65536"), err(10, "Number does not fit in u16"));
    assert_eq!(parse("jri0 0x4000"), err(11, "Address 0x4000 does not fit in 12 bits"));
    assert_eq!(parse("jri0 4096"), err(9, "Address 0x1000 does not fit in 12 bits"));
    assert_eq!(parse("seti $1, 256"), err(12, "Value 0x100 does not fit in a byte"));
    assert_eq!(parse("sprite $1, $2, 16"), err(17, "Value 0x10 does not fit in a nibble"));
    assert_eq!(parse("j 4096"), err(6, "Address 0x1000 does not fit in 12 bits"));
}

#[test]
fn error_address_eof() {
    assert_eq!(parse("j "), err(2, "Expected address, but got EOF"));
}

#[test]
fn error_set_operands() {
    assert_eq!(parse("set $1, FOO"), err(11, "Expected either DELAY or KEY but got FOO"));
    assert_eq!(parse("set FOO, $1"), err(11, "Expected either DELAY or SOUND but got FOO"));
    assert_eq!(parse("set I, FNT[$1]"), err(10, "Expected FONT but got FNT"));
}

#[test]
fn label_lookup_assigns_addresses() {
    let instrs = parse("cls\nloop:\nj loop\n.byte 1\nend:\nend2:\nret").unwrap();
    let labels = Instr::label_lookup(&instrs).unwrap();
    assert_eq!(labels.get(&"loop".to_string()), Some(0x202));
    assert_eq!(labels.get(&"end".to_string()), Some(0x206));
    assert_eq!(labels.get(&"end2".to_string()), Some(0x206));
    assert_eq!(labels.get(&"nothing".to_string()), None);
}

#[test]
fn label_lookup_reports_duplicates_then_undefined() {
    let instrs = parse("a:\nj b\ncall c\na:\nseti I, b\na:").unwrap();
    assert_eq!(
        Instr::label_lookup(&instrs).err(),
        Some(vec![
            "Duplicate label a".to_string(),
            "Duplicate label a".to_string(),
            "Undefined label b".to_string(),
            "Undefined label c".to_string(),
        ])
    );
}

#[test]
fn first_definition_of_a_label_wins() {
    let mut labels = Labels::new();
    assert!(labels.define("x".to_string(), 0x200));
    assert!(!labels.define("x".to_string(), 0x300));
    assert_eq!(labels.get(&"x".to_string()), Some(0x200));
}

#[test]
fn to_bytes_encodes_big_endian() {
    let labels = Labels::new();
    assert_eq!(Instr::Cls.to_bytes(&labels), vec![0x00, 0xE0]);
    assert_eq!(Instr::Sprite(1, 2, 3).to_bytes(&labels), vec![0xD1, 0x23]);
    assert_eq!(Instr::Seti(0xA, 0x42).to_bytes(&labels), vec![0x6A, 0x42]);
    assert_eq!(Instr::SetFont(5).to_bytes(&labels), vec![0xF5, 0x29]);
    assert_eq!(Instr::Jri0(0x345).to_bytes(&labels), vec![0xB3, 0x45]);
    assert_eq!(Instr::Word(0x1234).to_bytes(&labels), vec![0x12, 0x34]);
    assert_eq!(Instr::Byte(0x99).to_bytes(&labels), vec![0x99]);
    assert_eq!(Instr::Label("x".to_string()).to_bytes(&labels), Vec::<u8>::new());
}

#[test]
fn to_bytes_resolves_labels() {
    let mut labels = Labels::new();
    labels.define("target".to_string(), 0x2A4);
    assert_eq!(Instr::J(label("target")).to_bytes(&labels), vec![0x12, 0xA4]);
    assert_eq!(Instr::Call(label("target")).to_bytes(&labels), vec![0x22, 0xA4]);
    assert_eq!(Instr::SetAddrI(label("target")).to_bytes(&labels), vec![0xA2, 0xA4]);
}

#[test]
fn assemble_whole_program() {
    let instrs = parse("start:\nseti $0, 1\nadd $0, $1\nj start\n.byte 0xff").unwrap();
    assert_eq!(assemble(&instrs), Ok(vec![0x60, 0x01, 0x80, 0x14, 0x12, 0x00, 0xFF]));
    let bad = parse("j nowhere").unwrap();
    assert_eq!(assemble(&bad), Err(vec!["Undefined label nowhere".to_string()]));
}

#[test]
fn error_location() {
    let src = "cls\n  sk $x\nret";
    let e = parse(src).unwrap_err();
    assert_eq!(e.pos, 11);
    assert_eq!(
        e.location(src),
        ErrorLocation { line: 2, line_start: 4, line_end: 11, column: 7 }
    );
    let e = ParseError { pos: 0, message: String::new() };
    assert_eq!(e.location("abc"), ErrorLocation { line: 1, line_start: 0, line_end: 3, column: 0 });
}

#[test]
fn joined_programs_parse_to_both() {
    let pairs = [
        ("cls", "ret"),
        ("srlf $1", "sllf $2, $3"),
        ("l:\nj l # loop", ".word 0x1234"),
        ("seti $0, 5", "   # only a comment"),
        ("", "call 0"),
    ];
    for (a, b) in pairs {
        let mut both = parse(a).unwrap();
        both.extend(parse(b).unwrap());
        assert_eq!(parse(&format!("{a}\n{b}")), Ok(both), "{a} / {b}");
    }
}

#[test]
fn error_positions_lie_on_character_boundaries() {
    for src in ["cls\né", "seti $0, ü", "ß", "set $1, ÄÖ", "jri0 0x4000 é"] {
        let e = parse(src).unwrap_err();
        assert!(e.pos <= src.len(), "{src}");
        assert!(src.is_char_boundary(e.pos), "{src}");
    }
}
