use chip8::disasm::{disassemble, Opcode};
use chip8::emu_disasm;
use chip8::chip8::{Chip8, Fault};
use chip8::instr::{assemble, Addr, Instr, Labels};
use chip8::parser::Parser;
use chip8::sound::{sound_action, wav_header, SoundAction};
use chip8::viewer::{dump_lines, scroll, ScrollKey};

fn text(w: u16) -> String {
    Opcode::new(w, 0x200).format_inst(true, false)
}

fn emu_text(w: u16) -> String {
    emu_disasm::Opcode::new(w, 0x200).format_inst(true, false)
}

#[test]
fn formats_instructions() {
    let cases: Vec<(u16, &str)> = vec![
        (0x00E0, "cls"),
        (0x00EE, "ret"),
        (0x0123, ".word 0x0123"),
        (0x1ABC, "j 0xabc"),
        (0x2123, "call 291"),
        (0x3A05, "seqi $a, 5"),
        (0x4B10, "snei $b, 16"),
        (0x5120, "seq $1, $2"),
        (0x6F00, "seti $f, 0"),
        (0x7C80, "addi $c, 128"),
        (0x8120, "set $1, $2"),
        (0x8121, "or $1, $2"),
        (0x8122, "and $1, $2"),
        (0x8123, "xor $1, $2"),
        (0x8124, "add $1, $2"),
        (0x8125, "subf $1, $2"),
        (0x8126, "srlf $1, $2"),
        (0x8127, "subnf $1, $2"),
        (0x812E, "sllf $1, $2"),
        (0x8128, ".word 0x8128"),
        (0x9DE0, "sne $d, $e"),
        (0xA00F, "seti I, 0xf"),
        (0xB234, "jri0 564"),
        (0xC3FF, "rand $3, 255"),
        (0xD12F, "sprite $1, $2, 15"),
        (0xE49E, "sk $4"),
        (0xE5A1, "snk $5"),
        (0xE5A2, ".word 0xe5a2"),
        (0xF607, "set $6, DELAY"),
        (0xF715, "set DELAY, $7"),
        (0xF818, "set SOUND, $8"),
        (0xF91E, "add I, $9"),
        (0xFA0A, "set $a, KEY"),
        (0xFB29, "set I, FONT[$b]"),
        (0xFC33, "bcd $c"),
        (0xFD55, "set [I], $d"),
        (0xFE65, "set $e, [I]"),
        (0xFF66, ".word 0xff66"),
    ];
    for (w, expected) in cases {
        assert_eq!(text(w), expected, "word {w:04x}");
    }
}

#[test]
fn format_options() {
    let o = Opcode::new(0x8126, 0x200);
    assert_eq!(o.format_inst(false, false), "srlf $1");
    assert_eq!(Opcode::new(0x812E, 0x200).format_inst(false, false), "sllf $1");
    assert_eq!(Opcode::new(0xB234, 0x200).format_inst(true, true), "jri $2, 52");
    assert_eq!(o.format_word(), ".word 0x8126");
}

#[test]
fn emulator_syntax() {
    let cases: Vec<(u16, &str)> = vec![
        (0x00E0, "cls"),
        (0x3A05, "seqi V10, 5"),
        (0x5120, "seq V1, V2"),
        (0x6F00, "ldi V15, 0"),
        (0x8126, "srlf V1, V2"),
        (0xA00F, "ldi I, 0xf"),
        (0xB234, "ji0 564"),
        (0xD12F, "sprite V1, V2, 15"),
        (0xF607, "ld V6, delay"),
        (0xF715, "ld delay, V7"),
        (0xF818, "ld sound, V8"),
        (0xFA0A, "ld V10, key"),
        (0xFB29, "ld I, font[V11]"),
        (0xFD55, "sm I, V13"),
        (0xFE65, "lm I, V14"),
        (0x0001, ".word 0x0001"),
    ];
    for (w, expected) in cases {
        assert_eq!(emu_text(w), expected, "word {w:04x}");
    }
    assert_eq!(emu_disasm::Opcode::new(0xB234, 0x200).format_inst(true, true), "jir V2, 52");
}

#[test]
fn listing_switches_to_data_after_first_unknown_word() {
    let rom = [0x00, 0xE0, 0x01, 0x23, 0x00, 0xE0];
    let expected = format!(
        "{:<30} # 0x200\n{:<30} # 0x202\n{:<30} # 0x204\n",
        "cls", ".word 0x0123", ".word 0x00e0"
    );
    assert_eq!(disassemble(&rom), expected);
    let expected = format!(
        "{:<30} # 0x200\n{:<30} # 0x202\n{:<30} # 0x204\n",
        "cls", ".word 0x0123", ".word 0x00e0"
    );
    assert_eq!(emu_disasm::disassemble(&rom), expected);
    assert_eq!(disassemble(&[]), "");
}

#[test]
fn round_trip_through_the_assembler() {
    let labels = Labels::new();
    for w in 0..=u16::MAX {
        let kind = w >> 12;
        let n = w & 0xF;
        if (kind == 0x5 || kind == 0x9) && n != 0 {
            continue;
        }
        let src = text(w);
        let instrs = Parser::new(&src).parse().unwrap_or_else(|e| panic!("{src}: {e:?}"));
        assert_eq!(instrs.len(), 1, "{src}");
        let bytes = instrs[0].to_bytes(&labels);
        assert_eq!(bytes, vec![(w >> 8) as u8, (w & 0xFF) as u8], "{src}");
    }
}

#[test]
fn bxnn_jumps_round_trip_through_the_assembler() {
    let labels = Labels::new();
    for w in 0xB000..=0xBFFFu16 {
        let src = format!("{}\n", Opcode::new(w, 0x200).format_inst(true, true));
        let instrs = Parser::new(&src).parse().unwrap();
        assert_eq!(instrs.len(), 1, "{src}");
        assert_eq!(instrs[0].to_bytes(&labels), vec![(w >> 8) as u8, (w & 0xFF) as u8], "{src}");
    }
}

#[test]
fn single_register_shifts_round_trip_only_from_v0() {
    let labels = Labels::new();
    for (w, back) in [(0x8306u16, 0x8306u16), (0x830E, 0x830E), (0x8316, 0x8306), (0x83FE, 0x830E)] {
        let src = format!("{}\n", Opcode::new(w, 0x200).format_inst(false, false));
        let instrs = Parser::new(&src).parse().unwrap();
        assert_eq!(instrs.len(), 1, "{src}");
        assert_eq!(instrs[0].to_bytes(&labels), vec![(back >> 8) as u8, (back & 0xFF) as u8], "{src}");
    }
}

#[test]
fn listing_reassembles_to_the_rom() {
    let rom = [
        0x00, 0xE0, 0x60, 0x05, 0xA2, 0x0A, 0xD0, 0x15, 0x83, 0x4E, 0xF2, 0x29, 0xF1, 0x0A, 0xB3, 0x00, 0x22,
        0x08, 0x80, 0x0F, 0x51, 0x23, 0x00, 0xEE,
    ];
    let listing = disassemble(&rom);
    let instrs = Parser::new(&listing).parse().unwrap();
    assert_eq!(instrs.len(), rom.len() / 2);
    assert_eq!(assemble(&instrs).unwrap(), rom.to_vec());
}

#[test]
fn listing_loses_the_last_digit_of_seq_before_data() {
    let rom = [0x51, 0x23];
    let listing = disassemble(&rom);
    let instrs = Parser::new(&listing).parse().unwrap();
    assert_eq!(assemble(&instrs).unwrap(), vec![0x51, 0x20]);
}

#[test]
fn dump() {
    let lines = dump_lines(&[0xA2, 0xF0, 0x00, 0xE0, 0x12]);
    assert_eq!(lines, vec!["PC 0x200 | A2 F0 | 0xA2F0".to_string(), "PC 0x202 | 00 E0 | 0x00E0".to_string()]);
}

#[test]
fn scrolling() {
    assert_eq!(scroll(0, 10, 100, ScrollKey::Up), 0);
    assert_eq!(scroll(5, 10, 100, ScrollKey::Up), 4);
    assert_eq!(scroll(5, 10, 100, ScrollKey::Down), 6);
    assert_eq!(scroll(90, 10, 100, ScrollKey::Down), 90);
    assert_eq!(scroll(5, 10, 100, ScrollKey::PageUp), 0);
    assert_eq!(scroll(25, 10, 100, ScrollKey::PageUp), 15);
    assert_eq!(scroll(25, 10, 100, ScrollKey::PageDown), 35);
    assert_eq!(scroll(85, 10, 100, ScrollKey::PageDown), 90);
    assert_eq!(scroll(0, 10, 4, ScrollKey::PageDown), 0);
}

#[test]
fn beep_follows_sound_timer() {
    assert_eq!(sound_action(false, 3), SoundAction::Start);
    assert_eq!(sound_action(true, 3), SoundAction::Keep);
    assert_eq!(sound_action(true, 0), SoundAction::Stop);
    assert_eq!(sound_action(false, 0), SoundAction::Keep);
}

#[test]
fn wav_header_layout() {
    let h = wav_header(4410);
    assert_eq!(h.len(), 44);
    assert_eq!(&h[0..4], b"RIFF");
    assert_eq!(&h[4..8], &(36u32 + 8820).to_le_bytes());
    assert_eq!(&h[8..16], b"WAVEfmt ");
    assert_eq!(&h[16..20], &16u32.to_le_bytes());
    assert_eq!(&h[20..24], &[1, 0, 1, 0]);
    assert_eq!(&h[24..28], &44100u32.to_le_bytes());
    assert_eq!(&h[28..32], &88200u32.to_le_bytes());
    assert_eq!(&h[32..36], &[2, 0, 16, 0]);
    assert_eq!(&h[36..40], b"data");
    assert_eq!(&h[40..44], &8820u32.to_le_bytes());
}

#[test]
fn data_exactly_for_unknown_opcodes() {
    for w in 0..=u16::MAX {
        let mut chip = Chip8::new();
        chip.load_rom(&[(w >> 8) as u8, (w & 0xFF) as u8]);
        let unknown = matches!(chip.fault(), Some(Fault::UnknownOpcode { .. }));
        for (shift_y, jump_bxnn) in [(true, false), (false, true)] {
            let a = Opcode::new(w, 0x200).format_inst(shift_y, jump_bxnn);
            let b = Opcode::new(w, 0x404).format_inst(shift_y, jump_bxnn);
            assert_eq!(a, b);
            assert_eq!(a.starts_with(".word"), unknown, "{w:04x}");
        }
    }
}

#[test]
fn assembled_instructions_read_back() {
    let labels = Labels::new();
    let instrs = [
        Instr::Cls,
        Instr::J(Addr::Val(0xABC)),
        Instr::Call(Addr::Val(0)),
        Instr::Jri0(0xFFF),
        Instr::Jri(3, 200),
        Instr::Seqi(0xF, 0),
        Instr::SeqReg(1, 2),
        Instr::Srlf(4, 5),
        Instr::Sllf(6, 0),
        Instr::SetAddrI(Addr::Val(0x123)),
        Instr::Sprite(1, 2, 15),
        Instr::SetFont(9),
        Instr::GetMemI(0xA),
    ];
    for i in instrs {
        let b = i.to_bytes(&labels);
        let w = ((b[0] as u16) << 8) | b[1] as u16;
        let text = Opcode::new(w, 0x200).format_inst(true, matches!(i, Instr::Jri(..)));
        assert_eq!(Parser::new(&text).parse(), Ok(vec![i.clone()]), "{text}");
    }
}
