//! The lexer and layout passes end to end, the error cases, and the
//! argument sorter.

use vasm::cli::resolve_args;
use vasm::encode::resolve_inst;
use vasm::errors::AsmError;
use vasm::layout::assemble;
use vasm::lex::lex_source;
use vasm::lex::lex_sources;
use vasm::line::LineKind;
use vasm::operand::{resolve_arg, Arg};

fn toks(s: &str) -> Vec<Arg> {
    s.split(' ').map(|t| resolve_arg(String::from(t)).unwrap()).collect()
}

fn build(text: &str, blocks: Vec<Vec<u8>>, align: usize) -> Result<Vec<u8>, (AsmError, usize)> {
    let lines = match lex_source("main.asm", text) {
        Ok(l) => l,
        Err(d) => return Err((d.kind, d.line)),
    };
    assemble(lines, blocks, align).map_err(|d| (d.kind, d.line))
}

#[test]
fn jmp_label_resolves_to_alignment_base() {
    let image = build("start:\njmp start", vec![], 0).unwrap();
    assert_eq!(image, vec![0x50, 0x00, 0x00, 0x00, 0x00]);
    let image = build("start:\njmp start", vec![], 0x100).unwrap();
    assert_eq!(image, vec![0x50, 0x00, 0x00, 0x01, 0x00]);
}

#[test]
fn forward_label_reference() {
    // nop (1 byte), jmp end (5 bytes), end: at 6
    let image = build("nop\njmp end\nend:\nhlt", vec![], 0).unwrap();
    assert_eq!(image, vec![0x00, 0x50, 0x00, 0x00, 0x00, 0x06, 0x70]);
}

#[test]
fn image_length_is_sum_of_line_lengths() {
    let image = build("nop\nmov r0, r1\nhlt", vec![], 0).unwrap();
    assert_eq!(image.len(), 1 + 3 + 1);
    assert_eq!(image, vec![0x00, 0x01, 0x00, 0x01, 0x70]);
}

#[test]
fn assembling_twice_is_byte_identical() {
    let text = "start:\nmov r0, &dead_beef\njlg r0, r1, start\njmp start";
    let one = build(text, vec![], 0x40).unwrap();
    let two = build(text, vec![], 0x40).unwrap();
    assert_eq!(one, two);
}

#[test]
fn comments_and_commas_are_normalized() {
    let a = build("mov r0, r1 ; copy\n; whole line comment\nmov r2,r3", vec![], 0).unwrap();
    let b = build("mov r0 r1\nmov r2 r3", vec![], 0).unwrap();
    assert_eq!(a, b);
}

#[test]
fn continuation_lines_are_joined() {
    let a = build("mov r0, \\\n r1", vec![], 0).unwrap();
    assert_eq!(a, vec![0x01, 0x00, 0x01]);
}

#[test]
fn hex_prefix_rewrites_to_ampersand() {
    let a = build("mov r0, 0x12_34", vec![], 0).unwrap();
    let b = build("mov r0, &1234", vec![], 0).unwrap();
    assert_eq!(a, b);
    assert_eq!(a[9], 0x34);
}

#[test]
fn db_emits_low_bytes() {
    let image = build("db 1, 2, 255, &ff", vec![], 0).unwrap();
    assert_eq!(image, vec![1, 2, 255, 255]);
}

#[test]
fn data_block_is_appended_and_patched() {
    let text = "#bytes blob blob.bin\ngrapcpy r0, blob, 1, 2, 3, 4";
    let image = build(text, vec![vec![9, 8, 7]], 0).unwrap();
    // the blit is 14 bytes; the block lands right after it, at address 14
    assert_eq!(image.len(), 17);
    assert_eq!(&image[0..5], &[0xA0, 0x00, 0x00, 0x00, 14]);
    assert_eq!(&image[14..], &[9, 8, 7]);
}

#[test]
fn image_block_behaves_like_bytes_block() {
    let text = "#image pix pix.png\ngrapcpy r0, pix, 0, 0, 1, 1";
    let image = build(text, vec![vec![1, 2, 3]], 0).unwrap();
    assert_eq!(&image[14..], &[1, 2, 3]);
}

#[test]
fn block_count_matches_directives() {
    let lines =
        lex_source("main.asm", "#image a a.png\nnop\n#bytes b b.bin\n#image c c.png").unwrap();
    assert_eq!(vasm::layout::count_data_blocks(&lines), 3);
}

#[test]
fn two_files_concatenate() {
    let files = vec![
        (String::from("a.asm"), String::from("start:\nnop")),
        (String::from("b.asm"), String::from("jmp start")),
    ];
    let lines = lex_sources(&files).unwrap();
    let image = assemble(lines, vec![], 0).unwrap();
    assert_eq!(image, vec![0x00, 0x50, 0x00, 0x00, 0x00, 0x00]);
}

#[test]
fn register_classification() {
    assert!(matches!(resolve_arg(String::from("r1f")).unwrap(), Arg::Ureg(0x1f)));
    assert!(matches!(resolve_arg(String::from("f_a")).unwrap(), Arg::Freg(0x0a)));
    assert!(matches!(resolve_arg(String::from("r0")).unwrap(), Arg::Ureg(0)));
}

#[test]
fn literal_classification() {
    match resolve_arg(String::from("258")).unwrap() {
        Arg::Liter(b) => assert_eq!(b, vec![0, 0, 0, 0, 0, 0, 1, 2]),
        _ => panic!("expected a literal"),
    }
    match resolve_arg(String::from("&ff")).unwrap() {
        Arg::Liter(b) => assert_eq!(b, vec![0, 0, 0, 0, 0, 0, 0, 0xff]),
        _ => panic!("expected a literal"),
    }
}

#[test]
fn symbol_classification() {
    assert!(matches!(resolve_arg(String::from("loop_top")).unwrap(), Arg::Label));
    // a register-like token of four or more characters is a symbol
    assert!(matches!(resolve_arg(String::from("r123")).unwrap(), Arg::Label));
}

#[test]
fn invalid_register_index() {
    assert_eq!(resolve_arg(String::from("rzz")).unwrap_err(), AsmError::InvalidRegisterIndex);
    assert_eq!(resolve_arg(String::from("f")).unwrap_err(), AsmError::InvalidRegisterIndex);
}

#[test]
fn invalid_hex_literal() {
    assert_eq!(resolve_arg(String::from("&xyz")).unwrap_err(), AsmError::InvalidHexLiteral);
    assert_eq!(
        resolve_arg(String::from("&1ffffffffffffffff")).unwrap_err(),
        AsmError::InvalidHexLiteral
    );
}

#[test]
fn decimal_literal_overflow() {
    assert_eq!(
        resolve_arg(String::from("18446744073709551616")).unwrap_err(),
        AsmError::LiteralOverflow
    );
    assert!(resolve_arg(String::from("18446744073709551615")).is_ok());
}

#[test]
fn unknown_instruction() {
    assert_eq!(
        resolve_inst(String::from("frobnicate"), toks("r0")).unwrap_err(),
        AsmError::UnknownInstruction
    );
}

#[test]
fn unknown_directive() {
    assert_eq!(build("#macro a b", vec![], 0).unwrap_err().0, AsmError::UnknownDirective);
}

#[test]
fn wrong_argument_count() {
    assert_eq!(
        resolve_inst(String::from("mov"), toks("r0")).unwrap_err(),
        AsmError::InvalidArgumentCount
    );
    assert_eq!(
        resolve_inst(String::from("add"), toks("r0 r1")).unwrap_err(),
        AsmError::InvalidArgumentCount
    );
}

#[test]
fn wrong_operand_variant() {
    assert_eq!(
        resolve_inst(String::from("inc"), toks("&5")).unwrap_err(),
        AsmError::InvalidOperand
    );
    assert_eq!(
        resolve_inst(String::from("mov"), toks("r0 r1 r2")).unwrap_err(),
        AsmError::InvalidOperand
    );
}

#[test]
fn mismatched_register_families() {
    assert_eq!(
        resolve_inst(String::from("add"), toks("r0 f1 r2")).unwrap_err(),
        AsmError::MismatchedRegisterTypes
    );
    assert_eq!(
        resolve_inst(String::from("jlg"), toks("f0 r1 r2")).unwrap_err(),
        AsmError::MismatchedRegisterTypes
    );
}

#[test]
fn duplicate_label_is_rejected() {
    let err = build("here:\nnop\nhere:", vec![], 0).unwrap_err();
    assert_eq!(err.0, AsmError::DuplicateSymbol);
    assert_eq!(err.1, 3);
}

#[test]
fn undefined_label_is_rejected() {
    let err = build("jmp nowhere", vec![], 0).unwrap_err();
    assert_eq!(err.0, AsmError::UndefinedSymbol);
    assert_eq!(err.1, 1);
}

#[test]
fn address_space_overflow_is_rejected() {
    let err = build("nop\nnop", vec![], usize::MAX).unwrap_err();
    assert_eq!(err.0, AsmError::AddressOverflow);
}

#[test]
fn error_messages_read_as_expected() {
    assert_eq!(AsmError::InvalidRegisterIndex.message(), "Invalid register index.");
    assert_eq!(AsmError::UnknownInstruction.message(), "Invalid instruction.");
    assert_eq!(AsmError::UndefinedSymbol.message(), "Undefined symbol.");
}

#[test]
fn case_insensitive_mnemonics() {
    assert_eq!(resolve_inst(String::from("MOV"), toks("r0 r1")).unwrap().0, vec![0x01, 0x00, 0x01]);
    assert_eq!(resolve_inst(String::from("Nop"), toks("")).unwrap().0, vec![0x00]);
}

#[test]
fn label_fixup_tags() {
    let (bytes, kind) = resolve_inst(String::from("jmp"), toks("somewhere")).unwrap();
    assert_eq!(bytes, vec![0x50, 0, 0, 0, 0]);
    assert!(matches!(kind, LineKind::NeedsLabelFixup));
    let (bytes, kind) = resolve_inst(String::from("grapcpy"), toks("r0 blob 1 2 3 4")).unwrap();
    assert_eq!(bytes.len(), 14);
    assert!(matches!(kind, LineKind::NeedsDataFixup));
}

#[test]
fn wit_field_widths() {
    assert_eq!(resolve_inst(String::from("wit"), toks("&1234")).unwrap().0, vec![0x71, 0x12, 0x34]);
    assert_eq!(resolve_inst(String::from("wit"), toks("r3")).unwrap().0, vec![0x72, 0x03]);
}

#[test]
fn memcpy_arms() {
    assert_eq!(
        resolve_inst(String::from("memcpy"), toks("&10 &20 &30")).unwrap().0,
        vec![0x82, 0, 0, 0, 0x20, 0, 0, 0, 0x10, 0, 0, 0x30]
    );
    assert_eq!(
        resolve_inst(String::from("memcpy"), toks("r1 r2 &30")).unwrap().0,
        vec![0x83, 0x02, 0x01, 0, 0, 0x30]
    );
    assert_eq!(
        resolve_inst(String::from("memcpy"), toks("r1 r2 r3")).unwrap().0,
        vec![0x84, 0x02, 0x01, 0x03]
    );
}

#[test]
fn out_in_arms() {
    assert_eq!(resolve_inst(String::from("out"), toks("r1 &abcd")).unwrap().0, vec![
        0x90, 0x01, 0xab, 0xcd
    ]);
    assert_eq!(resolve_inst(String::from("out"), toks("r1 r2")).unwrap().0, vec![0x91, 0x01, 0x02]);
    assert_eq!(resolve_inst(String::from("in"), toks("r1 &abcd")).unwrap().0, vec![
        0x92, 0x01, 0xab, 0xcd
    ]);
    assert_eq!(resolve_inst(String::from("in"), toks("r1 r2")).unwrap().0, vec![0x93, 0x01, 0x02]);
}

#[test]
fn fixed_opcodes() {
    for (mn, op) in [
        ("nop", 0x00u8),
        ("scf", 0x48),
        ("ccf", 0x49),
        ("hlt", 0x70),
        ("syscall", 0x80),
        ("sysret", 0x81),
    ] {
        assert_eq!(resolve_inst(String::from(mn), toks("")).unwrap().0, vec![op]);
    }
}

#[test]
fn single_register_opcodes() {
    for (mn, op) in [
        ("inc", 0x40u8),
        ("dec", 0x41),
        ("adc", 0x46),
        ("sbc", 0x47),
        ("gst", 0x73),
        ("gpc", 0x74),
    ] {
        assert_eq!(resolve_inst(String::from(mn), toks("r7")).unwrap().0, vec![op, 0x07]);
    }
}

#[test]
fn stack_opcodes() {
    assert_eq!(resolve_inst(String::from("psh"), toks("r1")).unwrap().0, vec![0x42, 0x01]);
    assert_eq!(resolve_inst(String::from("psh"), toks("f1")).unwrap().0, vec![0x43, 0x01]);
    assert_eq!(resolve_inst(String::from("pop"), toks("r1")).unwrap().0, vec![0x44, 0x01]);
    assert_eq!(resolve_inst(String::from("pop"), toks("f1")).unwrap().0, vec![0x45, 0x01]);
}

#[test]
fn arithmetic_opcodes() {
    for (i, mn) in ["add", "sub", "mul", "div", "mod"].iter().enumerate() {
        let iop = 0x30u8 + 2 * i as u8;
        assert_eq!(resolve_inst(String::from(*mn), toks("r1 r2 r3")).unwrap().0, vec![
            iop, 0x01, 0x02, 0x03
        ]);
        assert_eq!(resolve_inst(String::from(*mn), toks("f1 f2 f3")).unwrap().0, vec![
            iop + 1,
            0x01,
            0x02,
            0x03
        ]);
    }
}

#[test]
fn bitwise_opcodes() {
    for (i, mn) in ["shl", "shr", "and", "or", "xor"].iter().enumerate() {
        assert_eq!(resolve_inst(String::from(*mn), toks("r1 r2 r3")).unwrap().0, vec![
            0x3Au8 + i as u8,
            0x01,
            0x02,
            0x03
        ]);
    }
    assert_eq!(resolve_inst(String::from("not"), toks("r1 r2")).unwrap().0, vec![
        0x3F, 0x01, 0x02
    ]);
}

#[test]
fn jump_opcodes() {
    assert_eq!(resolve_inst(String::from("jmp"), toks("r5")).unwrap().0, vec![0x51, 0x05]);
    assert_eq!(resolve_inst(String::from("jmp"), toks("&10")).unwrap().0, vec![
        0x50, 0, 0, 0, 0x10
    ]);
    assert_eq!(resolve_inst(String::from("jpc"), toks("&10")).unwrap().0, vec![
        0x5E, 0, 0, 0, 0x10
    ]);
    assert_eq!(resolve_inst(String::from("jpc"), toks("r5")).unwrap().0, vec![0x5F, 0x05]);
    assert_eq!(resolve_inst(String::from("jnc"), toks("&10")).unwrap().0, vec![
        0x60, 0, 0, 0, 0x10
    ]);
    assert_eq!(resolve_inst(String::from("jnc"), toks("r5")).unwrap().0, vec![0x61, 0x05]);
    for (mn, op) in [("jpc", 0x5Eu8), ("jnc", 0x60)] {
        let (bytes, kind) = resolve_inst(String::from(mn), toks("target")).unwrap();
        assert_eq!(bytes, vec![op, 0, 0, 0, 0]);
        assert!(matches!(kind, LineKind::NeedsLabelFixup));
    }
}

#[test]
fn conditional_jump_opcodes() {
    for (i, mn) in ["jlg", "jpe", "jne"].iter().enumerate() {
        let base = 0x52u8 + 4 * i as u8;
        assert_eq!(resolve_inst(String::from(*mn), toks("r1 r2 &10")).unwrap().0, vec![
            base, 0x01, 0x02, 0, 0, 0, 0x10
        ]);
        assert_eq!(resolve_inst(String::from(*mn), toks("r1 r2 r3")).unwrap().0, vec![
            base + 1,
            0x01,
            0x02,
            0x03
        ]);
        assert_eq!(resolve_inst(String::from(*mn), toks("f1 f2 &10")).unwrap().0, vec![
            base + 2,
            0x01,
            0x02,
            0,
            0,
            0,
            0x10
        ]);
        assert_eq!(resolve_inst(String::from(*mn), toks("f1 f2 r3")).unwrap().0, vec![
            base + 3,
            0x01,
            0x02,
            0x03
        ]);
        let (bytes, kind) = resolve_inst(String::from(*mn), toks("r1 r2 target")).unwrap();
        assert_eq!(bytes, vec![base, 0x01, 0x02, 0, 0, 0, 0]);
        assert!(matches!(kind, LineKind::NeedsLabelFixup));
    }
}

#[test]
fn grapcpy_literal_and_register_arms() {
    assert_eq!(
        resolve_inst(String::from("grapcpy"), toks("r0 &100 1 2 3 4")).unwrap().0,
        vec![0xA0, 0, 0, 1, 0, 0, 0, 4, 0, 3, 0, 1, 0, 2]
    );
    assert_eq!(
        resolve_inst(String::from("grapcpy"), toks("r0 r1 r2 r3 r4 r5")).unwrap().0,
        vec![0xA1, 0x01, 0x00, 0x05, 0x04, 0x02, 0x03]
    );
}

#[test]
fn sorted_arguments_land_in_their_slots() {
    let args: Vec<String> =
        ["-i", "in", "-o", "out", "-align", "100"].iter().map(|s| String::from(*s)).collect();
    let sorted = resolve_args(args);
    assert_eq!(sorted.len(), 5);
    assert_eq!(sorted[0].as_deref(), Some("in"));
    assert_eq!(sorted[1].as_deref(), Some("out"));
    assert_eq!(sorted[2], None);
    assert_eq!(sorted[3], None);
    assert_eq!(sorted[4].as_deref(), Some("100"));
}

#[test]
fn later_flag_occurrence_wins() {
    let args: Vec<String> =
        ["-i", "first", "stray", "-i", "second"].iter().map(|s| String::from(*s)).collect();
    let sorted = resolve_args(args);
    assert_eq!(sorted[0].as_deref(), Some("second"));
}
