use tasm::{
    lex_line, parse_number, trim_line, AssemblyError, Flag, Instruction, InstructionData,
    InstructionLinkedData, IntermediateRepresentation, Opcode, Registers, SourceFiles, TokenType,
};

fn single_file(path: &str, text: &str) -> SourceFiles {
    let mut files = SourceFiles::new();
    files.add(path, text);
    files
}

#[test]
fn test_file_assembling() {
    let files = single_file(
        "./test/test.tasm",
        "; sample program\nload rx,$1234\nload rx,#255 ; immediate\n\nhalt\n",
    );
    let intermediate_representation_opt = IntermediateRepresentation::new("./test/test.tasm", &files);
    assert!(intermediate_representation_opt.is_ok());

    let intermediate_representation = intermediate_representation_opt.unwrap();
    assert_eq!(intermediate_representation.bytes_size(), 6);
    assert_eq!(
        intermediate_representation.to_bytes(),
        vec![0b00011001, 0x34, 0x12, 0b00010001, 255, 0]
    );
}

#[test]
fn literal_round_trip_edges() {
    assert_eq!(parse_number::<u16>("$0000"), Some(0));
    assert_eq!(parse_number::<u16>("$FFFF"), Some(65535));
    assert_eq!(parse_number::<u16>("0"), Some(0));
    assert_eq!(parse_number::<u16>("65535"), Some(65535));
    assert_eq!(parse_number::<u16>("$8000"), Some(0x8000));
    assert_eq!(parse_number::<u16>("65536"), None);
    assert_eq!(parse_number::<u16>("$10000"), None);
    assert_eq!(parse_number::<u16>(""), None);
    assert_eq!(parse_number::<u16>("$"), None);
    assert_eq!(parse_number::<u16>("-1"), None);
    assert_eq!(parse_number::<u16>("12a"), None);
    assert_eq!(parse_number::<u8>("255"), Some(255));
    assert_eq!(parse_number::<u8>("256"), None);
    assert_eq!(parse_number::<u8>("$ff"), Some(255));
    assert_eq!(parse_number::<u8>("+7"), Some(7));
}

#[test]
fn literal_round_trip_all_values() {
    for v in 0..=65535u32 {
        assert_eq!(parse_number::<u16>(&format!("{}", v)), Some(v as u16));
        assert_eq!(parse_number::<u16>(&format!("${:04X}", v)), Some(v as u16));
    }
}

#[test]
fn halt_is_one_zero_byte() {
    let inst = Instruction::new("halt").unwrap().unwrap();
    assert_eq!(inst.to_bytes(), vec![0x00]);
    assert!(Instruction::new("halt now").is_err());
}

#[test]
fn load_immediate_fields() {
    let inst = Instruction::new("load ra,#5").unwrap().unwrap();
    assert_eq!(inst.opcode, Opcode::Load);
    assert_eq!(inst.data, InstructionData::Registers(Registers::Ra));
    assert_eq!(inst.to_bytes(), vec![0x01, 0x05]);
}

#[test]
fn load_relative_little_endian() {
    let inst = Instruction::new("load ra,$abac").unwrap().unwrap();
    assert_eq!(inst.to_bytes(), vec![0b00001001, 0xac, 0xab]);
}

#[test]
fn transfer_double_registers() {
    let inst = Instruction::new("tf rx,ry").unwrap().unwrap();
    assert_eq!(inst.data, InstructionData::DoubleRegisters(Registers::Rx, Registers::Ry));
    assert_eq!(inst.to_bytes(), vec![0b10010010]);
}

#[test]
fn branch_mnemonics_encode_conditions() {
    let expected: [(&str, u8); 9] = [
        ("jump", 0x07),
        ("bcc", 0x17),
        ("bcs", 0x27),
        ("bzc", 0x37),
        ("bzs", 0x47),
        ("bnc", 0x57),
        ("bns", 0x67),
        ("boc", 0x77),
        ("bos", 0x87),
    ];
    for (mnemonic, head) in expected.iter() {
        let line = format!("{} $1234", mnemonic);
        let inst = Instruction::new(&line).unwrap().unwrap();
        assert_eq!(inst.to_bytes(), vec![head | 0x08, 0x34, 0x12]);
        assert_eq!(inst.size, 3);
    }
    assert!(Instruction::new("jump #5").is_err());
    assert!(Instruction::new("jump").is_err());
    let inst = Instruction::new("bzs loop_top").unwrap().unwrap();
    match inst.linked_data {
        Some(InstructionLinkedData::NotResolvedRelative(name)) => assert_eq!(name, "loop_top"),
        _ => panic!("expected a label operand"),
    }
}

#[test]
fn trim_line_strips_comment_and_space() {
    assert_eq!(trim_line("  load ra,#5   ; comment ; more"), "load ra,#5");
    assert_eq!(trim_line("; only a comment"), "");
    assert_eq!(trim_line("\t halt \r"), "halt");
}

#[test]
fn lex_line_dispatches() {
    assert!(matches!(lex_line("   ; nothing"), Ok(None)));
    assert!(matches!(lex_line(".org $10"), Ok(Some(TokenType::Flag(Flag::Org(16))))));
    assert!(matches!(lex_line("halt ; stop"), Ok(Some(TokenType::Instruction(_)))));
    match lex_line("start:") {
        Ok(Some(TokenType::Label(label))) => assert_eq!(label.name, "start"),
        _ => panic!("expected a label"),
    }
    assert!(lex_line("what is this").is_err());
    assert!(lex_line(".bogus 1").is_err());
    assert!(lex_line(".org 99999").is_err());
}

#[test]
fn forward_reference_resolves() {
    let files = single_file("main.tasm", "jump foo\nhalt\nfoo:\nincr\n");
    let ir = IntermediateRepresentation::new("main.tasm", &files).unwrap();
    assert_eq!(ir.to_bytes(), vec![0x0f, 0x04, 0x00, 0x00, 0x06]);
}

#[test]
fn undefined_label_is_fatal() {
    let files = single_file("main.tasm", "jump nowhere\nhalt\n");
    match IntermediateRepresentation::new("main.tasm", &files) {
        Err(AssemblyError::UnresolvedLabel { name }) => assert_eq!(name, "nowhere"),
        _ => panic!("expected an unresolved label"),
    }
}

#[test]
fn label_directive_defines_address() {
    let files = single_file("main.tasm", ".label screen $c000\nstore ra,screen\n");
    let ir = IntermediateRepresentation::new("main.tasm", &files).unwrap();
    assert_eq!(ir.to_bytes(), vec![0x0b, 0x00, 0xc0]);
}

#[test]
fn org_gap_is_zero_filled() {
    let files = single_file("main.tasm", ".org $8000\nincr\n.org $9000\nadd\n");
    let ir = IntermediateRepresentation::new("main.tasm", &files).unwrap();
    assert_eq!(ir.bytes_size(), 0x1001);
    let bytes = ir.to_bytes();
    assert_eq!(bytes.len(), 0x1001);
    assert_eq!(bytes[0], 0x06);
    assert_eq!(bytes[0x1000], 0x16);
    assert!(bytes[1..0x1000].iter().all(|b| *b == 0));
}

#[test]
fn include_places_child_at_cursor() {
    let mut files = SourceFiles::new();
    files.add(
        "src/parent.tasm",
        ".org $100\n.include \"child.tasm\"\nhalt\njump inner\n",
    );
    files.add("src/child.tasm", "inner:\nincr\npush rx\n");
    let ir = IntermediateRepresentation::new("src/parent.tasm", &files).unwrap();
    assert_eq!(ir.bytes_size(), 6);
    assert_eq!(ir.to_bytes(), vec![0x06, 0x14, 0x00, 0x0f, 0x00, 0x01]);
}

#[test]
fn missing_include_is_reported() {
    let files = single_file("dir/main.tasm", ".include \"gone.tasm\"\n");
    match IntermediateRepresentation::new("dir/main.tasm", &files) {
        Err(AssemblyError::MissingFile { path }) => assert_eq!(path, "dir/gone.tasm"),
        _ => panic!("expected a missing file"),
    }
}

#[test]
fn self_include_is_stopped() {
    let files = single_file("loop.tasm", ".include \"loop.tasm\"\n");
    assert!(matches!(
        IntermediateRepresentation::new("loop.tasm", &files),
        Err(AssemblyError::IncludeTooDeep { .. })
    ));
}

#[test]
fn syntax_error_reports_line() {
    let files = single_file("main.tasm", "halt\n\nload rz,#1\n");
    match IntermediateRepresentation::new("main.tasm", &files) {
        Err(AssemblyError::Syntax { path, line, .. }) => {
            assert_eq!(path, "main.tasm");
            assert_eq!(line, 3);
        }
        _ => panic!("expected a syntax error"),
    }
}

#[test]
fn address_overflow_is_reported() {
    let files = single_file("main.tasm", ".org $FFFE\njump $0000\n");
    assert!(matches!(
        IntermediateRepresentation::new("main.tasm", &files),
        Err(AssemblyError::AddressOverflow { line: 2, .. })
    ));
}

#[test]
fn empty_source_gives_empty_image() {
    let files = single_file("empty.tasm", "");
    let ir = IntermediateRepresentation::new("empty.tasm", &files).unwrap();
    assert_eq!(ir.bytes_size(), 0);
    assert_eq!(ir.to_bytes(), Vec::<u8>::new());
}

#[test]
fn later_instruction_at_same_address_wins() {
    let files = single_file("main.tasm", "load ra,#1\n.org 0\nincr\n");
    let ir = IntermediateRepresentation::new("main.tasm", &files).unwrap();
    assert_eq!(ir.bytes_size(), 1);
    assert_eq!(ir.to_bytes(), vec![0x06]);
}

#[test]
fn instruction_ending_at_top_of_memory_is_placed() {
    let files = single_file("main.tasm", ".org $FFFF\nhalt\n");
    let ir = IntermediateRepresentation::new("main.tasm", &files).unwrap();
    assert_eq!(ir.bytes_size(), 1);
    assert_eq!(ir.to_bytes(), vec![0x00]);

    let files = single_file("main.tasm", ".org $FFFD\njump $1234\n");
    let ir = IntermediateRepresentation::new("main.tasm", &files).unwrap();
    assert_eq!(ir.to_bytes(), vec![0x0f, 0x34, 0x12]);
}

#[test]
fn nothing_starts_past_top_of_memory() {
    let files = single_file("main.tasm", ".org $FFFF\nhalt\nhalt\n");
    assert!(matches!(
        IntermediateRepresentation::new("main.tasm", &files),
        Err(AssemblyError::AddressOverflow { line: 3, .. })
    ));
    let files = single_file("main.tasm", ".org $FFFF\nhalt\nend:\n");
    assert!(matches!(
        IntermediateRepresentation::new("main.tasm", &files),
        Err(AssemblyError::AddressOverflow { line: 3, .. })
    ));
    let files = single_file("main.tasm", ".org $FFFF\nhalt\n.org $10\nincr\n");
    assert!(IntermediateRepresentation::new("main.tasm", &files).is_ok());
}

#[test]
fn include_ending_at_top_of_memory_is_placed() {
    let mut files = SourceFiles::new();
    files.add("main.tasm", ".org $FFFE\n.include \"two.tasm\"\n");
    files.add("two.tasm", "incr\nadd\n");
    let ir = IntermediateRepresentation::new("main.tasm", &files).unwrap();
    assert_eq!(ir.to_bytes(), vec![0x06, 0x16]);
}

#[test]
fn program_covering_all_addresses_is_refused() {
    let files = single_file("main.tasm", "incr\n.org $FFFF\nincr\n");
    assert!(matches!(
        IntermediateRepresentation::new("main.tasm", &files),
        Err(AssemblyError::ImageTooLarge)
    ));
}
