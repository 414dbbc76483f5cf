use std::collections::HashSet;

use tasm::{lex_line, AssembleArgs, IntermediateRepresentation, Instruction, SourceFiles};

#[test]
fn every_form_has_its_own_head_byte() {
    let regs = ["ra", "rx", "ry", "rb"];
    let mut lines: Vec<String> = vec!["halt".to_string()];
    for r in regs.iter() {
        lines.push(format!("load {},#1", r));
        lines.push(format!("load {},$10", r));
        lines.push(format!("store {},$10", r));
        lines.push(format!("push {}", r));
        lines.push(format!("pull {}", r));
        for s in regs.iter() {
            lines.push(format!("tf {},{}", r, s));
        }
    }
    for m in ["incr", "add", "sub", "and", "or", "eor", "shift_left", "shift_right"].iter() {
        lines.push(m.to_string());
    }
    for b in ["jump", "bcc", "bcs", "bzc", "bzs", "bnc", "bns", "boc", "bos"].iter() {
        lines.push(format!("{} $10", b));
    }
    let mut seen = HashSet::new();
    for line in lines.iter() {
        let inst = Instruction::new(line).unwrap().unwrap();
        let bytes = inst.to_bytes();
        assert_eq!(bytes.len(), inst.size as usize);
        assert!(seen.insert(bytes[0]), "head byte of {} is shared", line);
    }
    assert_eq!(seen.len(), 1 + 4 * 9 + 8 + 9);
}

#[test]
fn dot_lines_are_only_directives() {
    assert!(lex_line(".halt").is_err());
    assert!(lex_line(".foo:").is_err());
}

#[test]
fn later_label_definition_wins() {
    let mut files = SourceFiles::new();
    files.add("main.tasm", "spot:\nhalt\nspot:\njump spot\n");
    let ir = IntermediateRepresentation::new("main.tasm", &files).unwrap();
    assert_eq!(ir.to_bytes(), vec![0x00, 0x0f, 0x01, 0x00]);
}

#[test]
fn included_file_sees_includer_labels() {
    let mut files = SourceFiles::new();
    files.add("lib/main.tasm", "entry:\nincr\n.include \"sub/part.tasm\"\nload ra,far\n");
    files.add("lib/sub/part.tasm", "jump entry\n.label far $1234\n");
    let ir = IntermediateRepresentation::new("lib/main.tasm", &files).unwrap();
    assert_eq!(
        ir.to_bytes(),
        vec![0x06, 0x0f, 0x00, 0x00, 0x09, 0x34, 0x12]
    );
}

#[test]
fn absolute_include_path_is_kept() {
    let mut files = SourceFiles::new();
    files.add("a/main.tasm", ".include \"/abs/x.tasm\"\n");
    files.add("/abs/x.tasm", "halt\n");
    let ir = IntermediateRepresentation::new("a/main.tasm", &files).unwrap();
    assert_eq!(ir.to_bytes(), vec![0x00]);
}

#[test]
fn output_path_defaults() {
    let args = AssembleArgs { source: "p.tasm".to_string(), output: None, coe: true };
    assert_eq!(args.output_path(), "out.coe");
    let args = AssembleArgs { source: "p.tasm".to_string(), output: None, coe: false };
    assert_eq!(args.output_path(), "out.bin");
    let args = AssembleArgs {
        source: "p.tasm".to_string(),
        output: Some("prog.bin".to_string()),
        coe: false,
    };
    assert_eq!(args.output_path(), "prog.bin");
}
