use tasm::{parse_number, Flag, Instruction, Label};

#[test]
fn test_empty_flag() {
    let new_instance = Flag::new(". $8000");
    assert!(new_instance.is_err());

    let new_instance = Flag::new(".");
    assert!(new_instance.is_err());
}

#[test]
fn test_org_flag() {
    let new_instance = Flag::new(".org $8000");
    assert!(new_instance.is_ok());
    assert_eq!(new_instance.unwrap().unwrap(), Flag::Org(32768));

    let new_instance = Flag::new(".org #5");
    assert!(new_instance.is_err());

    let new_instance = Flag::new(".org");
    assert!(new_instance.is_err());
}

#[test]
fn test_include_flag() {
    let new_instance = Flag::new(".include \"./test/test.tasm\"");
    assert!(new_instance.is_ok());
    assert_eq!(
        new_instance.unwrap().unwrap(),
        Flag::Include("./test/test.tasm".to_string())
    );

    let new_instance = Flag::new(".include ./test/test.tasm");
    assert!(new_instance.is_err());

    let new_instance = Flag::new(".include");
    assert!(new_instance.is_err());
}

#[test]
fn test_label_flag() {
    let new_instance = Flag::new(".label test 0");
    assert!(new_instance.is_ok());
    assert_eq!(
        new_instance.unwrap().unwrap(),
        Flag::Label(("test".to_string(), 0))
    );

    let new_instance = Flag::new(".label test_0 $8100");
    assert!(new_instance.is_ok());
    assert_eq!(
        new_instance.unwrap().unwrap(),
        Flag::Label(("test_0".to_string(), 33024))
    );

    let new_instance = Flag::new(".label");
    assert!(new_instance.is_err());

    let new_instance = Flag::new(".label test");
    assert!(new_instance.is_err());

    let new_instance = Flag::new(".label test aze");
    assert!(new_instance.is_err());

    let new_instance = Flag::new(".label wr-ong 0");
    assert!(new_instance.is_err());
}

#[test]
fn test_number_parsing() {
    // Hex parsing
    let new_number = parse_number::<u16>("$FffF");
    assert!(new_number.is_some());
    assert_eq!(new_number.unwrap(), 65535);

    // Decimal parsing
    let new_number = parse_number::<u8>("53");
    assert!(new_number.is_some());
    assert_eq!(new_number.unwrap(), 53);

    // Decimal overflow
    let new_number = parse_number::<u8>("1024");
    assert!(new_number.is_none());

    // Hex overflow
    let new_number = parse_number::<u8>("$FFFF");
    assert!(new_number.is_none());

    // Hex as decimal
    let new_number = parse_number::<u8>("ab");
    assert!(new_number.is_none());
}

#[test]
fn test_label() {
    let new_instance = Label::new("label_test_2:");

    assert!(new_instance.is_ok());
    assert_eq!(new_instance.unwrap().unwrap().name, "label_test_2");

    let new_instance = Label::new("halt");

    assert!(new_instance.is_ok());
    assert!(new_instance.unwrap().is_none());
}

#[test]
fn test_wrong_inst() {
    let inst = Instruction::new("azerty");
    assert!(inst.is_ok());
    assert!(inst.ok().unwrap().is_none());
}

#[test]
fn test_halt() {
    let inst = Instruction::new("halt");
    assert!(inst.is_ok());
    let inst = inst.ok().unwrap().unwrap();
    assert_eq!(inst.to_bytes(), vec![0]);
    assert_eq!(inst.size, 1);
}

#[test]
fn test_load() {
    let inst = Instruction::new("load");
    assert!(inst.is_err());

    let inst = Instruction::new("load aze");
    assert!(inst.is_err());

    let inst = Instruction::new("load rz,#300");
    assert!(inst.is_err());

    let inst = Instruction::new("load rx,");
    assert!(inst.is_err());

    let inst = Instruction::new("load rx,#300");
    assert!(inst.is_err());

    let inst = Instruction::new("load ra,#5");
    assert!(inst.is_ok());
    let inst = inst.ok().unwrap().unwrap();
    assert_eq!(inst.to_bytes(), vec![1, 5]);
    assert_eq!(inst.size, 2);

    let inst = Instruction::new("load ra,$abac");
    assert!(inst.is_ok());
    let inst = inst.ok().unwrap().unwrap();
    assert_eq!(inst.to_bytes(), vec![0b1001, 0xac, 0xab]);
    assert_eq!(inst.size, 3);

    let inst = Instruction::new("load ra,flag_test");
    assert!(inst.is_ok());
    let inst = inst.ok().unwrap().unwrap();
    assert_eq!(inst.to_bytes(), vec![0b1001, 0, 0]);
    assert_eq!(inst.size, 3);
}

#[test]
fn test_transfer() {
    let inst = Instruction::new("tf");
    assert!(inst.is_err());

    let inst = Instruction::new("tf aze");
    assert!(inst.is_err());

    let inst = Instruction::new("tf rx,");
    assert!(inst.is_err());

    let inst = Instruction::new("tf rx,rz");
    assert!(inst.is_err());

    let inst = Instruction::new("tf rz,rx");
    assert!(inst.is_err());

    let inst = Instruction::new("tf rx,ry");
    assert!(inst.is_ok());
    let inst = inst.ok().unwrap().unwrap();
    assert_eq!(inst.to_bytes(), vec![0b10010010]);
    assert_eq!(inst.size, 1);

    let inst = Instruction::new("tf ra,rb");
    assert!(inst.is_ok());
    let inst = inst.ok().unwrap().unwrap();
    assert_eq!(inst.to_bytes(), vec![0b11000010]);
    assert_eq!(inst.size, 1);

    let inst = Instruction::new("tf ra,ra");
    assert!(inst.is_ok());
    let inst = inst.ok().unwrap().unwrap();
    assert_eq!(inst.to_bytes(), vec![0b00000010]);
    assert_eq!(inst.size, 1);
}

#[test]
fn test_store() {
    let inst = Instruction::new("store");
    assert!(inst.is_err());

    let inst = Instruction::new("store rx,");
    assert!(inst.is_err());

    let inst = Instruction::new("store rx,#5");
    assert!(inst.is_err());

    let inst = Instruction::new("store rz,#5");
    assert!(inst.is_err());

    let inst = Instruction::new("store rz,flag_test");
    assert!(inst.is_err());

    let inst = Instruction::new("store ra,flag_test");
    assert!(inst.is_ok());
    let inst = inst.ok().unwrap().unwrap();
    assert_eq!(inst.to_bytes(), vec![0b00001011, 0, 0]);
    assert_eq!(inst.size, 3);

    let inst = Instruction::new("store ra,$abac");
    assert!(inst.is_ok());
    let inst = inst.ok().unwrap().unwrap();
    assert_eq!(inst.to_bytes(), vec![0b00001011, 0xac, 0xab]);
    assert_eq!(inst.size, 3);
}

#[test]
fn test_push() {
    let inst = Instruction::new("push");
    assert!(inst.is_err());

    let inst = Instruction::new("push rz");
    assert!(inst.is_err());

    let inst = Instruction::new("push #5");
    assert!(inst.is_err());

    let inst = Instruction::new("push ra");
    assert!(inst.is_ok());
    let inst = inst.ok().unwrap().unwrap();
    assert_eq!(inst.to_bytes(), vec![0b00000100]);
    assert_eq!(inst.size, 1);

    let inst = Instruction::new("push rx");
    assert!(inst.is_ok());
    let inst = inst.ok().unwrap().unwrap();
    assert_eq!(inst.to_bytes(), vec![0b00010100]);
    assert_eq!(inst.size, 1);

    let inst = Instruction::new("push ry");
    assert!(inst.is_ok());
    let inst = inst.ok().unwrap().unwrap();
    assert_eq!(inst.to_bytes(), vec![0b00100100]);
    assert_eq!(inst.size, 1);

    let inst = Instruction::new("push rb");
    assert!(inst.is_ok());
    let inst = inst.ok().unwrap().unwrap();
    assert_eq!(inst.to_bytes(), vec![0b00110100]);
    assert_eq!(inst.size, 1);
}

#[test]
fn test_pull() {
    let inst = Instruction::new("pull");
    assert!(inst.is_err());

    let inst = Instruction::new("pull rz");
    assert!(inst.is_err());

    let inst = Instruction::new("pull #5");
    assert!(inst.is_err());

    let inst = Instruction::new("pull ra");
    assert!(inst.is_ok());
    let inst = inst.ok().unwrap().unwrap();
    assert_eq!(inst.to_bytes(), vec![0b00000101]);
    assert_eq!(inst.size, 1);

    let inst = Instruction::new("pull rx");
    assert!(inst.is_ok());
    let inst = inst.ok().unwrap().unwrap();
    assert_eq!(inst.to_bytes(), vec![0b00010101]);
    assert_eq!(inst.size, 1);

    let inst = Instruction::new("pull ry");
    assert!(inst.is_ok());
    let inst = inst.ok().unwrap().unwrap();
    assert_eq!(inst.to_bytes(), vec![0b00100101]);
    assert_eq!(inst.size, 1);

    let inst = Instruction::new("pull rb");
    assert!(inst.is_ok());
    let inst = inst.ok().unwrap().unwrap();
    assert_eq!(inst.to_bytes(), vec![0b00110101]);
    assert_eq!(inst.size, 1);
}

#[test]
fn test_math() {
    let inst = Instruction::new("add ra");
    assert!(inst.is_err());

    let inst = Instruction::new("incr");
    assert!(inst.is_ok());
    let inst = inst.ok().unwrap().unwrap();
    assert_eq!(inst.to_bytes(), vec![0b00000110]);
    assert_eq!(inst.size, 1);

    let inst = Instruction::new("add");
    assert!(inst.is_ok());
    let inst = inst.ok().unwrap().unwrap();
    assert_eq!(inst.to_bytes(), vec![0b00010110]);
    assert_eq!(inst.size, 1);

    let inst = Instruction::new("sub");
    assert!(inst.is_ok());
    let inst = inst.ok().unwrap().unwrap();
    assert_eq!(inst.to_bytes(), vec![0b00100110]);
    assert_eq!(inst.size, 1);

    let inst = Instruction::new("and");
    assert!(inst.is_ok());
    let inst = inst.ok().unwrap().unwrap();
    assert_eq!(inst.to_bytes(), vec![0b00110110]);
    assert_eq!(inst.size, 1);

    let inst = Instruction::new("or");
    assert!(inst.is_ok());
    let inst = inst.ok().unwrap().unwrap();
    assert_eq!(inst.to_bytes(), vec![0b01000110]);
    assert_eq!(inst.size, 1);

    let inst = Instruction::new("eor");
    assert!(inst.is_ok());
    let inst = inst.ok().unwrap().unwrap();
    assert_eq!(inst.to_bytes(), vec![0b01010110]);
    assert_eq!(inst.size, 1);

    let inst = Instruction::new("shift_left");
    assert!(inst.is_ok());
    let inst = inst.ok().unwrap().unwrap();
    assert_eq!(inst.to_bytes(), vec![0b01100110]);
    assert_eq!(inst.size, 1);

    let inst = Instruction::new("shift_right");
    assert!(inst.is_ok());
    let inst = inst.ok().unwrap().unwrap();
    assert_eq!(inst.to_bytes(), vec![0b01110110]);
    assert_eq!(inst.size, 1);
}
