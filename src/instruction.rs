//! Machine instructions: their fields, their byte encoding, and how a source line names one.
use vstd::prelude::*;
use crate::literal::{literal_value, parse_number, within};
use crate::text::{chars_of, find_char, first_of, same_chars, trim, trim_bounds};

verus! {

/// The instruction's operation, held in the low three bits of its first byte.
#[derive(Debug, PartialEq, Eq, Structural, Clone, Copy)]
pub enum Opcode {
    Break,
    Load,
    Transfer,
    Store,
    Push,
    Pull,
    Math,
    Jump,
}

/// Whether the trailing operand is a value (one byte) or an address (two bytes).
#[derive(Debug, PartialEq, Eq, Structural, Clone, Copy)]
pub enum AddressingMode {
    Immediate,
    Relative,
}

/// The four registers of the machine.
#[derive(Debug, PartialEq, Eq, Structural, Clone, Copy)]
pub enum Registers {
    Ra,
    Rx,
    Ry,
    Rb,
}

/// The operations of the arithmetic and logic group.
#[derive(Debug, PartialEq, Eq, Structural, Clone, Copy)]
pub enum MathOperand {
    Increment,
    Add,
    Sub,
    And,
    Or,
    Eor,
    ShiftLeft,
    ShiftRight,
}

/// The condition under which a jump is taken.
#[derive(Debug, PartialEq, Eq, Structural, Clone, Copy)]
pub enum BranchCondition {
    NoCondition,
    CarryFlagClear,
    CarryFlagSet,
    ZeroFlagClear,
    ZeroFlagSet,
    NegativeFlagClear,
    NegativeFlagSet,
    OverflowFlagClear,
    OverflowFlagSet,
}

/// What the high four bits of the first byte carry.
#[derive(Debug, PartialEq, Eq, Structural, Clone, Copy)]
pub enum InstructionData {
    NoData,
    Registers(Registers),
    MathOperand(MathOperand),
    BranchCondition(BranchCondition),
    DoubleRegisters(Registers, Registers),
}

/// The operand that follows the first byte, if any.
#[derive(Debug)]
pub enum InstructionLinkedData {
    Immediate(u8),
    Relative(u16),
    NotResolvedRelative(String),
}

/// The trailing operand as a mathematical value.
pub enum LinkedDataModel {
    Immediate(u8),
    Relative(u16),
    NotResolvedRelative(Seq<char>),
}

impl View for InstructionLinkedData {
    type V = LinkedDataModel;

    open spec fn view(&self) -> LinkedDataModel {
        match self {
            InstructionLinkedData::Immediate(v) => LinkedDataModel::Immediate(*v),
            InstructionLinkedData::Relative(a) => LinkedDataModel::Relative(*a),
            InstructionLinkedData::NotResolvedRelative(name) => LinkedDataModel::NotResolvedRelative(
                name@,
            ),
        }
    }
}

/// One instruction: its first byte's fields, its size in bytes and its operand.
#[derive(Debug)]
pub struct Instruction {
    pub opcode: Opcode,
    pub addressing_mode: AddressingMode,
    pub data: InstructionData,
    pub size: u16,
    pub linked_data: Option<InstructionLinkedData>,
}

/// An instruction as a mathematical value.
pub struct InstructionModel {
    pub opcode: Opcode,
    pub addressing_mode: AddressingMode,
    pub data: InstructionData,
    pub size: u16,
    pub linked_data: Option<LinkedDataModel>,
}

pub open spec fn linked_view(l: Option<InstructionLinkedData>) -> Option<LinkedDataModel> {
    match l {
        Some(d) => Some(d@),
        None => None,
    }
}

impl View for Instruction {
    type V = InstructionModel;

    open spec fn view(&self) -> InstructionModel {
        InstructionModel {
            opcode: self.opcode,
            addressing_mode: self.addressing_mode,
            data: self.data,
            size: self.size,
            linked_data: linked_view(self.linked_data),
        }
    }
}

/// What a recognizer makes of a line: not its kind, its kind but malformed, or a value.
pub enum Recognized<T> {
    NotThis,
    Malformed,
    Found(T),
}

/// The recognizer outcome that a returned `Result<Option<_>, String>` stands for.
pub open spec fn recognized<T: View>(r: Result<Option<T>, String>) -> Recognized<T::V> {
    match r {
        Err(_) => Recognized::Malformed,
        Ok(None) => Recognized::NotThis,
        Ok(Some(t)) => Recognized::Found(t@),
    }
}

pub open spec fn opcode_code(o: Opcode) -> nat {
    match o {
        Opcode::Break => 0,
        Opcode::Load => 1,
        Opcode::Transfer => 2,
        Opcode::Store => 3,
        Opcode::Push => 4,
        Opcode::Pull => 5,
        Opcode::Math => 6,
        Opcode::Jump => 7,
    }
}

pub open spec fn mode_code(m: AddressingMode) -> nat {
    match m {
        AddressingMode::Immediate => 0,
        AddressingMode::Relative => 1,
    }
}

pub open spec fn register_code(r: Registers) -> nat {
    match r {
        Registers::Ra => 0,
        Registers::Rx => 1,
        Registers::Ry => 2,
        Registers::Rb => 3,
    }
}

pub open spec fn math_code(m: MathOperand) -> nat {
    match m {
        MathOperand::Increment => 0,
        MathOperand::Add => 1,
        MathOperand::Sub => 2,
        MathOperand::And => 3,
        MathOperand::Or => 4,
        MathOperand::Eor => 5,
        MathOperand::ShiftLeft => 6,
        MathOperand::ShiftRight => 7,
    }
}

pub open spec fn branch_code(b: BranchCondition) -> nat {
    match b {
        BranchCondition::NoCondition => 0,
        BranchCondition::CarryFlagClear => 1,
        BranchCondition::CarryFlagSet => 2,
        BranchCondition::ZeroFlagClear => 3,
        BranchCondition::ZeroFlagSet => 4,
        BranchCondition::NegativeFlagClear => 5,
        BranchCondition::NegativeFlagSet => 6,
        BranchCondition::OverflowFlagClear => 7,
        BranchCondition::OverflowFlagSet => 8,
    }
}

/// The high four bits of the first byte.
pub open spec fn data_nibble(d: InstructionData) -> nat {
    match d {
        InstructionData::NoData => 0,
        InstructionData::Registers(r) => register_code(r),
        InstructionData::MathOperand(m) => math_code(m),
        InstructionData::BranchCondition(b) => branch_code(b),
        InstructionData::DoubleRegisters(r0, r1) => register_code(r0) + 4 * register_code(r1),
    }
}

/// The first byte: opcode in bits 0-2, addressing mode in bit 3, data in bits 4-7.
pub open spec fn head_byte(o: Opcode, m: AddressingMode, d: InstructionData) -> u8 {
    (opcode_code(o) + 8 * mode_code(m) + 16 * data_nibble(d)) as u8
}

/// The bytes after the first one: one for a value, two little-endian for an address,
/// two zeros for an address still to be resolved.
pub open spec fn operand_bytes(l: Option<LinkedDataModel>) -> Seq<u8> {
    match l {
        None => seq![],
        Some(LinkedDataModel::Immediate(v)) => seq![v],
        Some(LinkedDataModel::Relative(a)) => seq![(a % 256) as u8, (a / 256) as u8],
        Some(LinkedDataModel::NotResolvedRelative(_)) => seq![0u8, 0u8],
    }
}

/// The encoded bytes of an instruction.
pub open spec fn encode(i: InstructionModel) -> Seq<u8> {
    seq![head_byte(i.opcode, i.addressing_mode, i.data)] + operand_bytes(i.linked_data)
}


/// The register a text names: `ra`, `rx`, `ry` or `rb`.
pub open spec fn register_of(s: Seq<char>) -> Option<Registers> {
    if s == "rx"@ {
        Some(Registers::Rx)
    } else if s == "ry"@ {
        Some(Registers::Ry)
    } else if s == "ra"@ {
        Some(Registers::Ra)
    } else if s == "rb"@ {
        Some(Registers::Rb)
    } else {
        None
    }
}

/// The operation a mnemonic of the arithmetic and logic group names.
pub open spec fn math_operand_of(s: Seq<char>) -> Option<MathOperand> {
    if s == "incr"@ {
        Some(MathOperand::Increment)
    } else if s == "add"@ {
        Some(MathOperand::Add)
    } else if s == "sub"@ {
        Some(MathOperand::Sub)
    } else if s == "and"@ {
        Some(MathOperand::And)
    } else if s == "or"@ {
        Some(MathOperand::Or)
    } else if s == "eor"@ {
        Some(MathOperand::Eor)
    } else if s == "shift_right"@ {
        Some(MathOperand::ShiftRight)
    } else if s == "shift_left"@ {
        Some(MathOperand::ShiftLeft)
    } else {
        None
    }
}

/// The condition a mnemonic of the branch group names.
pub open spec fn branch_of(s: Seq<char>) -> Option<BranchCondition> {
    if s == "jump"@ {
        Some(BranchCondition::NoCondition)
    } else if s == "bcc"@ {
        Some(BranchCondition::CarryFlagClear)
    } else if s == "bcs"@ {
        Some(BranchCondition::CarryFlagSet)
    } else if s == "bzc"@ {
        Some(BranchCondition::ZeroFlagClear)
    } else if s == "bzs"@ {
        Some(BranchCondition::ZeroFlagSet)
    } else if s == "bnc"@ {
        Some(BranchCondition::NegativeFlagClear)
    } else if s == "bns"@ {
        Some(BranchCondition::NegativeFlagSet)
    } else if s == "boc"@ {
        Some(BranchCondition::OverflowFlagClear)
    } else if s == "bos"@ {
        Some(BranchCondition::OverflowFlagSet)
    } else {
        None
    }
}

/// The mnemonic: the line up to its first space.
pub open spec fn mnemonic_of(line: Seq<char>) -> Seq<char> {
    match first_of(line, ' ') {
        Some(i) => line.subrange(0, i),
        None => line,
    }
}

/// The operand text: what follows the first space, ASCII-trimmed; none without a space.
pub open spec fn operand_of(line: Seq<char>) -> Option<Seq<char>> {
    match first_of(line, ' ') {
        Some(i) => Some(trim(line.subrange(i + 1, line.len() as int), false)),
        None => None,
    }
}

pub open spec fn model(
    opcode: Opcode,
    addressing_mode: AddressingMode,
    data: InstructionData,
    size: u16,
    linked_data: Option<LinkedDataModel>,
) -> InstructionModel {
    InstructionModel { opcode, addressing_mode, data, size, linked_data }
}

/// An address operand: a 16-bit literal, or else the name of a label to resolve later.
pub open spec fn address_operand(t: Seq<char>) -> LinkedDataModel {
    match within(literal_value(t), 65535) {
        Some(n) => LinkedDataModel::Relative(n as u16),
        None => LinkedDataModel::NotResolvedRelative(t),
    }
}

/// `reg,value` for `load` (with `#value` for an 8-bit immediate) and `store` (address only).
pub open spec fn register_value_spec(op: Seq<char>, opcode: Opcode) -> Recognized<InstructionModel> {
    match first_of(op, ',') {
        None => Recognized::Malformed,
        Some(k) => {
            let reg = register_of(op.subrange(0, k));
            let value = op.subrange(k + 1, op.len() as int);
            let t = trim(value, false);
            if reg is None || value.len() == 0 {
                Recognized::Malformed
            } else if t.len() > 0 && t[0] == '#' {
                if opcode == Opcode::Store {
                    Recognized::Malformed
                } else {
                    match within(literal_value(t.drop_first()), 255) {
                        Some(n) => Recognized::Found(
                            model(
                                opcode,
                                AddressingMode::Immediate,
                                InstructionData::Registers(reg->0),
                                2,
                                Some(LinkedDataModel::Immediate(n as u8)),
                            ),
                        ),
                        None => Recognized::Malformed,
                    }
                }
            } else {
                Recognized::Found(
                    model(
                        opcode,
                        AddressingMode::Relative,
                        InstructionData::Registers(reg->0),
                        3,
                        Some(address_operand(t)),
                    ),
                )
            }
        },
    }
}

/// `reg,reg` for `tf`.
pub open spec fn transfer_spec(op: Seq<char>) -> Recognized<InstructionModel> {
    match first_of(op, ',') {
        None => Recognized::Malformed,
        Some(k) => match (
            register_of(op.subrange(0, k)),
            register_of(op.subrange(k + 1, op.len() as int)),
        ) {
            (Some(r0), Some(r1)) => Recognized::Found(
                model(
                    Opcode::Transfer,
                    AddressingMode::Immediate,
                    InstructionData::DoubleRegisters(r0, r1),
                    1,
                    None,
                ),
            ),
            _ => Recognized::Malformed,
        },
    }
}

/// What the instruction recognizer makes of a line.
pub open spec fn instruction_spec(line: Seq<char>) -> Recognized<InstructionModel> {
    let kw = mnemonic_of(line);
    let operand = operand_of(line);
    if kw == "halt"@ {
        if operand is Some {
            Recognized::Malformed
        } else {
            Recognized::Found(
                model(Opcode::Break, AddressingMode::Immediate, InstructionData::NoData, 1, None),
            )
        }
    } else if kw == "load"@ || kw == "store"@ {
        match operand {
            None => Recognized::Malformed,
            Some(op) => register_value_spec(
                op,
                if kw == "load"@ {
                    Opcode::Load
                } else {
                    Opcode::Store
                },
            ),
        }
    } else if kw == "tf"@ {
        match operand {
            None => Recognized::Malformed,
            Some(op) => transfer_spec(op),
        }
    } else if kw == "push"@ || kw == "pull"@ {
        match operand {
            None => Recognized::Malformed,
            Some(op) => match register_of(op) {
                Some(r) => Recognized::Found(
                    model(
                        if kw == "push"@ {
                            Opcode::Push
                        } else {
                            Opcode::Pull
                        },
                        AddressingMode::Immediate,
                        InstructionData::Registers(r),
                        1,
                        None,
                    ),
                ),
                None => Recognized::Malformed,
            },
        }
    } else if math_operand_of(kw) is Some {
        if operand is Some {
            Recognized::Malformed
        } else {
            Recognized::Found(
                model(
                    Opcode::Math,
                    AddressingMode::Immediate,
                    InstructionData::MathOperand(math_operand_of(kw)->0),
                    1,
                    None,
                ),
            )
        }
    } else if branch_of(kw) is Some {
        match operand {
            None => Recognized::Malformed,
            Some(op) => if op.len() == 0 || op[0] == '#' {
                Recognized::Malformed
            } else {
                Recognized::Found(
                    model(
                        Opcode::Jump,
                        AddressingMode::Relative,
                        InstructionData::BranchCondition(branch_of(kw)->0),
                        3,
                        Some(address_operand(op)),
                    ),
                )
            },
        }
    } else {
        Recognized::NotThis
    }
}

pub open spec fn decode_opcode(c: nat) -> Opcode {
    if c == 0 { Opcode::Break } else if c == 1 { Opcode::Load } else if c == 2 { Opcode::Transfer }
    else if c == 3 { Opcode::Store } else if c == 4 { Opcode::Push } else if c == 5 { Opcode::Pull }
    else if c == 6 { Opcode::Math } else { Opcode::Jump }
}

pub open spec fn decode_register(c: nat) -> Registers {
    if c == 0 { Registers::Ra } else if c == 1 { Registers::Rx } else if c == 2 { Registers::Ry }
    else { Registers::Rb }
}

pub open spec fn decode_math(c: nat) -> MathOperand {
    if c == 0 { MathOperand::Increment } else if c == 1 { MathOperand::Add }
    else if c == 2 { MathOperand::Sub } else if c == 3 { MathOperand::And }
    else if c == 4 { MathOperand::Or } else if c == 5 { MathOperand::Eor }
    else if c == 6 { MathOperand::ShiftLeft } else { MathOperand::ShiftRight }
}

pub open spec fn decode_branch(c: nat) -> BranchCondition {
    if c == 0 { BranchCondition::NoCondition } else if c == 1 { BranchCondition::CarryFlagClear }
    else if c == 2 { BranchCondition::CarryFlagSet } else if c == 3 { BranchCondition::ZeroFlagClear }
    else if c == 4 { BranchCondition::ZeroFlagSet } else if c == 5 { BranchCondition::NegativeFlagClear }
    else if c == 6 { BranchCondition::NegativeFlagSet } else if c == 7 { BranchCondition::OverflowFlagClear }
    else { BranchCondition::OverflowFlagSet }
}

/// The data each opcode carries in the high four bits.
pub open spec fn data_matches(o: Opcode, d: InstructionData) -> bool {
    match o {
        Opcode::Break => d == InstructionData::NoData,
        Opcode::Load | Opcode::Store | Opcode::Push | Opcode::Pull => d is Registers,
        Opcode::Transfer => d is DoubleRegisters,
        Opcode::Math => d is MathOperand,
        Opcode::Jump => d is BranchCondition,
    }
}

/// An address operand, resolved or not.
pub open spec fn is_address(l: Option<LinkedDataModel>) -> bool {
    match l {
        Some(LinkedDataModel::Relative(_)) | Some(LinkedDataModel::NotResolvedRelative(_)) => true,
        _ => false,
    }
}

/// The shapes the instruction set defines: the data that goes with the opcode, and the
/// addressing mode, size and operand that go together.
pub open spec fn well_formed(m: InstructionModel) -> bool {
    data_matches(m.opcode, m.data) && match m.opcode {
        Opcode::Load => (m.addressing_mode == AddressingMode::Immediate && m.size == 2
            && m.linked_data matches Some(LinkedDataModel::Immediate(_))) || (m.addressing_mode
            == AddressingMode::Relative && m.size == 3 && is_address(m.linked_data)),
        Opcode::Store | Opcode::Jump => m.addressing_mode == AddressingMode::Relative && m.size
            == 3 && is_address(m.linked_data),
        _ => m.addressing_mode == AddressingMode::Immediate && m.size == 1 && m.linked_data is None,
    }
}

/// Reads the first byte back: opcode, addressing mode, and data of the kind the opcode
/// carries; `None` where the data bits hold no value of that kind.
pub open spec fn decode_head(b: u8) -> Option<(Opcode, AddressingMode, InstructionData)> {
    let o = decode_opcode((b % 8) as nat);
    let m = if (b / 8) % 2 == 0 {
        AddressingMode::Immediate
    } else {
        AddressingMode::Relative
    };
    let n = (b / 16) as nat;
    let d = match o {
        Opcode::Break => if n == 0 {
            Some(InstructionData::NoData)
        } else {
            None
        },
        Opcode::Load | Opcode::Store | Opcode::Push | Opcode::Pull => if n < 4 {
            Some(InstructionData::Registers(decode_register(n)))
        } else {
            None
        },
        Opcode::Transfer => Some(
            InstructionData::DoubleRegisters(decode_register(n % 4), decode_register(n / 4)),
        ),
        Opcode::Math => if n < 8 {
            Some(InstructionData::MathOperand(decode_math(n)))
        } else {
            None
        },
        Opcode::Jump => if n <= 8 {
            Some(InstructionData::BranchCondition(decode_branch(n)))
        } else {
            None
        },
    };
    match d {
        Some(d) => Some((o, m, d)),
        None => None,
    }
}

/// Reads encoded bytes back as an instruction; an address operand comes back resolved.
pub open spec fn decode(bytes: Seq<u8>) -> Option<InstructionModel> {
    if bytes.len() == 0 {
        None
    } else {
        match decode_head(bytes[0]) {
            None => None,
            Some((o, m, d)) => if o == Opcode::Load && m == AddressingMode::Immediate {
                if bytes.len() == 2 {
                    Some(model(o, m, d, 2, Some(LinkedDataModel::Immediate(bytes[1]))))
                } else {
                    None
                }
            } else if o == Opcode::Load || o == Opcode::Store || o == Opcode::Jump {
                if bytes.len() == 3 && m == AddressingMode::Relative {
                    Some(
                        model(
                            o,
                            m,
                            d,
                            3,
                            Some(LinkedDataModel::Relative((bytes[1] + 256 * bytes[2]) as u16)),
                        ),
                    )
                } else {
                    None
                }
            } else if bytes.len() == 1 && m == AddressingMode::Immediate {
                Some(model(o, m, d, 1, None))
            } else {
                None
            },
        }
    }
}

proof fn lemma_head_fields(o: u8, m: u8, n: u8)
    requires
        o < 8,
        m < 2,
        n < 16,
    ensures
        ((o + 8 * m + 16 * n) as u8) % 8 == o,
        (((o + 8 * m + 16 * n) as u8) / 8) % 2 == m,
        ((o + 8 * m + 16 * n) as u8) / 16 == n,
{
    assert(((o + 8 * m + 16 * n) as u8) % 8 == o && (((o + 8 * m + 16 * n) as u8) / 8) % 2 == m
        && ((o + 8 * m + 16 * n) as u8) / 16 == n) by (bit_vector)
        requires
            o < 8,
            m < 2,
            n < 16,
    ;
}

/// The first byte reads back as the opcode, addressing mode and data it was packed from,
/// for every opcode with the data that goes with it: no two of them share a byte.
pub proof fn lemma_head_round_trip(o: Opcode, m: AddressingMode, d: InstructionData)
    requires
        data_matches(o, d),
    ensures
        decode_head(head_byte(o, m, d)) == Some((o, m, d)),
{
    let on = opcode_code(o);
    let mn = mode_code(m);
    let nn = data_nibble(d);
    assert(nn < 16);
    lemma_head_fields(on as u8, mn as u8, nn as u8);
    assert(head_byte(o, m, d) == ((on as u8 + 8 * (mn as u8) + 16 * (nn as u8)) as u8));
}

/// Every instruction the recognizer yields has one of the shapes the instruction set
/// defines.
pub proof fn lemma_recognized_well_formed(line: Seq<char>)
    requires
        instruction_spec(line) is Found,
    ensures
        well_formed(instruction_spec(line)->Found_0),
{
}

/// Encoding, then decoding, gives back every well-formed instruction whose operand is
/// resolved.
pub proof fn lemma_encode_round_trip(i: InstructionModel)
    requires
        well_formed(i),
        !(i.linked_data matches Some(LinkedDataModel::NotResolvedRelative(_))),
    ensures
        decode(encode(i)) == Some(i),
{
    lemma_head_round_trip(i.opcode, i.addressing_mode, i.data);
    let e = encode(i);
    assert(e[0] == head_byte(i.opcode, i.addressing_mode, i.data));
    match i.linked_data {
        Some(LinkedDataModel::Relative(a)) => {
            assert(e[1] == (a % 256) as u8);
            assert(e[2] == (a / 256) as u8);
            assert((a % 256) + 256 * (a / 256) == a);
        },
        _ => {},
    }
}

fn opcode_bits(o: Opcode) -> (r: u8)
    ensures
        r as nat == opcode_code(o),
{
    match o {
        Opcode::Break => 0,
        Opcode::Load => 1,
        Opcode::Transfer => 2,
        Opcode::Store => 3,
        Opcode::Push => 4,
        Opcode::Pull => 5,
        Opcode::Math => 6,
        Opcode::Jump => 7,
    }
}

fn register_bits(r: Registers) -> (b: u8)
    ensures
        b as nat == register_code(r),
{
    match r {
        Registers::Ra => 0,
        Registers::Rx => 1,
        Registers::Ry => 2,
        Registers::Rb => 3,
    }
}

fn data_bits(d: InstructionData) -> (r: u8)
    ensures
        r as nat == data_nibble(d),
        r < 16,
{
    match d {
        InstructionData::NoData => 0,
        InstructionData::Registers(r) => register_bits(r),
        InstructionData::MathOperand(m) => match m {
            MathOperand::Increment => 0,
            MathOperand::Add => 1,
            MathOperand::Sub => 2,
            MathOperand::And => 3,
            MathOperand::Or => 4,
            MathOperand::Eor => 5,
            MathOperand::ShiftLeft => 6,
            MathOperand::ShiftRight => 7,
        },
        InstructionData::BranchCondition(b) => match b {
            BranchCondition::NoCondition => 0,
            BranchCondition::CarryFlagClear => 1,
            BranchCondition::CarryFlagSet => 2,
            BranchCondition::ZeroFlagClear => 3,
            BranchCondition::ZeroFlagSet => 4,
            BranchCondition::NegativeFlagClear => 5,
            BranchCondition::NegativeFlagSet => 6,
            BranchCondition::OverflowFlagClear => 7,
            BranchCondition::OverflowFlagSet => 8,
        },
        InstructionData::DoubleRegisters(r0, r1) => {
            let a = register_bits(r0);
            let b = register_bits(r1);
            let r = a | (b << 2u8);
            assert(r == a + 4 * b) by (bit_vector)
                requires
                    r == a | (b << 2u8),
                    a < 4,
                    b < 4,
            ;
            r
        },
    }
}

impl InstructionLinkedData {
    /// A copy with the same value.
    pub fn duplicate(&self) -> (r: InstructionLinkedData)
        ensures
            r@ == self@,
    {
        match self {
            InstructionLinkedData::Immediate(v) => InstructionLinkedData::Immediate(*v),
            InstructionLinkedData::Relative(a) => InstructionLinkedData::Relative(*a),
            InstructionLinkedData::NotResolvedRelative(name) => InstructionLinkedData::NotResolvedRelative(
                name.clone(),
            ),
        }
    }
}

impl Instruction {
    /// A copy with the same value.
    pub fn duplicate(&self) -> (r: Instruction)
        ensures
            r@ == self@,
    {
        let linked_data = match &self.linked_data {
            Some(d) => Some(d.duplicate()),
            None => None,
        };
        Instruction {
            opcode: self.opcode,
            addressing_mode: self.addressing_mode,
            data: self.data,
            size: self.size,
            linked_data,
        }
    }

    /// The encoded bytes: the packed first byte, then the operand bytes.
    pub fn to_bytes(&self) -> (r: Vec<u8>)
        ensures
            r@ == encode(self@),
    {
        let o = opcode_bits(self.opcode);
        let m: u8 = match self.addressing_mode {
            AddressingMode::Immediate => 0,
            AddressingMode::Relative => 1,
        };
        let n = data_bits(self.data);
        let head = o | (m << 3u8) | (n << 4u8);
        assert(head == o + 8 * m + 16 * n) by (bit_vector)
            requires
                head == o | (m << 3u8) | (n << 4u8),
                o < 8,
                m < 2,
                n < 16,
        ;
        let mut bytes: Vec<u8> = Vec::new();
        bytes.push(head);
        match &self.linked_data {
            None => {},
            Some(InstructionLinkedData::Immediate(v)) => {
                bytes.push(*v);
            },
            Some(InstructionLinkedData::Relative(a)) => {
                bytes.push((*a % 256) as u8);
                bytes.push((*a / 256) as u8);
            },
            Some(InstructionLinkedData::NotResolvedRelative(_)) => {
                bytes.push(0);
                bytes.push(0);
            },
        }
        assert(bytes@ =~= encode(self@));
        bytes
    }
}


fn register_at(v: &Vec<char>, from: usize, to: usize) -> (r: Option<Registers>)
    requires
        from <= to <= v@.len(),
    ensures
        r == register_of(v@.subrange(from as int, to as int)),
{
    if same_chars(v, from, to, "rx") {
        Some(Registers::Rx)
    } else if same_chars(v, from, to, "ry") {
        Some(Registers::Ry)
    } else if same_chars(v, from, to, "ra") {
        Some(Registers::Ra)
    } else if same_chars(v, from, to, "rb") {
        Some(Registers::Rb)
    } else {
        None
    }
}

fn math_operand_at(v: &Vec<char>, from: usize, to: usize) -> (r: Option<MathOperand>)
    requires
        from <= to <= v@.len(),
    ensures
        r == math_operand_of(v@.subrange(from as int, to as int)),
{
    if same_chars(v, from, to, "incr") {
        Some(MathOperand::Increment)
    } else if same_chars(v, from, to, "add") {
        Some(MathOperand::Add)
    } else if same_chars(v, from, to, "sub") {
        Some(MathOperand::Sub)
    } else if same_chars(v, from, to, "and") {
        Some(MathOperand::And)
    } else if same_chars(v, from, to, "or") {
        Some(MathOperand::Or)
    } else if same_chars(v, from, to, "eor") {
        Some(MathOperand::Eor)
    } else if same_chars(v, from, to, "shift_right") {
        Some(MathOperand::ShiftRight)
    } else if same_chars(v, from, to, "shift_left") {
        Some(MathOperand::ShiftLeft)
    } else {
        None
    }
}

fn branch_at(v: &Vec<char>, from: usize, to: usize) -> (r: Option<BranchCondition>)
    requires
        from <= to <= v@.len(),
    ensures
        r == branch_of(v@.subrange(from as int, to as int)),
{
    if same_chars(v, from, to, "jump") {
        Some(BranchCondition::NoCondition)
    } else if same_chars(v, from, to, "bcc") {
        Some(BranchCondition::CarryFlagClear)
    } else if same_chars(v, from, to, "bcs") {
        Some(BranchCondition::CarryFlagSet)
    } else if same_chars(v, from, to, "bzc") {
        Some(BranchCondition::ZeroFlagClear)
    } else if same_chars(v, from, to, "bzs") {
        Some(BranchCondition::ZeroFlagSet)
    } else if same_chars(v, from, to, "bnc") {
        Some(BranchCondition::NegativeFlagClear)
    } else if same_chars(v, from, to, "bns") {
        Some(BranchCondition::NegativeFlagSet)
    } else if same_chars(v, from, to, "boc") {
        Some(BranchCondition::OverflowFlagClear)
    } else if same_chars(v, from, to, "bos") {
        Some(BranchCondition::OverflowFlagSet)
    } else {
        None
    }
}

fn address_operand_at(line: &str, v: &Vec<char>, from: usize, to: usize) -> (r:
    InstructionLinkedData)
    requires
        v@ == line@,
        from <= to <= v@.len(),
    ensures
        r@ == address_operand(v@.subrange(from as int, to as int)),
{
    let text = line.substring_char(from, to);
    match parse_number::<u16>(text) {
        Some(a) => InstructionLinkedData::Relative(a),
        None => InstructionLinkedData::NotResolvedRelative(String::from_str(text)),
    }
}

fn register_value(line: &str, v: &Vec<char>, from: usize, to: usize, opcode: Opcode) -> (r: Result<
    Option<Instruction>,
    String,
>)
    requires
        v@ == line@,
        from <= to <= v@.len(),
        opcode == Opcode::Load || opcode == Opcode::Store,
    ensures
        recognized(r) == register_value_spec(v@.subrange(from as int, to as int), opcode),
{
    let ghost op = v@.subrange(from as int, to as int);
    let k = match find_char(v, from, to, ',') {
        Some(k) => k,
        None => {
            return Err(String::from_str("expected <reg>,<value>"));
        },
    };
    assert(op.subrange(0, k as int) == v@.subrange(from as int, from + k));
    assert(op.subrange(k + 1, op.len() as int) == v@.subrange(from + k + 1, to as int));
    let reg = match register_at(v, from, from + k) {
        Some(reg) => reg,
        None => {
            return Err(String::from_str("unknown register"));
        },
    };
    if from + k + 1 == to {
        return Err(String::from_str("missing value"));
    }
    let (a, b) = trim_bounds(v, from + k + 1, to, false);
    if a < b && v[a] == '#' {
        if opcode == Opcode::Store {
            return Err(String::from_str("store cannot be immediate, expected an address"));
        }
        let digits = line.substring_char(a + 1, b);
        assert(digits@ == v@.subrange(a as int, b as int).drop_first());
        match parse_number::<u8>(digits) {
            Some(value) => Ok(
                Some(
                    Instruction {
                        opcode,
                        addressing_mode: AddressingMode::Immediate,
                        data: InstructionData::Registers(reg),
                        size: 2,
                        linked_data: Some(InstructionLinkedData::Immediate(value)),
                    },
                ),
            ),
            None => Err(String::from_str("immediate value cannot be parsed")),
        }
    } else {
        let target = address_operand_at(line, v, a, b);
        Ok(
            Some(
                Instruction {
                    opcode,
                    addressing_mode: AddressingMode::Relative,
                    data: InstructionData::Registers(reg),
                    size: 3,
                    linked_data: Some(target),
                },
            ),
        )
    }
}

fn transfer(v: &Vec<char>, from: usize, to: usize) -> (r: Result<Option<Instruction>, String>)
    requires
        from <= to <= v@.len(),
    ensures
        recognized(r) == transfer_spec(v@.subrange(from as int, to as int)),
{
    let ghost op = v@.subrange(from as int, to as int);
    let k = match find_char(v, from, to, ',') {
        Some(k) => k,
        None => {
            return Err(String::from_str("expected <reg>,<reg>"));
        },
    };
    assert(op.subrange(0, k as int) == v@.subrange(from as int, from + k));
    assert(op.subrange(k + 1, op.len() as int) == v@.subrange(from + k + 1, to as int));
    match (register_at(v, from, from + k), register_at(v, from + k + 1, to)) {
        (Some(r0), Some(r1)) => Ok(
            Some(
                Instruction {
                    opcode: Opcode::Transfer,
                    addressing_mode: AddressingMode::Immediate,
                    data: InstructionData::DoubleRegisters(r0, r1),
                    size: 1,
                    linked_data: None,
                },
            ),
        ),
        _ => Err(String::from_str("unknown register")),
    }
}

impl Instruction {
    /// Recognizes an instruction line. `Ok(None)` when the mnemonic is not one of the
    /// machine's; `Err` when it is but the operand does not fit its grammar.
    pub fn new(line: &str) -> (r: Result<Option<Instruction>, String>)
        ensures
            recognized(r) == instruction_spec(line@),
    {
        let v = chars_of(line);
        let n = v.len();
        let space = find_char(&v, 0, n, ' ');
        assert(v@.subrange(0, n as int) == v@);
        let kw_end: usize = match space {
            Some(i) => i,
            None => n,
        };
        let operand: Option<(usize, usize)> = match space {
            Some(i) => Some(trim_bounds(&v, i + 1, n, false)),
            None => None,
        };
        let ghost kw = mnemonic_of(line@);
        assert(kw == v@.subrange(0, kw_end as int));
        assert(match operand {
            Some((a, b)) => operand_of(line@) == Some(v@.subrange(a as int, b as int)) && a <= b
                <= n,
            None => operand_of(line@) is None,
        });
        if same_chars(&v, 0, kw_end, "halt") {
            if operand.is_some() {
                return Err(String::from_str("halt takes no operand"));
            }
            return Ok(
                Some(
                    Instruction {
                        opcode: Opcode::Break,
                        addressing_mode: AddressingMode::Immediate,
                        data: InstructionData::NoData,
                        size: 1,
                        linked_data: None,
                    },
                ),
            );
        }
        let is_load = same_chars(&v, 0, kw_end, "load");
        if is_load || same_chars(&v, 0, kw_end, "store") {
            return match operand {
                None => Err(String::from_str("missing operand")),
                Some((a, b)) => register_value(
                    line,
                    &v,
                    a,
                    b,
                    if is_load {
                        Opcode::Load
                    } else {
                        Opcode::Store
                    },
                ),
            };
        }
        if same_chars(&v, 0, kw_end, "tf") {
            return match operand {
                None => Err(String::from_str("missing operand")),
                Some((a, b)) => transfer(&v, a, b),
            };
        }
        let is_push = same_chars(&v, 0, kw_end, "push");
        if is_push || same_chars(&v, 0, kw_end, "pull") {
            return match operand {
                None => Err(String::from_str("missing operand")),
                Some((a, b)) => match register_at(&v, a, b) {
                    Some(reg) => Ok(
                        Some(
                            Instruction {
                                opcode: if is_push {
                                    Opcode::Push
                                } else {
                                    Opcode::Pull
                                },
                                addressing_mode: AddressingMode::Immediate,
                                data: InstructionData::Registers(reg),
                                size: 1,
                                linked_data: None,
                            },
                        ),
                    ),
                    None => Err(String::from_str("unknown register")),
                },
            };
        }
        if let Some(math) = math_operand_at(&v, 0, kw_end) {
            if operand.is_some() {
                return Err(
                    String::from_str("arithmetic works on fixed registers and takes no operand"),
                );
            }
            return Ok(
                Some(
                    Instruction {
                        opcode: Opcode::Math,
                        addressing_mode: AddressingMode::Immediate,
                        data: InstructionData::MathOperand(math),
                        size: 1,
                        linked_data: None,
                    },
                ),
            );
        }
        if let Some(cond) = branch_at(&v, 0, kw_end) {
            return match operand {
                None => Err(String::from_str("missing operand")),
                Some((a, b)) => {
                    if a == b || v[a] == '#' {
                        Err(String::from_str("a jump expects an address"))
                    } else {
                        let target = address_operand_at(line, &v, a, b);
                        Ok(
                            Some(
                                Instruction {
                                    opcode: Opcode::Jump,
                                    addressing_mode: AddressingMode::Relative,
                                    data: InstructionData::BranchCondition(cond),
                                    size: 3,
                                    linked_data: Some(target),
                                },
                            ),
                        )
                    }
                },
            };
        }
        Ok(None)
    }
}

} // verus!
