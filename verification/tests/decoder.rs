use riscv_perf::instruction::{
    decode_lines, Format, Instruction, InstructionError, OpCodeType, MIN_WIDTH, NOP_INST,
};

fn line(rs2: &str, rs1: &str, rd: &str, opcode: &str) -> String {
    format!("0000000{}{}000{}{}", rs2, rs1, rd, opcode)
}

#[test]
fn decodes_register_fields_by_position() {
    let text = line("00011", "00010", "00001", "0110011");
    let inst = Instruction::new(&text).unwrap();
    assert_eq!(inst.format(), Format::R);
    assert_eq!(inst.rd().as_str(), "00001");
    assert_eq!(inst.rs1().as_str(), "00010");
    assert_eq!(inst.rs2().as_str(), "00011");
    assert_eq!(inst.full_inst().as_str(), text.as_str());
}

#[test]
fn consuming_getters_hand_out_the_fields() {
    let text = line("00011", "00010", "00001", "0000011");
    let inst = Instruction::new(&text).unwrap();
    assert_eq!(inst.clone().get_full_inst(), text);
    assert_eq!(inst.clone().get_opcode(), OpCodeType::L("0000011".to_string()));
    assert_eq!(inst.clone().get_rd(), "00001");
    assert_eq!(inst.clone().get_rs1(), "00010");
    assert_eq!(inst.get_rs2(), "00011");
}

#[test]
fn every_opcode_of_the_table_selects_its_format() {
    let table = [
        ("0110011", Format::R),
        ("1110011", Format::I),
        ("0010011", Format::I),
        ("0001111", Format::I),
        ("1100111", Format::I),
        ("0000011", Format::L),
        ("0100011", Format::S),
        ("1100011", Format::B),
        ("0110111", Format::U),
        ("1101111", Format::J),
    ];
    for (bits, format) in table {
        let inst = Instruction::new(&line("00011", "00010", "00001", bits)).unwrap();
        assert_eq!(inst.format(), format);
    }
}

#[test]
fn opcode_carried_is_the_trailing_seven_bits() {
    for bits in ["0110011", "1110011", "0010011", "0001111", "1100111", "0000011", "0100011",
        "1100011", "0110111", "1101111"] {
        let text = line("10101", "01010", "11111", bits);
        let inst = Instruction::new(&text).unwrap();
        let opcode = inst.get_opcode();
        let carried = match &opcode {
            OpCodeType::R(b) | OpCodeType::I(b) | OpCodeType::L(b) | OpCodeType::S(b)
            | OpCodeType::B(b) | OpCodeType::U(b) | OpCodeType::J(b) => b.clone(),
        };
        assert_eq!(carried, bits);
        assert_eq!(carried.as_str(), &text[text.len() - 7..]);
        let again = Instruction::new(&line("00000", "00000", "00000", &carried)).unwrap();
        assert_eq!(again.format(), opcode.format());
    }
}

#[test]
fn store_repeats_second_source_as_destination() {
    let inst = Instruction::new(&line("00111", "00010", "01001", "0100011")).unwrap();
    assert_eq!(inst.format(), Format::S);
    assert_eq!(inst.rd().as_str(), "00111");
    assert_eq!(inst.rs2().as_str(), "00111");
    assert_eq!(inst.rs1().as_str(), "00010");
}

#[test]
fn unknown_opcode_is_a_decode_error() {
    let result = Instruction::new(&line("00011", "00010", "00001", "1111111"));
    assert_eq!(result.unwrap_err(), InstructionError::DecodeError);
    let result = Instruction::new(&line("00011", "00010", "00001", "0000000"));
    assert_eq!(result.unwrap_err(), InstructionError::DecodeError);
}

#[test]
fn short_line_is_a_format_error() {
    assert_eq!(Instruction::new("").unwrap_err(), InstructionError::FormatError);
    assert_eq!(Instruction::new("0110011").unwrap_err(), InstructionError::FormatError);
    let short = "000110001000000001".to_string() + "0110011";
    assert_eq!(short.len(), 25);
    assert!(Instruction::new(&short[1..]).is_err());
    assert_eq!(Instruction::new(&short[1..]).unwrap_err(), InstructionError::FormatError);
}

#[test]
fn short_line_with_unknown_opcode_is_a_format_error() {
    assert_eq!(Instruction::new("1111111").unwrap_err(), InstructionError::FormatError);
}

#[test]
fn line_of_minimum_width_decodes() {
    let text = "00011".to_string() + "00010" + "000" + "00001" + "0110011";
    assert_eq!(text.len(), MIN_WIDTH);
    let inst = Instruction::new(&text).unwrap();
    assert_eq!(inst.rs2().as_str(), "00011");
    assert_eq!(inst.rs1().as_str(), "00010");
    assert_eq!(inst.rd().as_str(), "00001");
}

#[test]
fn bubble_is_the_decoded_bubble_text() {
    let bubble = Instruction::nop();
    let decoded = Instruction::new(NOP_INST).unwrap();
    assert_eq!(NOP_INST.len(), 32);
    assert!(bubble.is_nop());
    assert!(decoded.is_nop());
    assert_eq!(bubble.format(), Format::I);
    assert_eq!(decoded.format(), Format::I);
    assert_eq!(bubble.rd(), decoded.rd());
    assert_eq!(bubble.rs1(), decoded.rs1());
    assert_eq!(bubble.rs2(), decoded.rs2());
    assert_eq!(bubble.rd().as_str(), "00000");
    assert_eq!(bubble.clone().get_opcode(), decoded.clone().get_opcode());
    assert_eq!(bubble.get_full_inst(), decoded.get_full_inst());
}

#[test]
fn clone_keeps_every_field() {
    let inst = Instruction::new(&line("00011", "00010", "00001", "1100011")).unwrap();
    let copy = inst.clone();
    assert_eq!(copy.full_inst(), inst.full_inst());
    assert_eq!(copy.format(), Format::B);
    assert_eq!(copy.rd(), inst.rd());
    assert_eq!(copy.rs1(), inst.rs1());
    assert_eq!(copy.rs2(), inst.rs2());
    assert!(!copy.is_nop());
}

#[test]
fn tagged_opcode_keeps_format_and_bits() {
    let opcode = OpCodeType::tagged(Format::J, "1101111".to_string());
    assert_eq!(opcode, OpCodeType::J("1101111".to_string()));
    assert_eq!(opcode.format(), Format::J);
    assert_eq!(opcode.clone(), opcode);
}

#[test]
fn program_decodes_line_by_line_in_order() {
    let lines = vec![
        line("00011", "00010", "00001", "0110011"),
        line("00101", "00001", "00100", "0000011"),
        NOP_INST.to_string(),
    ];
    let stream = decode_lines(&lines).unwrap();
    assert_eq!(stream.len(), 3);
    assert_eq!(stream[0].format(), Format::R);
    assert_eq!(stream[1].format(), Format::L);
    assert!(stream[2].is_nop());
    for (inst, text) in stream.iter().zip(lines.iter()) {
        assert_eq!(inst.full_inst(), text);
    }
    assert!(decode_lines(&vec![]).unwrap().is_empty());
}

#[test]
fn program_fails_with_the_error_of_its_first_bad_line() {
    let good = line("00011", "00010", "00001", "0110011");
    let unknown = line("00011", "00010", "00001", "1111111");
    let short = "0110011".to_string();
    let lines = vec![good.clone(), unknown.clone(), short.clone()];
    assert_eq!(decode_lines(&lines).unwrap_err(), InstructionError::DecodeError);
    let lines = vec![good.clone(), short, unknown, good];
    assert_eq!(decode_lines(&lines).unwrap_err(), InstructionError::FormatError);
}

#[test]
fn width_is_counted_in_characters() {
    let accent = char::from_u32(233).unwrap().to_string();
    let text = accent.clone() + &line("00011", "00010", "00001", "0110011");
    let inst = Instruction::new(&text).unwrap();
    assert_eq!(inst.rs2().as_str(), "00011");
    assert_eq!(inst.rd().as_str(), "00001");
    let narrow = accent.repeat(18) + "0110011";
    assert_eq!(narrow.chars().count(), 25);
    let inst = Instruction::new(&narrow).unwrap();
    assert_eq!(inst.format(), Format::R);
    assert_eq!(inst.rs2().as_str(), accent.repeat(5));
}
