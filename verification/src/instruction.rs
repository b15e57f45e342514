//! Decoding of one binary instruction line into its format and register fields.

use vstd::prelude::*;
use vstd::string::*;

verus! {

/// The all-zero immediate-arithmetic instruction used as a pipeline bubble.
pub const NOP_INST: &'static str = "00000000000000000000000000010011";

/// Fewest characters a line must hold for all three register fields to exist.
pub const MIN_WIDTH: usize = 25;

/// The seven instruction shapes.
#[derive(Clone, Copy, Debug, PartialEq, Eq, Structural)]
pub enum Format {
    R,
    I,
    L,
    S,
    B,
    U,
    J,
}

/// An instruction's shape together with the seven opcode bits that selected it.
#[derive(Debug, PartialEq)]
pub enum OpCodeType {
    R(String),
    I(String),
    L(String),
    S(String),
    B(String),
    U(String),
    J(String),
}

/// Why a line could not be decoded.
#[derive(Clone, Copy, Debug, PartialEq, Eq, Structural)]
pub enum InstructionError {
    /// The line is too short to hold every register field.
    FormatError,
    /// The trailing seven bits select no known format.
    DecodeError,
}

/// A decoded instruction.
#[derive(Debug)]
pub struct Instruction {
    full_inst: String,
    opcode: OpCodeType,
    rd: String,
    rs1: String,
    rs2: String,
}

/// What an [`Instruction`] stands for: its text, its shape and its three
/// register fields as literal bit patterns.
pub struct InstructionView {
    pub full_inst: Seq<char>,
    pub format: Format,
    pub opcode: Seq<char>,
    pub rd: Seq<char>,
    pub rs1: Seq<char>,
    pub rs2: Seq<char>,
}

/// The opcode table: which format the seven trailing bits select, if any.
pub open spec fn opcode_format(bits: Seq<char>) -> Option<Format> {
    if bits == "0110011"@ {
        Some(Format::R)
    } else if bits == "1110011"@ || bits == "0010011"@ || bits == "0001111"@ || bits
        == "1100111"@ {
        Some(Format::I)
    } else if bits == "0000011"@ {
        Some(Format::L)
    } else if bits == "0100011"@ {
        Some(Format::S)
    } else if bits == "1100011"@ {
        Some(Format::B)
    } else if bits == "0110111"@ {
        Some(Format::U)
    } else if bits == "1101111"@ {
        Some(Format::J)
    } else {
        None
    }
}

/// The trailing seven characters of a line.
pub open spec fn opcode_bits(line: Seq<char>) -> Seq<char>
    recommends
        line.len() >= 7,
{
    line.subrange(line.len() - 7, line.len() as int)
}

/// The five characters that end `back` characters before the end of the line.
pub open spec fn field_bits(line: Seq<char>, back: int) -> Seq<char>
    recommends
        line.len() >= back + 5,
{
    line.subrange(line.len() - back - 5, line.len() - back)
}

/// The decoder as a function on lines.
///
/// A store carries no destination register; its `rd` repeats `rs2`.
pub open spec fn decode(line: Seq<char>) -> Result<InstructionView, InstructionError> {
    if line.len() < MIN_WIDTH {
        Err(InstructionError::FormatError)
    } else {
        match opcode_format(opcode_bits(line)) {
            None => Err(InstructionError::DecodeError),
            Some(format) => Ok(
                InstructionView {
                    full_inst: line,
                    format,
                    opcode: opcode_bits(line),
                    rd: if format == Format::S {
                        field_bits(line, 20)
                    } else {
                        field_bits(line, 7)
                    },
                    rs1: field_bits(line, 15),
                    rs2: field_bits(line, 20),
                },
            ),
        }
    }
}

/// Whether an instruction is what the decoder makes of its own text. This
/// holds of every [`Instruction`]; of a store it says that `rd` repeats `rs2`.
pub open spec fn well_formed(inst: InstructionView) -> bool {
    decode(inst.full_inst) == Ok::<InstructionView, InstructionError>(inst)
}

/// The view of the pipeline bubble.
pub open spec fn nop_view() -> InstructionView {
    InstructionView {
        full_inst: NOP_INST@,
        format: Format::I,
        opcode: "0010011"@,
        rd: "00000"@,
        rs1: "00000"@,
        rs2: "00000"@,
    }
}

/// Views of a whole stream, position by position.
pub open spec fn views(stream: Seq<Instruction>) -> Seq<InstructionView> {
    Seq::new(stream.len(), |i: int| stream[i]@)
}

/// The decoder on a whole program: every line decoded, or the error of the
/// first line that cannot be.
pub open spec fn decode_all(lines: Seq<Seq<char>>) -> Result<Seq<InstructionView>, InstructionError>
    decreases lines.len(),
{
    if lines.len() == 0 {
        Ok(Seq::empty())
    } else {
        match decode_all(lines.drop_last()) {
            Err(error) => Err(error),
            Ok(front) => match decode(lines.last()) {
                Err(error) => Err(error),
                Ok(inst) => Ok(front.push(inst)),
            },
        }
    }
}

/// The lines of a program as sequences of characters.
pub open spec fn texts(lines: Seq<String>) -> Seq<Seq<char>> {
    Seq::new(lines.len(), |i: int| lines[i]@)
}

/// Whether two texts hold the same characters.
pub fn same_text(a: &str, b: &str) -> (same: bool)
    ensures
        same == (a@ == b@),
{
    let x = a.to_owned();
    let y = b.to_owned();
    x == y
}

fn classify(bits: &str) -> (found: Option<Format>)
    ensures
        found == opcode_format(bits@),
{
    if same_text(bits, "0110011") {
        Some(Format::R)
    } else if same_text(bits, "1110011") || same_text(bits, "0010011") || same_text(
        bits,
        "0001111",
    ) || same_text(bits, "1100111") {
        Some(Format::I)
    } else if same_text(bits, "0000011") {
        Some(Format::L)
    } else if same_text(bits, "0100011") {
        Some(Format::S)
    } else if same_text(bits, "1100011") {
        Some(Format::B)
    } else if same_text(bits, "0110111") {
        Some(Format::U)
    } else if same_text(bits, "1101111") {
        Some(Format::J)
    } else {
        None
    }
}

impl OpCodeType {
    /// The shape this opcode selects.
    pub open spec fn spec_format(&self) -> Format {
        match self {
            OpCodeType::R(_) => Format::R,
            OpCodeType::I(_) => Format::I,
            OpCodeType::L(_) => Format::L,
            OpCodeType::S(_) => Format::S,
            OpCodeType::B(_) => Format::B,
            OpCodeType::U(_) => Format::U,
            OpCodeType::J(_) => Format::J,
        }
    }

    /// The opcode bits carried along.
    pub open spec fn spec_bits(&self) -> Seq<char> {
        match self {
            OpCodeType::R(bits) => bits@,
            OpCodeType::I(bits) => bits@,
            OpCodeType::L(bits) => bits@,
            OpCodeType::S(bits) => bits@,
            OpCodeType::B(bits) => bits@,
            OpCodeType::U(bits) => bits@,
            OpCodeType::J(bits) => bits@,
        }
    }

    /// Tags `bits` with `format`.
    pub fn tagged(format: Format, bits: String) -> (opcode: OpCodeType)
        ensures
            opcode.spec_format() == format,
            opcode.spec_bits() == bits@,
    {
        match format {
            Format::R => OpCodeType::R(bits),
            Format::I => OpCodeType::I(bits),
            Format::L => OpCodeType::L(bits),
            Format::S => OpCodeType::S(bits),
            Format::B => OpCodeType::B(bits),
            Format::U => OpCodeType::U(bits),
            Format::J => OpCodeType::J(bits),
        }
    }

    /// The shape this opcode selects.
    #[verifier::when_used_as_spec(spec_format)]
    pub fn format(&self) -> (format: Format)
        ensures
            format == self.spec_format(),
    {
        match self {
            OpCodeType::R(_) => Format::R,
            OpCodeType::I(_) => Format::I,
            OpCodeType::L(_) => Format::L,
            OpCodeType::S(_) => Format::S,
            OpCodeType::B(_) => Format::B,
            OpCodeType::U(_) => Format::U,
            OpCodeType::J(_) => Format::J,
        }
    }
}

impl Clone for OpCodeType {
    fn clone(&self) -> (copy: Self)
        ensures
            copy == *self,
    {
        match self {
            OpCodeType::R(bits) => OpCodeType::R(bits.clone()),
            OpCodeType::I(bits) => OpCodeType::I(bits.clone()),
            OpCodeType::L(bits) => OpCodeType::L(bits.clone()),
            OpCodeType::S(bits) => OpCodeType::S(bits.clone()),
            OpCodeType::B(bits) => OpCodeType::B(bits.clone()),
            OpCodeType::U(bits) => OpCodeType::U(bits.clone()),
            OpCodeType::J(bits) => OpCodeType::J(bits.clone()),
        }
    }
}

impl View for Instruction {
    type V = InstructionView;

    closed spec fn view(&self) -> InstructionView {
        InstructionView {
            full_inst: self.full_inst@,
            format: self.opcode.spec_format(),
            opcode: self.opcode.spec_bits(),
            rd: self.rd@,
            rs1: self.rs1@,
            rs2: self.rs2@,
        }
    }
}

impl Clone for Instruction {
    fn clone(&self) -> (copy: Self)
        ensures
            copy == *self,
    {
        proof {
            use_type_invariant(self);
        }
        Instruction {
            full_inst: self.full_inst.clone(),
            opcode: self.opcode.clone(),
            rd: self.rd.clone(),
            rs1: self.rs1.clone(),
            rs2: self.rs2.clone(),
        }
    }
}

impl Instruction {
    #[verifier::type_invariant]
    spec fn decoded_from_own_text(self) -> bool {
        well_formed(self@)
    }

    /// Decodes one line.
    ///
    /// The opcode carried by the result is the line's trailing seven
    /// characters, and it is the pattern that selected the format.
    pub fn new(instruction: &str) -> (decoded: Result<Instruction, InstructionError>)
        ensures
            match decoded {
                Ok(inst) => decode(instruction@) == Ok::<InstructionView, InstructionError>(inst@),
                Err(error) => decode(instruction@) == Err::<InstructionView, InstructionError>(
                    error,
                ),
            },
            decoded matches Ok(inst) ==> inst@.opcode == opcode_bits(instruction@)
                && opcode_format(inst@.opcode) == Some(inst@.format),
    {
        let width = instruction.unicode_len();
        if width < MIN_WIDTH {
            return Err(InstructionError::FormatError);
        }
        let bits = instruction.substring_char(width - 7, width);
        let format = match classify(bits) {
            Some(format) => format,
            None => {
                return Err(InstructionError::DecodeError);
            },
        };
        let rs1 = instruction.substring_char(width - 20, width - 15).to_owned();
        let rs2 = instruction.substring_char(width - 25, width - 20).to_owned();
        let rd = match format {
            Format::S => rs2.clone(),
            _ => instruction.substring_char(width - 12, width - 7).to_owned(),
        };
        Ok(
            Instruction {
                full_inst: instruction.to_owned(),
                opcode: OpCodeType::tagged(format, bits.to_owned()),
                rd,
                rs1,
                rs2,
            },
        )
    }

    /// The pipeline bubble.
    pub fn nop() -> (bubble: Instruction)
        ensures
            bubble@ == nop_view(),
    {
        proof {
            lemma_bubble_decodes();
        }
        Instruction {
            full_inst: NOP_INST.to_owned(),
            opcode: OpCodeType::I("0010011".to_owned()),
            rd: "00000".to_owned(),
            rs1: "00000".to_owned(),
            rs2: "00000".to_owned(),
        }
    }

    /// Gives up the instruction for its whole line.
    pub fn get_full_inst(self) -> (text: String)
        ensures
            text@ == self@.full_inst,
            well_formed(self@),
    {
        proof {
            use_type_invariant(&self);
        }
        self.full_inst
    }

    /// Gives up the instruction for its opcode: format and bits.
    pub fn get_opcode(self) -> (opcode: OpCodeType)
        ensures
            opcode.spec_format() == self@.format,
            opcode.spec_bits() == self@.opcode,
    {
        self.opcode
    }

    /// Gives up the instruction for its destination field.
    pub fn get_rd(self) -> (bits: String)
        ensures
            bits@ == self@.rd,
    {
        self.rd
    }

    /// Gives up the instruction for its first source field.
    pub fn get_rs1(self) -> (bits: String)
        ensures
            bits@ == self@.rs1,
    {
        self.rs1
    }

    /// Gives up the instruction for its second source field.
    pub fn get_rs2(self) -> (bits: String)
        ensures
            bits@ == self@.rs2,
    {
        self.rs2
    }

    /// The instruction's shape.
    pub fn format(&self) -> (format: Format)
        ensures
            format == self@.format,
    {
        self.opcode.format()
    }

    /// The whole line, borrowed. It decodes to this very instruction.
    pub fn full_inst(&self) -> (text: &String)
        ensures
            text@ == self@.full_inst,
            well_formed(self@),
    {
        proof {
            use_type_invariant(self);
        }
        &self.full_inst
    }

    /// The destination field, borrowed.
    pub fn rd(&self) -> (bits: &String)
        ensures
            bits@ == self@.rd,
    {
        &self.rd
    }

    /// The first source field, borrowed.
    pub fn rs1(&self) -> (bits: &String)
        ensures
            bits@ == self@.rs1,
    {
        &self.rs1
    }

    /// The second source field, borrowed.
    pub fn rs2(&self) -> (bits: &String)
        ensures
            bits@ == self@.rs2,
    {
        &self.rs2
    }

    /// Whether this is the pipeline bubble, judged by its text alone.
    pub fn is_nop(&self) -> (bubble: bool)
        ensures
            bubble == (self@.full_inst == NOP_INST@),
            bubble == (self@ == nop_view()),
    {
        proof {
            use_type_invariant(self);
            lemma_bubble_decodes();
        }
        same_text(self.full_inst.as_str(), NOP_INST)
    }
}

/// A copy of a stream.
pub fn copy_stream(instructions: &Vec<Instruction>) -> (copy: Vec<Instruction>)
    ensures
        copy@ == instructions@,
{
    let mut copy: Vec<Instruction> = Vec::new();
    let mut index: usize = 0;
    while index < instructions.len()
        invariant
            index <= instructions.len(),
            copy.len() == index,
            forall|i: int| 0 <= i < index ==> copy[i] == instructions[i],
        decreases instructions.len() - index,
    {
        copy.push(instructions[index].clone());
        index = index + 1;
    }
    assert(copy@ =~= instructions@);
    copy
}

/// Decodes a program line by line, in order. One line that cannot be
/// decoded fails the whole program: no instruction is skipped.
pub fn decode_lines(lines: &Vec<String>) -> (decoded: Result<Vec<Instruction>, InstructionError>)
    ensures
        match decoded {
            Ok(stream) => decode_all(texts(lines@)) == Ok::<
                Seq<InstructionView>,
                InstructionError,
            >(views(stream@)),
            Err(error) => decode_all(texts(lines@)) == Err::<
                Seq<InstructionView>,
                InstructionError,
            >(error),
        },
{
    let mut stream: Vec<Instruction> = Vec::new();
    let mut index: usize = 0;
    assert(texts(lines@).take(0) =~= Seq::<Seq<char>>::empty());
    assert(views(stream@) =~= Seq::<InstructionView>::empty());
    while index < lines.len()
        invariant
            index <= lines.len(),
            decode_all(texts(lines@).take(index as int)) == Ok::<
                Seq<InstructionView>,
                InstructionError,
            >(views(stream@)),
        decreases lines.len() - index,
    {
        let ghost before = views(stream@);
        proof {
            assert(texts(lines@).take(index + 1).drop_last() =~= texts(lines@).take(index as int));
            assert(texts(lines@).take(index + 1).last() == lines[index as int]@);
        }
        match Instruction::new(lines[index].as_str()) {
            Ok(inst) => {
                stream.push(inst);
                assert(views(stream@) =~= before.push(inst@));
            },
            Err(error) => {
                proof {
                    lemma_decode_all_fails_on(texts(lines@), index as int);
                }
                return Err(error);
            },
        }
        index = index + 1;
    }
    assert(texts(lines@).take(index as int) =~= texts(lines@));
    Ok(stream)
}

/// A program whose first undecodable line is at `index` fails with the
/// error of that line.
pub proof fn lemma_decode_all_fails_on(lines: Seq<Seq<char>>, index: int)
    requires
        0 <= index < lines.len(),
        decode_all(lines.take(index)) is Ok,
        decode(lines[index]) is Err,
    ensures
        decode_all(lines) == Err::<Seq<InstructionView>, InstructionError>(
            decode(lines[index])->Err_0,
        ),
    decreases lines.len() - index,
{
    assert(lines.take(index + 1).drop_last() =~= lines.take(index));
    assert(lines.take(index + 1).last() == lines[index]);
    lemma_decode_all_keeps_failing(lines, index + 1);
}

/// Once a prefix of a program fails, every longer prefix fails alike.
pub proof fn lemma_decode_all_keeps_failing(lines: Seq<Seq<char>>, upto: int)
    requires
        0 <= upto <= lines.len(),
        decode_all(lines.take(upto)) is Err,
    ensures
        decode_all(lines) == decode_all(lines.take(upto)),
    decreases lines.len() - upto,
{
    if upto < lines.len() {
        assert(lines.take(upto + 1).drop_last() =~= lines.take(upto));
        lemma_decode_all_keeps_failing(lines, upto + 1);
    } else {
        assert(lines.take(upto) =~= lines);
    }
}

/// The bubble is what the decoder makes of the bubble's text.
pub proof fn lemma_bubble_decodes()
    ensures
        decode(NOP_INST@) == Ok::<InstructionView, InstructionError>(nop_view()),
{
    reveal_strlit("00000000000000000000000000010011");
    reveal_strlit("0010011");
    reveal_strlit("0110011");
    reveal_strlit("1110011");
    reveal_strlit("00000");
    let line = NOP_INST@;
    assert(line.len() == 32);
    assert(opcode_bits(line) =~= "0010011"@);
    assert("0010011"@[1] != "0110011"@[1]);
    assert("0010011"@[0] != "1110011"@[0]);
    assert(field_bits(line, 7) =~= "00000"@);
    assert(field_bits(line, 15) =~= "00000"@);
    assert(field_bits(line, 20) =~= "00000"@);
}

} // verus!
