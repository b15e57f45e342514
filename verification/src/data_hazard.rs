//! Data-hazard detection over a bounded lookahead window.
//!
//! Formats that write a destination register: U, J, I, L and R. Formats that
//! read only `rs1`: I and L. Formats that read `rs1` and `rs2`: B, S and R.
//! The register `00000` is hard-wired to zero, so a write to it creates no
//! dependency.

use vstd::prelude::*;
use vstd::string::*;
use crate::instruction::{
    copy_stream,
    same_text,
    views,
    Format,
    Instruction,
    InstructionView,
    NOP_INST,
};

verus! {

/// The three kinds of data hazard.
#[derive(Clone, Copy, Debug, PartialEq, Eq, Structural)]
pub enum HazardKind {
    War,
    Waw,
    Raw,
}

/// A hazard of one kind with its stall weight, or none.
#[derive(Clone, Copy, Debug, PartialEq, Eq, Structural)]
pub enum DataHazard {
    Raw(usize),
    War(usize),
    Waw(usize),
    NoHazard,
}

/// The hazards of one instruction, one entry per kind.
#[derive(Clone, Copy, Debug, PartialEq, Eq, Structural)]
pub struct HazardRecord {
    pub war: DataHazard,
    pub waw: DataHazard,
    pub raw: DataHazard,
}

/// Stall weight owed for a conflict with the instruction immediately after.
pub const NEAR_WEIGHT: usize = 2;

/// Stall weight owed for a conflict with the instruction two places after.
pub const FAR_WEIGHT: usize = 1;

/// Bit pattern of the zero register.
pub open spec fn zero_register() -> Seq<char> {
    "00000"@
}

/// Whether instructions of this format write a destination register.
pub open spec fn writes_destination(format: Format) -> bool {
    format == Format::U || format == Format::J || format == Format::I || format == Format::L
        || format == Format::R
}

/// Whether instructions of this format read `rs1` and nothing else.
pub open spec fn reads_first_source_only(format: Format) -> bool {
    format == Format::I || format == Format::L
}

/// Whether instructions of this format read `rs1` and `rs2`.
pub open spec fn reads_both_sources(format: Format) -> bool {
    format == Format::B || format == Format::S || format == Format::R
}

/// Whether the format is that of a branch or of a jump.
pub open spec fn is_branch(format: Format) -> bool {
    format == Format::B || format == Format::J
}

/// Whether `inst` reads register `reg`.
pub open spec fn reads_register(inst: InstructionView, reg: Seq<char>) -> bool {
    ||| reads_first_source_only(inst.format) && inst.rs1 == reg
    ||| reads_both_sources(inst.format) && (inst.rs1 == reg || inst.rs2 == reg)
}

/// Whether `inst` writes a register other than the zero register.
pub open spec fn writes_real_register(inst: InstructionView) -> bool {
    writes_destination(inst.format) && inst.rd != zero_register()
}

/// Whether `later` conflicts with `current` in the given kind.
///
/// WAR: `later` writes a register that `current` reads. WAW: both write the
/// same register. RAW: `later` reads the register that `current` writes.
pub open spec fn conflicts(kind: HazardKind, current: InstructionView, later: InstructionView)
    -> bool {
    match kind {
        HazardKind::War => writes_real_register(later) && reads_register(current, later.rd),
        HazardKind::Waw => writes_real_register(current) && writes_real_register(later)
            && current.rd == later.rd,
        HazardKind::Raw => writes_real_register(current) && reads_register(later, current.rd),
    }
}

/// Stall weight of one kind for `current` against its lookahead window: 2 for
/// a conflict in the first place of the window, plus 1 for a conflict in the
/// second place. Places beyond the second are not looked at.
pub open spec fn window_weight(
    kind: HazardKind,
    current: InstructionView,
    window: Seq<InstructionView>,
) -> nat {
    let near: nat = if window.len() >= 1 && conflicts(kind, current, window[0]) {
        2
    } else {
        0
    };
    let far: nat = if window.len() >= 2 && conflicts(kind, current, window[1]) {
        1
    } else {
        0
    };
    near + far
}

/// Up to `width` instructions that follow position `index`.
pub open spec fn lookahead(stream: Seq<InstructionView>, index: int, width: int) -> Seq<
    InstructionView,
>
    recommends
        0 <= index < stream.len(),
        0 <= width,
{
    if index + 1 + width <= stream.len() {
        stream.subrange(index + 1, index + 1 + width)
    } else {
        stream.subrange(index + 1, stream.len() as int)
    }
}

/// Stall weight of one kind for the instruction at `index` of `stream`.
pub open spec fn stream_weight(kind: HazardKind, stream: Seq<InstructionView>, index: int) -> nat
    recommends
        0 <= index < stream.len(),
{
    window_weight(kind, stream[index], lookahead(stream, index, 2))
}

/// A weight as a tagged hazard: none when the weight is zero.
pub open spec fn hazard_of(kind: HazardKind, weight: nat) -> DataHazard {
    if weight == 0 {
        DataHazard::NoHazard
    } else {
        match kind {
            HazardKind::War => DataHazard::War(weight as usize),
            HazardKind::Waw => DataHazard::Waw(weight as usize),
            HazardKind::Raw => DataHazard::Raw(weight as usize),
        }
    }
}

/// The hazards of the instruction at `index` of `stream`.
pub open spec fn hazard_record(stream: Seq<InstructionView>, index: int) -> HazardRecord
    recommends
        0 <= index < stream.len(),
{
    HazardRecord {
        war: hazard_of(HazardKind::War, stream_weight(HazardKind::War, stream, index)),
        waw: hazard_of(HazardKind::Waw, stream_weight(HazardKind::Waw, stream, index)),
        raw: hazard_of(HazardKind::Raw, stream_weight(HazardKind::Raw, stream, index)),
    }
}

/// The largest of the three weights of the instruction at `index`.
pub open spec fn highest_weight(stream: Seq<InstructionView>, index: int) -> nat
    recommends
        0 <= index < stream.len(),
{
    let war = stream_weight(HazardKind::War, stream, index);
    let waw = stream_weight(HazardKind::Waw, stream, index);
    let raw = stream_weight(HazardKind::Raw, stream, index);
    if war >= waw && war >= raw {
        war
    } else if waw >= raw {
        waw
    } else {
        raw
    }
}

/// Stall owed when results are forwarded: one cycle when a load's
/// destination is read by the very next instruction, else none.
pub open spec fn forwarding_stall(current: InstructionView, window: Seq<InstructionView>) -> nat {
    if current.format == Format::L && window.len() >= 1 && conflicts(
        HazardKind::Raw,
        current,
        window[0],
    ) {
        1
    } else {
        0
    }
}

/// The forwarding stall of the instruction at `index` of `stream`.
pub open spec fn stream_forwarding_stall(stream: Seq<InstructionView>, index: int) -> nat
    recommends
        0 <= index < stream.len(),
{
    forwarding_stall(stream[index], lookahead(stream, index, 1))
}

/// Whether the text is that of the pipeline bubble.
pub open spec fn is_bubble(inst: InstructionView) -> bool {
    inst.full_inst == NOP_INST@
}

/// Whether the instruction at `index` may be looked at for reordering at
/// all: bubbles, branches and jumps are not.
pub open spec fn reorder_candidate(stream: Seq<InstructionView>, index: int) -> bool
    recommends
        0 <= index < stream.len(),
{
    !is_bubble(stream[index]) && !is_branch(stream[index].format)
}

/// Whether the hazards of the instruction at `index` allow a move by two
/// places: some kind conflicts two places ahead, and none conflicts with
/// the instruction immediately after.
pub open spec fn far_conflict_only(stream: Seq<InstructionView>, index: int) -> bool
    recommends
        0 <= index < stream.len(),
{
    highest_weight(stream, index) == 1
}

/// The reorder flags of the instruction at `index`: none for a bubble, a
/// branch or a jump; else the pair (move by one, move by two), of which the
/// first is never granted.
pub open spec fn reorder_flags(stream: Seq<InstructionView>, index: int) -> Option<Seq<bool>>
    recommends
        0 <= index < stream.len(),
{
    if reorder_candidate(stream, index) {
        Some(seq![false, far_conflict_only(stream, index)])
    } else {
        None
    }
}

/// Views of an optional pair of flags.
pub open spec fn flags_view(flags: Option<Vec<bool>>) -> Option<Seq<bool>> {
    match flags {
        Some(pair) => Some(pair@),
        None => None,
    }
}

impl DataHazard {
    /// The stall weight carried, zero for none.
    pub open spec fn spec_weight(&self) -> nat {
        match self {
            DataHazard::Raw(n) => *n as nat,
            DataHazard::War(n) => *n as nat,
            DataHazard::Waw(n) => *n as nat,
            DataHazard::NoHazard => 0,
        }
    }

    /// The stall weight carried, zero for none.
    pub fn weight(&self) -> (n: usize)
        ensures
            n == self.spec_weight(),
    {
        match self {
            DataHazard::Raw(n) => *n,
            DataHazard::War(n) => *n,
            DataHazard::Waw(n) => *n,
            DataHazard::NoHazard => 0,
        }
    }
}

impl HazardRecord {
    /// The largest stall weight among the three kinds.
    pub open spec fn spec_highest(&self) -> nat {
        let war = self.war.spec_weight();
        let waw = self.waw.spec_weight();
        let raw = self.raw.spec_weight();
        if war >= waw && war >= raw {
            war
        } else if waw >= raw {
            waw
        } else {
            raw
        }
    }

    /// The largest stall weight among the three kinds: the number of
    /// stalls that settles every hazard of the instruction at once.
    pub fn highest(&self) -> (n: usize)
        ensures
            n == self.spec_highest(),
    {
        let war = self.war.weight();
        let waw = self.waw.weight();
        let raw = self.raw.weight();
        if war >= waw && war >= raw {
            war
        } else if waw >= raw {
            waw
        } else {
            raw
        }
    }

    /// The one hazard that decides the stalls of the instruction: the entry
    /// of largest weight, where among equal weights WAR goes before WAW and
    /// WAW before RAW.
    pub open spec fn spec_resolved(&self) -> DataHazard {
        let war = self.war.spec_weight();
        let waw = self.waw.spec_weight();
        let raw = self.raw.spec_weight();
        if war >= waw && war >= raw {
            self.war
        } else if waw >= raw {
            self.waw
        } else {
            self.raw
        }
    }

    /// The one hazard that decides the stalls of the instruction: the entry
    /// of largest weight, where among equal weights WAR goes before WAW and
    /// WAW before RAW.
    pub fn resolved(&self) -> (hazard: DataHazard)
        ensures
            hazard == self.spec_resolved(),
            hazard.spec_weight() == self.spec_highest(),
    {
        let war = self.war.weight();
        let waw = self.waw.weight();
        let raw = self.raw.weight();
        if war >= waw && war >= raw {
            self.war
        } else if waw >= raw {
            self.waw
        } else {
            self.raw
        }
    }

    /// The entry stored under a kind's name: `"WAR"`, `"WAW"` or `"RAW"`.
    pub fn get(&self, kind: &str) -> (entry: Option<DataHazard>)
        ensures
            entry == if kind@ == "WAR"@ {
                Some(self.war)
            } else if kind@ == "WAW"@ {
                Some(self.waw)
            } else if kind@ == "RAW"@ {
                Some(self.raw)
            } else {
                None
            },
    {
        if same_text(kind, "WAR") {
            Some(self.war)
        } else if same_text(kind, "WAW") {
            Some(self.waw)
        } else if same_text(kind, "RAW") {
            Some(self.raw)
        } else {
            None
        }
    }
}

fn is_zero_register(bits: &String) -> (zero: bool)
    ensures
        zero == (bits@ == zero_register()),
{
    let zero = "00000".to_owned();
    *bits == zero
}

fn format_writes(format: Format) -> (writes: bool)
    ensures
        writes == writes_destination(format),
{
    match format {
        Format::U | Format::J | Format::I | Format::L | Format::R => true,
        _ => false,
    }
}

fn writes_real(inst: &Instruction) -> (writes: bool)
    ensures
        writes == writes_real_register(inst@),
{
    format_writes(inst.format()) && !is_zero_register(inst.rd())
}

fn reads(inst: &Instruction, reg: &String) -> (found: bool)
    ensures
        found == reads_register(inst@, reg@),
{
    match inst.format() {
        Format::I | Format::L => *inst.rs1() == *reg,
        Format::B | Format::S | Format::R => *inst.rs1() == *reg || *inst.rs2() == *reg,
        _ => false,
    }
}

/// Whether `later` conflicts with `current` in the given kind.
pub fn has_conflict(kind: HazardKind, current: &Instruction, later: &Instruction) -> (found: bool)
    ensures
        found == conflicts(kind, current@, later@),
{
    match kind {
        HazardKind::War => writes_real(later) && reads(current, later.rd()),
        HazardKind::Waw => writes_real(current) && writes_real(later) && *current.rd()
            == *later.rd(),
        HazardKind::Raw => writes_real(current) && reads(later, current.rd()),
    }
}

fn weigh(kind: HazardKind, current: &Instruction, window: &Vec<Instruction>) -> (weight: usize)
    ensures
        weight == window_weight(kind, current@, views(window@)),
        weight <= 3,
{
    let mut weight: usize = 0;
    if window.len() >= 2 && has_conflict(kind, current, &window[1]) {
        weight = weight + FAR_WEIGHT;
    }
    if window.len() >= 1 && has_conflict(kind, current, &window[0]) {
        weight = weight + NEAR_WEIGHT;
    }
    weight
}

/// The write-after-read hazard of `current_inst` against its window.
pub fn war_hazard(current_inst: &Instruction, next_instructions: &Vec<Instruction>) -> (hazard:
    DataHazard)
    ensures
        hazard == hazard_of(
            HazardKind::War,
            window_weight(HazardKind::War, current_inst@, views(next_instructions@)),
        ),
{
    let weight = weigh(HazardKind::War, current_inst, next_instructions);
    if weight == 0 {
        return DataHazard::NoHazard;
    }
    DataHazard::War(weight)
}

/// The write-after-write hazard of `current_inst` against its window.
pub fn waw_hazard(current_inst: &Instruction, next_instructions: &Vec<Instruction>) -> (hazard:
    DataHazard)
    ensures
        hazard == hazard_of(
            HazardKind::Waw,
            window_weight(HazardKind::Waw, current_inst@, views(next_instructions@)),
        ),
{
    let weight = weigh(HazardKind::Waw, current_inst, next_instructions);
    if weight == 0 {
        return DataHazard::NoHazard;
    }
    DataHazard::Waw(weight)
}

/// The read-after-write hazard of `current_inst` against its window.
pub fn raw_hazard(current_inst: &Instruction, next_instructions: &Vec<Instruction>) -> (hazard:
    DataHazard)
    ensures
        hazard == hazard_of(
            HazardKind::Raw,
            window_weight(HazardKind::Raw, current_inst@, views(next_instructions@)),
        ),
{
    let weight = weigh(HazardKind::Raw, current_inst, next_instructions);
    if weight == 0 {
        return DataHazard::NoHazard;
    }
    DataHazard::Raw(weight)
}

/// Copies up to `width` instructions that follow position `index`.
fn window_after(instructions: &Vec<Instruction>, index: usize, width: usize) -> (window: Vec<
    Instruction,
>)
    requires
        index < instructions.len(),
    ensures
        views(window@) == lookahead(views(instructions@), index as int, width as int),
{
    let mut window: Vec<Instruction> = Vec::new();
    let mut at: usize = index + 1;
    while at < instructions.len() && window.len() < width
        invariant
            index < at <= instructions.len(),
            window.len() == at - index - 1,
            window.len() <= width,
            forall|k: int| 0 <= k < window.len() ==> window[k] == instructions[index + 1 + k],
        decreases instructions.len() - at,
    {
        window.push(instructions[at].clone());
        at = at + 1;
    }
    assert(views(window@) =~= lookahead(views(instructions@), index as int, width as int));
    window
}

/// Hazards of every instruction against the two that follow it.
///
/// The last instruction has nothing after it and so no hazard.
pub fn check_for_hazards(instructions: Vec<Instruction>) -> (hazards: Vec<HazardRecord>)
    ensures
        hazards.len() == instructions.len(),
        forall|i: int|
            0 <= i < hazards.len() ==> hazards[i] == #[trigger] hazard_record(
                views(instructions@),
                i,
            ),
        instructions.len() > 0 ==> hazards[instructions.len() - 1] == (HazardRecord {
            war: DataHazard::NoHazard,
            waw: DataHazard::NoHazard,
            raw: DataHazard::NoHazard,
        }),
{
    let mut hazards: Vec<HazardRecord> = Vec::new();
    let mut index: usize = 0;
    while index < instructions.len()
        invariant
            index <= instructions.len(),
            hazards.len() == index,
            forall|i: int|
                0 <= i < index ==> hazards[i] == #[trigger] hazard_record(
                    views(instructions@),
                    i,
                ),
        decreases instructions.len() - index,
    {
        let next_two = window_after(&instructions, index, 2);
        let current_inst = &instructions[index];
        let record = HazardRecord {
            war: war_hazard(current_inst, &next_two),
            waw: waw_hazard(current_inst, &next_two),
            raw: raw_hazard(current_inst, &next_two),
        };
        hazards.push(record);
        index = index + 1;
    }
    proof {
        if instructions.len() > 0 {
            let last = instructions.len() - 1;
            assert(lookahead(views(instructions@), last, 2).len() == 0);
            assert(hazards[last] == hazard_record(views(instructions@), last));
        }
    }
    hazards
}

/// The forwarding stall of `current_inst` against the instruction after it.
pub fn forwading_hazard(current_inst: &Instruction, next_instructions: &Vec<Instruction>) -> (stall:
    usize)
    ensures
        stall == forwarding_stall(current_inst@, views(next_instructions@)),
{
    match current_inst.format() {
        Format::L => {
            if next_instructions.len() >= 1 && has_conflict(
                HazardKind::Raw,
                current_inst,
                &next_instructions[0],
            ) {
                1
            } else {
                0
            }
        },
        _ => 0,
    }
}

/// Forwarding stalls of every instruction against the one that follows it.
pub fn check_for_hazards_with_forwarding(instructions: Vec<Instruction>) -> (hazards: Vec<usize>)
    ensures
        hazards.len() == instructions.len(),
        forall|i: int|
            0 <= i < hazards.len() ==> hazards[i] == #[trigger] stream_forwarding_stall(
                views(instructions@),
                i,
            ),
{
    let mut hazards: Vec<usize> = Vec::new();
    let mut index: usize = 0;
    while index < instructions.len()
        invariant
            index <= instructions.len(),
            hazards.len() == index,
            forall|i: int|
                0 <= i < index ==> hazards[i] == #[trigger] stream_forwarding_stall(
                    views(instructions@),
                    i,
                ),
        decreases instructions.len() - index,
    {
        let next = window_after(&instructions, index, 1);
        let stall = forwading_hazard(&instructions[index], &next);
        hazards.push(stall);
        index = index + 1;
    }
    hazards
}

/// Reorder flags of every instruction of a stream.
///
/// An entry is `None` for a bubble, a branch or a jump. Otherwise it holds
/// two flags: the first, for a move by one place, is always false; the
/// second, for a move by two places, is set when the instruction conflicts
/// with the one two places ahead in some kind and with the next one in none.
pub fn check_for_reorder(instructions: Vec<Instruction>) -> (can_reorder: Vec<Option<Vec<bool>>>)
    ensures
        can_reorder.len() == instructions.len(),
        forall|i: int|
            0 <= i < can_reorder.len() ==> flags_view(can_reorder[i]) == #[trigger] reorder_flags(
                views(instructions@),
                i,
            ),
{
    let mut can_reorder: Vec<Option<Vec<bool>>> = Vec::new();
    let copy = copy_stream(&instructions);
    let hazards = check_for_hazards(copy);
    let mut index: usize = 0;
    while index < instructions.len()
        invariant
            index <= instructions.len(),
            can_reorder.len() == index,
            hazards.len() == instructions.len(),
            forall|i: int|
                0 <= i < hazards.len() ==> hazards[i] == #[trigger] hazard_record(
                    views(instructions@),
                    i,
                ),
            forall|i: int|
                0 <= i < index ==> flags_view(can_reorder[i]) == #[trigger] reorder_flags(
                    views(instructions@),
                    i,
                ),
        decreases instructions.len() - index,
    {
        let current_inst = &instructions[index];
        let skipped = current_inst.is_nop() || match current_inst.format() {
            Format::J | Format::B => true,
            _ => false,
        };
        if skipped {
            can_reorder.push(None);
        } else {
            let highest = hazards[index].highest();
            proof {
                lemma_record_highest(views(instructions@), index as int);
            }
            let can_reorder_first_inst = false;
            let can_reorder_second_inst = highest == FAR_WEIGHT;
            let mut pair: Vec<bool> = Vec::new();
            pair.push(can_reorder_first_inst);
            pair.push(can_reorder_second_inst);
            assert(pair@ =~= seq![false, far_conflict_only(views(instructions@), index as int)]);
            can_reorder.push(Some(pair));
        }
        index = index + 1;
    }
    can_reorder
}

/// The largest weight stored in a record is the largest weight of the
/// instruction it was made for.
pub proof fn lemma_record_highest(stream: Seq<InstructionView>, index: int)
    requires
        0 <= index < stream.len(),
    ensures
        hazard_record(stream, index).spec_highest() == highest_weight(stream, index),
        highest_weight(stream, index) <= 3,
{
}

} // verus!
