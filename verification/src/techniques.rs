//! The four hazard-mitigation techniques, each a function from stream to stream.

use vstd::prelude::*;
use crate::instruction::{copy_stream, Format, Instruction, InstructionView, nop_view, views};
use crate::laws::lemma_reorder_after_stall_only;
use crate::data_hazard::{
    check_for_hazards,
    check_for_hazards_with_forwarding,
    check_for_reorder,
    far_conflict_only,
    flags_view,
    hazard_record,
    highest_weight,
    is_branch,
    is_bubble,
    lemma_record_highest,
    reorder_candidate,
    reorder_flags,
    stream_forwarding_stall,
};

verus! {

/// `count` bubbles in a row.
pub open spec fn bubbles(count: nat) -> Seq<InstructionView> {
    Seq::new(count, |i: int| nop_view())
}

/// The stream from position `from` on, each instruction followed by as many
/// bubbles as `stalls` gives for it.
pub open spec fn padded_from(stream: Seq<InstructionView>, stalls: Seq<nat>, from: int) -> Seq<
    InstructionView,
>
    recommends
        stalls.len() == stream.len(),
        0 <= from,
    decreases stream.len() - from,
{
    if from < 0 || from >= stream.len() {
        Seq::empty()
    } else {
        (seq![stream[from]] + bubbles(stalls[from])) + padded_from(stream, stalls, from + 1)
    }
}

/// Stalls owed by each instruction when nothing is forwarded: the largest of
/// its three hazard weights.
pub open spec fn stall_counts(stream: Seq<InstructionView>) -> Seq<nat> {
    Seq::new(stream.len(), |i: int| highest_weight(stream, i))
}

/// Stalls owed by each instruction when results are forwarded.
pub open spec fn forwarding_counts(stream: Seq<InstructionView>) -> Seq<nat> {
    Seq::new(stream.len(), |i: int| stream_forwarding_stall(stream, i))
}

/// The stall-only technique.
pub open spec fn stall_only(stream: Seq<InstructionView>) -> Seq<InstructionView> {
    padded_from(stream, stall_counts(stream), 0)
}

/// The forwarding technique.
pub open spec fn forwarding(stream: Seq<InstructionView>) -> Seq<InstructionView> {
    padded_from(stream, forwarding_counts(stream), 0)
}

/// Whether the place two before the end of `output` can take a moved
/// instruction: it exists and holds a bubble, not a branch or a jump.
pub open spec fn landing_free(output: Seq<InstructionView>) -> bool {
    output.len() >= 2 && is_bubble(output[output.len() - 2]) && !is_branch(
        output[output.len() - 2].format,
    )
}

/// Whether the instruction at `index` asks to move up by two places.
pub open spec fn wants_move(stream: Seq<InstructionView>, index: int) -> bool
    recommends
        0 <= index < stream.len(),
{
    reorder_candidate(stream, index) && far_conflict_only(stream, index)
}

/// One step of reordering: `current` either takes the place of the bubble
/// two places before the end of `output`, or is appended.
pub open spec fn reorder_step(output: Seq<InstructionView>, current: InstructionView, moves: bool)
    -> Seq<InstructionView> {
    if moves && landing_free(output) {
        output.update(output.len() - 2, current)
    } else {
        output.push(current)
    }
}

/// The output of reordering after the first `upto` instructions of `stream`.
pub open spec fn reordered_prefix(stream: Seq<InstructionView>, upto: nat) -> Seq<InstructionView>
    recommends
        upto <= stream.len(),
    decreases upto,
{
    if upto == 0 || upto > stream.len() {
        Seq::empty()
    } else {
        reorder_step(
            reordered_prefix(stream, (upto - 1) as nat),
            stream[upto - 1],
            wants_move(stream, upto - 1),
        )
    }
}

/// Reordering of a whole stream.
pub open spec fn reordered(stream: Seq<InstructionView>) -> Seq<InstructionView> {
    reordered_prefix(stream, stream.len())
}

/// Stall counts as mathematical numbers.
pub open spec fn as_nats(counts: Seq<usize>) -> Seq<nat> {
    Seq::new(counts.len(), |i: int| counts[i] as nat)
}

/// Emits each instruction followed by the number of bubbles that `stalls`
/// gives for it.
pub fn insert_nops(instructions: &Vec<Instruction>, stalls: &Vec<usize>) -> (padded: Vec<
    Instruction,
>)
    requires
        stalls.len() == instructions.len(),
    ensures
        views(padded@) == padded_from(views(instructions@), as_nats(stalls@), 0),
{
    let ghost stream = views(instructions@);
    let ghost counts = as_nats(stalls@);
    let mut padded: Vec<Instruction> = Vec::new();
    let nop = Instruction::nop();
    let mut index: usize = 0;
    assert(views(padded@) + padded_from(stream, counts, 0) =~= padded_from(stream, counts, 0));
    while index < instructions.len()
        invariant
            index <= instructions.len(),
            stalls.len() == instructions.len(),
            stream == views(instructions@),
            counts == as_nats(stalls@),
            nop@ == nop_view(),
            views(padded@) + padded_from(stream, counts, index as int) == padded_from(
                stream,
                counts,
                0,
            ),
        decreases instructions.len() - index,
    {
        let ghost before = views(padded@);
        padded.push(instructions[index].clone());
        assert(views(padded@) =~= before + (seq![stream[index as int]] + bubbles(0)));
        let mut inserted: usize = 0;
        while inserted < stalls[index]
            invariant
                index < instructions.len(),
                stalls.len() == instructions.len(),
                inserted <= stalls[index as int],
                stream == views(instructions@),
                nop@ == nop_view(),
                views(padded@) == before + (seq![stream[index as int]] + bubbles(inserted as nat)),
            decreases stalls[index as int] - inserted,
        {
            let ghost shorter = views(padded@);
            padded.push(nop.clone());
            inserted = inserted + 1;
            assert(views(padded@) =~= shorter.push(nop_view()));
            assert(views(padded@) =~= before + (seq![stream[index as int]] + bubbles(
                inserted as nat,
            )));
        }
        assert(counts[index as int] == inserted as nat);
        assert(views(padded@) + padded_from(stream, counts, index + 1) =~= before + padded_from(
            stream,
            counts,
            index as int,
        ));
        index = index + 1;
    }
    assert(views(padded@) =~= views(padded@) + padded_from(stream, counts, index as int));
    padded
}

/// Stall-only: no help from the hardware, so every hazard is waited out.
/// After each instruction come as many bubbles as its largest hazard weight.
pub fn only_nops(instructions: Vec<Instruction>) -> (padded: Vec<Instruction>)
    ensures
        views(padded@) == stall_only(views(instructions@)),
{
    let hazards = check_for_hazards(copy_stream(&instructions));
    let mut stalls: Vec<usize> = Vec::new();
    let mut index: usize = 0;
    while index < instructions.len()
        invariant
            index <= instructions.len(),
            hazards.len() == instructions.len(),
            stalls.len() == index,
            forall|i: int|
                0 <= i < hazards.len() ==> hazards[i] == #[trigger] hazard_record(
                    views(instructions@),
                    i,
                ),
            forall|i: int|
                0 <= i < index ==> stalls[i] as nat == highest_weight(views(instructions@), i),
        decreases instructions.len() - index,
    {
        proof {
            lemma_record_highest(views(instructions@), index as int);
        }
        stalls.push(hazards[index].highest());
        index = index + 1;
    }
    assert(as_nats(stalls@) =~= stall_counts(views(instructions@)));
    insert_nops(&instructions, &stalls)
}

/// Forwarding: only a load whose result is read at once still costs a stall.
pub fn forwading_with_nops(instructions: Vec<Instruction>) -> (padded: Vec<Instruction>)
    ensures
        views(padded@) == forwarding(views(instructions@)),
{
    let stalls = check_for_hazards_with_forwarding(copy_stream(&instructions));
    assert(as_nats(stalls@) =~= forwarding_counts(views(instructions@)));
    insert_nops(&instructions, &stalls)
}

/// Moves instructions up by two places into the bubbles that stand there.
///
/// An instruction moves when it is no bubble, branch or jump, its hazards
/// allow it, and the place two before the end of the output built so far
/// holds a bubble; the bubble is dropped. Everything else is appended in
/// order.
pub fn reorder(instructions: Vec<Instruction>) -> (output: Vec<Instruction>)
    ensures
        views(output@) == reordered(views(instructions@)),
{
    let ghost stream = views(instructions@);
    let can_reorder = check_for_reorder(copy_stream(&instructions));
    let mut output: Vec<Instruction> = Vec::new();
    let mut index: usize = 0;
    assert(views(output@) =~= reordered_prefix(stream, 0));
    while index < instructions.len()
        invariant
            index <= instructions.len(),
            stream == views(instructions@),
            can_reorder.len() == instructions.len(),
            forall|i: int|
                0 <= i < can_reorder.len() ==> flags_view(can_reorder[i])
                    == #[trigger] reorder_flags(stream, i),
            views(output@) == reordered_prefix(stream, index as nat),
        decreases instructions.len() - index,
    {
        let ghost before = views(output@);
        let current_inst = instructions[index].clone();
        assert(flags_view(can_reorder[index as int]) == reorder_flags(stream, index as int));
        let moves = match &can_reorder[index] {
            Some(flags) => flags[1],
            None => false,
        };
        assert(moves == wants_move(stream, index as int));
        let lands = moves && output.len() >= 2 && landing_holds_bubble(&output);
        if lands {
            let prev_index = output.len() - 2;
            output.set(prev_index, current_inst);
            assert(views(output@) =~= before.update(before.len() - 2, stream[index as int]));
        } else {
            output.push(current_inst);
            assert(views(output@) =~= before.push(stream[index as int]));
        }
        index = index + 1;
    }
    output
}

fn landing_holds_bubble(output: &Vec<Instruction>) -> (free: bool)
    requires
        output.len() >= 2,
    ensures
        free == landing_free(views(output@)),
{
    let landing = &output[output.len() - 2];
    landing.is_nop() && match landing.format() {
        Format::B | Format::J => false,
        _ => true,
    }
}

/// Stall-only followed by reordering.
///
/// The bubbles of stall-only settle every hazard, and a bubble conflicts
/// with nothing, so in the padded stream no instruction asks to move: the
/// output is the stall-only stream itself.
pub fn reorder_with_only_nops(instructions: Vec<Instruction>) -> (output: Vec<Instruction>)
    ensures
        views(output@) == reordered(stall_only(views(instructions@))),
        views(output@) == stall_only(views(instructions@)),
{
    proof {
        lemma_reorder_after_stall_only(views(instructions@));
    }
    let only_nops = only_nops(instructions);
    reorder(only_nops)
}

/// Forwarding followed by reordering.
pub fn forwarding_and_reorder_with_nops(instructions: Vec<Instruction>) -> (output: Vec<
    Instruction,
>)
    ensures
        views(output@) == reordered(forwarding(views(instructions@))),
{
    let forwading_with_nops = forwading_with_nops(instructions);
    reorder(forwading_with_nops)
}

} // verus!
