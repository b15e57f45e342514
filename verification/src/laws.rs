//! What holds of hazard detection, of the techniques and of their cost, for
//! every stream.

use vstd::prelude::*;
use crate::instruction::{InstructionView, nop_view, opcode_bits, opcode_format, decode};
use crate::data_hazard::{
    conflicts,
    highest_weight,
    is_branch,
    is_bubble,
    lookahead,
    stream_forwarding_stall,
    stream_weight,
    zero_register,
    HazardKind,
};
use crate::techniques::{
    bubbles,
    forwarding,
    forwarding_counts,
    landing_free,
    padded_from,
    reordered,
    reordered_prefix,
    stall_counts,
    stall_only,
    wants_move,
};
use crate::performance::{cost, total_cycles, Organization};

verus! {

/// The branches and jumps of a stream, in order.
pub open spec fn branches(stream: Seq<InstructionView>) -> Seq<InstructionView>
    decreases stream.len(),
{
    if stream.len() == 0 {
        Seq::empty()
    } else if is_branch(stream.last().format) {
        branches(stream.drop_last()).push(stream.last())
    } else {
        branches(stream.drop_last())
    }
}

/// How often `inst` stands in `stream`.
pub open spec fn occurrences(stream: Seq<InstructionView>, inst: InstructionView) -> nat
    decreases stream.len(),
{
    if stream.len() == 0 {
        0
    } else if stream.last() == inst {
        occurrences(stream.drop_last(), inst) + 1
    } else {
        occurrences(stream.drop_last(), inst)
    }
}

/// Whether no instruction of the stream has a hazard of any kind.
pub open spec fn hazard_free(stream: Seq<InstructionView>) -> bool {
    forall|index: int| 0 <= index < stream.len() ==> #[trigger] highest_weight(stream, index) == 0
}

/// A decoded instruction carries the trailing seven bits of its line, and
/// those bits select its format in the opcode table.
pub proof fn lemma_decoded_opcode_selects_format(line: Seq<char>)
    requires
        decode(line) is Ok,
    ensures
        decode(line)->Ok_0.opcode == opcode_bits(line),
        opcode_format(decode(line)->Ok_0.opcode) == Some(decode(line)->Ok_0.format),
        decode(line)->Ok_0.full_inst == line,
{
}

/// An instruction whose destination is the zero register is the writer in
/// no hazard: nothing written after it or before it conflicts with it.
pub proof fn lemma_zero_destination_never_conflicts(
    writer: InstructionView,
    other: InstructionView,
)
    requires
        writer.rd == zero_register(),
    ensures
        !conflicts(HazardKind::War, other, writer),
        !conflicts(HazardKind::Waw, writer, other),
        !conflicts(HazardKind::Waw, other, writer),
        !conflicts(HazardKind::Raw, writer, other),
{
}

/// With the zero register as destination, an instruction has no
/// write-after-write and no read-after-write weight in any stream, and adds
/// nothing to the write-after-read weight of the two instructions before it.
pub proof fn lemma_zero_destination_weights(stream: Seq<InstructionView>, index: int)
    requires
        0 <= index < stream.len(),
        stream[index].rd == zero_register(),
    ensures
        stream_weight(HazardKind::Waw, stream, index) == 0,
        stream_weight(HazardKind::Raw, stream, index) == 0,
        index >= 1 ==> stream_weight(HazardKind::War, stream, index - 1) <= 1,
        index >= 2 ==> stream_weight(HazardKind::War, stream, index - 2) != 1
            && stream_weight(HazardKind::War, stream, index - 2) != 3,
{
    if index >= 1 {
        assert(lookahead(stream, index - 1, 2)[0] == stream[index]);
    }
    if index >= 2 {
        assert(lookahead(stream, index - 2, 2)[1] == stream[index]);
    }
}

/// A bubble conflicts with nothing, on either side.
pub proof fn lemma_bubble_never_conflicts(kind: HazardKind, other: InstructionView)
    ensures
        !conflicts(kind, nop_view(), other),
        !conflicts(kind, other, nop_view()),
{
}

/// The branches of a concatenation are those of its parts, in order.
pub proof fn lemma_branches_concat(front: Seq<InstructionView>, back: Seq<InstructionView>)
    ensures
        branches(front + back) == branches(front) + branches(back),
    decreases back.len(),
{
    if back.len() == 0 {
        assert(front + back =~= front);
        assert(branches(front) + branches(back) =~= branches(front));
    } else {
        lemma_branches_concat(front, back.drop_last());
        assert((front + back).drop_last() =~= front + back.drop_last());
        assert((front + back).last() == back.last());
        if is_branch(back.last().format) {
            assert(branches(front + back) =~= branches(front) + branches(back));
        }
    }
}

/// Bubbles hold no branch.
pub proof fn lemma_bubbles_hold_no_branch(count: nat)
    ensures
        branches(bubbles(count)) == Seq::<InstructionView>::empty(),
    decreases count,
{
    if count > 0 {
        lemma_bubbles_hold_no_branch((count - 1) as nat);
        assert(bubbles(count).drop_last() =~= bubbles((count - 1) as nat));
    }
}

/// Putting one instruction that is no branch in the place of another that
/// is none leaves the branches as they were.
pub proof fn lemma_branches_update(
    stream: Seq<InstructionView>,
    place: int,
    moved: InstructionView,
)
    requires
        0 <= place < stream.len(),
        !is_branch(stream[place].format),
        !is_branch(moved.format),
    ensures
        branches(stream.update(place, moved)) == branches(stream),
{
    let front = stream.take(place);
    let back = stream.skip(place + 1);
    assert(stream =~= (front + seq![stream[place]]) + back);
    assert(stream.update(place, moved) =~= (front + seq![moved]) + back);
    lemma_branches_concat(front + seq![stream[place]], back);
    lemma_branches_concat(front + seq![moved], back);
    lemma_branches_concat(front, seq![stream[place]]);
    lemma_branches_concat(front, seq![moved]);
    assert(seq![moved].drop_last() =~= Seq::<InstructionView>::empty());
    assert(seq![stream[place]].drop_last() =~= Seq::<InstructionView>::empty());
    assert(branches(Seq::<InstructionView>::empty()) =~= Seq::<InstructionView>::empty());
    assert(branches(seq![moved]) =~= Seq::<InstructionView>::empty());
    assert(branches(seq![stream[place]]) =~= Seq::<InstructionView>::empty());
}

/// Padding with bubbles keeps the branches of the padded part.
pub proof fn lemma_padding_keeps_branches(
    stream: Seq<InstructionView>,
    stalls: Seq<nat>,
    from: int,
)
    requires
        stalls.len() == stream.len(),
        0 <= from <= stream.len(),
    ensures
        branches(padded_from(stream, stalls, from)) == branches(
            stream.subrange(from, stream.len() as int),
        ),
    decreases stream.len() - from,
{
    let rest = stream.subrange(from, stream.len() as int);
    if from < stream.len() {
        let tail = padded_from(stream, stalls, from + 1);
        lemma_padding_keeps_branches(stream, stalls, from + 1);
        lemma_branches_concat(seq![stream[from]] + bubbles(stalls[from]), tail);
        lemma_branches_concat(seq![stream[from]], bubbles(stalls[from]));
        lemma_bubbles_hold_no_branch(stalls[from]);
        lemma_branches_concat(seq![stream[from]], stream.subrange(from + 1, stream.len() as int));
        assert(rest =~= seq![stream[from]] + stream.subrange(from + 1, stream.len() as int));
        assert(branches(seq![stream[from]]) + Seq::<InstructionView>::empty() =~= branches(
            seq![stream[from]],
        ));
    } else {
        assert(rest =~= Seq::<InstructionView>::empty());
    }
}

/// Reordering keeps the branches of the part gone through.
pub proof fn lemma_reordering_keeps_branches(stream: Seq<InstructionView>, upto: nat)
    requires
        upto <= stream.len(),
    ensures
        branches(reordered_prefix(stream, upto)) == branches(stream.take(upto as int)),
    decreases upto,
{
    if upto == 0 {
        assert(stream.take(0) =~= Seq::<InstructionView>::empty());
    } else {
        let before = reordered_prefix(stream, (upto - 1) as nat);
        let current = stream[upto - 1];
        lemma_reordering_keeps_branches(stream, (upto - 1) as nat);
        assert(stream.take(upto as int).drop_last() =~= stream.take(upto - 1));
        assert(stream.take(upto as int).last() == current);
        if wants_move(stream, upto - 1) && landing_free(before) {
            lemma_branches_update(before, before.len() - 2, current);
        } else {
            assert(before.push(current).drop_last() =~= before);
        }
    }
}

/// Every technique hands out the branches and jumps of its input, each with
/// the text it had, in the order they had.
pub proof fn lemma_techniques_keep_branches(stream: Seq<InstructionView>)
    ensures
        branches(stall_only(stream)) == branches(stream),
        branches(forwarding(stream)) == branches(stream),
        branches(reordered(stall_only(stream))) == branches(stream),
        branches(reordered(forwarding(stream))) == branches(stream),
{
    assert(stream.subrange(0, stream.len() as int) =~= stream);
    lemma_padding_keeps_branches(stream, stall_counts(stream), 0);
    lemma_padding_keeps_branches(stream, forwarding_counts(stream), 0);
    let stalled = stall_only(stream);
    let forwarded = forwarding(stream);
    lemma_reordering_keeps_branches(stalled, stalled.len());
    lemma_reordering_keeps_branches(forwarded, forwarded.len());
    assert(stalled.take(stalled.len() as int) =~= stalled);
    assert(forwarded.take(forwarded.len() as int) =~= forwarded);
}

/// The weight of an instruction depends only on what follows it: in front
/// of the stream anything may stand.
pub proof fn lemma_weight_ignores_front(
    kind: HazardKind,
    front: Seq<InstructionView>,
    back: Seq<InstructionView>,
    index: int,
)
    requires
        0 <= index < back.len(),
    ensures
        stream_weight(kind, front + back, front.len() + index) == stream_weight(kind, back, index),
{
    assert(lookahead(front + back, front.len() + index, 2) =~= lookahead(back, index, 2));
}

/// How a padded stream begins: with the instruction itself, then its
/// bubbles, then the next instruction.
pub proof fn lemma_padded_head(stream: Seq<InstructionView>, stalls: Seq<nat>, from: int)
    requires
        stalls.len() == stream.len(),
        0 <= from < stream.len(),
    ensures
        padded_from(stream, stalls, from).len() >= 1 + stalls[from],
        padded_from(stream, stalls, from)[0] == stream[from],
        forall|k: int|
            1 <= k <= stalls[from] ==> #[trigger] padded_from(stream, stalls, from)[k]
                == nop_view(),
        padded_from(stream, stalls, from).len() == 1 + stalls[from] + padded_from(
            stream,
            stalls,
            from + 1,
        ).len(),
        forall|k: int|
            0 <= k < padded_from(stream, stalls, from + 1).len() ==> padded_from(
                stream,
                stalls,
                from,
            )[1 + stalls[from] + k] == #[trigger] padded_from(stream, stalls, from + 1)[k],
        from + 1 >= stream.len() ==> padded_from(stream, stalls, from + 1).len() == 0,
{
}

/// After stall-only padding from any position on, no instruction has a
/// hazard left.
pub proof fn lemma_padded_is_hazard_free(stream: Seq<InstructionView>, from: int)
    requires
        0 <= from <= stream.len(),
    ensures
        hazard_free(padded_from(stream, stall_counts(stream), from)),
    decreases stream.len() - from,
{
    let stalls = stall_counts(stream);
    let padded = padded_from(stream, stalls, from);
    if from < stream.len() {
        let head = seq![stream[from]] + bubbles(stalls[from]);
        let tail = padded_from(stream, stalls, from + 1);
        lemma_padded_is_hazard_free(stream, from + 1);
        lemma_padded_head(stream, stalls, from);
        if from + 1 < stream.len() {
            lemma_padded_head(stream, stalls, from + 1);
            assert(lookahead(stream, from, 2)[0] == stream[from + 1]);
        }
        if from + 2 < stream.len() {
            lemma_padded_head(stream, stalls, from + 2);
            assert(lookahead(stream, from, 2)[1] == stream[from + 2]);
        }
        assert forall|index: int| 0 <= index < padded.len() implies #[trigger] highest_weight(
            padded,
            index,
        ) == 0 by {
            if index >= head.len() {
                let within = index - head.len();
                lemma_weight_ignores_front(HazardKind::War, head, tail, within);
                lemma_weight_ignores_front(HazardKind::Waw, head, tail, within);
                lemma_weight_ignores_front(HazardKind::Raw, head, tail, within);
                assert(highest_weight(tail, within) == 0);
            } else if index >= 1 {
                assert(padded[index] == nop_view());
                let window = lookahead(padded, index, 2);
                if window.len() >= 1 {
                    lemma_bubble_never_conflicts(HazardKind::War, window[0]);
                    lemma_bubble_never_conflicts(HazardKind::Waw, window[0]);
                    lemma_bubble_never_conflicts(HazardKind::Raw, window[0]);
                }
                if window.len() >= 2 {
                    lemma_bubble_never_conflicts(HazardKind::War, window[1]);
                    lemma_bubble_never_conflicts(HazardKind::Waw, window[1]);
                    lemma_bubble_never_conflicts(HazardKind::Raw, window[1]);
                }
            } else {
                let window = lookahead(padded, 0, 2);
                let current = stream[from];
                lemma_bubble_never_conflicts(HazardKind::War, current);
                lemma_bubble_never_conflicts(HazardKind::Waw, current);
                lemma_bubble_never_conflicts(HazardKind::Raw, current);
                if window.len() >= 1 {
                    assert(window[0] == padded[1]);
                    assert(window[0] == nop_view() || (stalls[from] == 0 && window[0]
                        == stream[from + 1])) by {
                        if stalls[from] == 0 {
                            assert(padded[1] == tail[0]);
                        }
                    }
                }
                if window.len() >= 2 {
                    assert(window[1] == padded[2]);
                    assert(window[1] == nop_view() || (stalls[from] == 1 && window[1]
                        == stream[from + 1]) || (stalls[from] == 0 && from + 2 < stream.len()
                        && window[1] == stream[from + 2])) by {
                        if stalls[from] == 1 {
                            assert(padded[2] == tail[0]);
                        } else if stalls[from] == 0 {
                            assert(padded[2] == tail[1]);
                            if stalls[from + 1] == 0 {
                                let further = padded_from(stream, stalls, from + 2);
                                assert(tail[1] == further[0]);
                            }
                        }
                    }
                }
            }
        }
    }
}

/// Stall-only settles every hazard: detection run on its output finds no
/// hazard at any position, so no position asks for a further stall.
pub proof fn lemma_stall_only_output_is_hazard_free(stream: Seq<InstructionView>)
    ensures
        hazard_free(stall_only(stream)),
        forall|index: int, kind: HazardKind|
            0 <= index < stall_only(stream).len() ==> #[trigger] stream_weight(
                kind,
                stall_only(stream),
                index,
            ) == 0,
        stall_only(stall_only(stream)) == stall_only(stream),
{
    lemma_padded_is_hazard_free(stream, 0);
    let settled = stall_only(stream);
    assert forall|index: int, kind: HazardKind| 0 <= index < settled.len() implies #[trigger] stream_weight(
        kind,
        settled,
        index,
    ) == 0 by {
        assert(highest_weight(settled, index) == 0);
    }
    lemma_padding_without_stalls(settled, 0);
    assert(settled.subrange(0, settled.len() as int) =~= settled);
}

/// Padding a hazard-free stream adds nothing.
pub proof fn lemma_padding_without_stalls(stream: Seq<InstructionView>, from: int)
    requires
        hazard_free(stream),
        0 <= from <= stream.len(),
    ensures
        padded_from(stream, stall_counts(stream), from) == stream.subrange(
            from,
            stream.len() as int,
        ),
    decreases stream.len() - from,
{
    if from < stream.len() {
        lemma_padding_without_stalls(stream, from + 1);
        assert(highest_weight(stream, from) == 0);
        assert(bubbles(0) =~= Seq::<InstructionView>::empty());
        assert(padded_from(stream, stall_counts(stream), from) =~= stream.subrange(
            from,
            stream.len() as int,
        ));
    } else {
        assert(stream.subrange(from, stream.len() as int) =~= Seq::<InstructionView>::empty());
    }
}

/// Reordering leaves a hazard-free stream as it is: nothing asks to move.
pub proof fn lemma_reordering_hazard_free(stream: Seq<InstructionView>, upto: nat)
    requires
        hazard_free(stream),
        upto <= stream.len(),
    ensures
        reordered_prefix(stream, upto) == stream.take(upto as int),
    decreases upto,
{
    if upto == 0 {
        assert(stream.take(0) =~= Seq::<InstructionView>::empty());
    } else {
        lemma_reordering_hazard_free(stream, (upto - 1) as nat);
        assert(highest_weight(stream, upto - 1) == 0);
        assert(stream.take(upto as int) =~= stream.take(upto - 1).push(stream[upto - 1]));
    }
}

/// Stall-only leaves nothing to reorder: stall and reorder hands out the
/// stall-only stream.
pub proof fn lemma_reorder_after_stall_only(stream: Seq<InstructionView>)
    ensures
        reordered(stall_only(stream)) == stall_only(stream),
{
    lemma_stall_only_output_is_hazard_free(stream);
    let settled = stall_only(stream);
    lemma_reordering_hazard_free(settled, settled.len());
    assert(settled.take(settled.len() as int) =~= settled);
}

/// The cycles of a concatenation are the cycles of its parts.
pub proof fn lemma_cycles_concat(
    organization: Organization,
    front: Seq<InstructionView>,
    back: Seq<InstructionView>,
)
    ensures
        total_cycles(organization, front + back) == total_cycles(organization, front)
            + total_cycles(organization, back),
    decreases back.len(),
{
    if back.len() == 0 {
        assert(front + back =~= front);
    } else {
        lemma_cycles_concat(organization, front, back.drop_last());
        assert((front + back).drop_last() =~= front + back.drop_last());
    }
}

/// One instruction costs what its format costs.
pub proof fn lemma_cycles_single(organization: Organization, inst: InstructionView)
    ensures
        total_cycles(organization, seq![inst]) == cost(organization, inst.format),
{
    assert(seq![inst].drop_last() =~= Seq::<InstructionView>::empty());
    assert(total_cycles(organization, Seq::<InstructionView>::empty()) == 0);
}

/// More bubbles never cost less.
pub proof fn lemma_cycles_bubbles(organization: Organization, fewer: nat, more: nat)
    requires
        fewer <= more,
    ensures
        total_cycles(organization, bubbles(fewer)) <= total_cycles(organization, bubbles(more)),
    decreases more,
{
    if fewer < more {
        lemma_cycles_bubbles(organization, fewer, (more - 1) as nat);
        assert(bubbles(more).drop_last() =~= bubbles((more - 1) as nat));
    }
}

/// Padding never costs less than the part it pads.
pub proof fn lemma_padding_adds_cycles(
    organization: Organization,
    stream: Seq<InstructionView>,
    stalls: Seq<nat>,
    from: int,
)
    requires
        stalls.len() == stream.len(),
        0 <= from <= stream.len(),
    ensures
        total_cycles(organization, padded_from(stream, stalls, from)) >= total_cycles(
            organization,
            stream.subrange(from, stream.len() as int),
        ),
    decreases stream.len() - from,
{
    let rest = stream.subrange(from, stream.len() as int);
    if from < stream.len() {
        let tail = padded_from(stream, stalls, from + 1);
        let later = stream.subrange(from + 1, stream.len() as int);
        lemma_padding_adds_cycles(organization, stream, stalls, from + 1);
        lemma_cycles_concat(organization, seq![stream[from]] + bubbles(stalls[from]), tail);
        lemma_cycles_concat(organization, seq![stream[from]], bubbles(stalls[from]));
        lemma_cycles_concat(organization, seq![stream[from]], later);
        assert(rest =~= seq![stream[from]] + later);
    } else {
        assert(rest =~= Seq::<InstructionView>::empty());
    }
}

/// Padding with fewer bubbles at every position never costs more.
pub proof fn lemma_fewer_stalls_fewer_cycles(
    organization: Organization,
    stream: Seq<InstructionView>,
    fewer: Seq<nat>,
    more: Seq<nat>,
    from: int,
)
    requires
        fewer.len() == stream.len(),
        more.len() == stream.len(),
        forall|i: int| 0 <= i < stream.len() ==> fewer[i] <= more[i],
        0 <= from <= stream.len(),
    ensures
        total_cycles(organization, padded_from(stream, fewer, from)) <= total_cycles(
            organization,
            padded_from(stream, more, from),
        ),
    decreases stream.len() - from,
{
    if from < stream.len() {
        lemma_fewer_stalls_fewer_cycles(organization, stream, fewer, more, from + 1);
        lemma_cycles_bubbles(organization, fewer[from], more[from]);
        lemma_cycles_concat(
            organization,
            seq![stream[from]] + bubbles(fewer[from]),
            padded_from(stream, fewer, from + 1),
        );
        lemma_cycles_concat(
            organization,
            seq![stream[from]] + bubbles(more[from]),
            padded_from(stream, more, from + 1),
        );
        lemma_cycles_concat(organization, seq![stream[from]], bubbles(fewer[from]));
        lemma_cycles_concat(organization, seq![stream[from]], bubbles(more[from]));
    }
}

/// Forwarding never owes more stalls than stall-only does.
pub proof fn lemma_forwarding_owes_less(stream: Seq<InstructionView>, index: int)
    requires
        0 <= index < stream.len(),
    ensures
        stream_forwarding_stall(stream, index) <= highest_weight(stream, index),
{
    if stream_forwarding_stall(stream, index) > 0 {
        assert(lookahead(stream, index, 1)[0] == lookahead(stream, index, 2)[0]);
        assert(stream_weight(HazardKind::Raw, stream, index) >= 2);
    }
}

/// Reordering never costs more than the part gone through.
pub proof fn lemma_reordering_saves_cycles(
    organization: Organization,
    stream: Seq<InstructionView>,
    upto: nat,
)
    requires
        upto <= stream.len(),
    ensures
        total_cycles(organization, reordered_prefix(stream, upto)) <= total_cycles(
            organization,
            stream.take(upto as int),
        ),
    decreases upto,
{
    if upto == 0 {
        assert(stream.take(0) =~= Seq::<InstructionView>::empty());
    } else {
        let before = reordered_prefix(stream, (upto - 1) as nat);
        let current = stream[upto - 1];
        lemma_reordering_saves_cycles(organization, stream, (upto - 1) as nat);
        assert(stream.take(upto as int).drop_last() =~= stream.take(upto - 1));
        if wants_move(stream, upto - 1) && landing_free(before) {
            let place = before.len() - 2;
            let front = before.take(place);
            let back = before.skip(place + 1);
            assert(before =~= (front + seq![before[place]]) + back);
            assert(before.update(place, current) =~= (front + seq![current]) + back);
            lemma_cycles_concat(organization, front + seq![before[place]], back);
            lemma_cycles_concat(organization, front + seq![current], back);
            lemma_cycles_concat(organization, front, seq![before[place]]);
            lemma_cycles_concat(organization, front, seq![current]);
            lemma_cycles_single(organization, current);
        } else {
            assert(before.push(current).drop_last() =~= before);
        }
    }
}

/// Stall-only never takes fewer cycles than the stream it was given, and
/// forwarding with reordering never takes more cycles than stall-only;
/// forwarding alone and stall with reordering lie between.
pub proof fn lemma_cycles_are_monotone(organization: Organization, stream: Seq<InstructionView>)
    ensures
        total_cycles(organization, stall_only(stream)) >= total_cycles(organization, stream),
        total_cycles(organization, reordered(forwarding(stream))) <= total_cycles(
            organization,
            stall_only(stream),
        ),
        total_cycles(organization, reordered(forwarding(stream))) <= total_cycles(
            organization,
            forwarding(stream),
        ),
        total_cycles(organization, forwarding(stream)) <= total_cycles(
            organization,
            stall_only(stream),
        ),
        total_cycles(organization, forwarding(stream)) >= total_cycles(organization, stream),
        total_cycles(organization, reordered(stall_only(stream))) == total_cycles(
            organization,
            stall_only(stream),
        ),
{
    assert(stream.subrange(0, stream.len() as int) =~= stream);
    lemma_padding_adds_cycles(organization, stream, stall_counts(stream), 0);
    lemma_padding_adds_cycles(organization, stream, forwarding_counts(stream), 0);
    assert forall|i: int| 0 <= i < stream.len() implies forwarding_counts(stream)[i]
        <= stall_counts(stream)[i] by {
        lemma_forwarding_owes_less(stream, i);
    }
    lemma_fewer_stalls_fewer_cycles(
        organization,
        stream,
        forwarding_counts(stream),
        stall_counts(stream),
        0,
    );
    let forwarded = forwarding(stream);
    lemma_reordering_saves_cycles(organization, forwarded, forwarded.len());
    assert(forwarded.take(forwarded.len() as int) =~= forwarded);
    lemma_reorder_after_stall_only(stream);
}

/// An instruction stands in a concatenation as often as in its parts
/// together.
pub proof fn lemma_occurrences_concat(
    front: Seq<InstructionView>,
    back: Seq<InstructionView>,
    inst: InstructionView,
)
    ensures
        occurrences(front + back, inst) == occurrences(front, inst) + occurrences(back, inst),
    decreases back.len(),
{
    if back.len() == 0 {
        assert(front + back =~= front);
    } else {
        lemma_occurrences_concat(front, back.drop_last(), inst);
        assert((front + back).drop_last() =~= front + back.drop_last());
    }
}

/// A stream of one instruction holds that instruction once and no other.
pub proof fn lemma_occurrences_single(held: InstructionView, inst: InstructionView)
    ensures
        occurrences(seq![held], inst) == if held == inst {
            1nat
        } else {
            0nat
        },
{
    assert(seq![held].drop_last() =~= Seq::<InstructionView>::empty());
    assert(occurrences(Seq::<InstructionView>::empty(), inst) == 0);
}

/// Among bubbles stands nothing but the bubble.
pub proof fn lemma_occurrences_bubbles(count: nat, inst: InstructionView)
    requires
        !is_bubble(inst),
    ensures
        occurrences(bubbles(count), inst) == 0,
    decreases count,
{
    if count > 0 {
        lemma_occurrences_bubbles((count - 1) as nat, inst);
        assert(bubbles(count).drop_last() =~= bubbles((count - 1) as nat));
    }
}

/// Padding adds bubbles and nothing else.
pub proof fn lemma_padding_keeps_instructions(
    stream: Seq<InstructionView>,
    stalls: Seq<nat>,
    from: int,
    inst: InstructionView,
)
    requires
        stalls.len() == stream.len(),
        0 <= from <= stream.len(),
        !is_bubble(inst),
    ensures
        occurrences(padded_from(stream, stalls, from), inst) == occurrences(
            stream.subrange(from, stream.len() as int),
            inst,
        ),
        padded_from(stream, stalls, from).len() >= stream.len() - from,
    decreases stream.len() - from,
{
    let rest = stream.subrange(from, stream.len() as int);
    if from < stream.len() {
        let tail = padded_from(stream, stalls, from + 1);
        let later = stream.subrange(from + 1, stream.len() as int);
        lemma_padding_keeps_instructions(stream, stalls, from + 1, inst);
        lemma_occurrences_concat(seq![stream[from]] + bubbles(stalls[from]), tail, inst);
        lemma_occurrences_concat(seq![stream[from]], bubbles(stalls[from]), inst);
        lemma_occurrences_bubbles(stalls[from], inst);
        lemma_occurrences_concat(seq![stream[from]], later, inst);
        assert(rest =~= seq![stream[from]] + later);
    } else {
        assert(rest =~= Seq::<InstructionView>::empty());
    }
}

/// Reordering drops bubbles and nothing else: every other instruction of
/// the part gone through stands in the output as often as before.
pub proof fn lemma_reordering_keeps_instructions(
    stream: Seq<InstructionView>,
    upto: nat,
    inst: InstructionView,
)
    requires
        upto <= stream.len(),
        !is_bubble(inst),
    ensures
        occurrences(reordered_prefix(stream, upto), inst) == occurrences(
            stream.take(upto as int),
            inst,
        ),
        reordered_prefix(stream, upto).len() <= upto,
    decreases upto,
{
    if upto == 0 {
        assert(stream.take(0) =~= Seq::<InstructionView>::empty());
    } else {
        let before = reordered_prefix(stream, (upto - 1) as nat);
        let current = stream[upto - 1];
        lemma_reordering_keeps_instructions(stream, (upto - 1) as nat, inst);
        assert(stream.take(upto as int).drop_last() =~= stream.take(upto - 1));
        if wants_move(stream, upto - 1) && landing_free(before) {
            let place = before.len() - 2;
            let front = before.take(place);
            let back = before.skip(place + 1);
            assert(before =~= (front + seq![before[place]]) + back);
            assert(before.update(place, current) =~= (front + seq![current]) + back);
            lemma_occurrences_concat(front + seq![before[place]], back, inst);
            lemma_occurrences_concat(front + seq![current], back, inst);
            lemma_occurrences_concat(front, seq![before[place]], inst);
            lemma_occurrences_concat(front, seq![current], inst);
            lemma_occurrences_single(current, inst);
            lemma_occurrences_single(before[place], inst);
        } else {
            assert(before.push(current).drop_last() =~= before);
        }
    }
}

/// No technique loses or invents an instruction: whatever is no bubble
/// stands in each output as often as in the input. Padding never shortens a
/// stream and reordering never lengthens one.
pub proof fn lemma_techniques_keep_instructions(stream: Seq<InstructionView>, inst: InstructionView)
    requires
        !is_bubble(inst),
    ensures
        occurrences(stall_only(stream), inst) == occurrences(stream, inst),
        occurrences(forwarding(stream), inst) == occurrences(stream, inst),
        occurrences(reordered(stall_only(stream)), inst) == occurrences(stream, inst),
        occurrences(reordered(forwarding(stream)), inst) == occurrences(stream, inst),
        stall_only(stream).len() >= stream.len(),
        forwarding(stream).len() >= stream.len(),
        reordered(forwarding(stream)).len() <= forwarding(stream).len(),
{
    assert(stream.subrange(0, stream.len() as int) =~= stream);
    lemma_padding_keeps_instructions(stream, stall_counts(stream), 0, inst);
    lemma_padding_keeps_instructions(stream, forwarding_counts(stream), 0, inst);
    let stalled = stall_only(stream);
    let forwarded = forwarding(stream);
    lemma_reordering_keeps_instructions(stalled, stalled.len(), inst);
    lemma_reordering_keeps_instructions(forwarded, forwarded.len(), inst);
    assert(stalled.take(stalled.len() as int) =~= stalled);
    assert(forwarded.take(forwarded.len() as int) =~= forwarded);
}

} // verus!
