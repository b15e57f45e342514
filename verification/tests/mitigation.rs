use riscv_perf::data_hazard::check_for_hazards;
use riscv_perf::instruction::{Format, Instruction, NOP_INST};
use riscv_perf::techniques::{
    forwading_with_nops, forwarding_and_reorder_with_nops, insert_nops, only_nops, reorder,
    reorder_with_only_nops,
};

const R: &str = "0110011";
const I: &str = "0010011";
const L: &str = "0000011";
const B: &str = "1100011";
const U: &str = "0110111";
const J: &str = "1101111";

fn text(rs2: &str, rs1: &str, rd: &str, opcode: &str) -> String {
    format!("0000000{}{}000{}{}", rs2, rs1, rd, opcode)
}

fn decode(lines: &[String]) -> Vec<Instruction> {
    lines.iter().map(|l| Instruction::new(l).unwrap()).collect()
}

fn lines_of(stream: &[Instruction]) -> Vec<String> {
    stream.iter().map(|i| i.full_inst().clone()).collect()
}

fn nop() -> String {
    NOP_INST.to_string()
}

fn load_use_program() -> Vec<String> {
    vec![
        text("00011", "00010", "00001", L),
        text("00000", "00001", "00010", I),
        text("01001", "01000", "00111", R),
        text("01100", "01011", "01010", R),
        text("01110", "00111", "01101", R),
    ]
}

#[test]
fn stall_only_waits_two_cycles_after_a_writer_read_at_once() {
    let program = vec![
        text("00011", "00010", "00001", R),
        text("00101", "00001", "00100", R),
        text("01000", "01000", "00110", U),
    ];
    let padded = only_nops(decode(&program));
    assert_eq!(
        lines_of(&padded),
        vec![program[0].clone(), nop(), nop(), program[1].clone(), program[2].clone()]
    );
    assert_eq!(padded[1].format(), Format::I);
}

#[test]
fn load_read_at_once_costs_one_bubble_forwarded_and_two_stalled() {
    let program = vec![text("00011", "00010", "00001", L), text("00101", "00001", "00100", R)];
    let forwarded = forwading_with_nops(decode(&program));
    assert_eq!(lines_of(&forwarded), vec![program[0].clone(), nop(), program[1].clone()]);
    let stalled = only_nops(decode(&program));
    assert_eq!(lines_of(&stalled), vec![program[0].clone(), nop(), nop(), program[1].clone()]);
}

#[test]
fn zero_register_costs_no_bubble_under_any_technique() {
    let program = vec![text("00011", "00010", "00000", R), text("00101", "00000", "00100", R)];
    assert_eq!(lines_of(&only_nops(decode(&program))), program);
    assert_eq!(lines_of(&forwading_with_nops(decode(&program))), program);
    assert_eq!(lines_of(&reorder_with_only_nops(decode(&program))), program);
    assert_eq!(lines_of(&forwarding_and_reorder_with_nops(decode(&program))), program);
    let load = vec![text("00011", "00010", "00000", L), text("00101", "00000", "00100", I)];
    assert_eq!(lines_of(&only_nops(decode(&load))), load);
    assert_eq!(lines_of(&forwading_with_nops(decode(&load))), load);
    assert_eq!(lines_of(&reorder_with_only_nops(decode(&load))), load);
    assert_eq!(lines_of(&forwarding_and_reorder_with_nops(decode(&load))), load);
}

#[test]
fn stall_only_takes_the_largest_weight_not_the_sum() {
    let program = vec![
        text("00011", "00010", "00001", R),
        text("01001", "00001", "00010", R),
    ];
    let hazards = check_for_hazards(decode(&program));
    assert_eq!(hazards[0].raw.weight(), 2);
    assert_eq!(hazards[0].war.weight(), 2);
    let padded = only_nops(decode(&program));
    assert_eq!(lines_of(&padded), vec![program[0].clone(), nop(), nop(), program[1].clone()]);
}

#[test]
fn conflicts_in_both_places_cost_three_bubbles() {
    let program = vec![
        text("00011", "00010", "00001", R),
        text("00101", "00001", "00100", R),
        text("00001", "00111", "00110", R),
    ];
    let padded = only_nops(decode(&program));
    assert_eq!(
        lines_of(&padded),
        vec![program[0].clone(), nop(), nop(), nop(), program[1].clone(), program[2].clone()]
    );
}

#[test]
fn far_conflict_costs_one_bubble() {
    let program = load_use_program();
    let padded = only_nops(decode(&program));
    assert_eq!(
        lines_of(&padded),
        vec![
            program[0].clone(),
            nop(),
            nop(),
            program[1].clone(),
            program[2].clone(),
            nop(),
            program[3].clone(),
            program[4].clone(),
        ]
    );
}

#[test]
fn empty_and_single_streams_pass_through() {
    assert!(only_nops(vec![]).is_empty());
    assert!(forwading_with_nops(vec![]).is_empty());
    assert!(reorder_with_only_nops(vec![]).is_empty());
    assert!(forwarding_and_reorder_with_nops(vec![]).is_empty());
    assert!(reorder(vec![]).is_empty());
    let one = vec![text("00011", "00010", "00001", R)];
    assert_eq!(lines_of(&only_nops(decode(&one))), one);
    assert_eq!(lines_of(&forwading_with_nops(decode(&one))), one);
    assert_eq!(lines_of(&reorder_with_only_nops(decode(&one))), one);
    assert_eq!(lines_of(&forwarding_and_reorder_with_nops(decode(&one))), one);
}

#[test]
fn insert_nops_follows_the_counts_given() {
    let program = vec![text("00011", "00010", "00001", R), text("00101", "00100", "00110", R)];
    let padded = insert_nops(&decode(&program), &vec![0, 2]);
    assert_eq!(lines_of(&padded), vec![program[0].clone(), program[1].clone(), nop(), nop()]);
    let padded = insert_nops(&decode(&program), &vec![1, 0]);
    assert_eq!(lines_of(&padded), vec![program[0].clone(), nop(), program[1].clone()]);
}

#[test]
fn hazard_detection_on_stall_only_output_finds_nothing() {
    for program in [
        load_use_program(),
        vec![
            text("00011", "00010", "00001", R),
            text("00101", "00001", "00100", R),
            text("00001", "00100", "00001", R),
            text("00001", "00100", "00000", B),
            text("00100", "00001", "00100", L),
            text("00100", "00100", "00100", I),
        ],
    ] {
        let padded = only_nops(decode(&program));
        let again = check_for_hazards(decode(&lines_of(&padded)));
        for record in again {
            assert_eq!(record.highest(), 0);
        }
        let twice = only_nops(decode(&lines_of(&padded)));
        assert_eq!(lines_of(&twice), lines_of(&padded));
    }
}

#[test]
fn stall_and_reorder_finds_nothing_left_to_move() {
    let program = load_use_program();
    let stalled = only_nops(decode(&program));
    let reordered = reorder_with_only_nops(decode(&program));
    assert_eq!(lines_of(&reordered), lines_of(&stalled));
}

#[test]
fn forwarding_and_reorder_moves_into_the_load_bubble() {
    let program = load_use_program();
    let forwarded = forwading_with_nops(decode(&program));
    assert_eq!(
        lines_of(&forwarded),
        vec![
            program[0].clone(),
            nop(),
            program[1].clone(),
            program[2].clone(),
            program[3].clone(),
            program[4].clone(),
        ]
    );
    let reordered = forwarding_and_reorder_with_nops(decode(&program));
    assert_eq!(
        lines_of(&reordered),
        vec![
            program[0].clone(),
            program[2].clone(),
            program[1].clone(),
            program[3].clone(),
            program[4].clone(),
        ]
    );
}

#[test]
fn reorder_replaces_the_bubble_two_places_up() {
    let a = text("00011", "00010", "00001", R);
    let b = text("00101", "00100", "00110", R);
    let c = text("01001", "01000", "00111", R);
    let d = text("01100", "01011", "01010", R);
    let e = text("01110", "00111", "01101", R);
    let stream = vec![a.clone(), nop(), b.clone(), c.clone(), d.clone(), e.clone()];
    let output = reorder(decode(&stream));
    assert_eq!(lines_of(&output), vec![a, c, b, d, e]);
}

#[test]
fn reorder_refuses_a_place_held_by_an_instruction() {
    let a = text("00011", "00010", "00001", R);
    let b = text("00101", "00100", "00110", R);
    let c = text("01001", "01000", "00111", R);
    let d = text("01100", "01011", "01010", R);
    let e = text("01110", "00111", "01101", R);
    let stream = vec![a, b, c, d, e];
    let output = reorder(decode(&stream));
    assert_eq!(lines_of(&output), stream);
    let first_wants = vec![
        text("00011", "00010", "00001", R),
        text("00101", "00100", "00110", R),
        text("01110", "00001", "01101", R),
    ];
    assert_eq!(lines_of(&reorder(decode(&first_wants))), first_wants);
}

#[test]
fn reorder_moves_twice_in_one_stream() {
    let a = text("00011", "00010", "00001", R);
    let x = text("00101", "00100", "00110", R);
    let c1 = text("01001", "01000", "00111", R);
    let y = text("01100", "00111", "01010", R);
    let c2 = text("10001", "10000", "10100", R);
    let z1 = text("10011", "10010", "10101", R);
    let z2 = text("10100", "10110", "10111", R);
    let stream = vec![
        a.clone(),
        nop(),
        x.clone(),
        c1.clone(),
        nop(),
        y.clone(),
        c2.clone(),
        z1.clone(),
        z2.clone(),
    ];
    let output = reorder(decode(&stream));
    assert_eq!(lines_of(&output), vec![a, c1, x, c2, y, z1, z2]);
}

#[test]
fn branches_and_jumps_stay_in_order_and_unchanged() {
    let branch = text("00011", "00101", "00001", B);
    let jump = text("00000", "00000", "00101", J);
    let program = vec![
        text("00011", "00010", "00001", L),
        text("00000", "00001", "00101", I),
        branch.clone(),
        text("01001", "01000", "00011", R),
        text("01100", "01011", "00101", R),
        jump.clone(),
        text("01110", "00101", "01101", R),
        branch.clone(),
    ];
    let only_branches = |stream: &[Instruction]| -> Vec<String> {
        stream
            .iter()
            .filter(|i| i.format() == Format::B || i.format() == Format::J)
            .map(|i| i.full_inst().clone())
            .collect()
    };
    let expected = vec![branch.clone(), jump, branch];
    assert_eq!(only_branches(&only_nops(decode(&program))), expected);
    assert_eq!(only_branches(&forwading_with_nops(decode(&program))), expected);
    assert_eq!(only_branches(&reorder_with_only_nops(decode(&program))), expected);
    assert_eq!(only_branches(&forwarding_and_reorder_with_nops(decode(&program))), expected);
}

#[test]
fn branch_with_a_far_conflict_is_not_moved() {
    let a = text("00011", "00010", "00001", R);
    let x = text("00101", "00100", "00110", R);
    let branch = text("01001", "01000", "00000", B);
    let d = text("01100", "01011", "01010", R);
    let writer = text("01110", "01111", "01000", R);
    let stream = vec![a, nop(), x, branch, d, writer];
    let output = reorder(decode(&stream));
    assert_eq!(lines_of(&output), stream);
}
