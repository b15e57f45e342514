use riscv_perf::data_hazard::{
    check_for_hazards, check_for_hazards_with_forwarding, check_for_reorder,
    forwading_hazard, has_conflict, raw_hazard, war_hazard, waw_hazard, DataHazard, HazardKind,
    HazardRecord,
};
use riscv_perf::instruction::{copy_stream, Instruction, NOP_INST};

const R: &str = "0110011";
const I: &str = "0010011";
const L: &str = "0000011";
const S: &str = "0100011";
const B: &str = "1100011";
const U: &str = "0110111";
const J: &str = "1101111";

fn inst(rs2: &str, rs1: &str, rd: &str, opcode: &str) -> Instruction {
    Instruction::new(&format!("0000000{}{}000{}{}", rs2, rs1, rd, opcode)).unwrap()
}

fn clear() -> HazardRecord {
    HazardRecord { war: DataHazard::NoHazard, waw: DataHazard::NoHazard, raw: DataHazard::NoHazard }
}

#[test]
fn read_after_write_next_to_the_writer_weighs_two() {
    let stream = vec![
        inst("00011", "00010", "00001", R),
        inst("00101", "00001", "00100", R),
        inst("01000", "01000", "00110", U),
    ];
    let hazards = check_for_hazards(stream);
    assert_eq!(hazards.len(), 3);
    assert_eq!(
        hazards[0],
        HazardRecord {
            war: DataHazard::NoHazard,
            waw: DataHazard::NoHazard,
            raw: DataHazard::Raw(2)
        }
    );
    assert_eq!(hazards[1], clear());
    assert_eq!(hazards[2], clear());
}

#[test]
fn conflict_two_places_ahead_weighs_one() {
    let stream = vec![
        inst("00011", "00010", "00001", R),
        inst("01001", "01000", "00100", R),
        inst("00101", "00001", "00110", R),
    ];
    let hazards = check_for_hazards(stream);
    assert_eq!(hazards[0].raw, DataHazard::Raw(1));
    assert_eq!(hazards[0].war, DataHazard::NoHazard);
    assert_eq!(hazards[0].waw, DataHazard::NoHazard);
    assert_eq!(hazards[0].highest(), 1);
}

#[test]
fn conflicts_in_both_places_add_up() {
    let stream = vec![
        inst("00011", "00010", "00001", R),
        inst("00101", "00001", "00100", R),
        inst("00001", "00111", "00110", R),
    ];
    let hazards = check_for_hazards(stream);
    assert_eq!(hazards[0].raw, DataHazard::Raw(3));
    assert_eq!(hazards[0].raw.weight(), 3);
    assert_eq!(hazards[0].highest(), 3);
}

#[test]
fn window_of_one_weighs_two() {
    let stream = vec![inst("00011", "00010", "00001", R), inst("00101", "00001", "00100", R)];
    let hazards = check_for_hazards(stream);
    assert_eq!(hazards[0].raw, DataHazard::Raw(2));
    assert_eq!(hazards[1], clear());
}

#[test]
fn write_after_read_is_found_for_both_sources() {
    let reader = inst("00011", "00010", "00001", R);
    let writes_first = inst("01000", "01000", "00010", I);
    let writes_second = inst("01000", "01000", "00011", U);
    let hazards = check_for_hazards(vec![reader.clone(), writes_first.clone(), writes_second]);
    assert_eq!(hazards[0].war, DataHazard::War(3));
    assert_eq!(hazards[0].waw, DataHazard::NoHazard);
    let one_source = inst("00010", "00111", "00001", I);
    let hazards = check_for_hazards(vec![one_source, writes_first]);
    assert_eq!(hazards[0].war, DataHazard::NoHazard);
}

#[test]
fn write_after_write_needs_two_writers() {
    let first = inst("00011", "00010", "00001", R);
    let second = inst("00101", "00100", "00001", L);
    let store = inst("00001", "00100", "00001", S);
    let hazards = check_for_hazards(vec![first.clone(), second]);
    assert_eq!(hazards[0].waw, DataHazard::Waw(2));
    let hazards = check_for_hazards(vec![first, store]);
    assert_eq!(hazards[0].waw, DataHazard::NoHazard);
    assert_eq!(hazards[0].raw, DataHazard::Raw(2));
}

#[test]
fn branch_and_store_read_but_do_not_write() {
    let branch = inst("00011", "00010", "00001", B);
    let writer = inst("01000", "01000", "00011", I);
    let reader = inst("01000", "00001", "01001", I);
    assert!(has_conflict(HazardKind::War, &branch, &writer));
    assert!(!has_conflict(HazardKind::Raw, &branch, &reader));
    assert!(!has_conflict(HazardKind::Waw, &branch, &inst("01000", "01000", "00001", I)));
    let jump = inst("00011", "00010", "00001", J);
    assert!(has_conflict(HazardKind::Raw, &jump, &reader));
    assert!(!has_conflict(HazardKind::War, &jump, &inst("01000", "01000", "00010", I)));
}

#[test]
fn zero_register_never_conflicts() {
    let writes_zero = inst("00011", "00010", "00000", R);
    let reads_zero = inst("00101", "00000", "00100", R);
    let hazards = check_for_hazards(vec![writes_zero.clone(), reads_zero.clone()]);
    assert_eq!(hazards[0], clear());
    assert_eq!(hazards[1], clear());
    assert!(!has_conflict(HazardKind::Raw, &writes_zero, &reads_zero));
    assert!(!has_conflict(HazardKind::War, &reads_zero, &writes_zero));
    assert!(!has_conflict(HazardKind::Waw, &writes_zero, &writes_zero));
    let load_zero = inst("00011", "00010", "00000", L);
    assert_eq!(check_for_hazards_with_forwarding(vec![load_zero, reads_zero]), vec![0, 0]);
}

#[test]
fn last_instruction_has_no_hazard() {
    let stream = vec![
        inst("00011", "00010", "00001", R),
        inst("00001", "00001", "00001", R),
    ];
    let hazards = check_for_hazards(stream);
    assert_eq!(hazards[1], clear());
    let single = check_for_hazards(vec![inst("00001", "00001", "00001", R)]);
    assert_eq!(single, vec![clear()]);
    assert_eq!(check_for_hazards(vec![]), vec![]);
    assert_eq!(check_for_hazards_with_forwarding(vec![]), Vec::<usize>::new());
}

#[test]
fn single_kind_helpers_tag_their_kind() {
    let current = inst("00011", "00010", "00001", R);
    let window = vec![inst("00101", "00001", "00001", R), inst("00001", "00111", "00010", R)];
    assert_eq!(raw_hazard(&current, &window), DataHazard::Raw(3));
    assert_eq!(waw_hazard(&current, &window), DataHazard::Waw(2));
    assert_eq!(war_hazard(&current, &window), DataHazard::War(1));
    let empty: Vec<Instruction> = vec![];
    assert_eq!(raw_hazard(&current, &empty), DataHazard::NoHazard);
    assert_eq!(waw_hazard(&current, &empty), DataHazard::NoHazard);
    assert_eq!(war_hazard(&current, &empty), DataHazard::NoHazard);
}

#[test]
fn record_is_read_by_kind_name() {
    let record = HazardRecord {
        war: DataHazard::War(1),
        waw: DataHazard::Waw(2),
        raw: DataHazard::Raw(3),
    };
    assert_eq!(record.get("WAR"), Some(DataHazard::War(1)));
    assert_eq!(record.get("WAW"), Some(DataHazard::Waw(2)));
    assert_eq!(record.get("RAW"), Some(DataHazard::Raw(3)));
    assert_eq!(record.get("raw"), None);
    assert_eq!(record.highest(), 3);
    assert_eq!(DataHazard::NoHazard.weight(), 0);
}

#[test]
fn forwarding_stalls_only_a_load_read_at_once() {
    let load = inst("00011", "00010", "00001", L);
    let user = inst("00101", "00001", "00100", R);
    let other = inst("01001", "01000", "00110", R);
    let stalls = check_for_hazards_with_forwarding(vec![load.clone(), user.clone(), other.clone()]);
    assert_eq!(stalls, vec![1, 0, 0]);
    let stalls = check_for_hazards_with_forwarding(vec![load.clone(), other.clone(), user.clone()]);
    assert_eq!(stalls, vec![0, 0, 0]);
    let adder = inst("00011", "00010", "00001", R);
    let stalls = check_for_hazards_with_forwarding(vec![adder, user.clone()]);
    assert_eq!(stalls, vec![0, 0]);
    let second_source = inst("00001", "00111", "00100", S);
    assert_eq!(forwading_hazard(&load, &vec![second_source]), 1);
    assert_eq!(forwading_hazard(&load, &vec![]), 0);
    let hazards = check_for_hazards(vec![load, user]);
    assert_eq!(hazards[0].raw, DataHazard::Raw(2));
}

#[test]
fn reorder_flags_skip_bubbles_and_branches() {
    let stream = vec![
        Instruction::new(NOP_INST).unwrap(),
        inst("00011", "00010", "00001", B),
        inst("00011", "00010", "00001", J),
        inst("00011", "00010", "00001", R),
        inst("01001", "01000", "00100", R),
        inst("00101", "00001", "00110", R),
        inst("00101", "00110", "00111", R),
    ];
    let flags = check_for_reorder(stream);
    assert_eq!(flags.len(), 7);
    assert_eq!(flags[0], None);
    assert_eq!(flags[1], None);
    assert_eq!(flags[2], None);
    assert_eq!(flags[3], Some(vec![false, true]));
    assert_eq!(flags[4], Some(vec![false, false]));
    assert_eq!(flags[5], Some(vec![false, false]));
    assert_eq!(flags[6], Some(vec![false, false]));
}

#[test]
fn copy_of_a_stream_holds_the_same_lines() {
    let stream = vec![inst("00011", "00010", "00001", R), inst("00101", "00001", "00100", L)];
    let copy = copy_stream(&stream);
    assert_eq!(copy.len(), 2);
    assert_eq!(copy[0].full_inst(), stream[0].full_inst());
    assert_eq!(copy[1].full_inst(), stream[1].full_inst());
}

#[test]
fn ties_resolve_to_war_then_waw_then_raw() {
    let record = HazardRecord {
        war: DataHazard::War(2),
        waw: DataHazard::Waw(2),
        raw: DataHazard::Raw(2),
    };
    assert_eq!(record.resolved(), DataHazard::War(2));
    let record = HazardRecord {
        war: DataHazard::War(1),
        waw: DataHazard::Waw(2),
        raw: DataHazard::Raw(2),
    };
    assert_eq!(record.resolved(), DataHazard::Waw(2));
    let record = HazardRecord {
        war: DataHazard::NoHazard,
        waw: DataHazard::Waw(1),
        raw: DataHazard::Raw(3),
    };
    assert_eq!(record.resolved(), DataHazard::Raw(3));
    assert_eq!(clear().resolved(), DataHazard::NoHazard);
}
