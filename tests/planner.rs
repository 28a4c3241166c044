use modbus_device::planner::{plan_windows, sort_by_address, MODBUS_MAX_READ_LEN};
use modbus_device::register::DataType;
use modbus_device::Register;

fn reg(name: &str, addr: u16, len: u16) -> Register {
    Register { name: name.to_string(), addr, len, data_type: DataType::UInt32, read: true }
}

#[test]
fn two_windows_for_a_gap() {
    let regs = vec![reg("a", 0, 2), reg("b", 2, 2), reg("c", 10, 2)];
    let ws = plan_windows(&regs);
    assert_eq!(ws.len(), 2);
    assert_eq!((ws[0].start, ws[0].count), (0, 4));
    assert_eq!(ws[0].members, vec![0, 1]);
    assert_eq!((ws[1].start, ws[1].count), (10, 2));
    assert_eq!(ws[1].members, vec![2]);
}

#[test]
fn unordered_input_is_sorted() {
    let regs = vec![reg("c", 10, 2), reg("b", 2, 2), reg("a", 0, 2)];
    assert_eq!(sort_by_address(&regs), vec![2, 1, 0]);
    let ws = plan_windows(&regs);
    assert_eq!(ws.len(), 2);
    assert_eq!(ws[0].members, vec![2, 1]);
    assert_eq!(ws[1].members, vec![0]);
}

#[test]
fn no_register_no_window() {
    assert!(plan_windows(&vec![]).is_empty());
}

#[test]
fn one_register_one_window() {
    let ws = plan_windows(&vec![reg("x", 40, 8)]);
    assert_eq!(ws.len(), 1);
    assert_eq!((ws[0].start, ws[0].count), (40, 8));
}

#[test]
fn window_is_cut_at_the_request_limit() {
    // 63 contiguous registers of two words: 126 words in all
    let regs: Vec<Register> = (0..63u16).map(|i| reg(&format!("r{i}"), 2 * i, 2)).collect();
    let ws = plan_windows(&regs);
    assert_eq!(ws.len(), 2);
    assert_eq!((ws[0].start, ws[0].count), (0, 124));
    assert_eq!((ws[1].start, ws[1].count), (124, 2));
    for w in &ws {
        assert!(w.count <= MODBUS_MAX_READ_LEN);
    }
}

#[test]
fn exactly_the_limit_fits_in_one_window() {
    let regs: Vec<Register> = (0..125u16).map(|i| reg(&format!("r{i}"), 100 + i, 1)).collect();
    let ws = plan_windows(&regs);
    assert_eq!(ws.len(), 1);
    assert_eq!((ws[0].start, ws[0].count), (100, 125));
}

#[test]
fn every_register_in_exactly_one_window() {
    let regs = vec![reg("a", 30, 2), reg("b", 0, 1), reg("c", 1, 4), reg("d", 5, 2), reg("e", 32, 1), reg("f", 200, 2)];
    let ws = plan_windows(&regs);
    let mut seen: Vec<usize> = ws.iter().flat_map(|w| w.members.clone()).collect();
    seen.sort();
    assert_eq!(seen, vec![0, 1, 2, 3, 4, 5]);
    assert_eq!(ws.len(), 3);
    for pair in ws.windows(2) {
        assert!(pair[0].start + pair[0].count <= pair[1].start);
    }
}
