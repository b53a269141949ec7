//! The opcode table, arm by arm: every encoding matches its fixture bytes.

use vasm::encode::resolve_inst;
use vasm::operand::{resolve_arg, Arg};

fn args(s: &str) -> Vec<Arg> {
    s.split(' ').map(|t| resolve_arg(String::from(t)).unwrap()).collect()
}

#[test]
fn nop_00() {
    assert_eq!(resolve_inst(String::from("nop"), args("")).unwrap().0, vec![0x00]);
}

#[test]
fn mov_01() {
    assert_eq!(resolve_inst(String::from("mov"), args("r0 r1")).unwrap().0, vec![0x01, 0x00, 0x01]);
}

#[test]
fn mov_02() {
    assert_eq!(resolve_inst(String::from("mov"), args("f0 f1")).unwrap().0, vec![0x02, 0x00, 0x01]);
}

#[test]
fn mov_03() {
    assert_eq!(resolve_inst(String::from("mov"), args("f0 r1")).unwrap().0, vec![0x03, 0x00, 0x01]);
}

#[test]
fn mov_04() {
    assert_eq!(resolve_inst(String::from("mov"), args("r0 f1")).unwrap().0, vec![0x04, 0x00, 0x01]);
}

#[test]
fn mov_05() {
    assert_eq!(resolve_inst(String::from("mov"), args("r0 &1234")).unwrap().0, vec![0x05, 0x00, 0x00, 0x00, 0x00, 0x00, 0x00, 0x00, 0x12, 0x34]);
}

#[test]
fn mov_06() {
    assert_eq!(resolve_inst(String::from("mov"), args("f0 &1234")).unwrap().0, vec![0x06, 0x00, 0x00, 0x00, 0x00, 0x00, 0x00, 0x00, 0x12, 0x34]);
}

#[test]
fn mov_07() {
    assert_eq!(resolve_inst(String::from("mov"), args("r0 1 &1234")).unwrap().0, vec![0x07, 0x00, 0x01, 0x00, 0x00, 0x12, 0x34]);
}

#[test]
fn mov_08() {
    assert_eq!(resolve_inst(String::from("mov"), args("f0 1 &1234")).unwrap().0, vec![0x08, 0x00, 0x01, 0x00, 0x00, 0x12, 0x34]);
}

#[test]
fn mov_09() {
    assert_eq!(resolve_inst(String::from("mov"), args("&1234 r0 1")).unwrap().0, vec![0x09, 0x00, 0x00, 0x12, 0x34, 0x01, 0x00]);
}

#[test]
fn mov_0a() {
    assert_eq!(resolve_inst(String::from("mov"), args("&1234 f0 1")).unwrap().0, vec![0x0A, 0x00, 0x00, 0x12, 0x34, 0x01, 0x00]);
}

#[test]
fn mov_0b() {
    assert_eq!(resolve_inst(String::from("mov"), args("r0 r1 2")).unwrap().0, vec![0x0B, 0x00, 0x02, 0x01]);
}

#[test]
fn mov_0c() {
    assert_eq!(resolve_inst(String::from("mov"), args("r0 f1 2")).unwrap().0, vec![0x0C, 0x00, 0x02, 0x01]);
}

#[test]
fn mov_0d() {
    assert_eq!(resolve_inst(String::from("mov"), args("r0 2 r1")).unwrap().0, vec![0x0D, 0x00, 0x02, 0x01]);
}

#[test]
fn mov_0e() {
    assert_eq!(resolve_inst(String::from("mov"), args("f0 2 r1")).unwrap().0, vec![0x0E, 0x00, 0x02, 0x01]);
}

#[test]
fn mov_0f() {
    assert_eq!(resolve_inst(String::from("mva"), args("r0 1 &1234")).unwrap().0, vec![0x0F, 0x00, 0x01, 0x00, 0x00, 0x12, 0x34]);
}

#[test]
fn mov_10() {
    assert_eq!(resolve_inst(String::from("mva"), args("f0 1 &1234")).unwrap().0, vec![0x10, 0x00, 0x01, 0x00, 0x00, 0x12, 0x34]);
}

#[test]
fn mov_11() {
    assert_eq!(resolve_inst(String::from("mva"), args("&1234 r0 1")).unwrap().0, vec![0x11, 0x00, 0x00, 0x12, 0x34, 0x01, 0x00]);
}

#[test]
fn mov_12() {
    assert_eq!(resolve_inst(String::from("mva"), args("&1234 f0 1")).unwrap().0, vec![0x12, 0x00, 0x00, 0x12, 0x34, 0x01, 0x00]);
}

#[test]
fn mov_13() {
    assert_eq!(resolve_inst(String::from("mva"), args("r0 r1 2")).unwrap().0, vec![0x13, 0x00, 0x02, 0x01]);
}

#[test]
fn mov_14() {
    assert_eq!(resolve_inst(String::from("mva"), args("r0 f1 2")).unwrap().0, vec![0x14, 0x00, 0x02, 0x01]);
}

#[test]
fn mov_15() {
    assert_eq!(resolve_inst(String::from("mva"), args("r0 2 r1")).unwrap().0, vec![0x15, 0x00, 0x02, 0x01]);
}

#[test]
fn mov_16() {
    assert_eq!(resolve_inst(String::from("mva"), args("f0 2 r1")).unwrap().0, vec![0x16, 0x00, 0x02, 0x01]);
}

#[test]
fn mov_17() {
    assert_eq!(resolve_inst(String::from("mov"), args("&1234 r0 r1 2")).unwrap().0, vec![0x17, 0x00, 0x02, 0x01, 0x00, 0x00, 0x12, 0x34]);
}

#[test]
fn mov_18() {
    assert_eq!(resolve_inst(String::from("mov"), args("&1234 r0 f1 2")).unwrap().0, vec![0x18, 0x00, 0x02, 0x01, 0x00, 0x00, 0x12, 0x34]);
}

#[test]
fn mov_19() {
    assert_eq!(resolve_inst(String::from("mov"), args("r0 2 &1234 r1")).unwrap().0, vec![0x19, 0x00, 0x02, 0x01, 0x00, 0x00, 0x12, 0x34]);
}

#[test]
fn mov_1a() {
    assert_eq!(resolve_inst(String::from("mov"), args("f0 2 &1234 r1")).unwrap().0, vec![0x1A, 0x00, 0x02, 0x01, 0x00, 0x00, 0x12, 0x34]);
}

#[test]
fn mov_1b() {
    assert_eq!(resolve_inst(String::from("mva"), args("&1234 r0 r1 2")).unwrap().0, vec![0x1B, 0x00, 0x02, 0x01, 0x00, 0x00, 0x12, 0x34]);
}

#[test]
fn mov_1c() {
    assert_eq!(resolve_inst(String::from("mva"), args("&1234 r0 f1 2")).unwrap().0, vec![0x1C, 0x00, 0x02, 0x01, 0x00, 0x00, 0x12, 0x34]);
}

#[test]
fn mov_1d() {
    assert_eq!(resolve_inst(String::from("mva"), args("r0 2 &1234 r1")).unwrap().0, vec![0x1D, 0x00, 0x02, 0x01, 0x00, 0x00, 0x12, 0x34]);
}

#[test]
fn mov_1e() {
    assert_eq!(resolve_inst(String::from("mva"), args("f0 2 &1234 r1")).unwrap().0, vec![0x1E, 0x00, 0x02, 0x01, 0x00, 0x00, 0x12, 0x34]);
}

#[test]
fn mov_1f() {
    assert_eq!(resolve_inst(String::from("mvd"), args("r0 1 &1234")).unwrap().0, vec![0x1F, 0x00, 0x01, 0x00, 0x00, 0x12, 0x34]);
}

#[test]
fn mov_20() {
    assert_eq!(resolve_inst(String::from("mvd"), args("f0 1 &1234")).unwrap().0, vec![0x20, 0x00, 0x01, 0x00, 0x00, 0x12, 0x34]);
}

#[test]
fn mov_21() {
    assert_eq!(resolve_inst(String::from("mvd"), args("&1234 r0 1")).unwrap().0, vec![0x21, 0x00, 0x00, 0x12, 0x34, 0x01, 0x00]);
}

#[test]
fn mov_22() {
    assert_eq!(resolve_inst(String::from("mvd"), args("&1234 f0 1")).unwrap().0, vec![0x22, 0x00, 0x00, 0x12, 0x34, 0x01, 0x00]);
}

#[test]
fn mov_23() {
    assert_eq!(resolve_inst(String::from("mvd"), args("r0 r1 2")).unwrap().0, vec![0x23, 0x00, 0x02, 0x01]);
}

#[test]
fn mov_24() {
    assert_eq!(resolve_inst(String::from("mvd"), args("r0 f1 2")).unwrap().0, vec![0x24, 0x00, 0x02, 0x01]);
}

#[test]
fn mov_25() {
    assert_eq!(resolve_inst(String::from("mvd"), args("r0 2 r1")).unwrap().0, vec![0x25, 0x00, 0x02, 0x01]);
}

#[test]
fn mov_26() {
    assert_eq!(resolve_inst(String::from("mvd"), args("f0 2 r1")).unwrap().0, vec![0x26, 0x00, 0x02, 0x01]);
}

#[test]
fn mov_27() {
    assert_eq!(resolve_inst(String::from("mvd"), args("&1234 r0 r1 2")).unwrap().0, vec![0x27, 0x00, 0x02, 0x01, 0x00, 0x00, 0x12, 0x34]);
}

#[test]
fn mov_28() {
    assert_eq!(resolve_inst(String::from("mvd"), args("&1234 r0 f1 2")).unwrap().0, vec![0x28, 0x00, 0x02, 0x01, 0x00, 0x00, 0x12, 0x34]);
}

#[test]
fn mov_29() {
    assert_eq!(resolve_inst(String::from("mvd"), args("r0 2 &1234 r1")).unwrap().0, vec![0x29, 0x00, 0x02, 0x01, 0x00, 0x00, 0x12, 0x34]);
}

#[test]
fn mov_2a() {
    assert_eq!(resolve_inst(String::from("mvd"), args("f0 2 &1234 r1")).unwrap().0, vec![0x2A, 0x00, 0x02, 0x01, 0x00, 0x00, 0x12, 0x34]);
}
