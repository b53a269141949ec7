//! Instruction encoding: the opcode table.
//!
//! Every mnemonic owns one or more operand-shape arms; an arm fixes the
//! opcode byte and the order and width of the operand fields that follow it.
//! The spec functions here state the table; `resolve_inst` realizes it and is
//! proved against it arm by arm.
//!
//! Field widths, throughout: a register index is one byte; a "short length"
//! is the low byte of a literal's big-endian image; offsets and addresses are
//! the low four bytes; port numbers and blit coordinates are the low two; a
//! `memcpy` length is the low three; `mov reg, &imm` keeps all eight.

use vstd::prelude::*;
use crate::errors::AsmError;
use crate::line::LineKind;
use crate::operand::Arg;
use crate::operand::ArgModel;
use crate::text::spec_lower_seq;
use crate::text::eq_ignore_case;
use crate::bebytes::push_suffix;

verus! {

/// What encoding one line yields: the provisional bytes and the control tag,
/// or the reason the line was rejected.
pub type EncOut = Result<(Seq<u8>, LineKind), AsmError>;

/// Every literal operand carries its full eight bytes.
pub open spec fn args_wf(args: Seq<ArgModel>) -> bool {
    forall|i: int| 0 <= i < args.len() ==> (#[trigger] args[i]).wf()
}

/// The suffix of `n` from position `k` on.
pub open spec fn tail_of(n: Seq<u8>, k: int) -> Seq<u8> {
    n.subrange(k, n.len() as int)
}

/// Four zero placeholder bytes, reserved for a later address patch.
pub open spec fn spec_placeholder() -> Seq<u8> {
    seq![0u8, 0u8, 0u8, 0u8]
}

/// An argument-free instruction: one opcode byte.
pub open spec fn spec_enc_fixed(op: u8) -> EncOut {
    Ok((seq![op], LineKind::Instruction))
}

/// Opcode plus one integer register.
pub open spec fn spec_enc_ureg1(args: Seq<ArgModel>, op: u8) -> EncOut {
    if args.len() < 1 {
        Err(AsmError::InvalidArgumentCount)
    } else {
        match args[0] {
            ArgModel::Ureg(n) => Ok((seq![op, n], LineKind::Instruction)),
            _ => Err(AsmError::InvalidOperand),
        }
    }
}

/// Opcode pair plus one register of either family (`psh`, `pop`).
pub open spec fn spec_enc_stack(args: Seq<ArgModel>, iop: u8, fop: u8) -> EncOut {
    if args.len() < 1 {
        Err(AsmError::InvalidArgumentCount)
    } else {
        match args[0] {
            ArgModel::Ureg(n) => Ok((seq![iop, n], LineKind::Instruction)),
            ArgModel::Freg(n) => Ok((seq![fop, n], LineKind::Instruction)),
            _ => Err(AsmError::InvalidOperand),
        }
    }
}

/// Two integer registers (`not`).
pub open spec fn spec_enc_not(args: Seq<ArgModel>) -> EncOut {
    if args.len() < 2 {
        Err(AsmError::InvalidArgumentCount)
    } else {
        match (args[0], args[1]) {
            (ArgModel::Ureg(d), ArgModel::Ureg(n)) => Ok((seq![0x3Fu8, d, n], LineKind::Instruction)),
            _ => Err(AsmError::InvalidOperand),
        }
    }
}

/// Three integer registers (`shl`, `shr`, `and`, `or`, `xor`).
pub open spec fn spec_enc_bit3(args: Seq<ArgModel>, op: u8) -> EncOut {
    if args.len() < 3 {
        Err(AsmError::InvalidArgumentCount)
    } else {
        match (args[0], args[1], args[2]) {
            (ArgModel::Ureg(d), ArgModel::Ureg(r), ArgModel::Ureg(n)) => Ok(
                (seq![op, d, r, n], LineKind::Instruction),
            ),
            _ => Err(AsmError::InvalidOperand),
        }
    }
}

/// Arithmetic: three registers of one family; the first operand picks the
/// family and with it the opcode.
pub open spec fn spec_enc_arith(args: Seq<ArgModel>, iop: u8, fop: u8) -> EncOut {
    if args.len() < 3 {
        Err(AsmError::InvalidArgumentCount)
    } else {
        match args[0] {
            ArgModel::Ureg(d) => spec_enc_arith_rest(args, iop, false, d),
            ArgModel::Freg(d) => spec_enc_arith_rest(args, fop, true, d),
            _ => Err(AsmError::InvalidOperand),
        }
    }
}

pub open spec fn spec_enc_arith_rest(args: Seq<ArgModel>, op: u8, float: bool, d: u8) -> EncOut {
    match args[1] {
        ArgModel::Ureg(r) => if float {
            Err(AsmError::MismatchedRegisterTypes)
        } else {
            spec_enc_arith_last(args, op, float, d, r)
        },
        ArgModel::Freg(r) => if !float {
            Err(AsmError::MismatchedRegisterTypes)
        } else {
            spec_enc_arith_last(args, op, float, d, r)
        },
        _ => Err(AsmError::InvalidOperand),
    }
}

pub open spec fn spec_enc_arith_last(args: Seq<ArgModel>, op: u8, float: bool, d: u8, r: u8) -> EncOut {
    match args[2] {
        ArgModel::Ureg(n) => if float {
            Err(AsmError::MismatchedRegisterTypes)
        } else {
            Ok((seq![op, d, r, n], LineKind::Instruction))
        },
        ArgModel::Freg(n) => if !float {
            Err(AsmError::MismatchedRegisterTypes)
        } else {
            Ok((seq![op, d, r, n], LineKind::Instruction))
        },
        _ => Err(AsmError::InvalidOperand),
    }
}

/// A jump to a register, a literal address, or a label (`jmp`, `jpc`, `jnc`).
/// A label target reserves four zero bytes and tags the line for fixup.
pub open spec fn spec_enc_jump_target(args: Seq<ArgModel>, imm_op: u8, reg_op: u8) -> EncOut {
    if args.len() < 1 {
        Err(AsmError::InvalidArgumentCount)
    } else {
        match args[0] {
            ArgModel::Ureg(n) => Ok((seq![reg_op, n], LineKind::Instruction)),
            ArgModel::Freg(_) => Err(AsmError::InvalidOperand),
            ArgModel::Liter(n) => Ok((seq![imm_op] + tail_of(n, 4), LineKind::Instruction)),
            ArgModel::Label => Ok((seq![imm_op] + spec_placeholder(), LineKind::NeedsLabelFixup)),
        }
    }
}

/// A compare-and-jump (`jlg`, `jpe`, `jne`): two registers of one family,
/// then a register, literal, or label target. Four opcodes per mnemonic:
/// `base` for integer compare with immediate target, `base+1` register
/// target; `base+2`/`base+3` the floating point counterparts.
pub open spec fn spec_enc_jcc(args: Seq<ArgModel>, base: u8) -> EncOut {
    if args.len() < 3 {
        Err(AsmError::InvalidArgumentCount)
    } else {
        match args[0] {
            ArgModel::Ureg(r0) => spec_enc_jcc_rest(args, base, false, r0),
            ArgModel::Freg(r0) => spec_enc_jcc_rest(args, base, true, r0),
            _ => Err(AsmError::InvalidOperand),
        }
    }
}

pub open spec fn spec_enc_jcc_rest(args: Seq<ArgModel>, base: u8, float: bool, r0: u8) -> EncOut {
    match args[1] {
        ArgModel::Ureg(r1) => if float {
            Err(AsmError::MismatchedRegisterTypes)
        } else {
            spec_enc_jcc_last(args, base, float, r0, r1)
        },
        ArgModel::Freg(r1) => if !float {
            Err(AsmError::MismatchedRegisterTypes)
        } else {
            spec_enc_jcc_last(args, base, float, r0, r1)
        },
        _ => Err(AsmError::InvalidOperand),
    }
}

pub open spec fn spec_enc_jcc_last(args: Seq<ArgModel>, base: u8, float: bool, r0: u8, r1: u8) -> EncOut {
    let imm_op = if float {
        (base + 2) as u8
    } else {
        base
    };
    let reg_op = if float {
        (base + 3) as u8
    } else {
        (base + 1) as u8
    };
    match args[2] {
        ArgModel::Ureg(n) => Ok((seq![reg_op, r0, r1, n], LineKind::Instruction)),
        ArgModel::Freg(_) => Err(AsmError::InvalidOperand),
        ArgModel::Liter(n) => Ok((seq![imm_op, r0, r1] + tail_of(n, 4), LineKind::Instruction)),
        ArgModel::Label => Ok((seq![imm_op, r0, r1] + spec_placeholder(), LineKind::NeedsLabelFixup)),
    }
}

/// `wit`: wait-for-interrupt with a two-byte immediate or a register.
pub open spec fn spec_enc_wit(args: Seq<ArgModel>) -> EncOut {
    if args.len() < 1 {
        Err(AsmError::InvalidArgumentCount)
    } else {
        match args[0] {
            ArgModel::Ureg(n) => Ok((seq![0x72u8, n], LineKind::Instruction)),
            ArgModel::Liter(n) => Ok((seq![0x71u8] + n.subrange(6, 8), LineKind::Instruction)),
            _ => Err(AsmError::InvalidOperand),
        }
    }
}

/// `memcpy`: all-literal, register-register-literal, or all-register.
pub open spec fn spec_enc_memcpy(args: Seq<ArgModel>) -> EncOut {
    if args.len() < 3 {
        Err(AsmError::InvalidArgumentCount)
    } else {
        match (args[0], args[1], args[2]) {
            (ArgModel::Liter(dst), ArgModel::Liter(src), ArgModel::Liter(len)) => Ok(
                (seq![0x82u8] + tail_of(src, 4) + tail_of(dst, 4) + tail_of(len, 5),
                LineKind::Instruction),
            ),
            (ArgModel::Ureg(dst), ArgModel::Ureg(src), ArgModel::Liter(len)) => Ok(
                (seq![0x83u8, src, dst] + tail_of(len, 5), LineKind::Instruction),
            ),
            (ArgModel::Ureg(dst), ArgModel::Ureg(src), ArgModel::Ureg(len)) => Ok(
                (seq![0x84u8, src, dst, len], LineKind::Instruction),
            ),
            _ => Err(AsmError::InvalidOperand),
        }
    }
}

/// `out` and `in`: a register and a two-byte port immediate or a register.
pub open spec fn spec_enc_port(args: Seq<ArgModel>, imm_op: u8, reg_op: u8) -> EncOut {
    if args.len() < 2 {
        Err(AsmError::InvalidArgumentCount)
    } else {
        match args[0] {
            ArgModel::Ureg(reg) => match args[1] {
                ArgModel::Ureg(n) => Ok((seq![reg_op, reg, n], LineKind::Instruction)),
                ArgModel::Liter(n) => Ok((seq![imm_op, reg] + n.subrange(6, 8), LineKind::Instruction)),
                _ => Err(AsmError::InvalidOperand),
            },
            _ => Err(AsmError::InvalidOperand),
        }
    }
}

/// `grapcpy`: a graphics blit from a data block (literal address or named
/// symbol, the latter tagged for data fixup) or between registers.
pub open spec fn spec_enc_grapcpy(args: Seq<ArgModel>) -> EncOut {
    if args.len() < 6 {
        Err(AsmError::InvalidArgumentCount)
    } else {
        match (args[0], args[1], args[2], args[3], args[4], args[5]) {
            (
                ArgModel::Ureg(dst),
                ArgModel::Liter(src),
                ArgModel::Liter(x),
                ArgModel::Liter(y),
                ArgModel::Liter(w),
                ArgModel::Liter(h),
            ) => Ok(
                (seq![0xA0u8] + tail_of(src, 4) + seq![dst] + h.subrange(6, 8) + w.subrange(
                    6,
                    8,
                ) + x.subrange(6, 8) + y.subrange(6, 8), LineKind::Instruction),
            ),
            (
                ArgModel::Ureg(dst),
                ArgModel::Label,
                ArgModel::Liter(x),
                ArgModel::Liter(y),
                ArgModel::Liter(w),
                ArgModel::Liter(h),
            ) => Ok(
                (seq![0xA0u8] + spec_placeholder() + seq![dst] + h.subrange(6, 8) + w.subrange(
                    6,
                    8,
                ) + x.subrange(6, 8) + y.subrange(6, 8), LineKind::NeedsDataFixup),
            ),
            (
                ArgModel::Ureg(dst),
                ArgModel::Ureg(src),
                ArgModel::Ureg(x),
                ArgModel::Ureg(y),
                ArgModel::Ureg(w),
                ArgModel::Ureg(h),
            ) => Ok((seq![0xA1u8, src, dst, h, w, x, y], LineKind::Instruction)),
            _ => Err(AsmError::InvalidOperand),
        }
    }
}

/// `db`: the low byte of each literal operand, concatenated.
pub open spec fn spec_enc_db_bytes(args: Seq<ArgModel>) -> Result<Seq<u8>, AsmError>
    decreases args.len(),
{
    if args.len() == 0 {
        Ok(Seq::empty())
    } else {
        match args[0] {
            ArgModel::Liter(n) => match spec_enc_db_bytes(args.skip(1)) {
                Ok(rest) => Ok(n.subrange(7, 8) + rest),
                Err(e) => Err(e),
            },
            _ => Err(AsmError::InvalidOperand),
        }
    }
}

pub open spec fn spec_enc_db(args: Seq<ArgModel>) -> EncOut {
    match spec_enc_db_bytes(args) {
        Ok(b) => Ok((b, LineKind::Instruction)),
        Err(e) => Err(e),
    }
}

/// Two-operand `mov`: register moves in either family, and immediate loads.
pub open spec fn spec_enc_mov2(args: Seq<ArgModel>) -> EncOut {
    match args[0] {
        ArgModel::Ureg(d) => spec_enc_mov2_rest(args, false, d),
        ArgModel::Freg(d) => spec_enc_mov2_rest(args, true, d),
        _ => Err(AsmError::InvalidOperand),
    }
}

pub open spec fn spec_enc_mov2_rest(args: Seq<ArgModel>, float: bool, d: u8) -> EncOut {
    match args[1] {
        ArgModel::Ureg(n) => if float {
            Ok((seq![0x03u8, d, n], LineKind::Instruction))
        } else {
            Ok((seq![0x01u8, d, n], LineKind::Instruction))
        },
        ArgModel::Freg(n) => if float {
            Ok((seq![0x02u8, d, n], LineKind::Instruction))
        } else {
            Ok((seq![0x04u8, d, n], LineKind::Instruction))
        },
        ArgModel::Liter(n) => if float {
            Ok((seq![0x06u8, d] + n, LineKind::Instruction))
        } else {
            Ok((seq![0x05u8, d] + n, LineKind::Instruction))
        },
        ArgModel::Label => Err(AsmError::InvalidOperand),
    }
}

/// The eight three-operand move shapes, opcodes `base` through `base+7`:
/// shared by `mov` (base 0x07), `mva` (0x0F) and `mvd` (0x1F).
pub open spec fn spec_enc_move3(args: Seq<ArgModel>, base: u8) -> EncOut {
    match (args[0], args[1], args[2]) {
        (ArgModel::Ureg(d), ArgModel::Liter(len), ArgModel::Liter(addr)) => Ok(
            (seq![base, d] + tail_of(len, 7) + tail_of(addr, 4), LineKind::Instruction),
        ),
        (ArgModel::Freg(d), ArgModel::Liter(len), ArgModel::Liter(addr)) => Ok(
            (seq![(base + 1) as u8, d] + tail_of(len, 7) + tail_of(addr, 4),
            LineKind::Instruction),
        ),
        (ArgModel::Liter(addr), ArgModel::Ureg(s), ArgModel::Liter(len)) => Ok(
            (seq![(base + 2) as u8] + tail_of(addr, 4) + tail_of(len, 7) + seq![s],
            LineKind::Instruction),
        ),
        (ArgModel::Liter(addr), ArgModel::Freg(s), ArgModel::Liter(len)) => Ok(
            (seq![(base + 3) as u8] + tail_of(addr, 4) + tail_of(len, 7) + seq![s],
            LineKind::Instruction),
        ),
        (ArgModel::Ureg(d), ArgModel::Ureg(s), ArgModel::Liter(len)) => Ok(
            (seq![(base + 4) as u8, d] + tail_of(len, 7) + seq![s], LineKind::Instruction),
        ),
        (ArgModel::Ureg(d), ArgModel::Freg(s), ArgModel::Liter(len)) => Ok(
            (seq![(base + 5) as u8, d] + tail_of(len, 7) + seq![s], LineKind::Instruction),
        ),
        (ArgModel::Ureg(d), ArgModel::Liter(len), ArgModel::Ureg(s)) => Ok(
            (seq![(base + 6) as u8, d] + tail_of(len, 7) + seq![s], LineKind::Instruction),
        ),
        (ArgModel::Freg(d), ArgModel::Liter(len), ArgModel::Ureg(s)) => Ok(
            (seq![(base + 7) as u8, d] + tail_of(len, 7) + seq![s], LineKind::Instruction),
        ),
        _ => Err(AsmError::InvalidOperand),
    }
}

/// The four four-operand move shapes, opcodes `base` through `base+3`:
/// shared by `mov` (base 0x17), `mva` (0x1B) and `mvd` (0x27).
pub open spec fn spec_enc_move4(args: Seq<ArgModel>, base: u8) -> EncOut {
    match (args[0], args[1], args[2], args[3]) {
        (ArgModel::Liter(off), ArgModel::Ureg(d), ArgModel::Ureg(s), ArgModel::Liter(len)) => Ok(
            (seq![base, d] + tail_of(len, 7) + seq![s] + tail_of(off, 4),
            LineKind::Instruction),
        ),
        (ArgModel::Liter(off), ArgModel::Ureg(d), ArgModel::Freg(s), ArgModel::Liter(len)) => Ok(
            (seq![(base + 1) as u8, d] + tail_of(len, 7) + seq![s] + tail_of(off, 4),
            LineKind::Instruction),
        ),
        (ArgModel::Ureg(d), ArgModel::Liter(len), ArgModel::Liter(off), ArgModel::Ureg(s)) => Ok(
            (seq![(base + 2) as u8, d] + tail_of(len, 7) + seq![s] + tail_of(off, 4),
            LineKind::Instruction),
        ),
        (ArgModel::Freg(d), ArgModel::Liter(len), ArgModel::Liter(off), ArgModel::Ureg(s)) => Ok(
            (seq![(base + 3) as u8, d] + tail_of(len, 7) + seq![s] + tail_of(off, 4),
            LineKind::Instruction),
        ),
        _ => Err(AsmError::InvalidOperand),
    }
}

/// `mov`/`mva`/`mvd` dispatch by operand count.
pub open spec fn spec_enc_mov(args: Seq<ArgModel>) -> EncOut {
    if args.len() == 2 {
        spec_enc_mov2(args)
    } else if args.len() == 3 {
        spec_enc_move3(args, 0x07)
    } else if args.len() == 4 {
        spec_enc_move4(args, 0x17)
    } else {
        Err(AsmError::InvalidArgumentCount)
    }
}

pub open spec fn spec_enc_mva(args: Seq<ArgModel>) -> EncOut {
    if args.len() == 3 {
        spec_enc_move3(args, 0x0F)
    } else if args.len() == 4 {
        spec_enc_move4(args, 0x1B)
    } else {
        Err(AsmError::InvalidArgumentCount)
    }
}

pub open spec fn spec_enc_mvd(args: Seq<ArgModel>) -> EncOut {
    if args.len() == 3 {
        spec_enc_move3(args, 0x1F)
    } else if args.len() == 4 {
        spec_enc_move4(args, 0x27)
    } else {
        Err(AsmError::InvalidArgumentCount)
    }
}

/// The full opcode table: lower-cased mnemonic to encoded arm.
#[verifier::opaque]
pub open spec fn spec_encode_inst(m: Seq<char>, args: Seq<ArgModel>) -> EncOut {
    let l = spec_lower_seq(m);
    if l == "nop"@ {
        spec_enc_fixed(0x00)
    } else if l == "mov"@ {
        spec_enc_mov(args)
    } else if l == "mva"@ {
        spec_enc_mva(args)
    } else if l == "mvd"@ {
        spec_enc_mvd(args)
    } else if l == "add"@ {
        spec_enc_arith(args, 0x30, 0x31)
    } else if l == "sub"@ {
        spec_enc_arith(args, 0x32, 0x33)
    } else if l == "mul"@ {
        spec_enc_arith(args, 0x34, 0x35)
    } else if l == "div"@ {
        spec_enc_arith(args, 0x36, 0x37)
    } else if l == "mod"@ {
        spec_enc_arith(args, 0x38, 0x39)
    } else if l == "shl"@ {
        spec_enc_bit3(args, 0x3A)
    } else if l == "shr"@ {
        spec_enc_bit3(args, 0x3B)
    } else if l == "and"@ {
        spec_enc_bit3(args, 0x3C)
    } else if l == "or"@ {
        spec_enc_bit3(args, 0x3D)
    } else if l == "xor"@ {
        spec_enc_bit3(args, 0x3E)
    } else if l == "not"@ {
        spec_enc_not(args)
    } else if l == "inc"@ {
        spec_enc_ureg1(args, 0x40)
    } else if l == "dec"@ {
        spec_enc_ureg1(args, 0x41)
    } else if l == "psh"@ {
        spec_enc_stack(args, 0x42, 0x43)
    } else if l == "pop"@ {
        spec_enc_stack(args, 0x44, 0x45)
    } else if l == "adc"@ {
        spec_enc_ureg1(args, 0x46)
    } else if l == "sbc"@ {
        spec_enc_ureg1(args, 0x47)
    } else if l == "scf"@ {
        spec_enc_fixed(0x48)
    } else if l == "ccf"@ {
        spec_enc_fixed(0x49)
    } else if l == "jmp"@ {
        spec_enc_jump_target(args, 0x50, 0x51)
    } else if l == "jlg"@ {
        spec_enc_jcc(args, 0x52)
    } else if l == "jpe"@ {
        spec_enc_jcc(args, 0x56)
    } else if l == "jne"@ {
        spec_enc_jcc(args, 0x5A)
    } else if l == "jpc"@ {
        spec_enc_jump_target(args, 0x5E, 0x5F)
    } else if l == "jnc"@ {
        spec_enc_jump_target(args, 0x60, 0x61)
    } else if l == "hlt"@ {
        spec_enc_fixed(0x70)
    } else if l == "wit"@ {
        spec_enc_wit(args)
    } else if l == "gst"@ {
        spec_enc_ureg1(args, 0x73)
    } else if l == "gpc"@ {
        spec_enc_ureg1(args, 0x74)
    } else if l == "syscall"@ {
        spec_enc_fixed(0x80)
    } else if l == "sysret"@ {
        spec_enc_fixed(0x81)
    } else if l == "memcpy"@ {
        spec_enc_memcpy(args)
    } else if l == "out"@ {
        spec_enc_port(args, 0x90, 0x91)
    } else if l == "in"@ {
        spec_enc_port(args, 0x92, 0x93)
    } else if l == "grapcpy"@ {
        spec_enc_grapcpy(args)
    } else if l == "db"@ {
        spec_enc_db(args)
    } else {
        Err(AsmError::UnknownInstruction)
    }
}

/// A fixup-tagged encoding always reserves enough bytes to patch and keeps
/// enough operands to name its symbol: a label fixup ends in four placeholder
/// bytes and came from at least one operand; a data fixup holds them at
/// `[1..5]` and came from a six-operand blit.
#[verifier::rlimit(60)]
pub proof fn lemma_encode_inst_fixup_wf(m: Seq<char>, args: Seq<ArgModel>)
    requires
        args_wf(args),
    ensures
        spec_encode_inst(m, args) matches Ok(p) ==> {
            &&& p.1 is Instruction || p.1 is NeedsLabelFixup || p.1 is NeedsDataFixup
            &&& p.1 is NeedsLabelFixup ==> p.0.len() >= 4 && args.len() >= 1
            &&& p.1 is NeedsDataFixup ==> p.0.len() >= 5 && args.len() >= 6
        },
{
    reveal(spec_encode_inst);
    match spec_encode_inst(m, args) {
        Ok(p) => {
            if p.1 is NeedsLabelFixup || p.1 is NeedsDataFixup {
                assert(args.len() >= 1 ==> args[0].wf());
                assert(args.len() >= 3 ==> args[2].wf());
                assert(args.len() >= 6 ==> args[1].wf() && args[2].wf() && args[3].wf()
                    && args[4].wf() && args[5].wf());
            }
        },
        Err(_) => {},
    }
}

/// How an executable encoding result realizes a specified one.
pub open spec fn enc_matches(r: Result<(Vec<u8>, LineKind), AsmError>, s: EncOut) -> bool {
    match r {
        Ok(p) => s matches Ok(q) && q.0 == p.0@ && q.1 == p.1,
        Err(e) => s == Err::<(Seq<u8>, LineKind), AsmError>(e),
    }
}

fn encode_fixed(op: u8) -> (r: Result<(Vec<u8>, LineKind), AsmError>)
    ensures
        enc_matches(r, spec_enc_fixed(op)),
{
    let mut b: Vec<u8> = Vec::new();
    b.push(op);
    assert(b@ =~= seq![op]);
    Ok((b, LineKind::Instruction))
}

fn encode_ureg1(args: &Vec<Arg>, op: u8) -> (r: Result<(Vec<u8>, LineKind), AsmError>)
    ensures
        enc_matches(r, spec_enc_ureg1(args.deep_view(), op)),
{
    if args.len() < 1 {
        return Err(AsmError::InvalidArgumentCount);
    }
    match &args[0] {
        Arg::Ureg(n) => {
            let mut b: Vec<u8> = Vec::new();
            b.push(op);
            b.push(*n);
            assert(b@ =~= seq![op, *n]);
            Ok((b, LineKind::Instruction))
        },
        _ => Err(AsmError::InvalidOperand),
    }
}

fn encode_stack(args: &Vec<Arg>, iop: u8, fop: u8) -> (r: Result<(Vec<u8>, LineKind), AsmError>)
    ensures
        enc_matches(r, spec_enc_stack(args.deep_view(), iop, fop)),
{
    if args.len() < 1 {
        return Err(AsmError::InvalidArgumentCount);
    }
    match &args[0] {
        Arg::Ureg(n) => {
            let mut b: Vec<u8> = Vec::new();
            b.push(iop);
            b.push(*n);
            assert(b@ =~= seq![iop, *n]);
            Ok((b, LineKind::Instruction))
        },
        Arg::Freg(n) => {
            let mut b: Vec<u8> = Vec::new();
            b.push(fop);
            b.push(*n);
            assert(b@ =~= seq![fop, *n]);
            Ok((b, LineKind::Instruction))
        },
        _ => Err(AsmError::InvalidOperand),
    }
}

fn encode_not(args: &Vec<Arg>) -> (r: Result<(Vec<u8>, LineKind), AsmError>)
    ensures
        enc_matches(r, spec_enc_not(args.deep_view())),
{
    if args.len() < 2 {
        return Err(AsmError::InvalidArgumentCount);
    }
    match (&args[0], &args[1]) {
        (Arg::Ureg(d), Arg::Ureg(n)) => {
            let mut b: Vec<u8> = Vec::new();
            b.push(0x3F);
            b.push(*d);
            b.push(*n);
            assert(b@ =~= seq![0x3Fu8, *d, *n]);
            Ok((b, LineKind::Instruction))
        },
        _ => Err(AsmError::InvalidOperand),
    }
}

fn encode_bit3(args: &Vec<Arg>, op: u8) -> (r: Result<(Vec<u8>, LineKind), AsmError>)
    ensures
        enc_matches(r, spec_enc_bit3(args.deep_view(), op)),
{
    if args.len() < 3 {
        return Err(AsmError::InvalidArgumentCount);
    }
    match (&args[0], &args[1], &args[2]) {
        (Arg::Ureg(d), Arg::Ureg(r0), Arg::Ureg(n)) => {
            let mut b: Vec<u8> = Vec::new();
            b.push(op);
            b.push(*d);
            b.push(*r0);
            b.push(*n);
            assert(b@ =~= seq![op, *d, *r0, *n]);
            Ok((b, LineKind::Instruction))
        },
        _ => Err(AsmError::InvalidOperand),
    }
}

fn encode_arith(args: &Vec<Arg>, iop: u8, fop: u8) -> (r: Result<(Vec<u8>, LineKind), AsmError>)
    ensures
        enc_matches(r, spec_enc_arith(args.deep_view(), iop, fop)),
{
    if args.len() < 3 {
        return Err(AsmError::InvalidArgumentCount);
    }
    let (op, float, d) = match &args[0] {
        Arg::Ureg(d) => (iop, false, *d),
        Arg::Freg(d) => (fop, true, *d),
        _ => {
            return Err(AsmError::InvalidOperand);
        },
    };
    let r1 = match &args[1] {
        Arg::Ureg(n) => {
            if float {
                return Err(AsmError::MismatchedRegisterTypes);
            }
            *n
        },
        Arg::Freg(n) => {
            if !float {
                return Err(AsmError::MismatchedRegisterTypes);
            }
            *n
        },
        _ => {
            return Err(AsmError::InvalidOperand);
        },
    };
    match &args[2] {
        Arg::Ureg(n) => {
            if float {
                return Err(AsmError::MismatchedRegisterTypes);
            }
            let mut b: Vec<u8> = Vec::new();
            b.push(op);
            b.push(d);
            b.push(r1);
            b.push(*n);
            assert(b@ =~= seq![op, d, r1, *n]);
            Ok((b, LineKind::Instruction))
        },
        Arg::Freg(n) => {
            if !float {
                return Err(AsmError::MismatchedRegisterTypes);
            }
            let mut b: Vec<u8> = Vec::new();
            b.push(op);
            b.push(d);
            b.push(r1);
            b.push(*n);
            assert(b@ =~= seq![op, d, r1, *n]);
            Ok((b, LineKind::Instruction))
        },
        _ => Err(AsmError::InvalidOperand),
    }
}

fn push_placeholder(b: &mut Vec<u8>)
    ensures
        final(b)@ == old(b)@ + spec_placeholder(),
{
    b.push(0);
    b.push(0);
    b.push(0);
    b.push(0);
    assert(b@ =~= old(b)@ + spec_placeholder());
}

fn encode_jump_target(args: &Vec<Arg>, imm_op: u8, reg_op: u8) -> (r: Result<
    (Vec<u8>, LineKind),
    AsmError,
>)
    requires
        args_wf(args.deep_view()),
    ensures
        enc_matches(r, spec_enc_jump_target(args.deep_view(), imm_op, reg_op)),
{
    if args.len() < 1 {
        return Err(AsmError::InvalidArgumentCount);
    }
    match &args[0] {
        Arg::Ureg(n) => {
            let mut b: Vec<u8> = Vec::new();
            b.push(reg_op);
            b.push(*n);
            assert(b@ =~= seq![reg_op, *n]);
            Ok((b, LineKind::Instruction))
        },
        Arg::Freg(_) => Err(AsmError::InvalidOperand),
        Arg::Liter(n) => {
            assert(args.deep_view()[0].wf());
            let mut b: Vec<u8> = Vec::new();
            b.push(imm_op);
            push_suffix(&mut b, n, 4);
            assert(b@ =~= seq![imm_op] + tail_of(n@, 4));
            Ok((b, LineKind::Instruction))
        },
        Arg::Label => {
            let mut b: Vec<u8> = Vec::new();
            b.push(imm_op);
            push_placeholder(&mut b);
            assert(b@ =~= seq![imm_op] + spec_placeholder());
            Ok((b, LineKind::NeedsLabelFixup))
        },
    }
}

fn encode_jcc(args: &Vec<Arg>, base: u8) -> (r: Result<(Vec<u8>, LineKind), AsmError>)
    requires
        args_wf(args.deep_view()),
        base as int + 3 <= u8::MAX as int,
    ensures
        enc_matches(r, spec_enc_jcc(args.deep_view(), base)),
{
    if args.len() < 3 {
        return Err(AsmError::InvalidArgumentCount);
    }
    let (float, r0) = match &args[0] {
        Arg::Ureg(n) => (false, *n),
        Arg::Freg(n) => (true, *n),
        _ => {
            return Err(AsmError::InvalidOperand);
        },
    };
    let r1 = match &args[1] {
        Arg::Ureg(n) => {
            if float {
                return Err(AsmError::MismatchedRegisterTypes);
            }
            *n
        },
        Arg::Freg(n) => {
            if !float {
                return Err(AsmError::MismatchedRegisterTypes);
            }
            *n
        },
        _ => {
            return Err(AsmError::InvalidOperand);
        },
    };
    let imm_op = if float {
        base + 2
    } else {
        base
    };
    let reg_op = if float {
        base + 3
    } else {
        base + 1
    };
    match &args[2] {
        Arg::Ureg(n) => {
            let mut b: Vec<u8> = Vec::new();
            b.push(reg_op);
            b.push(r0);
            b.push(r1);
            b.push(*n);
            assert(b@ =~= seq![reg_op, r0, r1, *n]);
            Ok((b, LineKind::Instruction))
        },
        Arg::Freg(_) => Err(AsmError::InvalidOperand),
        Arg::Liter(n) => {
            assert(args.deep_view()[2].wf());
            let mut b: Vec<u8> = Vec::new();
            b.push(imm_op);
            b.push(r0);
            b.push(r1);
            push_suffix(&mut b, n, 4);
            assert(b@ =~= seq![imm_op, r0, r1] + tail_of(n@, 4));
            Ok((b, LineKind::Instruction))
        },
        Arg::Label => {
            let mut b: Vec<u8> = Vec::new();
            b.push(imm_op);
            b.push(r0);
            b.push(r1);
            push_placeholder(&mut b);
            assert(b@ =~= seq![imm_op, r0, r1] + spec_placeholder());
            Ok((b, LineKind::NeedsLabelFixup))
        },
    }
}

fn encode_wit(args: &Vec<Arg>) -> (r: Result<(Vec<u8>, LineKind), AsmError>)
    requires
        args_wf(args.deep_view()),
    ensures
        enc_matches(r, spec_enc_wit(args.deep_view())),
{
    if args.len() < 1 {
        return Err(AsmError::InvalidArgumentCount);
    }
    match &args[0] {
        Arg::Ureg(n) => {
            let mut b: Vec<u8> = Vec::new();
            b.push(0x72);
            b.push(*n);
            assert(b@ =~= seq![0x72u8, *n]);
            Ok((b, LineKind::Instruction))
        },
        Arg::Liter(n) => {
            assert(args.deep_view()[0].wf());
            let mut b: Vec<u8> = Vec::new();
            b.push(0x71);
            push_suffix(&mut b, n, 6);
            assert(b@ =~= seq![0x71u8] + n@.subrange(6, 8));
            Ok((b, LineKind::Instruction))
        },
        _ => Err(AsmError::InvalidOperand),
    }
}

fn encode_memcpy(args: &Vec<Arg>) -> (r: Result<(Vec<u8>, LineKind), AsmError>)
    requires
        args_wf(args.deep_view()),
    ensures
        enc_matches(r, spec_enc_memcpy(args.deep_view())),
{
    if args.len() < 3 {
        return Err(AsmError::InvalidArgumentCount);
    }
    assert(args.deep_view()[0].wf() && args.deep_view()[1].wf() && args.deep_view()[2].wf());
    match (&args[0], &args[1], &args[2]) {
        (Arg::Liter(dst), Arg::Liter(src), Arg::Liter(len)) => {
            let mut b: Vec<u8> = Vec::new();
            b.push(0x82);
            push_suffix(&mut b, src, 4);
            push_suffix(&mut b, dst, 4);
            push_suffix(&mut b, len, 5);
            assert(b@ =~= seq![0x82u8] + tail_of(src@, 4) + tail_of(dst@, 4) + tail_of(len@, 5));
            Ok((b, LineKind::Instruction))
        },
        (Arg::Ureg(dst), Arg::Ureg(src), Arg::Liter(len)) => {
            let mut b: Vec<u8> = Vec::new();
            b.push(0x83);
            b.push(*src);
            b.push(*dst);
            push_suffix(&mut b, len, 5);
            assert(b@ =~= seq![0x83u8, *src, *dst] + tail_of(len@, 5));
            Ok((b, LineKind::Instruction))
        },
        (Arg::Ureg(dst), Arg::Ureg(src), Arg::Ureg(len)) => {
            let mut b: Vec<u8> = Vec::new();
            b.push(0x84);
            b.push(*src);
            b.push(*dst);
            b.push(*len);
            assert(b@ =~= seq![0x84u8, *src, *dst, *len]);
            Ok((b, LineKind::Instruction))
        },
        _ => Err(AsmError::InvalidOperand),
    }
}

fn encode_port(args: &Vec<Arg>, imm_op: u8, reg_op: u8) -> (r: Result<
    (Vec<u8>, LineKind),
    AsmError,
>)
    requires
        args_wf(args.deep_view()),
    ensures
        enc_matches(r, spec_enc_port(args.deep_view(), imm_op, reg_op)),
{
    if args.len() < 2 {
        return Err(AsmError::InvalidArgumentCount);
    }
    let reg = match &args[0] {
        Arg::Ureg(n) => *n,
        _ => {
            return Err(AsmError::InvalidOperand);
        },
    };
    match &args[1] {
        Arg::Ureg(n) => {
            let mut b: Vec<u8> = Vec::new();
            b.push(reg_op);
            b.push(reg);
            b.push(*n);
            assert(b@ =~= seq![reg_op, reg, *n]);
            Ok((b, LineKind::Instruction))
        },
        Arg::Liter(n) => {
            assert(args.deep_view()[1].wf());
            let mut b: Vec<u8> = Vec::new();
            b.push(imm_op);
            b.push(reg);
            push_suffix(&mut b, n, 6);
            assert(b@ =~= seq![imm_op, reg] + n@.subrange(6, 8));
            Ok((b, LineKind::Instruction))
        },
        _ => Err(AsmError::InvalidOperand),
    }
}

fn encode_grapcpy(args: &Vec<Arg>) -> (r: Result<(Vec<u8>, LineKind), AsmError>)
    requires
        args_wf(args.deep_view()),
    ensures
        enc_matches(r, spec_enc_grapcpy(args.deep_view())),
{
    if args.len() < 6 {
        return Err(AsmError::InvalidArgumentCount);
    }
    assert(args.deep_view()[0].wf() && args.deep_view()[1].wf() && args.deep_view()[2].wf() && args.deep_view()[3].wf() && args.deep_view()[4].wf()
        && args.deep_view()[5].wf());
    match (&args[0], &args[1], &args[2], &args[3], &args[4], &args[5]) {
        (
            Arg::Ureg(dst),
            Arg::Liter(src),
            Arg::Liter(x),
            Arg::Liter(y),
            Arg::Liter(w),
            Arg::Liter(h),
        ) => {
            let mut b: Vec<u8> = Vec::new();
            b.push(0xA0);
            push_suffix(&mut b, src, 4);
            b.push(*dst);
            push_suffix(&mut b, h, 6);
            push_suffix(&mut b, w, 6);
            push_suffix(&mut b, x, 6);
            push_suffix(&mut b, y, 6);
            assert(b@ =~= seq![0xA0u8] + tail_of(src@, 4) + seq![*dst] + h@.subrange(6, 8)
                + w@.subrange(6, 8) + x@.subrange(6, 8) + y@.subrange(6, 8));
            Ok((b, LineKind::Instruction))
        },
        (
            Arg::Ureg(dst),
            Arg::Label,
            Arg::Liter(x),
            Arg::Liter(y),
            Arg::Liter(w),
            Arg::Liter(h),
        ) => {
            let mut b: Vec<u8> = Vec::new();
            b.push(0xA0);
            push_placeholder(&mut b);
            b.push(*dst);
            push_suffix(&mut b, h, 6);
            push_suffix(&mut b, w, 6);
            push_suffix(&mut b, x, 6);
            push_suffix(&mut b, y, 6);
            assert(b@ =~= seq![0xA0u8] + spec_placeholder() + seq![*dst] + h@.subrange(6, 8)
                + w@.subrange(6, 8) + x@.subrange(6, 8) + y@.subrange(6, 8));
            Ok((b, LineKind::NeedsDataFixup))
        },
        (Arg::Ureg(dst), Arg::Ureg(src), Arg::Ureg(x), Arg::Ureg(y), Arg::Ureg(w), Arg::Ureg(h)) => {
            let mut b: Vec<u8> = Vec::new();
            b.push(0xA1);
            b.push(*src);
            b.push(*dst);
            b.push(*h);
            b.push(*w);
            b.push(*x);
            b.push(*y);
            assert(b@ =~= seq![0xA1u8, *src, *dst, *h, *w, *x, *y]);
            Ok((b, LineKind::Instruction))
        },
        _ => Err(AsmError::InvalidOperand),
    }
}

fn encode_db(args: &Vec<Arg>) -> (r: Result<(Vec<u8>, LineKind), AsmError>)
    requires
        args_wf(args.deep_view()),
    ensures
        enc_matches(r, spec_enc_db(args.deep_view())),
{
    let mut b: Vec<u8> = Vec::new();
    let mut i: usize = 0;
    proof {
        assert(args.deep_view().skip(0) =~= args.deep_view());
        match spec_enc_db_bytes(args.deep_view()) {
            Ok(rest) => {
                assert(Seq::<u8>::empty() + rest =~= rest);
            },
            Err(_) => {},
        }
    }
    while i < args.len()
        invariant
            args_wf(args.deep_view()),
            i <= args.deep_view().len(),
            match spec_enc_db_bytes(args.deep_view().skip(i as int)) {
                Ok(rest) => spec_enc_db_bytes(args.deep_view()) == Ok::<Seq<u8>, AsmError>(b@ + rest),
                Err(e) => spec_enc_db_bytes(args.deep_view()) == Err::<Seq<u8>, AsmError>(e),
            },
        decreases args.deep_view().len() - i,
    {
        let ghost pre = args.deep_view().skip(i as int);
        proof {
            assert(pre.len() > 0);
            assert(pre[0] == args.deep_view()[i as int]);
            assert(pre.skip(1) =~= args.deep_view().skip(i as int + 1));
        }
        match &args[i] {
            Arg::Liter(n) => {
                assert(args.deep_view()[i as int].wf());
                let ghost b0 = b@;
                push_suffix(&mut b, n, 7);
                proof {
                    match spec_enc_db_bytes(args.deep_view().skip(i as int + 1)) {
                        Ok(rest2) => {
                            assert(spec_enc_db_bytes(pre) == Ok::<Seq<u8>, AsmError>(
                                n@.subrange(7, 8) + rest2,
                            ));
                            assert(b0 + (n@.subrange(7, 8) + rest2) =~= b@ + rest2);
                        },
                        Err(e2) => {
                            assert(spec_enc_db_bytes(pre) == Err::<Seq<u8>, AsmError>(e2));
                        },
                    }
                }
            },
            _ => {
                assert(spec_enc_db_bytes(pre) == Err::<Seq<u8>, AsmError>(AsmError::InvalidOperand));
                return Err(AsmError::InvalidOperand);
            },
        }
        i = i + 1;
    }
    proof {
        assert(args.deep_view().skip(args.deep_view().len() as int) =~= Seq::<ArgModel>::empty());
        assert(b@ + Seq::<u8>::empty() =~= b@);
    }
    Ok((b, LineKind::Instruction))
}

fn encode_mov2(args: &Vec<Arg>) -> (r: Result<(Vec<u8>, LineKind), AsmError>)
    requires
        args_wf(args.deep_view()),
        args.deep_view().len() >= 2,
    ensures
        enc_matches(r, spec_enc_mov2(args.deep_view())),
{
    let (float, d) = match &args[0] {
        Arg::Ureg(n) => (false, *n),
        Arg::Freg(n) => (true, *n),
        _ => {
            return Err(AsmError::InvalidOperand);
        },
    };
    match &args[1] {
        Arg::Ureg(n) => {
            let op: u8 = if float {
                0x03
            } else {
                0x01
            };
            let mut b: Vec<u8> = Vec::new();
            b.push(op);
            b.push(d);
            b.push(*n);
            assert(b@ =~= seq![op, d, *n]);
            Ok((b, LineKind::Instruction))
        },
        Arg::Freg(n) => {
            let op: u8 = if float {
                0x02
            } else {
                0x04
            };
            let mut b: Vec<u8> = Vec::new();
            b.push(op);
            b.push(d);
            b.push(*n);
            assert(b@ =~= seq![op, d, *n]);
            Ok((b, LineKind::Instruction))
        },
        Arg::Liter(n) => {
            assert(args.deep_view()[1].wf());
            let op: u8 = if float {
                0x06
            } else {
                0x05
            };
            let mut b: Vec<u8> = Vec::new();
            b.push(op);
            b.push(d);
            push_suffix(&mut b, n, 0);
            assert(b@ =~= seq![op, d] + n@);
            Ok((b, LineKind::Instruction))
        },
        Arg::Label => Err(AsmError::InvalidOperand),
    }
}

fn encode_move3(args: &Vec<Arg>, base: u8) -> (r: Result<(Vec<u8>, LineKind), AsmError>)
    requires
        args_wf(args.deep_view()),
        args.deep_view().len() >= 3,
        base as int + 7 <= u8::MAX as int,
    ensures
        enc_matches(r, spec_enc_move3(args.deep_view(), base)),
{
    assert(args.deep_view()[0].wf() && args.deep_view()[1].wf() && args.deep_view()[2].wf());
    match (&args[0], &args[1], &args[2]) {
        (Arg::Ureg(d), Arg::Liter(len), Arg::Liter(addr)) => {
            let mut b: Vec<u8> = Vec::new();
            b.push(base);
            b.push(*d);
            push_suffix(&mut b, len, 7);
            push_suffix(&mut b, addr, 4);
            assert(b@ =~= seq![base, *d] + tail_of(len@, 7) + tail_of(addr@, 4));
            Ok((b, LineKind::Instruction))
        },
        (Arg::Freg(d), Arg::Liter(len), Arg::Liter(addr)) => {
            let mut b: Vec<u8> = Vec::new();
            b.push(base + 1);
            b.push(*d);
            push_suffix(&mut b, len, 7);
            push_suffix(&mut b, addr, 4);
            assert(b@ =~= seq![(base + 1) as u8, *d] + tail_of(len@, 7) + tail_of(addr@, 4));
            Ok((b, LineKind::Instruction))
        },
        (Arg::Liter(addr), Arg::Ureg(s), Arg::Liter(len)) => {
            let mut b: Vec<u8> = Vec::new();
            b.push(base + 2);
            push_suffix(&mut b, addr, 4);
            push_suffix(&mut b, len, 7);
            b.push(*s);
            assert(b@ =~= seq![(base + 2) as u8] + tail_of(addr@, 4) + tail_of(len@, 7)
                + seq![*s]);
            Ok((b, LineKind::Instruction))
        },
        (Arg::Liter(addr), Arg::Freg(s), Arg::Liter(len)) => {
            let mut b: Vec<u8> = Vec::new();
            b.push(base + 3);
            push_suffix(&mut b, addr, 4);
            push_suffix(&mut b, len, 7);
            b.push(*s);
            assert(b@ =~= seq![(base + 3) as u8] + tail_of(addr@, 4) + tail_of(len@, 7)
                + seq![*s]);
            Ok((b, LineKind::Instruction))
        },
        (Arg::Ureg(d), Arg::Ureg(s), Arg::Liter(len)) => {
            let mut b: Vec<u8> = Vec::new();
            b.push(base + 4);
            b.push(*d);
            push_suffix(&mut b, len, 7);
            b.push(*s);
            assert(b@ =~= seq![(base + 4) as u8, *d] + tail_of(len@, 7) + seq![*s]);
            Ok((b, LineKind::Instruction))
        },
        (Arg::Ureg(d), Arg::Freg(s), Arg::Liter(len)) => {
            let mut b: Vec<u8> = Vec::new();
            b.push(base + 5);
            b.push(*d);
            push_suffix(&mut b, len, 7);
            b.push(*s);
            assert(b@ =~= seq![(base + 5) as u8, *d] + tail_of(len@, 7) + seq![*s]);
            Ok((b, LineKind::Instruction))
        },
        (Arg::Ureg(d), Arg::Liter(len), Arg::Ureg(s)) => {
            let mut b: Vec<u8> = Vec::new();
            b.push(base + 6);
            b.push(*d);
            push_suffix(&mut b, len, 7);
            b.push(*s);
            assert(b@ =~= seq![(base + 6) as u8, *d] + tail_of(len@, 7) + seq![*s]);
            Ok((b, LineKind::Instruction))
        },
        (Arg::Freg(d), Arg::Liter(len), Arg::Ureg(s)) => {
            let mut b: Vec<u8> = Vec::new();
            b.push(base + 7);
            b.push(*d);
            push_suffix(&mut b, len, 7);
            b.push(*s);
            assert(b@ =~= seq![(base + 7) as u8, *d] + tail_of(len@, 7) + seq![*s]);
            Ok((b, LineKind::Instruction))
        },
        _ => Err(AsmError::InvalidOperand),
    }
}

fn encode_move4(args: &Vec<Arg>, base: u8) -> (r: Result<(Vec<u8>, LineKind), AsmError>)
    requires
        args_wf(args.deep_view()),
        args.deep_view().len() >= 4,
        base as int + 3 <= u8::MAX as int,
    ensures
        enc_matches(r, spec_enc_move4(args.deep_view(), base)),
{
    assert(args.deep_view()[0].wf() && args.deep_view()[1].wf() && args.deep_view()[2].wf() && args.deep_view()[3].wf());
    match (&args[0], &args[1], &args[2], &args[3]) {
        (Arg::Liter(off), Arg::Ureg(d), Arg::Ureg(s), Arg::Liter(len)) => {
            let mut b: Vec<u8> = Vec::new();
            b.push(base);
            b.push(*d);
            push_suffix(&mut b, len, 7);
            b.push(*s);
            push_suffix(&mut b, off, 4);
            assert(b@ =~= seq![base, *d] + tail_of(len@, 7) + seq![*s] + tail_of(off@, 4));
            Ok((b, LineKind::Instruction))
        },
        (Arg::Liter(off), Arg::Ureg(d), Arg::Freg(s), Arg::Liter(len)) => {
            let mut b: Vec<u8> = Vec::new();
            b.push(base + 1);
            b.push(*d);
            push_suffix(&mut b, len, 7);
            b.push(*s);
            push_suffix(&mut b, off, 4);
            assert(b@ =~= seq![(base + 1) as u8, *d] + tail_of(len@, 7) + seq![*s] + tail_of(
                off@,
                4,
            ));
            Ok((b, LineKind::Instruction))
        },
        (Arg::Ureg(d), Arg::Liter(len), Arg::Liter(off), Arg::Ureg(s)) => {
            let mut b: Vec<u8> = Vec::new();
            b.push(base + 2);
            b.push(*d);
            push_suffix(&mut b, len, 7);
            b.push(*s);
            push_suffix(&mut b, off, 4);
            assert(b@ =~= seq![(base + 2) as u8, *d] + tail_of(len@, 7) + seq![*s] + tail_of(
                off@,
                4,
            ));
            Ok((b, LineKind::Instruction))
        },
        (Arg::Freg(d), Arg::Liter(len), Arg::Liter(off), Arg::Ureg(s)) => {
            let mut b: Vec<u8> = Vec::new();
            b.push(base + 3);
            b.push(*d);
            push_suffix(&mut b, len, 7);
            b.push(*s);
            push_suffix(&mut b, off, 4);
            assert(b@ =~= seq![(base + 3) as u8, *d] + tail_of(len@, 7) + seq![*s] + tail_of(
                off@,
                4,
            ));
            Ok((b, LineKind::Instruction))
        },
        _ => Err(AsmError::InvalidOperand),
    }
}

/// Encodes one instruction line: the mnemonic (matched case-insensitively)
/// and its classified operands become the provisional bytes and control tag,
/// exactly as `spec_encode_inst` lays them down.
///
/// Arms that read fewer operands than were written ignore the extras, and an
/// arm that needs more than it got reports `InvalidArgumentCount`.
pub fn resolve_inst(inst: String, args: Vec<Arg>) -> (r: Result<(Vec<u8>, LineKind), AsmError>)
    requires
        args_wf(args.deep_view()),
    ensures
        enc_matches(r, spec_encode_inst(inst@, args.deep_view())),
{
    proof {
        reveal(spec_encode_inst);
    }
    let s = inst.as_str();
    if eq_ignore_case(s, "nop") {
        encode_fixed(0x00)
    } else if eq_ignore_case(s, "mov") {
        if args.len() == 2 {
            encode_mov2(&args)
        } else if args.len() == 3 {
            encode_move3(&args, 0x07)
        } else if args.len() == 4 {
            encode_move4(&args, 0x17)
        } else {
            Err(AsmError::InvalidArgumentCount)
        }
    } else if eq_ignore_case(s, "mva") {
        if args.len() == 3 {
            encode_move3(&args, 0x0F)
        } else if args.len() == 4 {
            encode_move4(&args, 0x1B)
        } else {
            Err(AsmError::InvalidArgumentCount)
        }
    } else if eq_ignore_case(s, "mvd") {
        if args.len() == 3 {
            encode_move3(&args, 0x1F)
        } else if args.len() == 4 {
            encode_move4(&args, 0x27)
        } else {
            Err(AsmError::InvalidArgumentCount)
        }
    } else if eq_ignore_case(s, "add") {
        encode_arith(&args, 0x30, 0x31)
    } else if eq_ignore_case(s, "sub") {
        encode_arith(&args, 0x32, 0x33)
    } else if eq_ignore_case(s, "mul") {
        encode_arith(&args, 0x34, 0x35)
    } else if eq_ignore_case(s, "div") {
        encode_arith(&args, 0x36, 0x37)
    } else if eq_ignore_case(s, "mod") {
        encode_arith(&args, 0x38, 0x39)
    } else if eq_ignore_case(s, "shl") {
        encode_bit3(&args, 0x3A)
    } else if eq_ignore_case(s, "shr") {
        encode_bit3(&args, 0x3B)
    } else if eq_ignore_case(s, "and") {
        encode_bit3(&args, 0x3C)
    } else if eq_ignore_case(s, "or") {
        encode_bit3(&args, 0x3D)
    } else if eq_ignore_case(s, "xor") {
        encode_bit3(&args, 0x3E)
    } else if eq_ignore_case(s, "not") {
        encode_not(&args)
    } else if eq_ignore_case(s, "inc") {
        encode_ureg1(&args, 0x40)
    } else if eq_ignore_case(s, "dec") {
        encode_ureg1(&args, 0x41)
    } else if eq_ignore_case(s, "psh") {
        encode_stack(&args, 0x42, 0x43)
    } else if eq_ignore_case(s, "pop") {
        encode_stack(&args, 0x44, 0x45)
    } else if eq_ignore_case(s, "adc") {
        encode_ureg1(&args, 0x46)
    } else if eq_ignore_case(s, "sbc") {
        encode_ureg1(&args, 0x47)
    } else if eq_ignore_case(s, "scf") {
        encode_fixed(0x48)
    } else if eq_ignore_case(s, "ccf") {
        encode_fixed(0x49)
    } else if eq_ignore_case(s, "jmp") {
        encode_jump_target(&args, 0x50, 0x51)
    } else if eq_ignore_case(s, "jlg") {
        encode_jcc(&args, 0x52)
    } else if eq_ignore_case(s, "jpe") {
        encode_jcc(&args, 0x56)
    } else if eq_ignore_case(s, "jne") {
        encode_jcc(&args, 0x5A)
    } else if eq_ignore_case(s, "jpc") {
        encode_jump_target(&args, 0x5E, 0x5F)
    } else if eq_ignore_case(s, "jnc") {
        encode_jump_target(&args, 0x60, 0x61)
    } else if eq_ignore_case(s, "hlt") {
        encode_fixed(0x70)
    } else if eq_ignore_case(s, "wit") {
        encode_wit(&args)
    } else if eq_ignore_case(s, "gst") {
        encode_ureg1(&args, 0x73)
    } else if eq_ignore_case(s, "gpc") {
        encode_ureg1(&args, 0x74)
    } else if eq_ignore_case(s, "syscall") {
        encode_fixed(0x80)
    } else if eq_ignore_case(s, "sysret") {
        encode_fixed(0x81)
    } else if eq_ignore_case(s, "memcpy") {
        encode_memcpy(&args)
    } else if eq_ignore_case(s, "out") {
        encode_port(&args, 0x90, 0x91)
    } else if eq_ignore_case(s, "in") {
        encode_port(&args, 0x92, 0x93)
    } else if eq_ignore_case(s, "grapcpy") {
        encode_grapcpy(&args)
    } else if eq_ignore_case(s, "db") {
        encode_db(&args)
    } else {
        Err(AsmError::UnknownInstruction)
    }
}

} // verus!
