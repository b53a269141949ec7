//! The library's global laws, stated and proved over the spec model: the
//! constancy of every arm's byte count, the literal round trip, the placing
//! of every label at its line's address, the resolution of every label fixup,
//! and the determinism of the whole pipeline.
//!
//! Two byte-count facts live beside their subjects instead:
//! `layout::lemma_flatten_len` (the image is exactly as long as the lines'
//! byte counts add up to) and `layout::lemma_first_line_addr` (the first
//! line's address is the alignment base).

use vstd::prelude::*;
use crate::bebytes::lemma_addr_bytes_low32;
use crate::bebytes::lemma_u64_be_bytes_roundtrip;
use crate::bebytes::spec_addr_to_be_bytes;
use crate::bebytes::spec_u64_from_be_bytes;
use crate::bebytes::spec_u64_to_be_bytes;
use crate::encode::args_wf;
use crate::encode::spec_enc_db_bytes;
use crate::encode::spec_encode_inst;
use crate::layout::spec_lookup;
use crate::layout::spec_scan_symbols;
use crate::layout::spec_patch;
use crate::layout::total_len;
use crate::layout::spec_patch_line;
use crate::line::KindModel;
use crate::line::LineModel;
use crate::line::lines_wf;
use crate::operand::ArgModel;

verus! {

/// Two operand lists of the same shape: the same length, with the same
/// variant in every position.
pub open spec fn same_shapes(a: Seq<ArgModel>, b: Seq<ArgModel>) -> bool {
    &&& a.len() == b.len()
    &&& forall|i: int|
        0 <= i < a.len() ==> {
            &&& ((#[trigger] a[i]) is Ureg <==> (#[trigger] b[i]) is Ureg)
            &&& (a[i] is Freg <==> b[i] is Freg)
            &&& (a[i] is Liter <==> b[i] is Liter)
            &&& (a[i] is Label <==> b[i] is Label)
        }
}

/// `db` lines of the same shape produce the same number of bytes.
proof fn lemma_db_len(a: Seq<ArgModel>, b: Seq<ArgModel>)
    requires
        args_wf(a),
        args_wf(b),
        same_shapes(a, b),
        spec_enc_db_bytes(a) is Ok,
        spec_enc_db_bytes(b) is Ok,
    ensures
        spec_enc_db_bytes(a).unwrap().len() == spec_enc_db_bytes(b).unwrap().len(),
    decreases a.len(),
{
    if a.len() > 0 {
        assert(same_shapes(a.skip(1), b.skip(1)));
        assert(forall|i: int| 0 <= i < a.len() ==> (#[trigger] a[i]).wf());
        lemma_db_len(a.skip(1), b.skip(1));
    }
}

/// Length constancy for one shape-dispatched family: whatever two same-shape
/// operand lists encode to under it, the byte counts agree.
proof fn lemma_len_family(a: Seq<ArgModel>, b: Seq<ArgModel>, base: u8, iop: u8, fop: u8)
    requires
        args_wf(a),
        args_wf(b),
        same_shapes(a, b),
    ensures
        (a.len() >= 2 && crate::encode::spec_enc_mov2(a) is Ok && crate::encode::spec_enc_mov2(b) is Ok)
            ==> crate::encode::spec_enc_mov2(a).unwrap().0.len() == crate::encode::spec_enc_mov2(b).unwrap().0.len(),
        (a.len() >= 3 && crate::encode::spec_enc_move3(a, base) is Ok && crate::encode::spec_enc_move3(b, base) is Ok)
            ==> crate::encode::spec_enc_move3(a, base).unwrap().0.len() == crate::encode::spec_enc_move3(b, base).unwrap().0.len(),
        (a.len() >= 4 && crate::encode::spec_enc_move4(a, base) is Ok && crate::encode::spec_enc_move4(b, base) is Ok)
            ==> crate::encode::spec_enc_move4(a, base).unwrap().0.len() == crate::encode::spec_enc_move4(b, base).unwrap().0.len(),
        (crate::encode::spec_enc_arith(a, iop, fop) is Ok && crate::encode::spec_enc_arith(b, iop, fop) is Ok)
            ==> crate::encode::spec_enc_arith(a, iop, fop).unwrap().0.len() == crate::encode::spec_enc_arith(b, iop, fop).unwrap().0.len(),
        (crate::encode::spec_enc_bit3(a, base) is Ok && crate::encode::spec_enc_bit3(b, base) is Ok)
            ==> crate::encode::spec_enc_bit3(a, base).unwrap().0.len() == crate::encode::spec_enc_bit3(b, base).unwrap().0.len(),
        (crate::encode::spec_enc_not(a) is Ok && crate::encode::spec_enc_not(b) is Ok)
            ==> crate::encode::spec_enc_not(a).unwrap().0.len() == crate::encode::spec_enc_not(b).unwrap().0.len(),
        (crate::encode::spec_enc_ureg1(a, base) is Ok && crate::encode::spec_enc_ureg1(b, base) is Ok)
            ==> crate::encode::spec_enc_ureg1(a, base).unwrap().0.len() == crate::encode::spec_enc_ureg1(b, base).unwrap().0.len(),
        (crate::encode::spec_enc_stack(a, iop, fop) is Ok && crate::encode::spec_enc_stack(b, iop, fop) is Ok)
            ==> crate::encode::spec_enc_stack(a, iop, fop).unwrap().0.len() == crate::encode::spec_enc_stack(b, iop, fop).unwrap().0.len(),
        (crate::encode::spec_enc_jump_target(a, iop, fop) is Ok && crate::encode::spec_enc_jump_target(b, iop, fop) is Ok)
            ==> crate::encode::spec_enc_jump_target(a, iop, fop).unwrap().0.len() == crate::encode::spec_enc_jump_target(b, iop, fop).unwrap().0.len(),
        (crate::encode::spec_enc_jcc(a, base) is Ok && crate::encode::spec_enc_jcc(b, base) is Ok)
            ==> crate::encode::spec_enc_jcc(a, base).unwrap().0.len() == crate::encode::spec_enc_jcc(b, base).unwrap().0.len(),
        (crate::encode::spec_enc_wit(a) is Ok && crate::encode::spec_enc_wit(b) is Ok)
            ==> crate::encode::spec_enc_wit(a).unwrap().0.len() == crate::encode::spec_enc_wit(b).unwrap().0.len(),
        (crate::encode::spec_enc_memcpy(a) is Ok && crate::encode::spec_enc_memcpy(b) is Ok)
            ==> crate::encode::spec_enc_memcpy(a).unwrap().0.len() == crate::encode::spec_enc_memcpy(b).unwrap().0.len(),
        (crate::encode::spec_enc_port(a, iop, fop) is Ok && crate::encode::spec_enc_port(b, iop, fop) is Ok)
            ==> crate::encode::spec_enc_port(a, iop, fop).unwrap().0.len() == crate::encode::spec_enc_port(b, iop, fop).unwrap().0.len(),
        (crate::encode::spec_enc_grapcpy(a) is Ok && crate::encode::spec_enc_grapcpy(b) is Ok)
            ==> crate::encode::spec_enc_grapcpy(a).unwrap().0.len() == crate::encode::spec_enc_grapcpy(b).unwrap().0.len(),
{
    assert(a.len() >= 1 ==> a[0].wf() && b[0].wf());
    assert(a.len() >= 2 ==> a[1].wf() && b[1].wf());
    assert(a.len() >= 3 ==> a[2].wf() && b[2].wf());
    assert(a.len() >= 4 ==> a[3].wf() && b[3].wf());
    assert(a.len() >= 5 ==> a[4].wf() && b[4].wf());
    assert(a.len() >= 6 ==> a[5].wf() && b[5].wf());
}

/// Every arm emits a byte count fixed by the arm alone: encodings of the same
/// mnemonic over operand lists of the same shape are equally long, whatever
/// the operand values.
#[verifier::rlimit(100)]
pub proof fn lemma_arm_length_constant(m: Seq<char>, a: Seq<ArgModel>, b: Seq<ArgModel>)
    requires
        args_wf(a),
        args_wf(b),
        same_shapes(a, b),
        spec_encode_inst(m, a) is Ok,
        spec_encode_inst(m, b) is Ok,
    ensures
        spec_encode_inst(m, a).unwrap().0.len() == spec_encode_inst(m, b).unwrap().0.len(),
{
    reveal(spec_encode_inst);
    let l = crate::text::spec_lower_seq(m);
    if l == "mov"@ {
        lemma_len_family(a, b, 0x07, 0x00, 0x00);
        lemma_len_family(a, b, 0x17, 0x00, 0x00);
    } else if l == "mva"@ {
        lemma_len_family(a, b, 0x0F, 0x00, 0x00);
        lemma_len_family(a, b, 0x1B, 0x00, 0x00);
    } else if l == "mvd"@ {
        lemma_len_family(a, b, 0x1F, 0x00, 0x00);
        lemma_len_family(a, b, 0x27, 0x00, 0x00);
    } else if l == "add"@ {
        lemma_len_family(a, b, 0x00, 0x30, 0x31);
    } else if l == "sub"@ {
        lemma_len_family(a, b, 0x00, 0x32, 0x33);
    } else if l == "mul"@ {
        lemma_len_family(a, b, 0x00, 0x34, 0x35);
    } else if l == "div"@ {
        lemma_len_family(a, b, 0x00, 0x36, 0x37);
    } else if l == "mod"@ {
        lemma_len_family(a, b, 0x00, 0x38, 0x39);
    } else if l == "shl"@ {
        lemma_len_family(a, b, 0x3A, 0x00, 0x00);
    } else if l == "shr"@ {
        lemma_len_family(a, b, 0x3B, 0x00, 0x00);
    } else if l == "and"@ {
        lemma_len_family(a, b, 0x3C, 0x00, 0x00);
    } else if l == "or"@ {
        lemma_len_family(a, b, 0x3D, 0x00, 0x00);
    } else if l == "xor"@ {
        lemma_len_family(a, b, 0x3E, 0x00, 0x00);
    } else if l == "not"@ {
        lemma_len_family(a, b, 0x00, 0x00, 0x00);
    } else if l == "inc"@ {
        lemma_len_family(a, b, 0x40, 0x00, 0x00);
    } else if l == "dec"@ {
        lemma_len_family(a, b, 0x41, 0x00, 0x00);
    } else if l == "psh"@ {
        lemma_len_family(a, b, 0x00, 0x42, 0x43);
    } else if l == "pop"@ {
        lemma_len_family(a, b, 0x00, 0x44, 0x45);
    } else if l == "adc"@ {
        lemma_len_family(a, b, 0x46, 0x00, 0x00);
    } else if l == "sbc"@ {
        lemma_len_family(a, b, 0x47, 0x00, 0x00);
    } else if l == "jmp"@ {
        lemma_len_family(a, b, 0x00, 0x50, 0x51);
    } else if l == "jlg"@ {
        lemma_len_family(a, b, 0x52, 0x00, 0x00);
    } else if l == "jpe"@ {
        lemma_len_family(a, b, 0x56, 0x00, 0x00);
    } else if l == "jne"@ {
        lemma_len_family(a, b, 0x5A, 0x00, 0x00);
    } else if l == "jpc"@ {
        lemma_len_family(a, b, 0x00, 0x5E, 0x5F);
    } else if l == "jnc"@ {
        lemma_len_family(a, b, 0x00, 0x60, 0x61);
    } else if l == "wit"@ {
        lemma_len_family(a, b, 0x00, 0x00, 0x00);
    } else if l == "gst"@ {
        lemma_len_family(a, b, 0x73, 0x00, 0x00);
    } else if l == "gpc"@ {
        lemma_len_family(a, b, 0x74, 0x00, 0x00);
    } else if l == "memcpy"@ {
        lemma_len_family(a, b, 0x00, 0x00, 0x00);
    } else if l == "out"@ {
        lemma_len_family(a, b, 0x00, 0x90, 0x91);
    } else if l == "in"@ {
        lemma_len_family(a, b, 0x00, 0x92, 0x93);
    } else if l == "grapcpy"@ {
        lemma_len_family(a, b, 0x00, 0x00, 0x00);
    } else if l == "db"@ {
        if spec_enc_db_bytes(a) is Ok && spec_enc_db_bytes(b) is Ok {
            lemma_db_len(a, b);
        }
    }
}

/// The symbol scan only ever appends to its label table.
proof fn lemma_scan_prefix(
    lines: Seq<LineModel>,
    k: int,
    cursor: int,
    labels: Seq<(Seq<char>, int)>,
    data: Seq<(Seq<char>, int)>,
)
    requires
        spec_scan_symbols(lines, k, cursor, labels, data) is Ok,
    ensures
        ({
            let t = spec_scan_symbols(lines, k, cursor, labels, data).unwrap().0;
            labels.len() <= t.len() && t.subrange(0, labels.len() as int) == labels
        }),
    decreases lines.len() - k,
{
    if 0 <= k < lines.len() {
        let l = lines[k];
        let next = cursor + l.bytes.len();
        match l.kind {
            KindModel::Label => {
                let pushed = labels.push((l.mnemonic.drop_last(), cursor));
                lemma_scan_prefix(lines, k + 1, next, pushed, data);
                let t = spec_scan_symbols(lines, k, cursor, labels, data).unwrap().0;
                assert(t.subrange(0, pushed.len() as int).subrange(0, labels.len() as int)
                    =~= t.subrange(0, labels.len() as int));
                assert(pushed.subrange(0, labels.len() as int) =~= labels);
            },
            KindModel::Data => {
                lemma_scan_prefix(lines, k + 1, next, labels, data.push((l.operands[0], cursor)));
            },
            _ => {
                lemma_scan_prefix(lines, k + 1, next, labels, data);
            },
        }
    }
}

/// The byte counts of a stream slice, taken off its front.
proof fn lemma_total_len_step(lines: Seq<LineModel>, k: int, j: int)
    requires
        0 <= k < j <= lines.len(),
    ensures
        total_len(lines.subrange(k, j)) == lines[k].bytes.len() + total_len(
            lines.subrange(k + 1, j),
        ),
    decreases j - k,
{
    if j == k + 1 {
        assert(lines.subrange(k, j).drop_last() =~= lines.subrange(k + 1, j));
        assert(lines.subrange(k, j).last() == lines[k]);
    } else {
        assert(lines.subrange(k, j).drop_last() =~= lines.subrange(k, j - 1));
        assert(lines.subrange(k, j).last() == lines[j - 1]);
        assert(lines.subrange(k + 1, j).drop_last() =~= lines.subrange(k + 1, j - 1));
        assert(lines.subrange(k + 1, j).last() == lines[j - 1]);
        lemma_total_len_step(lines, k, j - 1);
    }
}

/// A successful scan registers the label of line `j` under the address the
/// cursor will have reached by then.
proof fn lemma_scan_label_entry(
    lines: Seq<LineModel>,
    k: int,
    cursor: int,
    labels: Seq<(Seq<char>, int)>,
    data: Seq<(Seq<char>, int)>,
    j: int,
)
    requires
        spec_scan_symbols(lines, k, cursor, labels, data) is Ok,
        0 <= k <= j < lines.len(),
        lines[j].kind is Label,
    ensures
        ({
            let t = spec_scan_symbols(lines, k, cursor, labels, data).unwrap().0;
            exists|p: int|
                labels.len() <= p < t.len() && t[p] == (
                    lines[j].mnemonic.drop_last(),
                    cursor + total_len(lines.subrange(k, j)),
                )
        }),
    decreases j - k,
{
    let l = lines[k];
    let next = cursor + l.bytes.len();
    let t = spec_scan_symbols(lines, k, cursor, labels, data).unwrap().0;
    if k == j {
        let name = l.mnemonic.drop_last();
        let pushed = labels.push((name, cursor));
        lemma_scan_prefix(lines, k + 1, next, pushed, data);
        assert(lines.subrange(k, k) =~= Seq::<LineModel>::empty());
        let p = labels.len() as int;
        assert(t.subrange(0, pushed.len() as int)[p] == (name, cursor));
        assert(t[p] == (name, cursor + total_len(lines.subrange(k, j))));
    } else {
        lemma_total_len_step(lines, k, j);
        match l.kind {
            KindModel::Label => {
                let pushed = labels.push((l.mnemonic.drop_last(), cursor));
                lemma_scan_label_entry(lines, k + 1, next, pushed, data, j);
            },
            KindModel::Data => {
                let pushed = data.push((l.operands[0], cursor));
                lemma_scan_label_entry(lines, k + 1, next, labels, pushed, j);
            },
            _ => {
                lemma_scan_label_entry(lines, k + 1, next, labels, data, j);
            },
        }
    }
}

/// Pairwise distinct symbol names.
pub open spec fn distinct_names(t: Seq<(Seq<char>, int)>) -> bool {
    forall|p: int, q: int| 0 <= p < q < t.len() ==> (#[trigger] t[p]).0 != (#[trigger] t[q]).0
}

/// A name that lookup misses is in no entry.
proof fn lemma_lookup_none_absent(t: Seq<(Seq<char>, int)>, name: Seq<char>, p: int)
    requires
        spec_lookup(t, name) is None,
        0 <= p < t.len(),
    ensures
        t[p].0 != name,
    decreases t.len(),
{
    if p > 0 {
        lemma_lookup_none_absent(t.skip(1), name, p - 1);
    }
}

/// The scan rejects duplicates, so its tables carry distinct names.
proof fn lemma_scan_distinct(
    lines: Seq<LineModel>,
    k: int,
    cursor: int,
    labels: Seq<(Seq<char>, int)>,
    data: Seq<(Seq<char>, int)>,
)
    requires
        spec_scan_symbols(lines, k, cursor, labels, data) is Ok,
        distinct_names(labels),
        distinct_names(data),
    ensures
        distinct_names(spec_scan_symbols(lines, k, cursor, labels, data).unwrap().0),
        distinct_names(spec_scan_symbols(lines, k, cursor, labels, data).unwrap().1),
    decreases lines.len() - k,
{
    if 0 <= k < lines.len() {
        let l = lines[k];
        let next = cursor + l.bytes.len();
        match l.kind {
            KindModel::Label => {
                let name = l.mnemonic.drop_last();
                let pushed = labels.push((name, cursor));
                assert forall|p: int| 0 <= p < labels.len() implies (#[trigger] labels[p]).0
                    != name by {
                    lemma_lookup_none_absent(labels, name, p);
                }
                assert(distinct_names(pushed));
                lemma_scan_distinct(lines, k + 1, next, pushed, data);
            },
            KindModel::Data => {
                let name = l.operands[0];
                let pushed = data.push((name, cursor));
                assert forall|p: int| 0 <= p < data.len() implies (#[trigger] data[p]).0 != name by {
                    lemma_lookup_none_absent(data, name, p);
                }
                assert(distinct_names(pushed));
                lemma_scan_distinct(lines, k + 1, next, labels, pushed);
            },
            _ => {
                lemma_scan_distinct(lines, k + 1, next, labels, data);
            },
        }
    }
}

/// In a table of distinct names, lookup finds every entry there is.
proof fn lemma_lookup_finds(t: Seq<(Seq<char>, int)>, p: int)
    requires
        distinct_names(t),
        0 <= p < t.len(),
    ensures
        spec_lookup(t, t[p].0) == Some(t[p].1),
    decreases t.len(),
{
    if p > 0 {
        assert(t[0].0 != t[p].0);
        assert(distinct_names(t.skip(1))) by {
            assert(forall|x: int, y: int|
                0 <= x < y < t.skip(1).len() ==> (#[trigger] t.skip(1)[x]).0 != (#[trigger] t.skip(
                    1,
                )[y]).0);
        }
        lemma_lookup_finds(t.skip(1), p - 1);
    }
}

/// Every label lands at its line's address: after a successful scan from the
/// alignment base, looking a label line's name up yields the base plus the
/// byte count of everything before that line. For the first line, that is the
/// base itself.
pub proof fn lemma_label_addresses(
    lines: Seq<LineModel>,
    align: int,
    labels: Seq<(Seq<char>, int)>,
    data: Seq<(Seq<char>, int)>,
    j: int,
)
    requires
        spec_scan_symbols(lines, 0, align, Seq::empty(), Seq::empty()) == Ok::<
            (Seq<(Seq<char>, int)>, Seq<(Seq<char>, int)>),
            crate::errors::AsmError,
        >((labels, data)),
        0 <= j < lines.len(),
        lines[j].kind is Label,
    ensures
        spec_lookup(labels, lines[j].mnemonic.drop_last()) == Some(
            crate::layout::spec_line_addr(lines, j, align),
        ),
{
    lemma_scan_label_entry(lines, 0, align, Seq::empty(), Seq::empty(), j);
    lemma_scan_distinct(lines, 0, align, Seq::empty(), Seq::empty());
    let name = lines[j].mnemonic.drop_last();
    let addr = align + total_len(lines.subrange(0, j));
    let p = choose|p: int| 0 <= p < labels.len() && labels[p] == (name, addr);
    lemma_lookup_finds(labels, p);
}

/// Round trip for literals: `mov rX, &V` carries the full value of `V` in
/// bytes `[2..10]` of its encoding, and reading them back big-endian yields
/// `V` again, for every `V`.
pub proof fn lemma_literal_round_trip(x: u8, v: u64)
    ensures
        ({
            let args = seq![ArgModel::Ureg(x), ArgModel::Liter(spec_u64_to_be_bytes(v))];
            let r = spec_encode_inst("mov"@, args);
            &&& r is Ok
            &&& r.unwrap().0.len() == 10
            &&& spec_u64_from_be_bytes(r.unwrap().0.subrange(2, 10)) == v
        }),
{
    reveal(spec_encode_inst);
    reveal_strlit("mov");
    reveal_strlit("nop");
    let l = crate::text::spec_lower_seq("mov"@);
    assert(l =~= "mov"@);
    assert(l != "nop"@) by {
        assert("mov"@[0] == 'm' && "nop"@[0] == 'n');
    }
    let args = seq![ArgModel::Ureg(x), ArgModel::Liter(spec_u64_to_be_bytes(v))];
    let r = spec_encode_inst("mov"@, args);
    assert(r is Ok);
    assert(r.unwrap().0 =~= seq![0x05u8, x] + spec_u64_to_be_bytes(v));
    assert(r.unwrap().0.subrange(2, 10) =~= spec_u64_to_be_bytes(v));
    lemma_u64_be_bytes_roundtrip(v);
}

/// Assembling is deterministic: the image is a function of the line stream,
/// the data blocks and the alignment alone, so two runs over identical inputs
/// are byte-identical. `assemble`'s contract pins its result to
/// `spec_assemble` of its inputs' models, and that model compares equal run
/// to run.
pub proof fn lemma_assemble_deterministic(
    lines1: Seq<LineModel>,
    blocks1: Seq<Seq<u8>>,
    align1: int,
    lines2: Seq<LineModel>,
    blocks2: Seq<Seq<u8>>,
    align2: int,
)
    requires
        lines1 == lines2,
        blocks1 == blocks2,
        align1 == align2,
    ensures
        crate::layout::spec_assemble(lines1, blocks1, align1) == crate::layout::spec_assemble(
            lines2,
            blocks2,
            align2,
        ),
{
}

/// A successful patch pass keeps the stream's length.
proof fn lemma_patch_len(
    lines: Seq<LineModel>,
    labels: Seq<(Seq<char>, int)>,
    data: Seq<(Seq<char>, int)>,
    patched: Seq<LineModel>,
)
    requires
        spec_patch(lines, labels, data) == Ok::<Seq<LineModel>, crate::errors::AsmError>(patched),
    ensures
        patched.len() == lines.len(),
    decreases lines.len(),
{
    if lines.len() > 0 {
        let first = spec_patch_line(lines[0], labels, data);
        let rest = spec_patch(lines.skip(1), labels, data);
        assert(patched == seq![first.unwrap()] + rest.unwrap());
        lemma_patch_len(lines.skip(1), labels, data, rest.unwrap());
    }
}

/// After a successful patch pass, every line keeps its place and patching is
/// exactly `spec_patch_line`, line by line.
pub proof fn lemma_patch_index(
    lines: Seq<LineModel>,
    labels: Seq<(Seq<char>, int)>,
    data: Seq<(Seq<char>, int)>,
    patched: Seq<LineModel>,
    k: int,
)
    requires
        spec_patch(lines, labels, data) == Ok::<Seq<LineModel>, crate::errors::AsmError>(patched),
        0 <= k < lines.len(),
    ensures
        patched.len() == lines.len(),
        spec_patch_line(lines[k], labels, data) == Ok::<LineModel, crate::errors::AsmError>(
            patched[k],
        ),
    decreases lines.len(),
{
    lemma_patch_len(lines, labels, data, patched);
    let first = spec_patch_line(lines[0], labels, data);
    let rest = spec_patch(lines.skip(1), labels, data);
    assert(patched == seq![first.unwrap()] + rest.unwrap());
    if k > 0 {
        lemma_patch_index(lines.skip(1), labels, data, rest.unwrap(), k - 1);
        assert(patched[k] == rest.unwrap()[k - 1]);
    } else {
        assert(patched[0] == first.unwrap());
    }
}

/// Every address in a symbol table fits the address space.
pub open spec fn table_addrs_bounded(t: Seq<(Seq<char>, int)>) -> bool {
    forall|p: int| 0 <= p < t.len() ==> 0 <= (#[trigger] t[p]).1 <= usize::MAX as int
}

/// The scan never registers an address outside the address space.
proof fn lemma_scan_bounded(
    lines: Seq<LineModel>,
    k: int,
    cursor: int,
    labels: Seq<(Seq<char>, int)>,
    data: Seq<(Seq<char>, int)>,
)
    requires
        spec_scan_symbols(lines, k, cursor, labels, data) is Ok,
        0 <= cursor <= usize::MAX as int,
        table_addrs_bounded(labels),
        table_addrs_bounded(data),
    ensures
        table_addrs_bounded(spec_scan_symbols(lines, k, cursor, labels, data).unwrap().0),
        table_addrs_bounded(spec_scan_symbols(lines, k, cursor, labels, data).unwrap().1),
    decreases lines.len() - k,
{
    if 0 <= k < lines.len() {
        let l = lines[k];
        let next = cursor + l.bytes.len();
        match l.kind {
            KindModel::Label => {
                let pushed = labels.push((l.mnemonic.drop_last(), cursor));
                assert(table_addrs_bounded(pushed));
                lemma_scan_bounded(lines, k + 1, next, pushed, data);
            },
            KindModel::Data => {
                let pushed = data.push((l.operands[0], cursor));
                assert(table_addrs_bounded(pushed));
                lemma_scan_bounded(lines, k + 1, next, labels, pushed);
            },
            _ => {
                lemma_scan_bounded(lines, k + 1, next, labels, data);
            },
        }
    }
}

/// What lookup hands back sits in the table.
proof fn lemma_lookup_some_in_table(t: Seq<(Seq<char>, int)>, name: Seq<char>, a: int)
    requires
        spec_lookup(t, name) == Some(a),
    ensures
        exists|p: int| 0 <= p < t.len() && (#[trigger] t[p]) == (name, a),
    decreases t.len(),
{
    if t.len() > 0 {
        if t[0].0 == name {
            assert(t[0] == (name, a));
        } else {
            lemma_lookup_some_in_table(t.skip(1), name, a);
            let p = choose|p: int| 0 <= p < t.skip(1).len() && #[trigger] t.skip(1)[p] == (name, a);
            assert(t[p + 1] == (name, a));
        }
    }
}

/// The capstone of symbol resolution: for a program scanned from a base
/// alignment and then patched, every label-fixup line ends in the low 32 bits
/// of its target label's line address, big-endian.
pub proof fn lemma_fixups_carry_line_addresses(
    lines: Seq<LineModel>,
    align: usize,
    labels: Seq<(Seq<char>, int)>,
    data: Seq<(Seq<char>, int)>,
    patched: Seq<LineModel>,
    k: int,
    j: int,
)
    requires
        lines_wf(lines),
        spec_scan_symbols(lines, 0, align as int, Seq::empty(), Seq::empty()) == Ok::<
            (Seq<(Seq<char>, int)>, Seq<(Seq<char>, int)>),
            crate::errors::AsmError,
        >((labels, data)),
        spec_patch(lines, labels, data) == Ok::<Seq<LineModel>, crate::errors::AsmError>(patched),
        0 <= k < lines.len(),
        lines[k].kind is NeedsLabelFixup,
        0 <= j < lines.len(),
        lines[j].kind is Label,
        lines[k].operands.last() == lines[j].mnemonic.drop_last(),
    ensures
        ({
            let alpha = crate::layout::spec_line_addr(lines, j, align as int);
            patched[k].bytes.subrange(
                patched[k].bytes.len() - 4,
                patched[k].bytes.len() as int,
            ) == spec_u64_to_be_bytes(((alpha as usize) as u64) & 0xFFFFFFFF).subrange(4, 8)
        }),
{
    let alpha = crate::layout::spec_line_addr(lines, j, align as int);
    lemma_label_addresses(lines, align as int, labels, data, j);
    lemma_scan_bounded(lines, 0, align as int, Seq::empty(), Seq::empty());
    lemma_lookup_some_in_table(labels, lines[k].operands.last(), alpha);
    lemma_label_fixups_resolved(lines, labels, data, patched, k, alpha);
}

/// Symbol resolution: when label `L` is registered at address `alpha`, every
/// label-fixup line whose target is `L` ends, after patching, in the low 32
/// bits of `alpha`, big-endian.
pub proof fn lemma_label_fixups_resolved(
    lines: Seq<LineModel>,
    labels: Seq<(Seq<char>, int)>,
    data: Seq<(Seq<char>, int)>,
    patched: Seq<LineModel>,
    k: int,
    alpha: int,
)
    requires
        lines_wf(lines),
        spec_patch(lines, labels, data) == Ok::<Seq<LineModel>, crate::errors::AsmError>(patched),
        0 <= k < lines.len(),
        lines[k].kind is NeedsLabelFixup,
        spec_lookup(labels, lines[k].operands.last()) == Some(alpha),
        0 <= alpha <= usize::MAX as int,
    ensures
        patched[k].bytes.len() == lines[k].bytes.len(),
        patched[k].bytes.subrange(
            patched[k].bytes.len() - 4,
            patched[k].bytes.len() as int,
        ) == spec_u64_to_be_bytes(((alpha as usize) as u64) & 0xFFFFFFFF).subrange(4, 8),
{
    lemma_patch_index(lines, labels, data, patched, k);
    assert(lines[k].wf());
    let old_bytes = lines[k].bytes;
    let nb = patched[k].bytes;
    assert(nb == old_bytes.subrange(0, old_bytes.len() - 4) + spec_addr_to_be_bytes(
        alpha as usize,
    ));
    assert(nb.len() == old_bytes.len());
    assert(nb.subrange(nb.len() - 4, nb.len() as int) =~= spec_addr_to_be_bytes(alpha as usize));
    lemma_addr_bytes_low32(alpha as usize);
}

} // verus!
