//! Layout and linking: address assignment, data-block materialization,
//! back-patching of symbolic references, and the final image.
//!
//! The pipeline is `spec_assemble`: append one data block per directive line,
//! scan the stream once to place every label and data block at its absolute
//! address, patch every fixup line with its symbol's address, and concatenate
//! the bytes.

use vstd::prelude::*;
use crate::bebytes::push_addr_be_bytes;
use crate::bebytes::push_range;
use crate::bebytes::push_suffix;
use crate::bebytes::spec_addr_to_be_bytes;
use crate::errors::AsmError;
use crate::errors::Diagnostic;
use crate::line::KindModel;
use crate::line::Line;
use crate::line::LineKind;
use crate::line::LineModel;
use crate::line::lines_wf;
use crate::text::str_eq;

verus! {

/// The byte size of the whole stream.
pub open spec fn total_len(lines: Seq<LineModel>) -> int
    decreases lines.len(),
{
    if lines.len() == 0 {
        0
    } else {
        total_len(lines.drop_last()) + lines.last().bytes.len()
    }
}

/// The final image: every line's bytes, in stream order.
pub open spec fn spec_flatten(lines: Seq<LineModel>) -> Seq<u8>
    decreases lines.len(),
{
    if lines.len() == 0 {
        Seq::empty()
    } else {
        spec_flatten(lines.drop_last()) + lines.last().bytes
    }
}

/// The image is exactly as long as the lines' byte counts add up to.
pub proof fn lemma_flatten_len(lines: Seq<LineModel>)
    ensures
        spec_flatten(lines).len() == total_len(lines),
    decreases lines.len(),
{
    if lines.len() > 0 {
        lemma_flatten_len(lines.drop_last());
    }
}

/// The address of line `k` under base alignment `align`: the alignment plus
/// everything laid down before it.
pub open spec fn spec_line_addr(lines: Seq<LineModel>, k: int, align: int) -> int {
    align + total_len(lines.subrange(0, k))
}

/// The first line of a program sits exactly at the alignment base.
pub proof fn lemma_first_line_addr(lines: Seq<LineModel>, align: int)
    ensures
        spec_line_addr(lines, 0, align) == align,
{
    assert(lines.subrange(0, 0) =~= Seq::<LineModel>::empty());
}

/// First-match lookup in a symbol table.
pub open spec fn spec_lookup(t: Seq<(Seq<char>, int)>, name: Seq<char>) -> Option<int>
    decreases t.len(),
{
    if t.len() == 0 {
        None
    } else if t[0].0 == name {
        Some(t[0].1)
    } else {
        spec_lookup(t.skip(1), name)
    }
}

/// The model of an executable symbol table.
pub open spec fn table_view(t: Seq<(String, usize)>) -> Seq<(Seq<char>, int)> {
    Seq::new(t.len(), |j: int| (t[j].0@, t[j].1 as int))
}

/// The two flat namespaces a program resolves against.
pub struct SymbolTables {
    /// Label name to absolute address.
    pub labels: Vec<(String, usize)>,
    /// Data-block name to absolute address.
    pub data_pointers: Vec<(String, usize)>,
}

/// Looks `name` up in a symbol table.
pub fn lookup(t: &Vec<(String, usize)>, name: &str) -> (r: Option<usize>)
    ensures
        match r {
            Some(a) => spec_lookup(table_view(t@), name@) == Some(a as int),
            None => spec_lookup(table_view(t@), name@) is None,
        },
{
    let mut i: usize = 0;
    proof {
        assert(table_view(t@).skip(0) =~= table_view(t@));
    }
    while i < t.len()
        invariant
            i <= t@.len(),
            spec_lookup(table_view(t@), name@) == spec_lookup(
                table_view(t@).skip(i as int),
                name@,
            ),
        decreases t@.len() - i,
    {
        proof {
            assert(table_view(t@).skip(i as int)[0] == (t@[i as int].0@, t@[i as int].1 as int));
            assert(table_view(t@).skip(i as int).skip(1) =~= table_view(t@).skip(i as int + 1));
        }
        let p = &t[i];
        if str_eq(p.0.as_str(), name) {
            return Some(p.1);
        }
        i = i + 1;
    }
    None
}

/// A directive line that announces a data block.
pub open spec fn is_pointer(l: LineModel) -> bool {
    l.kind is DataPointer || l.kind is ImagePointer
}

/// How many data-block directives the stream holds.
pub open spec fn count_pointers(lines: Seq<LineModel>) -> nat
    decreases lines.len(),
{
    if lines.len() == 0 {
        0
    } else {
        (if is_pointer(lines[0]) {
            1nat
        } else {
            0nat
        }) + count_pointers(lines.skip(1))
    }
}

/// Copies a token list.
fn clone_tokens(v: &Vec<String>) -> (r: Vec<String>)
    ensures
        r.deep_view() == v.deep_view(),
{
    let mut r: Vec<String> = Vec::new();
    let mut i: usize = 0;
    while i < v.len()
        invariant
            i <= v@.len(),
            r@.len() == i,
            r.deep_view() =~= v.deep_view().subrange(0, i as int),
        decreases v@.len() - i,
    {
        let ghost rdv0 = r.deep_view();
        let c = v[i].clone();
        proof {
            assert(c@ == v.deep_view()[i as int]);
        }
        r.push(c);
        proof {
            assert forall|j: int| 0 <= j < i + 1 implies r.deep_view()[j] == v.deep_view().subrange(
                0,
                i as int + 1,
            )[j] by {
                if j < i {
                    assert(r.deep_view()[j] == rdv0[j]);
                } else {
                    assert(r.deep_view()[j] == c@);
                }
            }
            assert(r.deep_view() =~= v.deep_view().subrange(0, i as int + 1));
        }
        i = i + 1;
    }
    proof {
        assert(v.deep_view().subrange(0, v@.len() as int) =~= v.deep_view());
    }
    r
}

/// The data block appended for a directive line: kind `Data`, the block's
/// bytes, and the directive's tokens (so registration finds the name).
pub open spec fn data_line_of(l: LineModel, b: Seq<u8>) -> LineModel {
    LineModel {
        kind: KindModel::Data,
        bytes: b,
        mnemonic: l.mnemonic,
        operands: l.operands,
        file: l.file,
        line: l.line,
    }
}

/// The data blocks appended for `lines[k..]`, with `bi` blocks already used.
pub open spec fn spec_appended(
    lines: Seq<LineModel>,
    k: int,
    blocks: Seq<Seq<u8>>,
    bi: int,
) -> Seq<LineModel>
    decreases lines.len() - k,
{
    if k < 0 || k >= lines.len() {
        Seq::empty()
    } else if is_pointer(lines[k]) {
        seq![data_line_of(lines[k], blocks[bi])] + spec_appended(lines, k + 1, blocks, bi + 1)
    } else {
        spec_appended(lines, k + 1, blocks, bi)
    }
}

/// The stream after data-block materialization: the original lines, then one
/// `Data` line per directive, in directive order.
pub open spec fn spec_expand(lines: Seq<LineModel>, blocks: Seq<Seq<u8>>) -> Seq<LineModel> {
    lines + spec_appended(lines, 0, blocks, 0)
}

/// Appended data blocks are well formed when their directives are.
proof fn lemma_appended_wf(lines: Seq<LineModel>, k: int, blocks: Seq<Seq<u8>>, bi: int)
    requires
        lines_wf(lines),
    ensures
        lines_wf(spec_appended(lines, k, blocks, bi)),
    decreases lines.len() - k,
{
    if 0 <= k < lines.len() {
        lemma_appended_wf(lines, k + 1, blocks, bi + 1);
        lemma_appended_wf(lines, k + 1, blocks, bi);
        if is_pointer(lines[k]) {
            let app = spec_appended(lines, k, blocks, bi);
            let rest = spec_appended(lines, k + 1, blocks, bi + 1);
            assert(forall|i: int|
                0 <= i < app.len() ==> (#[trigger] app[i]) == if i == 0 {
                    data_line_of(lines[k], blocks[bi])
                } else {
                    rest[i - 1]
                });
        }
    }
}

/// How many data blocks a stream asks for: one per directive line. The
/// caller of `assemble` supplies exactly this many.
pub fn count_data_blocks(lines: &Vec<Line>) -> (n: usize)
    ensures
        n == count_pointers(lines.deep_view()),
{
    let ghost dv = lines.deep_view();
    let mut n: usize = 0;
    let mut k: usize = 0;
    proof {
        assert(dv.skip(0) =~= dv);
    }
    while k < lines.len()
        invariant
            k <= dv.len(),
            dv == lines.deep_view(),
            n <= k,
            n + count_pointers(dv.skip(k as int)) == count_pointers(dv),
        decreases dv.len() - k,
    {
        proof {
            assert(dv.skip(k as int)[0] == dv[k as int]);
            assert(dv.skip(k as int).skip(1) =~= dv.skip(k as int + 1));
        }
        match &lines[k].kind {
            LineKind::DataPointer(_) => {
                n = n + 1;
            },
            LineKind::ImagePointer(_) => {
                n = n + 1;
            },
            _ => {},
        }
        k = k + 1;
    }
    proof {
        assert(dv.skip(dv.len() as int) =~= Seq::<LineModel>::empty());
    }
    n
}

/// Materializes the data blocks: appends one `Data` line per directive line,
/// in order, carrying the corresponding block's bytes.
pub fn expand_data_blocks(lines: &mut Vec<Line>, blocks: Vec<Vec<u8>>)
    requires
        lines_wf(old(lines).deep_view()),
        blocks@.len() == count_pointers(old(lines).deep_view()),
    ensures
        final(lines).deep_view() == spec_expand(old(lines).deep_view(), blocks.deep_view()),
        lines_wf(final(lines).deep_view()),
{
    let ghost orig = old(lines).deep_view();
    let ghost bdv = blocks.deep_view();
    let orig_len = lines.len();
    let mut rest = blocks;
    let mut k: usize = 0;
    let ghost mut bi: int = 0;
    proof {
        assert(lines.deep_view().skip(orig_len as int) =~= Seq::<LineModel>::empty());
        assert(Seq::<LineModel>::empty() + spec_appended(orig, 0, bdv, 0) =~= spec_appended(
            orig,
            0,
            bdv,
            0,
        ));
    }
    proof {
        assert(orig.skip(0) =~= orig);
    }
    while k < orig_len
        invariant
            k <= orig_len,
            orig_len == orig.len(),
            bdv == blocks.deep_view(),
            0 <= bi <= bdv.len(),
            bi + count_pointers(orig.skip(k as int)) == bdv.len(),
            lines.deep_view().len() >= orig_len,
            lines.deep_view().subrange(0, orig_len as int) == orig,
            rest.deep_view() =~= bdv.skip(bi),
            spec_appended(orig, 0, bdv, 0) == lines.deep_view().skip(orig_len as int)
                + spec_appended(orig, k as int, bdv, bi),
            lines_wf(orig),
            lines_wf(lines.deep_view()),
        decreases orig_len - k,
    {
        let is_ptr = match &lines[k].kind {
            LineKind::DataPointer(_) => true,
            LineKind::ImagePointer(_) => true,
            _ => false,
        };
        proof {
            assert(lines.deep_view()[k as int] == orig[k as int]);
            assert(is_ptr == is_pointer(orig[k as int]));
            assert(orig.skip(k as int)[0] == orig[k as int]);
            assert(orig.skip(k as int).skip(1) =~= orig.skip(k as int + 1));
        }
        if is_ptr {
            proof {
                assert(count_pointers(orig.skip(k as int)) == 1 + count_pointers(
                    orig.skip(k as int + 1),
                ));
                assert(spec_appended(orig, k as int, bdv, bi) == seq![
                    data_line_of(orig[k as int], bdv[bi]),
                ] + spec_appended(orig, k as int + 1, bdv, bi + 1));
                assert(rest.deep_view().len() > 0);
            }
            let ghost rest0 = rest.deep_view();
            let b = rest.remove(0);
            proof {
                assert(b@ =~= b.deep_view());
                assert(b.deep_view() == rest0[0]);
                assert(b@ == bdv[bi]);
                assert(rest.deep_view() =~= rest0.skip(1));
                assert(bdv.skip(bi).skip(1) =~= bdv.skip(bi + 1));
            }
            let nl = Line {
                kind: LineKind::Data,
                bytes: b,
                mnemonic: lines[k].mnemonic.clone(),
                operands: clone_tokens(&lines[k].operands),
                file: lines[k].file.clone(),
                line: lines[k].line,
            };
            proof {
                assert(nl.operands.deep_view() == orig[k as int].operands);
                assert(nl@ == data_line_of(orig[k as int], bdv[bi]));
            }
            let ghost before = lines.deep_view();
            lines.push(nl);
            proof {
                assert(lines.deep_view() =~= before.push(data_line_of(orig[k as int], bdv[bi])));
                assert(lines.deep_view().subrange(0, orig_len as int) =~= orig);
                assert(lines.deep_view().skip(orig_len as int) =~= before.skip(orig_len as int)
                    + seq![data_line_of(orig[k as int], bdv[bi])]);
                bi = bi + 1;
                assert(rest.deep_view() =~= bdv.skip(bi));
                assert(before.skip(orig_len as int) + (seq![data_line_of(orig[k as int], bdv[bi - 1])]
                    + spec_appended(orig, k as int + 1, bdv, bi)) =~= lines.deep_view().skip(
                    orig_len as int,
                ) + spec_appended(orig, k as int + 1, bdv, bi));
                assert(orig[k as int].wf());
                assert(lines.deep_view()[lines.deep_view().len() - 1].wf());
            }
        } else {
            proof {
                assert(spec_appended(orig, k as int, bdv, bi) == spec_appended(
                    orig,
                    k as int + 1,
                    bdv,
                    bi,
                ));
            }
        }
        k = k + 1;
    }
    proof {
        assert(spec_appended(orig, orig_len as int, bdv, bi) =~= Seq::<LineModel>::empty());
        assert(lines.deep_view().skip(orig_len as int) + Seq::<LineModel>::empty()
            =~= lines.deep_view().skip(orig_len as int));
        assert(lines.deep_view() =~= orig + lines.deep_view().skip(orig_len as int));
    }
}

/// One forward scan: registers every label and every data block at the
/// address it will occupy, rejecting duplicate names and programs that run
/// past the end of the address space.
pub open spec fn spec_scan_symbols(
    lines: Seq<LineModel>,
    k: int,
    cursor: int,
    labels: Seq<(Seq<char>, int)>,
    data: Seq<(Seq<char>, int)>,
) -> Result<(Seq<(Seq<char>, int)>, Seq<(Seq<char>, int)>), AsmError>
    decreases lines.len() - k,
{
    if k < 0 || k >= lines.len() {
        Ok((labels, data))
    } else {
        let l = lines[k];
        let next = cursor + l.bytes.len();
        match l.kind {
            KindModel::Label => {
                let name = l.mnemonic.drop_last();
                if spec_lookup(labels, name) is Some {
                    Err(AsmError::DuplicateSymbol)
                } else if next > usize::MAX as int {
                    Err(AsmError::AddressOverflow)
                } else {
                    spec_scan_symbols(lines, k + 1, next, labels.push((name, cursor)), data)
                }
            },
            KindModel::Data => {
                let name = l.operands[0];
                if spec_lookup(data, name) is Some {
                    Err(AsmError::DuplicateSymbol)
                } else if next > usize::MAX as int {
                    Err(AsmError::AddressOverflow)
                } else {
                    spec_scan_symbols(lines, k + 1, next, labels, data.push((name, cursor)))
                }
            },
            _ => {
                if next > usize::MAX as int {
                    Err(AsmError::AddressOverflow)
                } else {
                    spec_scan_symbols(lines, k + 1, next, labels, data)
                }
            },
        }
    }
}

/// Builds the symbol tables; on failure names the offending line.
pub fn compute_symbols(lines: &Vec<Line>, align: usize) -> (r: Result<
    SymbolTables,
    (AsmError, usize),
>)
    requires
        lines_wf(lines.deep_view()),
    ensures
        match r {
            Ok(t) => spec_scan_symbols(
                lines.deep_view(),
                0,
                align as int,
                Seq::empty(),
                Seq::empty(),
            ) == Ok::<_, AsmError>((table_view(t.labels@), table_view(t.data_pointers@))),
            Err((e, k)) => spec_scan_symbols(
                lines.deep_view(),
                0,
                align as int,
                Seq::empty(),
                Seq::empty(),
            ) == Err::<(Seq<(Seq<char>, int)>, Seq<(Seq<char>, int)>), _>(e) && k
                < lines.deep_view().len(),
        },
{
    let ghost dv = lines.deep_view();
    let mut labels: Vec<(String, usize)> = Vec::new();
    let mut data: Vec<(String, usize)> = Vec::new();
    let mut cursor: usize = align;
    let mut k: usize = 0;
    proof {
        assert(table_view(labels@) =~= Seq::<(Seq<char>, int)>::empty());
        assert(table_view(data@) =~= Seq::<(Seq<char>, int)>::empty());
    }
    while k < lines.len()
        invariant
            k <= dv.len(),
            dv == lines.deep_view(),
            lines_wf(dv),
            spec_scan_symbols(dv, 0, align as int, Seq::empty(), Seq::empty())
                == spec_scan_symbols(
                dv,
                k as int,
                cursor as int,
                table_view(labels@),
                table_view(data@),
            ),
        decreases dv.len() - k,
    {
        proof {
            assert(dv[k as int] == lines@[k as int]@);
            assert(dv[k as int].wf());
        }
        let l = &lines[k];
        match &l.kind {
            LineKind::Label => {
                let nm = l.mnemonic.as_str();
                let nm_len = nm.unicode_len();
                let name = nm.substring_char(0, nm_len - 1);
                proof {
                    assert(name@ =~= dv[k as int].mnemonic.drop_last());
                }
                match lookup(&labels, name) {
                    Some(_) => {
                        return Err((AsmError::DuplicateSymbol, k));
                    },
                    None => {},
                }
                let ghost lv0 = table_view(labels@);
                labels.push((name.to_owned(), cursor));
                proof {
                    assert(table_view(labels@) =~= lv0.push(
                        (dv[k as int].mnemonic.drop_last(), cursor as int),
                    ));
                }
            },
            LineKind::Data => {
                let name = l.operands[0].as_str();
                proof {
                    assert(name@ == dv[k as int].operands[0]);
                }
                match lookup(&data, name) {
                    Some(_) => {
                        return Err((AsmError::DuplicateSymbol, k));
                    },
                    None => {},
                }
                let ghost dv0 = table_view(data@);
                data.push((name.to_owned(), cursor));
                proof {
                    assert(table_view(data@) =~= dv0.push(
                        (dv[k as int].operands[0], cursor as int),
                    ));
                }
            },
            _ => {},
        }
        match cursor.checked_add(l.bytes.len()) {
            Some(next) => {
                cursor = next;
            },
            None => {
                return Err((AsmError::AddressOverflow, k));
            },
        }
        k = k + 1;
    }
    Ok(SymbolTables { labels, data_pointers: data })
}

/// One line after back-patching: a label fixup takes its label's address in
/// its final four bytes, a data fixup takes its block's address in bytes
/// `[1..5]`, and every other line is untouched.
pub open spec fn spec_patch_line(
    l: LineModel,
    labels: Seq<(Seq<char>, int)>,
    data: Seq<(Seq<char>, int)>,
) -> Result<LineModel, AsmError> {
    match l.kind {
        KindModel::NeedsLabelFixup => match spec_lookup(labels, l.operands.last()) {
            Some(a) => Ok(
                LineModel {
                    bytes: l.bytes.subrange(0, l.bytes.len() - 4) + spec_addr_to_be_bytes(
                        a as usize,
                    ),
                    ..l
                },
            ),
            None => Err(AsmError::UndefinedSymbol),
        },
        KindModel::NeedsDataFixup => match spec_lookup(data, l.operands[1]) {
            Some(a) => Ok(
                LineModel {
                    bytes: l.bytes.subrange(0, 1) + spec_addr_to_be_bytes(a as usize)
                        + l.bytes.subrange(5, l.bytes.len() as int),
                    ..l
                },
            ),
            None => Err(AsmError::UndefinedSymbol),
        },
        _ => Ok(l),
    }
}

/// The whole stream after back-patching, or the first unresolved reference.
pub open spec fn spec_patch(
    lines: Seq<LineModel>,
    labels: Seq<(Seq<char>, int)>,
    data: Seq<(Seq<char>, int)>,
) -> Result<Seq<LineModel>, AsmError>
    decreases lines.len(),
{
    if lines.len() == 0 {
        Ok(Seq::empty())
    } else {
        match spec_patch_line(lines[0], labels, data) {
            Ok(l) => match spec_patch(lines.skip(1), labels, data) {
                Ok(rest) => Ok(seq![l] + rest),
                Err(e) => Err(e),
            },
            Err(e) => Err(e),
        }
    }
}

/// Back-patches every fixup line; on an unresolved symbol, reports the first
/// offending line.
pub fn patch_lines(lines: Vec<Line>, syms: &SymbolTables) -> (r: Result<Vec<Line>, Diagnostic>)
    requires
        lines_wf(lines.deep_view()),
    ensures
        ({
            let p = spec_patch(
                lines.deep_view(),
                table_view(syms.labels@),
                table_view(syms.data_pointers@),
            );
            match r {
                Ok(out) => p == Ok::<_, AsmError>(out.deep_view()),
                Err(d) => p == Err::<Seq<LineModel>, _>(d.kind) && d.kind
                    == AsmError::UndefinedSymbol,
            }
        }),
{
    let ghost orig = lines.deep_view();
    let ghost lv = table_view(syms.labels@);
    let ghost dvv = table_view(syms.data_pointers@);
    let mut rest = lines;
    let mut out: Vec<Line> = Vec::new();
    proof {
        assert(out.deep_view() =~= Seq::<LineModel>::empty());
    }
    while rest.len() > 0
        invariant
            orig == lines.deep_view(),
            lines_wf(orig),
            lv == table_view(syms.labels@),
            dvv == table_view(syms.data_pointers@),
            out.deep_view().len() + rest.deep_view().len() == orig.len(),
            rest.deep_view() =~= orig.skip(out.deep_view().len() as int),
            match spec_patch(rest.deep_view(), lv, dvv) {
                Ok(q) => spec_patch(orig, lv, dvv) == Ok::<_, AsmError>(out.deep_view() + q),
                Err(e) => spec_patch(orig, lv, dvv) == Err::<Seq<LineModel>, _>(e),
            },
        decreases rest.deep_view().len(),
    {
        let ghost pre = rest.deep_view();
        let ghost i = out.deep_view().len() as int;
        proof {
            assert(pre[0] == orig[i]);
            assert(orig[i].wf());
        }
        let mut l = rest.remove(0);
        proof {
            assert(rest.deep_view() =~= pre.skip(1));
            assert(l@ == pre[0]);
        }
        match &l.kind {
            LineKind::NeedsLabelFixup => {
                let target_idx = l.operands.len() - 1;
                let target = l.operands[target_idx].as_str();
                proof {
                    assert(target@ == pre[0].operands.last());
                }
                match lookup(&syms.labels, target) {
                    Some(a) => {
                        let lb = l.bytes.len();
                        let mut nb: Vec<u8> = Vec::new();
                        push_range(&mut nb, &l.bytes, 0, lb - 4);
                        push_addr_be_bytes(&mut nb, a);
                        proof {
                            assert(nb@ =~= pre[0].bytes.subrange(0, pre[0].bytes.len() - 4)
                                + spec_addr_to_be_bytes(a));
                        }
                        l.bytes = nb;
                        proof {
                            assert(spec_patch_line(pre[0], lv, dvv) == Ok::<LineModel, AsmError>(
                                l@,
                            ));
                        }
                    },
                    None => {
                        proof {
                            assert(spec_patch_line(pre[0], lv, dvv) == Err::<LineModel, AsmError>(
                                AsmError::UndefinedSymbol,
                            ));
                            assert(spec_patch(pre, lv, dvv) == Err::<Seq<LineModel>, AsmError>(
                                AsmError::UndefinedSymbol,
                            ));
                        }
                        return Err(
                            Diagnostic {
                                kind: AsmError::UndefinedSymbol,
                                file: l.file,
                                line: l.line,
                            },
                        );
                    },
                }
            },
            LineKind::NeedsDataFixup => {
                let target = l.operands[1].as_str();
                proof {
                    assert(target@ == pre[0].operands[1]);
                }
                match lookup(&syms.data_pointers, target) {
                    Some(a) => {
                        let lb = l.bytes.len();
                        let mut nb: Vec<u8> = Vec::new();
                        push_range(&mut nb, &l.bytes, 0, 1);
                        push_addr_be_bytes(&mut nb, a);
                        push_suffix(&mut nb, &l.bytes, 5);
                        proof {
                            assert(nb@ =~= pre[0].bytes.subrange(0, 1) + spec_addr_to_be_bytes(a)
                                + pre[0].bytes.subrange(5, pre[0].bytes.len() as int));
                        }
                        l.bytes = nb;
                        proof {
                            assert(spec_patch_line(pre[0], lv, dvv) == Ok::<LineModel, AsmError>(
                                l@,
                            ));
                        }
                    },
                    None => {
                        proof {
                            assert(spec_patch_line(pre[0], lv, dvv) == Err::<LineModel, AsmError>(
                                AsmError::UndefinedSymbol,
                            ));
                            assert(spec_patch(pre, lv, dvv) == Err::<Seq<LineModel>, AsmError>(
                                AsmError::UndefinedSymbol,
                            ));
                        }
                        return Err(
                            Diagnostic {
                                kind: AsmError::UndefinedSymbol,
                                file: l.file,
                                line: l.line,
                            },
                        );
                    },
                }
            },
            _ => {
                proof {
                    assert(spec_patch_line(pre[0], lv, dvv) == Ok::<LineModel, AsmError>(l@));
                }
            },
        }
        let ghost out0 = out.deep_view();
        out.push(l);
        proof {
            assert(out.deep_view() =~= out0.push(l@));
            match spec_patch(rest.deep_view(), lv, dvv) {
                Ok(q) => {
                    assert(out0 + (seq![l@] + q) =~= out.deep_view() + q);
                },
                Err(_) => {},
            }
        }
    }
    proof {
        assert(rest.deep_view() =~= Seq::<LineModel>::empty());
        assert(out.deep_view() + Seq::<LineModel>::empty() =~= out.deep_view());
    }
    Ok(out)
}

/// Concatenates every line's bytes into the final image.
pub fn concat_bytes(lines: &Vec<Line>) -> (r: Vec<u8>)
    ensures
        r@ == spec_flatten(lines.deep_view()),
        r@.len() == total_len(lines.deep_view()),
{
    let ghost dv = lines.deep_view();
    let mut r: Vec<u8> = Vec::new();
    let mut k: usize = 0;
    proof {
        assert(dv.subrange(0, 0) =~= Seq::<LineModel>::empty());
    }
    while k < lines.len()
        invariant
            k <= dv.len(),
            dv == lines.deep_view(),
            r@ == spec_flatten(dv.subrange(0, k as int)),
        decreases dv.len() - k,
    {
        let l = &lines[k];
        let lb = l.bytes.len();
        push_range(&mut r, &l.bytes, 0, lb);
        proof {
            assert(dv.subrange(0, k as int + 1).drop_last() =~= dv.subrange(0, k as int));
            assert(dv.subrange(0, k as int + 1).last() == dv[k as int]);
            assert(l.bytes@.subrange(0, lb as int) =~= dv[k as int].bytes);
        }
        k = k + 1;
    }
    proof {
        assert(dv.subrange(0, dv.len() as int) =~= dv);
        lemma_flatten_len(dv);
    }
    r
}

/// The whole layout pipeline: materialize data blocks, place symbols, patch
/// fixups, and emit the image.
pub open spec fn spec_assemble(
    lines: Seq<LineModel>,
    blocks: Seq<Seq<u8>>,
    align: int,
) -> Result<Seq<u8>, AsmError> {
    let expanded = spec_expand(lines, blocks);
    match spec_scan_symbols(expanded, 0, align, Seq::empty(), Seq::empty()) {
        Ok((labels, data)) => match spec_patch(expanded, labels, data) {
            Ok(patched) => Ok(spec_flatten(patched)),
            Err(e) => Err(e),
        },
        Err(e) => Err(e),
    }
}

/// Assembles an encoded line stream into the final binary image.
///
/// `blocks` supplies the bytes of each data block (raw or pixel-decoded), one
/// per directive line, in stream order; `align` is the base address of the
/// first line.
pub fn assemble(lines: Vec<Line>, blocks: Vec<Vec<u8>>, align: usize) -> (r: Result<
    Vec<u8>,
    Diagnostic,
>)
    requires
        lines_wf(lines.deep_view()),
        blocks@.len() == count_pointers(lines.deep_view()),
    ensures
        ({
            let a = spec_assemble(lines.deep_view(), blocks.deep_view(), align as int);
            match r {
                Ok(img) => a == Ok::<Seq<u8>, AsmError>(img@),
                Err(d) => a == Err::<Seq<u8>, _>(d.kind),
            }
        }),
{
    let mut lines = lines;
    expand_data_blocks(&mut lines, blocks);
    let syms = match compute_symbols(&lines, align) {
        Ok(t) => t,
        Err((e, k)) => {
            let l = &lines[k];
            return Err(Diagnostic { kind: e, file: l.file.clone(), line: l.line });
        },
    };
    let patched = match patch_lines(lines, &syms) {
        Ok(p) => p,
        Err(d) => {
            return Err(d);
        },
    };
    Ok(concat_bytes(&patched))
}

} // verus!
