//! The lexer: source text to encoded line records.
//!
//! A file is first normalized (carriage returns dropped, continuation lines
//! joined, commas turned to spaces, double spaces collapsed four times over,
//! `0x` rewritten to `&`, the whole trimmed), then stripped of `;` comments.
//! Each remaining non-empty line is a label, a `#` directive, or an
//! instruction handed to the encoder.

use vstd::prelude::*;
use crate::encode::args_wf;
use crate::encode::resolve_inst;
use crate::encode::spec_encode_inst;
use crate::encode::lemma_encode_inst_fixup_wf;
use crate::errors::AsmError;
use crate::errors::Diagnostic;
use crate::line::KindModel;
use crate::line::Line;
use crate::line::LineKind;
use crate::line::LineModel;
use crate::line::lines_wf;
use crate::operand::Arg;
use crate::operand::ArgModel;
use crate::operand::resolve_arg;
use crate::operand::spec_resolve_arg;
use crate::text::eq_ignore_case;
use crate::text::replace_str;
use crate::text::spec_lower_seq;
use crate::text::spec_replace;
use crate::text::spec_split;
use crate::text::spec_strip_comments;
use crate::text::spec_trim;
use crate::text::split_str;
use crate::text::strip_comments;
use crate::text::trim_str;

verus! {

/// The textual normalization a source file goes through before tokenizing.
pub open spec fn spec_normalize(t: Seq<char>) -> Seq<char> {
    let a = spec_replace(t, "\r"@, ""@);
    let b = spec_replace(a, "\\\n"@, " "@);
    let c = spec_replace(b, ", "@, " "@);
    let d = spec_replace(c, ","@, " "@);
    let e = spec_replace(d, "  "@, " "@);
    let f = spec_replace(e, "  "@, " "@);
    let g = spec_replace(f, "  "@, " "@);
    let h = spec_replace(g, "  "@, " "@);
    let i = spec_replace(h, "0x"@, "&"@);
    spec_trim(i)
}

/// A file's statement lines: normalized, comments removed, split at newlines.
pub open spec fn spec_source_lines(t: Seq<char>) -> Seq<Seq<char>> {
    spec_split(spec_strip_comments(spec_normalize(t), false), '\n')
}

/// Classifies the operand tokens in order, stopping at the first bad one.
pub open spec fn spec_args_of(tokens: Seq<Seq<char>>) -> Result<Seq<ArgModel>, AsmError>
    decreases tokens.len(),
{
    if tokens.len() == 0 {
        Ok(Seq::empty())
    } else {
        match spec_resolve_arg(tokens[0]) {
            Ok(a) => match spec_args_of(tokens.skip(1)) {
                Ok(rest) => Ok(seq![a] + rest),
                Err(e) => Err(e),
            },
            Err(e) => Err(e),
        }
    }
}

/// Classified token lists are as long as their token lists.
pub proof fn lemma_args_of_len(tokens: Seq<Seq<char>>)
    ensures
        spec_args_of(tokens) matches Ok(ms) ==> ms.len() == tokens.len(),
    decreases tokens.len(),
{
    if tokens.len() > 0 {
        lemma_args_of_len(tokens.skip(1));
    }
}

/// What one non-empty statement line becomes: a label record for a trailing
/// colon, a data-block directive for a leading `#`, and otherwise an encoded
/// instruction record.
#[verifier::opaque]
pub open spec fn spec_classify(file: Seq<char>, lineno: usize, line: Seq<char>) -> Result<
    LineModel,
    AsmError,
> {
    let parts = spec_split(line, ' ');
    let mn = parts[0];
    if mn.len() > 0 && mn.last() == ':' {
        Ok(
            LineModel {
                kind: KindModel::Label,
                bytes: Seq::empty(),
                mnemonic: mn,
                operands: parts.skip(1),
                file: file,
                line: lineno,
            },
        )
    } else if mn.len() > 0 && mn[0] == '#' {
        let cmd = spec_lower_seq(mn.skip(1));
        if cmd == "image"@ {
            if parts.len() < 3 {
                Err(AsmError::InvalidArgumentCount)
            } else {
                Ok(
                    LineModel {
                        kind: KindModel::ImagePointer(parts[2]),
                        bytes: Seq::empty(),
                        mnemonic: mn,
                        operands: parts.skip(1),
                        file: file,
                        line: lineno,
                    },
                )
            }
        } else if cmd == "bytes"@ {
            if parts.len() < 3 {
                Err(AsmError::InvalidArgumentCount)
            } else {
                Ok(
                    LineModel {
                        kind: KindModel::DataPointer(parts[2]),
                        bytes: Seq::empty(),
                        mnemonic: mn,
                        operands: parts.skip(1),
                        file: file,
                        line: lineno,
                    },
                )
            }
        } else {
            Err(AsmError::UnknownDirective)
        }
    } else {
        match spec_args_of(parts.skip(1)) {
            Ok(models) => match spec_encode_inst(mn, models) {
                Ok(p) => Ok(
                    LineModel {
                        kind: p.1@,
                        bytes: p.0,
                        mnemonic: mn,
                        operands: parts.skip(1),
                        file: file,
                        line: lineno,
                    },
                ),
                Err(e) => Err(e),
            },
            Err(e) => Err(e),
        }
    }
}

/// The records of `ls[k..]`: empty lines skipped, the rest classified; an
/// error carries its 1-based line number.
pub open spec fn spec_lex_lines(file: Seq<char>, ls: Seq<Seq<char>>, k: int) -> Result<
    Seq<LineModel>,
    (AsmError, int),
>
    decreases ls.len() - k,
{
    if k < 0 || k >= ls.len() {
        Ok(Seq::empty())
    } else {
        let lt = spec_trim(ls[k]);
        if lt.len() == 0 {
            spec_lex_lines(file, ls, k + 1)
        } else {
            match spec_classify(file, (k + 1) as usize, lt) {
                Ok(l) => match spec_lex_lines(file, ls, k + 1) {
                    Ok(rest) => Ok(seq![l] + rest),
                    Err(p) => Err(p),
                },
                Err(e) => Err((e, k + 1)),
            }
        }
    }
}

/// The records of one whole source file.
pub open spec fn spec_lex_source(file: Seq<char>, text: Seq<char>) -> Result<
    Seq<LineModel>,
    (AsmError, int),
> {
    spec_lex_lines(file, spec_source_lines(text), 0)
}

/// Splitting yields at least one piece.
proof fn lemma_split_len(s: Seq<char>, sep: char)
    ensures
        spec_split(s, sep).len() >= 1,
    decreases s.len(),
{
    if s.len() > 0 {
        lemma_split_len(s.drop_last(), sep);
    }
}

/// Classifies one non-empty statement line into a record.
fn classify_line(file: &str, lineno: usize, line: &str) -> (r: Result<Line, AsmError>)
    ensures
        match r {
            Ok(l) => spec_classify(file@, lineno, line@) == Ok::<LineModel, AsmError>(l@)
                && l@.wf(),
            Err(e) => spec_classify(file@, lineno, line@) == Err::<LineModel, AsmError>(e),
        },
{
    proof {
        reveal(spec_classify);
    }
    let ghost sparts = spec_split(line@, ' ');
    let mut parts = split_str(line, ' ');
    proof {
        lemma_split_len(line@, ' ');
        assert(parts.deep_view()[0] == sparts[0]);
    }
    let mnemonic = parts.remove(0);
    let operands = parts;
    proof {
        assert(mnemonic@ == sparts[0]);
        assert(operands.deep_view() =~= sparts.skip(1));
    }
    let ms = mnemonic.as_str();
    let mlen = ms.unicode_len();
    if mlen > 0 && ms.get_char(mlen - 1) == ':' {
        let l = Line {
            kind: LineKind::Label,
            bytes: Vec::new(),
            mnemonic,
            operands,
            file: file.to_owned(),
            line: lineno,
        };
        proof {
            assert(l@.mnemonic.last() == ':');
        }
        Ok(l)
    } else if mlen > 0 && ms.get_char(0) == '#' {
        let cmd = ms.substring_char(1, mlen);
        proof {
            assert(cmd@ =~= sparts[0].skip(1));
        }
        if eq_ignore_case(cmd, "image") {
            if operands.len() < 2 {
                proof {
                    assert(sparts.skip(1).len() == sparts.len() - 1);
                }
                Err(AsmError::InvalidArgumentCount)
            } else {
                let path = operands[1].clone();
                proof {
                    assert(path@ == sparts[2]);
                }
                Ok(
                    Line {
                        kind: LineKind::ImagePointer(path),
                        bytes: Vec::new(),
                        mnemonic,
                        operands,
                        file: file.to_owned(),
                        line: lineno,
                    },
                )
            }
        } else if eq_ignore_case(cmd, "bytes") {
            if operands.len() < 2 {
                proof {
                    assert(sparts.skip(1).len() == sparts.len() - 1);
                }
                Err(AsmError::InvalidArgumentCount)
            } else {
                let path = operands[1].clone();
                proof {
                    assert(path@ == sparts[2]);
                }
                Ok(
                    Line {
                        kind: LineKind::DataPointer(path),
                        bytes: Vec::new(),
                        mnemonic,
                        operands,
                        file: file.to_owned(),
                        line: lineno,
                    },
                )
            }
        } else {
            Err(AsmError::UnknownDirective)
        }
    } else {
        let ghost toks = sparts.skip(1);
        let mut args: Vec<Arg> = Vec::new();
        let mut i: usize = 0;
        proof {
            assert(toks.skip(0) =~= toks);
            match spec_args_of(toks) {
                Ok(ms2) => {
                    assert(Seq::<ArgModel>::empty() + ms2 =~= ms2);
                },
                Err(_) => {},
            }
        }
        while i < operands.len()
            invariant
                i <= operands@.len(),
                operands.deep_view() == toks,
                toks == spec_split(line@, ' ').skip(1),
                mnemonic@ == spec_split(line@, ' ')[0],
                !(mnemonic@.len() > 0 && mnemonic@.last() == ':'),
                !(mnemonic@.len() > 0 && mnemonic@[0] == '#'),
                args@.len() == i,
                args_wf(args.deep_view()),
                match spec_args_of(toks.skip(i as int)) {
                    Ok(ms2) => spec_args_of(toks) == Ok::<Seq<ArgModel>, AsmError>(
                        args.deep_view() + ms2,
                    ),
                    Err(e) => spec_args_of(toks) == Err::<Seq<ArgModel>, AsmError>(e),
                },
            decreases operands@.len() - i,
        {
            proof {
                assert(toks.skip(i as int)[0] == toks[i as int]);
                assert(toks.skip(i as int).skip(1) =~= toks.skip(i as int + 1));
                assert(toks.skip(i as int).len() > 0);
            }
            let tok = operands[i].clone();
            proof {
                assert(tok@ == toks[i as int]);
            }
            match resolve_arg(tok) {
                Ok(a) => {
                    let ghost adv0 = args.deep_view();
                    let ghost av = a@;
                    args.push(a);
                    proof {
                        assert(args.deep_view() =~= adv0.push(av));
                        match spec_args_of(toks.skip(i as int + 1)) {
                            Ok(ms2) => {
                                assert(adv0 + (seq![av] + ms2) =~= args.deep_view() + ms2);
                            },
                            Err(_) => {},
                        }
                    }
                },
                Err(e) => {
                    proof {
                        reveal(spec_classify);
                        assert(spec_args_of(toks.skip(i as int)) == Err::<Seq<ArgModel>, AsmError>(
                            e,
                        ));
                    }
                    return Err(e);
                },
            }
            i = i + 1;
        }
        proof {
            assert(toks.skip(toks.len() as int) =~= Seq::<Seq<char>>::empty());
            assert(args.deep_view() + Seq::<ArgModel>::empty() =~= args.deep_view());
            lemma_args_of_len(toks);
        }
        let ghost models = args.deep_view();
        match resolve_inst(mnemonic.clone(), args) {
            Ok(p) => {
                proof {
                    lemma_encode_inst_fixup_wf(mnemonic@, models);
                }
                let (bytes, kind) = p;
                Ok(
                    Line {
                        kind,
                        bytes,
                        mnemonic,
                        operands,
                        file: file.to_owned(),
                        line: lineno,
                    },
                )
            },
            Err(e) => Err(e),
        }
    }
}

/// Lexes one source file into its line records.
pub fn lex_source(file: &str, text: &str) -> (r: Result<Vec<Line>, Diagnostic>)
    ensures
        match r {
            Ok(lines) => spec_lex_source(file@, text@) == Ok::<Seq<LineModel>, (AsmError, int)>(
                lines.deep_view(),
            ) && lines_wf(lines.deep_view()),
            Err(d) => spec_lex_source(file@, text@) matches Err(p) && d.kind == p.0 && d.line
                == p.1 && d.file@ == file@,
        },
{
    proof {
        reveal_strlit("\r");
        reveal_strlit("\\\n");
        reveal_strlit(", ");
        reveal_strlit(",");
        reveal_strlit("  ");
        reveal_strlit("0x");
    }
    let a = replace_str(text, "\r", "");
    let b = replace_str(a.as_str(), "\\\n", " ");
    let c = replace_str(b.as_str(), ", ", " ");
    let d = replace_str(c.as_str(), ",", " ");
    let e = replace_str(d.as_str(), "  ", " ");
    let f = replace_str(e.as_str(), "  ", " ");
    let g = replace_str(f.as_str(), "  ", " ");
    let h = replace_str(g.as_str(), "  ", " ");
    let i = replace_str(h.as_str(), "0x", "&");
    let t = trim_str(i.as_str());
    let stripped = strip_comments(t.as_str());
    let pieces = split_str(stripped.as_str(), '\n');
    let ghost ls = spec_source_lines(text@);
    proof {
        assert(pieces.deep_view() == ls);
    }
    let mut out: Vec<Line> = Vec::new();
    let mut li: usize = 0;
    proof {
        match spec_lex_lines(file@, ls, 0) {
            Ok(rest) => {
                assert(Seq::<LineModel>::empty() + rest =~= rest);
            },
            Err(_) => {},
        }
    }
    while li < pieces.len()
        invariant
            li <= ls.len(),
            ls == pieces.deep_view(),
            ls == spec_source_lines(text@),
            lines_wf(out.deep_view()),
            match spec_lex_lines(file@, ls, li as int) {
                Ok(rest) => spec_lex_lines(file@, ls, 0) == Ok::<Seq<LineModel>, (AsmError, int)>(
                    out.deep_view() + rest,
                ),
                Err(p) => spec_lex_lines(file@, ls, 0) == Err::<Seq<LineModel>, (AsmError, int)>(
                    p,
                ),
            },
        decreases ls.len() - li,
    {
        let lt = trim_str(pieces[li].as_str());
        proof {
            assert(pieces.deep_view()[li as int] == ls[li as int]);
            assert(lt@ == spec_trim(ls[li as int]));
        }
        if !lt.as_str().is_empty() {
            match classify_line(file, li + 1, lt.as_str()) {
                Ok(l) => {
                    let ghost out0 = out.deep_view();
                    let ghost lv = l@;
                    out.push(l);
                    proof {
                        assert(out.deep_view() =~= out0.push(lv));
                        match spec_lex_lines(file@, ls, li as int + 1) {
                            Ok(rest) => {
                                assert(out0 + (seq![lv] + rest) =~= out.deep_view() + rest);
                            },
                            Err(_) => {},
                        }
                    }
                },
                Err(e) => {
                    proof {
                        assert(spec_lex_lines(file@, ls, li as int) == Err::<
                            Seq<LineModel>,
                            (AsmError, int),
                        >((e, li as int + 1)));
                    }
                    return Err(Diagnostic { kind: e, file: file.to_owned(), line: li + 1 });
                },
            }
        }
        li = li + 1;
    }
    proof {
        assert(out.deep_view() + Seq::<LineModel>::empty() =~= out.deep_view());
    }
    Ok(out)
}

/// The records of a sequence of source files, one after the other: each entry
/// is a file's path and its text.
pub open spec fn spec_lex_sources(files: Seq<(Seq<char>, Seq<char>)>) -> Result<
    Seq<LineModel>,
    (Seq<char>, AsmError, int),
>
    decreases files.len(),
{
    if files.len() == 0 {
        Ok(Seq::empty())
    } else {
        match spec_lex_source(files[0].0, files[0].1) {
            Ok(ls) => match spec_lex_sources(files.skip(1)) {
                Ok(rest) => Ok(ls + rest),
                Err(p) => Err(p),
            },
            Err((e, ln)) => Err((files[0].0, e, ln)),
        }
    }
}

/// Lexes a run's source files, in order, into one line stream.
pub fn lex_sources(files: &Vec<(String, String)>) -> (r: Result<Vec<Line>, Diagnostic>)
    ensures
        match r {
            Ok(lines) => spec_lex_sources(files.deep_view()) == Ok::<
                Seq<LineModel>,
                (Seq<char>, AsmError, int),
            >(lines.deep_view()) && lines_wf(lines.deep_view()),
            Err(d) => spec_lex_sources(files.deep_view()) matches Err(p) && d.file@ == p.0
                && d.kind == p.1 && d.line == p.2,
        },
{
    let ghost fdv = files.deep_view();
    let mut out: Vec<Line> = Vec::new();
    let mut i: usize = 0;
    proof {
        assert(fdv.skip(0) =~= fdv);
        match spec_lex_sources(fdv) {
            Ok(rest) => {
                assert(Seq::<LineModel>::empty() + rest =~= rest);
            },
            Err(_) => {},
        }
    }
    while i < files.len()
        invariant
            i <= fdv.len(),
            fdv == files.deep_view(),
            lines_wf(out.deep_view()),
            match spec_lex_sources(fdv.skip(i as int)) {
                Ok(rest) => spec_lex_sources(fdv) == Ok::<
                    Seq<LineModel>,
                    (Seq<char>, AsmError, int),
                >(out.deep_view() + rest),
                Err(p) => spec_lex_sources(fdv) == Err::<Seq<LineModel>, _>(p),
            },
        decreases fdv.len() - i,
    {
        proof {
            assert(fdv.skip(i as int)[0] == fdv[i as int]);
            assert(fdv.skip(i as int).skip(1) =~= fdv.skip(i as int + 1));
            assert(fdv[i as int] == (files@[i as int].0@, files@[i as int].1@));
        }
        let p = &files[i];
        match lex_source(p.0.as_str(), p.1.as_str()) {
            Ok(ls) => {
                let ghost out0 = out.deep_view();
                let ghost lsv = ls.deep_view();
                let mut ls = ls;
                out.append(&mut ls);
                proof {
                    assert(out.deep_view() =~= out0 + lsv);
                    match spec_lex_sources(fdv.skip(i as int + 1)) {
                        Ok(rest) => {
                            assert(out0 + (lsv + rest) =~= out.deep_view() + rest);
                        },
                        Err(_) => {},
                    }
                }
            },
            Err(d) => {
                return Err(d);
            },
        }
        i = i + 1;
    }
    proof {
        assert(fdv.skip(fdv.len() as int) =~= Seq::<(Seq<char>, Seq<char>)>::empty());
        assert(out.deep_view() + Seq::<LineModel>::empty() =~= out.deep_view());
    }
    Ok(out)
}

} // verus!
