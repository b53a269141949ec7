//! Operand classification.
//!
//! A textual operand token becomes one of four variants: an integer register,
//! a floating point register, a 64-bit literal (stored as its eight big-endian
//! bytes), or a symbol reference whose four placeholder bytes are filled in by
//! the layout pass.

use vstd::prelude::*;
use crate::bebytes::spec_u64_to_be_bytes;
use crate::bebytes::u64_to_be_bytes;
use crate::errors::AsmError;

verus! {

/// A classified operand.
#[derive(Debug)]
pub enum Arg {
    /// A floating point register index (`fNN`, hexadecimal).
    Freg(u8),
    /// An integer register index (`rNN`, hexadecimal).
    Ureg(u8),
    /// A numeric literal as eight big-endian bytes.
    Liter(Vec<u8>),
    /// An unresolved symbol; the encoder reserves four zero bytes for it.
    Label,
}

/// The model of an operand.
pub enum ArgModel {
    Freg(u8),
    Ureg(u8),
    Liter(Seq<u8>),
    Label,
}

impl View for Arg {
    type V = ArgModel;

    open spec fn view(&self) -> ArgModel {
        match self {
            Arg::Freg(n) => ArgModel::Freg(*n),
            Arg::Ureg(n) => ArgModel::Ureg(*n),
            Arg::Liter(b) => ArgModel::Liter(b@),
            Arg::Label => ArgModel::Label,
        }
    }
}

impl DeepView for Arg {
    type V = ArgModel;

    open spec fn deep_view(&self) -> ArgModel {
        self@
    }
}

impl ArgModel {
    /// A literal always carries exactly the eight bytes of a `u64`.
    pub open spec fn wf(self) -> bool {
        match self {
            ArgModel::Liter(n) => n.len() == 8,
            _ => true,
        }
    }
}

/// The numeric value of `c` as a digit under `radix`, if it is one.
/// Letter digits may be either case, exactly as `from_str_radix` takes them.
pub open spec fn spec_digit_val(c: char, radix: int) -> Option<int> {
    let v: int = if '0' <= c && c <= '9' {
        c as int - '0' as int
    } else if 'a' <= c && c <= 'z' {
        c as int - 'a' as int + 10
    } else if 'A' <= c && c <= 'Z' {
        c as int - 'A' as int + 10
    } else {
        -1
    };
    if 0 <= v && v < radix {
        Some(v)
    } else {
        None
    }
}

/// The value of a digit string under `radix`; `None` if any character is not
/// a digit. The empty string has value 0 here; `spec_parse_radix` rejects it.
pub open spec fn spec_digits_val(s: Seq<char>, radix: int) -> Option<int>
    decreases s.len(),
{
    if s.len() == 0 {
        Some(0)
    } else {
        match (spec_digits_val(s.drop_last(), radix), spec_digit_val(s.last(), radix)) {
            (Some(v), Some(d)) => Some(v * radix + d),
            _ => None,
        }
    }
}

/// What parsing a numeral under `radix` yields: the exact mathematical value,
/// or `None` for an empty string or one with a non-digit.
pub open spec fn spec_parse_radix(s: Seq<char>, radix: int) -> Option<int> {
    if s.len() == 0 {
        None
    } else {
        spec_digits_val(s, radix)
    }
}

/// One bad digit anywhere makes the whole string unparsable.
proof fn lemma_digits_val_bad(s: Seq<char>, radix: int, i: int)
    requires
        0 <= i < s.len(),
        spec_digit_val(s[i], radix) is None,
    ensures
        spec_digits_val(s, radix) is None,
    decreases s.len(),
{
    if i < s.len() - 1 {
        lemma_digits_val_bad(s.drop_last(), radix, i);
    }
}

/// The numeric value of `c` as a digit under `radix`, if it is one.
fn digit_val(c: char, radix: u128) -> (r: Option<u8>)
    requires
        radix <= 36,
    ensures
        match r {
            Some(d) => spec_digit_val(c, radix as int) == Some(d as int),
            None => spec_digit_val(c, radix as int) is None,
        },
{
    let v: i32 = if c >= '0' && c <= '9' {
        c as i32 - 48
    } else if c >= 'a' && c <= 'z' {
        c as i32 - 97 + 10
    } else if c >= 'A' && c <= 'Z' {
        c as i32 - 65 + 10
    } else {
        -1
    };
    if 0 <= v && (v as u128) < radix {
        Some(v as u8)
    } else {
        None
    }
}

/// Parses `s[from..]` as a numeral under `radix`.
///
/// Returns the exact value when it fits in a `u128`; `None` both for an
/// unparsable string and for a value beyond `u128::MAX` (the contract tells
/// the two apart through `spec_parse_radix`).
pub fn parse_radix(s: &str, from: usize, radix: u128) -> (r: Option<u128>)
    requires
        from as int <= s@.len(),
        radix == 10 || radix == 16,
    ensures
        ({
            let p = spec_parse_radix(s@.skip(from as int), radix as int);
            match r {
                Some(v) => p == Some(v as int),
                None => p is None || p.unwrap() > u128::MAX as int,
            }
        }),
{
    let len = s.unicode_len();
    let mut i: usize = from;
    let mut acc: u128 = 0;
    let mut ovf: bool = false;
    let ghost mut gv: int = 0;
    while i < len
        invariant
            from <= i <= len,
            len == s@.len(),
            radix == 10 || radix == 16,
            spec_digits_val(s@.subrange(from as int, i as int), radix as int) == Some(gv),
            gv >= 0,
            !ovf ==> acc as int == gv,
            ovf ==> gv > u128::MAX as int,
        decreases len - i,
    {
        let c = s.get_char(i);
        let d = match digit_val(c, radix) {
            Some(d) => d,
            None => {
                proof {
                    let whole = s@.skip(from as int);
                    assert(whole =~= s@.subrange(from as int, len as int));
                    assert(whole[i - from] == s@[i as int]);
                    lemma_digits_val_bad(whole, radix as int, i - from);
                }
                return None;
            },
        };
        let ghost gv0 = gv;
        proof {
            gv = gv0 * (radix as int) + (d as int);
            assert(s@.subrange(from as int, i as int + 1).drop_last() =~= s@.subrange(
                from as int,
                i as int,
            ));
            assert(s@.subrange(from as int, i as int + 1).last() == s@[i as int]);
        }
        if !ovf {
            match acc.checked_mul(radix) {
                Some(m) => {
                    match m.checked_add(d as u128) {
                        Some(n) => {
                            acc = n;
                        },
                        None => {
                            ovf = true;
                        },
                    }
                },
                None => {
                    ovf = true;
                    proof {
                        assert(gv0 * (radix as int) > u128::MAX as int);
                    }
                },
            }
        } else {
            proof {
                assert(gv0 * (radix as int) >= gv0) by (nonlinear_arith)
                    requires
                        gv0 >= 0,
                        radix >= 1,
                ;
            }
        }
        i = i + 1;
    }
    proof {
        assert(s@.skip(from as int) =~= s@.subrange(from as int, len as int));
    }
    if i == from {
        // the numeral was empty
        return None;
    }
    if ovf {
        None
    } else {
        Some(acc)
    }
}

/// Tokens have their underscores stripped before classification.
pub open spec fn spec_strip_underscores(s: Seq<char>) -> Seq<char> {
    s.filter(|c: char| c != '_')
}

/// Removes every underscore from `s`.
pub fn strip_underscores(s: &str) -> (r: String)
    ensures
        r@ == spec_strip_underscores(s@),
{
    let len = s.unicode_len();
    let mut r = String::new();
    let mut i: usize = 0;
    while i < len
        invariant
            i <= len,
            len == s@.len(),
            r@ == spec_strip_underscores(s@.subrange(0, i as int)),
        decreases len - i,
    {
        let c = s.get_char(i);
        if c != '_' {
            r.append(s.substring_char(i, i + 1));
        }
        proof {
            reveal(Seq::filter);
            let prefix = s@.subrange(0, i as int);
            let next = s@.subrange(0, i as int + 1);
            assert(next.drop_last() =~= prefix);
            assert(next.last() == s@[i as int]);
            if s@[i as int] != '_' {
                assert(spec_strip_underscores(next) == spec_strip_underscores(prefix).push(
                    s@[i as int],
                ));
                assert(s@.subrange(i as int, i as int + 1) =~= seq![s@[i as int]]);
                assert(r@ =~= spec_strip_underscores(prefix).push(s@[i as int]));
            } else {
                assert(spec_strip_underscores(next) == spec_strip_underscores(prefix));
            }
        }
        i = i + 1;
    }
    proof {
        assert(s@.subrange(0, len as int) =~= s@);
    }
    r
}

/// The classification: how the stripped token reads.
///
/// In order: a 2- or 3-character token headed `r` or `f` is a register index
/// in hexadecimal; a token headed `&` is a hexadecimal `u64` literal; a string
/// of decimal digits is a decimal literal, rejected when it does not fit a
/// `u64` but still fits a `u128`; everything else is a symbol reference.
pub open spec fn spec_resolve_arg(s: Seq<char>) -> Result<ArgModel, AsmError> {
    let t = spec_strip_underscores(s);
    if t.len() > 0 && t[0] == 'r' && t.len() < 4 {
        match spec_parse_radix(t.skip(1), 16) {
            Some(v) => if 0 <= v <= 255 {
                Ok(ArgModel::Ureg(v as u8))
            } else {
                Err(AsmError::InvalidRegisterIndex)
            },
            None => Err(AsmError::InvalidRegisterIndex),
        }
    } else if t.len() > 0 && t[0] == 'f' && t.len() < 4 {
        match spec_parse_radix(t.skip(1), 16) {
            Some(v) => if 0 <= v <= 255 {
                Ok(ArgModel::Freg(v as u8))
            } else {
                Err(AsmError::InvalidRegisterIndex)
            },
            None => Err(AsmError::InvalidRegisterIndex),
        }
    } else if t.len() > 0 && t[0] == '&' {
        match spec_parse_radix(t.skip(1), 16) {
            Some(v) => if 0 <= v <= u64::MAX as int {
                Ok(ArgModel::Liter(spec_u64_to_be_bytes(v as u64)))
            } else {
                Err(AsmError::InvalidHexLiteral)
            },
            None => Err(AsmError::InvalidHexLiteral),
        }
    } else {
        match spec_parse_radix(t, 10) {
            Some(v) => if 0 <= v <= u64::MAX as int {
                Ok(ArgModel::Liter(spec_u64_to_be_bytes(v as u64)))
            } else if v <= u128::MAX as int {
                Err(AsmError::LiteralOverflow)
            } else {
                Ok(ArgModel::Label)
            },
            None => Ok(ArgModel::Label),
        }
    }
}

/// Classifies one operand token.
pub fn resolve_arg(arg: String) -> (r: Result<Arg, AsmError>)
    ensures
        match r {
            Ok(a) => spec_resolve_arg(arg@) == Ok::<ArgModel, AsmError>(a@) && a@.wf(),
            Err(e) => spec_resolve_arg(arg@) == Err::<ArgModel, AsmError>(e),
        },
{
    let t = strip_underscores(arg.as_str());
    let ts = t.as_str();
    let tlen = ts.unicode_len();
    if tlen > 0 && ts.get_char(0) == 'r' && tlen < 4 {
        match parse_radix(ts, 1, 16) {
            Some(v) => {
                if v <= 255 {
                    Ok(Arg::Ureg(v as u8))
                } else {
                    Err(AsmError::InvalidRegisterIndex)
                }
            },
            None => Err(AsmError::InvalidRegisterIndex),
        }
    } else if tlen > 0 && ts.get_char(0) == 'f' && tlen < 4 {
        match parse_radix(ts, 1, 16) {
            Some(v) => {
                if v <= 255 {
                    Ok(Arg::Freg(v as u8))
                } else {
                    Err(AsmError::InvalidRegisterIndex)
                }
            },
            None => Err(AsmError::InvalidRegisterIndex),
        }
    } else if tlen > 0 && ts.get_char(0) == '&' {
        match parse_radix(ts, 1, 16) {
            Some(v) => {
                if v <= u64::MAX as u128 {
                    Ok(Arg::Liter(u64_to_be_bytes(v as u64)))
                } else {
                    Err(AsmError::InvalidHexLiteral)
                }
            },
            None => Err(AsmError::InvalidHexLiteral),
        }
    } else {
        proof {
            assert(ts@.skip(0) =~= ts@);
        }
        match parse_radix(ts, 0, 10) {
            Some(v) => {
                if v <= u64::MAX as u128 {
                    Ok(Arg::Liter(u64_to_be_bytes(v as u64)))
                } else {
                    Err(AsmError::LiteralOverflow)
                }
            },
            None => Ok(Arg::Label),
        }
    }
}

} // verus!
