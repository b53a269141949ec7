//! Verified text utilities: comparison, case folding, and the source
//! normalization the lexer performs before tokenizing.

use vstd::prelude::*;

verus! {

/// ASCII lower-casing of one character; everything else is untouched.
pub open spec fn spec_lower(c: char) -> char {
    if 'A' <= c && c <= 'Z' {
        ((c as u8) + 32) as char
    } else {
        c
    }
}

/// ASCII lower-casing of a whole string.
pub open spec fn spec_lower_seq(s: Seq<char>) -> Seq<char> {
    Seq::new(s.len(), |i: int| spec_lower(s[i]))
}

/// ASCII lower-casing of one character.
pub fn lower_char(c: char) -> (r: char)
    ensures
        r == spec_lower(c),
{
    if c >= 'A' && c <= 'Z' {
        ((c as u8) + 32) as char
    } else {
        c
    }
}

/// True exactly when `s`, lower-cased, reads `kw`.
pub fn eq_ignore_case(s: &str, kw: &str) -> (r: bool)
    ensures
        r == (spec_lower_seq(s@) == kw@),
{
    let n = s.unicode_len();
    let m = kw.unicode_len();
    if n != m {
        assert(spec_lower_seq(s@).len() != kw@.len());
        return false;
    }
    let mut i: usize = 0;
    while i < n
        invariant
            i <= n,
            n == s@.len() == kw@.len(),
            forall|j: int| 0 <= j < i ==> spec_lower(s@[j]) == kw@[j],
        decreases n - i,
    {
        if lower_char(s.get_char(i)) != kw.get_char(i) {
            assert(spec_lower_seq(s@)[i as int] != kw@[i as int]);
            return false;
        }
        i = i + 1;
    }
    assert(spec_lower_seq(s@) =~= kw@);
    true
}

/// Replacement, leftmost first and without rescanning what was substituted,
/// exactly as `str::replace` walks a string.
pub open spec fn spec_replace(s: Seq<char>, pat: Seq<char>, rep: Seq<char>) -> Seq<char>
    recommends
        pat.len() >= 1,
    decreases s.len(),
{
    if pat.len() == 0 || s.len() < pat.len() {
        s
    } else if s.subrange(0, pat.len() as int) == pat {
        rep + spec_replace(s.skip(pat.len() as int), pat, rep)
    } else {
        seq![s[0]] + spec_replace(s.skip(1), pat, rep)
    }
}

/// True exactly when `pat` reads at position `i` of `s`.
fn matches_at(s: &str, i: usize, pat: &str) -> (r: bool)
    requires
        i + pat@.len() <= s@.len(),
    ensures
        r == (s@.subrange(i as int, i as int + pat@.len()) == pat@),
{
    let sn = s.unicode_len();
    let m = pat.unicode_len();
    let mut j: usize = 0;
    while j < m
        invariant
            j <= m,
            m == pat@.len(),
            sn == s@.len(),
            i + m <= s@.len(),
            forall|x: int| 0 <= x < j ==> s@[i + x] == pat@[x],
        decreases m - j,
    {
        if s.get_char(i + j) != pat.get_char(j) {
            assert(s@.subrange(i as int, i as int + pat@.len())[j as int] != pat@[j as int]);
            return false;
        }
        j = j + 1;
    }
    assert(s@.subrange(i as int, i as int + pat@.len()) =~= pat@);
    true
}

/// Replaces every occurrence of `pat` in `s` by `rep`.
pub fn replace_str(s: &str, pat: &str, rep: &str) -> (r: String)
    requires
        pat@.len() >= 1,
    ensures
        r@ == spec_replace(s@, pat@, rep@),
{
    let n = s.unicode_len();
    let m = pat.unicode_len();
    let mut r = String::new();
    let mut i: usize = 0;
    proof {
        assert(s@.skip(0) =~= s@);
        assert(Seq::<char>::empty() + spec_replace(s@, pat@, rep@) =~= spec_replace(
            s@,
            pat@,
            rep@,
        ));
    }
    while i < n
        invariant
            i <= n,
            n == s@.len(),
            m == pat@.len(),
            m >= 1,
            spec_replace(s@, pat@, rep@) == r@ + spec_replace(s@.skip(i as int), pat@, rep@),
        decreases n - i,
    {
        let ghost r0 = r@;
        let ghost restp = s@.skip(i as int);
        if m <= n - i && matches_at(s, i, pat) {
            proof {
                assert(restp.subrange(0, m as int) =~= s@.subrange(i as int, i as int + m));
                assert(restp.skip(m as int) =~= s@.skip(i as int + m));
            }
            r.append(rep);
            proof {
                assert(r0 + (rep@ + spec_replace(s@.skip(i as int + m), pat@, rep@)) =~= r@
                    + spec_replace(s@.skip(i as int + m), pat@, rep@));
            }
            i = i + m;
        } else {
            proof {
                if i + m <= n {
                    assert(restp.subrange(0, m as int) =~= s@.subrange(i as int, i as int + m));
                }
                assert(restp.skip(1) =~= s@.skip(i as int + 1));
            }
            r.append(s.substring_char(i, i + 1));
            proof {
                assert(s@.subrange(i as int, i as int + 1) =~= seq![s@[i as int]]);
                if restp.len() < m {
                    assert(spec_replace(restp, pat@, rep@) == restp);
                    assert(spec_replace(s@.skip(i as int + 1), pat@, rep@) == s@.skip(
                        i as int + 1,
                    ));
                    assert(restp =~= seq![s@[i as int]] + s@.skip(i as int + 1));
                }
                assert(r0 + (seq![s@[i as int]] + spec_replace(s@.skip(i as int + 1), pat@, rep@))
                    =~= r@ + spec_replace(s@.skip(i as int + 1), pat@, rep@));
            }
            i = i + 1;
        }
    }
    proof {
        assert(s@.skip(n as int) =~= Seq::<char>::empty());
        assert(r@ + Seq::<char>::empty() =~= r@);
    }
    r
}

/// The Unicode white-space characters, as `char::is_whitespace` knows them.
pub open spec fn spec_is_space(c: char) -> bool {
    c == ' ' || c == '\t' || c == '\n' || c == '\u{b}' || c == '\u{c}' || c == '\r' || c
        == '\u{85}' || c == '\u{a0}' || c == '\u{1680}' || ('\u{2000}' <= c && c <= '\u{200a}') || c
        == '\u{2028}' || c == '\u{2029}' || c == '\u{202f}' || c == '\u{205f}' || c == '\u{3000}'
}

/// The Unicode white-space characters, as `char::is_whitespace` knows them.
pub fn is_space(c: char) -> (r: bool)
    ensures
        r == spec_is_space(c),
{
    c == ' ' || c == '\t' || c == '\n' || c == '\u{b}' || c == '\u{c}' || c == '\r' || c
        == '\u{85}' || c == '\u{a0}' || c == '\u{1680}' || ('\u{2000}' <= c && c <= '\u{200a}') || c
        == '\u{2028}' || c == '\u{2029}' || c == '\u{202f}' || c == '\u{205f}' || c == '\u{3000}'
}

/// `s` less its leading white space.
pub open spec fn spec_trim_start(s: Seq<char>) -> Seq<char>
    decreases s.len(),
{
    if s.len() > 0 && spec_is_space(s[0]) {
        spec_trim_start(s.skip(1))
    } else {
        s
    }
}

/// `s` less its trailing white space.
pub open spec fn spec_trim_end(s: Seq<char>) -> Seq<char>
    decreases s.len(),
{
    if s.len() > 0 && spec_is_space(s.last()) {
        spec_trim_end(s.drop_last())
    } else {
        s
    }
}

/// `s` less white space at either end, as `str::trim` leaves it.
pub open spec fn spec_trim(s: Seq<char>) -> Seq<char> {
    spec_trim_end(spec_trim_start(s))
}

/// Trims white space from both ends.
pub fn trim_str(s: &str) -> (r: String)
    ensures
        r@ == spec_trim(s@),
{
    let n = s.unicode_len();
    let mut a: usize = 0;
    proof {
        assert(s@.skip(0) =~= s@);
    }
    while a < n && is_space(s.get_char(a))
        invariant
            a <= n,
            n == s@.len(),
            spec_trim_start(s@) == spec_trim_start(s@.skip(a as int)),
        decreases n - a,
    {
        proof {
            assert(s@.skip(a as int)[0] == s@[a as int]);
            assert(s@.skip(a as int).skip(1) =~= s@.skip(a as int + 1));
        }
        a = a + 1;
    }
    proof {
        if a == n {
            assert(s@.skip(a as int) =~= Seq::<char>::empty());
        }
        assert(spec_trim_start(s@) == s@.skip(a as int));
        assert(s@.skip(a as int) =~= s@.subrange(a as int, n as int));
    }
    let mut b: usize = n;
    while b > a && is_space(s.get_char(b - 1))
        invariant
            a <= b <= n,
            n == s@.len(),
            spec_trim_end(s@.subrange(a as int, n as int)) == spec_trim_end(
                s@.subrange(a as int, b as int),
            ),
        decreases b,
    {
        proof {
            assert(s@.subrange(a as int, b as int).last() == s@[b as int - 1]);
            assert(s@.subrange(a as int, b as int).drop_last() =~= s@.subrange(
                a as int,
                b as int - 1,
            ));
        }
        b = b - 1;
    }
    proof {
        assert(spec_trim_end(s@.subrange(a as int, b as int)) == s@.subrange(a as int, b as int));
    }
    s.substring_char(a, b).to_owned()
}

/// Splitting at every separator, empty pieces kept: there is always one piece
/// more than there are separators.
pub open spec fn spec_split(s: Seq<char>, sep: char) -> Seq<Seq<char>>
    decreases s.len(),
{
    if s.len() == 0 {
        seq![Seq::empty()]
    } else {
        let rest = spec_split(s.drop_last(), sep);
        if s.last() == sep {
            rest.push(Seq::empty())
        } else {
            rest.update(rest.len() - 1, rest.last().push(s.last()))
        }
    }
}

/// Splits at every occurrence of `sep`, keeping empty pieces.
pub fn split_str(s: &str, sep: char) -> (r: Vec<String>)
    ensures
        r.deep_view() == spec_split(s@, sep),
{
    let n = s.unicode_len();
    let mut out: Vec<String> = Vec::new();
    let mut cur = String::new();
    let mut i: usize = 0;
    proof {
        assert(s@.subrange(0, 0) =~= Seq::<char>::empty());
        assert(out.deep_view().push(cur@) =~= spec_split(s@.subrange(0, 0), sep));
    }
    while i < n
        invariant
            i <= n,
            n == s@.len(),
            spec_split(s@.subrange(0, i as int), sep) == out.deep_view().push(cur@),
        decreases n - i,
    {
        let ghost pieces0 = out.deep_view();
        let ghost cur0 = cur@;
        let c = s.get_char(i);
        proof {
            assert(s@.subrange(0, i as int + 1).drop_last() =~= s@.subrange(0, i as int));
            assert(s@.subrange(0, i as int + 1).last() == s@[i as int]);
        }
        if c == sep {
            out.push(cur);
            cur = String::new();
            proof {
                assert(out.deep_view() =~= pieces0.push(cur0));
                assert(spec_split(s@.subrange(0, i as int + 1), sep) =~= out.deep_view().push(
                    cur@,
                ));
            }
        } else {
            cur.append(s.substring_char(i, i + 1));
            proof {
                assert(s@.subrange(i as int, i as int + 1) =~= seq![s@[i as int]]);
                assert(cur@ =~= cur0.push(s@[i as int]));
                assert(pieces0.push(cur0).update(pieces0.len() as int, cur0.push(s@[i as int]))
                    =~= pieces0.push(cur@));
                assert(spec_split(s@.subrange(0, i as int + 1), sep) =~= out.deep_view().push(
                    cur@,
                ));
            }
        }
        i = i + 1;
    }
    proof {
        assert(s@.subrange(0, n as int) =~= s@);
    }
    out.push(cur);
    proof {
        assert(out.deep_view() =~= spec_split(s@, sep));
    }
    out
}

/// Comment removal: a `;` starts a comment that runs to the end of the line;
/// the newline itself stays.
pub open spec fn spec_strip_comments(s: Seq<char>, in_comment: bool) -> Seq<char>
    decreases s.len(),
{
    if s.len() == 0 {
        Seq::empty()
    } else if s[0] == ';' {
        spec_strip_comments(s.skip(1), true)
    } else if s[0] == '\n' {
        seq!['\n'] + spec_strip_comments(s.skip(1), false)
    } else if in_comment {
        spec_strip_comments(s.skip(1), true)
    } else {
        seq![s[0]] + spec_strip_comments(s.skip(1), false)
    }
}

/// Removes every comment from `s`.
pub fn strip_comments(s: &str) -> (r: String)
    ensures
        r@ == spec_strip_comments(s@, false),
{
    let n = s.unicode_len();
    let mut r = String::new();
    let mut in_comment = false;
    let mut i: usize = 0;
    proof {
        assert(s@.skip(0) =~= s@);
        assert(Seq::<char>::empty() + spec_strip_comments(s@, false) =~= spec_strip_comments(
            s@,
            false,
        ));
    }
    while i < n
        invariant
            i <= n,
            n == s@.len(),
            spec_strip_comments(s@, false) == r@ + spec_strip_comments(
                s@.skip(i as int),
                in_comment,
            ),
        decreases n - i,
    {
        let ghost r0 = r@;
        let c = s.get_char(i);
        proof {
            assert(s@.skip(i as int)[0] == s@[i as int]);
            assert(s@.skip(i as int).skip(1) =~= s@.skip(i as int + 1));
        }
        if c == ';' {
            in_comment = true;
        } else if c == '\n' {
            in_comment = false;
            r.append(s.substring_char(i, i + 1));
            proof {
                assert(s@.subrange(i as int, i as int + 1) =~= seq!['\n']);
                assert(r0 + (seq!['\n'] + spec_strip_comments(s@.skip(i as int + 1), false)) =~= r@
                    + spec_strip_comments(s@.skip(i as int + 1), false));
            }
        } else if !in_comment {
            r.append(s.substring_char(i, i + 1));
            proof {
                assert(s@.subrange(i as int, i as int + 1) =~= seq![s@[i as int]]);
                assert(r0 + (seq![s@[i as int]] + spec_strip_comments(s@.skip(i as int + 1), false))
                    =~= r@ + spec_strip_comments(s@.skip(i as int + 1), false));
            }
        }
        i = i + 1;
    }
    proof {
        assert(s@.skip(n as int) =~= Seq::<char>::empty());
        assert(r@ + Seq::<char>::empty() =~= r@);
    }
    r
}

/// True exactly when the two strings read the same.
pub fn str_eq(s: &str, t: &str) -> (r: bool)
    ensures
        r == (s@ == t@),
{
    let n = s.unicode_len();
    if n != t.unicode_len() {
        return false;
    }
    let mut i: usize = 0;
    while i < n
        invariant
            i <= n,
            n == s@.len() == t@.len(),
            forall|j: int| 0 <= j < i ==> s@[j] == t@[j],
        decreases n - i,
    {
        if s.get_char(i) != t.get_char(i) {
            return false;
        }
        i = i + 1;
    }
    assert(s@ =~= t@);
    true
}

} // verus!
