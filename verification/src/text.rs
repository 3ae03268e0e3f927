//! Character classification and small string utilities shared by the
//! preprocessor, the tokenizer and the builtin dispatcher.
use vstd::prelude::*;

verus! {

/// Whether a character counts as whitespace when splitting a command line.
/// The meaning is fixed by `char::is_whitespace`; nothing more is assumed
/// of it.
pub uninterp spec fn spec_whitespace(c: char) -> bool;

/// Whether a character counts as alphanumeric in a variable name.
/// The meaning is fixed by `char::is_alphanumeric`; nothing more is
/// assumed of it.
pub uninterp spec fn spec_alphanumeric(c: char) -> bool;

/// Relies on `char::is_whitespace`: whether the character has the Unicode
/// `White_Space` property, a function of the character alone.
#[verifier::external_body]
pub(crate) fn char_is_whitespace(c: char) -> (r: bool)
    ensures
        r == spec_whitespace(c),
{
    c.is_whitespace()
}

/// Relies on `char::is_alphanumeric`: whether the character is Unicode
/// alphanumeric, a function of the character alone.
#[verifier::external_body]
pub(crate) fn char_is_alphanumeric(c: char) -> (r: bool)
    ensures
        r == spec_alphanumeric(c),
{
    c.is_alphanumeric()
}

/// Relies on `String::push`: appends exactly one character at the end.
#[verifier::external_body]
pub(crate) fn push_char(s: &mut String, c: char)
    ensures
        final(s)@ == old(s)@.push(c),
{
    s.push(c)
}

/// Character-by-character string equality, so that command names and
/// tokens can be compared without trusting anything beyond `vstd`.
pub fn str_eq(a: &str, b: &str) -> (r: bool)
    ensures
        r <==> a@ == b@,
{
    let alen = a.unicode_len();
    let blen = b.unicode_len();
    if alen != blen {
        assert(a@ != b@) by {
            assert(a@.len() != b@.len());
        }
        return false;
    }
    let mut i: usize = 0;
    while i < alen
        invariant
            alen == a@.len(),
            alen == b@.len(),
            0 <= i <= alen,
            forall|k: int| 0 <= k < i ==> a@[k] == b@[k],
        decreases alen - i,
    {
        if a.get_char(i) != b.get_char(i) {
            return false;
        }
        i += 1;
    }
    assert(a@ =~= b@);
    true
}

/// Decimal digit characters, as read by `kill <pid>`.
pub open spec fn is_digit(c: char) -> bool {
    48 <= c as int && c as int <= 57
}

/// Numeric value of a decimal digit character.
pub open spec fn digit_val(c: char) -> nat {
    (c as int - 48) as nat
}

/// The character that prints a single decimal digit.
pub open spec fn digit_char(d: nat) -> char {
    if d == 0 {
        '0'
    } else if d == 1 {
        '1'
    } else if d == 2 {
        '2'
    } else if d == 3 {
        '3'
    } else if d == 4 {
        '4'
    } else if d == 5 {
        '5'
    } else if d == 6 {
        '6'
    } else if d == 7 {
        '7'
    } else if d == 8 {
        '8'
    } else {
        '9'
    }
}

/// Decimal text of a number, most significant digit first, no sign and no
/// leading zeros (a single `'0'` for zero).
pub open spec fn spec_digits(n: nat) -> Seq<char>
    decreases n,
{
    if n < 10 {
        seq![digit_char(n)]
    } else {
        spec_digits(n / 10).push(digit_char(n % 10))
    }
}

/// Value of a sequence of decimal digit characters, most significant first.
pub open spec fn spec_num(s: Seq<char>) -> nat
    decreases s.len(),
{
    if s.len() == 0 {
        0
    } else {
        spec_num(s.drop_last()) * 10 + digit_val(s.last())
    }
}

/// Every character of the text is a decimal digit.
pub open spec fn all_digits(s: Seq<char>) -> bool {
    forall|k: int| 0 <= k < s.len() ==> is_digit(s[k])
}

/// What parsing an unsigned decimal number returns: the value when the text
/// is an optional `'+'` followed by one or more digits and the value fits,
/// `None` otherwise.
pub open spec fn spec_parse_u32(s: Seq<char>) -> Option<u32> {
    let d = if s.len() > 0 && s[0] == '+' {
        s.skip(1)
    } else {
        s
    };
    if d.len() > 0 && all_digits(d) && spec_num(d) <= u32::MAX {
        Some(spec_num(d) as u32)
    } else {
        None
    }
}

proof fn lemma_reverse_push<A>(s: Seq<A>, x: A)
    ensures
        s.push(x).reverse() =~= seq![x] + s.reverse(),
{
}

/// A digit string's value only grows as more digits are read.
proof fn lemma_spec_num_prefix_le(s: Seq<char>, i: int)
    requires
        0 <= i <= s.len(),
    ensures
        spec_num(s.take(i)) <= spec_num(s),
    decreases s.len() - i,
{
    if i < s.len() {
        assert(s.take(i + 1).drop_last() =~= s.take(i));
        assert(spec_num(s.take(i + 1)) == spec_num(s.take(i)) * 10 + digit_val(s.take(i + 1).last()));
        lemma_spec_num_prefix_le(s, i + 1);
    } else {
        assert(s.take(i) =~= s);
    }
}

fn digit_char_exec(d: u32) -> (c: char)
    requires
        d < 10,
    ensures
        c == digit_char(d as nat),
{
    if d == 0 {
        '0'
    } else if d == 1 {
        '1'
    } else if d == 2 {
        '2'
    } else if d == 3 {
        '3'
    } else if d == 4 {
        '4'
    } else if d == 5 {
        '5'
    } else if d == 6 {
        '6'
    } else if d == 7 {
        '7'
    } else if d == 8 {
        '8'
    } else {
        '9'
    }
}

/// Decimal rendering of a process identifier or any other counter.
pub fn u32_to_string(n: u32) -> (r: String)
    ensures
        r@ == spec_digits(n as nat),
{
    let mut s = String::new();
    if n == 0 {
        push_char(&mut s, '0');
        assert(s@ =~= spec_digits(0));
        return s;
    }
    let mut digits: Vec<char> = Vec::new();
    let mut m: u32 = n;
    while m > 0
        invariant
            m > 0 ==> spec_digits(n as nat) =~= spec_digits(m as nat) + digits@.reverse(),
            m == 0 ==> spec_digits(n as nat) =~= digits@.reverse(),
        decreases m,
    {
        let d: u32 = m % 10;
        let c = digit_char_exec(d);
        proof {
            lemma_reverse_push(digits@, c);
            if m >= 10 {
                assert(spec_digits(m as nat) == spec_digits((m / 10) as nat).push(digit_char(
                    (m % 10) as nat,
                )));
                assert(spec_digits((m / 10) as nat).push(c) =~= spec_digits((m / 10) as nat)
                    + seq![c]);
            } else {
                assert(spec_digits(m as nat) =~= seq![c]);
            }
        }
        digits.push(c);
        m = m / 10;
    }
    assert(spec_digits(n as nat) =~= digits@.reverse());
    let dlen = digits.len();
    let mut i: usize = dlen;
    while i > 0
        invariant
            i <= dlen,
            dlen == digits@.len(),
            s@ =~= digits@.skip(i as int).reverse(),
        decreases i,
    {
        i = i - 1;
        proof {
            assert(digits@.skip(i as int) =~= seq![digits@[i as int]] + digits@.skip(i as int + 1));
            assert(digits@.skip(i as int).reverse() =~= digits@.skip(i as int + 1).reverse().push(
                digits@[i as int],
            ));
        }
        let c = digits[i];
        push_char(&mut s, c);
    }
    assert(digits@.skip(0) =~= digits@);
    s
}

/// Parse an unsigned decimal number the way `kill` reads its argument: an
/// optional leading `'+'`, then decimal digits; overflow is a parse failure.
pub fn parse_u32(s: &str) -> (r: Option<u32>)
    ensures
        r == spec_parse_u32(s@),
{
    let len = s.unicode_len();
    if len == 0 {
        return None;
    }
    let start: usize = if s.get_char(0) == '+' {
        1
    } else {
        0
    };
    if start == len {
        return None;
    }
    let ghost d: Seq<char> = if start == 1 {
        s@.skip(1)
    } else {
        s@
    };
    assert(d.len() == len - start);
    assert(forall|k: int| 0 <= k < d.len() ==> d[k] == s@[k + start]);
    let mut val: u32 = 0;
    let mut i: usize = start;
    while i < len
        invariant
            start <= i <= len,
            len == s@.len(),
            start == 0 || start == 1,
            start == 1 ==> s@[0] == '+',
            start == 0 ==> s@[0] != '+',
            d == (if start == 1 {
                s@.skip(1)
            } else {
                s@
            }),
            d.len() == len - start,
            forall|k: int| 0 <= k < d.len() ==> d[k] == s@[k + start],
            forall|k: int| 0 <= k < i - start ==> is_digit(d[k]),
            val as nat == spec_num(d.take(i - start)),
        decreases len - i,
    {
        let c = s.get_char(i);
        let u: u32 = c as u32;
        if u < 48 || u > 57 {
            proof {
                assert(!is_digit(d[i - start]));
                assert(!all_digits(d)) by {
                    assert(0 <= i - start < d.len() && !is_digit(d[i - start]));
                }
            }
            return None;
        }
        let dg: u32 = u - 48;
        assert(is_digit(d[i - start]) && digit_val(d[i - start]) == dg as nat);
        proof {
            assert(d.take(i - start + 1).drop_last() =~= d.take(i - start));
            assert(spec_num(d.take(i - start + 1)) == spec_num(d.take(i - start)) * 10 + dg as nat);
        }
        if val > (u32::MAX - dg) / 10 {
            proof {
                assert(val as nat * 10 + dg as nat > u32::MAX) by (nonlinear_arith)
                    requires
                        val > (u32::MAX - dg) / 10,
                        dg <= u32::MAX,
                {
                }
                lemma_spec_num_prefix_le(d, i - start + 1);
                assert(d.take(d.len() as int) =~= d);
                assert(spec_num(d) > u32::MAX);
            }
            return None;
        }
        proof {
            assert(val * 10 + dg <= u32::MAX) by (nonlinear_arith)
                requires
                    val <= (u32::MAX - dg) / 10,
                    dg <= u32::MAX,
            {
            }
        }
        val = val * 10 + dg;
        i = i + 1;
    }
    proof {
        assert(d.take(d.len() as int) =~= d);
        assert(all_digits(d));
    }
    Some(val)
}

/// Concatenation of parts with one space between each pair, as `calc`
/// rebuilds its expression from the argument tokens.
pub open spec fn spec_join_sp(parts: Seq<Seq<char>>) -> Seq<char>
    decreases parts.len(),
{
    if parts.len() == 0 {
        Seq::empty()
    } else if parts.len() == 1 {
        parts[0]
    } else {
        spec_join_sp(parts.drop_last()) + seq![' '] + parts.last()
    }
}

/// A join starts with the first character of its first part.
pub proof fn lemma_join_first(parts: Seq<Seq<char>>)
    requires
        parts.len() > 0,
        parts[0].len() > 0,
    ensures
        spec_join_sp(parts).len() > 0,
        spec_join_sp(parts)[0] == parts[0][0],
    decreases parts.len(),
{
    if parts.len() > 1 {
        assert(parts.drop_last()[0] == parts[0]);
        lemma_join_first(parts.drop_last());
    }
}

/// Join tokens with single spaces.
pub fn join_spaces(parts: &Vec<String>) -> (r: String)
    ensures
        r@ == spec_join_sp(parts.deep_view()),
{
    let mut r = String::new();
    let mut i: usize = 0;
    while i < parts.len()
        invariant
            i <= parts@.len(),
            parts.deep_view().len() == parts@.len(),
            forall|k: int| 0 <= k < parts@.len() ==> parts.deep_view()[k] == parts@[k]@,
            r@ == spec_join_sp(parts.deep_view().take(i as int)),
        decreases parts@.len() - i,
    {
        proof {
            assert(parts.deep_view().take(i as int + 1).drop_last() =~= parts.deep_view().take(
                i as int,
            ));
        }
        if i > 0 {
            push_char(&mut r, ' ');
        }
        r.append(parts[i].as_str());
        assert(r@ =~= spec_join_sp(parts.deep_view().take(i as int + 1)));
        i = i + 1;
    }
    assert(parts.deep_view().take(parts@.len() as int) =~= parts.deep_view());
    r
}

} // verus!
