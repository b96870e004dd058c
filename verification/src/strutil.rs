//! Character-level helpers shared by the codec and the authenticator:
//! string/char-vector conversion and decimal digit strings.

use vstd::prelude::*;

verus! {

/// Relies on std's `String::push`: appends the given character to the
/// end of the string.
pub assume_specification[ String::push ](s: &mut String, c: char)
    ensures
        final (s)@ == old(s)@.push(c),
;

/// The characters of a string, as a vector.
pub fn str_to_chars(s: &str) -> (r: Vec<char>)
    ensures
        r@ == s@,
{
    let n = s.unicode_len();
    let mut out: Vec<char> = Vec::new();
    let mut i: usize = 0;
    while i < n
        invariant
            0 <= i <= n,
            n == s@.len(),
            out@ == s@.take(i as int),
        decreases n - i,
    {
        let c = s.get_char(i);
        out.push(c);
        proof {
            assert(out@ =~= s@.take(i + 1 as int));
        }
        i = i + 1;
    }
    proof {
        assert(out@ =~= s@);
    }
    out
}

/// A string holding exactly the given characters.
pub fn chars_to_string(v: &Vec<char>) -> (r: String)
    ensures
        r@ == v@,
{
    let mut out = String::new();
    let mut i: usize = 0;
    while i < v.len()
        invariant
            0 <= i <= v@.len(),
            out@ == v@.take(i as int),
        decreases v@.len() - i,
    {
        out.push(v[i]);
        proof {
            assert(out@ =~= v@.take(i + 1 as int));
        }
        i = i + 1;
    }
    proof {
        assert(out@ =~= v@);
    }
    out
}

/// The character for a single decimal digit.
pub open spec fn digit_char(d: int) -> char {
    if d == 0 {
        '0'
    } else if d == 1 {
        '1'
    } else if d == 2 {
        '2'
    } else if d == 3 {
        '3'
    } else if d == 4 {
        '4'
    } else if d == 5 {
        '5'
    } else if d == 6 {
        '6'
    } else if d == 7 {
        '7'
    } else if d == 8 {
        '8'
    } else {
        '9'
    }
}

pub open spec fn is_digit(c: char) -> bool {
    '0' <= c && c <= '9'
}

/// The numeric value of a decimal digit character.
pub open spec fn digit_val(c: char) -> int {
    c as int - '0' as int
}

/// The decimal digit string of a natural number, most significant
/// digit first, with no leading zeros (a lone `0` for zero).
pub open spec fn dec_digits(n: nat) -> Seq<char>
    decreases n,
{
    if n < 10 {
        seq![digit_char(n as int)]
    } else {
        dec_digits(n / 10).push(digit_char((n % 10) as int))
    }
}

/// The value of a string of decimal digit characters.
pub open spec fn digits_val(s: Seq<char>) -> nat
    decreases s.len(),
{
    if s.len() == 0 {
        0
    } else {
        digits_val(s.drop_last()) * 10 + (if 0 <= digit_val(s.last()) < 10 {
            digit_val(s.last()) as nat
        } else {
            0
        })
    }
}

/// The value of the digit character of `d` is `d` again.
pub proof fn lemma_digit_char_val(d: int)
    requires
        0 <= d < 10,
    ensures
        digit_val(digit_char(d)) == d,
        is_digit(digit_char(d)),
{
}

/// Appending a digit multiplies the value by ten and adds the digit.
pub proof fn lemma_digits_val_push(s: Seq<char>, c: char)
    requires
        is_digit(c),
    ensures
        digits_val(s.push(c)) == digits_val(s) * 10 + digit_val(c),
{
    assert(s.push(c).drop_last() =~= s);
}

/// The digit character for a digit value.
pub fn digit_to_char(d: u8) -> (r: char)
    requires
        d < 10,
    ensures
        r == digit_char(d as int),
        is_digit(r),
{
    match d {
        0 => '0',
        1 => '1',
        2 => '2',
        3 => '3',
        4 => '4',
        5 => '5',
        6 => '6',
        7 => '7',
        8 => '8',
        _ => '9',
    }
}

/// The digit value of a digit character.
pub fn char_to_digit(c: char) -> (r: u8)
    requires
        is_digit(c),
    ensures
        r == digit_val(c),
        r < 10,
{
    (c as u32 - '0' as u32) as u8
}

/// Append the decimal digit string of `n`.
pub fn push_dec_digits(n: u64, out: &mut Vec<char>)
    ensures
        final (out)@ == old(out)@ + dec_digits(n as nat),
    decreases n,
{
    if n < 10 {
        out.push(digit_to_char(n as u8));
        proof {
            assert(out@ =~= old(out)@ + dec_digits(n as nat));
        }
    } else {
        push_dec_digits(n / 10, out);
        out.push(digit_to_char((n % 10) as u8));
        proof {
            assert(out@ =~= old(out)@ + dec_digits(n as nat));
        }
    }
}

/// Append exactly `width` digits, the decimal value of `n` left-padded
/// with zeros; `n` must fit in `width` digits.
pub open spec fn padded_digits(n: nat, width: nat) -> Seq<char>
    decreases width,
{
    if width == 0 {
        Seq::empty()
    } else {
        padded_digits(n / 10, (width - 1) as nat).push(digit_char((n % 10) as int))
    }
}

pub proof fn lemma_padded_digits_shape(n: nat, width: nat)
    ensures
        padded_digits(n, width).len() == width,
        forall|i: int|
            0 <= i < width ==> is_digit(#[trigger] padded_digits(n, width)[i]),
    decreases width,
{
    if width > 0 {
        lemma_padded_digits_shape(n / 10, (width - 1) as nat);
    }
}

/// Ten to the given power.
pub open spec fn pow10(n: nat) -> nat
    decreases n,
{
    if n == 0 {
        1
    } else {
        10 * pow10((n - 1) as nat)
    }
}

/// Reading back a padded digit string yields the value, when the value
/// fits the width.
pub proof fn lemma_padded_digits_roundtrip(n: nat, width: nat)
    requires
        n < pow10(width),
    ensures
        digits_val(padded_digits(n, width)) == n,
    decreases width,
{
    if width == 0 {
        assert(padded_digits(n, width) =~= Seq::<char>::empty());
    } else {
        let p = pow10((width - 1) as nat);
        assert(pow10(width) == 10 * p);
        assert(n / 10 < p) by {
            vstd::arithmetic::div_mod::lemma_fundamental_div_mod(n as int, 10);
            if n / 10 >= p {
                assert(10 * (n as int / 10) >= 10 * p) by (nonlinear_arith)
                    requires
                        n as int / 10 >= p,
                ;
            }
        }
        lemma_padded_digits_roundtrip(n / 10, (width - 1) as nat);
        assert(padded_digits(n, width).drop_last() =~= padded_digits(n / 10, (width - 1) as nat));
    }
}

/// Append the value of `n` as exactly `width` zero-padded digits.
pub fn push_padded_digits(n: u64, width: u8, out: &mut Vec<char>)
    ensures
        final (out)@ == old(out)@ + padded_digits(n as nat, width as nat),
    decreases width,
{
    if width == 0 {
        proof {
            assert(out@ =~= old(out)@ + padded_digits(n as nat, 0));
        }
    } else {
        push_padded_digits(n / 10, width - 1, out);
        out.push(digit_to_char((n % 10) as u8));
        proof {
            assert(out@ =~= old(out)@ + padded_digits(n as nat, width as nat));
        }
    }
}

/// A digit string's value is below ten to its length.
pub proof fn lemma_digits_val_bound(s: Seq<char>)
    ensures
        digits_val(s) < pow10(s.len()),
    decreases s.len(),
{
    if s.len() > 0 {
        lemma_digits_val_bound(s.drop_last());
        let v = digits_val(s.drop_last());
        let p = pow10((s.len() - 1) as nat);
        assert(v * 10 <= (p - 1) * 10) by (nonlinear_arith)
            requires
                v <= p - 1,
        ;
    }
}

/// Ten to any power is positive.
pub proof fn lemma_pow10_pos(n: nat)
    ensures
        pow10(n) >= 1,
    decreases n,
{
    if n > 0 {
        lemma_pow10_pos((n - 1) as nat);
    }
}

/// The characters of a slice of a vector, as a string.
pub fn substring_string(cs: &Vec<char>, from: usize, to: usize) -> (r: String)
    requires
        from <= to <= cs@.len(),
    ensures
        r@ == cs@.subrange(from as int, to as int),
{
    let mut out = String::new();
    let mut i: usize = from;
    while i < to
        invariant
            from <= i <= to <= cs@.len(),
            out@ == cs@.subrange(from as int, i as int),
        decreases to - i,
    {
        out.push(cs[i]);
        proof {
            assert(out@ =~= cs@.subrange(from as int, i + 1));
        }
        i = i + 1;
    }
    out
}

} // verus!
