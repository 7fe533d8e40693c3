use vstd::prelude::*;

verus! {

/// The ASCII digit character for a value below ten.
pub open spec fn digit_byte(d: nat) -> u8 {
    (48 + d) as u8
}

/// Decimal digits of a natural number, most significant first, without leading zeros
/// ("0" for zero).
pub open spec fn decimal_nat(n: nat) -> Seq<u8>
    decreases n,
{
    if n < 10 {
        seq![digit_byte(n)]
    } else {
        decimal_nat(n / 10).push(digit_byte(n % 10))
    }
}

/// The decimal text of a signed integer, as `{}` formats it.
pub open spec fn decimal_i64(v: i64) -> Seq<u8> {
    if v < 0 {
        seq![45u8] + decimal_nat((-(v as int)) as nat)
    } else {
        decimal_nat(v as nat)
    }
}

/// Characters of an ASCII byte sequence.
pub open spec fn ascii_chars(b: Seq<u8>) -> Seq<char> {
    b.map_values(|x: u8| x as char)
}

/// The decimal text of a signed integer as characters.
pub open spec fn decimal_i64_chars(v: i64) -> Seq<char> {
    ascii_chars(decimal_i64(v))
}

/// The decimal text of a natural number as characters.
pub open spec fn decimal_nat_chars(n: nat) -> Seq<char> {
    ascii_chars(decimal_nat(n))
}

/// Decimal digits of an unsigned integer.
pub fn u64_to_decimal(v: u64) -> (out: Vec<u8>)
    ensures
        out@ == decimal_nat(v as nat),
{
    let mut n: u64 = v;
    let mut out: Vec<u8> = Vec::new();
    while n >= 10
        invariant
            decimal_nat(v as nat) == decimal_nat(n as nat) + out@,
        decreases n,
    {
        let d: u64 = n % 10;
        proof {
            assert(decimal_nat(n as nat) == decimal_nat((n / 10) as nat).push(digit_byte(d as nat)));
            assert(decimal_nat(n as nat) + out@ =~= decimal_nat((n / 10) as nat) + seq![
                digit_byte(d as nat),
            ] + out@);
            assert(seq![digit_byte(d as nat)] + out@ =~= out@.insert(0, digit_byte(d as nat)));
            assert(decimal_nat((n / 10) as nat) + seq![digit_byte(d as nat)] + out@
                =~= decimal_nat((n / 10) as nat) + (seq![digit_byte(d as nat)] + out@));
        }
        out.insert(0, (48 + d) as u8);
        n = n / 10;
    }
    proof {
        assert(seq![digit_byte(n as nat)] + out@ =~= out@.insert(0, digit_byte(n as nat)));
    }
    out.insert(0, (48 + n) as u8);
    out
}

/// The decimal text of a signed integer, as `{}` formats it.
pub fn i64_to_decimal(v: i64) -> (out: Vec<u8>)
    ensures
        out@ == decimal_i64(v),
{
    if v < 0 {
        let mag: u64 = (0i128 - (v as i128)) as u64;
        let digits = u64_to_decimal(mag);
        let mut out: Vec<u8> = Vec::new();
        out.push(45u8);
        let mut i: usize = 0;
        while i < digits.len()
            invariant
                i <= digits.len(),
                out@ == seq![45u8] + digits@.subrange(0, i as int),
            decreases digits.len() - i,
        {
            proof {
                assert(digits@.subrange(0, i + 1) =~= digits@.subrange(0, i as int).push(
                    digits@[i as int],
                ));
            }
            out.push(digits[i]);
            i = i + 1;
        }
        proof {
            assert(digits@.subrange(0, i as int) =~= digits@);
        }
        out
    } else {
        u64_to_decimal(v as u64)
    }
}

/// Unicode `White_Space`, the property that `char::is_whitespace` and `str::trim` use.
pub open spec fn is_white_space(c: char) -> bool {
    let u = c as u32;
    ||| (0x09 <= u <= 0x0D)
    ||| u == 0x20
    ||| u == 0x85
    ||| u == 0xA0
    ||| u == 0x1680
    ||| (0x2000 <= u <= 0x200A)
    ||| u == 0x2028
    ||| u == 0x2029
    ||| u == 0x202F
    ||| u == 0x205F
    ||| u == 0x3000
}

/// Whether a character has the Unicode `White_Space` property.
pub fn is_white_space_char(c: char) -> (r: bool)
    ensures
        r == is_white_space(c),
{
    let u = c as u32;
    (0x09 <= u && u <= 0x0D) || u == 0x20 || u == 0x85 || u == 0xA0 || u == 0x1680 || (0x2000
        <= u && u <= 0x200A) || u == 0x2028 || u == 0x2029 || u == 0x202F || u == 0x205F || u
        == 0x3000
}

/// The characters of a string slice, in order.
pub fn chars_of(s: &str) -> (out: Vec<char>)
    ensures
        out@ == s@,
{
    broadcast use vstd::string::group_string_axioms;

    let mut out: Vec<char> = Vec::new();
    let mut it = s.chars();
    let ghost all = s@;
    loop
        invariant
            vstd::std_specs::iter::IteratorSpec::remaining(&it) == all.subrange(out@.len() as int, all.len() as int),
            out@ == all.subrange(0, out@.len() as int),
            out@.len() <= all.len(),
            all == s@,
        decreases all.len() - out@.len(),
    {
        match it.next() {
            Some(c) => {
                proof {
                    assert(all.subrange(0, out@.len() as int + 1) =~= out@.push(c));
                }
                out.push(c);
            },
            None => {
                proof {
                    assert(out@ =~= all);
                }
                return out;
            },
        }
    }
}

/// Appends one character to a string (`String::push`).
#[verifier::external_body]
pub(crate) fn push_char(s: &mut String, c: char)
    ensures
        final(s)@ == old(s)@.push(c),
{
    s.push(c);
}

/// Appends a string slice to a string.
pub fn push_str(s: &mut String, t: &str)
    ensures
        final(s)@ == old(s)@ + t@,
{
    s.append(t);
}

/// Appends a sequence of characters to a string.
pub fn push_chars(s: &mut String, cs: &Vec<char>)
    ensures
        final(s)@ == old(s)@ + cs@,
{
    let ghost start = s@;
    let mut i: usize = 0;
    while i < cs.len()
        invariant
            i <= cs.len(),
            s@ == start + cs@.subrange(0, i as int),
        decreases cs.len() - i,
    {
        proof {
            assert(cs@.subrange(0, i + 1) =~= cs@.subrange(0, i as int).push(cs@[i as int]));
            assert(start + cs@.subrange(0, i + 1) =~= (start + cs@.subrange(0, i as int)).push(
                cs@[i as int],
            ));
        }
        push_char(s, cs[i]);
        i = i + 1;
    }
    proof {
        assert(cs@.subrange(0, i as int) =~= cs@);
    }
}

/// Appends ASCII bytes to a string, one character per byte.
pub fn push_ascii(s: &mut String, bytes: &Vec<u8>)
    ensures
        final(s)@ == old(s)@ + ascii_chars(bytes@),
{
    let ghost start = s@;
    let mut i: usize = 0;
    while i < bytes.len()
        invariant
            i <= bytes.len(),
            s@ == start + ascii_chars(bytes@.subrange(0, i as int)),
        decreases bytes.len() - i,
    {
        proof {
            assert(ascii_chars(bytes@.subrange(0, i + 1)) =~= ascii_chars(
                bytes@.subrange(0, i as int),
            ).push(bytes@[i as int] as char));
            assert(start + ascii_chars(bytes@.subrange(0, i + 1)) =~= (start + ascii_chars(
                bytes@.subrange(0, i as int),
            )).push(bytes@[i as int] as char));
        }
        push_char(s, bytes[i] as char);
        i = i + 1;
    }
    proof {
        assert(bytes@.subrange(0, i as int) =~= bytes@);
    }
}

/// Appends the decimal text of a signed integer.
pub fn push_i64(s: &mut String, v: i64)
    ensures
        final(s)@ == old(s)@ + decimal_i64_chars(v),
{
    let digits = i64_to_decimal(v);
    push_ascii(s, &digits);
}

/// Appends the decimal text of an unsigned integer.
pub fn push_u64(s: &mut String, v: u64)
    ensures
        final(s)@ == old(s)@ + decimal_nat_chars(v as nat),
{
    let digits = u64_to_decimal(v);
    push_ascii(s, &digits);
}

/// The number that a string of ASCII decimal digits spells, most significant first.
pub open spec fn digits_value(d: Seq<u8>) -> int
    decreases d.len(),
{
    if d.len() == 0 {
        0
    } else {
        digits_value(d.drop_last()) * 10 + (d.last() as int - 48)
    }
}

/// Decimal text reads back as the number it was made from: only the digits `0`-`9`, no
/// leading zero (a lone `0` for zero), spelling exactly `n`. A negative number is a minus
/// sign followed by the text of its magnitude.
pub proof fn law_decimal_reads_back(n: nat)
    ensures
        decimal_nat(n).len() >= 1,
        n >= 10 ==> decimal_nat(n).len() >= 2,
        forall|i: int| 0 <= i < decimal_nat(n).len() ==> 48 <= #[trigger] decimal_nat(n)[i] <= 57,
        decimal_nat(n).len() > 1 ==> decimal_nat(n)[0] != 48,
        digits_value(decimal_nat(n)) == n,
    decreases n,
{
    let d = decimal_nat(n);
    if n >= 10 {
        law_decimal_reads_back(n / 10);
        let p = decimal_nat(n / 10);
        assert(d == p.push(digit_byte(n % 10)));
        assert(d.drop_last() =~= p);
        assert(n / 10 >= 1) by (nonlinear_arith)
            requires
                n >= 10,
        ;
        assert(n % 10 < 10) by (nonlinear_arith);
        assert(digit_byte(n % 10) as int == 48 + n % 10);
        if p.len() == 1 {
            assert(n / 10 < 10);
            assert(p == seq![digit_byte(n / 10)]);
        }
        assert(d[0] == p[0]);
        assert forall|i: int| 0 <= i < d.len() implies 48 <= #[trigger] d[i] <= 57 by {
            if i < p.len() {
                assert(d[i] == p[i]);
            }
        }
        assert(d.last() == digit_byte(n % 10));
        assert(digits_value(d) == digits_value(p) * 10 + (d.last() as int - 48));
        assert(n == (n / 10) * 10 + n % 10) by (nonlinear_arith);
    } else {
        assert(d == seq![digit_byte(n)]);
        assert(d.drop_last() =~= Seq::<u8>::empty());
        assert(digit_byte(n) as int == 48 + n);
        assert(digits_value(d) == digits_value(d.drop_last()) * 10 + (d.last() as int - 48));
        assert(digits_value(Seq::<u8>::empty()) == 0);
    }
}

/// The text of a signed number: a minus sign before the magnitude's digits when it is
/// negative, the digits alone otherwise.
pub proof fn law_signed_decimal(v: i64)
    ensures
        v < 0 ==> decimal_i64(v)[0] == 45 && decimal_i64(v).subrange(1, decimal_i64(v).len() as int)
            == decimal_nat((-(v as int)) as nat),
        v >= 0 ==> decimal_i64(v) == decimal_nat(v as nat),
{
    if v < 0 {
        assert(decimal_i64(v).subrange(1, decimal_i64(v).len() as int) =~= decimal_nat((-(v as int)) as nat));
    }
}

} // verus!
