//! Character-level text building: decimal and hexadecimal numerals,
//! padding and joining, with their specifications.
use vstd::prelude::*;

verus! {

/// The hexadecimal digit (lower case) for a value below sixteen.
pub open spec fn hex_digit(d: nat) -> char {
    if d < 10 {
        (48 + d) as char
    } else {
        (87 + d) as char
    }
}

/// The decimal digit for a value below ten.
pub open spec fn dec_digit(d: nat) -> char {
    (48 + d) as char
}

/// Lower-case hexadecimal numeral of `n`, without leading zeros.
pub open spec fn spec_hex(n: nat) -> Seq<char>
    decreases n,
{
    if n < 16 {
        seq![hex_digit(n)]
    } else {
        spec_hex(n / 16).push(hex_digit(n % 16))
    }
}

/// Decimal numeral of `n`, without leading zeros.
pub open spec fn spec_dec(n: nat) -> Seq<char>
    decreases n,
{
    if n < 10 {
        seq![dec_digit(n)]
    } else {
        spec_dec(n / 10).push(dec_digit(n % 10))
    }
}

/// Decimal numeral of a signed integer, with a leading minus sign when negative.
pub open spec fn spec_int(i: int) -> Seq<char> {
    if i < 0 {
        seq!['-'] + spec_dec((-i) as nat)
    } else {
        spec_dec(i as nat)
    }
}

/// `s` right-aligned in a field of `width` characters filled with `fill`.
pub open spec fn pad_left(s: Seq<char>, width: nat, fill: char) -> Seq<char> {
    if s.len() >= width {
        s
    } else {
        Seq::new((width - s.len()) as nat, |_i: int| fill) + s
    }
}

/// Whether `c` is a decimal digit.
pub open spec fn is_dec_char(c: char) -> bool {
    48 <= (c as int) && (c as int) <= 57
}

/// Whether `c` is a lower-case hexadecimal digit.
pub open spec fn is_hex_char(c: char) -> bool {
    (48 <= (c as int) && (c as int) <= 57) || (97 <= (c as int) && (c as int) <= 102)
}

/// The value of a digit character (decimal or lower-case hexadecimal).
pub open spec fn digit_value(c: char) -> int {
    if (c as int) <= 57 {
        (c as int) - 48
    } else {
        (c as int) - 87
    }
}

/// The number that a string of digits denotes in base `base`.
pub open spec fn numeral_value(s: Seq<char>, base: int) -> int
    decreases s.len(),
{
    if s.len() == 0 {
        0
    } else {
        numeral_value(s.drop_last(), base) * base + digit_value(s.last())
    }
}

/// The decimal numeral of `n` consists of decimal digits, reads back as `n`
/// in base ten, and has no leading zero (unless it is `0` itself).
pub proof fn law_decimal_numeral(n: nat)
    ensures
        spec_dec(n).len() >= 1,
        forall|i: int| 0 <= i < spec_dec(n).len() ==> is_dec_char(#[trigger] spec_dec(n)[i]),
        numeral_value(spec_dec(n), 10) == n,
        n > 0 ==> spec_dec(n)[0] != '0',
    decreases n,
{
    if n < 10 {
        let s = spec_dec(n);
        assert(s.drop_last() =~= Seq::<char>::empty());
        assert(digit_value(dec_digit(n)) == n);
        assert(numeral_value(s.drop_last(), 10) == 0);
        assert(s.last() == dec_digit(n));
        assert(numeral_value(s, 10) == n);
    } else {
        law_decimal_numeral(n / 10);
        let s = spec_dec(n);
        assert(s.drop_last() =~= spec_dec(n / 10));
        assert(s[0] == spec_dec(n / 10)[0]);
        assert forall|i: int| 0 <= i < s.len() implies is_dec_char(#[trigger] s[i]) by {
            if i < s.len() - 1 {
                assert(s[i] == spec_dec(n / 10)[i]);
            }
        }
        assert(s.last() == dec_digit(n % 10));
        assert(digit_value(dec_digit(n % 10)) == n % 10);
        assert(numeral_value(s, 10) == numeral_value(spec_dec(n / 10), 10) * 10 + (n % 10) as int);
        assert((n / 10) as int * 10 + (n % 10) as int == n as int) by (nonlinear_arith);
    }
}

/// The hexadecimal numeral of `n` consists of lower-case hex digits, reads
/// back as `n` in base sixteen, and has no leading zero (unless it is `0`).
pub proof fn law_hex_numeral(n: nat)
    ensures
        spec_hex(n).len() >= 1,
        forall|i: int| 0 <= i < spec_hex(n).len() ==> is_hex_char(#[trigger] spec_hex(n)[i]),
        numeral_value(spec_hex(n), 16) == n,
        n > 0 ==> spec_hex(n)[0] != '0',
    decreases n,
{
    if n < 16 {
        let s = spec_hex(n);
        assert(s.drop_last() =~= Seq::<char>::empty());
        assert(digit_value(hex_digit(n)) == n);
        assert(numeral_value(s.drop_last(), 16) == 0);
        assert(s.last() == hex_digit(n));
        assert(numeral_value(s, 16) == n);
    } else {
        law_hex_numeral(n / 16);
        let s = spec_hex(n);
        assert(s.drop_last() =~= spec_hex(n / 16));
        assert(s[0] == spec_hex(n / 16)[0]);
        assert forall|i: int| 0 <= i < s.len() implies is_hex_char(#[trigger] s[i]) by {
            if i < s.len() - 1 {
                assert(s[i] == spec_hex(n / 16)[i]);
            }
        }
        assert(s.last() == hex_digit(n % 16));
        assert(digit_value(hex_digit(n % 16)) == n % 16);
        assert(numeral_value(s, 16) == numeral_value(spec_hex(n / 16), 16) * 16 + (n % 16) as int);
        assert((n / 16) as int * 16 + (n % 16) as int == n as int) by (nonlinear_arith);
    }
}

proof fn lemma_zeros_value(k: nat, base: int)
    ensures
        numeral_value(Seq::new(k, |_i: int| '0'), base) == 0,
    decreases k,
{
    if k > 0 {
        lemma_zeros_value((k - 1) as nat, base);
        assert(Seq::new(k, |_i: int| '0').drop_last() =~= Seq::new((k - 1) as nat, |_i: int| '0'));
    }
}

proof fn lemma_prefix_zeros_value(z: Seq<char>, s: Seq<char>, base: int)
    requires
        numeral_value(z, base) == 0,
    ensures
        numeral_value(z + s, base) == numeral_value(s, base),
    decreases s.len(),
{
    if s.len() == 0 {
        assert(z + s =~= z);
    } else {
        lemma_prefix_zeros_value(z, s.drop_last(), base);
        assert((z + s).drop_last() =~= z + s.drop_last());
        assert((z + s).last() == s.last());
    }
}

/// Padding a numeral on the left with zeros keeps the number it denotes, and
/// the padded numeral is at least as long as the field.
pub proof fn law_zero_padding_keeps_value(s: Seq<char>, width: nat, base: int)
    ensures
        numeral_value(pad_left(s, width, '0'), base) == numeral_value(s, base),
        pad_left(s, width, '0').len() == if s.len() >= width {
            s.len()
        } else {
            width
        },
        forall|i: int|
            0 <= i < pad_left(s, width, '0').len() - s.len() ==> #[trigger] pad_left(
                s,
                width,
                '0',
            )[i] == '0',
        pad_left(s, width, '0').skip(pad_left(s, width, '0').len() - s.len()) == s,
{
    if s.len() < width {
        let k = (width - s.len()) as nat;
        lemma_zeros_value(k, base);
        lemma_prefix_zeros_value(Seq::new(k, |_i: int| '0'), s, base);
        assert(pad_left(s, width, '0').skip(k as int) =~= s);
    } else {
        assert(s.skip(0) =~= s);
    }
}

/// The items joined with `sep` between consecutive ones.
pub open spec fn spec_join(items: Seq<Seq<char>>, sep: Seq<char>) -> Seq<char>
    decreases items.len(),
{
    if items.len() == 0 {
        Seq::<char>::empty()
    } else if items.len() == 1 {
        items[0]
    } else {
        spec_join(items.drop_last(), sep) + sep + items.last()
    }
}

fn hex_char(d: u64) -> (c: char)
    requires
        d < 16,
    ensures
        c == hex_digit(d as nat),
{
    if d < 10 {
        ((48 + d) as u8) as char
    } else {
        ((87 + d) as u8) as char
    }
}

fn dec_char(d: u64) -> (c: char)
    requires
        d < 10,
    ensures
        c == dec_digit(d as nat),
{
    ((48 + d) as u8) as char
}

/// Hexadecimal numeral of `n` as characters.
pub fn hex_numeral(n: u64) -> (v: Vec<char>)
    ensures
        v@ == spec_hex(n as nat),
    decreases n,
{
    if n < 16 {
        let mut v: Vec<char> = Vec::new();
        v.push(hex_char(n));
        v
    } else {
        let mut v = hex_numeral(n / 16);
        v.push(hex_char(n % 16));
        v
    }
}

/// Decimal numeral of `n` as characters.
pub fn dec_numeral(n: u64) -> (v: Vec<char>)
    ensures
        v@ == spec_dec(n as nat),
    decreases n,
{
    if n < 10 {
        let mut v: Vec<char> = Vec::new();
        v.push(dec_char(n));
        v
    } else {
        let mut v = dec_numeral(n / 10);
        v.push(dec_char(n % 10));
        v
    }
}

/// Appends one character to a string; calls `String::push`, which the
/// standard library documents as appending the character to the end.
#[verifier::external_body]
pub(crate) fn push_char(s: &mut String, c: char)
    ensures
        final(s)@ == old(s)@.push(c),
{
    s.push(c);
}

/// Appends every character of `v` to `s`.
pub fn push_chars(s: &mut String, v: &Vec<char>)
    ensures
        final(s)@ == old(s)@ + v@,
{
    let mut i: usize = 0;
    while i < v.len()
        invariant
            i <= v.len(),
            s@ == old(s)@ + v@.take(i as int),
        decreases v.len() - i,
    {
        push_char(s, v[i]);
        assert(v@.take(i as int).push(v@[i as int]) =~= v@.take(i + 1));
        i = i + 1;
    }
    assert(v@.take(v.len() as int) =~= v@);
}

/// Appends `fill` `count` times.
pub fn push_repeated(s: &mut String, fill: char, count: usize)
    ensures
        final(s)@ == old(s)@ + Seq::new(count as nat, |_i: int| fill),
{
    let mut i: usize = 0;
    while i < count
        invariant
            i <= count,
            s@ == old(s)@ + Seq::new(i as nat, |_i: int| fill),
        decreases count - i,
    {
        push_char(s, fill);
        assert(Seq::new(i as nat, |_i: int| fill).push(fill) =~= Seq::new((i + 1) as nat, |_i: int| fill));
        i = i + 1;
    }
}

/// Appends the characters of `v`, right-aligned in a field of `width`
/// characters filled with `fill`.
pub fn push_padded(s: &mut String, v: &Vec<char>, width: usize, fill: char)
    ensures
        final(s)@ == old(s)@ + pad_left(v@, width as nat, fill),
{
    if v.len() < width {
        push_repeated(s, fill, width - v.len());
        push_chars(s, v);
        assert(old(s)@ + pad_left(v@, width as nat, fill) =~= old(s)@ + Seq::new((width - v.len()) as nat, |_i: int| fill) + v@);
    } else {
        push_chars(s, v);
    }
}

/// Appends the lower-case hexadecimal numeral of `n`, zero-padded to `width`.
pub fn push_hex(s: &mut String, n: u64, width: usize)
    ensures
        final(s)@ == old(s)@ + pad_left(spec_hex(n as nat), width as nat, '0'),
{
    let v = hex_numeral(n);
    push_padded(s, &v, width, '0');
}

/// Appends the decimal numeral of `n`, padded to `width` with `fill`.
pub fn push_dec(s: &mut String, n: u64, width: usize, fill: char)
    ensures
        final(s)@ == old(s)@ + pad_left(spec_dec(n as nat), width as nat, fill),
{
    let v = dec_numeral(n);
    push_padded(s, &v, width, fill);
}

/// Appends the decimal numeral of a signed integer.
pub fn push_int(s: &mut String, i: i64)
    ensures
        final(s)@ == old(s)@ + spec_int(i as int),
{
    if i < 0 {
        push_char(s, '-');
        let m: u64 = (0i128 - (i as i128)) as u64;
        let v = dec_numeral(m);
        push_chars(s, &v);
        assert(old(s)@ + spec_int(i as int) =~= old(s)@.push('-') + spec_dec(m as nat));
    } else {
        let v = dec_numeral(i as u64);
        push_chars(s, &v);
    }
}

/// Appends a string slice.
pub fn push_str(s: &mut String, t: &str)
    ensures
        final(s)@ == old(s)@ + t@,
{
    s.append(t);
}

} // verus!
