//! The colour channels of a `#rrggbb` value, as a colour input reports it.
use vstd::prelude::*;
use vstd::string::StringSliceAdditionalSpecFns;

verus! {

/// The value of the hexadecimal digit `b`, as `char::to_digit(16)` reads it.
pub open spec fn hex_digit(b: u8) -> Option<nat> {
    if 48 <= b <= 57 {
        Some((b - 48) as nat)
    } else if 97 <= b <= 102 {
        Some((b - 87) as nat)
    } else if 65 <= b <= 70 {
        Some((b - 55) as nat)
    } else {
        None
    }
}

/// Whether every byte of `s` is a hexadecimal digit.
pub open spec fn all_hex(s: Seq<u8>) -> bool {
    forall|i: int| 0 <= i < s.len() ==> (#[trigger] hex_digit(s[i])) is Some
}

/// The number that the hexadecimal digits `s` stand for.
pub open spec fn hex_value(s: Seq<u8>) -> nat
    decreases s.len(),
{
    if s.len() == 0 {
        0
    } else {
        hex_value(s.drop_last()) * 16 + match hex_digit(s.last()) {
            Some(d) => d,
            None => 0,
        }
    }
}

/// What `u8::from_str_radix` gives for the bytes `s` in base 16: an optional `+`,
/// then at least one hexadecimal digit, of a value that fits in a byte.
pub open spec fn parse_hex_u8(s: Seq<u8>) -> Option<u8> {
    let digits = if s.len() > 0 && s[0] == 43 {
        s.drop_first()
    } else {
        s
    };
    if digits.len() == 0 || !all_hex(digits) || hex_value(digits) > 255 {
        None
    } else {
        Some(hex_value(digits) as u8)
    }
}

/// The bytes `start..end` of the UTF-8 text `bytes`, as `str::get` gives them:
/// none unless both ends lie on character boundaries within the text.
pub open spec fn text_range(bytes: Seq<u8>, start: int, end: int) -> Option<Seq<u8>> {
    if start <= end <= bytes.len() && vstd::utf8::is_char_boundary(bytes, start)
        && vstd::utf8::is_char_boundary(bytes, end) {
        Some(bytes.subrange(start, end))
    } else {
        None
    }
}

/// The channel written by the two bytes at `start` of the UTF-8 text `bytes`.
pub open spec fn channel_at(bytes: Seq<u8>, start: int) -> Option<u8> {
    match text_range(bytes, start, start + 2) {
        Some(s) => parse_hex_u8(s),
        None => None,
    }
}

/// The red, green and blue channels of the colour text `bytes` (`#rrggbb`).
pub open spec fn channels_of(bytes: Seq<u8>) -> (Option<u8>, Option<u8>, Option<u8>) {
    (channel_at(bytes, 1), channel_at(bytes, 3), channel_at(bytes, 5))
}

/// The value of the hexadecimal digit `b` (`0`-`9`, `a`-`f`, `A`-`F` in ASCII), if it is one.
fn hex_digit_of(b: u8) -> (r: Option<u8>)
    ensures
        match hex_digit(b) {
            Some(v) => r == Some(v as u8),
            None => r is None,
        },
{
    if 48 <= b && b <= 57 {
        Some(b - 48)
    } else if 97 <= b && b <= 102 {
        Some(b - 87)
    } else if 65 <= b && b <= 70 {
        Some(b - 55)
    } else {
        None
    }
}

proof fn lemma_hex_value_grows(s: Seq<u8>, j: int, k: int)
    requires
        0 <= j <= k <= s.len(),
    ensures
        hex_value(s.take(j)) <= hex_value(s.take(k)),
    decreases k - j,
{
    if j < k {
        lemma_hex_value_grows(s, j, k - 1);
        assert(s.take(k).drop_last() =~= s.take(k - 1));
    }
}

/// `u8::from_str_radix` in base 16 on the bytes `start..end` of `bytes`.
pub fn parse_hex_byte(bytes: &[u8], start: usize, end: usize) -> (r: Option<u8>)
    requires
        start <= end <= bytes@.len(),
    ensures
        r == parse_hex_u8(bytes@.subrange(start as int, end as int)),
{
    let ghost s = bytes@.subrange(start as int, end as int);
    let mut first: usize = start;
    if first < end && bytes[first] == 43 {
        first = first + 1;
    }
    let ghost digits = bytes@.subrange(first as int, end as int);
    assert(digits == (if s.len() > 0 && s[0] == 43 { s.drop_first() } else { s }));
    if first == end {
        return None;
    }
    assert(digits.take(0) =~= Seq::<u8>::empty());
    let mut acc: u8 = 0;
    let mut i: usize = first;
    while i < end
        invariant
            start <= first < end <= bytes@.len(),
            first <= i <= end,
            digits == bytes@.subrange(first as int, end as int),
            s == bytes@.subrange(start as int, end as int),
            digits == (if s.len() > 0 && s[0] == 43 { s.drop_first() } else { s }),
            all_hex(digits.take(i - first)),
            acc as nat == hex_value(digits.take(i - first)),
        decreases end - i,
    {
        let ghost k: int = i - first;
        assert(digits[k] == bytes@[i as int]);
        match hex_digit_of(bytes[i]) {
            None => {
                assert(!all_hex(digits));
                return None;
            },
            Some(d) => {
                assert(digits.take(k + 1).drop_last() =~= digits.take(k));
                assert(hex_value(digits.take(k + 1)) == acc * 16 + d);
                if acc > 15 {
                    proof {
                        lemma_hex_value_grows(digits, k + 1, digits.len() as int);
                        assert(digits.take(digits.len() as int) =~= digits);
                    }
                    return None;
                }
                acc = acc * 16 + d;
                assert forall|m: int| 0 <= m < k + 1 implies (#[trigger] hex_digit(
                    digits.take(k + 1)[m],
                )) is Some by {
                    if m < k {
                        assert(digits.take(k + 1)[m] == digits.take(k)[m]);
                    }
                }
            },
        }
        i = i + 1;
    }
    assert(digits.take(digits.len() as int) =~= digits);
    Some(acc)
}

/// The channel written by the two bytes at `start` of `hex`, as
/// `hex.get(start..start + 2)` followed by `u8::from_str_radix(.., 16)` finds it.
pub fn hex_channel(hex: &str, start: usize) -> (channel: Option<u8>)
    requires
        start <= usize::MAX - 2,
    ensures
        channel == channel_at(hex.spec_bytes(), start as int),
{
    let end: usize = start + 2;
    let bytes = hex.as_bytes();
    if end <= bytes.len() && hex.is_char_boundary(start) && hex.is_char_boundary(end) {
        parse_hex_byte(bytes, start, end)
    } else {
        None
    }
}

/// The red, green and blue channels of a `#rrggbb` colour text; a channel whose
/// two bytes are missing or are no hexadecimal number is `None`.
pub fn hex_channels(hex: &str) -> (channels: (Option<u8>, Option<u8>, Option<u8>))
    ensures
        channels == channels_of(hex.spec_bytes()),
{
    (hex_channel(hex, 1), hex_channel(hex, 3), hex_channel(hex, 5))
}


/// A text position after nothing but ASCII bytes lies on a character boundary.
proof fn lemma_ascii_prefix_boundary(bytes: Seq<u8>, i: int)
    requires
        vstd::utf8::valid_utf8(bytes),
        0 <= i <= bytes.len(),
        forall|j: int| 0 <= j < i ==> bytes[j] <= 0x7f,
    ensures
        vstd::utf8::is_char_boundary(bytes, i),
    decreases i,
{
    if i > 0 {
        let rest = vstd::utf8::pop_first_scalar(bytes);
        assert(vstd::utf8::length_of_first_scalar(bytes) == 1);
        assert(rest =~= bytes.subrange(1, bytes.len() as int));
        assert forall|j: int| 0 <= j < i - 1 implies rest[j] <= 0x7f by {
            assert(rest[j] == bytes[j + 1]);
        }
        lemma_ascii_prefix_boundary(rest, i - 1);
    }
}

/// The byte written by the hexadecimal digits `high` and `low`.
pub open spec fn hex_pair(high: u8, low: u8) -> u8 {
    (hex_digit(high).unwrap() * 16 + hex_digit(low).unwrap()) as u8
}

proof fn lemma_pair_channel(bytes: Seq<u8>, start: int)
    requires
        vstd::utf8::valid_utf8(bytes),
        1 <= start,
        start + 2 <= bytes.len(),
        forall|j: int| 0 <= j < start + 2 ==> bytes[j] <= 0x7f,
        hex_digit(bytes[start]) is Some,
        hex_digit(bytes[start + 1]) is Some,
    ensures
        channel_at(bytes, start) == Some(hex_pair(bytes[start], bytes[start + 1])),
{
    lemma_ascii_prefix_boundary(bytes, start);
    lemma_ascii_prefix_boundary(bytes, start + 2);
    let pair = bytes.subrange(start, start + 2);
    assert(pair[0] == bytes[start] && pair[1] == bytes[start + 1]);
    assert(all_hex(pair));
    assert(pair.drop_last().drop_last() =~= Seq::<u8>::empty());
    assert(pair.drop_last().last() == bytes[start]);
    assert(hex_value(pair.drop_last().drop_last()) == 0);
    assert(pair.drop_last().len() == 1);
    assert(pair.last() == bytes[start + 1]);
    assert(hex_value(pair.drop_last()) == hex_digit(bytes[start]).unwrap());
    assert(hex_value(pair) == hex_digit(bytes[start]).unwrap() * 16 + hex_digit(
        bytes[start + 1],
    ).unwrap());
}

/// A colour text `#rrggbb` of hexadecimal digits yields its three channel bytes.
pub proof fn law_well_formed_colour(bytes: Seq<u8>)
    requires
        vstd::utf8::valid_utf8(bytes),
        bytes.len() >= 7,
        bytes[0] <= 0x7f,
        forall|j: int| 1 <= j < 7 ==> (#[trigger] hex_digit(bytes[j])) is Some,
    ensures
        channels_of(bytes) == (
            Some(hex_pair(bytes[1], bytes[2])),
            Some(hex_pair(bytes[3], bytes[4])),
            Some(hex_pair(bytes[5], bytes[6])),
        ),
{
    assert forall|j: int| 0 <= j < 7 implies bytes[j] <= 0x7f by {
        if j >= 1 {
            assert(hex_digit(bytes[j]) is Some);
        }
    }
    assert(hex_digit(bytes[1]) is Some && hex_digit(bytes[2]) is Some);
    assert(hex_digit(bytes[3]) is Some && hex_digit(bytes[4]) is Some);
    assert(hex_digit(bytes[5]) is Some && hex_digit(bytes[6]) is Some);
    lemma_pair_channel(bytes, 1);
    lemma_pair_channel(bytes, 3);
    lemma_pair_channel(bytes, 5);
}


/// The ASCII byte that writes the hexadecimal digit `v` (below 16): `0`-`9`,
/// then `a`-`f`, or `A`-`F` when `upper`.
pub open spec fn hex_char(v: nat, upper: bool) -> u8 {
    if v < 10 {
        (('0' as int) + v) as u8
    } else if upper {
        (('A' as int) + v - 10) as u8
    } else {
        (('a' as int) + v - 10) as u8
    }
}

/// Every hexadecimal digit, in either case, is read as its value.
pub proof fn law_hex_digit_reads_digits(v: nat, upper: bool)
    requires
        v < 16,
    ensures
        hex_digit(hex_char(v, upper)) == Some(v),
{
}

/// No byte but a hexadecimal digit is read as one.
pub proof fn law_hex_digit_rejects_others(b: u8)
    requires
        forall|v: nat, upper: bool| v < 16 ==> b != #[trigger] hex_char(v, upper),
    ensures
        hex_digit(b) is None,
{
    if 48 <= b <= 57 {
        assert(b == hex_char((b - 48) as nat, false));
    } else if 97 <= b <= 102 {
        assert(b == hex_char((b - 87) as nat, false));
    } else if 65 <= b <= 70 {
        assert(b == hex_char((b - 55) as nat, true));
    }
}

/// Two hexadecimal digits, in any case, parse as the byte they write, as
/// `u8::from_str_radix(_, 16)` reads them.
pub proof fn law_two_digits_parse(high: nat, high_upper: bool, low: nat, low_upper: bool)
    requires
        high < 16,
        low < 16,
    ensures
        parse_hex_u8(seq![hex_char(high, high_upper), hex_char(low, low_upper)]) == Some(
            (high * 16 + low) as u8,
        ),
{
    let pair = seq![hex_char(high, high_upper), hex_char(low, low_upper)];
    law_hex_digit_reads_digits(high, high_upper);
    law_hex_digit_reads_digits(low, low_upper);
    assert(pair[0] != 43);
    assert(all_hex(pair));
    assert(pair.drop_last().drop_last() =~= Seq::<u8>::empty());
    assert(pair.drop_last().last() == pair[0]);
    assert(hex_value(pair.drop_last().drop_last()) == 0);
    assert(pair.drop_last().len() == 1);
    assert(hex_value(pair.drop_last()) == high);
    assert(hex_value(pair) == high * 16 + low);
}

/// A colour text `#` followed by six hexadecimal digits, in any case, yields the
/// bytes that the three digit pairs write.
pub proof fn law_colour_channels(bytes: Seq<u8>, digits: Seq<nat>, upper: Seq<bool>)
    requires
        vstd::utf8::valid_utf8(bytes),
        bytes.len() >= 7,
        bytes[0] <= 0x7f,
        digits.len() == 6,
        upper.len() == 6,
        forall|i: int| 0 <= i < 6 ==> digits[i] < 16,
        forall|i: int| 0 <= i < 6 ==> bytes[i + 1] == hex_char(digits[i], upper[i]),
    ensures
        channels_of(bytes) == (
            Some((digits[0] * 16 + digits[1]) as u8),
            Some((digits[2] * 16 + digits[3]) as u8),
            Some((digits[4] * 16 + digits[5]) as u8),
        ),
{
    assert forall|j: int| 1 <= j < 7 implies (#[trigger] hex_digit(bytes[j])) == Some(
        digits[j - 1],
    ) by {
        assert(bytes[(j - 1) + 1] == hex_char(digits[j - 1], upper[j - 1]));
        law_hex_digit_reads_digits(digits[j - 1], upper[j - 1]);
    }
    law_well_formed_colour(bytes);
    assert(hex_digit(bytes[1]) == Some(digits[0]));
    assert(hex_digit(bytes[2]) == Some(digits[1]));
    assert(hex_digit(bytes[3]) == Some(digits[2]));
    assert(hex_digit(bytes[4]) == Some(digits[3]));
    assert(hex_digit(bytes[5]) == Some(digits[4]));
    assert(hex_digit(bytes[6]) == Some(digits[5]));
}


/// As with `u8::from_str_radix`, a leading `+` is allowed before the digits, but
/// a sign alone, a `-` and an empty text are rejected.
pub proof fn law_signs(v: nat, upper: bool, b: u8)
    requires
        v < 16,
    ensures
        parse_hex_u8(seq!['+' as u8, hex_char(v, upper)]) == Some(v as u8),
        parse_hex_u8(seq!['+' as u8]) is None,
        parse_hex_u8(seq!['-' as u8]) is None,
        parse_hex_u8(seq!['-' as u8, b]) is None,
        parse_hex_u8(Seq::<u8>::empty()) is None,
{
    law_hex_digit_reads_digits(v, upper);
    let plus = seq!['+' as u8, hex_char(v, upper)];
    let digit = plus.drop_first();
    assert(digit =~= seq![hex_char(v, upper)]);
    assert(all_hex(digit));
    assert(digit.drop_last() =~= Seq::<u8>::empty());
    assert(hex_value(digit.drop_last()) == 0);
    assert(hex_value(digit) == v);
    assert(seq!['+' as u8].drop_first() =~= Seq::<u8>::empty());
    let minus = seq!['-' as u8, b];
    assert(hex_digit(minus[0]) is None);
}

/// A channel whose two bytes run past the end of the text is missing.
pub proof fn law_short_text_misses_channel(bytes: Seq<u8>, start: int)
    requires
        bytes.len() < start + 2,
    ensures
        channel_at(bytes, start) is None,
{
}

} // verus!
