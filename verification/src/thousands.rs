//! Decimal text of integers, with and without thousands separators.
use vstd::prelude::*;

verus! {

/// The character of the decimal digit `d` (`d < 10`).
pub open spec fn digit_char(d: nat) -> char {
    (48 + d) as char
}

/// The decimal numeral of `n`, most significant digit first, without leading zeros.
pub open spec fn decimal(n: nat) -> Seq<char>
    decreases n,
{
    if n < 10 {
        seq![digit_char(n)]
    } else {
        decimal(n / 10).push(digit_char(n % 10))
    }
}

/// `digits` with a `,` before every full group of three counted from the right.
pub open spec fn group_thousands(digits: Seq<char>) -> Seq<char>
    decreases digits.len(),
{
    if digits.len() <= 3 {
        digits
    } else {
        group_thousands(digits.take(digits.len() - 3)) + seq![','] + digits.skip(
            digits.len() - 3,
        )
    }
}

/// The text of `value` as `Display` writes it: a `-` for negative values, then the numeral.
pub open spec fn decimal_text(value: int) -> Seq<char> {
    if value < 0 {
        seq!['-'] + decimal((-value) as nat)
    } else {
        decimal(value as nat)
    }
}

/// The text of `value` with its digits grouped by thousands.
pub open spec fn thousands_text(value: int) -> Seq<char> {
    if value < 0 {
        seq!['-'] + group_thousands(decimal((-value) as nat))
    } else {
        group_thousands(decimal(value as nat))
    }
}

/// Appends `c` to `s` (`String::push`).
#[verifier::external_body]
fn push_char(s: &mut String, c: char)
    ensures
        final(s)@ == old(s)@.push(c),
{
    s.push(c);
}

/// The absolute value of `value`, which always fits in a `u64`.
fn magnitude(value: i64) -> (m: u64)
    ensures
        m as int == (if value < 0 { -value } else { value as int }),
{
    if value < 0 {
        ((-(value + 1)) as u64) + 1
    } else {
        value as u64
    }
}

/// The digits of `n`, most significant first.
fn decimal_digits(n: u64) -> (digits: Vec<char>)
    ensures
        digits@ == decimal(n as nat),
{
    let mut m: u64 = n;
    let mut digits: Vec<char> = Vec::new();
    loop
        invariant
            decimal(n as nat) == decimal(m as nat) + digits@,
        decreases m,
    {
        let d: u64 = m % 10;
        let c: char = ((48u8 + (d as u8)) as char);
        assert(c == digit_char(d as nat));
        digits.insert(0, c);
        if m < 10 {
            assert(decimal(m as nat) == seq![c]);
            assert(decimal(n as nat) == digits@);
            return digits;
        }
        let ghost old_m = m;
        m = m / 10;
        assert(decimal(old_m as nat) == decimal(m as nat).push(c));
        assert(decimal(m as nat) + digits@ =~= decimal(old_m as nat) + digits@.drop_first());
    }
}

/// Appends `digits` to `out`, grouped by thousands.
fn push_grouped(out: &mut String, digits: &Vec<char>)
    requires
        digits.len() >= 1,
    ensures
        final(out)@ == old(out)@ + group_thousands(digits@),
{
    let len: usize = digits.len();
    let first: usize = if len % 3 == 0 {
        3
    } else {
        len % 3
    };
    let ghost start = out@;
    let mut i: usize = 0;
    assert(1 <= first <= len);
    while i < first
        invariant
            first <= len == digits.len(),
            i <= first,
            out@ == start + digits@.take(i as int),
        decreases first - i,
    {
        push_char(out, digits[i]);
        assert(digits@.take(i + 1) =~= digits@.take(i as int).push(digits@[i as int]));
        i = i + 1;
    }
    assert(group_thousands(digits@.take(first as int)) == digits@.take(first as int));
    let mut k: usize = first;
    while k < len
        invariant
            1 <= first <= k <= len == digits.len(),
            (len - k) % 3 == 0,
            out@ == start + group_thousands(digits@.take(k as int)),
        decreases len - k,
    {
        let ghost before = out@;
        assert(len - k >= 3);
        push_char(out, ',');
        push_char(out, digits[k]);
        push_char(out, digits[k + 1]);
        push_char(out, digits[k + 2]);
        let ghost next = digits@.take(k + 3);
        assert(next.len() == k + 3 > 3);
        assert(group_thousands(next) == group_thousands(next.take(next.len() - 3)) + seq![',']
            + next.skip(next.len() - 3));
        assert(out@ =~= before + seq![',', digits@[k as int], digits@[k + 1], digits@[k + 2]]);
        assert(next.take(next.len() - 3) =~= digits@.take(k as int));
        assert(next.skip(next.len() - 3) =~= seq![digits@[k as int], digits@[k + 1], digits@[k + 2]]);
        assert(out@ =~= start + group_thousands(next));
        k = k + 3;
    }
    assert(digits@.take(len as int) =~= digits@);
}

/// The text of `value` with a `,` between each group of three digits, counted
/// from the right, and a leading `-` for negative values: `1234567` gives
/// `1,234,567` and `-1000` gives `-1,000`.
pub fn format_thousands(value: i64) -> (text: String)
    ensures
        text@ == thousands_text(value as int),
{
    let m = magnitude(value);
    let digits = decimal_digits(m);
    proof {
        lemma_decimal_shape(m as nat);
    }
    let mut text = String::new();
    if value < 0 {
        push_char(&mut text, '-');
    }
    push_grouped(&mut text, &digits);
    text
}

/// The text of `value` as `{}` formats an `i64`: `-42` gives `-42`.
pub fn format_decimal(value: i64) -> (text: String)
    ensures
        text@ == decimal_text(value as int),
{
    let digits = decimal_digits(magnitude(value));
    let mut text = String::new();
    if value < 0 {
        push_char(&mut text, '-');
    }
    let mut i: usize = 0;
    let ghost start = text@;
    while i < digits.len()
        invariant
            i <= digits.len(),
            text@ == start + digits@.take(i as int),
        decreases digits.len() - i,
    {
        push_char(&mut text, digits[i]);
        assert(digits@.take(i + 1) =~= digits@.take(i as int).push(digits@[i as int]));
        i = i + 1;
    }
    assert(digits@.take(digits.len() as int) =~= digits@);
    text
}

/// Every numeral has at least one digit, and each of its characters is a digit.
pub proof fn lemma_decimal_shape(n: nat)
    ensures
        decimal(n).len() >= 1,
        forall|i: int| 0 <= i < decimal(n).len() ==> is_digit(#[trigger] decimal(n)[i]),
    decreases n,
{
    if n >= 10 {
        lemma_decimal_shape(n / 10);
    }
}

/// Whether `c` is one of `0` to `9`.
pub open spec fn is_digit(c: char) -> bool {
    '0' <= c <= '9'
}


/// `s` with every `,` taken out.
pub open spec fn without_commas(s: Seq<char>) -> Seq<char>
    decreases s.len(),
{
    if s.len() == 0 {
        s
    } else if s.last() == ',' {
        without_commas(s.drop_last())
    } else {
        without_commas(s.drop_last()).push(s.last())
    }
}

/// The number that a string of decimal digits stands for.
pub open spec fn numeral_value(s: Seq<char>) -> nat
    decreases s.len(),
{
    if s.len() == 0 {
        0
    } else {
        numeral_value(s.drop_last()) * 10 + ((s.last() as int) - 48) as nat
    }
}

/// How a reader takes a grouped number: an optional `-`, then digits and separators.
pub open spec fn read_thousands(s: Seq<char>) -> int {
    if s.len() > 0 && s[0] == '-' {
        -(numeral_value(without_commas(s.drop_first())) as int)
    } else {
        numeral_value(without_commas(s)) as int
    }
}

/// Whether `s` holds no `,`.
pub open spec fn comma_free(s: Seq<char>) -> bool {
    forall|i: int| 0 <= i < s.len() ==> s[i] != ','
}

proof fn lemma_without_commas_append(a: Seq<char>, b: Seq<char>)
    ensures
        without_commas(a + b) == without_commas(a) + without_commas(b),
    decreases b.len(),
{
    if b.len() == 0 {
        assert(a + b =~= a);
        assert(without_commas(a) + without_commas(b) =~= without_commas(a));
    } else {
        lemma_without_commas_append(a, b.drop_last());
        assert((a + b).drop_last() =~= a + b.drop_last());
        if b.last() != ',' {
            assert(without_commas(a) + without_commas(b.drop_last()).push(b.last())
                =~= (without_commas(a) + without_commas(b.drop_last())).push(b.last()));
        }
    }
}

proof fn lemma_without_commas_of_comma_free(s: Seq<char>)
    requires
        comma_free(s),
    ensures
        without_commas(s) == s,
    decreases s.len(),
{
    if s.len() > 0 {
        lemma_without_commas_of_comma_free(s.drop_last());
        assert(s.drop_last().push(s.last()) =~= s);
    }
}

/// Grouping only inserts separators: taking them out again gives the digits back.
pub proof fn law_grouping_keeps_digits(digits: Seq<char>)
    requires
        comma_free(digits),
    ensures
        without_commas(group_thousands(digits)) == digits,
    decreases digits.len(),
{
    let len = digits.len();
    if len <= 3 {
        lemma_without_commas_of_comma_free(digits);
    } else {
        let head = digits.take(len - 3);
        let tail = digits.skip(len - 3);
        assert(comma_free(head));
        assert(comma_free(tail));
        law_grouping_keeps_digits(head);
        lemma_without_commas_append(group_thousands(head) + seq![','], tail);
        lemma_without_commas_append(group_thousands(head), seq![',']);
        let comma = seq![','];
        assert(comma.last() == ',');
        assert(comma.drop_last() =~= Seq::<char>::empty());
        assert(without_commas(comma) == without_commas(comma.drop_last()));
        assert(without_commas(comma) =~= Seq::<char>::empty());
        lemma_without_commas_of_comma_free(tail);
        assert(head + tail =~= digits);
        assert(without_commas(group_thousands(head)) + Seq::<char>::empty() =~= head);
        assert(group_thousands(digits) == group_thousands(head) + comma + tail);
    }
}

/// The numeral of `n` stands for `n`.
pub proof fn law_decimal_reads_back(n: nat)
    ensures
        numeral_value(decimal(n)) == n,
        comma_free(decimal(n)),
    decreases n,
{
    lemma_decimal_shape(n);
    if n >= 10 {
        law_decimal_reads_back(n / 10);
        assert(decimal(n).drop_last() =~= decimal(n / 10));
        assert(decimal(n).last() == digit_char(n % 10));
    }
    let d: nat = n % 10;
    assert((digit_char(d) as int) == 48 + d);
    if n >= 10 {
        assert(numeral_value(decimal(n)) == numeral_value(decimal(n / 10)) * 10 + d);
        assert(numeral_value(decimal(n / 10)) == n / 10);
        assert((n / 10) * 10 + d == n);
    } else {
        assert(decimal(n).drop_last() =~= Seq::<char>::empty());
        assert(numeral_value(decimal(n)) == numeral_value(Seq::<char>::empty()) * 10 + d);
        assert(d == n);
    }
}

/// The first character of a grouped numeral is its first digit.
proof fn lemma_group_first(digits: Seq<char>)
    requires
        digits.len() >= 1,
    ensures
        group_thousands(digits).len() >= 1,
        group_thousands(digits)[0] == digits[0],
    decreases digits.len(),
{
    if digits.len() > 3 {
        lemma_group_first(digits.take(digits.len() - 3));
    }
}

/// Separators are all that the grouped text adds to the plain text of the value.
pub proof fn law_separators_only(value: int)
    ensures
        without_commas(thousands_text(value)) == decimal_text(value),
{
    let n: nat = if value < 0 { (-value) as nat } else { value as nat };
    law_decimal_reads_back(n);
    law_grouping_keeps_digits(decimal(n));
    if value < 0 {
        lemma_without_commas_append(seq!['-'], group_thousands(decimal(n)));
        let minus = seq!['-'];
        assert(minus.drop_last() =~= Seq::<char>::empty());
        assert(minus.last() == '-');
        assert(without_commas(minus) == without_commas(minus.drop_last()).push('-'));
        assert(without_commas(minus) =~= minus);
    }
}

/// Read back, the grouped text of a value is that value.
pub proof fn law_thousands_reads_back(value: int)
    ensures
        read_thousands(thousands_text(value)) == value,
{
    let n: nat = if value < 0 { (-value) as nat } else { value as nat };
    law_decimal_reads_back(n);
    law_grouping_keeps_digits(decimal(n));
    lemma_group_first(decimal(n));
    lemma_decimal_shape(n);
    if value < 0 {
        assert((seq!['-'] + group_thousands(decimal(n))).drop_first() =~= group_thousands(
            decimal(n),
        ));
    } else {
        assert(is_digit(decimal(n)[0]));
    }
}

/// The grouped text starts with `-` exactly for negative values.
pub proof fn law_sign_first(value: int)
    ensures
        thousands_text(value).len() >= 1,
        (thousands_text(value)[0] == '-') <==> value < 0,
{
    let n: nat = if value < 0 { (-value) as nat } else { value as nat };
    lemma_decimal_shape(n);
    lemma_group_first(decimal(n));
}

/// Values of fewer than four digits get no separator.
pub proof fn law_short_values_ungrouped(value: int)
    requires
        -1000 < value < 1000,
    ensures
        thousands_text(value) == decimal_text(value),
{
    let n: nat = if value < 0 { (-value) as nat } else { value as nat };
    reveal_with_fuel(decimal, 3);
    assert(decimal(n).len() <= 3);
}


/// Every `,` in `s` is followed by exactly three other characters and then by the
/// end or another `,`, and one to three characters stand before the first `,`.
pub open spec fn grouped_by_three(s: Seq<char>) -> bool {
    &&& s.len() >= 1
    &&& s[0] != ','
    &&& (s.len() <= 3 || s[1] == ',' || s[2] == ',' || s[3] == ',')
    &&& forall|i: int|
        #![trigger s[i]]
        0 <= i < s.len() && s[i] == ',' ==> {
            &&& i + 3 < s.len()
            &&& s[i + 1] != ','
            &&& s[i + 2] != ','
            &&& s[i + 3] != ','
            &&& (i + 4 == s.len() || s[i + 4] == ',')
        }
}

/// Grouping splits a numeral into a leading group of one to three digits and
/// then groups of exactly three.
pub proof fn law_groups_of_three(digits: Seq<char>)
    requires
        digits.len() >= 1,
        comma_free(digits),
    ensures
        grouped_by_three(group_thousands(digits)),
    decreases digits.len(),
{
    let len = digits.len();
    if len > 3 {
        let head = digits.take(len - 3);
        let tail = digits.skip(len - 3);
        assert(comma_free(head));
        law_groups_of_three(head);
        let g = group_thousands(head);
        let s = group_thousands(digits);
        assert(s == g + seq![','] + tail);
        let m: int = g.len() as int;
        assert(s.len() == m + 4);
        assert forall|i: int| 0 <= i < m implies s[i] == g[i] by {}
        assert(s[m] == ',');
        assert forall|i: int| m < i < s.len() implies s[i] == tail[i - m - 1] && s[i] != ',' by {}
        assert forall|i: int|
            #![trigger s[i]]
            0 <= i < s.len() && s[i] == ',' implies {
                &&& i + 3 < s.len()
                &&& s[i + 1] != ','
                &&& s[i + 2] != ','
                &&& s[i + 3] != ','
                &&& (i + 4 == s.len() || s[i + 4] == ',')
            } by {
            if i < m {
                assert(g[i] == ',');
                assert(i + 3 < m);
                assert(s[i + 1] == g[i + 1]);
                assert(s[i + 2] == g[i + 2]);
                assert(s[i + 3] == g[i + 3]);
                if i + 4 < m {
                    assert(s[i + 4] == g[i + 4]);
                }
            }
        }
        if m > 3 {
            assert(s[1] == g[1] && s[2] == g[2] && s[3] == g[3]);
        }
        assert(s[0] == g[0]);
    }
}


/// Whether every character of `s` is a decimal digit.
pub open spec fn all_digits(s: Seq<char>) -> bool {
    forall|i: int| 0 <= i < s.len() ==> is_digit(#[trigger] s[i])
}

/// The numeral of a positive number starts with a nonzero digit.
pub proof fn law_decimal_no_leading_zero(n: nat)
    requires
        n > 0,
    ensures
        decimal(n).len() >= 1,
        decimal(n)[0] != '0',
    decreases n,
{
    if n < 10 {
        assert((digit_char(n) as int) == 48 + n);
    } else {
        law_decimal_no_leading_zero(n / 10);
        assert(decimal(n)[0] == decimal(n / 10)[0]);
    }
}

/// A digit string that starts with a nonzero digit stands for a positive number.
proof fn lemma_numeral_positive(s: Seq<char>)
    requires
        s.len() >= 1,
        all_digits(s),
        s[0] != '0',
    ensures
        numeral_value(s) >= 1,
    decreases s.len(),
{
    if s.len() == 1 {
        assert(s.drop_last() =~= Seq::<char>::empty());
    } else {
        let t = s.drop_last();
        assert(t[0] == s[0]);
        assert(all_digits(t));
        lemma_numeral_positive(t);
        assert(is_digit(s.last()));
    }
}

/// The numeral of `n` is the only digit string without a leading zero that stands
/// for `n`: it is how `Display` writes the number.
pub proof fn law_decimal_canonical(s: Seq<char>)
    requires
        s.len() >= 1,
        all_digits(s),
        s[0] != '0' || s.len() == 1,
    ensures
        s == decimal(numeral_value(s)),
    decreases s.len(),
{
    let n = numeral_value(s);
    let last = s.last();
    assert(is_digit(last));
    let d: nat = ((last as int) - 48) as nat;
    assert(d < 10);
    assert(digit_char(d) == last);
    if s.len() == 1 {
        assert(s.drop_last() =~= Seq::<char>::empty());
        assert(numeral_value(s.drop_last()) == 0);
        assert(n == numeral_value(s.drop_last()) * 10 + d);
        assert(n == d);
        assert(s =~= seq![digit_char(d)]);
    } else {
        let t = s.drop_last();
        assert(t[0] == s[0]);
        assert(all_digits(t));
        law_decimal_canonical(t);
        lemma_numeral_positive(t);
        let m = numeral_value(t);
        assert(n == m * 10 + d);
        assert(n / 10 == m);
        assert(n % 10 == d);
        assert(decimal(n) == decimal(m).push(digit_char(d)));
        assert(t.push(last) =~= s);
    }
}

/// The plain text of a value is how `Display` writes an integer: a `-` exactly
/// for negative values, then the digits of its magnitude with no leading zero.
pub proof fn law_decimal_text_is_display(value: int)
    ensures
        ({
            let text = decimal_text(value);
            let body = if value < 0 {
                text.drop_first()
            } else {
                text
            };
            &&& text.len() >= 1
            &&& (text[0] == '-') <==> value < 0
            &&& body.len() >= 1
            &&& all_digits(body)
            &&& (body[0] != '0' || body.len() == 1)
            &&& numeral_value(body) == (if value < 0 {
                -value
            } else {
                value
            })
        }),
{
    let n: nat = if value < 0 { (-value) as nat } else { value as nat };
    lemma_decimal_shape(n);
    law_decimal_reads_back(n);
    if n > 0 {
        law_decimal_no_leading_zero(n);
    } else {
        assert(decimal(n).len() == 1);
    }
    if value < 0 {
        assert((seq!['-'] + decimal(n)).drop_first() =~= decimal(n));
    } else {
        assert(is_digit(decimal(n)[0]));
    }
}

/// The grouped text of a value: a `-` exactly for negative values, then the
/// digits of its magnitude, with no leading zero, split by `,` into a leading
/// group of one to three digits and groups of exactly three.
pub proof fn law_thousands_text_shape(value: int)
    ensures
        ({
            let text = thousands_text(value);
            let magnitude: nat = if value < 0 {
                (-value) as nat
            } else {
                value as nat
            };
            let body = if value < 0 {
                text.drop_first()
            } else {
                text
            };
            &&& text.len() >= 1
            &&& (text[0] == '-') <==> value < 0
            &&& grouped_by_three(body)
            &&& without_commas(body) == decimal(magnitude)
            &&& (body[0] != '0' || body.len() == 1)
            &&& numeral_value(without_commas(body)) == magnitude
        }),
{
    let n: nat = if value < 0 { (-value) as nat } else { value as nat };
    lemma_decimal_shape(n);
    law_decimal_reads_back(n);
    law_sign_first(value);
    law_grouping_keeps_digits(decimal(n));
    law_groups_of_three(decimal(n));
    lemma_group_first(decimal(n));
    if n > 0 {
        law_decimal_no_leading_zero(n);
    } else {
        assert(decimal(n).len() == 1);
        assert(group_thousands(decimal(n)) == decimal(n));
    }
    if value < 0 {
        assert((seq!['-'] + group_thousands(decimal(n))).drop_first() =~= group_thousands(
            decimal(n),
        ));
    }
}

} // verus!
