//! Small verified text building blocks: decimal rendering with and
//! without zero padding, and character escaping for the scripting layer.

use vstd::prelude::*;
use vstd::arithmetic::div_mod::lemma_fundamental_div_mod;

verus! {

/// The ASCII digit for a value 0 through 9.
pub open spec fn spec_digit_char(d: int) -> char {
    if d == 0 {
        '0'
    } else if d == 1 {
        '1'
    } else if d == 2 {
        '2'
    } else if d == 3 {
        '3'
    } else if d == 4 {
        '4'
    } else if d == 5 {
        '5'
    } else if d == 6 {
        '6'
    } else if d == 7 {
        '7'
    } else if d == 8 {
        '8'
    } else {
        '9'
    }
}

/// One-character string slice for a digit value.
pub fn digit_str(d: u8) -> (r: &'static str)
    requires
        d < 10,
    ensures
        r@ =~= seq![spec_digit_char(d as int)],
{
    proof {
        reveal_strlit("0");
        reveal_strlit("1");
        reveal_strlit("2");
        reveal_strlit("3");
        reveal_strlit("4");
        reveal_strlit("5");
        reveal_strlit("6");
        reveal_strlit("7");
        reveal_strlit("8");
        reveal_strlit("9");
    }
    match d {
        0 => "0",
        1 => "1",
        2 => "2",
        3 => "3",
        4 => "4",
        5 => "5",
        6 => "6",
        7 => "7",
        8 => "8",
        _ => "9",
    }
}

/// The decimal digits of a nonnegative number, most significant first,
/// without leading zeros (a lone zero for 0).
pub open spec fn spec_decimal(n: int) -> Seq<char>
    decreases n,
{
    if n < 10 {
        seq![spec_digit_char(n)]
    } else {
        spec_decimal(n / 10).push(spec_digit_char(n % 10))
    }
}

/// Render a number in decimal.
pub fn decimal_string(n: u64) -> (r: String)
    ensures
        r@ =~= spec_decimal(n as int),
    decreases n,
{
    if n < 10 {
        let mut s = String::new();
        s.append(digit_str(n as u8));
        s
    } else {
        proof {
            lemma_fundamental_div_mod(n as int, 10);
        }
        let mut s = decimal_string(n / 10);
        s.append(digit_str((n % 10) as u8));
        s
    }
}

/// A value below 100 rendered as exactly two digits, zero padded.
pub open spec fn spec_two_digits(n: int) -> Seq<char> {
    seq![spec_digit_char(n / 10), spec_digit_char(n % 10)]
}

/// Render a value below 100 as two zero-padded digits.
pub fn two_digit_string(n: u8) -> (r: String)
    requires
        n < 100,
    ensures
        r@ =~= spec_two_digits(n as int),
{
    let mut s = String::new();
    s.append(digit_str(n / 10));
    s.append(digit_str(n % 10));
    s
}

/// A value below 10000 rendered as exactly four digits, zero padded.
pub open spec fn spec_four_digits(n: int) -> Seq<char> {
    seq![
        spec_digit_char(n / 1000),
        spec_digit_char((n / 100) % 10),
        spec_digit_char((n / 10) % 10),
        spec_digit_char(n % 10),
    ]
}

/// Render a value below 10000 as four zero-padded digits.
pub fn four_digit_string(n: u16) -> (r: String)
    requires
        n < 10000,
    ensures
        r@ =~= spec_four_digits(n as int),
{
    let mut s = String::new();
    s.append(digit_str((n / 1000) as u8));
    s.append(digit_str(((n / 100) % 10) as u8));
    s.append(digit_str(((n / 10) % 10) as u8));
    s.append(digit_str((n % 10) as u8));
    s
}

/// A digit character is recovered from its value.
pub proof fn lemma_digit_char_of_val(c: char)
    requires
        crate::clock::spec_is_digit(c),
    ensures
        spec_digit_char(crate::clock::spec_digit_val(c)) == c,
        0 <= crate::clock::spec_digit_val(c) < 10,
{
}

/// The numeric value of a digit string, most significant digit first.
pub open spec fn spec_digits_value(s: Seq<char>) -> int
    decreases s.len(),
{
    if s.len() == 0 {
        0
    } else {
        spec_digits_value(s.drop_last()) * 10 + crate::clock::spec_digit_val(s.last())
    }
}

/// True when every character of the string is a digit.
pub open spec fn spec_all_digits(s: Seq<char>) -> bool {
    forall|i: int| 0 <= i < s.len() ==> crate::clock::spec_is_digit(#[trigger] s[i])
}

/// A nonempty digit string's value is nonnegative, and at least 1 when
/// it does not start with a zero.
proof fn lemma_digits_value_bounds(s: Seq<char>)
    requires
        spec_all_digits(s),
    ensures
        spec_digits_value(s) >= 0,
        s.len() >= 1 && s[0] != '0' ==> spec_digits_value(s) >= 1,
    decreases s.len(),
{
    if s.len() > 0 {
        lemma_digits_value_bounds(s.drop_last());
        lemma_digit_char_of_val(s.last());
        if s.len() == 1 {
            if s[0] != '0' {
                lemma_digit_char_of_val(s[0]);
                assert(crate::clock::spec_digit_val(s[0]) != 0);
            }
        } else {
            assert(s.drop_last()[0] == s[0]);
        }
    }
}

/// Rendering the value of a digit string gives the string back, as long
/// as it carries no leading zero.
pub proof fn lemma_decimal_of_digits(s: Seq<char>)
    requires
        s.len() >= 1,
        spec_all_digits(s),
        s[0] != '0' || s.len() == 1,
    ensures
        spec_digits_value(s) >= 0,
        spec_decimal(spec_digits_value(s)) == s,
    decreases s.len(),
{
    lemma_digits_value_bounds(s);
    let d = crate::clock::spec_digit_val(s.last());
    lemma_digit_char_of_val(s.last());
    if s.len() == 1 {
        assert(s.drop_last().len() == 0);
        assert(spec_digits_value(s.drop_last()) == 0);
        assert(spec_digits_value(s) == d);
        assert(spec_decimal(d) =~= s);
    } else {
        let p = s.drop_last();
        assert(p[0] == s[0]);
        lemma_digits_value_bounds(p);
        let vp = spec_digits_value(p);
        let v = spec_digits_value(s);
        assert(v == vp * 10 + d);
        assert(vp >= 1);
        assert(v >= 10) by (nonlinear_arith)
            requires
                v == vp * 10 + d,
                vp >= 1,
                d >= 0,
        ;
        vstd::arithmetic::div_mod::lemma_fundamental_div_mod_converse(v, 10, vp, d);
        lemma_decimal_of_digits(p);
        assert(spec_decimal(v) == spec_decimal(vp).push(spec_digit_char(d)));
        assert(spec_decimal(v) =~= s);
    }
}

/// Digit characters carry their value: rendering a value below ten gives
/// a digit whose value is that number.
pub proof fn lemma_digit_char_is_digit(d: int)
    requires
        0 <= d < 10,
    ensures
        crate::clock::spec_is_digit(spec_digit_char(d)),
        crate::clock::spec_digit_val(spec_digit_char(d)) == d,
{
}

/// The decimal rendering of a nonnegative number is a nonempty digit
/// string, and starts with a zero only for zero itself.
pub proof fn lemma_decimal_shape(n: int)
    requires
        n >= 0,
    ensures
        spec_decimal(n).len() >= 1,
        spec_all_digits(spec_decimal(n)),
        spec_decimal(n)[0] == '0' ==> n == 0,
        n == 0 ==> spec_decimal(n).len() == 1,
    decreases n,
{
    if n < 10 {
        lemma_digit_char_is_digit(n);
    } else {
        lemma_fundamental_div_mod(n, 10);
        lemma_decimal_shape(n / 10);
        lemma_digit_char_is_digit(n % 10);
        let prev = spec_decimal(n / 10);
        assert forall|i: int|
            0 <= i < spec_decimal(n).len() implies crate::clock::spec_is_digit(
            #[trigger] spec_decimal(n)[i],
        ) by {
            if i < prev.len() {
                assert(spec_decimal(n)[i] == prev[i]);
            }
        }
        assert(spec_decimal(n)[0] == prev[0]);
    }
}

/// The value of a number's decimal rendering is the number itself.
pub proof fn lemma_decimal_value(n: int)
    requires
        n >= 0,
    ensures
        spec_digits_value(spec_decimal(n)) == n,
    decreases n,
{
    lemma_digit_char_is_digit(n % 10);
    if n < 10 {
        lemma_digit_char_is_digit(n);
        assert(spec_digits_value(Seq::<char>::empty()) == 0);
        assert(seq![spec_digit_char(n)].drop_last() =~= Seq::<char>::empty());
        assert(seq![spec_digit_char(n)].last() == spec_digit_char(n));
    } else {
        lemma_fundamental_div_mod(n, 10);
        lemma_decimal_value(n / 10);
        let prev = spec_decimal(n / 10);
        assert(prev.push(spec_digit_char(n % 10)).drop_last() =~= prev);
    }
}

/// A digit string's prefixes have values no larger than the whole's.
pub proof fn lemma_digits_value_prefix(s: Seq<char>, k: int)
    requires
        spec_all_digits(s),
        0 <= k <= s.len(),
    ensures
        0 <= spec_digits_value(s.take(k)) <= spec_digits_value(s),
    decreases s.len() - k,
{
    assert(spec_all_digits(s.take(k)));
    lemma_digits_value_bounds(s.take(k));
    if k == s.len() {
        assert(s.take(k) =~= s);
    } else {
        lemma_digits_value_prefix(s, k + 1);
        assert(s.take(k + 1).drop_last() =~= s.take(k));
        assert(s.take(k + 1).last() == s[k]);
    }
}

/// Zero-padded renderings determine their value: two digits.
pub proof fn lemma_two_digits_injective(a: int, b: int)
    requires
        0 <= a < 100,
        0 <= b < 100,
        spec_two_digits(a) == spec_two_digits(b),
    ensures
        a == b,
{
    lemma_fundamental_div_mod(a, 10);
    lemma_fundamental_div_mod(b, 10);
    lemma_digit_char_is_digit(a / 10);
    lemma_digit_char_is_digit(a % 10);
    lemma_digit_char_is_digit(b / 10);
    lemma_digit_char_is_digit(b % 10);
    assert(spec_two_digits(a)[0] == spec_two_digits(b)[0]);
    assert(spec_two_digits(a)[1] == spec_two_digits(b)[1]);
}

/// Zero-padded renderings determine their value: four digits.
pub proof fn lemma_four_digits_injective(a: int, b: int)
    requires
        0 <= a < 10000,
        0 <= b < 10000,
        spec_four_digits(a) == spec_four_digits(b),
    ensures
        a == b,
{
    lemma_four_digit_fields(a);
    lemma_four_digit_fields(b);
    lemma_digit_char_is_digit(a / 1000);
    lemma_digit_char_is_digit((a / 100) % 10);
    lemma_digit_char_is_digit((a / 10) % 10);
    lemma_digit_char_is_digit(a % 10);
    lemma_digit_char_is_digit(b / 1000);
    lemma_digit_char_is_digit((b / 100) % 10);
    lemma_digit_char_is_digit((b / 10) % 10);
    lemma_digit_char_is_digit(b % 10);
    assert(spec_four_digits(a)[0] == spec_four_digits(b)[0]);
    assert(spec_four_digits(a)[1] == spec_four_digits(b)[1]);
    assert(spec_four_digits(a)[2] == spec_four_digits(b)[2]);
    assert(spec_four_digits(a)[3] == spec_four_digits(b)[3]);
}

/// A value below 10000 is rebuilt from its four digit fields.
proof fn lemma_four_digit_fields(a: int)
    requires
        0 <= a < 10000,
    ensures
        a == 1000 * (a / 1000) + 100 * ((a / 100) % 10) + 10 * ((a / 10) % 10) + a % 10,
        0 <= a / 1000 < 10,
        0 <= (a / 100) % 10 < 10,
        0 <= (a / 10) % 10 < 10,
        0 <= a % 10 < 10,
{
    lemma_fundamental_div_mod(a, 10);
    lemma_fundamental_div_mod(a / 10, 10);
    lemma_fundamental_div_mod(a / 100, 10);
    vstd::arithmetic::div_mod::lemma_div_denominator(a, 10, 10);
    vstd::arithmetic::div_mod::lemma_div_denominator(a, 100, 10);
    vstd::arithmetic::div_mod::lemma_div_denominator(a / 10, 10, 10);
}

/// Every character of a two-digit rendering is a digit.
pub proof fn lemma_two_digits_all(n: int)
    requires
        0 <= n < 100,
    ensures
        crate::clock::spec_is_digit(spec_two_digits(n)[0]),
        crate::clock::spec_is_digit(spec_two_digits(n)[1]),
{
    lemma_fundamental_div_mod(n, 10);
    lemma_digit_char_is_digit(n / 10);
    lemma_digit_char_is_digit(n % 10);
}

/// Every character of a four-digit rendering is a digit.
pub proof fn lemma_four_digits_all(n: int)
    requires
        0 <= n < 10000,
    ensures
        crate::clock::spec_is_digit(spec_four_digits(n)[0]),
        crate::clock::spec_is_digit(spec_four_digits(n)[1]),
        crate::clock::spec_is_digit(spec_four_digits(n)[2]),
        crate::clock::spec_is_digit(spec_four_digits(n)[3]),
{
    lemma_four_digit_fields(n);
    lemma_digit_char_is_digit(n / 1000);
    lemma_digit_char_is_digit((n / 100) % 10);
    lemma_digit_char_is_digit((n / 10) % 10);
    lemma_digit_char_is_digit(n % 10);
}

/// Escaping distributes over concatenation.
pub proof fn lemma_escape_distributes(a: Seq<char>, b: Seq<char>)
    ensures
        spec_escape(a + b) == spec_escape(a) + spec_escape(b),
    decreases b.len(),
{
    if b.len() == 0 {
        assert(a + b =~= a);
        assert(spec_escape(a) + spec_escape(b) =~= spec_escape(a));
    } else {
        lemma_escape_distributes(a, b.drop_last());
        assert((a + b).drop_last() =~= a + b.drop_last());
        assert((a + b).last() == b.last());
        assert(spec_escape(a) + spec_escape(b) =~= (spec_escape(a) + spec_escape(b.drop_last()))
            + spec_escape_char(b.last()));
    }
}

/// A single character escapes to its own block.
pub proof fn lemma_escape_single(c: char)
    ensures
        spec_escape(seq![c]) == spec_escape_char(c),
{
    assert(spec_escape(Seq::<char>::empty()) =~= Seq::<char>::empty());
    assert(seq![c].drop_last() =~= Seq::<char>::empty());
    assert(seq![c].last() == c);
    assert(Seq::<char>::empty() + spec_escape_char(c) =~= spec_escape_char(c));
}

/// How one character is written inside XML text: the five characters
/// with markup meaning become entity references, everything else stands
/// as itself.
pub open spec fn spec_escape_xml_char(c: char) -> Seq<char> {
    if c == '&' {
        "&amp;"@
    } else if c == '<' {
        "&lt;"@
    } else if c == '>' {
        "&gt;"@
    } else if c == '"' {
        "&quot;"@
    } else if c == '\'' {
        "&apos;"@
    } else {
        seq![c]
    }
}

/// The whole string escaped for XML, character by character.
pub open spec fn spec_escape_xml(s: Seq<char>) -> Seq<char>
    decreases s.len(),
{
    if s.len() == 0 {
        Seq::empty()
    } else {
        spec_escape_xml(s.drop_last()) + spec_escape_xml_char(s.last())
    }
}

/// Escape a string for interpolation into XML text.
pub fn escape_xml(input: &str) -> (r: String)
    ensures
        r@ =~= spec_escape_xml(input@),
{
    let n = input.unicode_len();
    let mut out = String::new();
    let mut i: usize = 0;
    while i < n
        invariant
            i <= n,
            n == input@.len(),
            out@ =~= spec_escape_xml(input@.take(i as int)),
        decreases n - i,
    {
        let c = input.get_char(i);
        if c == '&' {
            out.append("&amp;");
        } else if c == '<' {
            out.append("&lt;");
        } else if c == '>' {
            out.append("&gt;");
        } else if c == '"' {
            out.append("&quot;");
        } else if c == '\'' {
            out.append("&apos;");
        } else {
            let piece = input.substring_char(i, i + 1);
            proof {
                assert(piece@ =~= seq![input@[i as int]]);
            }
            out.append(piece);
        }
        proof {
            assert(input@.take(i as int + 1).drop_last() =~= input@.take(i as int));
            assert(input@.take(i as int + 1).last() == input@[i as int]);
            assert(out@ =~= spec_escape_xml(input@.take(i as int)) + spec_escape_xml_char(
                input@[i as int],
            ));
        }
        i = i + 1;
    }
    proof {
        assert(input@.take(n as int) =~= input@);
    }
    out
}

/// How one character is written inside a double-quoted string handed to
/// the scripting layer: backslash, double quote, newline and carriage
/// return get a backslash escape, everything else stands as itself.
pub open spec fn spec_escape_char(c: char) -> Seq<char> {
    if c == '\\' {
        seq!['\\', '\\']
    } else if c == '"' {
        seq!['\\', '"']
    } else if c == '\n' {
        seq!['\\', 'n']
    } else if c == '\r' {
        seq!['\\', 'r']
    } else {
        seq![c]
    }
}

/// The whole string escaped character by character.
pub open spec fn spec_escape(s: Seq<char>) -> Seq<char>
    decreases s.len(),
{
    if s.len() == 0 {
        Seq::empty()
    } else {
        spec_escape(s.drop_last()) + spec_escape_char(s.last())
    }
}

/// Escape a string for interpolation into a double-quoted string of the
/// scripting layer.
pub fn escape_applescript_string(input: &str) -> (r: String)
    ensures
        r@ =~= spec_escape(input@),
{
    let n = input.unicode_len();
    let mut out = String::new();
    let mut i: usize = 0;
    while i < n
        invariant
            i <= n,
            n == input@.len(),
            out@ =~= spec_escape(input@.take(i as int)),
        decreases n - i,
    {
        proof {
            reveal_strlit("\\\\");
            reveal_strlit("\\\"");
            reveal_strlit("\\n");
            reveal_strlit("\\r");
        }
        let c = input.get_char(i);
        if c == '\\' {
            out.append("\\\\");
        } else if c == '"' {
            out.append("\\\"");
        } else if c == '\n' {
            out.append("\\n");
        } else if c == '\r' {
            out.append("\\r");
        } else {
            let piece = input.substring_char(i, i + 1);
            proof {
                assert(piece@ =~= seq![input@[i as int]]);
            }
            out.append(piece);
        }
        proof {
            assert(input@.take(i as int + 1).drop_last() =~= input@.take(i as int));
            assert(input@.take(i as int + 1).last() == input@[i as int]);
            assert(out@ =~= spec_escape(input@.take(i as int)) + spec_escape_char(
                input@[i as int],
            ));
        }
        i = i + 1;
    }
    proof {
        assert(input@.take(n as int) =~= input@);
    }
    out
}

} // verus!
