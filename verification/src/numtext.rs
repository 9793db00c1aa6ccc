//! Textual encodings of the scalar record fields: decimal numbers and the
//! two boolean words.

use vstd::arithmetic::div_mod::lemma_fundamental_div_mod;
use vstd::prelude::*;

verus! {

/// The decimal digit character of `d`.
pub open spec fn digit_char(d: int) -> char
    recommends
        0 <= d <= 9,
{
    if d == 0 {
        '0'
    } else if d == 1 {
        '1'
    } else if d == 2 {
        '2'
    } else if d == 3 {
        '3'
    } else if d == 4 {
        '4'
    } else if d == 5 {
        '5'
    } else if d == 6 {
        '6'
    } else if d == 7 {
        '7'
    } else if d == 8 {
        '8'
    } else {
        '9'
    }
}

/// The value of a decimal digit character, or `None` for any other
/// character.
pub open spec fn digit_of_char(c: char) -> Option<int> {
    if c == '0' {
        Some(0int)
    } else if c == '1' {
        Some(1int)
    } else if c == '2' {
        Some(2int)
    } else if c == '3' {
        Some(3int)
    } else if c == '4' {
        Some(4int)
    } else if c == '5' {
        Some(5int)
    } else if c == '6' {
        Some(6int)
    } else if c == '7' {
        Some(7int)
    } else if c == '8' {
        Some(8int)
    } else if c == '9' {
        Some(9int)
    } else {
        None
    }
}

/// The decimal digits of `n`, most significant first, without leading
/// zeros (a single `'0'` for zero).
pub open spec fn dec_digits(n: int) -> Seq<char>
    recommends
        0 <= n,
    decreases n,
{
    if n < 10 {
        seq![digit_char(n)]
    } else {
        dec_digits(n / 10).push(digit_char(n % 10))
    }
}

/// Folds the decimal digits of `s` onto the accumulator `acc`; `None` if
/// any character is not a digit.
pub open spec fn dec_value_from(s: Seq<char>, acc: int) -> Option<int>
    decreases s.len(),
{
    if s.len() == 0 {
        Some(acc)
    } else {
        match digit_of_char(s[0]) {
            Some(d) => dec_value_from(s.drop_first(), acc * 10 + d),
            None => None,
        }
    }
}

/// The `u32` denoted by `s` in decimal: every character must be a digit,
/// at least one digit must be present, and the value must fit in 32 bits.
/// Leading zeros are accepted.
pub open spec fn parse_u32_spec(s: Seq<char>) -> Option<u32> {
    if s.len() == 0 {
        None
    } else {
        match dec_value_from(s, 0) {
            Some(v) => if v <= u32::MAX {
                Some(v as u32)
            } else {
                None
            },
            None => None,
        }
    }
}

/// A successful digit fold never falls below its accumulator.
proof fn lemma_dec_value_lower_bound(s: Seq<char>, acc: int)
    requires
        0 <= acc,
        dec_value_from(s, acc) is Some,
    ensures
        dec_value_from(s, acc)->Some_0 >= acc,
    decreases s.len(),
{
    if s.len() > 0 {
        let d = digit_of_char(s[0])->Some_0;
        lemma_dec_value_lower_bound(s.drop_first(), acc * 10 + d);
    }
}

/// Appending a digit multiplies the folded value by ten and adds the
/// digit.
proof fn lemma_dec_value_push(s: Seq<char>, c: char, acc: int)
    requires
        digit_of_char(c) is Some,
        dec_value_from(s, acc) is Some,
    ensures
        dec_value_from(s.push(c), acc) == Some(
            dec_value_from(s, acc)->Some_0 * 10 + digit_of_char(c)->Some_0,
        ),
    decreases s.len(),
{
    let d = digit_of_char(c)->Some_0;
    if s.len() == 0 {
        assert(s.push(c)[0] == c);
        assert(s.push(c).drop_first() =~= Seq::<char>::empty());
        assert(dec_value_from(Seq::<char>::empty(), acc * 10 + d) == Some(acc * 10 + d));
        assert(dec_value_from(s.push(c), acc) == Some(acc * 10 + d));
        assert(dec_value_from(s, acc) == Some(acc));
    } else {
        let d0 = digit_of_char(s[0])->Some_0;
        assert(s.push(c)[0] == s[0]);
        assert(s.push(c).drop_first() =~= s.drop_first().push(c));
        lemma_dec_value_push(s.drop_first(), c, acc * 10 + d0);
        assert(dec_value_from(s.push(c), acc) == dec_value_from(
            s.drop_first().push(c),
            acc * 10 + d0,
        ));
        assert(dec_value_from(s, acc) == dec_value_from(s.drop_first(), acc * 10 + d0));
    }
}

/// Folding the decimal digits of `n` recovers `n`.
proof fn lemma_dec_value_of_digits(n: int)
    requires
        0 <= n,
    ensures
        dec_value_from(dec_digits(n), 0) is Some,
        dec_value_from(dec_digits(n), 0)->Some_0 == n,
    decreases n,
{
    if n < 10 {
        let s = seq![digit_char(n)];
        assert(dec_digits(n) == s);
        assert(s[0] == digit_char(n));
        assert(digit_of_char(digit_char(n)) == Some(n));
        assert(s.drop_first() =~= Seq::<char>::empty());
        assert(dec_value_from(Seq::<char>::empty(), 0 * 10 + n) == Some(n));
    } else {
        lemma_dec_value_of_digits(n / 10);
        lemma_dec_value_push(dec_digits(n / 10), digit_char(n % 10), 0);
        lemma_fundamental_div_mod(n, 10);
    }
}

/// Parsing inverts printing: the decimal digits of a `u32` parse back to
/// the same value.
pub proof fn lemma_parse_u32_inverts_dec(n: u32)
    ensures
        parse_u32_spec(dec_digits(n as int)) == Some(n),
{
    lemma_dec_value_of_digits(n as int);
}

/// The digit character of an ASCII digit byte.
pub open spec fn digit_byte_char(b: u8) -> char {
    digit_char(b as int - 48)
}

/// The characters of a run of ASCII digit bytes.
pub open spec fn digit_chars_of(bytes: Seq<u8>) -> Seq<char> {
    bytes.map_values(|b: u8| digit_byte_char(b))
}

/// Builds the text of a run of ASCII digit bytes.
///
/// Relies on `String::from_utf8`: bytes in the ASCII digit range are
/// valid UTF-8, one character per byte, each the corresponding digit
/// character, so the conversion cannot fail.
#[verifier::external_body]
fn digits_to_string(bytes: Vec<u8>) -> (r: String)
    requires
        forall|i: int| 0 <= i < bytes@.len() ==> 48 <= #[trigger] bytes@[i] <= 57,
    ensures
        r@ == digit_chars_of(bytes@),
{
    String::from_utf8(bytes).unwrap()
}

/// The decimal digit bytes of `n`, most significant first, without
/// leading zeros.
fn dec_digit_bytes(n: u32) -> (r: Vec<u8>)
    ensures
        forall|i: int| 0 <= i < r@.len() ==> 48 <= #[trigger] r@[i] <= 57,
        digit_chars_of(r@) == dec_digits(n as int),
    decreases n,
{
    let d: u8 = 48 + (n % 10) as u8;
    if n < 10 {
        let mut v: Vec<u8> = Vec::new();
        v.push(d);
        proof {
            assert(digit_byte_char(d) == digit_char(n as int));
            assert(digit_chars_of(v@) =~= seq![digit_char(n as int)]);
        }
        v
    } else {
        proof {
            assert(n / 10 < n) by (nonlinear_arith)
                requires
                    n >= 10,
            ;
        }
        let mut v = dec_digit_bytes(n / 10);
        let ghost high = v@;
        v.push(d);
        proof {
            assert(digit_byte_char(d) == digit_char(n as int % 10));
            assert(digit_chars_of(v@) =~= digit_chars_of(high).push(digit_char(n as int % 10)));
        }
        v
    }
}

/// Prints `n` as its decimal digits.
pub(crate) fn u32_to_dec(n: u32) -> (r: String)
    ensures
        r@ == dec_digits(n as int),
{
    digits_to_string(dec_digit_bytes(n))
}

/// Parses a `u32` from decimal text, exactly as [`parse_u32_spec`]
/// describes: digits only, at least one, value within 32 bits.
pub fn parse_u32(s: &str) -> (r: Option<u32>)
    ensures
        r == parse_u32_spec(s@),
{
    let ghost sv = s@;
    let n = s.unicode_len();
    if n == 0 {
        return None;
    }
    proof {
        assert(sv.subrange(0, n as int) =~= sv);
    }
    let mut acc: u32 = 0;
    let mut i: usize = 0;
    while i < n
        invariant
            sv == s@,
            n == sv.len(),
            i <= n,
            dec_value_from(sv, 0) == dec_value_from(sv.subrange(i as int, n as int), acc as int),
        decreases n - i,
    {
        let c = s.get_char(i);
        assert(c == sv.subrange(i as int, n as int)[0]);
        let d: u32 = match c {
            '0' => 0,
            '1' => 1,
            '2' => 2,
            '3' => 3,
            '4' => 4,
            '5' => 5,
            '6' => 6,
            '7' => 7,
            '8' => 8,
            '9' => 9,
            _ => {
                assert(digit_of_char(c) is None);
                return None;
            },
        };
        assert(digit_of_char(c) == Some(d as int));
        assert(sv.subrange(i as int, n as int).drop_first() =~= sv.subrange(i + 1, n as int));
        if acc > (u32::MAX - d) / 10 {
            proof {
                let rest = sv.subrange(i + 1, n as int);
                let acc2 = acc as int * 10 + d;
                assert(acc2 > u32::MAX);
                if dec_value_from(rest, acc2) is Some {
                    lemma_dec_value_lower_bound(rest, acc2);
                }
            }
            return None;
        }
        acc = acc * 10 + d;
        i = i + 1;
    }
    proof {
        assert(sv.subrange(n as int, n as int) =~= Seq::<char>::empty());
    }
    Some(acc)
}

/// The textual form of a boolean: `true` or `false`.
pub open spec fn bool_text(b: bool) -> Seq<char> {
    if b {
        "true"@
    } else {
        "false"@
    }
}

/// The boolean denoted by `s`: exactly the word `true` or the word
/// `false`.
pub open spec fn parse_bool_spec(s: Seq<char>) -> Option<bool> {
    if s == "true"@ {
        Some(true)
    } else if s == "false"@ {
        Some(false)
    } else {
        None
    }
}

/// The two boolean words denote distinct values.
pub proof fn lemma_parse_bool_inverts_text(b: bool)
    ensures
        parse_bool_spec(bool_text(b)) == Some(b),
{
    reveal_strlit("true");
    reveal_strlit("false");
    assert("true"@.len() != "false"@.len());
}

/// Prints a boolean as its word.
pub fn bool_to_text(b: bool) -> (r: String)
    ensures
        r@ == bool_text(b),
{
    if b {
        "true".to_owned()
    } else {
        "false".to_owned()
    }
}

/// Parses a boolean from its word, exactly as [`parse_bool_spec`]
/// describes.
pub fn parse_bool(s: &str) -> (r: Option<bool>)
    ensures
        r == parse_bool_spec(s@),
{
    proof {
        reveal_strlit("true");
        reveal_strlit("false");
    }
    let n = s.unicode_len();
    if n == 4 && s.get_char(0) == 't' && s.get_char(1) == 'r' && s.get_char(2) == 'u' && s.get_char(
        3,
    ) == 'e' {
        proof {
            assert(s@ =~= "true"@);
        }
        Some(true)
    } else if n == 5 && s.get_char(0) == 'f' && s.get_char(1) == 'a' && s.get_char(2) == 'l'
        && s.get_char(3) == 's' && s.get_char(4) == 'e' {
        proof {
            assert(s@ =~= "false"@);
        }
        Some(false)
    } else {
        proof {
            if s@ == "true"@ {
                assert(s@.len() == 4);
                assert(s@[0] == 't' && s@[1] == 'r' && s@[2] == 'u' && s@[3] == 'e');
            }
            if s@ == "false"@ {
                assert(s@.len() == 5);
            }
        }
        None
    }
}

} // verus!
