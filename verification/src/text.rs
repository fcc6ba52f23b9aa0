//! Text: numbers in decimal, bytes in hexadecimal, white space and the order of labels.

use vstd::prelude::*;
use vstd::string::*;

verus! {

/// What an optional text holds.
pub open spec fn optional_text(s: Option<String>) -> Option<Seq<char>> {
    match s {
        None => None,
        Some(t) => Some(t@),
    }
}

/// The character of a decimal digit.
pub open spec fn digit_char(d: nat) -> char {
    (48 + d) as char
}

/// A number in decimal.
pub open spec fn decimal(n: nat) -> Seq<char>
    decreases n,
{
    if n < 10 {
        seq![digit_char(n)]
    } else {
        decimal(n / 10).push(digit_char(n % 10))
    }
}

/// A decimal digit.
pub open spec fn is_digit(c: char) -> bool {
    48 <= c as int <= 57
}

/// The number that decimal digits spell.
pub open spec fn decimal_value(digits: Seq<char>) -> nat
    decreases digits.len(),
{
    if digits.len() == 0 {
        0
    } else {
        (10 * decimal_value(digits.drop_last()) + (digits.last() as int - 48)) as nat
    }
}

/// Every character is a decimal digit.
pub open spec fn all_digits(s: Seq<char>) -> bool {
    forall|i: int| 0 <= i < s.len() ==> is_digit(#[trigger] s[i])
}

/// A text without a plus sign at its start.
pub open spec fn without_plus(s: Seq<char>) -> Seq<char> {
    if s.len() > 0 && s[0] == '+' {
        s.skip(1)
    } else {
        s
    }
}

/// The 32-bit number that a text spells: one digit at least, with or without a plus sign.
pub open spec fn parsed_u32(s: Seq<char>) -> Option<nat> {
    let digits = without_plus(s);
    if digits.len() > 0 && all_digits(digits) && decimal_value(digits) <= u32::MAX {
        Some(decimal_value(digits))
    } else {
        None
    }
}

/// A number in decimal has only digits and spells the number.
pub proof fn decimal_is_read_back(n: nat)
    ensures
        decimal(n).len() > 0,
        all_digits(decimal(n)),
        decimal_value(decimal(n)) == n,
    decreases n,
{
    if n < 10 {
        assert(decimal(n).drop_last() =~= Seq::<char>::empty());
        assert(decimal_value(Seq::<char>::empty()) == 0);
    } else {
        decimal_is_read_back(n / 10);
        assert(decimal(n).drop_last() =~= decimal(n / 10));
    }
}

/// Reading a number that was written in decimal gives the number.
pub proof fn written_number_is_read_back(n: u32)
    ensures
        parsed_u32(decimal(n as nat)) == Some(n as nat),
{
    decimal_is_read_back(n as nat);
    assert(is_digit(decimal(n as nat)[0]));
}

/// More digits spell no smaller number.
proof fn lemma_decimal_value_grows(digits: Seq<char>, i: int)
    requires
        all_digits(digits),
        0 <= i <= digits.len(),
    ensures
        decimal_value(digits.take(i)) <= decimal_value(digits),
    decreases digits.len() - i,
{
    if i == digits.len() {
        assert(digits.take(i) =~= digits);
    } else {
        lemma_decimal_value_grows(digits, i + 1);
        assert(digits.take(i + 1).drop_last() =~= digits.take(i));
        assert(is_digit(digits[i]));
    }
}

/// The text of a decimal digit.
fn digit_text(d: u64) -> (r: &'static str)
    requires
        d < 10,
    ensures
        r@ == seq![digit_char(d as nat)],
{
    proof {
        reveal_strlit("0");
        reveal_strlit("1");
        reveal_strlit("2");
        reveal_strlit("3");
        reveal_strlit("4");
        reveal_strlit("5");
        reveal_strlit("6");
        reveal_strlit("7");
        reveal_strlit("8");
        reveal_strlit("9");
    }
    let r: &'static str = match d {
        0 => "0",
        1 => "1",
        2 => "2",
        3 => "3",
        4 => "4",
        5 => "5",
        6 => "6",
        7 => "7",
        8 => "8",
        _ => "9",
    };
    assert(r@ =~= seq![digit_char(d as nat)]);
    r
}

/// Digits spell a number, without zeros in front.
pub open spec fn spells(digits: Seq<char>, n: nat) -> bool {
    &&& digits.len() > 0
    &&& all_digits(digits)
    &&& decimal_value(digits) == n
    &&& digits.len() > 1 ==> digits[0] != '0'
}

/// One more digit makes ten times the number and the digit.
pub proof fn digits_are_positional(digits: Seq<char>, c: char)
    requires
        is_digit(c),
    ensures
        decimal_value(Seq::<char>::empty()) == 0,
        decimal_value(digits.push(c)) == 10 * decimal_value(digits) + (c as int - '0' as int),
{
    assert(digits.push(c).drop_last() =~= digits);
}

/// A number in decimal spells the number.
pub proof fn decimal_spells_the_number(n: nat)
    ensures
        spells(decimal(n), n),
    decreases n,
{
    decimal_is_read_back(n);
    if n >= 10 {
        decimal_spells_the_number(n / 10);
        let shorter = decimal(n / 10);
        assert(decimal(n)[0] == shorter[0]);
        if shorter.len() == 1 {
            lemma_value_is_positive(shorter);
        }
    }
}

/// Digits whose value is positive and which are one digit do not start with zero.
proof fn lemma_value_is_positive(digits: Seq<char>)
    requires
        digits.len() == 1,
        all_digits(digits),
        decimal_value(digits) > 0,
    ensures
        digits[0] != '0',
{
    assert(digits.drop_last() =~= Seq::<char>::empty());
    assert(decimal_value(Seq::<char>::empty()) == 0);
}

/// Digits that do not start with zero spell a positive number.
proof fn lemma_no_zero_in_front(digits: Seq<char>)
    requires
        digits.len() > 0,
        all_digits(digits),
        digits[0] != '0',
    ensures
        decimal_value(digits) > 0,
    decreases digits.len(),
{
    let shorter = digits.drop_last();
    assert(is_digit(digits[digits.len() - 1]));
    if shorter.len() > 0 {
        assert forall|i: int| 0 <= i < shorter.len() implies is_digit(#[trigger] shorter[i]) by {
            assert(is_digit(digits[i]));
        }
        lemma_no_zero_in_front(shorter);
    } else {
        assert(decimal_value(shorter) == 0);
    }
}

/// A number is spelled in one way only, and different numbers are spelled differently.
pub proof fn spelling_is_unique(a: Seq<char>, n: nat, b: Seq<char>, m: nat)
    requires
        spells(a, n),
        spells(b, m),
    ensures
        (a == b) == (n == m),
    decreases a.len(),
{
    if n == m {
        let x = a.drop_last();
        let y = b.drop_last();
        assert(is_digit(a[a.len() - 1]) && is_digit(b[b.len() - 1]));
        assert(a.last() == b.last() && decimal_value(x) == decimal_value(y)) by {
            assert(n == 10 * decimal_value(x) + (a.last() as int - 48));
            assert(n == 10 * decimal_value(y) + (b.last() as int - 48));
        }
        assert forall|i: int| 0 <= i < x.len() implies is_digit(#[trigger] x[i]) by {
            assert(is_digit(a[i]));
        }
        assert forall|i: int| 0 <= i < y.len() implies is_digit(#[trigger] y[i]) by {
            assert(is_digit(b[i]));
        }
        if x.len() > 0 {
            assert(x[0] == a[0]);
            lemma_no_zero_in_front(x);
        } else {
            assert(decimal_value(x) == 0);
        }
        if y.len() > 0 {
            assert(y[0] == b[0]);
            lemma_no_zero_in_front(y);
        } else {
            assert(decimal_value(y) == 0);
        }
        if x.len() > 0 {
            spelling_is_unique(x, decimal_value(x), y, decimal_value(y));
        } else {
            assert(x =~= y);
        }
        assert(a =~= x.push(a.last()));
        assert(b =~= y.push(b.last()));
    }
}

/// Digits are read as the number that they spell, with a plus sign in front or without, and nothing
/// else is read.
pub proof fn numbers_are_read_from_digits(s: Seq<char>, digits: Seq<char>)
    requires
        digits.len() > 0,
        all_digits(digits),
    ensures
        decimal_value(digits) <= u32::MAX ==> parsed_u32(digits) == Some(decimal_value(digits))
            && parsed_u32(seq!['+'] + digits) == Some(decimal_value(digits)),
        decimal_value(digits) > u32::MAX ==> parsed_u32(digits) is None && parsed_u32(
            seq!['+'] + digits,
        ) is None,
        parsed_u32(s) is Some ==> s.len() > 0 && (s[0] == '+' || is_digit(s[0])) && (s[0] == '+'
            ==> s.len() > 1) && forall|i: int| 0 < i < s.len() ==> is_digit(#[trigger] s[i]),
{
    assert(is_digit(digits[0]));
    assert((seq!['+'] + digits).skip(1) =~= digits);
    if parsed_u32(s) is Some {
        let d = without_plus(s);
        assert(is_digit(d[0]));
        assert forall|i: int| 0 < i < s.len() implies is_digit(#[trigger] s[i]) by {
            if s[0] == '+' {
                assert(is_digit(d[i - 1]));
            } else {
                assert(is_digit(d[i]));
            }
        }
    }
}

/// Writes a number in decimal.
pub fn decimal_text(n: u64) -> (r: String)
    ensures
        r@ == decimal(n as nat),
        spells(r@, n as nat),
    decreases n,
{
    proof {
        decimal_spells_the_number(n as nat);
    }
    if n < 10 {
        String::from_str(digit_text(n))
    } else {
        let mut r = decimal_text(n / 10);
        r.append(digit_text(n % 10));
        assert(r@ =~= decimal(n as nat));
        r
    }
}

/// Reads a 32-bit number.
pub fn parse_u32(s: &str) -> (r: Option<u32>)
    ensures
        (match r {
            None => None,
            Some(n) => Some(n as nat),
        }) == parsed_u32(s@),
{
    let len: usize = s.unicode_len();
    let start: usize = if len > 0 && s.get_char(0) == '+' {
        1
    } else {
        0
    };
    let ghost digits = without_plus(s@);
    assert(digits =~= s@.skip(start as int));
    if start == len {
        return None;
    }
    let mut value: u64 = 0;
    let mut i: usize = start;
    while i < len
        invariant
            start <= i <= len,
            len == s@.len(),
            start < len,
            digits == without_plus(s@),
            digits == s@.skip(start as int),
            value <= u32::MAX,
            value == decimal_value(digits.take(i - start)),
            forall|j: int| 0 <= j < i - start ==> is_digit(#[trigger] digits[j]),
        decreases len - i,
    {
        let c: char = s.get_char(i);
        let ghost k = i - start;
        assert(digits[k] == c);
        if !(c >= '0' && c <= '9') {
            assert(!is_digit(digits[k]));
            return None;
        }
        let d: u64 = c as u64 - 48;
        assert(digits.take(k + 1).drop_last() =~= digits.take(k));
        value = 10 * value + d;
        if value > u32::MAX as u64 {
            proof {
                if all_digits(digits) {
                    lemma_decimal_value_grows(digits, k + 1);
                }
            }
            return None;
        }
        i += 1;
    }
    assert(digits.take(len - start) =~= digits);
    Some(value as u32)
}

/// The character of a hexadecimal digit.
pub open spec fn hex_char(d: int) -> char {
    if d < 10 {
        (48 + d) as char
    } else {
        (87 + d) as char
    }
}

/// The value of a hexadecimal digit, in lower or upper case.
pub open spec fn hex_value(c: char) -> Option<int> {
    let n = c as int;
    if 48 <= n <= 57 {
        Some(n - 48)
    } else if 97 <= n <= 102 {
        Some(n - 87)
    } else if 65 <= n <= 70 {
        Some(n - 55)
    } else {
        None
    }
}

/// Bytes in hexadecimal, in lower case.
pub open spec fn hex(data: Seq<u8>) -> Seq<char> {
    Seq::new(
        2 * data.len(),
        |i: int|
            if i % 2 == 0 {
                hex_char(data[i / 2] as int / 16)
            } else {
                hex_char(data[i / 2] as int % 16)
            },
    )
}

/// A text that spells bytes in hexadecimal.
pub open spec fn is_hex(text: Seq<char>) -> bool {
    &&& text.len() % 2 == 0
    &&& forall|i: int| 0 <= i < text.len() ==> hex_value(#[trigger] text[i]) is Some
}

/// The bytes that a text spells in hexadecimal.
pub open spec fn hex_bytes(text: Seq<char>) -> Seq<u8> {
    Seq::new(
        text.len() / 2,
        |i: int| (16 * hex_value(text[2 * i])->0 + hex_value(text[2 * i + 1])->0) as u8,
    )
}

/// Bytes that were written in hexadecimal are read back.
pub proof fn hex_is_read_back(data: Seq<u8>)
    ensures
        is_hex(hex(data)),
        hex_bytes(hex(data)) == data,
{
    let text = hex(data);
    assert forall|i: int| 0 <= i < text.len() implies hex_value(#[trigger] text[i]) is Some by {
        assert(0 <= i / 2 < data.len());
    }
    assert forall|i: int| 0 <= i < data.len() implies hex_bytes(text)[i] == data[i] by {
        assert((2 * i) % 2 == 0 && (2 * i) / 2 == i);
        assert((2 * i + 1) % 2 == 1 && (2 * i + 1) / 2 == i);
        assert(hex_value(text[2 * i]) == Some(data[i] as int / 16));
        assert(hex_value(text[2 * i + 1]) == Some(data[i] as int % 16));
    }
    assert(hex_bytes(text) =~= data);
}

/// Writes bytes in hexadecimal: the `hex` crate's `encode`.
///
/// The contract claims two digits for each byte, the high one first, in lower case.
#[verifier::external_body]
pub(crate) fn hex_encode(data: &[u8]) -> (r: String)
    ensures
        r@ == hex(data@),
{
    hex::encode(data)
}

/// Reads bytes in hexadecimal: the `hex` crate's `decode`.
///
/// The contract claims that exactly the texts of an even number of digits, in lower or upper case,
/// are accepted, and that each pair of digits becomes a byte, the high digit first.
#[verifier::external_body]
pub(crate) fn hex_decode(text: &str) -> (r: Option<Vec<u8>>)
    ensures
        r is Some == is_hex(text@),
        r matches Some(data) ==> data@ == hex_bytes(text@),
{
    hex::decode(text).ok()
}

/// A character with the Unicode property White_Space.
pub open spec fn is_white_space(c: char) -> bool {
    let n = c as int;
    ||| 0x9 <= n <= 0xd
    ||| n == 0x20
    ||| n == 0x85
    ||| n == 0xa0
    ||| n == 0x1680
    ||| 0x2000 <= n <= 0x200a
    ||| n == 0x2028
    ||| n == 0x2029
    ||| n == 0x202f
    ||| n == 0x205f
    ||| n == 0x3000
}

/// A text without the white space at its start.
pub open spec fn trimmed_start(s: Seq<char>) -> Seq<char>
    decreases s.len(),
{
    if s.len() > 0 && is_white_space(s[0]) {
        trimmed_start(s.skip(1))
    } else {
        s
    }
}

/// A text without the white space at its end.
pub open spec fn trimmed_end(s: Seq<char>) -> Seq<char>
    decreases s.len(),
{
    if s.len() > 0 && is_white_space(s.last()) {
        trimmed_end(s.drop_last())
    } else {
        s
    }
}

/// Takes off the white space at both ends: `str::trim`.
///
/// The contract claims what the standard library documents: what is taken off are the leading and
/// trailing characters with the Unicode property White_Space.
#[verifier::external_body]
pub(crate) fn trim(text: &str) -> (r: &str)
    ensures
        r@ == trimmed_end(trimmed_start(text@)),
{
    text.trim()
}

/// Whether one text comes before another, character by character.
pub open spec fn comes_before(a: Seq<char>, b: Seq<char>) -> bool
    decreases b.len(),
{
    if b.len() == 0 {
        false
    } else if a.len() == 0 {
        true
    } else if a[0] != b[0] {
        (a[0] as int) < b[0] as int
    } else {
        comes_before(a.skip(1), b.skip(1))
    }
}

/// Two texts are equal or one comes before the other, and only one of the three holds.
pub proof fn texts_are_ordered(a: Seq<char>, b: Seq<char>)
    ensures
        a == b || comes_before(a, b) || comes_before(b, a),
        comes_before(a, b) ==> a != b && !comes_before(b, a),
    decreases a.len(),
{
    if a.len() > 0 && b.len() > 0 {
        if a[0] == b[0] {
            texts_are_ordered(a.skip(1), b.skip(1));
            assert(a =~= seq![a[0]] + a.skip(1));
            assert(b =~= seq![b[0]] + b.skip(1));
        }
    } else if a.len() == 0 && b.len() == 0 {
        assert(a =~= b);
    }
}

/// The order of texts carries over.
pub proof fn order_of_texts_is_transitive(a: Seq<char>, b: Seq<char>, c: Seq<char>)
    requires
        comes_before(a, b),
        comes_before(b, c),
    ensures
        comes_before(a, c),
    decreases a.len(),
{
    if a.len() > 0 && a[0] == b[0] && b[0] == c[0] {
        order_of_texts_is_transitive(a.skip(1), b.skip(1), c.skip(1));
    }
}

/// Whether one text comes before another.
pub fn is_before(a: &String, b: &String) -> (r: bool)
    ensures
        r == comes_before(a@, b@),
{
    let a_len: usize = a.as_str().unicode_len();
    let b_len: usize = b.as_str().unicode_len();
    let mut i: usize = 0;
    assert(a@.skip(0) =~= a@);
    assert(b@.skip(0) =~= b@);
    while i < a_len && i < b_len
        invariant
            a_len == a@.len(),
            b_len == b@.len(),
            i <= a_len,
            i <= b_len,
            comes_before(a@, b@) == comes_before(a@.skip(i as int), b@.skip(i as int)),
        decreases a_len - i,
    {
        let x: char = a.as_str().get_char(i);
        let y: char = b.as_str().get_char(i);
        assert(a@.skip(i as int)[0] == x);
        assert(b@.skip(i as int)[0] == y);
        if x != y {
            return x < y;
        }
        i += 1;
        assert(a@.skip(i - 1).skip(1) =~= a@.skip(i as int));
        assert(b@.skip(i - 1).skip(1) =~= b@.skip(i as int));
    }
    i < b_len
}

/// The first character in which two texts differ decides their order.
pub proof fn first_difference_decides(
    start: Seq<char>,
    x: char,
    a: Seq<char>,
    y: char,
    b: Seq<char>,
)
    requires
        x != y,
    ensures
        comes_before(start + (seq![x] + a), start + (seq![y] + b)) == ((x as int) < y as int),
    decreases start.len(),
{
    let s = start + (seq![x] + a);
    let t = start + (seq![y] + b);
    if start.len() > 0 {
        first_difference_decides(start.skip(1), x, a, y, b);
        assert(s.skip(1) =~= start.skip(1) + (seq![x] + a));
        assert(t.skip(1) =~= start.skip(1) + (seq![y] + b));
    } else {
        assert(s[0] == x && t[0] == y);
    }
}

/// A text comes before every longer text that starts with it, and not before itself.
pub proof fn shorter_text_comes_first(start: Seq<char>, more: Seq<char>)
    ensures
        comes_before(start, start + more) == (more.len() > 0),
        !comes_before(start + more, start),
    decreases start.len(),
{
    if start.len() > 0 {
        shorter_text_comes_first(start.skip(1), more);
        assert((start + more).skip(1) =~= start.skip(1) + more);
    }
}

} // verus!
