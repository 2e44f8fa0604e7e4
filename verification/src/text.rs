//! Text helpers: comparing, decimal numbers and the short form of identifiers.
use vstd::prelude::*;
use vstd::string::StrSliceExecFns;
use vstd::string::StringExecFns;

verus! {

broadcast use vstd::string::group_string_axioms;

/// Whether two texts hold the same characters.
pub fn same_text(a: &str, b: &str) -> (same: bool)
    ensures
        same == (a@ == b@),
{
    a.to_owned() == b.to_owned()
}

/// View of an optional text.
pub open spec fn text_view(text: Option<String>) -> Option<Seq<char>> {
    match text {
        Some(text) => Some(text@),
        None => None,
    }
}

/// Copy of an optional text.
pub fn clone_text(text: &Option<String>) -> (copy: Option<String>)
    ensures
        text_view(copy) == text_view(*text),
{
    match text {
        Some(text) => Some(text.clone()),
        None => None,
    }
}

/// Whether an optional text is present and holds the given characters.
pub fn holds_text(text: &Option<String>, expected: &str) -> (holds: bool)
    ensures
        holds == (text_view(*text) == Some(expected@)),
{
    match text {
        Some(text) => same_text(text.as_str(), expected),
        None => false,
    }
}

/// Whether two optional texts are equal.
pub fn same_optional_text(a: &Option<String>, b: &Option<String>) -> (same: bool)
    ensures
        same == (text_view(*a) == text_view(*b)),
{
    match (a, b) {
        (Some(a), Some(b)) => *a == *b,
        (None, None) => true,
        _ => false,
    }
}

/// Character of a decimal digit.
pub open spec fn digit_char(digit: int) -> char {
    (digit + 48) as char
}

/// Value of a decimal digit's character.
pub open spec fn digit_value(c: char) -> int {
    c as int - 48
}

pub open spec fn is_digit(c: char) -> bool {
    48 <= c as int <= 57
}

/// Decimal notation of a number, without leading zeros.
pub open spec fn decimal(n: nat) -> Seq<char>
    decreases n,
{
    if n < 10 {
        seq![digit_char(n as int)]
    } else {
        decimal(n / 10).push(digit_char((n % 10) as int))
    }
}

/// Number that a sequence of decimal digits denotes.
pub open spec fn decimal_value(digits: Seq<char>) -> int
    decreases digits.len(),
{
    if digits.len() == 0 {
        0
    } else {
        decimal_value(digits.drop_last()) * 10 + digit_value(digits.last())
    }
}

pub open spec fn all_digits(text: Seq<char>) -> bool {
    forall|i: int| 0 <= i < text.len() ==> is_digit(#[trigger] text[i])
}

/// The digits of an unsigned number's notation: all of it, but for a leading plus sign.
pub open spec fn unsigned_digits(text: Seq<char>) -> Seq<char> {
    if text.len() > 0 && text[0] == '+' {
        text.skip(1)
    } else {
        text
    }
}

/// Number that a text denotes: decimal digits, at least one, with an optional plus sign in
/// front. `None` where the text is no such number or the number exceeds `usize`.
pub open spec fn unsigned_value(text: Seq<char>) -> Option<usize> {
    let digits = unsigned_digits(text);
    if digits.len() > 0 && all_digits(digits) && decimal_value(digits) <= usize::MAX {
        Some(decimal_value(digits) as usize)
    } else {
        None
    }
}

fn digit_text(digit: u128) -> (text: &'static str)
    requires
        digit < 10,
    ensures
        text@ == seq![digit_char(digit as int)],
{
    proof {
        reveal_strlit("0");
        reveal_strlit("1");
        reveal_strlit("2");
        reveal_strlit("3");
        reveal_strlit("4");
        reveal_strlit("5");
        reveal_strlit("6");
        reveal_strlit("7");
        reveal_strlit("8");
        reveal_strlit("9");
    }
    let text: &'static str = if digit == 0 {
        "0"
    } else if digit == 1 {
        "1"
    } else if digit == 2 {
        "2"
    } else if digit == 3 {
        "3"
    } else if digit == 4 {
        "4"
    } else if digit == 5 {
        "5"
    } else if digit == 6 {
        "6"
    } else if digit == 7 {
        "7"
    } else if digit == 8 {
        "8"
    } else {
        "9"
    };
    assert(text@ =~= seq![digit_char(digit as int)]);
    text
}

/// Writes a number in decimal notation.
pub fn decimal_text(n: u128) -> (text: String)
    ensures
        text@ == decimal(n as nat),
    decreases n,
{
    if n < 10 {
        digit_text(n).to_owned()
    } else {
        let mut text = decimal_text(n / 10);
        text.append(digit_text(n % 10));
        assert(text@ =~= decimal(n as nat));
        text
    }
}

proof fn lemma_value_bounds(digits: Seq<char>)
    requires
        all_digits(digits),
    ensures
        decimal_value(digits) >= 0,
    decreases digits.len(),
{
    if digits.len() > 0 {
        assert(is_digit(digits[digits.len() - 1]));
        assert forall|i: int| 0 <= i < digits.drop_last().len() implies is_digit(
            #[trigger] digits.drop_last()[i],
        ) by {
            assert(is_digit(digits[i]));
        }
        lemma_value_bounds(digits.drop_last());
    }
}

/// A number never has fewer digits' worth of value than a prefix of its digits.
proof fn lemma_value_grows(digits: Seq<char>, n: int)
    requires
        all_digits(digits),
        0 <= n <= digits.len(),
    ensures
        decimal_value(digits.take(n)) <= decimal_value(digits),
    decreases digits.len(),
{
    if n == digits.len() {
        assert(digits.take(n) =~= digits);
    } else {
        let rest = digits.drop_last();
        assert forall|i: int| 0 <= i < rest.len() implies is_digit(#[trigger] rest[i]) by {
            assert(is_digit(digits[i]));
        }
        assert(rest.take(n) =~= digits.take(n));
        lemma_value_grows(rest, n);
        lemma_value_bounds(rest);
        assert(is_digit(digits[digits.len() - 1]));
    }
}

/// Reads an unsigned number.
pub fn parse_unsigned(text: &str) -> (number: Option<usize>)
    ensures
        number == unsigned_value(text@),
{
    let len = text.unicode_len();
    let start: usize = if len > 0 && text.get_char(0) == '+' {
        1
    } else {
        0
    };
    let ghost digits = unsigned_digits(text@);
    assert(digits =~= text@.skip(start as int));
    if start == len {
        return None;
    }
    let mut value: usize = 0;
    let mut i: usize = start;
    while i < len
        invariant
            len == text@.len(),
            start <= i <= len,
            start <= 1,
            digits == unsigned_digits(text@),
            digits == text@.skip(start as int),
            all_digits(digits.take(i - start)),
            value == decimal_value(digits.take(i - start)),
        decreases len - i,
    {
        let c = text.get_char(i);
        let ghost k = i - start;
        assert(digits[k] == c);
        if c < '0' || c > '9' {
            assert(!is_digit(digits[k]));
            return None;
        }
        let digit: usize = c as usize - 48;
        assert(digits.take(k + 1).drop_last() =~= digits.take(k));
        assert(digits.take(k + 1).last() == c);
        assert forall|j: int| 0 <= j < k + 1 implies is_digit(#[trigger] digits.take(k + 1)[j]) by {
            if j < k {
                assert(is_digit(digits.take(k)[j]));
            }
        }
        let next: u128 = value as u128 * 10 + digit as u128;
        if next > usize::MAX as u128 {
            proof {
                if all_digits(digits) {
                    lemma_value_grows(digits, k + 1);
                }
            }
            return None;
        }
        value = next as usize;
        i = i + 1;
    }
    assert(digits.take(len - start) =~= digits);
    Some(value)
}

/// Reading a number's decimal notation gives the number back.
pub proof fn lemma_decimal_read_back(n: nat)
    ensures
        decimal(n).len() > 0,
        all_digits(decimal(n)),
        decimal_value(decimal(n)) == n,
    decreases n,
{
    reveal_with_fuel(decimal_value, 2);
    if n < 10 {
        assert(decimal(n).drop_last() =~= Seq::empty());
    } else {
        lemma_decimal_read_back(n / 10);
        assert(decimal(n).drop_last() =~= decimal(n / 10));
        assert forall|i: int| 0 <= i < decimal(n).len() implies is_digit(
            #[trigger] decimal(n)[i],
        ) by {
            if i < decimal(n / 10).len() {
                assert(is_digit(decimal(n / 10)[i]));
            }
        }
    }
}

/// Reading back the decimal notation of a `usize` always succeeds.
pub proof fn lemma_unsigned_read_back(n: usize)
    ensures
        unsigned_value(decimal(n as nat)) == Some(n),
{
    lemma_decimal_read_back(n as nat);
    assert(is_digit(decimal(n as nat)[0]));
}

/// Position of a character's last occurrence.
pub open spec fn last_position(text: Seq<char>, c: char) -> Option<int>
    decreases text.len(),
{
    if text.len() == 0 {
        None
    } else if text.last() == c {
        Some(text.len() - 1)
    } else {
        last_position(text.drop_last(), c)
    }
}

/// Finds a character's last occurrence.
pub fn find_last(text: &str, c: char) -> (position: Option<usize>)
    ensures
        match position {
            Some(i) => last_position(text@, c) == Some(i as int) && i < text@.len(),
            None => last_position(text@, c) is None,
        },
{
    let len = text.unicode_len();
    let mut i: usize = len;
    assert(text@.take(len as int) =~= text@);
    while i > 0
        invariant
            i <= len,
            len == text@.len(),
            last_position(text@, c) == last_position(text@.take(i as int), c),
        decreases i,
    {
        assert(text@.take(i as int).drop_last() =~= text@.take(i - 1));
        assert(text@.take(i as int).last() == text@[i - 1]);
        if text.get_char(i - 1) == c {
            return Some(i - 1);
        }
        i = i - 1;
    }
    None
}

/// A character has a last occurrence if and only if it occurs.
pub proof fn lemma_last_position_exists(text: Seq<char>, c: char)
    ensures
        last_position(text, c) is Some <==> text.contains(c),
    decreases text.len(),
{
    if text.len() > 0 {
        let rest = text.drop_last();
        lemma_last_position_exists(rest, c);
        if text.contains(c) && text.last() != c {
            let i = choose|i: int| 0 <= i < text.len() && text[i] == c;
            assert(rest[i] == c);
        }
        if rest.contains(c) {
            let i = choose|i: int| 0 <= i < rest.len() && rest[i] == c;
            assert(text[i] == c);
        }
        if text.last() == c {
            assert(text[text.len() - 1] == c);
        }
    }
}

/// The last occurrence is where the text holds the character and no later position does.
pub proof fn lemma_last_position(text: Seq<char>, c: char, at: int)
    requires
        0 <= at < text.len(),
        text[at] == c,
        forall|i: int| at < i < text.len() ==> text[i] != c,
    ensures
        last_position(text, c) == Some(at),
    decreases text.len(),
{
    if at < text.len() - 1 {
        lemma_last_position(text.drop_last(), c, at);
    }
}

/// The last position of a character holds it, and no later one does.
pub proof fn lemma_last_position_found(text: Seq<char>, c: char)
    ensures
        last_position(text, c) matches Some(at) ==> 0 <= at < text.len() && text[at] == c
            && forall|i: int| at < i < text.len() ==> #[trigger] text[i] != c,
    decreases text.len(),
{
    if text.len() > 0 && text.last() != c {
        lemma_last_position_found(text.drop_last(), c);
        if let Some(at) = last_position(text.drop_last(), c) {
            assert forall|i: int| at < i < text.len() implies #[trigger] text[i] != c by {
                if i < text.len() - 1 {
                    assert(text.drop_last()[i] != c);
                }
            }
        }
    }
}

/// Character of a hexadecimal digit, in lower case.
pub open spec fn hex_char(digit: int) -> char {
    if digit < 10 {
        (digit + 48) as char
    } else {
        (digit + 87) as char
    }
}

/// The last `count` hexadecimal digits of a number, most significant first.
pub open spec fn hex_digits(n: nat, count: nat) -> Seq<char>
    decreases count,
{
    if count == 0 {
        Seq::empty()
    } else {
        hex_digits(n / 16, (count - 1) as nat).push(hex_char((n % 16) as int))
    }
}

pub proof fn lemma_hex_digits_len(n: nat, count: nat)
    ensures
        hex_digits(n, count).len() == count,
    decreases count,
{
    if count > 0 {
        lemma_hex_digits_len(n / 16, (count - 1) as nat);
    }
}

/// Formats an identifier as `uuid::Uuid::simple` does: the identifier's 128 bits as 32
/// hexadecimal digits in lower case, without hyphens, most significant digit first.
#[verifier::external_body]
fn simple_id(id: u128) -> (text: String)
    ensures
        text@ == hex_digits(id as nat, 32),
{
    uuid::Uuid::from_u128(id).simple().to_string()
}

/// The first eight digits of an identifier's simple form.
pub open spec fn short_id_text(id: u128) -> Seq<char> {
    hex_digits(id as nat, 32).take(8)
}

/// Shortens an identifier to the first eight digits of its simple form.
pub fn short_id(id: u128) -> (text: String)
    ensures
        text@ == short_id_text(id),
{
    let simple = simple_id(id);
    proof {
        lemma_hex_digits_len(id as nat, 32);
    }
    let text = simple.as_str().substring_char(0, 8).to_owned();
    assert(text@ =~= short_id_text(id));
    text
}

/// A number is read from its digits, with or without a plus sign. Nothing is read from an empty
/// text, or from one that holds anything else.
pub proof fn law_numbers_are_read_from_digits(n: usize, text: Seq<char>, i: int)
    ensures
        unsigned_value(decimal(n as nat)) == Some(n),
        unsigned_value(seq!['+'] + decimal(n as nat)) == Some(n),
        text.len() == 0 ==> unsigned_value(text) is None,
        text =~= seq!['+'] ==> unsigned_value(text) is None,
        0 <= i < text.len() && !(i == 0 && text[i] == '+') && !('0' <= text[i] && text[i] <= '9')
            ==> unsigned_value(text) is None,
{
    let digits = decimal(n as nat);
    lemma_unsigned_read_back(n);
    lemma_decimal_read_back(n as nat);
    assert((seq!['+'] + digits).skip(1) =~= digits);
    if 0 <= i < text.len() && !(i == 0 && text[i] == '+') && !('0' <= text[i] && text[i] <= '9') {
        let rest = unsigned_digits(text);
        if text[0] == '+' {
            assert(rest[i - 1] == text[i]);
            assert(!is_digit(rest[i - 1]));
        } else {
            assert(rest[i] == text[i]);
            assert(!is_digit(rest[i]));
        }
    }
}

} // verus!
