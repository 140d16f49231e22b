//! Points in time as microseconds, and their notations in seconds.
use vstd::prelude::*;
use chrono::TimeZone;
use crate::text;

verus! {

/// The microseconds of one second.
pub const SECOND: i64 = 1_000_000;

/// The microseconds of one day.
pub const DAY: i64 = 86_400_000_000;

/// Ten to the power `n`.
pub open spec fn ten_to(n: nat) -> nat
    decreases n,
{
    if n == 0 {
        1
    } else {
        10 * ten_to((n - 1) as nat)
    }
}

/// The lowest `width` decimal digits of `n`.
pub open spec fn padded(n: nat, width: nat) -> Seq<char>
    decreases width,
{
    if width == 0 {
        Seq::empty()
    } else {
        padded(n / 10, (width - 1) as nat).push(text::digit_char(n % 10))
    }
}

/// The digits behind the point of a number of microseconds below a second,
/// without trailing zeros.
pub open spec fn fraction_text(micros: nat) -> Seq<char> {
    text::stripped_end(padded(micros, 6), "0"@)
}

pub open spec fn magnitude(micros: int) -> nat {
    if micros < 0 {
        (-micros) as nat
    } else {
        micros as nat
    }
}

pub open spec fn sign_text(micros: int) -> Seq<char> {
    if micros < 0 {
        "-"@
    } else {
        ""@
    }
}

/// Seconds with as many decimals as needed, none for whole seconds.
pub open spec fn seconds_shown(micros: int) -> Seq<char> {
    let n = magnitude(micros);
    let whole = sign_text(micros) + text::decimal(n / 1_000_000);
    if n % 1_000_000 == 0 {
        whole
    } else {
        whole + "."@ + fraction_text(n % 1_000_000)
    }
}

/// Seconds with at least one decimal.
pub open spec fn seconds_number(micros: int) -> Seq<char> {
    if magnitude(micros) % 1_000_000 == 0 {
        seconds_shown(micros) + ".0"@
    } else {
        seconds_shown(micros)
    }
}

/// Seconds with six decimals.
pub open spec fn seconds_fixed(micros: int) -> Seq<char> {
    let n = magnitude(micros);
    sign_text(micros) + text::decimal(n / 1_000_000) + "."@ + padded(n % 1_000_000, 6)
}

/// The number of characters before the exponent of a number.
pub open spec fn mantissa_len(body: Seq<char>) -> nat
    decreases body.len(),
{
    if body.len() == 0 || body[0] == 'e' || body[0] == 'E' {
        0
    } else {
        1 + mantissa_len(body.drop_first())
    }
}

/// The whole number that decimal digits write before their point, which stands
/// behind so many of them; zeros are missing where it stands further out.
pub open spec fn value_before(digits: Seq<char>, point: int) -> nat {
    if point <= 0 {
        0
    } else if point <= digits.len() {
        text::digits_value(digits.take(point))
    } else {
        text::digits_value(digits) * ten_to((point - digits.len()) as nat)
    }
}

/// By how many places the exponent of a number moves its point; by none where
/// there is no exponent.
pub open spec fn exponent_read(body: Seq<char>) -> Option<int> {
    let n = mantissa_len(body) as int;
    if n >= body.len() {
        Some(0)
    } else {
        let shown = body.skip(n + 1);
        let back = shown.len() > 0 && shown[0] == '-';
        let digits = if back || (shown.len() > 0 && shown[0] == '+') {
            shown.drop_first()
        } else {
            shown
        };
        if digits.len() == 0 || !text::all_digits(digits) {
            None
        } else if back {
            Some(-(text::digits_value(digits) as int))
        } else {
            Some(text::digits_value(digits) as int)
        }
    }
}

/// Whether an unsigned number is called infinite.
pub open spec fn is_infinity(body: Seq<char>) -> bool {
    text::same_ascii(body, "inf"@) || text::same_ascii(body, "infinity"@)
}

/// The digits of an unsigned number in decimal notation, with or without an
/// exponent, and behind how many of them its point stands.
pub open spec fn decimal_read(body: Seq<char>) -> Option<(Seq<char>, int)> {
    let parts = text::fields(text::clipped(body, mantissa_len(body)), '.');
    let whole = parts[0];
    let fraction = if parts.len() == 2 {
        parts[1]
    } else {
        Seq::empty()
    };
    match exponent_read(body) {
        Some(places) => if parts.len() <= 2 && whole.len() + fraction.len() > 0
            && text::all_digits(whole) && text::all_digits(fraction) {
            Some((whole + fraction, whole.len() + places))
        } else {
            None
        },
        None => None,
    }
}

/// The microseconds that an unsigned number of seconds gives. What is less than
/// a microsecond is dropped.
pub open spec fn micros_read(body: Seq<char>) -> Option<nat> {
    match decimal_read(body) {
        Some((digits, point)) => Some(value_before(digits, point + 6)),
        None => None,
    }
}

/// Whether digits with a point behind so many of them write a number that is
/// too large for a number of double precision: one of more than 309 digits.
pub open spec fn is_beyond(digits: Seq<char>, point: int) -> bool {
    exists|i: int| 0 <= i < digits.len() && #[trigger] digits[i] != '0' && point - i > 309
}

/// A number without its sign.
pub open spec fn unsigned(shown: Seq<char>) -> Seq<char> {
    if shown.len() > 0 && (shown[0] == '-' || shown[0] == '+') {
        shown.drop_first()
    } else {
        shown
    }
}

/// The microseconds that a finite number of seconds gives, held inside the range
/// of an `i64`.
pub open spec fn finite_read(shown: Seq<char>) -> Option<int> {
    match decimal_read(unsigned(shown)) {
        Some((digits, point)) => if is_beyond(digits, point) {
            None
        } else {
            seconds_read(shown)
        },
        None => None,
    }
}

/// `value` with its sign, held inside the range of an `i64`.
pub open spec fn held(negative: bool, value: nat) -> int {
    if negative {
        if value <= 0x8000_0000_0000_0000 {
            -(value as int)
        } else {
            i64::MIN as int
        }
    } else if value <= i64::MAX {
        value as int
    } else {
        i64::MAX as int
    }
}

/// The microseconds that a number of seconds gives, held inside the range of an
/// `i64`. An infinite number is as far out as any.
pub open spec fn seconds_read(shown: Seq<char>) -> Option<int> {
    let negative = shown.len() > 0 && shown[0] == '-';
    let body = unsigned(shown);
    if is_infinity(body) {
        Some(if negative {
            i64::MIN as int
        } else {
            i64::MAX as int
        })
    } else {
        match micros_read(body) {
            Some(micros) => Some(held(negative, micros)),
            None => None,
        }
    }
}

/// The largest exponent that is told from a larger one.
pub const EXPONENT_LIMIT: i128 = 1_000_000_000_000_000_000_000_000_000_000;

/// `value`, or `limit` where it is greater.
pub open spec fn capped(value: nat, limit: nat) -> nat {
    if value < limit {
        value
    } else {
        limit
    }
}

/// `instant` moved by `delay`, held inside the range of an `i64`.
pub open spec fn moved(instant: int, delay: int) -> int {
    if instant + delay > i64::MAX {
        i64::MAX as int
    } else if instant + delay < i64::MIN {
        i64::MIN as int
    } else {
        instant + delay
    }
}

// ---------------------------------------------------------------------------
// Reading back what was written
// ---------------------------------------------------------------------------

proof fn lemma_padded(n: nat, width: nat)
    ensures
        padded(n, width).len() == width,
        text::all_digits(padded(n, width)),
    decreases width,
{
    if width > 0 {
        lemma_padded(n / 10, (width - 1) as nat);
        let shown = padded(n, width);
        assert forall|i: int| 0 <= i < shown.len() implies text::is_digit(#[trigger] shown[i]) by {
            if i < shown.len() - 1 {
                assert(shown[i] == padded(n / 10, (width - 1) as nat)[i]);
            }
        }
    }
}

proof fn lemma_padded_value(n: nat, width: nat)
    requires
        n < ten_to(width),
    ensures
        text::digits_value(padded(n, width)) == n,
    decreases width,
{
    if width > 0 {
        assert(n / 10 < ten_to((width - 1) as nat));
        lemma_padded_value(n / 10, (width - 1) as nat);
        let shown = padded(n, width);
        assert(shown.drop_last() =~= padded(n / 10, (width - 1) as nat));
        assert(shown.last() as u32 - 48 == n % 10);
    } else {
        assert(padded(n, width) =~= Seq::<char>::empty());
    }
}

/// What two runs of digits write one behind the other.
proof fn lemma_digits_joined(left: Seq<char>, right: Seq<char>)
    ensures
        text::digits_value(left + right) == text::digits_value(left) * ten_to(right.len())
            + text::digits_value(right),
    decreases right.len(),
{
    let whole = left + right;
    if right.len() == 0 {
        assert(whole =~= left);
        assert(text::digits_value(left) * 1 == text::digits_value(left)) by (nonlinear_arith);
    } else {
        let rest = right.drop_last();
        lemma_digits_joined(left, rest);
        assert(whole.drop_last() =~= left + rest);
        assert(whole.last() == right.last());
        let value = text::digits_value(left);
        let unit = ten_to(rest.len());
        assert((value * unit) * 10 == value * (10 * unit)) by (nonlinear_arith);
    }
}

/// Zeros at the end of a fraction only fill its places.
proof fn lemma_strip_zeros(digits: Seq<char>)
    requires
        text::all_digits(digits),
    ensures
        ({
            let rest = text::stripped_end(digits, "0"@);
            &&& rest.len() <= digits.len()
            &&& text::all_digits(rest)
            &&& text::digits_value(digits) == text::digits_value(rest) * ten_to(
                (digits.len() - rest.len()) as nat,
            )
        }),
    decreases digits.len(),
{
    reveal_strlit("0");
    let rest = text::stripped_end(digits, "0"@);
    if digits.len() > 0 && "0"@.contains(digits.last()) {
        let init = digits.drop_last();
        assert forall|i: int| 0 <= i < init.len() implies text::is_digit(#[trigger] init[i]) by {
            assert(init[i] == digits[i]);
        }
        lemma_strip_zeros(init);
        assert(digits.last() == '0');
        let value = text::digits_value(rest);
        let unit = ten_to((init.len() - rest.len()) as nat);
        assert((value * unit) * 10 == value * (10 * unit)) by (nonlinear_arith);
    } else {
        assert(text::digits_value(digits) * 1 == text::digits_value(digits)) by (nonlinear_arith);
    }
}

proof fn lemma_ten_product(left: nat, right: nat)
    ensures
        ten_to(left) * ten_to(right) == ten_to(left + right),
    decreases left,
{
    let unit = ten_to(right);
    if left > 0 {
        lemma_ten_product((left - 1) as nat, right);
        let low = ten_to((left - 1) as nat);
        assert((10 * low) * unit == 10 * (low * unit)) by (nonlinear_arith);
    } else {
        assert(1 * unit == unit) by (nonlinear_arith);
    }
}

proof fn lemma_no_point(digits: Seq<char>)
    requires
        text::all_digits(digits),
    ensures
        !digits.contains('.'),
        digits.len() > 0 ==> digits[0] != '-' && digits[0] != '+',
{
    if digits.contains('.') {
        let i = choose|i: int| 0 <= i < digits.len() && digits[i] == '.';
        assert(text::is_digit(digits[i]));
    }
    if digits.len() > 0 {
        assert(text::is_digit(digits[0]));
    }
}

proof fn lemma_mantissa_len_at(body: Seq<char>, n: int)
    requires
        0 <= n <= body.len(),
        forall|j: int| 0 <= j < n ==> #[trigger] body[j] != 'e' && body[j] != 'E',
        n == body.len() || body[n] == 'e' || body[n] == 'E',
    ensures
        mantissa_len(body) == n,
    decreases n,
{
    if n > 0 {
        let rest = body.drop_first();
        assert forall|j: int| 0 <= j < n - 1 implies #[trigger] rest[j] != 'e' && rest[j]
            != 'E' by {
            assert(rest[j] == body[j + 1]);
        }
        lemma_mantissa_len_at(rest, n - 1);
    }
}

/// Digits with a point among them have no exponent.
proof fn lemma_no_exponent(whole: Seq<char>, fraction: Seq<char>)
    requires
        text::all_digits(whole),
        text::all_digits(fraction),
    ensures
        ({
            let body = whole + seq!['.'] + fraction;
            &&& exponent_read(body) == Some(0int)
            &&& text::clipped(body, mantissa_len(body)) == body
            &&& exponent_read(whole) == Some(0int)
            &&& text::clipped(whole, mantissa_len(whole)) == whole
        }),
{
    let body = whole + seq!['.'] + fraction;
    assert forall|j: int| 0 <= j < body.len() implies #[trigger] body[j] != 'e' && body[j]
        != 'E' by {
        if j < whole.len() {
            assert(text::is_digit(whole[j]));
        } else if j > whole.len() {
            assert(text::is_digit(fraction[j - whole.len() - 1]));
        }
    }
    lemma_mantissa_len_at(body, body.len() as int);
    assert forall|j: int| 0 <= j < whole.len() implies #[trigger] whole[j] != 'e' && whole[j]
        != 'E' by {
        assert(text::is_digit(whole[j]));
    }
    lemma_mantissa_len_at(whole, whole.len() as int);
}

/// A number that begins with a digit is not called infinite.
proof fn lemma_no_infinity(body: Seq<char>)
    requires
        body.len() > 0,
        text::is_digit(body[0]),
    ensures
        !is_infinity(body),
        unsigned(body) == body,
{
    reveal_strlit("inf");
    reveal_strlit("infinity");
    assert(text::ascii_lower(body)[0] == body[0]);
    assert(text::ascii_lower("inf"@)[0] == 'i');
    assert(text::ascii_lower("infinity"@)[0] == 'i');
}

/// Whole seconds are read.
proof fn lemma_whole_read(whole: nat)
    ensures
        micros_read(text::decimal(whole)) == Some(whole * 1_000_000),
{
    reveal_with_fuel(ten_to, 7);
    let digits = text::decimal(whole);
    text::lemma_decimal(whole);
    lemma_no_point(digits);
    text::lemma_two_fields(digits, '.', Seq::empty());
    lemma_no_exponent(digits, Seq::empty());
    assert(digits + Seq::<char>::empty() =~= digits);
}

/// Seconds with at most six decimals are read.
proof fn lemma_fraction_read(whole: nat, fraction: Seq<char>, part: nat)
    requires
        text::all_digits(fraction),
        fraction.len() <= 6,
        text::digits_value(fraction) * ten_to((6 - fraction.len()) as nat) == part,
    ensures
        micros_read(text::decimal(whole) + seq!['.'] + fraction) == Some(whole * 1_000_000 + part),
{
    let digits = text::decimal(whole);
    let all = digits + fraction;
    text::lemma_decimal(whole);
    lemma_no_point(digits);
    lemma_no_point(fraction);
    text::lemma_two_fields(digits, '.', fraction);
    lemma_no_exponent(digits, fraction);
    lemma_digits_joined(digits, fraction);
    let behind = text::digits_value(fraction);
    let here = ten_to(fraction.len());
    let rest = ten_to((6 - fraction.len()) as nat);
    lemma_ten_product(fraction.len(), (6 - fraction.len()) as nat);
    assert(here * rest == 1_000_000) by {
        reveal_with_fuel(ten_to, 7);
    }
    assert((whole * here + behind) * rest == whole * (here * rest) + behind * rest)
        by (nonlinear_arith);
    assert(text::digits_value(all) * rest == whole * 1_000_000 + part);
    assert(all.take(all.len() as int) =~= all);
    if fraction.len() == 6 {
        assert(text::digits_value(all) * 1 == text::digits_value(all)) by (nonlinear_arith);
    }
}

/// A point in time is read back from its notation in seconds.
pub proof fn lemma_seconds_read_back(micros: int)
    requires
        i64::MIN <= micros <= i64::MAX,
    ensures
        seconds_read(seconds_shown(micros)) == Some(micros),
        seconds_read(seconds_number(micros)) == Some(micros),
{
    reveal_strlit("-");
    reveal_strlit("");
    reveal_strlit(".");
    reveal_strlit(".0");
    let n = magnitude(micros);
    let whole = n / 1_000_000;
    let part = n % 1_000_000;
    let digits = text::decimal(whole);
    text::lemma_decimal(whole);
    assert(text::is_digit(digits[0]));
    assert(held(micros < 0, n) == micros);
    let shown = seconds_shown(micros);
    let number = seconds_number(micros);
    if part == 0 {
        lemma_whole_read(whole);
        lemma_no_infinity(digits);
        if micros < 0 {
            assert(shown.drop_first() =~= digits);
        } else {
            assert(shown =~= digits);
        }
        let zero = seq!['0'];
        assert(zero.drop_last() =~= Seq::<char>::empty());
        assert(text::digits_value(Seq::<char>::empty()) == 0);
        assert(text::digits_value(zero) == 0);
        assert(0 * ten_to(5) == 0) by (nonlinear_arith);
        lemma_fraction_read(whole, zero, 0);
        let body = digits + seq!['.'] + zero;
        assert(body[0] == digits[0]);
        assert(number =~= sign_text(micros) + body);
        lemma_signed_body(micros, number, body);
    } else {
        let fraction = fraction_text(part);
        assert(part < ten_to(6)) by {
            reveal_with_fuel(ten_to, 7);
        }
        lemma_padded(part, 6);
        lemma_padded_value(part, 6);
        lemma_strip_zeros(padded(part, 6));
        lemma_fraction_read(whole, fraction, part);
        let body = digits + seq!['.'] + fraction;
        assert(body[0] == digits[0]);
        assert(shown =~= sign_text(micros) + body);
        lemma_signed_body(micros, shown, body);
    }
}

/// A number is its sign and what is behind it.
proof fn lemma_signed_body(micros: int, shown: Seq<char>, body: Seq<char>)
    requires
        shown == sign_text(micros) + body,
        body.len() > 0,
        text::is_digit(body[0]),
    ensures
        unsigned(shown) == body,
        !is_infinity(body),
        (shown.len() > 0 && shown[0] == '-') == (micros < 0),
{
    reveal_strlit("-");
    reveal_strlit("");
    lemma_no_infinity(body);
    if micros < 0 {
        assert(shown.drop_first() =~= body);
    } else {
        assert(shown =~= body);
    }
}

// ---------------------------------------------------------------------------
// Notation
// ---------------------------------------------------------------------------

fn padded_text(n: u64, width: usize) -> (result: String)
    ensures
        result@ == padded(n as nat, width as nat),
    decreases width,
{
    if width == 0 {
        String::new()
    } else {
        let mut result = padded_text(n / 10, width - 1);
        let digit: u8 = 48 + (n % 10) as u8;
        result.push(digit as char);
        result
    }
}

fn magnitude_of(micros: i64) -> (result: u64)
    ensures
        result == magnitude(micros as int),
{
    if micros == i64::MIN {
        0x8000_0000_0000_0000
    } else if micros < 0 {
        (-micros) as u64
    } else {
        micros as u64
    }
}

fn sign_of(micros: i64) -> (result: String)
    ensures
        result@ == sign_text(micros as int),
{
    if micros < 0 {
        "-".to_owned()
    } else {
        "".to_owned()
    }
}

/// Seconds with as many decimals as needed.
pub fn seconds_text(micros: i64) -> (result: String)
    ensures
        result@ == seconds_shown(micros as int),
{
    let n: u64 = magnitude_of(micros);
    let mut result = sign_of(micros);
    let whole = text::decimal_text(n / 1_000_000);
    result.append(whole.as_str());
    let part: u64 = n % 1_000_000;
    if part != 0 {
        let digits = padded_text(part, 6);
        let fraction = text::strip_end(digits.as_str(), "0");
        result.append(".");
        result.append(fraction.as_str());
    }
    result
}

/// Seconds with at least one decimal.
pub fn seconds_number_text(micros: i64) -> (result: String)
    ensures
        result@ == seconds_number(micros as int),
{
    let mut result = seconds_text(micros);
    if magnitude_of(micros) % 1_000_000 == 0 {
        result.append(".0");
    }
    result
}

/// Seconds with six decimals.
pub fn seconds_fixed_text(micros: i64) -> (result: String)
    ensures
        result@ == seconds_fixed(micros as int),
{
    let n: u64 = magnitude_of(micros);
    let mut result = sign_of(micros);
    let whole = text::decimal_text(n / 1_000_000);
    result.append(whole.as_str());
    result.append(".");
    let digits = padded_text(n % 1_000_000, 6);
    result.append(digits.as_str());
    result
}

/// `instant` moved by `delay`, held inside the range of an `i64`.
pub fn move_by(instant: i64, delay: i64) -> (result: i64)
    ensures
        result == moved(instant as int, delay as int),
{
    let sum: i128 = instant as i128 + delay as i128;
    if sum > 0x7fff_ffff_ffff_ffff {
        0x7fff_ffff_ffff_ffff
    } else if sum < -0x8000_0000_0000_0000 {
        i64::MIN
    } else {
        sum as i64
    }
}

fn only_digits(shown: &str) -> (result: bool)
    ensures
        result == text::all_digits(shown@),
{
    let chars = text::chars_of(shown);
    for i in 0..chars.len()
        invariant
            chars@ == shown@,
            forall|j: int| 0 <= j < i ==> text::is_digit(#[trigger] shown@[j]),
    {
        let n: u32 = chars[i] as u32;
        if n < 48 || n > 57 {
            assert(!text::is_digit(shown@[i as int]));
            return false;
        }
    }
    true
}

fn find_exponent(chars: &Vec<char>) -> (result: usize)
    ensures
        result == mantissa_len(chars@),
        result <= chars@.len(),
{
    let mut n: usize = 0;
    while n < chars.len() && chars[n] != 'e' && chars[n] != 'E'
        invariant
            n <= chars@.len(),
            forall|j: int| 0 <= j < n ==> #[trigger] chars@[j] != 'e' && chars@[j] != 'E',
        decreases chars.len() - n,
    {
        n += 1;
    }
    proof {
        lemma_mantissa_len_at(chars@, n as int);
    }
    n
}

/// The number that digits write, or `limit` where it is greater.
fn value_up_to(digits: &Vec<char>, end: usize, limit: u128) -> (result: u128)
    requires
        end <= digits@.len(),
        text::all_digits(digits@),
        limit <= EXPONENT_LIMIT,
    ensures
        result == capped(text::digits_value(digits@.take(end as int)), limit as nat),
{
    let mut value: u128 = 0;
    assert(text::digits_value(digits@.take(0)) == 0);
    for i in 0..end
        invariant
            end <= digits@.len(),
            text::all_digits(digits@),
            limit <= EXPONENT_LIMIT,
            value == capped(text::digits_value(digits@.take(i as int)), limit as nat),
    {
        let ghost next = digits@.take(i + 1);
        assert(next.drop_last() =~= digits@.take(i as int));
        assert(text::is_digit(digits@[i as int]));
        let more: u128 = value * 10 + (digits[i] as u32 - 48) as u128;
        value = if more < limit {
            more
        } else {
            limit
        };
    }
    value
}

proof fn lemma_ten_grows(low: nat, high: nat)
    requires
        low <= high,
    ensures
        ten_to(low) <= ten_to(high),
    decreases high,
{
    if low < high {
        lemma_ten_grows(low, (high - 1) as nat);
    }
}

/// The whole number before the point, or 2^63 where it is greater.
fn value_before_point(digits: &Vec<char>, point: i128) -> (result: u64)
    requires
        text::all_digits(digits@),
        point <= 2 * EXPONENT_LIMIT,
    ensures
        result == capped(value_before(digits@, point as int), 0x8000_0000_0000_0000),
{
    let limit: u128 = 0x8000_0000_0000_0000;
    if point <= 0 {
        return 0;
    }
    if point <= digits.len() as i128 {
        let value: u128 = value_up_to(digits, point as usize, limit);
        return value as u64;
    }
    let zeros: i128 = point - digits.len() as i128;
    let mut value: u128 = value_up_to(digits, digits.len(), limit);
    let ghost all = text::digits_value(digits@);
    proof {
        assert(digits@.take(digits@.len() as int) =~= digits@);
        assert(all * ten_to(0) == all) by (nonlinear_arith)
            requires
                ten_to(0) == 1,
        ;
    }
    let mut filled: i128 = 0;
    while filled < zeros && filled < 20
        invariant
            0 <= filled <= zeros,
            filled <= 20,
            limit == 0x8000_0000_0000_0000,
            value == capped(all * ten_to(filled as nat), limit as nat),
        decreases zeros - filled,
    {
        let ghost unit = ten_to(filled as nat);
        assert(ten_to((filled + 1) as nat) == 10 * unit);
        assert(all * (10 * unit) == 10 * (all * unit)) by (nonlinear_arith);
        let more: u128 = value * 10;
        value = if more < limit {
            more
        } else {
            limit
        };
        filled += 1;
    }
    proof {
        if filled < zeros {
            reveal_with_fuel(ten_to, 21);
            lemma_ten_grows(20, zeros as nat);
            let unit = ten_to(zeros as nat);
            if all == 0 {
                assert(all * unit == 0) by (nonlinear_arith)
                    requires
                        all == 0,
                ;
                assert(all * ten_to(20) == 0) by (nonlinear_arith)
                    requires
                        all == 0,
                ;
            } else {
                assert(all * unit >= unit) by (nonlinear_arith)
                    requires
                        all >= 1,
                ;
                assert(all * ten_to(20) >= ten_to(20)) by (nonlinear_arith)
                    requires
                        all >= 1,
                ;
            }
        }
    }
    value as u64
}

/// The exponent of a number, held at the limit.
fn read_exponent(chars: &Vec<char>) -> (result: Option<i128>)
    ensures
        match result {
            Some(places) => exponent_read(chars@) matches Some(told) && places == (if told < 0 {
                -(capped((-told) as nat, EXPONENT_LIMIT as nat) as int)
            } else {
                capped(told as nat, EXPONENT_LIMIT as nat) as int
            }),
            None => exponent_read(chars@) is None,
        },
{
    let n: usize = find_exponent(chars);
    if n >= chars.len() {
        return Some(0);
    }
    let back = n + 1 < chars.len() && chars[n + 1] == '-';
    let signed = back || (n + 1 < chars.len() && chars[n + 1] == '+');
    let start: usize = if signed {
        n + 2
    } else {
        n + 1
    };
    let shown = text::text_between(chars, start, chars.len());
    let digits = text::chars_of(shown.as_str());
    proof {
        let rest = chars@.skip(n + 1);
        if signed {
            assert(digits@ =~= rest.drop_first());
        } else {
            assert(digits@ =~= rest);
        }
    }
    if digits.len() == 0 || !only_digits(shown.as_str()) {
        return None;
    }
    let places: u128 = value_up_to(&digits, digits.len(), EXPONENT_LIMIT as u128);
    assert(digits@.take(digits@.len() as int) =~= digits@);
    if back {
        Some(-(places as i128))
    } else {
        Some(places as i128)
    }
}

/// A point that stands so far out that an exponent was held at the limit gives
/// what it would give further out.
proof fn lemma_far_point(digits: Seq<char>, near: int, far: int)
    requires
        near == far || digits.len() + 20 <= near <= far || far <= near <= 0,
    ensures
        capped(value_before(digits, near), 0x8000_0000_0000_0000) == capped(
            value_before(digits, far),
            0x8000_0000_0000_0000,
        ),
{
    if near > 0 && near < far {
        reveal_with_fuel(ten_to, 21);
        let all = text::digits_value(digits);
        let first = ten_to((near - digits.len()) as nat);
        let second = ten_to((far - digits.len()) as nat);
        lemma_ten_grows(20, (near - digits.len()) as nat);
        lemma_ten_grows(20, (far - digits.len()) as nat);
        if all == 0 {
            assert(all * first == 0 && all * second == 0) by (nonlinear_arith)
                requires
                    all == 0,
            ;
        } else {
            assert(all * first >= first && all * second >= second) by (nonlinear_arith)
                requires
                    all >= 1,
            ;
        }
    }
}

/// Whether two points give the same, as they are equal or both far out.
spec fn alike(digits: Seq<char>, near: int, told: int) -> bool {
    near == told || digits.len() + 400 <= near <= told || told <= near <= -400
}

fn read_decimal(body: &Vec<char>) -> (result: Option<(Vec<char>, i128)>)
    ensures
        match result {
            Some((digits, point)) => {
                &&& decimal_read(body@) matches Some((all, told)) && digits@ == all && alike(
                    all,
                    point as int,
                    told,
                )
                &&& text::all_digits(digits@)
                &&& -EXPONENT_LIMIT <= point <= EXPONENT_LIMIT + u64::MAX
            },
            None => decimal_read(body@) is None,
        },
{
    let places: i128 = match read_exponent(body) {
        Some(places) => places,
        None => {
            return None;
        },
    };
    let n: usize = find_exponent(body);
    let mantissa = text::text_between(body, 0, n);
    assert(mantissa@ =~= text::clipped(body@, n as nat));
    let parts = text::split_char(mantissa.as_str(), '.');
    let ghost seen = text::fields(mantissa@, '.');
    assert(seen == text::texts(parts@));
    if parts.len() > 2 {
        return None;
    }
    let whole = parts[0].as_str();
    let fraction = if parts.len() == 2 {
        parts[1].clone()
    } else {
        String::new()
    };
    assert(seen[0] == whole@);
    assert(fraction@ == (if seen.len() == 2 {
        seen[1]
    } else {
        Seq::empty()
    }));
    if whole.is_empty() && fraction.as_str().is_empty() {
        return None;
    }
    if !only_digits(whole) || !only_digits(fraction.as_str()) {
        return None;
    }
    let before: usize = text::chars_of(whole).len();
    let mut all = whole.to_owned();
    all.append(fraction.as_str());
    let digits = text::chars_of(all.as_str());
    let total: usize = digits.len();
    proof {
        assert(total <= u64::MAX && before <= u64::MAX);
        assert forall|i: int| 0 <= i < digits@.len() implies text::is_digit(
            #[trigger] digits@[i],
        ) by {
            if i < whole@.len() {
                assert(digits@[i] == whole@[i]);
            } else {
                assert(digits@[i] == fraction@[i - whole@.len()]);
            }
        }
    }
    Some((digits, before as i128 + places))
}

fn read_micros(body: &Vec<char>) -> (result: Option<u64>)
    ensures
        match result {
            Some(micros) => micros_read(body@) matches Some(told) && micros == capped(
                told,
                0x8000_0000_0000_0000,
            ),
            None => micros_read(body@) is None,
        },
{
    match read_decimal(body) {
        Some((digits, point)) => {
            proof {
                let told = decimal_read(body@).unwrap().1;
                lemma_far_point(digits@, point + 6, told + 6);
            }
            Some(value_before_point(&digits, point + 6))
        },
        None => None,
    }
}

/// Reads a number of seconds.
pub fn parse_seconds(shown: &str) -> (result: Option<i64>)
    ensures
        match result {
            Some(micros) => seconds_read(shown@) == Some(micros as int),
            None => seconds_read(shown@) is None,
        },
{
    let chars = text::chars_of(shown);
    let negative = chars.len() > 0 && chars[0] == '-';
    let signed = negative || (chars.len() > 0 && chars[0] == '+');
    let start: usize = if signed {
        1
    } else {
        0
    };
    let body_text = text::text_between(&chars, start, chars.len());
    let body = text::chars_of(body_text.as_str());
    proof {
        if signed {
            assert(body@ =~= shown@.drop_first());
        } else {
            assert(body@ =~= shown@);
        }
    }
    if text::eq_ignore_ascii_case(body_text.as_str(), "inf") || text::eq_ignore_ascii_case(
        body_text.as_str(),
        "infinity",
    ) {
        return Some(
            if negative {
                i64::MIN
            } else {
                i64::MAX
            },
        );
    }
    let micros: u64 = match read_micros(&body) {
        Some(micros) => micros,
        None => {
            return None;
        },
    };
    if micros >= 0x8000_0000_0000_0000 {
        Some(
            if negative {
                i64::MIN
            } else {
                i64::MAX
            },
        )
    } else if negative {
        Some(-(micros as i64))
    } else {
        Some(micros as i64)
    }
}

/// Reads a finite number of seconds.
pub fn parse_finite_seconds(shown: &str) -> (result: Option<i64>)
    ensures
        match result {
            Some(micros) => finite_read(shown@) == Some(micros as int),
            None => finite_read(shown@) is None,
        },
{
    let chars = text::chars_of(shown);
    let start: usize = if chars.len() > 0 && (chars[0] == '-' || chars[0] == '+') {
        1
    } else {
        0
    };
    let body_text = text::text_between(&chars, start, chars.len());
    let body = text::chars_of(body_text.as_str());
    assert(body@ =~= unsigned(shown@));
    let (digits, point) = match read_decimal(&body) {
        Some(read) => read,
        None => {
            return None;
        },
    };
    let ghost told = decimal_read(body@).unwrap().1;
    let mut i: usize = 0;
    while i < digits.len()
        invariant
            i <= digits@.len(),
            decimal_read(unsigned(shown@)) == Some((digits@, told)),
            alike(digits@, point as int, told),
            -EXPONENT_LIMIT <= point <= EXPONENT_LIMIT + u64::MAX,
            forall|j: int| 0 <= j < i ==> #[trigger] digits@[j] == '0' || told - j <= 309,
        decreases digits.len() - i,
    {
        if digits[i] != '0' && point - i as i128 > 309 {
            assert(digits@[i as int] != '0' && told - i > 309);
            return None;
        }
        i += 1;
    }
    assert(!is_beyond(digits@, told));
    parse_seconds(shown)
}

// ---------------------------------------------------------------------------
// Local time
// ---------------------------------------------------------------------------

/// The whole seconds of a point in time, rounded toward zero.
pub open spec fn whole_seconds(at: int) -> int {
    if at >= 0 {
        at / 1_000_000
    } else {
        -((-at) / 1_000_000)
    }
}

/// The whole seconds of a point in time, rounded toward zero.
pub fn seconds_of(at: i64) -> (result: i64)
    ensures
        result == whole_seconds(at as int),
{
    if at >= 0 {
        at / 1_000_000
    } else if at == i64::MIN {
        -9_223_372_036_854
    } else {
        -((-at) / 1_000_000)
    }
}

/// What `chrono::DateTime::format` shows by a pattern for a second of Unix time
/// in the zone that is `offset` seconds ahead of UTC; nothing where chrono has
/// no such time or no such zone.
pub uninterp spec fn time_shown(seconds: i64, offset: i32, pattern: Seq<char>) -> Option<Seq<char>>;

/// Whether a pattern is one of those by which times are shown.
pub open spec fn known_pattern(pattern: Seq<char>) -> bool {
    pattern == "%H:%M:%S"@ || pattern == "%m-%d %H:%M:%S"@ || pattern == "%Y-%m-%d %H:%M:%S"@
}

/// Whether chrono has a time for a second of Unix time: from the beginning of
/// the year -262143 to the end of the year 262142.
pub open spec fn has_moment(seconds: int) -> bool {
    -8_334_601_228_800 <= seconds <= 8_210_266_876_799
}

/// Whether a zone can be so many seconds ahead of UTC: less than a day.
pub open spec fn is_offset(offset: i32) -> bool {
    -86_400 < offset < 86_400
}

/// The time of day of a second, with two digits each for hour, minute and
/// second.
pub open spec fn clock_face(seconds: int) -> Seq<char> {
    let day = (seconds % 86_400) as nat;
    padded(day / 3_600, 2) + ":"@ + padded(day / 60 % 60, 2) + ":"@ + padded(day % 60, 2)
}

/// Calls `timestamp_opt` of `chrono::Local` and asks the time for its offset.
/// There is one exactly for the seconds that chrono has a time for, and it is
/// less than a day. Which one it is depends on the time zone of the machine and
/// is left open.
#[verifier::external_body]
fn zone_offset(seconds: i64) -> (result: Option<i32>)
    ensures
        result is Some == has_moment(seconds as int),
        result matches Some(offset) ==> is_offset(offset),
{
    let moment = chrono::Local.timestamp_opt(seconds, 0).single();
    moment.map(|value| value.offset().local_minus_utc())
}

/// Calls `timestamp_opt` of a `chrono::FixedOffset` and `chrono::DateTime::format`
/// on the time. What is shown is a function of the second, the offset and the
/// pattern alone; there is something to show exactly where chrono has the time
/// and the zone. It ends with the time of day, and is no more than that by the
/// pattern that asks for nothing else.
#[verifier::external_body]
fn time_at_offset(seconds: i64, offset: i32, pattern: &str) -> (result: Option<String>)
    requires
        known_pattern(pattern@),
    ensures
        text::opt_text(result) == time_shown(seconds, offset, pattern@),
        result is Some == (has_moment(seconds as int) && is_offset(offset)),
        result matches Some(shown) ==> text::ends(shown@, clock_face(seconds + offset)) && (
        pattern@ == "%H:%M:%S"@ ==> shown@ == clock_face(seconds + offset)),
{
    let zone = chrono::FixedOffset::east_opt(offset)?;
    let moment = zone.timestamp_opt(seconds, 0).single();
    moment.map(|value| value.format(pattern).to_string())
}

/// A point in time as a clock shows it whose zone is `offset` seconds ahead of
/// UTC; nothing where chrono has no such time.
pub open spec fn zone_shown(at: int, offset: i32, pattern: Seq<char>) -> Option<Seq<char>> {
    if has_moment(whole_seconds(at)) {
        time_shown(whole_seconds(at) as i64, offset, pattern)
    } else {
        None
    }
}

/// Whether a zone can be `offset` seconds ahead of UTC and a clock in it shows
/// a point in time, as every clock does that has the time: with the time of day
/// at the end, and nothing else where nothing else is asked for.
pub open spec fn told(at: int, offset: i32, pattern: Seq<char>) -> bool {
    let face = clock_face(whole_seconds(at) + offset);
    &&& is_offset(offset)
    &&& match zone_shown(at, offset, pattern) {
        Some(shown) => has_moment(whole_seconds(at)) && text::ends(shown, face) && (pattern
            == "%H:%M:%S"@ ==> shown == face),
        None => !has_moment(whole_seconds(at)),
    }
}

/// A point in time as the clock of the machine shows it, wherever chrono has
/// the time. The zone of the machine is left open.
pub fn local_time(at: i64, pattern: &str) -> (result: Option<String>)
    requires
        known_pattern(pattern@),
    ensures
        result is Some == has_moment(whole_seconds(at as int)),
        exists|offset: i32|
            told(at as int, offset, pattern@) && text::opt_text(result) == #[trigger] zone_shown(
                at as int,
                offset,
                pattern@,
            ),
{
    let seconds: i64 = seconds_of(at);
    match zone_offset(seconds) {
        Some(offset) => {
            let result = time_at_offset(seconds, offset, pattern);
            assert(text::opt_text(result) == zone_shown(at as int, offset, pattern@));
            result
        },
        None => {
            assert(zone_shown(at as int, 0i32, pattern@) is None);
            None
        },
    }
}

} // verus!
