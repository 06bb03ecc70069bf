//! Sizes as a configuration writes them: `512`, `16KiB`, `5 MB`.

use vstd::prelude::*;
use vstd::string::*;

use crate::text;

verus! {

/// Why a text is no size.
#[derive(Debug)]
pub enum SizeError {
    /// The number is missing or too large; the whole text.
    Number(String),
    /// The unit is none that exists; the unit in small letters.
    Unit(String),
}

/// What a [`SizeError`] says.
pub enum SizeProblem {
    Number(Seq<char>),
    Unit(Seq<char>),
}

impl View for SizeError {
    type V = SizeProblem;

    open spec fn view(&self) -> SizeProblem {
        match self {
            SizeError::Number(value) => SizeProblem::Number(value@),
            SizeError::Unit(unit) => SizeProblem::Unit(unit@),
        }
    }
}

impl SizeError {
    /// The error as a sentence.
    pub fn message(&self) -> (sentence: String)
        ensures
            sentence@ == match self@ {
                SizeProblem::Number(value) => seq!["invalid size number: "@, value].flatten(),
                SizeProblem::Unit(unit) => seq!["invalid size unit: "@, unit].flatten(),
            },
    {
        match self {
            SizeError::Number(value) => text::join_two("invalid size number: ", value.as_str()),
            SizeError::Unit(unit) => text::join_two("invalid size unit: ", unit.as_str()),
        }
    }
}

/// A size, capped at what 64 bits hold.
pub open spec fn capped(sum: int) -> u64 {
    if sum <= u64::MAX {
        sum as u64
    } else {
        u64::MAX
    }
}

/// The sum of two numbers, or the largest number where it is too large.
pub fn capped_sum(a: u64, b: u64) -> (sum: u64)
    ensures
        sum == capped(a + b),
{
    if a > u64::MAX - b {
        u64::MAX
    } else {
        a + b
    }
}

/// The number of digits that `s` begins with.
pub open spec fn leading_digits(s: Seq<char>) -> nat
    decreases s.len(),
{
    if s.len() > 0 && text::is_digit(s.first()) {
        1 + leading_digits(s.drop_first())
    } else {
        0
    }
}

/// The number that digits spell.
pub open spec fn digits_value(s: Seq<char>) -> nat
    decreases s.len(),
{
    if s.len() == 0 {
        0
    } else {
        digits_value(s.drop_last()) * 10 + digit_value(s.last())
    }
}

/// The number that a digit stands for.
pub open spec fn digit_value(c: char) -> nat {
    (c as nat - 48) as nat
}

/// How many bytes a unit stands for. Both spellings count by 1024.
pub open spec fn unit_bytes(unit: Seq<char>) -> Option<nat> {
    if unit == ""@ || unit == "b"@ {
        Some(1)
    } else if unit == "k"@ || unit == "kb"@ || unit == "kib"@ {
        Some(1024)
    } else if unit == "m"@ || unit == "mb"@ || unit == "mib"@ {
        Some(1024 * 1024)
    } else if unit == "g"@ || unit == "gb"@ || unit == "gib"@ {
        Some(1024 * 1024 * 1024)
    } else {
        None
    }
}

/// What a text says as a size: a number and a unit in capital or small letters,
/// with white space around either, the bytes capped at what 64 bits hold.
pub open spec fn size_of(value: Seq<char>) -> Result<u64, SizeProblem> {
    let all = text::trimmed(value);
    let n = leading_digits(all);
    let number = digits_value(all.take(n as int));
    let unit = text::lowered(text::trimmed(all.skip(n as int)));
    if n == 0 || number > u64::MAX {
        Err(SizeProblem::Number(value))
    } else {
        match unit_bytes(unit) {
            Some(bytes) => if number * bytes > u64::MAX {
                Ok(u64::MAX)
            } else {
                Ok((number * bytes) as u64)
            },
            None => Err(SizeProblem::Unit(unit)),
        }
    }
}

proof fn lemma_leading_digits(s: Seq<char>, n: int)
    requires
        0 <= n <= s.len(),
        forall|i: int| 0 <= i < n ==> text::is_digit(#[trigger] s[i]),
        n < s.len() ==> !text::is_digit(s[n]),
    ensures
        leading_digits(s) == n,
    decreases n,
{
    if n > 0 {
        assert(s.first() == s[0]);
        lemma_leading_digits(s.drop_first(), n - 1);
    }
}

proof fn lemma_digits_value_grows(s: Seq<char>, n: int)
    requires
        0 <= n <= s.len(),
    ensures
        digits_value(s) >= digits_value(s.take(n)),
    decreases s.len() - n,
{
    if n == s.len() {
        assert(s.take(n) == s);
    } else {
        assert(s.take(n + 1).drop_last() == s.take(n));
        lemma_digits_value_grows(s, n + 1);
    }
}

/// The number that `digits` spell; `None` where 64 bits do not hold it.
fn number_from(digits: &[char]) -> (number: Option<u64>)
    requires
        forall|i: int| 0 <= i < digits@.len() ==> text::is_digit(#[trigger] digits@[i]),
    ensures
        number is Some <==> digits_value(digits@) <= u64::MAX,
        number matches Some(n) ==> n == digits_value(digits@),
{
    let mut number: u64 = 0;
    for i in 0..digits.len()
        invariant
            forall|i: int| 0 <= i < digits@.len() ==> text::is_digit(#[trigger] digits@[i]),
            number == digits_value(digits@.take(i as int)),
    {
        assert(digits@.take(i + 1).drop_last() == digits@.take(i as int));
        assert(text::is_digit(digits@[i as int]));
        let digit: u64 = (digits[i] as u8 - 48) as u64;
        if number > (u64::MAX - digit) / 10 {
            proof {
                lemma_digits_value_grows(digits@, i + 1);
            }
            return None;
        }
        number = number * 10 + digit;
    }
    assert(digits@.take(digits@.len() as int) == digits@);
    Some(number)
}

/// The number that a text of digits spells; `None` for a text with anything
/// else in it, for an empty one, and where 64 bits do not hold the number.
pub fn read_number(s: &[char]) -> (number: Option<u64>)
    ensures
        number == if s@.len() > 0 && leading_digits(s@) == s@.len() && digits_value(s@)
            <= u64::MAX {
            Some(digits_value(s@) as u64)
        } else {
            None
        },
{
    for i in 0..s.len()
        invariant
            forall|j: int| 0 <= j < i ==> text::is_digit(#[trigger] s@[j]),
    {
        if !text::digit(s[i]) {
            proof {
                lemma_leading_digits(s@, i as int);
            }
            return None;
        }
    }
    proof {
        lemma_leading_digits(s@, s@.len() as int);
    }
    if s.len() == 0 {
        None
    } else {
        number_from(s)
    }
}

/// How many bytes `unit` stands for.
fn bytes_of(unit: &[char]) -> (bytes: Option<u64>)
    ensures
        bytes is Some <==> unit_bytes(unit@) is Some,
        bytes matches Some(b) ==> Some(b as nat) == unit_bytes(unit@),
{
    if text::spells(unit, "") || text::spells(unit, "b") {
        Some(1)
    } else if text::spells(unit, "k") || text::spells(unit, "kb") || text::spells(unit, "kib") {
        Some(1024)
    } else if text::spells(unit, "m") || text::spells(unit, "mb") || text::spells(unit, "mib") {
        Some(1024 * 1024)
    } else if text::spells(unit, "g") || text::spells(unit, "gb") || text::spells(unit, "gib") {
        Some(1024 * 1024 * 1024)
    } else {
        None
    }
}

/// Reads a size in bytes.
pub fn parse_size(value: &str) -> (size: Result<u64, SizeError>)
    ensures
        size is Ok <==> size_of(value@) is Ok,
        size matches Ok(bytes) ==> size_of(value@) == Ok::<u64, SizeProblem>(bytes),
        size matches Err(error) ==> size_of(value@) == Err::<u64, SizeProblem>(error@),
{
    let chars: Vec<char> = text::to_chars(value);
    let all: Vec<char> = text::trim(chars.as_slice());
    let mut n: usize = 0;
    while n < all.len() && text::digit(all[n])
        invariant
            n <= all@.len(),
            forall|i: int| 0 <= i < n ==> text::is_digit(#[trigger] all@[i]),
        decreases all@.len() - n,
    {
        n = n + 1;
    }
    let digits: Vec<char> = text::slice(all.as_slice(), 0, n);
    let rest: Vec<char> = text::slice(all.as_slice(), n, all.len());
    proof {
        lemma_leading_digits(all@, n as int);
        assert(digits@ == all@.take(n as int));
        assert(rest@ == all@.skip(n as int));
    }
    if n == 0 {
        return Err(SizeError::Number(value.to_string()));
    }
    match number_from(digits.as_slice()) {
        None => Err(SizeError::Number(value.to_string())),
        Some(number) => {
            let bare: Vec<char> = text::trim(rest.as_slice());
            let unit: Vec<char> = text::lowercase(bare.as_slice());
            match bytes_of(unit.as_slice()) {
                None => Err(SizeError::Unit(text::from_chars(unit.as_slice()))),
                Some(bytes) => {
                    assert(number * bytes <= u64::MAX * 1073741824) by (nonlinear_arith)
                        requires
                            number <= u64::MAX,
                            bytes <= 1073741824,
                    ;
                    let product: u128 = number as u128 * bytes as u128;
                    if product > u64::MAX as u128 {
                        Ok(u64::MAX)
                    } else {
                        Ok(product as u64)
                    }
                },
            }
        },
    }
}

/// A number without a unit is a size in bytes.
pub proof fn law_plain_number_is_its_size(n: u64)
    ensures
        size_of(text::decimal(n as nat)) == Ok::<u64, SizeProblem>(n),
{
    let s = text::decimal(n as nat);
    lemma_decimal(n as nat);
    assert(s.first() == s[0] && s.last() == s[s.len() - 1]);
    assert(text::trimmed(s) == s);
    lemma_leading_digits(s, s.len() as int);
    assert(s.take(s.len() as int) == s);
    let rest = s.skip(s.len() as int);
    reveal_strlit("");
    assert(rest == Seq::<char>::empty());
    assert(text::trimmed(rest) == rest);
    assert(text::lowered(text::trimmed(rest)) =~= ""@);
    assert(n as nat * 1 == n as nat);
}

/// The decimal digits of a number are digits and spell the number.
pub proof fn lemma_decimal(n: nat)
    ensures
        text::decimal(n).len() > 0,
        forall|i: int|
            0 <= i < text::decimal(n).len() ==> text::is_digit(#[trigger] text::decimal(n)[i]),
        digits_value(text::decimal(n)) == n,
    decreases n,
{
    assert(digits_value(Seq::<char>::empty()) == 0);
    assert(digit_value(text::digit_char(n % 10)) == n % 10);
    assert(text::decimal(n).last() == text::digit_char(n % 10));
    if n < 10 {
        assert(text::decimal(n).drop_last() == Seq::<char>::empty());
    } else {
        lemma_decimal(n / 10);
        assert(text::decimal(n).drop_last() == text::decimal(n / 10));
    }
}

/// The digits that a text begins with are counted up to the first other character.
pub proof fn law_digits_are_counted(s: Seq<char>, n: int)
    requires
        0 <= n <= s.len(),
        forall|i: int| 0 <= i < n ==> '0' <= #[trigger] s[i] <= '9',
        n < s.len() ==> !('0' <= s[n] <= '9'),
    ensures
        leading_digits(s) == n,
{
    assert forall|i: int| 0 <= i < n implies text::is_digit(#[trigger] s[i]) by {
        assert('0' <= s[i] <= '9');
    }
    lemma_leading_digits(s, n);
}

/// A character that is no digit ends the digits that a text begins with.
pub proof fn lemma_digits_stop(s: Seq<char>, i: int)
    requires
        0 <= i < s.len(),
        !text::is_digit(s[i]),
    ensures
        leading_digits(s) <= i,
    decreases i,
{
    if i > 0 {
        assert(s.drop_first()[i - 1] == s[i]);
        lemma_digits_stop(s.drop_first(), i - 1);
    }
}

/// Zeros in front do not change the number that digits spell, and there are as many
/// as it takes.
pub proof fn law_padding_keeps_the_number(n: nat, width: nat)
    ensures
        ({
            let s = text::zero_padded(text::decimal(n), width);
            &&& s.len() >= width
            &&& s.len() == width || s == text::decimal(n)
            &&& digits_value(s) == n
            &&& forall|i: int| 0 <= i < s.len() ==> '0' <= #[trigger] s[i] <= '9'
        }),
{
    lemma_decimal(n);
    let digits = text::decimal(n);
    if digits.len() < width {
        lemma_zeros_in_front(digits, (width - digits.len()) as nat);
    }
    let s = text::zero_padded(digits, width);
    assert forall|i: int| 0 <= i < s.len() implies '0' <= #[trigger] s[i] <= '9' by {
        let zeros = s.len() - digits.len();
        if i >= zeros {
            assert(s[i] == digits[i - zeros]);
            assert(text::is_digit(digits[i - zeros]));
        }
    }
}

proof fn lemma_zeros_in_front(digits: Seq<char>, zeros: nat)
    ensures
        digits_value(Seq::new(zeros, |i: int| '0') + digits) == digits_value(digits),
    decreases digits.len(), zeros,
{
    let s = Seq::new(zeros, |i: int| '0') + digits;
    if digits.len() > 0 {
        lemma_zeros_in_front(digits.drop_last(), zeros);
        assert(s.drop_last() =~= Seq::new(zeros, |i: int| '0') + digits.drop_last());
    } else if zeros > 0 {
        let less = (zeros - 1) as nat;
        lemma_zeros_in_front(digits, less);
        assert(s.drop_last() =~= Seq::new(less, |i: int| '0') + digits);
        assert(digit_value('0') == 0);
    }
}

/// A number below a power of ten has no more digits than that power says.
pub proof fn lemma_decimal_len(n: nat, width: nat)
    requires
        width > 0,
        n < vstd::arithmetic::power::pow(10, width),
    ensures
        text::decimal(n).len() <= width,
    decreases width,
{
    reveal(vstd::arithmetic::power::pow);
    if n >= 10 {
        let less = (width - 1) as nat;
        assert(vstd::arithmetic::power::pow(10, 0) == 1);
        assert(vstd::arithmetic::power::pow(10, width) == 10 * vstd::arithmetic::power::pow(
            10,
            less,
        ));
        lemma_decimal_len(n / 10, less);
    }
}

/// A size is its number times what its unit stands for, capped at what 64 bits hold.
/// The unit can be in capital or small letters, with blanks in front of it.
pub proof fn law_size_is_number_times_unit(n: u64, blanks: nat, unit: Seq<char>)
    requires
        ({
            let small = text::lowered(unit);
            ||| small == "b"@ || small == "k"@ || small == "kb"@ || small == "kib"@
            ||| small == "m"@ || small == "mb"@ || small == "mib"@
            ||| small == "g"@ || small == "gb"@ || small == "gib"@
        }),
        forall|i: int| 0 <= i < unit.len() ==> ('a' <= #[trigger] unit[i] <= 'z') || ('A' <= unit[i]
            <= 'Z'),
    ensures
        ({
            let small = text::lowered(unit);
            let scale: nat = if small[0] == 'b' {
                1
            } else if small[0] == 'k' {
                1024
            } else if small[0] == 'm' {
                1024 * 1024
            } else {
                1024 * 1024 * 1024
            };
            let written = text::decimal(n as nat) + Seq::new(blanks, |i: int| ' ') + unit;
            size_of(written) == Ok::<u64, SizeProblem>(
                if n * scale <= u64::MAX {
                    (n * scale) as u64
                } else {
                    u64::MAX
                },
            )
        }),
{
    reveal_strlit("");
    reveal_strlit("b");
    reveal_strlit("k");
    reveal_strlit("kb");
    reveal_strlit("kib");
    reveal_strlit("m");
    reveal_strlit("mb");
    reveal_strlit("mib");
    reveal_strlit("g");
    reveal_strlit("gb");
    reveal_strlit("gib");
    let small = text::lowered(unit);
    assert(small.len() == unit.len());
    let digits = text::decimal(n as nat);
    lemma_decimal(n as nat);
    let gap = Seq::new(blanks, |i: int| ' ');
    let written = digits + gap + unit;
    assert(written.first() == digits[0]);
    assert(text::is_digit(digits[0]));
    assert(written.last() == unit[unit.len() - 1]);
    assert(text::trimmed(written) == written);
    let rest = written.skip(digits.len() as int);
    assert(rest =~= gap + unit);
    assert forall|i: int| 0 <= i < digits.len() implies text::is_digit(#[trigger] written[i]) by {
        assert(written[i] == digits[i]);
        assert(text::is_digit(digits[i]));
    }
    assert(!text::is_digit(written[digits.len() as int])) by {
        assert(written[digits.len() as int] == rest[0]);
        if blanks > 0 {
            assert(rest[0] == ' ');
        } else {
            assert(rest[0] == unit[0]);
        }
    }
    lemma_leading_digits(written, digits.len() as int);
    assert(written.take(digits.len() as int) =~= digits);
    lemma_blanks_removed(blanks, unit);
    assert(text::trimmed(rest) == unit);
}

proof fn lemma_blanks_removed(blanks: nat, unit: Seq<char>)
    requires
        unit.len() > 0,
        !text::is_space(unit[0]),
        !text::is_space(unit[unit.len() - 1]),
    ensures
        text::trimmed(Seq::new(blanks, |i: int| ' ') + unit) == unit,
    decreases blanks,
{
    let s = Seq::new(blanks, |i: int| ' ') + unit;
    if blanks > 0 {
        let less = (blanks - 1) as nat;
        assert(s.drop_first() =~= Seq::new(less, |i: int| ' ') + unit);
        assert(s.first() == ' ');
        lemma_blanks_removed(less, unit);
    } else {
        assert(s =~= unit);
    }
}

/// A text that does not begin with a digit, white space aside, is no size.
pub proof fn law_size_begins_with_a_number(value: Seq<char>)
    requires
        ({
            let all = text::trimmed(value);
            all.len() == 0 || !('0' <= all[0] <= '9')
        }),
    ensures
        size_of(value) == Err::<u64, SizeProblem>(SizeProblem::Number(value)),
{
}

/// A sum is capped at what 64 bits hold, and only there.
pub proof fn law_cap_is_the_largest_number(sum: nat)
    ensures
        sum <= u64::MAX ==> capped(sum as int) == sum,
        sum > u64::MAX ==> capped(sum as int) == u64::MAX,
{
}

/// A number that 64 bits do not hold is no size, whatever its unit.
pub proof fn law_huge_number_is_no_size(n: nat, unit: Seq<char>)
    requires
        n > u64::MAX,
        unit.len() > 0 ==> !text::is_digit(unit[0]) && !text::is_space(unit.last()),
    ensures
        size_of(text::decimal(n) + unit) == Err::<u64, SizeProblem>(
            SizeProblem::Number(text::decimal(n) + unit),
        ),
{
    let digits = text::decimal(n);
    lemma_decimal(n);
    let s = digits + unit;
    assert(s.first() == digits[0]);
    assert(text::is_digit(digits[0]));
    if unit.len() > 0 {
        assert(s.last() == unit.last());
        assert(s[digits.len() as int] == unit[0]);
    } else {
        assert(s =~= digits);
        assert(text::is_digit(digits[digits.len() - 1]));
    }
    assert(text::trimmed(s) == s);
    assert forall|i: int| 0 <= i < digits.len() implies text::is_digit(#[trigger] s[i]) by {
        assert(s[i] == digits[i]);
        assert(text::is_digit(digits[i]));
    }
    lemma_leading_digits(s, digits.len() as int);
    assert(s.take(digits.len() as int) =~= digits);
}

/// A unit that there is not is told in small letters.
pub proof fn law_unknown_unit_is_told(n: u64, unit: Seq<char>)
    requires
        unit.len() > 0,
        !text::is_digit(unit[0]),
        !text::is_space(unit[0]),
        !text::is_space(unit.last()),
        ({
            let small = text::lowered(unit);
            &&& small != "b"@ && small != "k"@ && small != "kb"@ && small != "kib"@
            &&& small != "m"@ && small != "mb"@ && small != "mib"@
            &&& small != "g"@ && small != "gb"@ && small != "gib"@
        }),
    ensures
        size_of(text::decimal(n as nat) + unit) == Err::<u64, SizeProblem>(
            SizeProblem::Unit(text::lowered(unit)),
        ),
{
    reveal_strlit("");
    let digits = text::decimal(n as nat);
    lemma_decimal(n as nat);
    let s = digits + unit;
    assert(s.first() == digits[0]);
    assert(text::is_digit(digits[0]));
    assert(s.last() == unit.last());
    assert(s[digits.len() as int] == unit[0]);
    assert(text::trimmed(s) == s);
    assert forall|i: int| 0 <= i < digits.len() implies text::is_digit(#[trigger] s[i]) by {
        assert(s[i] == digits[i]);
        assert(text::is_digit(digits[i]));
    }
    lemma_leading_digits(s, digits.len() as int);
    assert(s.take(digits.len() as int) =~= digits);
    assert(s.skip(digits.len() as int) =~= unit);
    assert(text::trimmed(unit) == unit);
    assert(text::lowered(unit).len() == unit.len());
}

} // verus!
