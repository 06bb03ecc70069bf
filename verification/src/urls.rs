//! Percent-encoding: how a text stands in a part of a URL.

use vstd::prelude::*;

use crate::text;

verus! {

/// A character that stands for itself in every part of a URL.
pub open spec fn is_unreserved(c: char) -> bool {
    text::is_alphanumeric(c) || c == '-' || c == '_' || c == '.' || c == '~'
}

/// The hexadecimal digit for a number below sixteen.
pub open spec fn hex_digit(n: u8) -> char {
    if n < 10 {
        (48 + n) as char
    } else {
        (55 + n) as char
    }
}

/// A byte of a text as it stands in a URL: as it is where it is an unreserved
/// character of ASCII, else `%` and two hexadecimal digits.
pub open spec fn encoded_byte(b: u8) -> Seq<char> {
    if b < 128 && is_unreserved(b as char) {
        seq![b as char]
    } else {
        seq!['%', hex_digit(b / 16), hex_digit(b % 16)]
    }
}

/// A text as it stands in a URL, byte by byte of its UTF-8 form.
pub open spec fn encoded(plain: Seq<char>) -> Seq<char> {
    vstd::utf8::encode_utf8(plain).map_values(|b: u8| encoded_byte(b)).flatten()
}

/// An encoded text holds unreserved characters and `%` only.
pub proof fn law_encoded_text_is_harmless(plain: Seq<char>)
    ensures
        forall|i: int|
            0 <= i < encoded(plain).len() ==> is_unreserved(#[trigger] encoded(plain)[i])
                || encoded(plain)[i] == '%',
{
    let bytes = vstd::utf8::encode_utf8(plain);
    let parts = bytes.map_values(|b: u8| encoded_byte(b));
    let good = |c: char| is_unreserved(c) || c == '%';
    assert forall|i: int, j: int| 0 <= i < parts.len() && 0 <= j < parts[i].len() implies good(
        #[trigger] parts[i][j],
    ) by {
        assert(parts[i] == encoded_byte(bytes[i]));
        lemma_hex_digit(bytes[i] / 16);
        lemma_hex_digit(bytes[i] % 16);
    }
    text::lemma_flatten_all(parts, good);
    assert forall|i: int| 0 <= i < encoded(plain).len() implies is_unreserved(
        #[trigger] encoded(plain)[i],
    ) || encoded(plain)[i] == '%' by {
        assert(good(parts.flatten()[i]));
    }
}

/// A hexadecimal digit is a digit or a letter.
proof fn lemma_hex_digit(n: u8)
    requires
        n < 16,
    ensures
        is_unreserved(hex_digit(n)),
{
}

/// A text of unreserved characters is its own encoding.
pub proof fn law_unreserved_text_is_its_encoding(plain: Seq<char>)
    requires
        forall|i: int| 0 <= i < plain.len() ==> is_unreserved(#[trigger] plain[i]),
    ensures
        encoded(plain) == plain,
{
    let bytes = vstd::utf8::encode_utf8(plain);
    let parts = bytes.map_values(|b: u8| encoded_byte(b));
    assert(vstd::utf8::is_ascii_chars(plain));
    vstd::utf8::is_ascii_chars_encode_utf8(plain);
    assert forall|i: int| 0 <= i < plain.len() implies #[trigger] parts[i] == seq![plain[i]] by {
        assert(bytes[i] == plain[i] as u8);
        lemma_byte_of_ascii(plain[i]);
    }
    lemma_flatten_singles(parts, plain);
}

/// A character of ASCII is the one that its byte stands for.
proof fn lemma_byte_of_ascii(c: char)
    requires
        c <= '\u{7f}',
    ensures
        (c as u8) < 128,
        (c as u8) as char == c,
{
}

/// Parts of one character each make up the text of these characters.
proof fn lemma_flatten_singles(parts: Seq<Seq<char>>, whole: Seq<char>)
    requires
        parts.len() == whole.len(),
        forall|i: int| 0 <= i < parts.len() ==> #[trigger] parts[i] == seq![whole[i]],
    ensures
        parts.flatten() == whole,
    decreases parts.len(),
{
    if parts.len() > 0 {
        lemma_flatten_singles(parts.drop_last(), whole.drop_last());
        text::lemma_flatten_last(parts);
        assert(parts.flatten() =~= whole);
    } else {
        assert(parts.flatten() =~= whole);
    }
}

/// A byte that does not stand for itself is written as `%` and its two hexadecimal
/// digits in capital letters, the higher one first.
pub proof fn law_byte_is_written_in_hexadecimal(b: u8)
    ensures
        ({
            let digits = "0123456789ABCDEF"@;
            let plain = (48 <= b <= 57) || (65 <= b <= 90) || (97 <= b <= 122) || b == 45 || b == 95
                || b == 46 || b == 126;
            &&& plain ==> encoded_byte(b) == seq![b as char]
            &&& !plain ==> encoded_byte(b) == seq![
                '%',
                digits[b as int / 16],
                digits[b as int % 16],
            ]
        }),
{
    reveal_strlit("0123456789ABCDEF");
    lemma_hex_table(b / 16);
    lemma_hex_table(b % 16);
}

proof fn lemma_hex_table(n: u8)
    requires
        n < 16,
    ensures
        hex_digit(n) == "0123456789ABCDEF"@[n as int],
{
    reveal_strlit("0123456789ABCDEF");
    let digits = "0123456789ABCDEF"@;
    assert(digits[0] == '0' && digits[1] == '1' && digits[2] == '2' && digits[3] == '3');
    assert(digits[4] == '4' && digits[5] == '5' && digits[6] == '6' && digits[7] == '7');
    assert(digits[8] == '8' && digits[9] == '9' && digits[10] == 'A' && digits[11] == 'B');
    assert(digits[12] == 'C' && digits[13] == 'D' && digits[14] == 'E' && digits[15] == 'F');
}

/// Texts one behind the other are encoded as each is encoded.
pub proof fn law_encoding_goes_character_by_character(a: Seq<char>, b: Seq<char>)
    ensures
        encoded(a + b) == encoded(a) + encoded(b),
        encoded(Seq::empty()).len() == 0,
{
    lemma_bytes_concat(a, b);
    let part = |byte: u8| encoded_byte(byte);
    let x = vstd::utf8::encode_utf8(a);
    let y = vstd::utf8::encode_utf8(b);
    assert((x + y).map_values(part) =~= x.map_values(part) + y.map_values(part));
    vstd::seq_lib::lemma_flatten_concat(x.map_values(part), y.map_values(part));
    assert(vstd::utf8::encode_utf8(Seq::<char>::empty()).map_values(part) =~= Seq::<
        Seq<char>,
    >::empty());
}

proof fn lemma_bytes_concat(a: Seq<char>, b: Seq<char>)
    ensures
        vstd::utf8::encode_utf8(a + b) == vstd::utf8::encode_utf8(a) + vstd::utf8::encode_utf8(b),
    decreases a.len(),
{
    if a.len() == 0 {
        assert(a + b =~= b);
        assert(vstd::utf8::encode_utf8(a + b) =~= vstd::utf8::encode_utf8(a)
            + vstd::utf8::encode_utf8(b));
    } else {
        lemma_bytes_concat(a.drop_first(), b);
        assert((a + b).drop_first() =~= a.drop_first() + b);
        assert((a + b)[0] == a[0]);
        assert(vstd::utf8::encode_utf8(a + b) =~= vstd::utf8::encode_utf8(a)
            + vstd::utf8::encode_utf8(b));
    }
}

} // verus!
