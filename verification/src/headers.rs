//! The headers of a request: what is recorded of them and what is read from
//! them.

use vstd::prelude::*;
use vstd::string::*;

use crate::size;
use crate::table::OrderedTable;
use crate::text;

verus! {

/// One header line. Names are in small letters.
#[derive(Debug)]
pub struct Header {
    pub name: String,
    pub value: Vec<u8>,
}

/// What is recorded under a header name.
#[derive(Debug)]
pub enum HeaderEntry {
    /// The value of the only line of that name.
    Single(String),
    /// The values of several lines, in order.
    Several(Vec<String>),
}

impl HeaderEntry {
    /// The recorded values, in order.
    pub open spec fn values(self) -> Seq<Seq<char>> {
        match self {
            HeaderEntry::Single(value) => seq![value@],
            HeaderEntry::Several(values) => text::contents(values@),
        }
    }
}

/// A byte that a header value can hold and still be read as text.
pub open spec fn is_visible(byte: u8) -> bool {
    (32 <= byte && byte < 127) || byte == 9
}

/// A value that can be read as text.
pub open spec fn is_readable(value: Seq<u8>) -> bool {
    forall|i: int| 0 <= i < value.len() ==> is_visible(#[trigger] value[i])
}

/// The text of a readable value.
pub open spec fn value_text(value: Seq<u8>) -> Seq<char> {
    value.map_values(|byte: u8| byte as char)
}

/// What is recorded of a value.
pub open spec fn recorded_text(value: Seq<u8>) -> Seq<char> {
    if is_readable(value) {
        value_text(value)
    } else {
        "<non-utf8>"@
    }
}

/// The text of a header value; `None` where it holds anything but visible
/// characters of ASCII, spaces and tabs.
pub fn header_text(value: &[u8]) -> (read: Option<String>)
    ensures
        read is Some <==> is_readable(value@),
        read matches Some(t) ==> t@ == value_text(value@),
{
    let mut read: String = String::new();
    for i in 0..value.len()
        invariant
            forall|j: int| 0 <= j < i ==> is_visible(#[trigger] value@[j]),
            read@ == value_text(value@.take(i as int)),
    {
        let byte: u8 = value[i];
        if !((32 <= byte && byte < 127) || byte == 9) {
            assert(!is_visible(value@[i as int]));
            return None;
        }
        read.push(byte as char);
        assert(read@ =~= value_text(value@.take(i + 1)));
    }
    assert(value@.take(value@.len() as int) == value@);
    Some(read)
}

/// The values that are recorded under `name`, in order.
pub open spec fn values_named(headers: Seq<Header>, name: Seq<char>) -> Seq<Seq<char>>
    decreases headers.len(),
{
    if headers.len() == 0 {
        Seq::empty()
    } else {
        let before = values_named(headers.drop_last(), name);
        if headers.last().name@ == name {
            before.push(recorded_text(headers.last().value@))
        } else {
            before
        }
    }
}

/// `record` holds the values of each header name in order, a single one by
/// itself, and nothing else.
pub open spec fn is_record_of(
    record: Map<Seq<char>, HeaderEntry>,
    headers: Seq<Header>,
) -> bool {
    &&& forall|name: Seq<char>| #[trigger]
        record.contains_key(name) <==> values_named(headers, name).len() > 0
    &&& forall|name: Seq<char>| #[trigger]
        record.contains_key(name) ==> {
            &&& record[name].values() == values_named(headers, name)
            &&& record[name] is Single <==> values_named(headers, name).len() == 1
        }
}

/// What is recorded of the headers of a request.
pub fn headers_to_json(headers: &Vec<Header>) -> (record: OrderedTable<HeaderEntry>)
    ensures
        is_record_of(record@, headers@),
{
    let mut record: OrderedTable<HeaderEntry> = OrderedTable::new();
    for i in 0..headers.len()
        invariant
            is_record_of(record@, headers@.take(i as int)),
    {
        let ghost seen = headers@.take(i as int);
        let ghost before = record@;
        let header: &Header = &headers[i];
        let ghost name = header.name@;
        let value: String = match header_text(header.value.as_slice()) {
            Some(read) => read,
            None => "<non-utf8>".to_string(),
        };
        let ghost recorded = value@;
        let entry: HeaderEntry = match record.get(header.name.as_str()) {
            None => HeaderEntry::Single(value),
            Some(HeaderEntry::Single(previous)) => {
                let mut values: Vec<String> = Vec::new();
                values.push(previous.clone());
                values.push(value);
                assert(text::contents(values@) =~= seq![previous@, recorded]);
                HeaderEntry::Several(values)
            },
            Some(HeaderEntry::Several(previous)) => {
                let mut values: Vec<String> = text::copy_list(previous);
                proof {
                    text::lemma_contents_push(values@, value);
                }
                values.push(value);
                HeaderEntry::Several(values)
            },
        };
        proof {
            assert(headers@.take(i + 1).drop_last() == seen);
            assert(headers@.take(i + 1).last() == headers@[i as int]);
            let values = values_named(seen, name);
            if before.contains_key(name) {
                assert(entry.values() =~= values.push(recorded));
            } else {
                assert(values =~= Seq::<Seq<char>>::empty());
                assert(entry.values() =~= values.push(recorded));
            }
        }
        record.insert(header.name.clone(), entry);
        assert forall|other: Seq<char>| other != name implies #[trigger] record@.contains_key(other)
            == before.contains_key(other) && values_named(headers@.take(i + 1), other)
            == values_named(seen, other) by {}
    }
    assert(headers@.take(headers@.len() as int) == headers@);
    record
}

/// The value of the first line named `name`.
pub open spec fn first_value(headers: Seq<Header>, name: Seq<char>) -> Option<Seq<u8>>
    decreases headers.len(),
{
    if headers.len() == 0 {
        None
    } else if headers.first().name@ == name {
        Some(headers.first().value@)
    } else {
        first_value(headers.drop_first(), name)
    }
}

/// The text of the first line named `name`, if it can be read.
pub open spec fn first_text(headers: Seq<Header>, name: Seq<char>) -> Option<Seq<char>> {
    match first_value(headers, name) {
        Some(value) if is_readable(value) => Some(value_text(value)),
        _ => None,
    }
}

/// The text of the first line named `name`; `None` where there is no such line,
/// or where it cannot be read.
fn read_first(headers: &Vec<Header>, name: &str) -> (read: Option<String>)
    ensures
        text::optional_text(read) == first_text(headers@, name@),
{
    assert(headers@.skip(0) == headers@);
    for i in 0..headers.len()
        invariant
            first_value(headers@.skip(i as int), name@) == first_value(headers@, name@),
    {
        assert(headers@.skip(i as int).drop_first() == headers@.skip(i + 1));
        if text::same_text(headers[i].name.as_str(), name) {
            return header_text(headers[i].value.as_slice());
        }
    }
    None
}

/// The content type that a request states.
pub fn content_type(headers: &Vec<Header>) -> (stated: Option<String>)
    ensures
        text::optional_text(stated) == first_text(headers@, "content-type"@),
{
    read_first(headers, "content-type")
}

/// The number that a text spells: digits, with or without a plus sign in front.
pub open spec fn spelled_number(s: Seq<char>) -> Option<u64> {
    let digits = if s.len() > 0 && s[0] == '+' {
        s.drop_first()
    } else {
        s
    };
    if digits.len() > 0 && size::leading_digits(digits) == digits.len()
        && size::digits_value(digits) <= u64::MAX {
        Some(size::digits_value(digits) as u64)
    } else {
        None
    }
}

/// The body length that a request states, if it states a number.
pub fn parse_content_length(headers: &Vec<Header>) -> (length: Option<u64>)
    ensures
        length == match first_text(headers@, "content-length"@) {
            Some(stated) => spelled_number(stated),
            None => None,
        },
{
    match read_first(headers, "content-length") {
        None => None,
        Some(stated) => {
            let chars: Vec<char> = text::to_chars(stated.as_str());
            let start: usize = if chars.len() > 0 && chars[0] == '+' {
                1
            } else {
                0
            };
            let digits: Vec<char> = text::slice(chars.as_slice(), start, chars.len());
            assert(digits@ =~= if chars@.len() > 0 && chars@[0] == '+' {
                chars@.drop_first()
            } else {
                chars@
            });
            size::read_number(digits.as_slice())
        },
    }
}

/// The bytes that the header lines take on the wire.
pub open spec fn lines_length(headers: Seq<Header>) -> nat
    decreases headers.len(),
{
    if headers.len() == 0 {
        0
    } else {
        lines_length(headers.drop_last()) + byte_length(headers.last().name@) + 2
            + headers.last().value@.len() + 2
    }
}

/// The bytes that a text takes in UTF-8.
pub open spec fn byte_length(s: Seq<char>) -> nat {
    vstd::utf8::encode_utf8(s).len()
}

/// The bytes that the head of a request takes on the wire: the request line, the
/// header lines and an empty line.
pub open spec fn head_length(method: Seq<char>, uri: Seq<char>, headers: Seq<Header>) -> nat {
    byte_length(method) + 1 + byte_length(uri) + 11 + lines_length(headers) + 2
}

/// The bytes that the head of a request takes on the wire, capped at what 64 bits
/// hold.
pub fn approximate_header_length(method: &str, uri: &str, headers: &Vec<Header>) -> (length: u64)
    ensures
        length == size::capped(head_length(method@, uri@, headers@) as int),
{
    let mut length: u64 = size::capped_sum(
        size::capped_sum(method.as_bytes().len() as u64, 1),
        size::capped_sum(uri.as_bytes().len() as u64, 11),
    );
    let ghost line = byte_length(method@) + 1 + byte_length(uri@) + 11;
    for i in 0..headers.len()
        invariant
            line == byte_length(method@) + 1 + byte_length(uri@) + 11,
            length == size::capped((line + lines_length(headers@.take(i as int))) as int),
    {
        assert(headers@.take(i + 1).drop_last() == headers@.take(i as int));
        let name: u64 = headers[i].name.as_str().as_bytes().len() as u64;
        let value: u64 = headers[i].value.len() as u64;
        length = size::capped_sum(length, size::capped_sum(name, 2));
        length = size::capped_sum(length, size::capped_sum(value, 2));
    }
    assert(headers@.take(headers@.len() as int) == headers@);
    size::capped_sum(length, 2)
}

/// Of several lines of a name the first counts.
pub proof fn law_first_line_counts(headers: Seq<Header>, at: int, name: Seq<char>)
    requires
        0 <= at < headers.len(),
        headers[at].name@ == name,
        forall|i: int| 0 <= i < at ==> (#[trigger] headers[i]).name@ != name,
    ensures
        first_value(headers, name) == Some(headers[at].value@),
        first_text(headers, name) == if is_readable(headers[at].value@) {
            Some(value_text(headers[at].value@))
        } else {
            None
        },
    decreases at,
{
    if at > 0 {
        let rest = headers.drop_first();
        assert(headers[0].name@ != name);
        assert(rest[at - 1] == headers[at]);
        assert forall|i: int| 0 <= i < at - 1 implies (#[trigger] rest[i]).name@ != name by {
            assert(rest[i] == headers[i + 1]);
        }
        law_first_line_counts(rest, at - 1, name);
    }
}

/// Where there is no line of a name, nothing is read under it.
pub proof fn law_missing_line_is_none(headers: Seq<Header>, name: Seq<char>)
    requires
        forall|i: int| 0 <= i < headers.len() ==> (#[trigger] headers[i]).name@ != name,
    ensures
        first_value(headers, name) is None,
        first_text(headers, name) is None,
    decreases headers.len(),
{
    if headers.len() > 0 {
        let rest = headers.drop_first();
        assert(headers[0].name@ != name);
        assert forall|i: int| 0 <= i < rest.len() implies (#[trigger] rest[i]).name@ != name by {
            assert(rest[i] == headers[i + 1]);
        }
        law_missing_line_is_none(rest, name);
    }
}

/// A number that is written in decimal is read back, with or without a plus sign.
pub proof fn law_number_is_read_back(n: u64)
    ensures
        spelled_number(text::decimal(n as nat)) == Some(n),
        spelled_number("+"@ + text::decimal(n as nat)) == Some(n),
{
    reveal_strlit("+");
    let s = text::decimal(n as nat);
    size::lemma_decimal(n as nat);
    size::law_digits_are_counted(s, s.len() as int);
    assert(text::is_digit(s[0]));
    let signed = "+"@ + s;
    assert(signed.drop_first() =~= s);
}

/// A text with anything but digits in it, behind at most a plus sign, is no number,
/// and neither is an empty one.
pub proof fn law_other_text_is_no_number(s: Seq<char>, i: int)
    requires
        s.len() == 0 || (0 <= i < s.len() && !text::is_digit(s[i]) && !(i == 0 && s[i] == '+')),
    ensures
        spelled_number(s) is None,
{
    if s.len() > 0 {
        let digits = if s[0] == '+' {
            s.drop_first()
        } else {
            s
        };
        let at = if s[0] == '+' {
            i - 1
        } else {
            i
        };
        assert(digits[at] == s[i]);
        size::lemma_digits_stop(digits, at);
    }
}

/// What is recorded of a value is its text, character for byte, where it holds
/// visible characters of ASCII, spaces and tabs only; otherwise a note.
pub proof fn law_readable_value_is_recorded(value: Seq<u8>)
    ensures
        ({
            let plain = forall|i: int|
                0 <= i < value.len() ==> (32 <= #[trigger] value[i] <= 126) || value[i] == 9;
            &&& plain ==> recorded_text(value).len() == value.len() && forall|i: int|
                0 <= i < value.len() ==> #[trigger] recorded_text(value)[i] == value[i] as char
            &&& !plain ==> recorded_text(value) == "<non-utf8>"@
            &&& plain <==> is_readable(value)
        }),
{
    if is_readable(value) {
        assert forall|i: int| 0 <= i < value.len() implies (32 <= #[trigger] value[i] <= 126)
            || value[i] == 9 by {
            assert(is_visible(value[i]));
        }
    } else {
        let i = choose|i: int| 0 <= i < value.len() && !is_visible(#[trigger] value[i]);
        assert(!((32 <= value[i] <= 126) || value[i] == 9));
    }
}

/// The values of a name are those of its lines, in order, and each line adds its
/// value to those of its own name alone.
pub proof fn law_each_line_adds_its_value(headers: Seq<Header>, more: Header, name: Seq<char>)
    ensures
        values_named(Seq::empty(), name).len() == 0,
        values_named(headers.push(more), name) == if more.name@ == name {
            values_named(headers, name).push(recorded_text(more.value@))
        } else {
            values_named(headers, name)
        },
{
    assert(headers.push(more).drop_last() == headers);
}

/// No header line is lost: its value is among those that are recorded under its
/// name.
pub proof fn law_every_line_is_recorded(
    record: Map<Seq<char>, HeaderEntry>,
    headers: Seq<Header>,
    at: int,
)
    requires
        is_record_of(record, headers),
        0 <= at < headers.len(),
    ensures
        record.contains_key(headers[at].name@),
        record[headers[at].name@].values().contains(recorded_text(headers[at].value@)),
{
    let name = headers[at].name@;
    lemma_value_is_named(headers, at);
    assert(values_named(headers, name).len() > 0);
    assert(record.contains_key(name));
    assert(record[name].values() == values_named(headers, name));
}

proof fn lemma_value_is_named(headers: Seq<Header>, at: int)
    requires
        0 <= at < headers.len(),
    ensures
        values_named(headers, headers[at].name@).contains(recorded_text(headers[at].value@)),
    decreases headers.len(),
{
    let name = headers[at].name@;
    let before = values_named(headers.drop_last(), name);
    let all = values_named(headers, name);
    if at == headers.len() - 1 {
        assert(all[all.len() - 1] == recorded_text(headers[at].value@));
    } else {
        lemma_value_is_named(headers.drop_last(), at);
        let value = recorded_text(headers[at].value@);
        let k = choose|k: int| 0 <= k < before.len() && before[k] == value;
        assert(all[k] == value);
    }
}

/// The head of a request is as long as its lines: each header line takes its name,
/// its value and four bytes more, the request line method, target and twelve bytes
/// more, and the empty line two.
pub proof fn law_head_is_as_long_as_its_lines(
    method: Seq<char>,
    uri: Seq<char>,
    headers: Seq<Header>,
    more: Header,
)
    ensures
        head_length(method, uri, Seq::empty()) == vstd::utf8::encode_utf8(method).len()
            + vstd::utf8::encode_utf8(uri).len() + " "@.len() + " HTTP/1.1\r\n"@.len() + "\r\n"@.len(),
        head_length(method, uri, headers.push(more)) == head_length(method, uri, headers)
            + vstd::utf8::encode_utf8(more.name@).len() + more.value@.len() + ": "@.len()
            + "\r\n"@.len(),
{
    reveal_strlit(" ");
    reveal_strlit(": ");
    reveal_strlit("\r\n");
    reveal_strlit(" HTTP/1.1\r\n");
    assert(headers.push(more).drop_last() == headers);
}

/// The record of the headers has an entry for each name that occurs and for no other,
/// with the values of its lines in order; a single one stands by itself.
pub proof fn law_record_has_an_entry_for_each_name(
    record: Map<Seq<char>, HeaderEntry>,
    headers: Seq<Header>,
    name: Seq<char>,
)
    requires
        is_record_of(record, headers),
    ensures
        record.contains_key(name) <==> exists|i: int|
            0 <= i < headers.len() && (#[trigger] headers[i]).name@ == name,
        record.contains_key(name) ==> record[name].values() == values_named(headers, name),
        record.contains_key(name) ==> (record[name] is Single <==> record[name].values().len()
            == 1),
{
    if exists|i: int| 0 <= i < headers.len() && (#[trigger] headers[i]).name@ == name {
        let i = choose|i: int| 0 <= i < headers.len() && (#[trigger] headers[i]).name@ == name;
        law_every_line_is_recorded(record, headers, i);
    } else {
        lemma_no_value_is_named(headers, name);
        assert(!record.contains_key(name));
    }
}

proof fn lemma_no_value_is_named(headers: Seq<Header>, name: Seq<char>)
    requires
        forall|i: int| 0 <= i < headers.len() ==> (#[trigger] headers[i]).name@ != name,
    ensures
        values_named(headers, name).len() == 0,
    decreases headers.len(),
{
    if headers.len() > 0 {
        let less = headers.drop_last();
        assert(headers[headers.len() - 1].name@ != name);
        assert forall|i: int| 0 <= i < less.len() implies (#[trigger] less[i]).name@ != name by {
            assert(less[i] == headers[i]);
        }
        lemma_no_value_is_named(less, name);
    }
}

} // verus!
