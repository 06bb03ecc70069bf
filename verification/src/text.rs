//! Text as a sequence of characters: the conversions, searches and renderings
//! that the other modules are built from.

use vstd::prelude::*;
use vstd::string::*;

verus! {

/// `std::string::String::push` appends one character and leaves what was there
/// before it unchanged.
pub assume_specification[ String::push ](s: &mut String, c: char)
    ensures
        final(s)@ == old(s)@.push(c),
;

/// The characters of `s`, in order.
pub fn to_chars(s: &str) -> (chars: Vec<char>)
    ensures
        chars@ == s@,
{
    let mut chars: Vec<char> = Vec::new();
    for c in it: s.chars()
        invariant
            it.seq() == s@,
            chars@ == s@.take(it.index()),
    {
        chars.push(c);
    }
    assert(s@.take(s@.len() as int) == s@);
    chars
}

/// The text made of `chars`.
pub fn from_chars(chars: &[char]) -> (s: String)
    ensures
        s@ == chars@,
{
    let mut s: String = String::new();
    for i in 0..chars.len()
        invariant
            s@ == chars@.take(i as int),
    {
        s.push(chars[i]);
    }
    assert(chars@.take(chars@.len() as int) == chars@);
    s
}

/// Whether two texts hold the same characters.
pub fn same_text(a: &str, b: &str) -> (same: bool)
    ensures
        same == (a@ == b@),
{
    let x: &[u8] = a.as_bytes();
    let y: &[u8] = b.as_bytes();
    proof {
        vstd::utf8::encode_utf8_decode_utf8(a@);
        vstd::utf8::encode_utf8_decode_utf8(b@);
    }
    if x.len() != y.len() {
        return false;
    }
    for i in 0..x.len()
        invariant
            x@ == a.spec_bytes(),
            y@ == b.spec_bytes(),
            x@.len() == y@.len(),
            x@.take(i as int) == y@.take(i as int),
    {
        if x[i] != y[i] {
            return false;
        }
    }
    assert(x@.take(x@.len() as int) == x@);
    assert(y@.take(y@.len() as int) == y@);
    true
}

/// Whether `chars` spell `s`.
pub fn spells(chars: &[char], s: &str) -> (yes: bool)
    ensures
        yes == (chars@ == s@),
{
    let other: Vec<char> = to_chars(s);
    if chars.len() != other.len() {
        return false;
    }
    for i in 0..chars.len()
        invariant
            chars@.len() == other@.len(),
            other@ == s@,
            forall|j: int| 0 <= j < i ==> chars@[j] == other@[j],
    {
        if chars[i] != other[i] {
            return false;
        }
    }
    assert(chars@ =~= s@);
    true
}

/// The contents of a list of texts.
pub open spec fn contents(list: Seq<String>) -> Seq<Seq<char>> {
    list.map_values(|s: String| s@)
}

/// Appending a text appends its content.
pub proof fn lemma_contents_push(list: Seq<String>, s: String)
    ensures
        contents(list.push(s)) == contents(list).push(s@),
{
    assert(contents(list.push(s)) =~= contents(list).push(s@));
}

/// The content of an optional text.
pub open spec fn optional_text(text: Option<String>) -> Option<Seq<char>> {
    match text {
        Some(t) => Some(t@),
        None => None,
    }
}

/// The same text once more, if there is one.
pub fn copy_text(text: &Option<String>) -> (copy: Option<String>)
    ensures
        optional_text(copy) == optional_text(*text),
{
    match text {
        Some(t) => Some(t.clone()),
        None => None,
    }
}

/// An owned copy of a text, if there is one.
pub fn owned(text: Option<&str>) -> (copy: Option<String>)
    ensures
        copy is Some <==> text is Some,
        copy matches Some(c) ==> c@ == text->0@,
{
    match text {
        Some(t) => Some(t.to_string()),
        None => None,
    }
}

/// The same texts once more.
pub fn copy_list(list: &Vec<String>) -> (copy: Vec<String>)
    ensures
        copy@ == list@,
{
    let mut copy: Vec<String> = Vec::new();
    for i in 0..list.len()
        invariant
            copy@ == list@.take(i as int),
    {
        copy.push(list[i].clone());
        assert(list@.take(i + 1) == list@.take(i as int).push(list@[i as int]));
    }
    assert(list@.take(list@.len() as int) == list@);
    copy
}

/// The contents of a list of borrowed texts.
pub open spec fn borrowed_contents(list: Seq<&str>) -> Seq<Seq<char>> {
    list.map_values(|s: &str| s@)
}

/// The texts of `parts`, one behind the other.
pub fn join_parts(parts: &[&str]) -> (joined: String)
    ensures
        joined@ == borrowed_contents(parts@).flatten(),
{
    let mut joined: String = String::new();
    let ghost all = borrowed_contents(parts@);
    for i in 0..parts.len()
        invariant
            all == borrowed_contents(parts@),
            joined@ == all.take(i as int).flatten(),
    {
        proof {
            assert(all.take(i + 1) == all.take(i as int).push(all[i as int]));
            all.take(i as int).lemma_flatten_push(all[i as int]);
        }
        joined.append(parts[i]);
    }
    assert(all.take(parts@.len() as int) == all);
    joined
}

/// What holds of every character of the parts holds of every character of the
/// whole.
pub proof fn lemma_flatten_all(parts: Seq<Seq<char>>, good: spec_fn(char) -> bool)
    requires
        forall|i: int, j: int|
            0 <= i < parts.len() && 0 <= j < parts[i].len() ==> good(#[trigger] parts[i][j]),
    ensures
        forall|k: int| 0 <= k < parts.flatten().len() ==> good(#[trigger] parts.flatten()[k]),
    decreases parts.len(),
{
    if parts.len() > 0 {
        let rest = parts.drop_first();
        assert forall|i: int, j: int|
            0 <= i < rest.len() && 0 <= j < rest[i].len() implies good(#[trigger] rest[i][j]) by {
            assert(rest[i][j] == parts[i + 1][j]);
        }
        lemma_flatten_all(rest, good);
        let first = parts.first();
        let whole = parts.flatten();
        assert(whole == first + rest.flatten());
        assert forall|k: int| 0 <= k < whole.len() implies good(#[trigger] whole[k]) by {
            if k < first.len() {
                assert(whole[k] == parts[0][k]);
            } else {
                assert(whole[k] == rest.flatten()[k - first.len()]);
            }
        }
    }
}

/// The whole ends with the last part.
pub proof fn lemma_flatten_last(parts: Seq<Seq<char>>)
    requires
        parts.len() > 0,
    ensures
        parts.flatten() == parts.drop_last().flatten() + parts.last(),
{
    parts.drop_last().lemma_flatten_push(parts.last());
    assert(parts.drop_last().push(parts.last()) == parts);
}

/// Two texts, one behind the other, are their concatenation.
pub proof fn lemma_two(a: Seq<char>, b: Seq<char>)
    ensures
        seq![a, b].flatten() == a + b,
{
    lemma_flatten_last(seq![a, b]);
    lemma_flatten_last(seq![a]);
    assert(seq![a, b].drop_last() =~= seq![a]);
    assert(seq![a].drop_last() =~= Seq::<Seq<char>>::empty());
    assert(Seq::<Seq<char>>::empty().flatten() == Seq::<char>::empty());
    assert(Seq::<char>::empty() + a =~= a);
}

/// Two texts, one behind the other.
pub fn join_two(a: &str, b: &str) -> (joined: String)
    ensures
        joined@ == seq![a@, b@].flatten(),
{
    let parts: [&str; 2] = [a, b];
    assert(borrowed_contents(parts@) =~= seq![a@, b@]);
    join_parts(&parts)
}

/// A letter or a digit of ASCII.
pub open spec fn is_alphanumeric(c: char) -> bool {
    is_upper(c) || ('a' <= c && c <= 'z') || is_digit(c)
}

/// A capital letter of ASCII.
pub open spec fn is_upper(c: char) -> bool {
    'A' <= c && c <= 'Z'
}

/// A decimal digit of ASCII.
pub open spec fn is_digit(c: char) -> bool {
    '0' <= c && c <= '9'
}

/// Whether `c` is a letter or a digit of ASCII.
pub fn alphanumeric(c: char) -> (yes: bool)
    ensures
        yes == is_alphanumeric(c),
{
    ('A' <= c && c <= 'Z') || ('a' <= c && c <= 'z') || digit(c)
}

/// Whether `c` is a decimal digit of ASCII.
pub fn digit(c: char) -> (yes: bool)
    ensures
        yes == is_digit(c),
{
    '0' <= c && c <= '9'
}

/// A character that Unicode counts as white space.
pub open spec fn is_space(c: char) -> bool {
    ||| '\u{9}' <= c && c <= '\u{d}'
    ||| c == ' '
    ||| c == '\u{85}'
    ||| c == '\u{a0}'
    ||| c == '\u{1680}'
    ||| '\u{2000}' <= c && c <= '\u{200a}'
    ||| c == '\u{2028}'
    ||| c == '\u{2029}'
    ||| c == '\u{202f}'
    ||| c == '\u{205f}'
    ||| c == '\u{3000}'
}

/// Whether Unicode counts `c` as white space.
pub fn space(c: char) -> (yes: bool)
    ensures
        yes == is_space(c),
{
    ('\u{9}' <= c && c <= '\u{d}') || c == ' ' || c == '\u{85}' || c == '\u{a0}' || c == '\u{1680}'
        || ('\u{2000}' <= c && c <= '\u{200a}') || c == '\u{2028}' || c == '\u{2029}'
        || c == '\u{202f}' || c == '\u{205f}' || c == '\u{3000}'
}

/// `s` without the white space in front.
pub open spec fn without_leading_space(s: Seq<char>) -> Seq<char>
    decreases s.len(),
{
    if s.len() > 0 && is_space(s.first()) {
        without_leading_space(s.drop_first())
    } else {
        s
    }
}

/// `s` without the white space behind.
pub open spec fn without_trailing_space(s: Seq<char>) -> Seq<char>
    decreases s.len(),
{
    if s.len() > 0 && is_space(s.last()) {
        without_trailing_space(s.drop_last())
    } else {
        s
    }
}

/// `s` without the white space at either end.
pub open spec fn trimmed(s: Seq<char>) -> Seq<char> {
    without_trailing_space(without_leading_space(s))
}

/// Removes the white space at either end.
pub fn trim(s: &[char]) -> (t: Vec<char>)
    ensures
        t@ == trimmed(s@),
{
    let mut start: usize = 0;
    assert(s@.skip(0) == s@);
    while start < s.len() && space(s[start])
        invariant
            start <= s@.len(),
            without_leading_space(s@.skip(start as int)) == without_leading_space(s@),
        decreases s@.len() - start,
    {
        assert(s@.skip(start as int).drop_first() == s@.skip(start + 1));
        start = start + 1;
    }
    let ghost rest = s@.skip(start as int);
    assert(rest == without_leading_space(s@));
    let mut end: usize = s.len();
    assert(s@.subrange(start as int, end as int) == rest);
    while start < end && space(s[end - 1])
        invariant
            start <= end <= s@.len(),
            without_trailing_space(s@.subrange(start as int, end as int))
                == without_trailing_space(rest),
        decreases end,
    {
        assert(s@.subrange(start as int, end as int).drop_last()
            == s@.subrange(start as int, end - 1));
        end = end - 1;
    }
    slice(s, start, end)
}

/// The characters from `start` up to, and without, `end`.
pub fn slice(s: &[char], start: usize, end: usize) -> (part: Vec<char>)
    requires
        start <= end <= s@.len(),
    ensures
        part@ == s@.subrange(start as int, end as int),
{
    let mut part: Vec<char> = Vec::new();
    for i in start..end
        invariant
            start <= end <= s@.len(),
            part@ == s@.subrange(start as int, i as int),
    {
        part.push(s[i]);
        assert(s@.subrange(start as int, i + 1) == s@.subrange(start as int, i as int).push(
            s@[i as int],
        ));
    }
    part
}

/// `s` without the occurrences of `c` at its end.
pub open spec fn without_trailing(s: Seq<char>, c: char) -> Seq<char>
    decreases s.len(),
{
    if s.len() > 0 && s.last() == c {
        without_trailing(s.drop_last(), c)
    } else {
        s
    }
}

/// What is left stood in front of what was removed.
pub proof fn lemma_without_trailing(s: Seq<char>, c: char)
    ensures
        without_trailing(s, c).is_prefix_of(s),
    decreases s.len(),
{
    if s.len() > 0 && s.last() == c {
        lemma_without_trailing(s.drop_last(), c);
    }
}

/// Removes the occurrences of `c` at the end of `s`.
pub fn trim_end(s: &[char], c: char) -> (t: Vec<char>)
    ensures
        t@ == without_trailing(s@, c),
{
    let mut end: usize = s.len();
    assert(s@.take(end as int) == s@);
    while 0 < end && s[end - 1] == c
        invariant
            end <= s@.len(),
            without_trailing(s@.take(end as int), c) == without_trailing(s@, c),
        decreases end,
    {
        assert(s@.take(end as int).drop_last() == s@.take(end - 1));
        end = end - 1;
    }
    assert(s@.take(end as int) == s@.subrange(0, end as int));
    slice(s, 0, end)
}

/// Whether `s` begins with `prefix`.
pub fn starts_with(s: &[char], prefix: &[char]) -> (yes: bool)
    ensures
        yes == prefix@.is_prefix_of(s@),
{
    if s.len() < prefix.len() {
        return false;
    }
    for i in 0..prefix.len()
        invariant
            prefix@.len() <= s@.len(),
            forall|j: int| 0 <= j < i ==> prefix@[j] == s@[j],
    {
        if s[i] != prefix[i] {
            assert(s@.subrange(0, prefix@.len() as int)[i as int] == s@[i as int]);
            return false;
        }
    }
    assert(prefix@ =~= s@.subrange(0, prefix@.len() as int));
    true
}

/// Whether `s` ends with `suffix`.
pub fn ends_with(s: &[char], suffix: &[char]) -> (yes: bool)
    ensures
        yes == suffix@.is_suffix_of(s@),
{
    if s.len() < suffix.len() {
        return false;
    }
    let skipped: usize = s.len() - suffix.len();
    for i in 0..suffix.len()
        invariant
            skipped + suffix.len() == s.len(),
            forall|j: int| 0 <= j < i ==> suffix@[j] == s@[skipped + j],
    {
        if s[skipped + i] != suffix[i] {
            assert(s@.subrange(skipped as int, s@.len() as int)[i as int] == s@[skipped + i]);
            return false;
        }
    }
    assert(suffix@ =~= s@.subrange(skipped as int, s@.len() as int));
    true
}

/// The pieces of `s` between the occurrences of `sep`. There is one more piece
/// than there are occurrences; pieces can be empty.
pub open spec fn split_on(s: Seq<char>, sep: char) -> Seq<Seq<char>>
    decreases s.len(),
{
    if s.len() == 0 {
        seq![Seq::<char>::empty()]
    } else {
        let before = split_on(s.drop_last(), sep);
        if s.last() == sep {
            before.push(Seq::<char>::empty())
        } else {
            before.drop_last().push(before.last().push(s.last()))
        }
    }
}

/// A split has at least one piece.
pub proof fn lemma_split_not_empty(s: Seq<char>, sep: char)
    ensures
        split_on(s, sep).len() > 0,
    decreases s.len(),
{
    if s.len() > 0 {
        lemma_split_not_empty(s.drop_last(), sep);
    }
}

/// The first piece of a split is what stands in front of the first separator.
pub proof fn lemma_first_piece(s: Seq<char>, sep: char)
    ensures
        split_on(s, sep).len() > 0,
        split_on(s, sep)[0].is_prefix_of(s),
        !split_on(s, sep)[0].contains(sep),
        split_on(s, sep)[0].len() < s.len() ==> s[split_on(s, sep)[0].len() as int] == sep,
        split_on(s, sep).len() == 1 <==> split_on(s, sep)[0].len() == s.len(),
    decreases s.len(),
{
    if s.len() > 0 {
        let front = s.drop_last();
        lemma_first_piece(front, sep);
        let before = split_on(front, sep);
        let piece = split_on(s, sep)[0];
        if s.last() != sep && before.len() == 1 {
            assert(before[0] =~= front);
            assert(piece =~= s);
            assert forall|i: int| 0 <= i < piece.len() implies piece[i] != sep by {
                if i < front.len() {
                    assert(front[i] != sep);
                }
            }
        } else {
            assert(piece == before[0]);
            assert(piece =~= s.subrange(0, piece.len() as int));
        }
    }
}

/// A text without separator is its own only piece.
pub proof fn lemma_split_absent(s: Seq<char>, sep: char)
    requires
        !s.contains(sep),
    ensures
        split_on(s, sep) == seq![s],
    decreases s.len(),
{
    if s.len() == 0 {
        assert(s == Seq::<char>::empty());
    } else {
        assert forall|i: int| 0 <= i < s.len() - 1 implies s.drop_last()[i] != sep by {
            assert(s[i] != sep);
        }
        lemma_split_absent(s.drop_last(), sep);
        assert(s.last() == s[s.len() - 1]);
        assert(s.drop_last().push(s.last()) =~= s);
        assert(split_on(s, sep) =~= seq![s]);
    }
}

/// Cuts `s` at each occurrence of `sep`.
pub fn split(s: &[char], sep: char) -> (pieces: Vec<Vec<char>>)
    ensures
        pieces@.map_values(|p: Vec<char>| p@) == split_on(s@, sep),
        pieces@.len() > 0,
{
    let mut done: Vec<Vec<char>> = Vec::new();
    let mut current: Vec<char> = Vec::new();
    let ghost view = |p: Vec<char>| p@;
    proof {
        assert(s@.take(0).len() == 0);
        assert(done@.map_values(view).push(current@) == seq![Seq::<char>::empty()]);
    }
    for i in 0..s.len()
        invariant
            view == (|p: Vec<char>| p@),
            done@.map_values(view).push(current@) == split_on(s@.take(i as int), sep),
    {
        let ghost before = split_on(s@.take(i as int), sep);
        assert(s@.take(i + 1).drop_last() == s@.take(i as int));
        assert(before.drop_last() == done@.map_values(view));
        if s[i] == sep {
            let ghost finished = done@.map_values(view).push(current@);
            done.push(current);
            current = Vec::new();
            assert(done@.map_values(view) == finished);
        } else {
            current.push(s[i]);
        }
    }
    assert(s@.take(s@.len() as int) == s@);
    let ghost finished = done@.map_values(view).push(current@);
    done.push(current);
    assert(done@.map_values(view) == finished);
    done
}

/// The decimal digits of `n`, without leading zeros.
pub open spec fn decimal(n: nat) -> Seq<char>
    decreases n,
{
    if n < 10 {
        seq![digit_char(n)]
    } else {
        decimal(n / 10).push(digit_char(n % 10))
    }
}

/// The digit for a number below ten.
pub open spec fn digit_char(n: nat) -> char {
    (48 + n) as char
}

/// Writes `n` in decimal.
pub fn decimal_text(n: u64) -> (t: String)
    ensures
        t@ == decimal(n as nat),
    decreases n,
{
    let last: char = (48u8 + (n % 10) as u8) as char;
    if n < 10 {
        let mut t: String = String::new();
        t.push(last);
        assert(t@ =~= seq![digit_char(n as nat)]);
        t
    } else {
        let mut t: String = decimal_text(n / 10);
        t.push(last);
        t
    }
}

/// `s` with zeros in front, up to `width` characters.
pub open spec fn zero_padded(s: Seq<char>, width: nat) -> Seq<char> {
    if s.len() < width {
        Seq::new((width - s.len()) as nat, |i: int| '0') + s
    } else {
        s
    }
}

/// Writes `n` in decimal, with zeros in front up to `width` digits.
pub fn padded_decimal(n: u64, width: usize) -> (t: String)
    ensures
        t@ == zero_padded(decimal(n as nat), width as nat),
{
    let plain: String = decimal_text(n);
    let digits: Vec<char> = to_chars(plain.as_str());
    let mut t: String = String::new();
    if digits.len() < width {
        let missing: usize = width - digits.len();
        for i in 0..missing
            invariant
                t@ == Seq::new(i as nat, |j: int| '0'),
        {
            t.push('0');
            assert(t@ =~= Seq::new((i + 1) as nat, |j: int| '0'));
        }
    }
    t.append(plain.as_str());
    t
}

/// A whole number in decimal, a minus sign in front of a negative one, with zeros
/// up to `width` characters in all.
pub open spec fn signed_padded(n: int, width: nat) -> Seq<char> {
    if n >= 0 {
        zero_padded(decimal(n as nat), width)
    } else {
        seq!['-'] + zero_padded(
            decimal((-n) as nat),
            if width > 0 {
                (width - 1) as nat
            } else {
                0
            },
        )
    }
}

/// Writes a whole number in decimal, with zeros up to `width` characters.
pub fn signed_text(n: i32, width: usize) -> (t: String)
    ensures
        t@ == signed_padded(n as int, width as nat),
{
    if n >= 0 {
        padded_decimal(n as u64, width)
    } else {
        let rest: usize = if width > 0 {
            width - 1
        } else {
            0
        };
        let digits: String = padded_decimal((-(n as i64)) as u64, rest);
        let mut t: String = String::new();
        t.push('-');
        t.append(digits.as_str());
        assert(t@ =~= signed_padded(n as int, width as nat));
        t
    }
}

/// The small letter for a capital letter of ASCII; any other character itself.
pub open spec fn lower_char(c: char) -> char {
    if is_upper(c) {
        (c as u32 + 32) as char
    } else {
        c
    }
}

/// `s` with the capital letters of ASCII made small.
pub open spec fn lowered(s: Seq<char>) -> Seq<char> {
    s.map_values(|c: char| lower_char(c))
}

/// Makes the capital letters of ASCII small.
pub fn lowercase(s: &[char]) -> (t: Vec<char>)
    ensures
        t@ == lowered(s@),
{
    let mut t: Vec<char> = Vec::new();
    for i in 0..s.len()
        invariant
            t@ == lowered(s@.take(i as int)),
    {
        let c: char = s[i];
        if 'A' <= c && c <= 'Z' {
            t.push((c as u8 + 32u8) as char);
        } else {
            t.push(c);
        }
        assert(t@ =~= lowered(s@.take(i + 1)));
    }
    assert(s@.take(s@.len() as int) == s@);
    t
}

/// Five texts, one behind the other, are their concatenation.
pub proof fn lemma_five(
    a: Seq<char>,
    b: Seq<char>,
    c: Seq<char>,
    d: Seq<char>,
    e: Seq<char>,
)
    ensures
        seq![a, b, c, d, e].flatten() == a + b + c + d + e,
{
    let five = seq![a, b, c, d, e];
    lemma_flatten_last(five);
    let four = five.drop_last();
    lemma_flatten_last(four);
    let three = four.drop_last();
    lemma_flatten_last(three);
    assert(three.drop_last() =~= seq![a, b]);
    lemma_two(a, b);
}

/// `whole` holds `part` somewhere.
pub open spec fn holds(whole: Seq<char>, part: Seq<char>) -> bool {
    exists|front: Seq<char>, rest: Seq<char>| whole == #[trigger] (front + part + rest)
}

/// What is put together holds what some neighbouring parts of it are put together to.
pub proof fn lemma_holds_parts(parts: Seq<Seq<char>>, from: int, to: int)
    requires
        0 <= from <= to <= parts.len(),
    ensures
        holds(parts.flatten(), parts.subrange(from, to).flatten()),
{
    let front = parts.take(from);
    let middle = parts.subrange(from, to);
    let rest = parts.skip(to);
    assert(parts =~= front + middle + rest);
    vstd::seq_lib::lemma_flatten_concat(front + middle, rest);
    vstd::seq_lib::lemma_flatten_concat(front, middle);
    assert(parts.flatten() == front.flatten() + middle.flatten() + rest.flatten());
}

/// The split of two texts with a separator between them is the split of the one and
/// then that of the other.
pub proof fn law_split_parts_at_the_separator(a: Seq<char>, sep: char, b: Seq<char>)
    ensures
        split_on(a.push(sep) + b, sep) == split_on(a, sep) + split_on(b, sep),
    decreases b.len(),
{
    let s = a.push(sep) + b;
    if b.len() == 0 {
        assert(s =~= a.push(sep));
        assert(a.push(sep).drop_last() =~= a);
        assert(split_on(s, sep) =~= split_on(a, sep) + split_on(b, sep));
    } else {
        law_split_parts_at_the_separator(a, sep, b.drop_last());
        assert(s.drop_last() =~= a.push(sep) + b.drop_last());
        assert(s.last() == b.last());
        lemma_split_not_empty(b.drop_last(), sep);
        assert(split_on(s, sep) =~= split_on(a, sep) + split_on(b, sep));
    }
}

/// White space at either end is removed, and nothing else: what is left neither
/// begins nor ends with white space, and white space around it makes no difference.
pub proof fn law_trimming_takes_white_space(s: Seq<char>)
    ensures
        trimmed(s).len() > 0 ==> !is_space(trimmed(s)[0]) && !is_space(trimmed(s).last()),
        exists|i: int, j: int|
            0 <= i <= j <= s.len() && trimmed(s) == #[trigger] s.subrange(i, j) && (forall|k: int|
                0 <= k < i || j <= k < s.len() ==> is_space(#[trigger] s[k])),
{
    lemma_leading_space(s);
    let t = without_leading_space(s);
    lemma_trailing_space(t);
    let i = (s.len() - t.len()) as int;
    let n = trimmed(s).len() as int;
    assert(trimmed(s) =~= s.subrange(i, i + n));
    assert forall|k: int| 0 <= k < i || i + n <= k < s.len() implies is_space(#[trigger] s[k]) by {
        if k >= i {
            assert(s[k] == t[k - i]);
        }
    }
    if n > 0 {
        assert(trimmed(s)[0] == t[0]);
    }
}

proof fn lemma_leading_space(s: Seq<char>)
    ensures
        ({
            let t = without_leading_space(s);
            let i = s.len() - t.len();
            &&& t.len() <= s.len()
            &&& t == s.skip(i)
            &&& forall|k: int| 0 <= k < i ==> is_space(#[trigger] s[k])
            &&& t.len() > 0 ==> !is_space(t[0])
        }),
    decreases s.len(),
{
    let t = without_leading_space(s);
    if s.len() > 0 && is_space(s.first()) {
        let rest = s.drop_first();
        lemma_leading_space(rest);
        let i = s.len() - t.len();
        assert(t =~= s.skip(i));
        assert forall|k: int| 0 <= k < i implies is_space(#[trigger] s[k]) by {
            if k > 0 {
                assert(s[k] == rest[k - 1]);
            }
        }
    } else {
        assert(s.skip(0) =~= s);
    }
}

proof fn lemma_trailing_space(s: Seq<char>)
    ensures
        ({
            let t = without_trailing_space(s);
            &&& t.len() <= s.len()
            &&& t == s.take(t.len() as int)
            &&& forall|k: int| t.len() <= k < s.len() ==> is_space(#[trigger] s[k])
            &&& t.len() > 0 ==> !is_space(t.last())
        }),
    decreases s.len(),
{
    let t = without_trailing_space(s);
    if s.len() > 0 && is_space(s.last()) {
        let rest = s.drop_last();
        lemma_trailing_space(rest);
        assert(t =~= s.take(t.len() as int));
        assert forall|k: int| t.len() <= k < s.len() implies is_space(#[trigger] s[k]) by {
            if k < s.len() - 1 {
                assert(s[k] == rest[k]);
            }
        }
    } else {
        assert(s.take(s.len() as int) =~= s);
    }
}

/// Only the capital letters of ASCII are made small, each to its own small letter.
pub proof fn law_only_capitals_are_made_small(s: Seq<char>, i: int)
    requires
        0 <= i < s.len(),
    ensures
        lowered(s).len() == s.len(),
        'A' <= s[i] <= 'Z' ==> lowered(s)[i] as u32 == s[i] as u32 + 32,
        !('A' <= s[i] <= 'Z') ==> lowered(s)[i] == s[i],
{
    lemma_lower_char(s[i]);
}

proof fn lemma_lower_char(c: char)
    ensures
        'A' <= c <= 'Z' ==> lower_char(c) as u32 == c as u32 + 32,
{
}

/// Three texts, one behind the other, are their concatenation.
pub proof fn lemma_three(a: Seq<char>, b: Seq<char>, c: Seq<char>)
    ensures
        seq![a, b, c].flatten() == a + b + c,
{
    lemma_flatten_last(seq![a, b, c]);
    assert(seq![a, b, c].drop_last() =~= seq![a, b]);
    lemma_two(a, b);
}

/// What is put together holds three neighbouring parts of it one behind the other.
pub proof fn lemma_holds_three(parts: Seq<Seq<char>>, at: int)
    requires
        0 <= at,
        at + 3 <= parts.len(),
    ensures
        holds(parts.flatten(), parts[at] + parts[at + 1] + parts[at + 2]),
{
    lemma_holds_parts(parts, at, at + 3);
    assert(parts.subrange(at, at + 3) =~= seq![parts[at], parts[at + 1], parts[at + 2]]);
    lemma_three(parts[at], parts[at + 1], parts[at + 2]);
}

/// Blanks, tabs and line ends are white space; letters, digits and visible signs of
/// ASCII are not.
pub proof fn law_white_space_is_known(c: char)
    ensures
        is_space(' ') && is_space('\t') && is_space('\n') && is_space('\r'),
        is_space('\u{b}') && is_space('\u{c}') && is_space('\u{85}') && is_space('\u{a0}'),
        is_space('\u{1680}') && is_space('\u{2028}') && is_space('\u{2029}') && is_space('\u{202f}'),
        is_space('\u{205f}') && is_space('\u{3000}'),
        '\u{2000}' <= c <= '\u{200a}' ==> is_space(c),
        '!' <= c <= '\u{84}' ==> !is_space(c),
        c > '\u{3000}' ==> !is_space(c),
{
}

/// A whole number with a sign can be read back: behind the minus sign of a negative
/// one stand its digits, and there are as many characters as it takes.
pub proof fn law_signed_number_has_its_sign(n: int, width: nat)
    requires
        width > 0,
    ensures
        n >= 0 ==> signed_padded(n, width) == zero_padded(decimal(n as nat), width),
        n < 0 ==> signed_padded(n, width).len() >= width && signed_padded(n, width)[0] == '-'
            && crate::size::digits_value(signed_padded(n, width).skip(1)) == -n,
{
    if n < 0 {
        let digits = zero_padded(decimal((-n) as nat), (width - 1) as nat);
        crate::size::law_padding_keeps_the_number((-n) as nat, (width - 1) as nat);
        assert(signed_padded(n, width).skip(1) =~= digits);
    }
}

} // verus!
