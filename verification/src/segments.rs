//! How a request path becomes directory names below the storage root.

use vstd::prelude::*;

use crate::outside;
use crate::text;

verus! {

/// The longest directory name that a path segment is stored under, in characters.
pub const MAX_SEGMENT_LEN: usize = 64;

/// The longest name that file systems take, in bytes.
pub const MAX_NAME_BYTES: usize = 255;

/// The number of path segments that get a directory each; what lies deeper
/// shares one.
pub const MAX_SEGMENTS: usize = 10;

/// A character that a directory name keeps. What lies beyond ASCII is kept but for
/// the control characters there.
pub open spec fn is_kept(c: char) -> bool {
    ||| text::is_alphanumeric(c)
    ||| c == '-' || c == '_' || c == '.' || c == '=' || c == ' '
    ||| c > '\u{9f}'
}

/// `s` with `_` for each character that a directory name does not keep, and for a
/// blank at the end. A name that stays percent-encoded keeps its `%` as well.
pub open spec fn cleaned(s: Seq<char>, percent: bool) -> Seq<char> {
    s.map(
        |i: int, c: char|
            if c == ' ' && i == s.len() - 1 {
                '_'
            } else if is_kept(c) || (percent && c == '%') {
                c
            } else {
                '_'
            },
    )
}

/// Nothing but dots, or nothing at all.
pub open spec fn only_dots(s: Seq<char>) -> bool {
    forall|i: int| 0 <= i < s.len() ==> #[trigger] s[i] == '.'
}

/// As a path, `s` is absolute or steps into a parent directory.
pub open spec fn leaves_directory(s: Seq<char>) -> bool {
    ||| s.len() > 0 && s[0] == '/'
    ||| text::split_on(s, '/').contains(".."@)
}

/// What stands in front of the first dot.
pub open spec fn stem(name: Seq<char>) -> Seq<char> {
    text::split_on(name, '.')[0]
}

/// A digit that numbers a device: one of ASCII, or a superscript one, two or three.
pub open spec fn is_device_digit(c: char) -> bool {
    text::is_digit(c) || c == '\u{b9}' || c == '\u{b2}' || c == '\u{b3}'
}

/// The name of a device on Windows, whatever follows its first dot and however many
/// blanks stand in front of that dot.
pub open spec fn is_device_name(name: Seq<char>) -> bool {
    let lower = text::lowered(text::without_trailing(stem(name), ' '));
    ||| lower == "con"@
    ||| lower == "prn"@
    ||| lower == "aux"@
    ||| lower == "nul"@
    ||| {
        &&& lower.len() == 4
        &&& (lower.take(3) == "com"@ || lower.take(3) == "lpt"@)
        &&& is_device_digit(lower[3])
    }
}

/// A directory name made of kept characters: `_` in front of a device name, and
/// of a leading dot unless `dot` allows it; cut to the longest name allowed; `_` in
/// place of the dot or blank that it then ends in, if any; cut to one that file
/// systems take.
pub open spec fn guarded(s: Seq<char>, dot: bool) -> Seq<char> {
    if only_dots(s) {
        "_"@
    } else {
        let front = if (!dot && s[0] == '.') || is_device_name(s) {
            "_"@ + s
        } else {
            s
        };
        fitted(closed(shortened(front)))
    }
}

/// `name` with `_` in place of the dot or blank that it ends in, if any.
pub open spec fn closed(name: Seq<char>) -> Seq<char> {
    if name.last() == '.' || name.last() == ' ' {
        name.drop_last().push('_')
    } else {
        name
    }
}

/// `name` without its last character where file systems would not take it whole.
pub open spec fn fitted(name: Seq<char>) -> Seq<char> {
    if vstd::utf8::encode_utf8(name).len() > MAX_NAME_BYTES {
        name.drop_last()
    } else {
        name
    }
}

/// The first characters of `s`, up to the longest name allowed.
pub open spec fn shortened(s: Seq<char>) -> Seq<char> {
    if s.len() > MAX_SEGMENT_LEN {
        s.take(MAX_SEGMENT_LEN as int)
    } else {
        s
    }
}

/// The directory name for a decoded segment.
pub open spec fn sanitized(segment: Seq<char>) -> Seq<char> {
    if leaves_directory(segment) {
        "_"@
    } else {
        guarded(cleaned(segment, false), false)
    }
}

/// The directory name for a segment that came as `raw` and decodes to `decoded`.
/// A segment that begins with a step into the parent directory once decoded stays
/// percent-encoded; it may then begin with a dot if a `%` is left to show it as
/// encoded.
pub open spec fn stored_name(raw: Seq<char>, decoded: Seq<char>) -> Seq<char> {
    if "../"@.is_prefix_of(decoded) {
        guarded(cleaned(raw, true), shortened(raw).contains('%'))
    } else {
        sanitized(decoded)
    }
}

/// A segment in decoded form; one that holds no `%`, or that does not decode,
/// stands for itself.
pub open spec fn decoded_segment(raw: Seq<char>) -> Seq<char> {
    if raw.contains('%') {
        match outside::url_decoded(raw) {
            Some(decoded) => decoded,
            None => raw,
        }
    } else {
        raw
    }
}

/// The segments of a path that are not empty.
pub open spec fn raw_segments(path: Seq<char>) -> Seq<Seq<char>> {
    text::split_on(path, '/').filter(|raw: Seq<char>| raw.len() > 0)
}

/// The directory names for a request path: one for each of the first segments,
/// `_overflow` for what lies deeper, `_root` where there is no segment.
pub open spec fn path_directories(path: Seq<char>) -> Seq<Seq<char>> {
    let raws = raw_segments(path);
    let names = raws.map_values(|raw: Seq<char>| stored_name(raw, decoded_segment(raw)));
    if raws.len() == 0 {
        seq!["_root"@]
    } else if raws.len() > MAX_SEGMENTS {
        names.take(MAX_SEGMENTS as int).push("_overflow"@)
    } else {
        names
    }
}

/// Replaces the characters that a directory name does not keep.
fn clean(s: &[char], percent: bool) -> (t: Vec<char>)
    ensures
        t@ == cleaned(s@, percent),
{
    let mut t: Vec<char> = Vec::new();
    for i in 0..s.len()
        invariant
            t@ == cleaned(s@, percent).take(i as int),
    {
        let c: char = s[i];
        let kept: bool = text::alphanumeric(c) || c == '-' || c == '_' || c == '.' || c == '='
            || c == ' ' || c > '\u{9f}';
        if c == ' ' && i == s.len() - 1 {
            t.push('_');
        } else if kept || (percent && c == '%') {
            t.push(c);
        } else {
            t.push('_');
        }
        assert(t@ =~= cleaned(s@, percent).take(i + 1));
    }
    assert(cleaned(s@, percent).take(s@.len() as int) == cleaned(s@, percent));
    t
}

/// Whether `s` is nothing but dots.
fn dots(s: &[char]) -> (yes: bool)
    ensures
        yes == only_dots(s@),
{
    for i in 0..s.len()
        invariant
            forall|j: int| 0 <= j < i ==> s@[j] == '.',
    {
        if s[i] != '.' {
            assert(!only_dots(s@));
            return false;
        }
    }
    true
}

/// Whether `s`, as a path, leaves its directory.
fn leaves(s: &[char]) -> (yes: bool)
    ensures
        yes == leaves_directory(s@),
{
    if s.len() > 0 && s[0] == '/' {
        return true;
    }
    let pieces: Vec<Vec<char>> = text::split(s, '/');
    let ghost views = text::split_on(s@, '/');
    for i in 0..pieces.len()
        invariant
            pieces@.map_values(|p: Vec<char>| p@) == views,
            views == text::split_on(s@, '/'),
            forall|j: int| 0 <= j < i ==> views[j] != ".."@,
    {
        assert(views[i as int] == pieces@[i as int]@);
        if text::spells(pieces[i].as_slice(), "..") {
            return true;
        }
    }
    assert(views.len() == pieces@.len());
    false
}

/// Whether Windows takes `name` for a device, such as `nul` or `COM1.txt`.
pub fn is_reserved_windows_name(name: &str) -> (yes: bool)
    ensures
        yes == is_device_name(name@),
{
    let chars: Vec<char> = text::to_chars(name);
    reserved(chars.as_slice())
}

/// Whether Windows takes `name` for a device.
fn reserved(name: &[char]) -> (yes: bool)
    ensures
        yes == is_device_name(name@),
{
    let pieces: Vec<Vec<char>> = text::split(name, '.');
    assert(pieces@.map_values(|p: Vec<char>| p@)[0] == pieces@[0]@);
    let word: Vec<char> = text::trim_end(pieces[0].as_slice(), ' ');
    let lower: Vec<char> = text::lowercase(word.as_slice());
    if text::spells(lower.as_slice(), "con") || text::spells(lower.as_slice(), "prn")
        || text::spells(lower.as_slice(), "aux") || text::spells(lower.as_slice(), "nul") {
        return true;
    }
    if lower.len() != 4 {
        return false;
    }
    let front: Vec<char> = text::slice(lower.as_slice(), 0, 3);
    assert(front@ == lower@.take(3));
    let last: char = lower[3];
    (text::spells(front.as_slice(), "com") || text::spells(front.as_slice(), "lpt")) && (
    text::digit(last) || last == '\u{b9}' || last == '\u{b2}' || last == '\u{b3}')
}

/// Makes a directory name of kept characters.
fn guard(s: &[char], dot: bool) -> (name: String)
    ensures
        name@ == guarded(s@, dot),
{
    proof {
        reveal_strlit("_");
    }
    let mut name: Vec<char> = Vec::new();
    if dots(s) {
        name.push('_');
        assert(name@ =~= "_"@);
        return text::from_chars(name.as_slice());
    }
    if (!dot && s[0] == '.') || reserved(s) {
        name.push('_');
    }
    let ghost front = name@ + s@;
    assert(front =~= if (!dot && s@[0] == '.') || is_device_name(s@) {
        "_"@ + s@
    } else {
        s@
    });
    for i in 0..s.len()
        invariant
            front.take(front.len() - s@.len()) + s@ == front,
            name@ == front.take(front.len() - s@.len()) + s@.take(i as int),
    {
        name.push(s[i]);
        assert(s@.take(i + 1) == s@.take(i as int).push(s@[i as int]));
    }
    assert(name@ =~= front);
    if name.len() > MAX_SEGMENT_LEN {
        name.truncate(MAX_SEGMENT_LEN);
    }
    assert(name@ =~= shortened(front));
    let last: usize = name.len() - 1;
    if name[last] == '.' || name[last] == ' ' {
        name.truncate(last);
        name.push('_');
    }
    assert(name@ =~= closed(shortened(front)));
    let whole: String = text::from_chars(name.as_slice());
    if whole.as_str().as_bytes().len() > MAX_NAME_BYTES {
        let cut: usize = name.len() - 1;
        name.truncate(cut);
        assert(name@ =~= whole@.drop_last());
        text::from_chars(name.as_slice())
    } else {
        whole
    }
}

/// The directory name for a decoded segment.
pub fn sanitize_path_segment(segment: &str) -> (name: String)
    ensures
        name@ == sanitized(segment@),
{
    let chars: Vec<char> = text::to_chars(segment);
    if leaves(chars.as_slice()) {
        return "_".to_string();
    }
    let kept: Vec<char> = clean(chars.as_slice(), false);
    guard(kept.as_slice(), false)
}

/// The characters of a step into the parent directory.
proof fn lemma_steps_up(s: Seq<char>)
    ensures
        "../"@.is_prefix_of(s) <==> s.len() >= 3 && s[0] == '.' && s[1] == '.' && s[2] == '/',
{
    reveal_strlit("../");
    if "../"@.is_prefix_of(s) {
        assert(s.subrange(0, 3) == "../"@);
        assert(s.subrange(0, 3)[0] == '.' && s.subrange(0, 3)[1] == '.' && s.subrange(0, 3)[2]
            == '/');
    }
    if s.len() >= 3 && s[0] == '.' && s[1] == '.' && s[2] == '/' {
        assert("../"@ =~= s.subrange(0, 3));
    }
}

/// The directory name for a segment that came as `raw` and decodes to `decoded`.
pub fn segment_name(raw: &str, decoded: &str) -> (name: String)
    ensures
        name@ == stored_name(raw@, decoded@),
{
    let chars: Vec<char> = text::to_chars(decoded);
    let steps: bool = chars.len() >= 3 && chars[0] == '.' && chars[1] == '.' && chars[2] == '/';
    proof {
        lemma_steps_up(decoded@);
    }
    if steps {
        let encoded: Vec<char> = text::to_chars(raw);
        let kept: Vec<char> = clean(encoded.as_slice(), true);
        let mut shows: bool = false;
        let ghost front = shortened(raw@);
        for i in 0..encoded.len()
            invariant
                encoded@ == raw@,
                front == shortened(raw@),
                shows == exists|j: int| 0 <= j < i && j < front.len() && front[j] == '%',
        {
            if i < MAX_SEGMENT_LEN && encoded[i] == '%' {
                assert(front[i as int] == '%');
                shows = true;
            }
        }
        assert(shows == front.contains('%'));
        guard(kept.as_slice(), shows)
    } else {
        sanitize_path_segment(decoded)
    }
}

/// The directory names that a request path is stored under, outermost first.
pub fn request_path_segments(path: &str) -> (names: Vec<String>)
    ensures
        text::contents(names@) == path_directories(path@),
{
    let chars: Vec<char> = text::to_chars(path);
    let pieces: Vec<Vec<char>> = text::split(chars.as_slice(), '/');
    let ghost views = text::split_on(path@, '/');
    let ghost present = |raw: Seq<char>| raw.len() > 0;
    let ghost name_of = |raw: Seq<char>| stored_name(raw, decoded_segment(raw));
    let mut names: Vec<String> = Vec::new();
    for i in 0..pieces.len()
        invariant
            views == text::split_on(path@, '/'),
            pieces@.map_values(|p: Vec<char>| p@) == views,
            present == (|raw: Seq<char>| raw.len() > 0),
            name_of == (|raw: Seq<char>| stored_name(raw, decoded_segment(raw))),
            names@.len() == views.take(i as int).filter(present).len(),
            names@.len() <= MAX_SEGMENTS,
            text::contents(names@) == views.take(i as int).filter(present).map_values(name_of),
    {
        let ghost seen = views.take(i as int).filter(present);
        proof {
            assert(views[i as int] == pieces@[i as int]@);
            assert(views.take(i + 1).drop_last() == views.take(i as int));
            reveal(Seq::filter);
        }
        if pieces[i].len() > 0 {
            assert(views.take(i + 1).filter(present) == seen.push(views[i as int]));
            if names.len() >= MAX_SEGMENTS {
                let ghost first = names@;
                let overflow: String = "_overflow".to_string();
                names.push(overflow);
                proof {
                    let raws = raw_segments(path@);
                    lemma_filter_prefix(views, present, i + 1);
                    assert(raws == views.filter(present));
                    assert(raws.take(MAX_SEGMENTS as int) =~= seen);
                    assert(raws.map_values(name_of).take(MAX_SEGMENTS as int)
                        =~= seen.map_values(name_of));
                    text::lemma_contents_push(first, overflow);
                }
                return names;
            }
            let raw: String = text::from_chars(pieces[i].as_slice());
            let decoded: String = match outside::url_decode(raw.as_str()) {
                Some(decoded) => decoded,
                None => text::from_chars(pieces[i].as_slice()),
            };
            let name: String = segment_name(raw.as_str(), decoded.as_str());
            proof {
                text::lemma_contents_push(names@, name);
                assert(name@ == name_of(views[i as int]));
                assert(seen.push(views[i as int]).map_values(name_of) =~= seen.map_values(
                    name_of,
                ).push(name@));
            }
            names.push(name);
        }
    }
    assert(views.take(views.len() as int) == views);
    if names.len() == 0 {
        names.push("_root".to_string());
        assert(text::contents(names@) =~= seq!["_root"@]);
    }
    names
}

/// What a filter keeps of the front of a sequence stands in front of what it
/// keeps of the whole.
proof fn lemma_filter_prefix<A>(s: Seq<A>, keep: spec_fn(A) -> bool, n: int)
    requires
        0 <= n <= s.len(),
    ensures
        s.take(n).filter(keep).is_prefix_of(s.filter(keep)),
    decreases s.len() - n,
{
    reveal(Seq::filter);
    if n == s.len() {
        assert(s.take(n) == s);
    } else {
        lemma_filter_prefix(s, keep, n + 1);
        assert(s.take(n + 1).drop_last() == s.take(n));
    }
}

/// A name that is safe to create as a directory: short, of harmless characters,
/// neither a step in a path nor a device of Windows, not hidden unless it is still
/// percent-encoded, and not ending in a dot or a blank.
pub open spec fn is_safe_directory(name: Seq<char>) -> bool {
    &&& 0 < name.len() <= MAX_SEGMENT_LEN
    &&& vstd::utf8::encode_utf8(name).len() <= MAX_NAME_BYTES
    &&& forall|i: int| 0 <= i < name.len() ==> is_kept(#[trigger] name[i]) || name[i] == '%'
    &&& !only_dots(name)
    &&& !is_device_name(name)
    &&& name[0] == '.' ==> name.contains('%')
    &&& name.last() != '.'
    &&& name.last() != ' '
}

/// No directory name holds a separator, a backslash, a colon or a control
/// character, and none is `.` or `..`.
pub proof fn law_safe_directory_is_one_step(name: Seq<char>)
    requires
        is_safe_directory(name),
    ensures
        !name.contains('/'),
        !name.contains('\\'),
        !name.contains(':'),
        forall|i: int|
            0 <= i < name.len() ==> ' ' <= #[trigger] name[i] && !('\u{7f}' <= name[i]
                <= '\u{9f}'),
        name != "."@,
        name != ".."@,
        !leaves_directory(name),
{
    reveal_strlit(".");
    reveal_strlit("..");
    text::lemma_split_absent(name, '/');
}

/// A name that begins with `_` is no device.
proof fn lemma_underscore_is_no_device(name: Seq<char>)
    requires
        name.len() > 0,
        name[0] == '_',
    ensures
        !is_device_name(name),
{
    text::lemma_first_piece(name, '.');
    reveal_device_words();
    let s = text::without_trailing(stem(name), ' ');
    text::lemma_without_trailing(stem(name), ' ');
    let lower = text::lowered(s);
    assert(lower.len() == s.len());
    if s.len() > 0 {
        assert(s[0] == stem(name)[0]);
        assert(s[0] == '_');
        assert(lower[0] == '_');
        if lower.len() == 4 {
            assert(lower.take(3)[0] == '_');
        }
    }
}

/// The letters of the device names.
proof fn reveal_device_words()
    ensures
        "con"@ == seq!['c', 'o', 'n'],
        "prn"@ == seq!['p', 'r', 'n'],
        "aux"@ == seq!['a', 'u', 'x'],
        "nul"@ == seq!['n', 'u', 'l'],
        "com"@ == seq!['c', 'o', 'm'],
        "lpt"@ == seq!['l', 'p', 't'],
{
    reveal_strlit("con");
    reveal_strlit("prn");
    reveal_strlit("aux");
    reveal_strlit("nul");
    reveal_strlit("com");
    reveal_strlit("lpt");
    assert("con"@ =~= seq!['c', 'o', 'n']);
    assert("prn"@ =~= seq!['p', 'r', 'n']);
    assert("aux"@ =~= seq!['a', 'u', 'x']);
    assert("nul"@ =~= seq!['n', 'u', 'l']);
    assert("com"@ =~= seq!['c', 'o', 'm']);
    assert("lpt"@ =~= seq!['l', 'p', 't']);
}

/// Cutting, and writing `_` for a dot or blank at the end, makes no device of what
/// was none.
proof fn lemma_closed_is_no_device(name: Seq<char>)
    requires
        name.len() > 0,
        !is_device_name(name),
    ensures
        !is_device_name(closed(shortened(name))),
{
    let done = closed(shortened(name));
    text::lemma_first_piece(done, '.');
    reveal_device_words();
    let b = stem(done);
    assert(done.last() != '.' && done.last() != ' ');
    if b.len() < done.len() {
        assert(done[b.len() as int] == '.');
        assert(b.len() < done.len() - 1);
        assert(name[b.len() as int] == '.');
        assert(name.take(b.len() as int) =~= done.take(b.len() as int));
        lemma_same_stem(name, done, b.len() as int);
    } else {
        assert(b == done);
        assert(text::without_trailing(b, ' ') == b);
        let lower = text::lowered(b);
        assert(lower.len() == done.len());
        assert(done == name || done.len() == MAX_SEGMENT_LEN || lower[lower.len() - 1] == '_');
    }
}

/// Two names that agree up to the first dot of one of them have one stem.
proof fn lemma_same_stem(a: Seq<char>, b: Seq<char>, n: int)
    requires
        stem(b).len() == n,
        n < a.len(),
        n < b.len(),
        a.take(n) == b.take(n),
        a[n] == '.',
    ensures
        stem(a) == stem(b),
{
    text::lemma_first_piece(a, '.');
    text::lemma_first_piece(b, '.');
    let x = stem(a);
    let y = stem(b);
    if x.len() < n {
        assert(a[x.len() as int] == '.');
        assert(a.take(n)[x.len() as int] == '.');
        assert(b.take(n)[x.len() as int] == '.');
        assert(y[x.len() as int] == '.');
        assert(false);
    }
    if x.len() > n {
        assert(x[n] == '.');
        assert(false);
    }
    assert(x =~= a.take(n));
    assert(y =~= b.take(n));
}

proof fn lemma_ascii_is_one_byte(c: char)
    requires
        c <= '\u{7f}',
    ensures
        vstd::utf8::encode_scalar(c as u32).len() == 1,
{
}

/// A character takes one byte in ASCII and at most four elsewhere.
proof fn lemma_byte_length(s: Seq<char>)
    ensures
        vstd::utf8::encode_utf8(s).len() <= 4 * s.len(),
        forall|i: int|
            0 <= i < s.len() && #[trigger] s[i] <= '\u{7f}' ==> vstd::utf8::encode_utf8(s).len()
                <= 4 * s.len() - 3,
    decreases s.len(),
{
    if s.len() > 0 {
        let rest = s.drop_first();
        lemma_byte_length(rest);
        assert forall|i: int| 0 <= i < s.len() && #[trigger] s[i] <= '\u{7f}' implies
            vstd::utf8::encode_utf8(s).len() <= 4 * s.len() - 3 by {
            if i > 0 {
                assert(rest[i - 1] == s[i]);
            } else {
                lemma_ascii_is_one_byte(s[0]);
            }
        }
    }
}

/// A name that is safe but for its bytes is safe once it is made to fit.
proof fn lemma_fitted_is_safe(name: Seq<char>)
    requires
        0 < name.len() <= MAX_SEGMENT_LEN,
        forall|i: int| 0 <= i < name.len() ==> is_kept(#[trigger] name[i]) || name[i] == '%',
        !only_dots(name),
        !is_device_name(name),
        name[0] == '.' ==> name.contains('%'),
        name.last() != '.',
        name.last() != ' ',
    ensures
        is_safe_directory(fitted(name)),
        fitted(name)[0] == name[0],
{
    lemma_byte_length(name);
    if vstd::utf8::encode_utf8(name).len() > MAX_NAME_BYTES {
        let cut = name.drop_last();
        lemma_byte_length(cut);
        assert(name.len() == MAX_SEGMENT_LEN);
        assert forall|i: int| 0 <= i < cut.len() implies #[trigger] cut[i] > '\u{7f}' by {
            assert(cut[i] == name[i]);
        }
        assert(cut[0] > '\u{7f}');
        assert(cut[cut.len() - 1] > '\u{7f}');
        assert(!cut.contains('.'));
        text::lemma_split_absent(cut, '.');
        assert(text::without_trailing(cut, ' ') == cut);
        assert(text::lowered(stem(cut)).len() == cut.len());
        reveal_device_words();
    }
}

/// What `guarded` makes of kept characters is a safe name.
proof fn lemma_guarded_is_safe(s: Seq<char>, dot: bool)
    requires
        forall|i: int| 0 <= i < s.len() ==> is_kept(#[trigger] s[i]) || s[i] == '%',
        dot ==> shortened(s).contains('%'),
    ensures
        is_safe_directory(guarded(s, dot)),
        guarded(s, dot)[0] == '.' ==> dot,
{
    reveal_strlit("_");
    assert("_"@ =~= seq!['_']);
    if only_dots(s) {
        lemma_underscore_is_no_device("_"@);
        lemma_byte_length("_"@);
        assert(!only_dots("_"@)) by {
            assert("_"@[0] != '.');
        }
    } else {
        let front = if (!dot && s[0] == '.') || is_device_name(s) {
            "_"@ + s
        } else {
            s
        };
        if front != s {
            lemma_underscore_is_no_device(front);
        }
        lemma_closed_is_no_device(front);
        let name = closed(shortened(front));
        if name[0] == '.' {
            assert(front == s);
            let i = choose|i: int| 0 <= i < shortened(s).len() && shortened(s)[i] == '%';
            assert(name[i] == '%');
        } else {
            assert(!only_dots(name));
        }
        lemma_fitted_is_safe(name);
    }
}

/// Every request path is stored under at least one directory and at most one
/// more than `MAX_SEGMENTS`, each with a safe name.
pub proof fn law_directories_are_safe(path: Seq<char>)
    ensures
        0 < path_directories(path).len() <= MAX_SEGMENTS + 1,
        forall|i: int|
            0 <= i < path_directories(path).len() ==> is_safe_directory(
                #[trigger] path_directories(path)[i],
            ),
{
    reveal_strlit("_root");
    reveal_strlit("_overflow");
    lemma_underscore_is_no_device("_root"@);
    lemma_underscore_is_no_device("_overflow"@);
    lemma_byte_length("_root"@);
    lemma_byte_length("_overflow"@);
    assert("_root"@[0] == '_' && "_overflow"@[0] == '_');
    let raws = raw_segments(path);
    assert forall|i: int| 0 <= i < path_directories(path).len() implies is_safe_directory(
        #[trigger] path_directories(path)[i],
    ) by {
        if raws.len() > 0 && i < MAX_SEGMENTS {
            let raw = raws[i];
            assert(path_directories(path)[i] == stored_name(raw, decoded_segment(raw)));
            lemma_stored_is_safe(raw, decoded_segment(raw));
        }
    }
}

/// No directory of a request is hidden but that of a segment which begins with a
/// step into the parent directory once decoded; such a directory shows a `%`.
pub proof fn law_hidden_directories_are_encoded(path: Seq<char>, i: int)
    requires
        0 <= i < path_directories(path).len(),
        path_directories(path)[i][0] == '.',
    ensures
        i < raw_segments(path).len(),
        "../"@.is_prefix_of(decoded_segment(raw_segments(path)[i])),
        path_directories(path)[i].contains('%'),
{
    law_directories_are_safe(path);
    reveal_strlit("_root");
    reveal_strlit("_overflow");
    let raws = raw_segments(path);
    assert(raws.len() > 0 && i < MAX_SEGMENTS);
    let raw = raws[i];
    assert(path_directories(path)[i] == stored_name(raw, decoded_segment(raw)));
    lemma_stored_is_safe(raw, decoded_segment(raw));
}

/// The name for a segment is safe, whatever the segment decodes to.
proof fn lemma_stored_is_safe(raw: Seq<char>, decoded: Seq<char>)
    ensures
        is_safe_directory(stored_name(raw, decoded)),
        stored_name(raw, decoded)[0] == '.' ==> "../"@.is_prefix_of(decoded),
{
    reveal_strlit("_");
    lemma_underscore_is_no_device("_"@);
    lemma_byte_length("_"@);
    assert("_"@[0] != '.');
    if "../"@.is_prefix_of(decoded) {
        let s = cleaned(raw, true);
        let dot = shortened(raw).contains('%');
        if dot {
            let i = choose|i: int| 0 <= i < shortened(raw).len() && shortened(raw)[i] == '%';
            assert(shortened(s)[i] == '%');
        }
        lemma_guarded_is_safe(s, dot);
    } else if !leaves_directory(decoded) {
        lemma_guarded_is_safe(cleaned(decoded, false), false);
    }
}

/// A segment of letters, digits, `-`, `_` and `=` that is no device name and not
/// too long is stored under its own name.
pub proof fn law_plain_segment_keeps_its_name(raw: Seq<char>)
    requires
        0 < raw.len() <= MAX_SEGMENT_LEN,
        forall|i: int|
            0 <= i < raw.len() ==> text::is_alphanumeric(#[trigger] raw[i]) || raw[i] == '-'
                || raw[i] == '_' || raw[i] == '=',
        !is_device_name(raw),
    ensures
        stored_name(raw, decoded_segment(raw)) == raw,
{
    reveal_strlit("..");
    lemma_steps_up(raw);
    assert(!raw.contains('%'));
    text::lemma_split_absent(raw, '/');
    assert(raw[0] != '.');
    assert(".."@[0] == '.');
    assert(!leaves_directory(raw)) by {
        if text::split_on(raw, '/').contains(".."@) {
            assert(seq![raw][0] == raw);
            assert(raw == ".."@);
        }
    }
    assert(cleaned(raw, false) =~= raw);
    lemma_byte_length(raw);
}

/// A character that no directory name has to do without: letters and digits of ASCII,
/// `-`, `_`, `.`, `=`, the blank, and what lies beyond ASCII and its control
/// characters.
pub open spec fn is_harmless(c: char) -> bool {
    ||| ('a' <= c <= 'z') || ('A' <= c <= 'Z') || ('0' <= c <= '9')
    ||| c == '-' || c == '_' || c == '.' || c == '=' || c == ' '
    ||| c as u32 >= 0xa0
}

proof fn lemma_harmless_is_kept(c: char)
    ensures
        is_harmless(c) == is_kept(c),
{
}

proof fn lemma_one_step_stays(segment: Seq<char>)
    requires
        segment.len() > 0,
        !segment.contains('/'),
        segment != ".."@,
    ensures
        !leaves_directory(segment),
{
    text::lemma_split_absent(segment, '/');
    assert(segment[0] != '/');
    if text::split_on(segment, '/').contains(".."@) {
        assert(seq![segment][0] == segment);
        assert(segment == ".."@);
    }
}

/// A decoded segment of harmless characters is stored under its own name, unless that
/// begins with a dot, ends in a dot or a blank, is that of a device or too long.
pub proof fn law_harmless_segment_keeps_its_name(segment: Seq<char>)
    requires
        0 < segment.len() <= 64,
        vstd::utf8::encode_utf8(segment).len() <= 255,
        forall|i: int| 0 <= i < segment.len() ==> is_harmless(#[trigger] segment[i]),
        segment[0] != '.',
        segment.last() != '.',
        segment.last() != ' ',
        !is_device_name(segment),
    ensures
        sanitized(segment) == segment,
{
    reveal_strlit("..");
    assert forall|i: int| 0 <= i < segment.len() implies is_kept(#[trigger] segment[i]) by {
        lemma_harmless_is_kept(segment[i]);
        assert(is_harmless(segment[i]));
    }
    assert(!segment.contains('/'));
    assert(".."@[0] == '.');
    lemma_one_step_stays(segment);
    assert(cleaned(segment, false) =~= segment);
}

/// A decoded segment of harmless characters that begins with a dot, or has the name
/// of a device, is stored with an underscore in front.
pub proof fn law_hidden_and_device_names_get_an_underscore(segment: Seq<char>)
    requires
        0 < segment.len() <= 63,
        vstd::utf8::encode_utf8("_"@ + segment).len() <= 255,
        forall|i: int| 0 <= i < segment.len() ==> is_harmless(#[trigger] segment[i]),
        segment.last() != '.',
        segment.last() != ' ',
        segment[0] == '.' || is_device_name(segment),
    ensures
        sanitized(segment) == "_"@ + segment,
{
    reveal_strlit("..");
    reveal_strlit("_");
    assert forall|i: int| 0 <= i < segment.len() implies is_kept(#[trigger] segment[i]) by {
        lemma_harmless_is_kept(segment[i]);
        assert(is_harmless(segment[i]));
    }
    assert(!segment.contains('/'));
    assert(".."@.last() == '.');
    lemma_one_step_stays(segment);
    assert(cleaned(segment, false) =~= segment);
    assert(!only_dots(segment)) by {
        assert(segment[segment.len() - 1] != '.');
    }
    let front = "_"@ + segment;
    assert(front.last() == segment.last());
}

/// Character for character a name is the decoded segment, with an underscore for
/// whatever is not harmless and for a dot or blank at the end. It is stated for
/// segments of ASCII that begin with a letter or digit and make no device name.
pub proof fn law_harmful_characters_become_underscores(segment: Seq<char>, i: int)
    requires
        0 < segment.len() <= 64,
        0 <= i < segment.len(),
        !segment.contains('/'),
        text::is_alphanumeric(segment[0]),
        forall|k: int| 0 <= k < segment.len() ==> #[trigger] segment[k] <= '\u{7f}',
        !is_device_name(cleaned(segment, false)),
    ensures
        sanitized(segment).len() == segment.len(),
        ({
            let c = segment[i];
            let ends = i == segment.len() - 1 && (c == '.' || c == ' ');
            sanitized(segment)[i] == if is_harmless(c) && !ends {
                c
            } else {
                '_'
            }
        }),
{
    reveal_strlit("..");
    lemma_harmless_is_kept(segment[i]);
    assert(".."@[0] == '.');
    lemma_one_step_stays(segment);
    let s = cleaned(segment, false);
    assert(s[0] == segment[0]);
    assert(!only_dots(s)) by {
        assert(s[0] != '.');
    }
    let name = closed(shortened(s));
    assert forall|k: int| 0 <= k < name.len() implies #[trigger] name[k] <= '\u{7f}' by {
        assert(segment[k] <= '\u{7f}');
        assert(s[k] == '_' || s[k] == segment[k]);
        assert(name[k] == '_' || name[k] == s[k]);
    }
    assert(vstd::utf8::is_ascii_chars(name));
    vstd::utf8::is_ascii_chars_encode_utf8(name);
}

/// A decoded segment that is absolute as a path or steps into a parent directory is
/// stored as an underscore.
pub proof fn law_escaping_segment_becomes_an_underscore(a: Seq<char>, b: Seq<char>)
    ensures
        sanitized(".."@) == "_"@,
        sanitized(seq!['/'] + a) == "_"@,
        sanitized(a.push('/') + ".."@) == "_"@,
        sanitized((a.push('/') + ".."@).push('/') + b) == "_"@,
        sanitized(".."@.push('/') + b) == "_"@,
{
    reveal_strlit("..");
    let up = ".."@;
    assert(!up.contains('/')) by {
        assert(up[0] == '.' && up[1] == '.');
    }
    text::lemma_split_absent(up, '/');
    assert(seq![up][0] == up);
    assert(text::split_on(up, '/').contains(up));
    text::law_split_parts_at_the_separator(a, '/', up);
    let one = text::split_on(a, '/') + text::split_on(up, '/');
    assert(one[text::split_on(a, '/').len() as int] == up);
    assert(one.contains(up));
    text::law_split_parts_at_the_separator(a.push('/') + up, '/', b);
    let two = one + text::split_on(b, '/');
    assert(two[text::split_on(a, '/').len() as int] == up);
    assert(two.contains(up));
    text::law_split_parts_at_the_separator(up, '/', b);
    let three = text::split_on(up, '/') + text::split_on(b, '/');
    assert(three[0] == up);
    assert(three.contains(up));
    assert((seq!['/'] + a)[0] == '/');
}

/// What a segment decodes to decides its name, unless it begins with a step into the
/// parent directory. Such a segment is stored as it came, where that is of letters,
/// digits, `-`, `_`, `.`, `=` and `%` with a `%` among them and fits a name.
pub proof fn law_decoded_segment_decides(raw: Seq<char>, decoded: Seq<char>)
    ensures
        !"../"@.is_prefix_of(decoded) ==> stored_name(raw, decoded) == sanitized(decoded),
        "../"@.is_prefix_of(decoded) && 0 < raw.len() <= 64 && raw.contains('%') && raw.last()
            != '.' && (forall|i: int|
            0 <= i < raw.len() ==> text::is_alphanumeric(#[trigger] raw[i]) || raw[i] == '-'
                || raw[i] == '_' || raw[i] == '.' || raw[i] == '=' || raw[i] == '%')
            && !is_device_name(raw) ==> stored_name(raw, decoded) == raw,
{
    if "../"@.is_prefix_of(decoded) && 0 < raw.len() <= 64 && raw.contains('%') && raw.last()
        != '.' && (forall|i: int|
        0 <= i < raw.len() ==> text::is_alphanumeric(#[trigger] raw[i]) || raw[i] == '-' || raw[i]
            == '_' || raw[i] == '.' || raw[i] == '=' || raw[i] == '%') && !is_device_name(raw) {
        assert(cleaned(raw, true) =~= raw);
        assert(raw[raw.len() - 1] != '.');
        assert(vstd::utf8::is_ascii_chars(raw));
        vstd::utf8::is_ascii_chars_encode_utf8(raw);
    }
}

/// The names of devices: `con`, `prn`, `aux` and `nul`, and `com` or `lpt` with one
/// digit, in capital or small letters, whatever blanks and extension follow; nothing
/// else is one.
pub proof fn law_devices_are_known_by_their_word(
    word: Seq<char>,
    blanks: nat,
    extension: Seq<char>,
)
    requires
        !word.contains('.'),
        word.len() > 0 ==> word.last() != ' ',
        extension.len() > 0 ==> extension[0] == '.',
    ensures
        ({
            let small = text::lowered(word);
            let name = word + Seq::new(blanks, |i: int| ' ') + extension;
            let digit = small.len() == 4 && (('0' <= small[3] <= '9') || small[3] == '\u{b9}'
                || small[3] == '\u{b2}' || small[3] == '\u{b3}');
            is_device_name(name) <==> {
                ||| small == "con"@ || small == "prn"@ || small == "aux"@ || small == "nul"@
                ||| digit && small.take(3) == "com"@
                ||| digit && small.take(3) == "lpt"@
            }
        }),
{
    let padded = word + Seq::new(blanks, |i: int| ' ');
    let name = padded + extension;
    assert forall|i: int| 0 <= i < padded.len() implies #[trigger] padded[i] != '.' by {
        if i < word.len() {
            assert(padded[i] == word[i]);
        }
    }
    assert(!padded.contains('.'));
    text::lemma_split_absent(padded, '.');
    if extension.len() > 0 {
        let rest = extension.drop_first();
        assert(name =~= padded.push('.') + rest);
        text::law_split_parts_at_the_separator(padded, '.', rest);
    } else {
        assert(name =~= padded);
    }
    assert(stem(name) == padded);
    lemma_blanks_dropped(word, blanks);
}

proof fn lemma_blanks_dropped(word: Seq<char>, blanks: nat)
    requires
        word.len() > 0 ==> word.last() != ' ',
    ensures
        text::without_trailing(word + Seq::new(blanks, |i: int| ' '), ' ') == word,
    decreases blanks,
{
    let s = word + Seq::new(blanks, |i: int| ' ');
    if blanks == 0 {
        assert(s =~= word);
    } else {
        let less = (blanks - 1) as nat;
        assert(s.drop_last() =~= word + Seq::new(less, |i: int| ' '));
        lemma_blanks_dropped(word, less);
    }
}

/// The segments of a path are those of its parts between the slashes, in order; empty
/// ones do not count.
pub proof fn law_path_is_parted_at_the_slashes(a: Seq<char>, b: Seq<char>)
    ensures
        raw_segments(a.push('/') + b) == raw_segments(a) + raw_segments(b),
        raw_segments(Seq::empty()).len() == 0,
        !b.contains('/') && b.len() > 0 ==> raw_segments(b) == seq![b],
{
    let present = |raw: Seq<char>| raw.len() > 0;
    text::law_split_parts_at_the_separator(a, '/', b);
    Seq::filter_distributes_over_add(text::split_on(a, '/'), text::split_on(b, '/'), present);
    reveal(Seq::filter);
    let none = Seq::<char>::empty();
    assert(text::split_on(none, '/') == seq![none]);
    assert(seq![none].drop_last() =~= Seq::<Seq<char>>::empty());
    assert(Seq::<Seq<char>>::empty().filter(present) =~= Seq::<Seq<char>>::empty());
    assert(raw_segments(none) =~= Seq::<Seq<char>>::empty());
    if !b.contains('/') && b.len() > 0 {
        text::lemma_split_absent(b, '/');
        assert(seq![b].drop_last() =~= Seq::<Seq<char>>::empty());
        assert(raw_segments(b) =~= seq![b]);
    }
}

/// The directories of a path of up to ten segments are those of its parts, in order:
/// each segment gets one of its own, whatever stands before and behind it. What lies
/// deeper than ten segments shares one directory, and a path without a segment has one
/// of its own.
pub proof fn law_directories_follow_the_path(a: Seq<char>, b: Seq<char>)
    ensures
        ({
            let m = raw_segments(a).len();
            let n = raw_segments(b).len();
            let path = a.push('/') + b;
            &&& m > 0 && n > 0 && m + n <= 10 ==> path_directories(path) == path_directories(a)
                + path_directories(b)
            &&& m == 10 && n > 0 ==> path_directories(path) == path_directories(a).push(
                "_overflow"@,
            )
            &&& m > 10 ==> path_directories(path) == path_directories(a)
            &&& n == 0 && m <= 10 ==> path_directories(path) == path_directories(a)
            &&& m == 0 ==> path_directories(a) == seq!["_root"@]
        }),
{
    law_path_is_parted_at_the_slashes(a, b);
    let name_of = |raw: Seq<char>| stored_name(raw, decoded_segment(raw));
    let path = a.push('/') + b;
    let x = raw_segments(a);
    let y = raw_segments(b);
    let all = raw_segments(path);
    assert(all.map_values(name_of) =~= x.map_values(name_of) + y.map_values(name_of));
    if y.len() == 0 {
        assert(all =~= x);
    }
    if x.len() >= 10 {
        assert(all.map_values(name_of).take(10) =~= x.map_values(name_of).take(10));
        assert(x.len() == 10 ==> x.map_values(name_of).take(10) =~= x.map_values(name_of));
    }
}

/// A path of one segment is stored in the directory that the segment names.
pub proof fn law_one_segment_is_one_directory(segment: Seq<char>)
    requires
        segment.len() > 0,
        !segment.contains('/'),
    ensures
        path_directories(segment) == seq![stored_name(segment, decoded_segment(segment))],
        path_directories(seq!['/'] + segment) == path_directories(segment),
{
    law_path_is_parted_at_the_slashes(Seq::empty(), segment);
    let path = seq!['/'] + segment;
    assert(path =~= Seq::<char>::empty().push('/') + segment);
    assert(raw_segments(path) =~= seq![segment]);
    assert(raw_segments(segment) == seq![segment]);
    let name_of = |raw: Seq<char>| stored_name(raw, decoded_segment(raw));
    assert(seq![segment].map_values(name_of) =~= seq![name_of(segment)]);
}

/// A longer segment is cut to its first sixty-four characters, and by one more where
/// these take over 255 bytes. It is stated for harmless characters that make no other
/// change necessary.
pub proof fn law_long_segment_is_cut(segment: Seq<char>)
    requires
        segment.len() > 64,
        forall|i: int| 0 <= i < segment.len() ==> is_harmless(#[trigger] segment[i]),
        segment[0] != '.',
        segment[63] != '.',
        segment[63] != ' ',
        segment.last() != ' ',
        !is_device_name(segment),
    ensures
        ({
            let cut = segment.take(64);
            sanitized(segment) == if vstd::utf8::encode_utf8(cut).len() <= 255 {
                cut
            } else {
                segment.take(63)
            }
        }),
{
    reveal_strlit("..");
    assert forall|i: int| 0 <= i < segment.len() implies is_kept(#[trigger] segment[i]) by {
        lemma_harmless_is_kept(segment[i]);
        assert(is_harmless(segment[i]));
    }
    assert(!segment.contains('/'));
    assert(".."@[0] == '.');
    lemma_one_step_stays(segment);
    assert(cleaned(segment, false) =~= segment);
    assert(segment.take(64).drop_last() =~= segment.take(63));
    assert(segment.take(64).last() == segment[63]);
}

/// Dots alone are stored as an underscore, as many as there are.
pub proof fn law_dots_become_an_underscore(dots: nat)
    ensures
        sanitized(Seq::new(dots, |i: int| '.')) == "_"@,
{
    let s = Seq::new(dots, |i: int| '.');
    assert(cleaned(s, false) =~= s);
    assert(only_dots(s));
}

/// A segment without a percent sign stands for itself; another one for what it
/// decodes to, if that is text.
pub proof fn law_segment_stands_for_what_it_decodes_to(raw: Seq<char>)
    ensures
        !raw.contains('%') ==> decoded_segment(raw) == raw,
        raw.contains('%') && outside::url_decoded(raw) is Some ==> Some(decoded_segment(raw))
            == outside::url_decoded(raw),
        outside::url_decoded(raw) is None ==> decoded_segment(raw) == raw,
{
}

} // verus!
