//! Points in time and what a clock shows at them.

use vstd::prelude::*;
use vstd::string::*;

use crate::outside;
use crate::text;

verus! {

/// The nanoseconds in a second.
pub const NANOS_PER_SECOND: i128 = 1_000_000_000;

/// The first second of the calendar, the start of the year -262143, in seconds
/// since the Unix epoch.
pub const FIRST_SECOND: i64 = -8_334_601_228_800;

/// The last second of the calendar, the end of the year 262142, in seconds since
/// the Unix epoch.
pub const LAST_SECOND: i64 = 8_210_266_876_799;

/// A point in time, and how far the clock that showed it was from Greenwich.
#[derive(Debug, Clone, Copy)]
pub struct Moment {
    secs: i64,
    nanos: u32,
    offset: i32,
}

/// What a clock shows: the date and the time of day.
#[derive(Debug, Clone, Copy, PartialEq, Eq, Structural)]
pub struct LocalTime {
    pub year: i32,
    pub month: u32,
    pub day: u32,
    pub hour: u32,
    pub minute: u32,
    pub second: u32,
}

/// A point in time that the calendar reaches, with an offset of less than a day. In
/// a leap second, which follows the last second of a minute, the nanoseconds go on
/// past the whole second.
pub open spec fn is_moment(secs: int, nanos: int, offset: int) -> bool {
    &&& FIRST_SECOND <= secs <= LAST_SECOND
    &&& 0 <= nanos < 1_000_000_000 || (secs % 60 == 59 && 0 <= nanos < 2_000_000_000)
    &&& -86400 < offset < 86400
}

/// The second of the day that a clock shows.
pub open spec fn second_of_day(secs: int, offset: int) -> int {
    (secs + offset) % 86400
}

/// What a clock `offset` seconds east of Greenwich shows `secs` seconds after the
/// Unix epoch.
pub open spec fn shown_at(secs: i64, offset: i32) -> LocalTime {
    let date = outside::calendar_date(secs, offset);
    let second = second_of_day(secs as int, offset as int);
    LocalTime {
        year: date.0,
        month: date.1,
        day: date.2,
        hour: (second / 3600) as u32,
        minute: (second / 60 % 60) as u32,
        second: (second % 60) as u32,
    }
}

/// A year in at least four digits, with a sign where it is below 0 or above 9999.
pub open spec fn year_text(year: int) -> Seq<char> {
    if year < 0 {
        "-"@ + text::zero_padded(text::decimal((-year) as nat), 4)
    } else if year <= 9999 {
        text::zero_padded(text::decimal(year as nat), 4)
    } else {
        "+"@ + text::decimal(year as nat)
    }
}

/// A number in at least two digits.
pub open spec fn two_digits(n: int) -> Seq<char> {
    text::zero_padded(text::decimal(n as nat), 2)
}

/// The date and the time of day that a clock shows, `leap` seconds past the second
/// that it shows.
pub open spec fn written(shown: LocalTime, leap: int) -> Seq<char> {
    seq![
        year_text(shown.year as int),
        "-"@,
        two_digits(shown.month as int),
        "-"@,
        two_digits(shown.day as int),
        " "@,
        two_digits(shown.hour as int),
        ":"@,
        two_digits(shown.minute as int),
        ":"@,
        two_digits(shown.second + leap),
    ].flatten()
}

impl Moment {
    /// Whole seconds since the Unix epoch.
    pub closed spec fn secs(self) -> i64 {
        self.secs
    }

    /// Nanoseconds since the last whole second; a billion or more in a leap second.
    pub closed spec fn nanos(self) -> u32 {
        self.nanos
    }

    /// Seconds that the clock is east of Greenwich.
    pub closed spec fn offset(self) -> i32 {
        self.offset
    }

    /// Nanoseconds since the Unix epoch.
    pub open spec fn instant(self) -> int {
        self.secs() * NANOS_PER_SECOND + self.nanos()
    }

    #[verifier::type_invariant]
    spec fn valid(self) -> bool {
        is_moment(self.secs as int, self.nanos as int, self.offset as int)
    }

    /// What the clock shows.
    pub open spec fn shown(self) -> LocalTime {
        shown_at(self.secs(), self.offset())
    }

    /// The moment as RFC 3339 writes it.
    pub open spec fn rfc3339(self) -> Seq<char> {
        outside::rfc3339(self.secs(), self.nanos(), self.offset())
    }

    /// The date and the time of day, as listings show them. A leap second is the
    /// sixtieth of its minute.
    pub open spec fn listing(self) -> Seq<char> {
        written(self.shown(), self.nanos() as int / 1_000_000_000)
    }

    /// The point `secs` and `nanos` after the Unix epoch, shown `offset` seconds
    /// east of Greenwich; `None` where the calendar does not reach it or a part
    /// is out of range.
    pub fn new(secs: i64, nanos: u32, offset: i32) -> (moment: Option<Moment>)
        ensures
            moment is Some <==> is_moment(secs as int, nanos as int, offset as int),
            moment matches Some(m) ==> m.secs() == secs && m.nanos() == nanos && m.offset()
                == offset,
    {
        if secs < FIRST_SECOND || LAST_SECOND < secs || offset <= -86400 || 86400 <= offset {
            return None;
        }
        let second: i64 = (secs - FIRST_SECOND) % 60;
        proof {
            vstd::arithmetic::div_mod::lemma_mod_multiples_vanish(
                138_910_020_480,
                secs as int,
                60,
            );
        }
        if nanos < 1_000_000_000 || (second == 59 && nanos < 2_000_000_000) {
            Some(Moment { secs, nanos, offset })
        } else {
            None
        }
    }

    /// Nanoseconds since the last whole second; a billion or more in a leap second.
    pub fn subsec_nanos(&self) -> (nanos: u32)
        ensures
            nanos == self.nanos(),
            nanos < 2_000_000_000,
    {
        proof {
            use_type_invariant(self);
        }
        self.nanos
    }

    /// Nanoseconds since the Unix epoch.
    pub fn unix_nanos(&self) -> (nanos: i128)
        ensures
            nanos == self.instant(),
            FIRST_SECOND * NANOS_PER_SECOND <= nanos < (LAST_SECOND + 2) * NANOS_PER_SECOND,
    {
        proof {
            use_type_invariant(self);
        }
        self.secs as i128 * NANOS_PER_SECOND + self.nanos as i128
    }

    /// Whether the point comes before another. A leap second comes before the second
    /// behind it.
    pub open spec fn is_before(self, other: Moment) -> bool {
        self.secs() < other.secs() || (self.secs() == other.secs() && self.nanos()
            < other.nanos())
    }

    /// Whether the point comes before another.
    pub fn precedes(&self, other: &Moment) -> (yes: bool)
        ensures
            yes == self.is_before(*other),
    {
        self.secs < other.secs || (self.secs == other.secs && self.nanos < other.nanos)
    }

    /// What the clock shows.
    pub fn local_time(&self) -> (shown: LocalTime)
        ensures
            shown == self.shown(),
            1 <= shown.month <= 12,
            1 <= shown.day <= 31,
            shown.hour < 24,
            shown.minute < 60,
            shown.second < 60,
    {
        proof {
            use_type_invariant(self);
        }
        let date: (i32, u32, u32) = outside::local_date(self.secs, self.offset);
        let shifted: i64 = self.secs + self.offset as i64 + 8_334_601_401_600;
        let second: i64 = shifted % 86400;
        proof {
            vstd::arithmetic::div_mod::lemma_mod_multiples_vanish(
                96_465_294,
                self.secs + self.offset,
                86400,
            );
        }
        LocalTime {
            year: date.0,
            month: date.1,
            day: date.2,
            hour: (second / 3600) as u32,
            minute: (second / 60 % 60) as u32,
            second: (second % 60) as u32,
        }
    }

    /// The moment as RFC 3339 writes it.
    pub fn to_rfc3339(&self) -> (text: String)
        ensures
            text@ == self.rfc3339(),
    {
        proof {
            use_type_invariant(self);
        }
        outside::rfc3339_text(self.secs, self.nanos, self.offset)
    }

    /// The date and the time of day, as listings show them.
    pub fn listing_text(&self) -> (text: String)
        ensures
            text@ == self.listing(),
    {
        proof {
            use_type_invariant(self);
        }
        outside::format_time(self.secs, self.nanos, self.offset, "%Y-%m-%d %H:%M:%S")
    }
}

/// The hour, the minute and the second that a clock shows are in range and add up to
/// the second of its day: the seconds since the epoch, moved by the clock's offset.
pub proof fn law_clock_adds_up(secs: i64, offset: i32)
    requires
        is_moment(secs as int, 0, offset as int),
    ensures
        ({
            let shown = shown_at(secs, offset);
            let clock = shown.hour * 3600 + shown.minute * 60 + shown.second;
            &&& shown.hour < 24 && shown.minute < 60 && shown.second < 60
            &&& (secs + offset - clock) % 86400 == 0
        }),
{
    let second = second_of_day(secs as int, offset as int);
    vstd::arithmetic::div_mod::lemma_fundamental_div_mod(secs + offset, 86400);
    assert(0 <= second < 86400);
    let shown = shown_at(secs, offset);
    assert(shown.hour * 3600 + shown.minute * 60 + shown.second == second);
    let q = (secs + offset) / 86400;
    assert(secs + offset - second == 86400 * q);
    vstd::arithmetic::div_mod::lemma_mod_multiples_basic(q, 86400);
    assert(q * 86400 == 86400 * q);
}

/// What a clock shows depends on the second and on its offset alone.
pub proof fn law_what_is_shown_depends_on_second_and_offset(a: Moment, b: Moment)
    requires
        a.secs() == b.secs(),
        a.offset() == b.offset(),
    ensures
        a.shown() == b.shown(),
{
}

/// Of two points in time one comes first unless they are the same; without leap
/// seconds it is the one with fewer nanoseconds since the epoch.
pub proof fn law_time_is_ordered(a: Moment, b: Moment)
    ensures
        !a.is_before(a),
        a.is_before(b) ==> !b.is_before(a),
        a.is_before(b) || b.is_before(a) || (a.secs() == b.secs() && a.nanos() == b.nanos()),
        a.nanos() < 1_000_000_000 && b.nanos() < 1_000_000_000 ==> (a.is_before(b)
            <==> a.instant() < b.instant()),
{
}

/// The date and the time of day as listings show them can be read back: four digits
/// for the year and two for each other part, in the usual order with the usual marks.
/// (Left out: years before 0 and past 9999, which take a sign.)
pub proof fn law_listed_time_is_read_back(shown: LocalTime, leap: int)
    requires
        0 <= shown.year <= 9999,
        shown.month <= 99,
        shown.day <= 99,
        shown.hour <= 99,
        shown.minute <= 99,
        0 <= shown.second + leap <= 99,
    ensures
        ({
            let t = written(shown, leap);
            &&& t.len() == 19
            &&& crate::size::digits_value(t.subrange(0, 4)) == shown.year
            &&& t[4] == '-'
            &&& crate::size::digits_value(t.subrange(5, 7)) == shown.month
            &&& t[7] == '-'
            &&& crate::size::digits_value(t.subrange(8, 10)) == shown.day
            &&& t[10] == ' '
            &&& crate::size::digits_value(t.subrange(11, 13)) == shown.hour
            &&& t[13] == ':'
            &&& crate::size::digits_value(t.subrange(14, 16)) == shown.minute
            &&& t[16] == ':'
            &&& crate::size::digits_value(t.subrange(17, 19)) == shown.second + leap
        }),
{
    reveal_strlit("-");
    reveal_strlit(" ");
    reveal_strlit(":");
    let year = year_text(shown.year as int);
    let month = two_digits(shown.month as int);
    let day = two_digits(shown.day as int);
    let hour = two_digits(shown.hour as int);
    let minute = two_digits(shown.minute as int);
    let second = two_digits(shown.second + leap);
    assert(vstd::arithmetic::power::pow(10, 2) == 100 && vstd::arithmetic::power::pow(10, 4)
        == 10_000) by {
        reveal_with_fuel(vstd::arithmetic::power::pow, 5);
    }
    crate::size::lemma_decimal_len(shown.year as nat, 4);
    crate::size::lemma_decimal_len(shown.month as nat, 2);
    crate::size::lemma_decimal_len(shown.day as nat, 2);
    crate::size::lemma_decimal_len(shown.hour as nat, 2);
    crate::size::lemma_decimal_len(shown.minute as nat, 2);
    crate::size::lemma_decimal_len((shown.second + leap) as nat, 2);
    crate::size::law_padding_keeps_the_number(shown.year as nat, 4);
    crate::size::law_padding_keeps_the_number(shown.month as nat, 2);
    crate::size::law_padding_keeps_the_number(shown.day as nat, 2);
    crate::size::law_padding_keeps_the_number(shown.hour as nat, 2);
    crate::size::law_padding_keeps_the_number(shown.minute as nat, 2);
    crate::size::law_padding_keeps_the_number((shown.second + leap) as nat, 2);
    let parts = seq![
        year,
        "-"@,
        month,
        "-"@,
        day,
        " "@,
        hour,
        ":"@,
        minute,
        ":"@,
        second,
    ];
    let a = seq![year, "-"@, month, "-"@, day];
    let b = seq![" "@, hour, ":"@, minute, ":"@, second];
    assert(parts =~= a + b);
    vstd::seq_lib::lemma_flatten_concat(a, b);
    text::lemma_five(year, "-"@, month, "-"@, day);
    text::lemma_five(" "@, hour, ":"@, minute, ":"@);
    assert(b =~= seq![" "@, hour, ":"@, minute, ":"@].push(second));
    seq![" "@, hour, ":"@, minute, ":"@].lemma_flatten_push(second);
    let t = written(shown, leap);
    assert(t == (year + "-"@ + month + "-"@ + day) + (" "@ + hour + ":"@ + minute + ":"@
        + second));
    assert(t.subrange(0, 4) =~= year);
    assert(t.subrange(5, 7) =~= month);
    assert(t.subrange(8, 10) =~= day);
    assert(t.subrange(11, 13) =~= hour);
    assert(t.subrange(14, 16) =~= minute);
    assert(t.subrange(17, 19) =~= second);
}

/// The points in time that there are: those that the calendar reaches, in whole
/// seconds and less than a second more; a second more is left to the last second of a
/// minute. The clock is less than a day away from Greenwich.
pub proof fn law_moments_are_bounded(secs: int, nanos: int, offset: int)
    ensures
        is_moment(secs, nanos, offset) ==> -8_334_601_228_800 <= secs <= 8_210_266_876_799
            && -86_400 < offset < 86_400 && 0 <= nanos < 2_000_000_000,
        -8_334_601_228_800 <= secs <= 8_210_266_876_799 && -86_400 < offset < 86_400 && 0 <= nanos
            < 1_000_000_000 ==> is_moment(secs, nanos, offset),
        nanos >= 1_000_000_000 ==> (is_moment(secs, nanos, offset) <==> is_moment(secs, 0, offset)
            && secs % 60 == 59 && nanos < 2_000_000_000),
{
}

/// A year before 0 or past 9999 has a sign, and its digits can be read back.
pub proof fn law_far_year_has_its_sign(year: int)
    requires
        year < 0 || year > 9999,
    ensures
        year < 0 ==> year_text(year)[0] == '-' && crate::size::digits_value(
            year_text(year).skip(1),
        ) == -year && year_text(year).len() >= 5,
        year > 9999 ==> year_text(year)[0] == '+' && crate::size::digits_value(
            year_text(year).skip(1),
        ) == year,
{
    reveal_strlit("-");
    reveal_strlit("+");
    if year < 0 {
        crate::size::law_padding_keeps_the_number((-year) as nat, 4);
        assert(year_text(year).skip(1) =~= text::zero_padded(text::decimal((-year) as nat), 4));
    } else {
        crate::size::lemma_decimal(year as nat);
        assert(year_text(year).skip(1) =~= text::decimal(year as nat));
    }
}

/// A list shows what the clock showed, and in a leap second one second more.
pub proof fn law_list_shows_the_clock(moment: Moment)
    ensures
        moment.nanos() < 1_000_000_000 ==> moment.listing() == written(moment.shown(), 0),
        1_000_000_000 <= moment.nanos() < 2_000_000_000 ==> moment.listing() == written(
            moment.shown(),
            1,
        ),
        moment.instant() == moment.secs() * 1_000_000_000 + moment.nanos(),
        ({
            let date = outside::calendar_date(moment.secs(), moment.offset());
            let shown = moment.shown();
            shown.year == date.0 && shown.month == date.1 && shown.day == date.2
        }),
{
}

} // verus!
