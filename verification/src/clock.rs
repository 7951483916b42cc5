//! Points in time, the clock, and the text form that stored jobs carry.
use vstd::prelude::*;

use crate::text;

verus! {

/// A point in time: seconds since the start of 1970 in UTC, and nanoseconds into
/// the second.
#[derive(Clone, Copy, Debug, PartialEq, Eq, Structural)]
pub struct Timestamp {
    pub secs: i64,
    pub nanos: u32,
}

/// First second of the year -262143.
pub const FIRST_SECOND: i64 = -8334601228800;

/// Last second of the year 262142.
pub const LAST_SECOND: i64 = 8210266876799;

impl Timestamp {
    /// Whether the time lies in the years -262143 to 262142.
    pub open spec fn valid(self) -> bool {
        FIRST_SECOND <= self.secs <= LAST_SECOND && self.nanos < 1_000_000_000
    }

    /// Whether the time lies in the years that the calendar covers.
    pub fn is_valid(self) -> (r: bool)
        ensures
            r == self.valid(),
    {
        FIRST_SECOND <= self.secs && self.secs <= LAST_SECOND && self.nanos < 1_000_000_000
    }

    /// Nanoseconds since the start of 1970.
    pub open spec fn instant(self) -> int {
        self.secs * 1_000_000_000 + self.nanos
    }

    /// Whether the time lies in the years 0 to 9999.
    pub open spec fn four_digit_year(self) -> bool {
        -62167219200 <= self.secs <= 253402300799
    }

    /// Nanoseconds from `earlier` to this time; nothing where they do not fit.
    pub fn nanos_since(self, earlier: Timestamp) -> (r: Option<i64>)
        ensures
            r is Some <==> i64::MIN <= self.instant() - earlier.instant() <= i64::MAX,
            r matches Some(n) ==> n == self.instant() - earlier.instant(),
    {
        let a: i128 = self.secs as i128 * 1_000_000_000 + self.nanos as i128;
        let b: i128 = earlier.secs as i128 * 1_000_000_000 + earlier.nanos as i128;
        let d: i128 = a - b;
        if -0x8000_0000_0000_0000 <= d && d <= 0x7fff_ffff_ffff_ffff {
            Some(d as i64)
        } else {
            None
        }
    }

    /// Whether this time is before another.
    pub fn before(self, other: Timestamp) -> (r: bool)
        requires
            self.nanos < 1_000_000_000,
            other.nanos < 1_000_000_000,
        ensures
            r == (self.instant() < other.instant()),
    {
        self.secs < other.secs || (self.secs == other.secs && self.nanos < other.nanos)
    }
}

/// The current time, from `chrono::Utc::now`. Nothing is promised of which time it
/// is: only that the clock stands past the start of 1970, as that function
/// demands of the system, and that the time is one `chrono` can hold.
#[verifier::external_body]
pub(crate) fn utc_now() -> (r: Timestamp)
    ensures
        r.valid(),
        r.secs >= 0,
{
    let t = chrono::Utc::now();
    Timestamp { secs: t.timestamp(), nanos: t.timestamp_subsec_nanos() }
}

// ---- the calendar ------------------------------------------------------

/// Whether a year has a 29th of February.
pub open spec fn leap_year(y: int) -> bool {
    y % 4 == 0 && (y % 100 != 0 || y % 400 == 0)
}

/// Days of a year before a month.
pub open spec fn days_before_month(y: int, m: int) -> int {
    let extra: int = if leap_year(y) {
        1
    } else {
        0
    };
    if m <= 1 {
        0
    } else if m == 2 {
        31
    } else if m == 3 {
        59 + extra
    } else if m == 4 {
        90 + extra
    } else if m == 5 {
        120 + extra
    } else if m == 6 {
        151 + extra
    } else if m == 7 {
        181 + extra
    } else if m == 8 {
        212 + extra
    } else if m == 9 {
        243 + extra
    } else if m == 10 {
        273 + extra
    } else if m == 11 {
        304 + extra
    } else if m == 12 {
        334 + extra
    } else {
        365 + extra
    }
}

/// Whether a year, month and day name a date.
pub open spec fn is_date(date: (int, int, int)) -> bool {
    &&& -262143 <= date.0 <= 262142
    &&& 1 <= date.1 <= 12
    &&& 1 <= date.2 <= days_before_month(date.0, date.1 + 1) - days_before_month(date.0, date.1)
}

/// Days from the start of the year 0 to the start of a year.
pub open spec fn days_before_year(y: int) -> int {
    365 * y + (y + 3) / 4 - (y + 99) / 100 + (y + 399) / 400
}

/// Days from the 1st of January 1970 to a date.
pub open spec fn day_number(date: (int, int, int)) -> int {
    days_before_year(date.0) + days_before_month(date.0, date.1) + date.2 - 1 - 719528
}

/// The date of a day.
pub open spec fn date_of(day: int) -> (int, int, int) {
    choose|date: (int, int, int)| #[trigger] is_date(date) && day_number(date) == day
}

// ---- the text form -----------------------------------------------------

/// The last `width` decimal digits of a number, zeros in front.
pub open spec fn digits(n: int, width: nat) -> Seq<char>
    decreases width,
{
    if width == 0 {
        Seq::empty()
    } else {
        digits(n / 10, (width - 1) as nat).push(text::digit(n))
    }
}

/// A year as text: four digits, and a sign in front outside 0 to 9999.
pub open spec fn year_text(y: int) -> Seq<char> {
    if 0 <= y <= 9999 {
        digits(y, 4)
    } else {
        let size = if y < 0 {
            -y
        } else {
            y
        };
        seq![
            if y < 0 {
                '-'
            } else {
                '+'
            },
        ] + digits(
            size,
            if size < 10000 {
                4
            } else if size < 100000 {
                5
            } else {
                6
            },
        )
    }
}

/// A field of the text form: its characters, the mark behind it, and the rest.
pub open spec fn field(chars: Seq<char>, mark: char, rest: Seq<char>) -> Seq<char> {
    chars + seq![mark] + rest
}

/// The time of day in the text form: `HH:MM:SS.nnnnnnnnnZ`.
pub open spec fn time_text(second: int, nanos: int) -> Seq<char> {
    field(
        digits(second / 3600, 2),
        ':',
        field(
            digits(second / 60 % 60, 2),
            ':',
            field(digits(second % 60, 2), '.', field(digits(nanos, 9), 'Z', Seq::empty())),
        ),
    )
}

/// A date in the text form, `YYYY-MM-DDT`, before the time of day.
pub open spec fn date_text(date: (int, int, int), time: Seq<char>) -> Seq<char> {
    field(
        year_text(date.0),
        '-',
        field(digits(date.1, 2), '-', field(digits(date.2, 2), 'T', time)),
    )
}

/// The text form of a time: `YYYY-MM-DDTHH:MM:SS.nnnnnnnnnZ`.
pub open spec fn rfc3339_text(t: Timestamp) -> Seq<char> {
    date_text(
        date_of(t.secs as int / 86400),
        time_text(t.secs as int % 86400, t.nanos as int),
    )
}

/// The text form of a time, from `chrono::DateTime::to_rfc3339_opts` with nine
/// fractional digits and a `Z`: date and time of day in UTC, in the Gregorian
/// calendar, all fields at fixed width in the years 0 to 9999.
#[verifier::external_body]
pub(crate) fn rfc3339(t: Timestamp) -> (r: String)
    requires
        t.valid(),
    ensures
        r@ == rfc3339_text(t),
{
    let at = chrono::DateTime::from_timestamp(t.secs, t.nanos).unwrap();
    at.to_rfc3339_opts(chrono::SecondsFormat::Nanos, true)
}

// ---- text order is time order ------------------------------------------

proof fn year_grows(y: int)
    ensures
        days_before_year(y + 1) == days_before_year(y) + if leap_year(y) {
            366int
        } else {
            365int
        },
{
    let a = (y + 4) / 4 - (y + 3) / 4;
    let b = (y + 100) / 100 - (y + 99) / 100;
    let c = (y + 400) / 400 - (y + 399) / 400;
    assert(a == if y % 4 == 0 {
        1int
    } else {
        0int
    });
    assert(b == if y % 100 == 0 {
        1int
    } else {
        0int
    });
    assert(c == if y % 400 == 0 {
        1int
    } else {
        0int
    });
    assert(y % 400 == 0 ==> y % 100 == 0);
    assert(y % 100 == 0 ==> y % 4 == 0);
}

proof fn years_grow(y: int, z: int)
    requires
        y <= z,
    ensures
        days_before_year(y) + 365 * (z - y) <= days_before_year(z),
    decreases z - y,
{
    if y < z {
        years_grow(y, z - 1);
        year_grows(z - 1);
    }
}

/// Of two dates the earlier, by year, month and day, has the smaller number.
proof fn later_date_has_larger_number(a: (int, int, int), b: (int, int, int))
    requires
        is_date(a),
        is_date(b),
        a.0 < b.0 || (a.0 == b.0 && (a.1 < b.1 || (a.1 == b.1 && a.2 < b.2))),
    ensures
        day_number(a) < day_number(b),
{
    if a.0 < b.0 {
        year_grows(a.0);
        years_grow(a.0 + 1, b.0);
    }
}

proof fn next_day_has_a_date(date: (int, int, int))
    requires
        is_date(date),
        date.0 < 262142,
    ensures
        exists|next: (int, int, int)| #[trigger]
            is_date(next) && day_number(next) == day_number(date) + 1,
{
    let in_month = (date.0, date.1, date.2 + 1);
    if is_date(in_month) {
        assert(day_number(in_month) == day_number(date) + 1);
    } else if date.1 < 12 {
        let next = (date.0, date.1 + 1, 1int);
        assert(is_date(next));
        assert(day_number(next) == day_number(date) + 1);
    } else {
        let next = (date.0 + 1, 1int, 1int);
        year_grows(date.0);
        assert(is_date(next));
        assert(day_number(next) == day_number(date) + 1);
    }
}

/// Every day of the years 0 to 9999 has a date in them.
proof fn day_has_a_date(day: int)
    requires
        -719528 <= day <= 2932896,
    ensures
        is_date(date_of(day)),
        day_number(date_of(day)) == day,
        0 <= date_of(day).0 <= 9999,
    decreases day + 719528,
{
    let first = (0int, 1int, 1int);
    let last = (9999int, 12int, 31int);
    assert(is_date(first) && day_number(first) == -719528);
    assert(is_date(last) && day_number(last) == 2932896);
    if day > -719528 {
        day_has_a_date(day - 1);
        next_day_has_a_date(date_of(day - 1));
    }
    assert(exists|date: (int, int, int)| #[trigger] is_date(date) && day_number(date) == day);
    let found = date_of(day);
    if found.0 < 0 {
        later_date_has_larger_number(found, first);
    }
    if found.0 > 9999 {
        later_date_has_larger_number(last, found);
    }
}

proof fn digits_have_width(n: int, width: nat)
    ensures
        digits(n, width).len() == width,
    decreases width,
{
    if width > 0 {
        digits_have_width(n / 10, (width - 1) as nat);
    }
}

pub open spec fn ten_to(width: nat) -> int
    decreases width,
{
    if width == 0 {
        1
    } else {
        10 * ten_to((width - 1) as nat)
    }
}

/// Text with equal fronts is ordered by what follows.
proof fn shared_front(p: Seq<char>, a: Seq<char>, b: Seq<char>)
    ensures
        text::precedes(p + a, p + b) == text::precedes(a, b),
    decreases p.len(),
{
    if p.len() == 0 {
        assert(p + a =~= a);
        assert(p + b =~= b);
    } else {
        assert((p + a).drop_first() =~= p.drop_first() + a);
        assert((p + b).drop_first() =~= p.drop_first() + b);
        shared_front(p.drop_first(), a, b);
    }
}

/// Of two texts with ordered fronts of one length, what follows does not matter.
proof fn ordered_front(a: Seq<char>, b: Seq<char>, x: Seq<char>, y: Seq<char>)
    requires
        a.len() == b.len(),
        text::precedes(a, b),
    ensures
        text::precedes(a + x, b + y),
    decreases a.len(),
{
    if a.len() > 0 && a[0] == b[0] {
        ordered_front(a.drop_first(), b.drop_first(), x, y);
        assert((a + x).drop_first() =~= a.drop_first() + x);
        assert((b + y).drop_first() =~= b.drop_first() + y);
    }
}

proof fn digits_keep_order(a: int, b: int, width: nat)
    requires
        0 <= a < b < ten_to(width),
    ensures
        text::precedes(digits(a, width), digits(b, width)),
    decreases width,
{
    let w = (width - 1) as nat;
    digits_have_width(a / 10, w);
    digits_have_width(b / 10, w);
    let front_a = digits(a / 10, w);
    let front_b = digits(b / 10, w);
    assert(digits(a, width) =~= front_a + seq![text::digit(a)]);
    assert(digits(b, width) =~= front_b + seq![text::digit(b)]);
    if a / 10 == b / 10 {
        assert(a % 10 < b % 10);
        assert(text::digit(a) < text::digit(b));
        shared_front(front_a, seq![text::digit(a)], seq![text::digit(b)]);
        assert(text::precedes(seq![text::digit(a)], seq![text::digit(b)]));
    } else {
        assert(a / 10 < b / 10);
        assert(b / 10 < ten_to(w));
        digits_keep_order(a / 10, b / 10, w);
        ordered_front(front_a, front_b, seq![text::digit(a)], seq![text::digit(b)]);
    }
}

/// A field that is smaller, or equal before an earlier rest, makes the text earlier.
proof fn field_order(
    a: int,
    b: int,
    width: nat,
    mark: char,
    rest_a: Seq<char>,
    rest_b: Seq<char>,
)
    requires
        0 <= a < ten_to(width),
        0 <= b < ten_to(width),
        a < b || (a == b && text::precedes(rest_a, rest_b)),
    ensures
        text::precedes(
            field(digits(a, width), mark, rest_a),
            field(digits(b, width), mark, rest_b),
        ),
{
    assert(field(digits(a, width), mark, rest_a) =~= digits(a, width) + (seq![mark] + rest_a));
    assert(field(digits(b, width), mark, rest_b) =~= digits(b, width) + (seq![mark] + rest_b));
    if a < b {
        digits_keep_order(a, b, width);
        digits_have_width(a, width);
        digits_have_width(b, width);
        ordered_front(
            digits(a, width),
            digits(b, width),
            seq![mark] + rest_a,
            seq![mark] + rest_b,
        );
    } else {
        shared_front(seq![mark], rest_a, rest_b);
        shared_front(digits(a, width), seq![mark] + rest_a, seq![mark] + rest_b);
    }
}

proof fn powers_of_ten()
    ensures
        ten_to(2) == 100,
        ten_to(4) == 10000,
        ten_to(9) == 1_000_000_000,
{
    reveal_with_fuel(ten_to, 10);
}

/// An earlier time of day has the earlier text.
proof fn time_text_order(sa: int, na: int, sb: int, nb: int)
    requires
        0 <= sa < 86400,
        0 <= sb < 86400,
        0 <= na < 1_000_000_000,
        0 <= nb < 1_000_000_000,
        sa < sb || (sa == sb && na < nb),
    ensures
        text::precedes(time_text(sa, na), time_text(sb, nb)),
{
    powers_of_ten();
    let nano_a = field(digits(na, 9), 'Z', Seq::empty());
    let nano_b = field(digits(nb, 9), 'Z', Seq::empty());
    if na < nb {
        field_order(na, nb, 9, 'Z', Seq::empty(), Seq::empty());
    }
    let sec_a = field(digits(sa % 60, 2), '.', nano_a);
    let sec_b = field(digits(sb % 60, 2), '.', nano_b);
    if sa / 60 == sb / 60 {
        field_order(sa % 60, sb % 60, 2, '.', nano_a, nano_b);
    }
    let min_a = field(digits(sa / 60 % 60, 2), ':', sec_a);
    let min_b = field(digits(sb / 60 % 60, 2), ':', sec_b);
    if sa / 3600 == sb / 3600 {
        assert(sa / 60 <= sb / 60);
        assert(sa / 60 / 60 == sa / 3600 && sb / 60 / 60 == sb / 3600);
        field_order(sa / 60 % 60, sb / 60 % 60, 2, ':', sec_a, sec_b);
    }
    field_order(sa / 3600, sb / 3600, 2, ':', min_a, min_b);
}

/// An earlier date, or the same date before an earlier time of day, has the
/// earlier text.
proof fn date_text_order(
    a: (int, int, int),
    b: (int, int, int),
    time_a: Seq<char>,
    time_b: Seq<char>,
)
    requires
        is_date(a),
        is_date(b),
        0 <= a.0 <= 9999,
        0 <= b.0 <= 9999,
        day_number(a) < day_number(b) || (a == b && text::precedes(time_a, time_b)),
    ensures
        text::precedes(date_text(a, time_a), date_text(b, time_b)),
{
    powers_of_ten();
    if day_number(a) < day_number(b) && !(a.0 < b.0 || (a.0 == b.0 && (a.1 < b.1 || (a.1 == b.1
        && a.2 < b.2)))) {
        if a != b {
            later_date_has_larger_number(b, a);
        }
    }
    let dom_a = field(digits(a.2, 2), 'T', time_a);
    let dom_b = field(digits(b.2, 2), 'T', time_b);
    if a.0 == b.0 && a.1 == b.1 {
        field_order(a.2, b.2, 2, 'T', time_a, time_b);
    }
    let month_a = field(digits(a.1, 2), '-', dom_a);
    let month_b = field(digits(b.1, 2), '-', dom_b);
    if a.0 == b.0 {
        field_order(a.1, b.1, 2, '-', dom_a, dom_b);
    }
    field_order(a.0, b.0, 4, '-', month_a, month_b);
}

/// In the years 0 to 9999 the text form has thirty characters, the last a `Z`.
pub proof fn text_form_has_fixed_width(t: Timestamp)
    requires
        t.valid(),
        t.four_digit_year(),
    ensures
        rfc3339_text(t).len() == 30,
        rfc3339_text(t).last() == 'Z',
{
    let date = date_of(t.secs as int / 86400);
    let second = t.secs as int % 86400;
    day_has_a_date(t.secs as int / 86400);
    digits_have_width(date.0, 4);
    digits_have_width(date.1, 2);
    digits_have_width(date.2, 2);
    digits_have_width(second / 3600, 2);
    digits_have_width(second / 60 % 60, 2);
    digits_have_width(second % 60, 2);
    digits_have_width(t.nanos as int, 9);
    let time = time_text(second, t.nanos as int);
    assert(time.len() == 19);
    assert(time.last() == 'Z');
}

/// In the years 0 to 9999 an earlier time has the earlier text: sorting stored
/// times as text sorts them in time.
pub proof fn text_order_is_time_order(a: Timestamp, b: Timestamp)
    requires
        a.valid(),
        b.valid(),
        a.four_digit_year(),
        b.four_digit_year(),
        a.instant() < b.instant(),
    ensures
        text::precedes(rfc3339_text(a), rfc3339_text(b)),
{
    let day_a = a.secs as int / 86400;
    let day_b = b.secs as int / 86400;
    day_has_a_date(day_a);
    day_has_a_date(day_b);
    let sa = a.secs as int % 86400;
    let sb = b.secs as int % 86400;
    if day_a == day_b {
        time_text_order(sa, a.nanos as int, sb, b.nanos as int);
    }
    date_text_order(
        date_of(day_a),
        date_of(day_b),
        time_text(sa, a.nanos as int),
        time_text(sb, b.nanos as int),
    );
}

/// A nanosecond later is one later, and a second is a thousand million nanoseconds.
pub proof fn instants_count_nanoseconds(t: Timestamp, u: Timestamp)
    ensures
        u.secs == t.secs ==> u.instant() - t.instant() == u.nanos - t.nanos,
        u.secs == t.secs + 1 && u.nanos == t.nanos ==> u.instant() == t.instant() + 1_000_000_000,
        t.valid() && u.valid() ==> (t.instant() == u.instant() <==> t == u),
{
}

/// A year has 365 days, and one more in every fourth year, but not at the turn of a century
/// that four hundred years do not lead to. Its months fill it.
pub proof fn years_are_filled_by_their_months(y: int)
    ensures
        days_before_year(y + 1) - days_before_year(y) == 365 + (if y % 4 == 0 {
            1int
        } else {
            0int
        }) - (if y % 100 == 0 {
            1int
        } else {
            0int
        }) + (if y % 400 == 0 {
            1int
        } else {
            0int
        }),
        days_before_month(y, 1) == 0,
        days_before_month(y, 13) == days_before_year(y + 1) - days_before_year(y),
        forall|m: int|
            1 <= m <= 12 && m != 2 ==> 30 <= (#[trigger] days_before_month(y, m + 1))
                - days_before_month(y, m) <= 31,
{
    year_grows(y);
}

/// The calendar starts at 0 with the 1st of January 1970, and each day is one later than
/// the day before it, within a month, from month to month, and from year to year.
pub proof fn days_follow_each_other(date: (int, int, int))
    requires
        is_date(date),
        date.0 < 262142,
    ensures
        day_number((1970, 1, 1)) == 0,
        ({
            let in_month = (date.0, date.1, date.2 + 1);
            let in_year = (date.0, date.1 + 1, 1int);
            let in_next = (date.0 + 1, 1int, 1int);
            let next = if is_date(in_month) {
                in_month
            } else if is_date(in_year) {
                in_year
            } else {
                in_next
            };
            is_date(next) && day_number(next) == day_number(date) + 1
        }),
{
    year_grows(date.0);
}

/// Digits stand for the number that they are of, as far as they reach.
pub proof fn digits_stand_for_their_number(n: int, width: nat)
    requires
        0 <= n < ten_to(width),
    ensures
        text::number(digits(n, width)) == n,
        digits(n, width).len() == width,
    decreases width,
{
    digits_have_width(n, width);
    let f = |n: int, c: char| 10 * n + (c as int - '0' as int);
    if width > 0 {
        let s = digits(n, width);
        digits_stand_for_their_number(n / 10, (width - 1) as nat);
        assert(s.drop_last() =~= digits(n / 10, (width - 1) as nat));
    } else {
        assert(digits(n, width).fold_left(0int, f) == 0);
    }
}

} // verus!
