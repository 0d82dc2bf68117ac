use crate::cycle_date::{
    date_at_index, lemma_date_at_index, lemma_index_fields, lemma_index_roundtrip, CycleDate,
};
use chrono::{Datelike, NaiveDate};
use vstd::prelude::*;

verus! {

/// The year of the reference date of the calendar.
pub const REFERENCE_YEAR: i32 = 2024;

/// The month of the reference date of the calendar.
pub const REFERENCE_MONTH: u32 = 1;

/// The day of the month of the reference date of the calendar.
pub const REFERENCE_DAY: u32 = 1;

/// The smallest year that the proleptic Gregorian calendar of `chrono` has.
pub const MIN_CIVIL_YEAR: i32 = -262143;

/// The largest year that the proleptic Gregorian calendar of `chrono` has.
pub const MAX_CIVIL_YEAR: i32 = 262142;

/// The day number that `chrono` gives the calendar day `year`-`month`-`day`,
/// counted from 1 January of the year 1 as day 1, or `None` where the
/// calendar has no such day.
pub uninterp spec fn days_of_civil(year: int, month: int, day: int) -> Option<int>;

/// The year, month and day of the day that `chrono` numbers `days`, or
/// `None` where the number lies outside its calendar.
pub uninterp spec fn civil_date_of(days: int) -> Option<(int, int, int)>;

/// The day of the week of the day numbered `days`, counted from Sunday as
/// 0: day 1 is a Monday, and the days of the week follow each other without
/// a break.
pub open spec fn weekday_of(days: int) -> int {
    days % 7
}

/// The day numbered `days` written as weekday, month, day and year, such as
/// `Sunday, January 07, 2024`.
pub uninterp spec fn long_date_text(days: int) -> Seq<char>;

/// The day number of the date that a text of the form `YYYY-MM-DD` names, or
/// `None` where `chrono` reads no date from it.
pub uninterp spec fn iso_date_days(text: Seq<char>) -> Option<int>;

/// `NaiveDate::from_ymd_opt`, the date handed out as its day number
/// (`num_days_from_ce`).
///
/// Claimed of `chrono`: the result is a function of the three numbers; a
/// date that it makes is the one that `from_num_days_from_ce_opt` gives back
/// for its number; and a day up to the 28th of one of the twelve months of a
/// year in range exists.
#[verifier::external_body]
fn civil_to_days(year: i32, month: u32, day: u32) -> (r: Option<i32>)
    ensures
        r is Some <==> days_of_civil(year as int, month as int, day as int) is Some,
        r is Some ==> days_of_civil(year as int, month as int, day as int) == Some(r->0 as int),
        r is Some ==> civil_date_of(r->0 as int) == Some((year as int, month as int, day as int)),
        MIN_CIVIL_YEAR <= year <= MAX_CIVIL_YEAR && 1 <= month <= 12 && 1 <= day <= 28 ==> r is Some,
{
    NaiveDate::from_ymd_opt(year, month, day).map(|d| d.num_days_from_ce())
}

/// `NaiveDate::from_num_days_from_ce_opt`, the date handed out as year,
/// month and day.
///
/// Claimed of `chrono`: the result is a function of the number; the year
/// lies in the range of the calendar, the month in 1 to 12 and the day in 1 to
/// 31.
#[verifier::external_body]
fn days_to_civil(days: i32) -> (r: Option<(i32, u32, u32)>)
    ensures
        r is Some <==> civil_date_of(days as int) is Some,
        r is Some ==> civil_date_of(days as int) == Some(
            ((r->0).0 as int, (r->0).1 as int, (r->0).2 as int),
        ),
        r is Some ==> 1 <= (r->0).1 <= 12 && 1 <= (r->0).2 <= 31,
        r is Some ==> MIN_CIVIL_YEAR <= (r->0).0 <= MAX_CIVIL_YEAR,
{
    NaiveDate::from_num_days_from_ce_opt(days).map(|d| (d.year(), d.month(), d.day()))
}

/// `NaiveDate::weekday`, as `Weekday::num_days_from_sunday` counts it, of the
/// day with the given number.
///
/// Claimed of `chrono`: the result is the day number modulo 7, since day 1,
/// the first of January of the year 1, is a Monday.
#[verifier::external_body]
fn days_to_weekday(days: i32) -> (r: u32)
    requires
        civil_date_of(days as int) is Some,
    ensures
        r as int == weekday_of(days as int),
        r < 7,
{
    NaiveDate::from_num_days_from_ce_opt(days).unwrap().weekday().num_days_from_sunday()
}

/// `NaiveDate::format` with the pattern `%A, %B %d, %Y`, of the day with the
/// given number.
///
/// Claimed of `chrono`: the text is a function of the number.
#[verifier::external_body]
fn days_to_long_text(days: i32) -> (r: String)
    requires
        civil_date_of(days as int) is Some,
    ensures
        r@ == long_date_text(days as int),
{
    NaiveDate::from_num_days_from_ce_opt(days).unwrap().format("%A, %B %d, %Y").to_string()
}

/// `NaiveDate::parse_from_str` with the pattern `%Y-%m-%d`, the date handed
/// out as its day number.
///
/// Claimed of `chrono`: the result is a function of the text, and a date
/// that it reads is a day of the calendar.
#[verifier::external_body]
fn iso_text_to_days(text: &str) -> (r: Option<i32>)
    ensures
        r is Some <==> iso_date_days(text@) is Some,
        r is Some ==> iso_date_days(text@) == Some(r->0 as int),
        r is Some ==> civil_date_of(r->0 as int) is Some,
{
    NaiveDate::parse_from_str(text, "%Y-%m-%d").ok().map(|d| d.num_days_from_ce())
}

/// A day of the proleptic Gregorian calendar, held as its number counted
/// from 1 January of the year 1 as day 1.
#[derive(Debug, Clone, Copy, PartialEq, Eq, Hash, Structural)]
pub struct RealDate {
    days_from_ce: i32,
}

impl View for RealDate {
    type V = int;

    /// The day's number.
    closed spec fn view(&self) -> int {
        self.days_from_ce as int
    }
}

/// The day with the given number, if the calendar has it.
pub closed spec fn real_date_at(days: int) -> Option<RealDate> {
    if i32::MIN <= days <= i32::MAX && civil_date_of(days) is Some {
        Some(RealDate { days_from_ce: days as i32 })
    } else {
        None
    }
}

/// The number of the reference date of the calendar.
pub open spec fn reference_days() -> int {
    days_of_civil(REFERENCE_YEAR as int, REFERENCE_MONTH as int, REFERENCE_DAY as int)->0
}

/// The number of the first day of the cycle calendar: the first Sunday on
/// or after the reference date.
pub open spec fn cycle_start_days() -> int {
    reference_days() + (7 - weekday_of(reference_days())) % 7
}

/// The first day of the cycle calendar is a Sunday, it is the reference
/// date or one of the six days after it, and no day from the reference date
/// up to it is a Sunday but itself.
pub proof fn lemma_cycle_starts_on_sunday()
    ensures
        weekday_of(cycle_start_days()) == 0,
        reference_days() <= cycle_start_days() <= reference_days() + 6,
        forall|days: int|
            reference_days() <= days < cycle_start_days() ==> #[trigger] weekday_of(days) != 0,
{
    let r = reference_days();
    let w = r % 7;
    assert(0 <= w < 7);
    let ahead = (7 - w) % 7;
    assert(ahead == if w == 0 {
        0
    } else {
        7 - w
    });
    assert forall|days: int| r <= days < r + ahead implies #[trigger] weekday_of(days) != 0 by {
        let k = days - r;
        assert(0 <= k < 7 - w);
        assert(days == 7 * (r / 7) + (w + k));
        vstd::arithmetic::div_mod::lemma_fundamental_div_mod_converse(days, 7, r / 7, w + k);
    }
    if w != 0 {
        assert(r + ahead == 7 * (r / 7 + 1) + 0);
        vstd::arithmetic::div_mod::lemma_fundamental_div_mod_converse(r + ahead, 7, r / 7 + 1, 0);
    }
}

/// The cycle date of the day that lies `offset` days after the first day of
/// the cycle calendar; a day before it counts as that first day.
pub open spec fn cycle_date_at_offset(offset: int) -> CycleDate {
    if offset < 0 {
        date_at_index(0)
    } else {
        date_at_index(offset)
    }
}

impl RealDate {
    /// The calendar has this day.
    #[verifier::type_invariant]
    closed spec fn representable(self) -> bool {
        civil_date_of(self.days_from_ce as int) is Some
    }

    /// The calendar has a day with this one's number. It holds of every
    /// value that the constructors hand out.
    pub open spec fn wf(&self) -> bool {
        real_date_at(self@) == Some(*self)
    }

    /// The calendar day `year`-`month`-`day`, or `None` where there is no
    /// such day.
    pub fn from_ymd(year: i32, month: u32, day: u32) -> (r: Option<RealDate>)
        ensures
            r is Some <==> days_of_civil(year as int, month as int, day as int) is Some,
            r is Some ==> days_of_civil(year as int, month as int, day as int) == Some(r->0@),
            r is Some ==> civil_date_of(r->0@) == Some((year as int, month as int, day as int)),
            r is Some ==> r->0.wf(),
            MIN_CIVIL_YEAR <= year <= MAX_CIVIL_YEAR && 1 <= month <= 12 && 1 <= day <= 28
                ==> r is Some,
    {
        match civil_to_days(year, month, day) {
            Some(days) => Some(RealDate { days_from_ce: days }),
            None => None,
        }
    }

    /// The day with the given number, or `None` where the calendar has none.
    pub fn from_days_from_ce(days: i64) -> (r: Option<RealDate>)
        ensures
            r == real_date_at(days as int),
            r is Some ==> r->0@ == days && r->0.wf(),
    {
        if days < i32::MIN as i64 || days > i32::MAX as i64 {
            return None;
        }
        let narrow: i32 = days as i32;
        match days_to_civil(narrow) {
            Some(_) => Some(RealDate { days_from_ce: narrow }),
            None => None,
        }
    }

    /// The day's number.
    pub fn days_from_ce(&self) -> (r: i32)
        ensures
            r as int == self@,
            self.wf(),
    {
        proof {
            use_type_invariant(self);
        }
        self.days_from_ce
    }

    /// The day's year, month and day of the month.
    pub fn ymd(&self) -> (r: (i32, u32, u32))
        ensures
            civil_date_of(self@) == Some((r.0 as int, r.1 as int, r.2 as int)),
            MIN_CIVIL_YEAR <= r.0 <= MAX_CIVIL_YEAR,
            1 <= r.1 <= 12,
            1 <= r.2 <= 31,
    {
        proof {
            use_type_invariant(self);
        }
        match days_to_civil(self.days_from_ce) {
            Some(civil) => civil,
            None => vstd::pervasive::unreached(),
        }
    }

    /// The day's year.
    pub fn year(&self) -> (r: i32)
        ensures
            civil_date_of(self@) is Some,
            r as int == (civil_date_of(self@)->0).0,
            MIN_CIVIL_YEAR <= r <= MAX_CIVIL_YEAR,
    {
        self.ymd().0
    }

    /// The day of the week, counted from Sunday as 0.
    pub fn weekday_from_sunday(&self) -> (r: u32)
        ensures
            r as int == weekday_of(self@),
            r < 7,
    {
        proof {
            use_type_invariant(self);
        }
        days_to_weekday(self.days_from_ce)
    }

    /// The day written out in words, such as `Sunday, January 07, 2024`.
    pub fn long_text(&self) -> (r: String)
        ensures
            r@ == long_date_text(self@),
    {
        proof {
            use_type_invariant(self);
        }
        days_to_long_text(self.days_from_ce)
    }

    /// The day that a text of the form `YYYY-MM-DD` names, if it names one.
    pub fn parse_iso(text: &str) -> (r: Option<RealDate>)
        ensures
            r is Some <==> iso_date_days(text@) is Some,
            r is Some ==> iso_date_days(text@) == Some(r->0@),
            r is Some ==> r->0.wf(),
    {
        match iso_text_to_days(text) {
            Some(days) => Some(RealDate { days_from_ce: days }),
            None => None,
        }
    }

    /// The number of days from `from` to this day; negative where this day
    /// is the earlier one.
    pub fn days_since(&self, from: &RealDate) -> (r: i64)
        ensures
            r as int == self@ - from@,
    {
        self.days_from_ce as i64 - from.days_from_ce as i64
    }
}

/// The number of the first day of the cycle calendar.
pub fn cycle_start() -> (r: i64)
    ensures
        r as int == cycle_start_days(),
        i32::MIN <= r <= i32::MAX + 6,
        weekday_of(r as int) == 0,
        reference_days() <= r <= reference_days() + 6,
{
    proof {
        lemma_cycle_starts_on_sunday();
    }
    match RealDate::from_ymd(REFERENCE_YEAR, REFERENCE_MONTH, REFERENCE_DAY) {
        Some(reference) => {
            let to_sunday: u32 = (7 - reference.weekday_from_sunday()) % 7;
            reference.days_from_ce() as i64 + to_sunday as i64
        },
        None => vstd::pervasive::unreached(),
    }
}

impl CycleDate {
    /// The cycle date that a day has, if it is read through the cycle
    /// calendar.
    pub open spec fn spec_from_real_date(date: RealDate) -> CycleDate {
        cycle_date_at_offset(date@ - cycle_start_days())
    }

    /// The day that a cycle date names in the first hundred years of the
    /// cycle calendar, if the calendar of real dates has that day.
    pub open spec fn spec_to_real_date(&self) -> Option<RealDate> {
        real_date_at(cycle_start_days() + self.day_index())
    }

    /// The cycle date of a real date.
    ///
    /// The cycle calendar starts on the first Sunday on or after the
    /// reference date. A day before that start is given the first day of the
    /// cycle, and the years are counted modulo 100, so days a hundred cycle
    /// years apart share their cycle date.
    pub fn from_real_date(date: RealDate) -> (r: CycleDate)
        ensures
            r == CycleDate::spec_from_real_date(date),
            r.wf(),
    {
        let start = cycle_start();
        let days_since_start: i64 = date.days_from_ce() as i64 - start;
        if days_since_start < 0 {
            return CycleDate { year_cycle: 0, month: 0, week: 0, day: 0 };
        }
        let total_days: u64 = days_since_start as u64;
        let year_cycle: u8 = ((total_days / 364) % 100) as u8;
        let days_in_year: u64 = total_days % 364;
        let month: u8 = (days_in_year / 28) as u8;
        let days_in_month: u64 = days_in_year % 28;
        let week: u8 = (days_in_month / 7) as u8;
        let day: u8 = (days_in_month % 7) as u8;
        proof {
            lemma_index_fields(total_days as int);
        }
        CycleDate { year_cycle, month, week, day }
    }

    /// The real date that the cycle date names in the first hundred years of
    /// the cycle calendar; `None` only where the calendar of real dates does
    /// not reach that day.
    pub fn to_real_date(&self) -> (r: Option<RealDate>)
        ensures
            r == self.spec_to_real_date(),
            r is Some ==> r->0@ == cycle_start_days() + self.day_index(),
    {
        let start = cycle_start();
        let total_days: u64 = (self.year_cycle as u64 * 364) + (self.month as u64 * 28) + (
        self.week as u64 * 7) + self.day as u64;
        RealDate::from_days_from_ce(start + total_days as i64)
    }
}

/// From the first day of the cycle calendar on, the day of a cycle date is
/// the day of the week of its real date, Sunday being day 0.
pub proof fn lemma_cycle_day_is_weekday(date: RealDate)
    requires
        cycle_start_days() <= date@,
    ensures
        CycleDate::spec_from_real_date(date).day == weekday_of(date@),
{
    lemma_cycle_starts_on_sunday();
    let start = cycle_start_days();
    let offset = date@ - start;
    lemma_index_fields(offset);
    assert(start == 7 * (start / 7));
    assert(date@ == 7 * (start / 7 + offset / 7) + offset % 7);
    vstd::arithmetic::div_mod::lemma_fundamental_div_mod_converse(
        date@,
        7,
        start / 7 + offset / 7,
        offset % 7,
    );
}

/// A real date within the first hundred cycle years after the start of the
/// cycle calendar is the real date of its own cycle date.
pub proof fn lemma_real_date_roundtrip(date: RealDate)
    requires
        date.wf(),
        cycle_start_days() <= date@ < cycle_start_days() + 36400,
    ensures
        CycleDate::spec_from_real_date(date).spec_to_real_date() == Some(date),
{
    let offset = date@ - cycle_start_days();
    lemma_date_at_index(offset);
}

/// A well-formed cycle date is the cycle date of its own real date, where
/// the calendar of real dates has that day.
pub proof fn lemma_cycle_date_roundtrip(date: CycleDate)
    requires
        date.wf(),
        date.spec_to_real_date() is Some,
    ensures
        CycleDate::spec_from_real_date(date.spec_to_real_date()->0) == date,
{
    lemma_index_roundtrip(date);
}

} // verus!
