use crate::error::JournalError;
use crate::prompts::PromptsConfig;
use crate::real_date::{civil_date_of, days_of_civil, iso_date_days, long_date_text, RealDate};
use crate::text::{
    byte_len, byte_len_of, chars_of, contains, decimal, occurs_in, parse_u32, parsed_u32,
    push_chars, push_decimal, push_str, split, split_on, string_of, trim, trimmed, views_of,
};
use vstd::prelude::*;

verus! {

/// The character that opens a comment line of a holiday list.
pub const COMMENT_MARK: char = '#';

/// The character between the fields of a line of a holiday list.
pub const FIELD_SEPARATOR: char = '|';

/// The character between the parts of a holiday's date.
pub const DATE_SEPARATOR: char = '-';

/// The number of days ahead up to which a holiday counts as upcoming.
pub const UPCOMING_WINDOW_DAYS: i64 = 30;

/// The number of upcoming holidays that are named in the context.
pub const MAX_LISTED_HOLIDAYS: usize = 5;

/// The status that stands in for one that was never recorded.
pub const NO_STATUS_TEXT: &'static str = "No previous status recorded.";

/// A day that matters to the writer of the journal.
///
/// `date` is `MM-DD` for a day that returns every year, or `YYYY-MM-DD` for
/// one day only.
#[derive(Debug, Clone)]
pub struct Holiday {
    pub name: String,
    pub date: String,
    pub category: String,
    pub description: Option<String>,
    pub recurring: bool,
}

/// What a holiday holds, as plain texts.
pub struct HolidayView {
    pub name: Seq<char>,
    pub date: Seq<char>,
    pub category: Seq<char>,
    pub description: Option<Seq<char>>,
    pub recurring: bool,
}

impl View for Holiday {
    type V = HolidayView;

    open spec fn view(&self) -> HolidayView {
        HolidayView {
            name: self.name@,
            date: self.date@,
            category: self.category@,
            description: match self.description {
                Some(text) => Some(text@),
                None => None,
            },
            recurring: self.recurring,
        }
    }
}

/// The views of the holidays of a list, in order.
pub open spec fn holiday_views(holidays: Seq<Holiday>) -> Seq<HolidayView> {
    holidays.map_values(|h: Holiday| h@)
}

/// The text of one character.
pub open spec fn one_char(c: char) -> Seq<char> {
    seq![c]
}

/// Whether a date text counts as one that returns every year: it has no
/// dash, or it takes five bytes.
pub open spec fn date_recurs(date: Seq<char>) -> bool {
    !occurs_in(date, one_char(DATE_SEPARATOR)) || byte_len(date) == 5
}

/// The holiday that a line of a holiday list names, if it names one.
///
/// An empty line and a line that starts with `#`, both after trimming, name
/// none; nor does a line with fewer than three fields. The fields are
/// date, category, name and, as far as there is one that is not blank, a
/// description; each is trimmed.
pub open spec fn spec_parse_line(line: Seq<char>) -> Option<HolidayView> {
    let text = trimmed(line);
    if text.len() == 0 || text[0] == COMMENT_MARK {
        None
    } else {
        let parts = split_on(text, FIELD_SEPARATOR);
        if parts.len() < 3 {
            None
        } else {
            let date = trimmed(parts[0]);
            Some(
                HolidayView {
                    name: trimmed(parts[2]),
                    date,
                    category: trimmed(parts[1]),
                    description: if parts.len() > 3 && trimmed(parts[3]).len() > 0 {
                        Some(trimmed(parts[3]))
                    } else {
                        None
                    },
                    recurring: date_recurs(date),
                },
            )
        }
    }
}

/// The holidays that the first `upto` lines name, in the order of the lines.
pub open spec fn spec_parse_lines(lines: Seq<Seq<char>>, upto: int) -> Seq<HolidayView>
    decreases upto,
{
    if upto <= 0 {
        Seq::<HolidayView>::empty()
    } else {
        match spec_parse_line(lines[upto - 1]) {
            Some(holiday) => spec_parse_lines(lines, upto - 1).push(holiday),
            None => spec_parse_lines(lines, upto - 1),
        }
    }
}

/// The holidays that a holiday list names, in the order of its lines.
pub open spec fn spec_parse_holidays(content: Seq<char>) -> Seq<HolidayView> {
    let lines = split_on(content, '\n');
    spec_parse_lines(lines, lines.len() as int)
}

/// The holiday that a line of a holiday list names, if it names one.
pub fn parse_holiday_line(line: &Vec<char>) -> (r: Option<Holiday>)
    ensures
        r is Some <==> spec_parse_line(line@) is Some,
        r is Some ==> r->0@ == spec_parse_line(line@)->0,
{
    let text = trim(line);
    if text.len() == 0 || text[0] == COMMENT_MARK {
        return None;
    }
    let parts = split(&text, FIELD_SEPARATOR);
    proof {
        assert(views_of(parts@).len() == parts@.len());
        assert forall|i: int| 0 <= i < parts@.len() implies (#[trigger] parts@[i])@ == split_on(
            text@,
            FIELD_SEPARATOR,
        )[i] by {
            assert(views_of(parts@)[i] == parts@[i]@);
        }
    }
    if parts.len() < 3 {
        return None;
    }
    let date = trim(&parts[0]);
    let category = trim(&parts[1]);
    let name = trim(&parts[2]);
    let description = if parts.len() > 3 {
        let text = trim(&parts[3]);
        if text.len() > 0 {
            Some(string_of(&text))
        } else {
            None
        }
    } else {
        None
    };
    let mut dash: Vec<char> = Vec::new();
    dash.push(DATE_SEPARATOR);
    assert(dash@ =~= one_char(DATE_SEPARATOR));
    let date_text = string_of(&date);
    let recurring = !contains(&date, &dash) || byte_len_of(date_text.as_str()) == 5;
    Some(
        Holiday {
            name: string_of(&name),
            date: date_text,
            category: string_of(&category),
            description,
            recurring,
        },
    )
}


/// The number of days from the day numbered `today` to the next day that a
/// holiday's date names, or `None` where it names no day to come.
///
/// A date of five bytes with a dash is read as month and day: it names that
/// day of the year of `today` or, where that day is past or does not exist,
/// of the year after. A date of ten bytes with two dashes is read as year,
/// month and day, and names that day unless it is past. No other date names
/// a day.
pub open spec fn spec_days_until(date: Seq<char>, today: int) -> Option<int> {
    if byte_len(date) == 5 && occurs_in(date, one_char(DATE_SEPARATOR)) {
        let parts = split_on(date, DATE_SEPARATOR);
        if parts.len() == 2 && parsed_u32(parts[0]) is Some && parsed_u32(parts[1]) is Some
            && civil_date_of(today) is Some {
            let month = parsed_u32(parts[0])->0 as int;
            let day = parsed_u32(parts[1])->0 as int;
            let year = (civil_date_of(today)->0).0;
            let this_year = days_of_civil(year, month, day);
            let next_year = days_of_civil(year + 1, month, day);
            if this_year is Some && this_year->0 >= today {
                Some(this_year->0 - today)
            } else if next_year is Some && next_year->0 >= today {
                Some(next_year->0 - today)
            } else {
                None
            }
        } else {
            None
        }
    } else if byte_len(date) == 10 && split_on(date, DATE_SEPARATOR).len() == 3 {
        let named = iso_date_days(date);
        if named is Some && named->0 >= today {
            Some(named->0 - today)
        } else {
            None
        }
    } else {
        None
    }
}

/// For each holiday of a list, the number of days until it.
pub open spec fn spec_days_list(holidays: Seq<Holiday>, today: int) -> Seq<Option<int>> {
    Seq::new(holidays.len(), |i: int| spec_days_until(holidays[i].date@, today))
}

/// Whether a holiday with the given number of days until it is upcoming.
pub open spec fn is_upcoming(days: Option<int>) -> bool {
    days is Some && days->0 <= UPCOMING_WINDOW_DAYS
}

/// Where a holiday that is `days` days away goes into a list of places
/// ordered by their days: behind every place that is not farther away.
pub open spec fn insert_place(sorted: Seq<int>, days: Seq<Option<int>>, d: int) -> int
    decreases sorted.len(),
{
    if sorted.len() == 0 {
        0
    } else if days[sorted[sorted.len() - 1]]->0 <= d {
        sorted.len() as int
    } else {
        insert_place(sorted.subrange(0, sorted.len() - 1), days, d)
    }
}

/// The places of the upcoming holidays among the first `upto` of a list,
/// the nearest first; of two that are equally near, the one that stands first
/// in the list.
pub open spec fn spec_upcoming(days: Seq<Option<int>>, upto: int) -> Seq<int>
    decreases upto,
{
    if upto <= 0 {
        Seq::<int>::empty()
    } else {
        let before = spec_upcoming(days, upto - 1);
        if is_upcoming(days[upto - 1]) {
            before.insert(insert_place(before, days, days[upto - 1]->0), upto - 1)
        } else {
            before
        }
    }
}

/// Whether a list of places stands in the order of the days of its places,
/// and places with the same days in their own order.
pub open spec fn ordered_by_days(places: Seq<int>, days: Seq<Option<int>>) -> bool {
    forall|j: int, k: int|
        0 <= j < k < places.len() ==> {
            ||| days[#[trigger] places[j]]->0 < days[#[trigger] places[k]]->0
            ||| (days[places[j]]->0 == days[places[k]]->0 && places[j] < places[k])
        }
}

/// The place that `insert_place` gives lies in the list, every place before
/// it is at most `d` days away and every place from it on is farther away.
pub proof fn lemma_insert_place(sorted: Seq<int>, days: Seq<Option<int>>, d: int)
    requires
        ordered_by_days(sorted, days),
    ensures
        0 <= insert_place(sorted, days, d) <= sorted.len(),
        forall|j: int|
            0 <= j < insert_place(sorted, days, d) ==> days[#[trigger] sorted[j]]->0 <= d,
        forall|j: int|
            insert_place(sorted, days, d) <= j < sorted.len() ==> days[#[trigger] sorted[j]]->0
                > d,
    decreases sorted.len(),
{
    if sorted.len() > 0 {
        let last = sorted.len() - 1;
        if days[sorted[last]]->0 <= d {
            assert forall|j: int| 0 <= j < sorted.len() implies days[#[trigger] sorted[j]]->0
                <= d by {
                if j < last {
                    assert(days[sorted[j]]->0 <= days[sorted[last]]->0);
                }
            }
        } else {
            let front = sorted.subrange(0, last);
            assert forall|j: int, k: int| 0 <= j < k < front.len() implies {
                ||| days[#[trigger] front[j]]->0 < days[#[trigger] front[k]]->0
                ||| (days[front[j]]->0 == days[front[k]]->0 && front[j] < front[k])
            } by {
                assert(front[j] == sorted[j] && front[k] == sorted[k]);
            }
            lemma_insert_place(front, days, d);
            let place = insert_place(front, days, d);
            assert forall|j: int| 0 <= j < place implies days[#[trigger] sorted[j]]->0 <= d by {
                assert(sorted[j] == front[j]);
            }
            assert forall|j: int| place <= j < sorted.len() implies days[#[trigger] sorted[j]]->0
                > d by {
                if j < last {
                    assert(sorted[j] == front[j]);
                }
            }
        }
    }
}

/// A list of places that stands in order still does so with one more
/// place put in, if that place is new and larger than the others, every place
/// before it is not farther away and every place behind it is.
pub proof fn lemma_insert_ordered(before: Seq<int>, days: Seq<Option<int>>, place: int, at: int)
    requires
        ordered_by_days(before, days),
        0 <= place <= before.len(),
        forall|j: int| 0 <= j < before.len() ==> (#[trigger] before[j]) < at,
        forall|j: int| 0 <= j < place ==> days[#[trigger] before[j]]->0 <= days[at]->0,
        forall|j: int| place <= j < before.len() ==> days[#[trigger] before[j]]->0 > days[at]->0,
    ensures
        ordered_by_days(before.insert(place, at), days),
{
    let after = before.insert(place, at);
    assert forall|j: int, k: int| 0 <= j < k < after.len() implies {
        ||| days[#[trigger] after[j]]->0 < days[#[trigger] after[k]]->0
        ||| (days[after[j]]->0 == days[after[k]]->0 && after[j] < after[k])
    } by {
        if k < place {
            assert(after[j] == before[j] && after[k] == before[k]);
        } else if k == place {
            assert(after[j] == before[j] && after[k] == at);
        } else if j < place {
            assert(after[j] == before[j] && after[k] == before[k - 1]);
            if k - 1 == j {
                assert(false);
            }
        } else if j == place {
            assert(after[j] == at && after[k] == before[k - 1]);
        } else {
            assert(after[j] == before[j - 1] && after[k] == before[k - 1]);
        }
    }
}

/// Every place among the upcoming holidays is a place of the list, and its
/// holiday is at most 30 days away.
pub proof fn lemma_upcoming_members(days: Seq<Option<int>>, upto: int)
    requires
        0 <= upto <= days.len(),
    ensures
        spec_upcoming(days, upto).len() <= upto,
        forall|j: int|
            0 <= j < spec_upcoming(days, upto).len() ==> 0 <= (#[trigger] spec_upcoming(
                days,
                upto,
            )[j]) < upto,
        forall|j: int|
            0 <= j < spec_upcoming(days, upto).len() ==> is_upcoming(
                days[#[trigger] spec_upcoming(days, upto)[j]],
            ),
        ordered_by_days(spec_upcoming(days, upto), days),
    decreases upto,
{
    if upto > 0 {
        lemma_upcoming_members(days, upto - 1);
        let before = spec_upcoming(days, upto - 1);
        let after = spec_upcoming(days, upto);
        if is_upcoming(days[upto - 1]) {
            let d = days[upto - 1]->0;
            lemma_insert_place(before, days, d);
            let place = insert_place(before, days, d);
            assert(after == before.insert(place, upto - 1));
            lemma_insert_ordered(before, days, place, upto - 1);
            assert forall|j: int| 0 <= j < after.len() implies 0 <= (#[trigger] after[j]) < upto
                && is_upcoming(days[after[j]]) by {
                if j < place {
                    assert(after[j] == before[j]);
                } else if j > place {
                    assert(after[j] == before[j - 1]);
                }
            }
        }
    }
}

/// Every holiday of the list that is at most 30 days away is among the
/// upcoming holidays.
pub proof fn lemma_upcoming_complete(days: Seq<Option<int>>, upto: int, at: int)
    requires
        0 <= at < upto <= days.len(),
        is_upcoming(days[at]),
    ensures
        spec_upcoming(days, upto).contains(at),
    decreases upto,
{
    let before = spec_upcoming(days, upto - 1);
    let after = spec_upcoming(days, upto);
    lemma_upcoming_members(days, upto - 1);
    if is_upcoming(days[upto - 1]) {
        let d = days[upto - 1]->0;
        lemma_insert_place(before, days, d);
        let place = insert_place(before, days, d);
        assert(after == before.insert(place, upto - 1));
        if at == upto - 1 {
            assert(after[place] == at);
        } else {
            lemma_upcoming_complete(days, upto - 1, at);
            let found = choose|found: int| 0 <= found < before.len() && before[found] == at;
            if found < place {
                assert(after[found] == at);
            } else {
                assert(after[found + 1] == at);
            }
        }
    } else {
        lemma_upcoming_complete(days, upto - 1, at);
    }
}

/// The upcoming holidays are those that are at most 30 days away and no
/// others, each once, the nearest first, and of two that are equally near the
/// one that stands first in the list.
pub proof fn lemma_upcoming(days: Seq<Option<int>>, upto: int)
    requires
        0 <= upto <= days.len(),
    ensures
        forall|j: int|
            0 <= j < spec_upcoming(days, upto).len() ==> 0 <= (#[trigger] spec_upcoming(
                days,
                upto,
            )[j]) < upto,
        forall|j: int|
            0 <= j < spec_upcoming(days, upto).len() ==> is_upcoming(
                days[#[trigger] spec_upcoming(days, upto)[j]],
            ),
        forall|i: int|
            0 <= i < upto && is_upcoming(#[trigger] days[i]) ==> spec_upcoming(
                days,
                upto,
            ).contains(i),
        ordered_by_days(spec_upcoming(days, upto), days),
        spec_upcoming(days, upto).len() <= upto,
{
    lemma_upcoming_members(days, upto);
    assert forall|i: int| 0 <= i < upto && is_upcoming(#[trigger] days[i]) implies spec_upcoming(
        days,
        upto,
    ).contains(i) by {
        lemma_upcoming_complete(days, upto, i);
    }
}

/// The numbers of days of a list, as integers.
pub open spec fn int_days(days: Seq<Option<i64>>) -> Seq<Option<int>> {
    Seq::new(
        days.len(),
        |i: int|
            match days[i] {
                Some(d) => Some(d as int),
                None => None,
            },
    )
}

/// The places of a list of places, as integers.
pub open spec fn int_places(places: Seq<usize>) -> Seq<int> {
    Seq::new(places.len(), |i: int| places[i] as int)
}

/// The places of the upcoming holidays of a list, given for each holiday
/// the number of days until it: those at most 30 days away, the nearest
/// first, and of two that are equally near the one that stands first.
pub fn upcoming_places(days: &Vec<Option<i64>>) -> (r: Vec<usize>)
    ensures
        int_places(r@) == spec_upcoming(int_days(days@), days@.len() as int),
        forall|j: int| 0 <= j < r@.len() ==> (#[trigger] r@[j]) < days@.len(),
        forall|j: int| 0 <= j < r@.len() ==> is_upcoming(int_days(days@)[(#[trigger] r@[j]) as int]),
        forall|i: int|
            0 <= i < days@.len() && is_upcoming(#[trigger] int_days(days@)[i]) ==> int_places(
                r@,
            ).contains(i),
        ordered_by_days(int_places(r@), int_days(days@)),
{
    let mut places: Vec<usize> = Vec::new();
    let mut i: usize = 0;
    let ghost all = int_days(days@);
    while i < days.len()
        invariant
            i <= days.len(),
            all == int_days(days@),
            int_places(places@) == spec_upcoming(all, i as int),
        decreases days.len() - i,
    {
        let ghost before = int_places(places@);
        proof {
            lemma_upcoming(all, i as int);
            assert forall|j: int| 0 <= j < places@.len() implies 0 <= (#[trigger] places@[j]) < i by {
                assert(before[j] == places@[j]);
            }
        }
        match days[i] {
            Some(d) => {
                if d <= UPCOMING_WINDOW_DAYS {
                    let mut place: usize = places.len();
                    proof {
                        assert(before.subrange(0, before.len() as int) =~= before);
                    }
                    while place > 0 && days_at(days, places[place - 1]) > d
                        invariant
                            place <= places.len(),
                            all == int_days(days@),
                            before == int_places(places@),
                            forall|j: int| 0 <= j < places@.len() ==> (#[trigger] places@[j]) < i,
                            i < days.len(),
                            forall|j: int|
                                0 <= j < places@.len() ==> is_upcoming(all[#[trigger] before[j]]),
                            insert_place(before.subrange(0, place as int), all, d as int)
                                == insert_place(before, all, d as int),
                        decreases place,
                    {
                        proof {
                            let part = before.subrange(0, place as int);
                            assert(part[part.len() - 1] == places@[place - 1]);
                            assert(is_upcoming(all[before[place - 1]]));
                            assert(part.subrange(0, part.len() - 1) =~= before.subrange(
                                0,
                                place - 1,
                            ));
                        }
                        place -= 1;
                    }
                    proof {
                        let part = before.subrange(0, place as int);
                        if place > 0 {
                            assert(part[part.len() - 1] == places@[place - 1]);
                            assert(is_upcoming(all[before[place - 1]]));
                        }
                        assert(insert_place(part, all, d as int) == place);
                        assert(before.subrange(0, before.len() as int) =~= before);
                    }
                    places.insert(place, i);
                    proof {
                        assert(int_places(places@) =~= before.insert(place as int, i as int));
                    }
                }
            },
            None => {},
        }
        i += 1;
    }
    proof {
        lemma_upcoming(all, days@.len() as int);
        assert forall|j: int| 0 <= j < places@.len() implies (#[trigger] places@[j]) < days@.len()
            && is_upcoming(all[places@[j] as int]) by {
            assert(int_places(places@)[j] == places@[j]);
        }
    }
    places
}

/// The number of days until the holiday at a place for which a number is
/// known; 0 where none is known.
fn days_at(days: &Vec<Option<i64>>, place: usize) -> (r: i64)
    requires
        place < days.len(),
    ensures
        days@[place as int] is Some ==> r == days@[place as int]->0,
{
    match days[place] {
        Some(d) => d,
        None => 0,
    }
}


/// How far away a day is, in words.
pub open spec fn day_text(days: int) -> Seq<char> {
    if days == 0 {
        "TODAY"@
    } else if days == 1 {
        "tomorrow"@
    } else {
        "in "@ + decimal(days as nat) + " days"@
    }
}

/// What follows a holiday's category in its line: its description behind a
/// dash, where it has one.
pub open spec fn description_text(description: Option<Seq<char>>) -> Seq<char> {
    match description {
        Some(text) => "- "@ + text,
        None => Seq::<char>::empty(),
    }
}

/// The line that names an upcoming holiday.
pub open spec fn holiday_line(holiday: HolidayView, days: int) -> Seq<char> {
    "- "@ + holiday.name + " ("@ + day_text(days) + "): "@ + holiday.category + " "@
        + description_text(holiday.description) + "\n"@
}

/// The lines that name the holidays at the first `upto` of a list of places.
pub open spec fn holiday_lines(
    holidays: Seq<Holiday>,
    places: Seq<int>,
    days: Seq<Option<int>>,
    upto: int,
) -> Seq<char>
    decreases upto,
{
    if upto <= 0 {
        Seq::<char>::empty()
    } else {
        holiday_lines(holidays, places, days, upto - 1) + holiday_line(
            holidays[places[upto - 1]]@,
            days[places[upto - 1]]->0,
        )
    }
}

/// How many of a number of upcoming holidays are named.
pub open spec fn listed_count(upcoming: int) -> int {
    if upcoming < MAX_LISTED_HOLIDAYS {
        upcoming
    } else {
        MAX_LISTED_HOLIDAYS as int
    }
}

/// The part of the context that tells the date and the upcoming holidays.
pub open spec fn spec_temporal_context(holidays: Seq<Holiday>, today: int) -> Seq<char> {
    let days = spec_days_list(holidays, today);
    let places = spec_upcoming(days, holidays.len() as int);
    let date = "CURRENT DATE: "@ + long_date_text(today) + "\n\n"@;
    if places.len() > 0 {
        date + "UPCOMING EVENTS (next 30 days):\n"@ + holiday_lines(
            holidays,
            places,
            days,
            listed_count(places.len() as int),
        ) + "\n"@
    } else {
        date
    }
}

/// The part of the context made of a text under a title: nothing where
/// there is no text or only white space.
pub open spec fn context_block(title: Seq<char>, text: Option<String>) -> Seq<char> {
    match text {
        Some(t) => if trimmed(t@).len() > 0 {
            title + t@ + "\n\n"@
        } else {
            Seq::<char>::empty()
        },
        None => Seq::<char>::empty(),
    }
}

/// The text of a file that must have one: what was read, trimmed, or the
/// default where nothing was read or only white space.
pub open spec fn text_or_default(read: Option<&str>, default_content: Seq<char>) -> Seq<char> {
    match read {
        Some(content) => if trimmed(content@).len() > 0 {
            trimmed(content@)
        } else {
            default_content
        },
        None => default_content,
    }
}

/// The text of a file that need not be there: what was read, trimmed, if
/// that is more than white space.
pub open spec fn text_if_any(read: Option<&str>) -> Option<Seq<char>> {
    match read {
        Some(content) => if trimmed(content@).len() > 0 {
            Some(trimmed(content@))
        } else {
            None
        },
        None => None,
    }
}

/// The text of an optional string.
pub open spec fn optional_view(text: Option<String>) -> Option<Seq<char>> {
    match text {
        Some(t) => Some(t@),
        None => None,
    }
}

/// What is known of the writer of the journal: the templates, the profile,
/// the style, the rolling status and the holidays.
#[derive(Debug, Clone)]
pub struct PersonalizationConfig {
    pub prompts: PromptsConfig,
    pub profile: Option<String>,
    pub style: Option<String>,
    pub status: Option<String>,
    pub holidays: Vec<Holiday>,
    pub journal_dir: String,
}

impl PersonalizationConfig {
    /// The context that a prompt is generated from.
    pub open spec fn spec_enrich_context(&self, base_context: Seq<char>, today: int) -> Seq<char> {
        spec_temporal_context(self.holidays@, today) + context_block(
            "USER PROFILE:\n"@,
            self.profile,
        ) + context_block("COMMUNICATION STYLE:\n"@, self.style) + context_block(
            "CURRENT STATUS:\n"@,
            self.status,
        ) + "JOURNAL CONTEXT:\n"@ + base_context
    }

    /// Makes the configuration from what the files of the journal directory
    /// hold; for each file `None` says that it could not be read.
    ///
    /// Profile and style fall back on their default texts, the status on
    /// none, and the holidays on the default holiday list.
    pub fn load(
        journal_dir: &str,
        prompts: PromptsConfig,
        profile: Option<&str>,
        style: Option<&str>,
        status: Option<&str>,
        holidays: Option<&str>,
    ) -> (r: PersonalizationConfig)
        ensures
            r.prompts == prompts,
            r.journal_dir@ == journal_dir@,
            optional_view(r.profile) == Some(text_or_default(profile, DEFAULT_PROFILE@)),
            optional_view(r.style) == Some(text_or_default(style, DEFAULT_STYLE@)),
            optional_view(r.status) == text_if_any(status),
            holiday_views(r.holidays@) == spec_parse_holidays(
                match holidays {
                    Some(content) => content@,
                    None => DEFAULT_HOLIDAYS@,
                },
            ),
    {
        let profile_text = Self::load_text_file(profile, Self::default_profile_content());
        let style_text = Self::load_text_file(style, Self::default_style_content());
        let status_text = Self::load_text_file_optional(status);
        let holiday_list = Self::load_holidays(holidays);
        PersonalizationConfig {
            prompts,
            profile: profile_text,
            style: style_text,
            status: status_text,
            holidays: holiday_list,
            journal_dir: journal_dir.to_owned(),
        }
    }

    /// The text of a file that must have one.
    pub fn load_text_file(read: Option<&str>, default_content: String) -> (r: Option<String>)
        ensures
            optional_view(r) == Some(text_or_default(read, default_content@)),
    {
        match read {
            Some(content) => {
                let text = trim(&chars_of(content));
                if text.len() == 0 {
                    Some(default_content)
                } else {
                    Some(string_of(&text))
                }
            },
            None => Some(default_content),
        }
    }

    /// The text of a file that need not be there.
    pub fn load_text_file_optional(read: Option<&str>) -> (r: Option<String>)
        ensures
            optional_view(r) == text_if_any(read),
    {
        match read {
            Some(content) => {
                let text = trim(&chars_of(content));
                if text.len() == 0 {
                    None
                } else {
                    Some(string_of(&text))
                }
            },
            None => None,
        }
    }

    /// The holidays of the holiday list that was read, or of the default
    /// list.
    pub fn load_holidays(read: Option<&str>) -> (r: Vec<Holiday>)
        ensures
            holiday_views(r@) == spec_parse_holidays(
                match read {
                    Some(content) => content@,
                    None => DEFAULT_HOLIDAYS@,
                },
            ),
    {
        match read {
            Some(content) => Self::parse_holidays(content),
            None => Self::parse_holidays(DEFAULT_HOLIDAYS),
        }
    }

    /// The holidays that a holiday list names, in the order of its lines.
    pub fn parse_holidays(content: &str) -> (r: Vec<Holiday>)
        ensures
            holiday_views(r@) == spec_parse_holidays(content@),
    {
        let chars = chars_of(content);
        let lines = split(&chars, '\n');
        let ghost line_views = split_on(content@, '\n');
        let mut holidays: Vec<Holiday> = Vec::new();
        let mut i: usize = 0;
        while i < lines.len()
            invariant
                i <= lines.len(),
                views_of(lines@) == line_views,
                holiday_views(holidays@) == spec_parse_lines(line_views, i as int),
            decreases lines.len() - i,
        {
            let ghost before = holiday_views(holidays@);
            proof {
                assert(views_of(lines@)[i as int] == lines@[i as int]@);
            }
            match parse_holiday_line(&lines[i]) {
                Some(holiday) => {
                    let ghost view = holiday@;
                    holidays.push(holiday);
                    proof {
                        assert(holiday_views(holidays@) =~= before.push(view));
                    }
                },
                None => {},
            }
            i += 1;
        }
        proof {
            assert(views_of(lines@).len() == lines@.len());
        }
        holidays
    }

    /// The number of days from a day to the next day that a holiday names,
    /// or `None` where it names no day to come.
    pub fn days_until_holiday(holiday: &Holiday, from_date: &RealDate) -> (r: Option<i64>)
        ensures
            r is Some <==> spec_days_until(holiday.date@, from_date@) is Some,
            r is Some ==> r->0 as int == spec_days_until(holiday.date@, from_date@)->0,
            r is Some ==> 0 <= r->0,
    {
        let date = chars_of(holiday.date.as_str());
        let bytes = byte_len_of(holiday.date.as_str());
        let mut dash: Vec<char> = Vec::new();
        dash.push(DATE_SEPARATOR);
        assert(dash@ =~= one_char(DATE_SEPARATOR));
        if bytes == 5 && contains(&date, &dash) {
            let parts = split(&date, DATE_SEPARATOR);
            proof {
                assert(views_of(parts@).len() == parts@.len());
                assert forall|i: int| 0 <= i < parts@.len() implies (#[trigger] parts@[i])@
                    == split_on(date@, DATE_SEPARATOR)[i] by {
                    assert(views_of(parts@)[i] == parts@[i]@);
                }
            }
            if parts.len() != 2 {
                return None;
            }
            let month = parse_u32(&parts[0]);
            let day = parse_u32(&parts[1]);
            if month.is_none() || day.is_none() {
                return None;
            }
            let year = from_date.year();
            match RealDate::from_ymd(year, month.unwrap(), day.unwrap()) {
                Some(this_year) => {
                    let ahead = this_year.days_since(from_date);
                    if ahead >= 0 {
                        return Some(ahead);
                    }
                },
                None => {},
            }
            match RealDate::from_ymd(year + 1, month.unwrap(), day.unwrap()) {
                Some(next_year) => {
                    let ahead = next_year.days_since(from_date);
                    if ahead >= 0 {
                        Some(ahead)
                    } else {
                        None
                    }
                },
                None => None,
            }
        } else if bytes == 10 {
            let parts = split(&date, DATE_SEPARATOR);
            proof {
                assert(views_of(parts@).len() == parts@.len());
            }
            if parts.len() != 3 {
                return None;
            }
            match RealDate::parse_iso(holiday.date.as_str()) {
                Some(named) => {
                    let ahead = named.days_since(from_date);
                    if ahead >= 0 {
                        Some(ahead)
                    } else {
                        None
                    }
                },
                None => None,
            }
        } else {
            None
        }
    }

    /// For each holiday, the number of days until it.
    pub fn days_until_holidays(&self, today: &RealDate) -> (r: Vec<Option<i64>>)
        ensures
            int_days(r@) == spec_days_list(self.holidays@, today@),
            r@.len() == self.holidays@.len(),
            forall|i: int| 0 <= i < r@.len() && (#[trigger] r@[i]) is Some ==> 0 <= r@[i]->0,
    {
        let mut days: Vec<Option<i64>> = Vec::new();
        let mut i: usize = 0;
        while i < self.holidays.len()
            invariant
                i <= self.holidays.len(),
                days@.len() == i,
                forall|k: int|
                    0 <= k < i ==> #[trigger] int_days(days@)[k] == spec_days_until(
                        self.holidays@[k].date@,
                        today@,
                    ),
                forall|k: int| 0 <= k < i && (#[trigger] days@[k]) is Some ==> 0 <= days@[k]->0,
            decreases self.holidays.len() - i,
        {
            let until = Self::days_until_holiday(&self.holidays[i], today);
            let ghost before = days@;
            days.push(until);
            proof {
                assert forall|k: int| 0 <= k <= i implies #[trigger] int_days(days@)[k]
                    == spec_days_until(self.holidays@[k].date@, today@) by {
                    if k < i {
                        assert(days@[k] == before[k]);
                        assert(int_days(before)[k] == int_days(days@)[k]);
                    }
                }
            }
            i += 1;
        }
        proof {
            assert(int_days(days@) =~= spec_days_list(self.holidays@, today@));
        }
        days
    }

    /// The holidays that are at most 30 days away from a day, the nearest
    /// first; of two that are equally near, the one that stands first in the
    /// list.
    pub fn get_upcoming_holidays(&self, today: &RealDate) -> (r: Vec<&Holiday>)
        ensures
            r@.len() == spec_upcoming(
                spec_days_list(self.holidays@, today@),
                self.holidays@.len() as int,
            ).len(),
            forall|k: int|
                0 <= k < r@.len() ==> *(#[trigger] r@[k]) == self.holidays@[spec_upcoming(
                    spec_days_list(self.holidays@, today@),
                    self.holidays@.len() as int,
                )[k]],
            r@.len() <= self.holidays@.len(),
    {
        let days = self.days_until_holidays(today);
        let places = upcoming_places(&days);
        let ghost chosen = spec_upcoming(
            spec_days_list(self.holidays@, today@),
            self.holidays@.len() as int,
        );
        proof {
            lemma_upcoming(spec_days_list(self.holidays@, today@), self.holidays@.len() as int);
            assert(int_places(places@).len() == places@.len());
        }
        let mut upcoming: Vec<&Holiday> = Vec::new();
        let mut k: usize = 0;
        while k < places.len()
            invariant
                k <= places.len(),
                int_places(places@) == chosen,
                forall|j: int| 0 <= j < places@.len() ==> (#[trigger] places@[j]) < self.holidays@.len(),
                upcoming@.len() == k,
                forall|j: int| 0 <= j < k ==> *(#[trigger] upcoming@[j]) == self.holidays@[chosen[j]],
            decreases places.len() - k,
        {
            proof {
                assert(int_places(places@)[k as int] == places@[k as int]);
            }
            upcoming.push(&self.holidays[places[k]]);
            k += 1;
        }
        upcoming
    }

    /// The part of the context that tells the date and names up to five
    /// upcoming holidays.
    pub fn get_temporal_context(&self, today: &RealDate) -> (r: String)
        ensures
            r@ == spec_temporal_context(self.holidays@, today@),
    {
        let days = self.days_until_holidays(today);
        let places = upcoming_places(&days);
        let ghost all = spec_days_list(self.holidays@, today@);
        let ghost chosen = spec_upcoming(all, self.holidays@.len() as int);
        proof {
            lemma_upcoming(all, self.holidays@.len() as int);
            assert(int_places(places@).len() == places@.len());
        }
        let mut out: Vec<char> = Vec::new();
        push_str(&mut out, "CURRENT DATE: ");
        let date_text = today.long_text();
        push_str(&mut out, date_text.as_str());
        push_str(&mut out, "\n\n");
        let ghost date_part = out@;
        assert(date_part =~= "CURRENT DATE: "@ + long_date_text(today@) + "\n\n"@);
        if places.len() > 0 {
            push_str(&mut out, "UPCOMING EVENTS (next 30 days):\n");
            let listed: usize = if places.len() < MAX_LISTED_HOLIDAYS {
                places.len()
            } else {
                MAX_LISTED_HOLIDAYS
            };
            let ghost head = out@;
            let mut k: usize = 0;
            while k < listed
                invariant
                    k <= listed <= places.len(),
                    int_places(places@) == chosen,
                    int_days(days@) == all,
                    days@.len() == self.holidays@.len(),
                    forall|j: int| 0 <= j < places@.len() ==> (#[trigger] places@[j]) < days@.len(),
                    forall|j: int| 0 <= j < chosen.len() ==> is_upcoming(all[#[trigger] chosen[j]]),
                    forall|i: int| 0 <= i < days@.len() && (#[trigger] days@[i]) is Some ==> 0 <= days@[i]->0,
                    out@ == head + holiday_lines(self.holidays@, chosen, all, k as int),
                decreases listed - k,
            {
                let place = places[k];
                let ghost before = out@;
                proof {
                    assert(int_places(places@)[k as int] == place);
                    assert(is_upcoming(all[chosen[k as int]]));
                    assert(int_days(days@)[place as int] == all[place as int]);
                }
                let until = days_at(&days, place);
                push_holiday_line(&mut out, &self.holidays[place], until);
                proof {
                    assert(out@ == before + holiday_line(self.holidays@[place as int]@, until as int));
                    assert(holiday_lines(self.holidays@, chosen, all, k as int + 1) == holiday_lines(
                        self.holidays@,
                        chosen,
                        all,
                        k as int,
                    ) + holiday_line(self.holidays@[chosen[k as int]]@, all[chosen[k as int]]->0));
                    assert(out@ =~= head + holiday_lines(self.holidays@, chosen, all, k as int + 1));
                }
                k += 1;
            }
            push_str(&mut out, "\n");
            proof {
                assert(out@ =~= spec_temporal_context(self.holidays@, today@));
            }
        }
        string_of(&out)
    }

    /// The context that a prompt is generated from: the date and the
    /// upcoming holidays, then the profile, the style and the status as far as
    /// each holds more than white space, then the journal context.
    pub fn enrich_context(&self, base_context: &str, today: &RealDate) -> (r: String)
        ensures
            r@ == self.spec_enrich_context(base_context@, today@),
    {
        let mut out: Vec<char> = Vec::new();
        let temporal = self.get_temporal_context(today);
        push_str(&mut out, temporal.as_str());
        push_block(&mut out, "USER PROFILE:\n", &self.profile);
        push_block(&mut out, "COMMUNICATION STYLE:\n", &self.style);
        push_block(&mut out, "CURRENT STATUS:\n", &self.status);
        push_str(&mut out, "JOURNAL CONTEXT:\n");
        push_str(&mut out, base_context);
        assert(out@ =~= self.spec_enrich_context(base_context@, today@));
        string_of(&out)
    }

    /// Takes over a new status once it has been written to the store, and
    /// keeps the old one where the store failed.
    pub fn update_status(&mut self, new_status: String, persisted: bool) -> (r: Result<
        (),
        JournalError,
    >)
        ensures
            persisted ==> r is Ok && final(self).status == Some(new_status),
            !persisted ==> r == Err::<(), JournalError>(JournalError::StoreUnavailable),
            !persisted ==> final(self).status == old(self).status,
            final(self).prompts == old(self).prompts,
            final(self).profile == old(self).profile,
            final(self).style == old(self).style,
            final(self).holidays == old(self).holidays,
            final(self).journal_dir == old(self).journal_dir,
    {
        if !persisted {
            return Err(JournalError::StoreUnavailable);
        }
        self.status = Some(new_status);
        Ok(())
    }

    /// The rolling status, or the text that stands in for one that was
    /// never recorded. It is read before the backend is asked for a new one.
    pub fn get_current_status(&self) -> (r: String)
        ensures
            r@ == match self.status {
                Some(text) => text@,
                None => NO_STATUS_TEXT@,
            },
    {
        match &self.status {
            Some(text) => text.clone(),
            None => NO_STATUS_TEXT.to_owned(),
        }
    }

    /// The rolling status as it was recorded, if one was.
    pub fn recorded_status(&self) -> (r: Option<&String>)
        ensures
            r is Some <==> self.status is Some,
            r is Some ==> *r->0 == self.status->0,
    {
        self.status.as_ref()
    }

    /// The file in the journal directory that holds the rolling status.
    pub fn status_path(&self) -> (r: String)
        ensures
            r@ == crate::journal::path_joined(self.journal_dir@, crate::journal::STATUS_FILE@),
    {
        let dir = chars_of(self.journal_dir.as_str());
        let file = chars_of(crate::journal::STATUS_FILE);
        string_of(&crate::journal::join_path(&dir, &file))
    }

    /// The profile that is used until the writer has written one.
    pub fn default_profile_content() -> (r: String)
        ensures
            r@ == DEFAULT_PROFILE@,
    {
        DEFAULT_PROFILE.to_owned()
    }

    /// The style that is used until the writer has written one.
    pub fn default_style_content() -> (r: String)
        ensures
            r@ == DEFAULT_STYLE@,
    {
        DEFAULT_STYLE.to_owned()
    }

    /// The holiday list that is used until the writer has written one: it
    /// explains the form of a list and names no holiday.
    pub fn default_holidays_content() -> (r: String)
        ensures
            r@ == DEFAULT_HOLIDAYS@,
    {
        DEFAULT_HOLIDAYS.to_owned()
    }
}

/// Appends how far away a day is, in words.
fn push_day_text(out: &mut Vec<char>, until: i64)
    requires
        0 <= until,
    ensures
        final(out)@ == old(out)@ + day_text(until as int),
{
    if until == 0 {
        push_str(out, "TODAY");
    } else if until == 1 {
        push_str(out, "tomorrow");
    } else {
        let mut words: Vec<char> = Vec::new();
        push_str(&mut words, "in ");
        push_decimal(&mut words, until as u64);
        push_str(&mut words, " days");
        assert(words@ =~= day_text(until as int));
        push_chars(out, &words);
    }
}

/// Appends what follows a holiday's category in its line.
fn push_description(out: &mut Vec<char>, description: &Option<String>)
    ensures
        final(out)@ == old(out)@ + description_text(optional_view(*description)),
{
    match description {
        Some(text) => {
            let mut words: Vec<char> = Vec::new();
            push_str(&mut words, "- ");
            push_str(&mut words, text.as_str());
            assert(words@ =~= description_text(optional_view(*description)));
            push_chars(out, &words);
        },
        None => {
            assert(out@ =~= old(out)@ + description_text(optional_view(*description)));
        },
    }
}

/// Appends the line that names an upcoming holiday.
fn push_holiday_line(out: &mut Vec<char>, holiday: &Holiday, until: i64)
    requires
        0 <= until,
    ensures
        final(out)@ == old(out)@ + holiday_line(holiday@, until as int),
{
    let mut line: Vec<char> = Vec::new();
    push_str(&mut line, "- ");
    push_str(&mut line, holiday.name.as_str());
    push_str(&mut line, " (");
    push_day_text(&mut line, until);
    push_str(&mut line, "): ");
    push_str(&mut line, holiday.category.as_str());
    push_str(&mut line, " ");
    push_description(&mut line, &holiday.description);
    push_str(&mut line, "\n");
    assert(line@ =~= holiday_line(holiday@, until as int));
    push_chars(out, &line);
}

/// Appends a text under a title, and a blank line, unless there is no text
/// or only white space.
fn push_block(out: &mut Vec<char>, title: &str, text: &Option<String>)
    ensures
        final(out)@ == old(out)@ + context_block(title@, *text),
{
    match text {
        Some(t) => {
            let chars = chars_of(t.as_str());
            if trim(&chars).len() > 0 {
                push_str(out, title);
                push_chars(out, &chars);
                push_str(out, "\n\n");
                assert(out@ =~= old(out)@ + context_block(title@, *text));
            } else {
                assert(out@ =~= old(out)@ + context_block(title@, *text));
            }
        },
        None => {
            assert(out@ =~= old(out)@ + context_block(title@, *text));
        },
    }
}

/// The profile that is used until the writer has written one.
pub const DEFAULT_PROFILE: &'static str =
    r#"This file contains static information about you that will be included as context in all journal prompts.

Edit this file to include personal details that will help the AI generate more relevant and personalized prompts. This context will be included in every prompt generation, so keep it focused on information that's consistently relevant to your journaling.

Examples of what to include:
- Your general life situation (occupation, family status, living situation)
- Core values and beliefs that influence your daily life
- Long-term goals or projects you're working on
- Significant relationships and their importance to you
- Personal interests, hobbies, or passions
- Health conditions or lifestyle factors that affect your daily experience
- Spiritual or philosophical practices you engage in

Keep this information current but avoid including temporary situations that change frequently - those belong in status.txt instead.

Example profile:
---
I'm a software developer in my early 30s, living in Seattle with my partner and our dog. I value work-life balance and am passionate about sustainable living. Currently working on launching a side project while maintaining my full-time job. I practice meditation daily and enjoy hiking on weekends. Building stronger connections with family is important to me this year."#;

/// The style that is used until the writer has written one.
pub const DEFAULT_STYLE: &'static str =
    r#"This file defines how the AI should communicate when generating journal prompts and responses.

Edit this file to customize the AI's personality, tone, and approach to match your preferences. This will influence how all prompts are written and the overall feeling of your journaling experience.

Examples of what to include:
- Preferred communication tone (formal, casual, encouraging, direct, etc.)
- Specific words or phrases you like or dislike
- Cultural or philosophical perspective you want reflected
- Level of challenge vs. comfort in prompts
- Preferred prompt length and structure
- Any specific therapeutic or self-development approaches you prefer

Example style guide:
---
Please communicate in a warm, encouraging tone that balances gentle support with thoughtful challenge. I prefer prompts that are introspective but not overly serious - include moments of lightness and curiosity. Use language that feels like a wise, supportive friend rather than a clinical therapist. Keep prompts concise but meaningful, typically 2-3 sentences. I appreciate metaphors from nature and gentle humor when appropriate. Avoid overly abstract language and focus on practical, actionable reflection."#;

/// The holiday list that is used until the writer has written one.
pub const DEFAULT_HOLIDAYS: &'static str =
    r#"# This file contains important dates that will influence your journal prompts
# Format: DATE|CATEGORY|NAME|DESCRIPTION (description is optional)
# DATE formats:
#   - MM-DD for recurring annual events (e.g., 12-25 for Christmas)
#   - YYYY-MM-DD for specific one-time dates
#   - MM for monthly recurring (e.g., first Monday, seasonal changes)"#;

} // verus!
