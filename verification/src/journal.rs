use crate::cycle_date::{decode, lemma_days_back, CycleDate};
use crate::text::{chars_of, decimal, push_chars, push_decimal, push_str, string_of};
use vstd::prelude::*;

verus! {

/// The kinds of prompt, one for each role that a date can have in the cycle.
#[derive(Debug, Clone, Copy, PartialEq, Eq, Hash, Structural)]
pub enum PromptType {
    /// For an ordinary day: built on the summaries of the seven days before.
    Daily,
    /// For the first day of a week: built on the entries of the seven days
    /// before.
    WeeklyReflection,
    /// For the first day of a month: built on the weekly reflections of the
    /// month before.
    MonthlyReflection,
    /// For the first day of a year: built on the monthly reflections of the
    /// year before.
    YearlyReflection,
}

impl PromptType {
    /// The kind of prompt that a date gets: the highest role of the date
    /// decides.
    pub open spec fn spec_for_date(date: CycleDate) -> PromptType {
        if date.spec_is_first_day_of_year() {
            PromptType::YearlyReflection
        } else if date.spec_is_first_day_of_month() {
            PromptType::MonthlyReflection
        } else if date.spec_is_first_day_of_week() {
            PromptType::WeeklyReflection
        } else {
            PromptType::Daily
        }
    }

    /// The kind of prompt that a date gets.
    pub fn for_date(date: &CycleDate) -> (r: PromptType)
        ensures
            r == PromptType::spec_for_date(*date),
    {
        if date.is_first_day_of_year() {
            PromptType::YearlyReflection
        } else if date.is_first_day_of_month() {
            PromptType::MonthlyReflection
        } else if date.is_first_day_of_week() {
            PromptType::WeeklyReflection
        } else {
            PromptType::Daily
        }
    }

    /// The kind's name in words.
    pub open spec fn spec_label(&self) -> Seq<char> {
        match self {
            PromptType::Daily => "Daily"@,
            PromptType::WeeklyReflection => "Weekly Reflection"@,
            PromptType::MonthlyReflection => "Monthly Reflection"@,
            PromptType::YearlyReflection => "Yearly Reflection"@,
        }
    }

    /// The kind's name in words.
    pub fn label(&self) -> (r: String)
        ensures
            r@ == self.spec_label(),
    {
        match self {
            PromptType::Daily => "Daily".to_owned(),
            PromptType::WeeklyReflection => "Weekly Reflection".to_owned(),
            PromptType::MonthlyReflection => "Monthly Reflection".to_owned(),
            PromptType::YearlyReflection => "Yearly Reflection".to_owned(),
        }
    }
}


/// The name of the file that holds a day's entry.
pub const ENTRY_FILE: &'static str = "entry.txt";

/// The name of the file that holds a day's summary.
pub const SUMMARY_FILE: &'static str = "summary.txt";

/// The name of the file that holds the status written on a day.
pub const STATUS_FILE: &'static str = "status.txt";

/// The start of the name of the file that holds a prompt; the prompt's
/// number follows.
pub const PROMPT_FILE_STEM: &'static str = "prompt";

/// The end of the name of the file that holds a prompt.
pub const PROMPT_FILE_SUFFIX: &'static str = ".txt";

/// A path with one more component: the separator `/` stands between the
/// two unless the path is empty or ends with it.
pub open spec fn path_joined(base: Seq<char>, child: Seq<char>) -> Seq<char> {
    if base.len() == 0 {
        child
    } else if base[base.len() - 1] == '/' {
        base + child
    } else {
        base.push('/') + child
    }
}

/// The name of the file that holds the prompt with the given number.
pub open spec fn prompt_file_name(number: u8) -> Seq<char> {
    PROMPT_FILE_STEM@ + decimal(number as nat) + PROMPT_FILE_SUFFIX@
}

/// A path with one more component.
pub(crate) fn join_path(base: &Vec<char>, child: &Vec<char>) -> (r: Vec<char>)
    ensures
        r@ == path_joined(base@, child@),
{
    let mut out: Vec<char> = Vec::new();
    push_chars(&mut out, base);
    if base.len() > 0 && base[base.len() - 1] != '/' {
        out.push('/');
    }
    push_chars(&mut out, child);
    assert(out@ =~= path_joined(base@, child@));
    out
}

/// Where the artifacts of one day are kept.
#[derive(Debug, Clone)]
pub struct JournalFilePaths {
    pub entry: String,
    pub summary: String,
    pub status: String,
    pub prompt1: String,
    pub prompt2: String,
    pub prompt3: String,
}

/// Knows where in the journal directory each day's artifacts are kept: one
/// directory for each day, named by the day's code.
#[derive(Debug, Clone)]
pub struct JournalManager {
    base_path: String,
}

impl JournalManager {
    /// The journal directory.
    pub closed spec fn spec_base_path(&self) -> Seq<char> {
        self.base_path@
    }

    /// The directory of a day.
    pub open spec fn spec_date_dir(&self, date: CycleDate) -> Seq<char> {
        path_joined(self.spec_base_path(), date.encode())
    }

    /// The file of a day's artifact with the given file name.
    pub open spec fn spec_file(&self, date: CycleDate, name: Seq<char>) -> Seq<char> {
        path_joined(self.spec_date_dir(date), name)
    }

    /// The manager of the journal kept in the given directory.
    pub fn new(base_path: &str) -> (r: JournalManager)
        ensures
            r.spec_base_path() == base_path@,
    {
        JournalManager { base_path: base_path.to_owned() }
    }

    /// The journal directory.
    pub fn base_path(&self) -> (r: String)
        ensures
            r@ == self.spec_base_path(),
    {
        self.base_path.clone()
    }

    /// The directory of a day.
    pub fn date_dir(&self, cycle_date: &CycleDate) -> (r: String)
        ensures
            r@ == self.spec_date_dir(*cycle_date),
    {
        let base = chars_of(self.base_path.as_str());
        let code = cycle_date.to_string();
        let child = chars_of(code.as_str());
        string_of(&join_path(&base, &child))
    }

    fn file_in(&self, cycle_date: &CycleDate, name: &str) -> (r: String)
        ensures
            r@ == self.spec_file(*cycle_date, name@),
    {
        let dir = self.date_dir(cycle_date);
        let dir_chars = chars_of(dir.as_str());
        let name_chars = chars_of(name);
        string_of(&join_path(&dir_chars, &name_chars))
    }

    /// The files of a day's entry, summary, status and first three prompts.
    pub fn get_file_paths(&self, cycle_date: &CycleDate) -> (r: JournalFilePaths)
        ensures
            r.entry@ == self.spec_file(*cycle_date, ENTRY_FILE@),
            r.summary@ == self.spec_file(*cycle_date, SUMMARY_FILE@),
            r.status@ == self.spec_file(*cycle_date, STATUS_FILE@),
            r.prompt1@ == self.spec_file(*cycle_date, prompt_file_name(1)),
            r.prompt2@ == self.spec_file(*cycle_date, prompt_file_name(2)),
            r.prompt3@ == self.spec_file(*cycle_date, prompt_file_name(3)),
    {
        let prompt1 = self.prompt_path(cycle_date, 1);
        let prompt2 = self.prompt_path(cycle_date, 2);
        let prompt3 = self.prompt_path(cycle_date, 3);
        JournalFilePaths {
            entry: self.file_in(cycle_date, ENTRY_FILE),
            summary: self.file_in(cycle_date, SUMMARY_FILE),
            status: self.file_in(cycle_date, STATUS_FILE),
            prompt1: prompt1.unwrap(),
            prompt2: prompt2.unwrap(),
            prompt3: prompt3.unwrap(),
        }
    }

    /// The file of the prompt with the given number of a day. Prompts are
    /// numbered from 1: there is no file for the number 0.
    pub fn prompt_path(&self, cycle_date: &CycleDate, prompt_number: u8) -> (r: Option<String>)
        ensures
            prompt_number == 0 ==> r is None,
            prompt_number != 0 ==> r is Some && r->0@ == self.spec_file(
                *cycle_date,
                prompt_file_name(prompt_number),
            ),
    {
        if prompt_number == 0 {
            return None;
        }
        let mut name: Vec<char> = Vec::new();
        push_str(&mut name, PROMPT_FILE_STEM);
        push_decimal(&mut name, prompt_number as u64);
        push_str(&mut name, PROMPT_FILE_SUFFIX);
        assert(name@ =~= prompt_file_name(prompt_number));
        let dir = self.date_dir(cycle_date);
        let dir_chars = chars_of(dir.as_str());
        Some(string_of(&join_path(&dir_chars, &name)))
    }
}

/// Which artifact of a day history is read from.
#[derive(Debug, Clone, Copy, PartialEq, Eq, Hash, Structural)]
pub enum ContextSource {
    /// The day's entry, as it was written.
    Entry,
    /// The summary that was made of the day's entry.
    Summary,
}

/// Under which heading a piece of history enters the context.
#[derive(Debug, Clone, Copy, PartialEq, Eq, Hash, Structural)]
pub enum ContextLabel {
    /// `Month N reflection:`, with the month of the day it was read from.
    Month,
    /// `Week N reflection:`, with the week of the day it was read from.
    Week,
    /// `Day CODE:`, with the code of the day it was read from.
    Day,
}

/// One piece of history that the context of a prompt asks for.
#[derive(Debug, Clone, Copy, PartialEq, Eq, Hash, Structural)]
pub struct ContextRequest {
    pub date: CycleDate,
    pub source: ContextSource,
    pub label: ContextLabel,
}

/// The year of the cycle before a year; before year 0 comes year 99.
pub open spec fn year_before(year_cycle: u8) -> u8 {
    if year_cycle > 0 {
        (year_cycle - 1) as u8
    } else {
        99
    }
}

/// The first day of the given week of the month before the month of a
/// date; before month 0 comes month 12 of the year before.
pub open spec fn week_of_month_before(date: CycleDate, week: int) -> CycleDate {
    if date.month > 0 {
        CycleDate {
            year_cycle: date.year_cycle,
            month: (date.month - 1) as u8,
            week: week as u8,
            day: 0,
        }
    } else {
        CycleDate { year_cycle: year_before(date.year_cycle), month: 12, week: week as u8, day: 0 }
    }
}

/// The first day of the given month of the year before the year of a date.
pub open spec fn month_of_year_before(date: CycleDate, month: int) -> CycleDate {
    CycleDate { year_cycle: year_before(date.year_cycle), month: month as u8, week: 0, day: 0 }
}

/// The pieces of history that the context of a prompt for a date asks for,
/// the oldest first.
///
/// For the first day of a year: the entries of the first day of each of the
/// 13 months of the year before. For the first day of a month: the entries of
/// the first day of each of the 4 weeks of the month before. For the first day
/// of a week: the entries of the seven days that end with the date. For
/// another day: the summaries of those seven days.
pub open spec fn spec_context_requests(date: CycleDate) -> Seq<ContextRequest> {
    if date.spec_is_first_day_of_year() {
        Seq::new(
            13,
            |month: int|
                ContextRequest {
                    date: month_of_year_before(date, month),
                    source: ContextSource::Entry,
                    label: ContextLabel::Month,
                },
        )
    } else if date.spec_is_first_day_of_month() {
        Seq::new(
            4,
            |week: int|
                ContextRequest {
                    date: week_of_month_before(date, week),
                    source: ContextSource::Entry,
                    label: ContextLabel::Week,
                },
        )
    } else if date.spec_is_first_day_of_week() {
        Seq::new(
            7,
            |i: int|
                ContextRequest {
                    date: date.spec_days_back(6 - i),
                    source: ContextSource::Entry,
                    label: ContextLabel::Day,
                },
        )
    } else {
        Seq::new(
            7,
            |i: int|
                ContextRequest {
                    date: date.spec_days_back(6 - i),
                    source: ContextSource::Summary,
                    label: ContextLabel::Day,
                },
        )
    }
}

/// The pieces of history that the context of a prompt for a date asks for,
/// the oldest first.
pub fn context_requests(cycle_date: &CycleDate) -> (r: Vec<ContextRequest>)
    requires
        cycle_date.wf(),
    ensures
        r@ == spec_context_requests(*cycle_date),
        r@.len() <= 13,
        forall|i: int| 0 <= i < r@.len() ==> (#[trigger] r@[i]).date.wf(),
{
    let mut requests: Vec<ContextRequest> = Vec::new();
    let year_before: u8 = if cycle_date.year_cycle > 0 {
        cycle_date.year_cycle - 1
    } else {
        99
    };
    if cycle_date.is_first_day_of_year() {
        let mut month: u8 = 0;
        while month < 13
            invariant
                month <= 13,
                year_before <= 99,
                year_before == self::year_before(cycle_date.year_cycle),
                requests@.len() == month,
                forall|i: int|
                    0 <= i < month ==> #[trigger] requests@[i] == (ContextRequest {
                        date: month_of_year_before(*cycle_date, i),
                        source: ContextSource::Entry,
                        label: ContextLabel::Month,
                    }),
            decreases 13 - month,
        {
            requests.push(
                ContextRequest {
                    date: CycleDate { year_cycle: year_before, month, week: 0, day: 0 },
                    source: ContextSource::Entry,
                    label: ContextLabel::Month,
                },
            );
            month += 1;
        }
        assert(requests@ =~= spec_context_requests(*cycle_date));
    } else if cycle_date.is_first_day_of_month() {
        let (past_year, past_month): (u8, u8) = if cycle_date.month > 0 {
            (cycle_date.year_cycle, cycle_date.month - 1)
        } else {
            (year_before, 12)
        };
        let mut week: u8 = 0;
        while week < 4
            invariant
                week <= 4,
                cycle_date.wf(),
                past_year <= 99,
                past_month <= 12,
                forall|w: int|
                    0 <= w < 4 ==> week_of_month_before(*cycle_date, w) == (CycleDate {
                        year_cycle: past_year,
                        month: past_month,
                        week: w as u8,
                        day: 0,
                    }),
                requests@.len() == week,
                forall|i: int|
                    0 <= i < week ==> #[trigger] requests@[i] == (ContextRequest {
                        date: week_of_month_before(*cycle_date, i),
                        source: ContextSource::Entry,
                        label: ContextLabel::Week,
                    }),
            decreases 4 - week,
        {
            requests.push(
                ContextRequest {
                    date: CycleDate { year_cycle: past_year, month: past_month, week, day: 0 },
                    source: ContextSource::Entry,
                    label: ContextLabel::Week,
                },
            );
            week += 1;
        }
        assert(requests@ =~= spec_context_requests(*cycle_date));
    } else {
        let source = if cycle_date.is_first_day_of_week() {
            ContextSource::Entry
        } else {
            ContextSource::Summary
        };
        let past_week = cycle_date.previous_week();
        let mut i: usize = 0;
        while i < 7
            invariant
                i <= 7,
                past_week@.len() == 7,
                forall|k: int| 0 <= k < 7 ==> #[trigger] past_week@[k] == cycle_date.spec_days_back(6 - k),
                forall|k: int| 0 <= k < 7 ==> (#[trigger] past_week@[k]).wf(),
                requests@.len() == i,
                forall|k: int|
                    0 <= k < i ==> #[trigger] requests@[k] == (ContextRequest {
                        date: cycle_date.spec_days_back(6 - k),
                        source,
                        label: ContextLabel::Day,
                    }),
            decreases 7 - i,
        {
            requests.push(
                ContextRequest { date: past_week[i], source, label: ContextLabel::Day },
            );
            i += 1;
        }
        assert(requests@ =~= spec_context_requests(*cycle_date));
        assert forall|k: int| 0 <= k < requests@.len() implies (#[trigger] requests@[k]).date.wf() by {
            assert(requests@[k].date == past_week@[k]);
        }
    }
    requests
}

/// The piece of context that is made of a text that was found for a
/// request: the heading of the request, then the text.
pub open spec fn spec_context_fragment(request: ContextRequest, text: Seq<char>) -> Seq<char> {
    match request.label {
        ContextLabel::Month => "Month "@ + decimal(request.date.month as nat) + " reflection: "@
            + text,
        ContextLabel::Week => "Week "@ + decimal(request.date.week as nat) + " reflection: "@
            + text,
        ContextLabel::Day => "Day "@ + request.date.encode() + ": "@ + text,
    }
}

/// The piece of context that is made of a text that was found for a
/// request.
pub fn context_fragment(request: &ContextRequest, text: &str) -> (r: String)
    ensures
        r@ == spec_context_fragment(*request, text@),
{
    let mut out: Vec<char> = Vec::new();
    match request.label {
        ContextLabel::Month => {
            push_str(&mut out, "Month ");
            push_decimal(&mut out, request.date.month as u64);
            push_str(&mut out, " reflection: ");
        },
        ContextLabel::Week => {
            push_str(&mut out, "Week ");
            push_decimal(&mut out, request.date.week as u64);
            push_str(&mut out, " reflection: ");
        },
        ContextLabel::Day => {
            push_str(&mut out, "Day ");
            let code = request.date.to_string();
            push_str(&mut out, code.as_str());
            push_str(&mut out, ": ");
        },
    }
    push_str(&mut out, text);
    assert(out@ =~= spec_context_fragment(*request, text@));
    string_of(&out)
}

/// What was found for the request at a place: nothing where the list of
/// what was found is too short.
pub open spec fn found_at(found: Seq<Option<String>>, at: int) -> Option<Seq<char>> {
    if 0 <= at < found.len() {
        match found[at] {
            Some(text) => Some(text@),
            None => None,
        }
    } else {
        None
    }
}

/// The places, among the first `upto` requests, for which a text was found,
/// in rising order.
pub open spec fn kept_places(found: Seq<Option<String>>, upto: int) -> Seq<int>
    decreases upto,
{
    if upto <= 0 {
        Seq::<int>::empty()
    } else if found_at(found, upto - 1) is Some {
        kept_places(found, upto - 1).push(upto - 1)
    } else {
        kept_places(found, upto - 1)
    }
}

/// The context made of the first `upto` requests: one piece for each
/// request for which a text was found, in the order of the requests.
pub open spec fn spec_context(
    requests: Seq<ContextRequest>,
    found: Seq<Option<String>>,
    upto: int,
) -> Seq<Seq<char>>
    decreases upto,
{
    if upto <= 0 {
        Seq::<Seq<char>>::empty()
    } else {
        match found_at(found, upto - 1) {
            Some(text) => spec_context(requests, found, upto - 1).push(
                spec_context_fragment(requests[upto - 1], text),
            ),
            None => spec_context(requests, found, upto - 1),
        }
    }
}

/// The context of a prompt: for each request, in order, the piece made of
/// what was found for it. A request for which nothing was found leaves no
/// trace.
pub fn get_context_for_prompt(requests: &Vec<ContextRequest>, found: &Vec<Option<String>>) -> (r:
    Vec<String>)
    ensures
        crate::text::string_views_of(r@) == spec_context(requests@, found@, requests@.len() as int),
        r@.len() <= requests@.len(),
{
    let mut context: Vec<String> = Vec::new();
    let mut i: usize = 0;
    while i < requests.len()
        invariant
            i <= requests.len(),
            crate::text::string_views_of(context@) == spec_context(requests@, found@, i as int),
            context@.len() <= i,
        decreases requests.len() - i,
    {
        let ghost before = crate::text::string_views_of(context@);
        if i < found.len() {
            match &found[i] {
                Some(text) => {
                    let fragment = context_fragment(&requests[i], text.as_str());
                    context.push(fragment);
                    assert(crate::text::string_views_of(context@) =~= before.push(
                        spec_context_fragment(requests@[i as int], text@),
                    ));
                },
                None => {},
            }
        }
        i += 1;
    }
    context
}

/// The pieces of a context stand in the order of their requests: each
/// comes from a request of its own for which a text was found, and a later
/// piece comes from a later request.
pub proof fn lemma_context_follows_requests(
    requests: Seq<ContextRequest>,
    found: Seq<Option<String>>,
    upto: int,
)
    requires
        0 <= upto <= requests.len(),
    ensures
        spec_context(requests, found, upto).len() == kept_places(found, upto).len(),
        spec_context(requests, found, upto).len() <= upto,
        forall|j: int|
            0 <= j < kept_places(found, upto).len() ==> 0 <= (#[trigger] kept_places(
                found,
                upto,
            )[j]) < upto,
        forall|j: int|
            0 <= j < kept_places(found, upto).len() ==> found_at(
                found,
                #[trigger] kept_places(found, upto)[j],
            ) is Some,
        forall|j: int|
            0 <= j < kept_places(found, upto).len() ==> #[trigger] spec_context(
                requests,
                found,
                upto,
            )[j] == spec_context_fragment(
                requests[kept_places(found, upto)[j]],
                found_at(found, kept_places(found, upto)[j])->0,
            ),
        forall|j: int, k: int|
            0 <= j < k < kept_places(found, upto).len() ==> (#[trigger] kept_places(
                found,
                upto,
            )[j]) < (#[trigger] kept_places(found, upto)[k]),
    decreases upto,
{
    if upto > 0 {
        lemma_context_follows_requests(requests, found, upto - 1);
    }
}

/// The dates of the requests for a well-formed date are well formed and
/// never go back in time from one request to the next; for a date that
/// opens a week, or an ordinary day, there are seven of them.
pub proof fn lemma_requests_chronological(date: CycleDate)
    requires
        date.wf(),
    ensures
        forall|i: int|
            0 <= i < spec_context_requests(date).len() ==> (#[trigger] spec_context_requests(
                date,
            )[i]).date.wf(),
        forall|i: int, j: int|
            0 <= i <= j < spec_context_requests(date).len() ==> (#[trigger] spec_context_requests(
                date,
            )[i]).date.day_index() <= (#[trigger] spec_context_requests(date)[j]).date.day_index(),
        !date.spec_is_first_day_of_month() ==> spec_context_requests(date).len() == 7,
{
    let requests = spec_context_requests(date);
    if !date.spec_is_first_day_of_month() {
        assert forall|i: int| 0 <= i < requests.len() implies (#[trigger] requests[i]).date.wf() by {
            lemma_days_back(date, 6 - i);
        }
        assert forall|i: int, j: int| 0 <= i <= j < requests.len() implies (
        #[trigger] requests[i]).date.day_index() <= (#[trigger] requests[j]).date.day_index() by {
            lemma_days_back(date, 6 - i);
            lemma_days_back(date, 6 - j);
        }
    }
}

/// The context for a date that opens a week, whatever was found, has at
/// most seven pieces, and they stand in the order of the days they come from,
/// the oldest first.
pub proof fn lemma_weekly_context_ordered(date: CycleDate, found: Seq<Option<String>>)
    requires
        date.wf(),
        date.spec_is_first_day_of_week(),
        !date.spec_is_first_day_of_month(),
    ensures
        spec_context(spec_context_requests(date), found, 7).len() <= 7,
        spec_context(spec_context_requests(date), found, 7).len() == kept_places(found, 7).len(),
        forall|j: int|
            0 <= j < kept_places(found, 7).len() ==> #[trigger] spec_context(
                spec_context_requests(date),
                found,
                7,
            )[j] == spec_context_fragment(
                spec_context_requests(date)[kept_places(found, 7)[j]],
                found_at(found, kept_places(found, 7)[j])->0,
            ),
        forall|j: int, k: int|
            0 <= j < k < kept_places(found, 7).len() ==> spec_context_requests(date)[(
            #[trigger] kept_places(found, 7)[j])].date.day_index() <= spec_context_requests(date)[(
            #[trigger] kept_places(found, 7)[k])].date.day_index(),
{
    let requests = spec_context_requests(date);
    lemma_requests_chronological(date);
    lemma_context_follows_requests(requests, found, 7);
    let kept = kept_places(found, 7);
    assert forall|j: int, k: int| 0 <= j < k < kept.len() implies requests[(
    #[trigger] kept[j])].date.day_index() <= requests[(#[trigger] kept[k])].date.day_index() by {
        assert(0 <= kept[j] < kept[k] < 7);
    }
}


/// The day whose directory has the given name, if the name is the code of
/// a day.
pub fn date_of_directory(name: &str) -> (r: Option<CycleDate>)
    ensures
        r is Some <==> decode(name@) is Ok,
        r is Some ==> decode(name@) == Ok::<CycleDate, crate::error::JournalError>(r->0),
        r is Some ==> r->0.wf(),
{
    match CycleDate::from_string(name) {
        Ok(date) => Some(date),
        Err(_) => None,
    }
}

/// What a day's page is headed with, by the role of the day.
pub open spec fn spec_entry_type_label(date: CycleDate) -> Seq<char> {
    match PromptType::spec_for_date(date) {
        PromptType::Daily => "Daily Entry"@,
        other => other.spec_label(),
    }
}

/// What a day's page is headed with, by the role of the day.
pub fn entry_type_label(cycle_date: &CycleDate) -> (r: String)
    ensures
        r@ == spec_entry_type_label(*cycle_date),
{
    match PromptType::for_date(cycle_date) {
        PromptType::Daily => "Daily Entry".to_owned(),
        other => other.label(),
    }
}


/// What is seen of one entry of the journal directory.
#[derive(Debug, Clone)]
pub struct DirectoryEntry {
    /// The entry's name.
    pub name: String,
    /// Whether the entry is a directory.
    pub is_dir: bool,
    /// Whether the directory holds an entry of the journal.
    pub has_entry: bool,
    /// Whether the directory holds a summary.
    pub has_summary: bool,
    /// Whether the directory holds a status.
    pub has_status: bool,
}

/// The artifacts that are generated from a day's entry.
#[derive(Debug, Clone, Copy, PartialEq, Eq, Hash, Structural)]
pub enum DerivedArtifact {
    Summary,
    Status,
}

/// The day of a directory entry that lacks an artifact: the entry is a
/// directory named by the code of a day, and holds an entry of the journal
/// and not the artifact.
pub open spec fn day_lacking(entry: DirectoryEntry, artifact: DerivedArtifact) -> Option<CycleDate> {
    let present = match artifact {
        DerivedArtifact::Summary => entry.has_summary,
        DerivedArtifact::Status => entry.has_status,
    };
    if entry.is_dir && entry.has_entry && !present {
        match decode(entry.name@) {
            Ok(date) => Some(date),
            Err(_) => None,
        }
    } else {
        None
    }
}

/// The days among the first `upto` directory entries that lack an
/// artifact, in the order of the entries.
pub open spec fn days_lacking(listing: Seq<DirectoryEntry>, artifact: DerivedArtifact, upto: int) -> Seq<
    CycleDate,
>
    decreases upto,
{
    if upto <= 0 {
        Seq::<CycleDate>::empty()
    } else {
        match day_lacking(listing[upto - 1], artifact) {
            Some(date) => days_lacking(listing, artifact, upto - 1).push(date),
            None => days_lacking(listing, artifact, upto - 1),
        }
    }
}

fn find_days_lacking(listing: &Vec<DirectoryEntry>, artifact: DerivedArtifact) -> (r: Vec<CycleDate>)
    ensures
        r@ == days_lacking(listing@, artifact, listing@.len() as int),
        forall|i: int| 0 <= i < r@.len() ==> (#[trigger] r@[i]).wf(),
{
    let mut days: Vec<CycleDate> = Vec::new();
    let mut i: usize = 0;
    while i < listing.len()
        invariant
            i <= listing.len(),
            days@ == days_lacking(listing@, artifact, i as int),
            forall|k: int| 0 <= k < days@.len() ==> (#[trigger] days@[k]).wf(),
        decreases listing.len() - i,
    {
        let entry = &listing[i];
        let present = match artifact {
            DerivedArtifact::Summary => entry.has_summary,
            DerivedArtifact::Status => entry.has_status,
        };
        if entry.is_dir && entry.has_entry && !present {
            match date_of_directory(entry.name.as_str()) {
                Some(date) => {
                    days.push(date);
                },
                None => {},
            }
        }
        i += 1;
    }
    days
}

impl JournalManager {
    /// The days of the journal directory that have an entry and no summary,
    /// in the order of the listing.
    pub fn find_entries_needing_summaries(&self, listing: &Vec<DirectoryEntry>) -> (r: Vec<CycleDate>)
        ensures
            r@ == days_lacking(listing@, DerivedArtifact::Summary, listing@.len() as int),
            forall|i: int| 0 <= i < r@.len() ==> (#[trigger] r@[i]).wf(),
    {
        find_days_lacking(listing, DerivedArtifact::Summary)
    }

    /// The days of the journal directory that have an entry and no status,
    /// in the order of the listing.
    pub fn find_entries_needing_status(&self, listing: &Vec<DirectoryEntry>) -> (r: Vec<CycleDate>)
        ensures
            r@ == days_lacking(listing@, DerivedArtifact::Status, listing@.len() as int),
            forall|i: int| 0 <= i < r@.len() ==> (#[trigger] r@[i]).wf(),
    {
        find_days_lacking(listing, DerivedArtifact::Status)
    }

    /// The context of a prompt for a date, given what was found for each of
    /// the pieces of history that `context_requests` asks for, in their order.
    pub fn get_context_for_prompt(&self, cycle_date: &CycleDate, found: &Vec<Option<String>>) -> (r: Vec<
        String,
    >)
        requires
            cycle_date.wf(),
        ensures
            crate::text::string_views_of(r@) == spec_context(
                spec_context_requests(*cycle_date),
                found@,
                spec_context_requests(*cycle_date).len() as int,
            ),
            r@.len() <= spec_context_requests(*cycle_date).len() <= 13,
    {
        let requests = context_requests(cycle_date);
        get_context_for_prompt(&requests, found)
    }
}


/// The kinds of content that are kept for a day.
#[derive(Debug, Clone, Copy, PartialEq, Eq, Hash, Structural)]
pub enum ArtifactKind {
    /// What the writer wrote on the day.
    Entry,
    /// The summary that was generated from the day's entry.
    Summary,
    /// The status that was generated from the day's entry.
    Status,
    /// One of the day's prompts, by its number; prompts are numbered from 1.
    Prompt(u8),
}

impl ArtifactKind {
    /// Whether content of this kind is generated and not written by the
    /// writer of the journal.
    pub open spec fn spec_is_generated(&self) -> bool {
        *self != ArtifactKind::Entry
    }

    /// The name of the file that holds content of this kind, if there is
    /// one: there is none for a prompt with the number 0.
    pub open spec fn spec_file_name(&self) -> Option<Seq<char>> {
        match *self {
            ArtifactKind::Entry => Some(ENTRY_FILE@),
            ArtifactKind::Summary => Some(SUMMARY_FILE@),
            ArtifactKind::Status => Some(STATUS_FILE@),
            ArtifactKind::Prompt(number) => if number == 0 {
                None
            } else {
                Some(prompt_file_name(number))
            },
        }
    }

    /// Whether content of this kind is generated and not written by the
    /// writer of the journal.
    pub fn is_generated(&self) -> (r: bool)
        ensures
            r == self.spec_is_generated(),
    {
        !matches!(self, ArtifactKind::Entry)
    }
}

impl ContextSource {
    /// The kind of content that is read for this source.
    pub fn artifact(&self) -> (r: ArtifactKind)
        ensures
            r == match *self {
                ContextSource::Entry => ArtifactKind::Entry,
                ContextSource::Summary => ArtifactKind::Summary,
            },
    {
        match self {
            ContextSource::Entry => ArtifactKind::Entry,
            ContextSource::Summary => ArtifactKind::Summary,
        }
    }
}

impl JournalManager {
    /// The file that holds a day's content of a kind, if there is one.
    pub fn artifact_path(&self, cycle_date: &CycleDate, kind: ArtifactKind) -> (r: Option<String>)
        ensures
            r is Some <==> kind.spec_file_name() is Some,
            r is Some ==> r->0@ == self.spec_file(*cycle_date, kind.spec_file_name()->0),
    {
        match kind {
            ArtifactKind::Entry => Some(self.file_in(cycle_date, ENTRY_FILE)),
            ArtifactKind::Summary => Some(self.file_in(cycle_date, SUMMARY_FILE)),
            ArtifactKind::Status => Some(self.file_in(cycle_date, STATUS_FILE)),
            ArtifactKind::Prompt(number) => self.prompt_path(cycle_date, number),
        }
    }
}

} // verus!
