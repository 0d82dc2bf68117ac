use crate::cycle_date::CycleDate;
use crate::error::JournalError;
use crate::journal::PromptType;
use crate::text::{
    chars_of, decimal, parse_u32, parsed_u32, push_decimal, push_str, split, split_on, string_of,
    views_of,
};
use vstd::prelude::*;

verus! {

/// The character between the hour and the minute of a time of day.
pub const TIME_SEPARATOR: char = ':';

/// The hour and minute that a time of day of the form `HH:MM` names: two
/// numbers with a colon between them, the hour below 24 and the minute below
/// 60. Any other text names no time.
pub open spec fn spec_processing_time(text: Seq<char>) -> Option<(u32, u32)> {
    let parts = split_on(text, TIME_SEPARATOR);
    if parts.len() != 2 {
        None
    } else if parsed_u32(parts[0]) is None || parsed_u32(parts[1]) is None {
        None
    } else if parsed_u32(parts[0])->0 >= 24 || parsed_u32(parts[1])->0 >= 60 {
        None
    } else {
        Some((parsed_u32(parts[0])->0, parsed_u32(parts[1])->0))
    }
}

/// The schedule that fires every day at the given hour and minute, second
/// 0: the six fields second, minute, hour, day of month, month and day of
/// week.
pub open spec fn spec_cron_expression(hour: u32, minute: u32) -> Seq<char> {
    "0 "@ + decimal(minute as nat) + " "@ + decimal(hour as nat) + " * * *"@
}

/// The hour and minute of the nightly processing, or the reason why the
/// configured time names none.
pub fn parse_processing_time(processing_time: &str) -> (r: Result<(u32, u32), JournalError>)
    ensures
        spec_processing_time(processing_time@) is None ==> r == Err::<(u32, u32), JournalError>(
            JournalError::InvalidScheduleTime,
        ),
        spec_processing_time(processing_time@) is Some ==> r == Ok::<(u32, u32), JournalError>(
            spec_processing_time(processing_time@)->0,
        ),
        r is Ok ==> (r->Ok_0).0 < 24 && (r->Ok_0).1 < 60,
{
    let chars = chars_of(processing_time);
    let parts = split(&chars, TIME_SEPARATOR);
    proof {
        assert(views_of(parts@).len() == parts@.len());
        assert forall|i: int| 0 <= i < parts@.len() implies (#[trigger] parts@[i])@ == split_on(
            processing_time@,
            TIME_SEPARATOR,
        )[i] by {
            assert(views_of(parts@)[i] == parts@[i]@);
        }
    }
    if parts.len() != 2 {
        return Err(JournalError::InvalidScheduleTime);
    }
    let hour = parse_u32(&parts[0]);
    let minute = parse_u32(&parts[1]);
    if hour.is_none() || minute.is_none() {
        return Err(JournalError::InvalidScheduleTime);
    }
    if hour.unwrap() >= 24 || minute.unwrap() >= 60 {
        return Err(JournalError::InvalidScheduleTime);
    }
    Ok((hour.unwrap(), minute.unwrap()))
}

/// The schedule that fires every day at the given hour and minute.
pub fn cron_expression(hour: u32, minute: u32) -> (r: String)
    ensures
        r@ == spec_cron_expression(hour, minute),
{
    let mut out: Vec<char> = Vec::new();
    push_str(&mut out, "0 ");
    push_decimal(&mut out, minute as u64);
    push_str(&mut out, " ");
    push_decimal(&mut out, hour as u64);
    push_str(&mut out, " * * *");
    assert(out@ =~= spec_cron_expression(hour, minute));
    string_of(&out)
}

/// The schedule of the nightly processing for a configured time of day, or
/// the reason why that names no time.
pub fn processing_schedule(processing_time: &str) -> (r: Result<String, JournalError>)
    ensures
        spec_processing_time(processing_time@) is None ==> r == Err::<String, JournalError>(
            JournalError::InvalidScheduleTime,
        ),
        spec_processing_time(processing_time@) is Some ==> r is Ok && r->Ok_0@
            == spec_cron_expression(
            (spec_processing_time(processing_time@)->0).0,
            (spec_processing_time(processing_time@)->0).1,
        ),
{
    match parse_processing_time(processing_time) {
        Ok(time) => Ok(cron_expression(time.0, time.1)),
        Err(e) => Err(e),
    }
}

/// The day that the nightly processing generates prompts for: the day
/// after today.
pub fn nightly_target(today: &CycleDate) -> (r: CycleDate)
    requires
        today.wf(),
    ensures
        r == today.spec_next_day(),
        r.wf(),
{
    today.next_day()
}

/// The numbers from 1 to `upto` of the prompts that do not exist, in rising
/// order; `exists` says of each number, at the place before it, whether its
/// prompt exists.
pub open spec fn missing_numbers(exists: Seq<bool>, upto: int) -> Seq<u8>
    decreases upto,
{
    if upto <= 0 {
        Seq::<u8>::empty()
    } else if exists[upto - 1] {
        missing_numbers(exists, upto - 1)
    } else {
        missing_numbers(exists, upto - 1).push(upto as u8)
    }
}

/// The missing numbers up to `upto` are those from 1 to `upto` whose
/// prompt does not exist and no others, each once and in rising order.
pub proof fn lemma_missing_numbers(exists: Seq<bool>, upto: int)
    requires
        0 <= upto <= exists.len(),
        upto <= u8::MAX,
    ensures
        missing_numbers(exists, upto).len() <= upto,
        forall|k: int|
            0 <= k < missing_numbers(exists, upto).len() ==> 1 <= (#[trigger] missing_numbers(
                exists,
                upto,
            )[k]) <= upto && !exists[missing_numbers(exists, upto)[k] - 1],
        forall|n: int|
            1 <= n <= upto && !(#[trigger] exists[n - 1]) ==> missing_numbers(
                exists,
                upto,
            ).contains(n as u8),
        forall|j: int, k: int|
            0 <= j < k < missing_numbers(exists, upto).len() ==> (#[trigger] missing_numbers(
                exists,
                upto,
            )[j]) < (#[trigger] missing_numbers(exists, upto)[k]),
    decreases upto,
{
    if upto > 0 {
        lemma_missing_numbers(exists, upto - 1);
        let before = missing_numbers(exists, upto - 1);
        let after = missing_numbers(exists, upto);
        assert forall|n: int| 1 <= n <= upto && !(#[trigger] exists[n - 1]) implies after.contains(
            n as u8,
        ) by {
            if n < upto {
                assert(before.contains(n as u8));
                let at = choose|at: int| 0 <= at < before.len() && before[at] == n as u8;
                assert(after[at] == n as u8);
            } else {
                assert(after[after.len() - 1] == n as u8);
            }
        }
    }
}

/// What the nightly processing generates once the summaries are made.
#[derive(Debug, Clone)]
pub struct NightlyPlan {
    /// The day that the prompts are for: the day after today.
    pub target: CycleDate,
    /// The kind of prompt that this day gets.
    pub prompt_type: PromptType,
    /// The numbers of the prompts to generate, in rising order.
    pub prompt_numbers: Vec<u8>,
}

/// What the nightly processing generates: for the day after today, of the
/// kind that this day gets, those of the prompts 1 to `max_prompts_per_day`
/// that do not exist. `exists` says of each of these numbers, at the place
/// before it, whether the store holds its prompt for that day; a prompt that
/// exists is left as it is.
pub fn plan_nightly_prompts(today: &CycleDate, max_prompts_per_day: u8, exists: &Vec<bool>) -> (r:
    NightlyPlan)
    requires
        today.wf(),
        exists@.len() == max_prompts_per_day,
    ensures
        r.target == today.spec_next_day(),
        r.target.wf(),
        r.prompt_type == PromptType::spec_for_date(today.spec_next_day()),
        r.prompt_numbers@ == missing_numbers(exists@, max_prompts_per_day as int),
        forall|k: int|
            0 <= k < r.prompt_numbers@.len() ==> 1 <= (#[trigger] r.prompt_numbers@[k])
                <= max_prompts_per_day && !exists@[r.prompt_numbers@[k] - 1],
        forall|n: int|
            1 <= n <= max_prompts_per_day && !(#[trigger] exists@[n - 1])
                ==> r.prompt_numbers@.contains(n as u8),
        forall|j: int, k: int|
            0 <= j < k < r.prompt_numbers@.len() ==> (#[trigger] r.prompt_numbers@[j]) < (
            #[trigger] r.prompt_numbers@[k]),
{
    let target = nightly_target(today);
    let prompt_type = PromptType::for_date(&target);
    let mut prompt_numbers: Vec<u8> = Vec::new();
    let mut n: u8 = 0;
    while n < max_prompts_per_day
        invariant
            n <= max_prompts_per_day,
            exists@.len() == max_prompts_per_day,
            prompt_numbers@ == missing_numbers(exists@, n as int),
        decreases max_prompts_per_day - n,
    {
        if !exists[n as usize] {
            prompt_numbers.push(n + 1);
        }
        n += 1;
    }
    proof {
        lemma_missing_numbers(exists@, max_prompts_per_day as int);
    }
    NightlyPlan { target, prompt_type, prompt_numbers }
}

} // verus!
