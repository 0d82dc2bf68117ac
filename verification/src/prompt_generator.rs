use crate::cycle_date::CycleDate;
use crate::error::JournalError;
use crate::journal::ArtifactKind;
use chrono::{NaiveTime, Timelike};
use vstd::prelude::*;

verus! {

/// Nanoseconds in a second.
pub const NANOS_PER_SECOND: u64 = 1_000_000_000;

/// Seconds in a day.
pub const SECONDS_PER_DAY: u64 = 86_400;

/// Seconds that the loop rests after a generation pass, so that the same
/// minute does not fire twice.
pub const COOLDOWN_SECONDS: u64 = 60;

/// Seconds that the loop waits before it tries again when the configured
/// time of day cannot be read.
pub const RETRY_SECONDS: u64 = 3_600;

/// The number of prompts of a day that are counted as existing prompts.
pub const COUNTED_PROMPTS: u8 = 3;

/// The hour and minute that `chrono` reads from a text with the pattern
/// `%H:%M`, or `None` where it reads no time from it.
pub uninterp spec fn clock_time_of(text: Seq<char>) -> Option<(int, int)>;

/// `NaiveTime::parse_from_str` with the pattern `%H:%M`, the time handed
/// out as its hour and minute.
///
/// Claimed of `chrono`: the result is a function of the text, the hour lies
/// below 24 and the minute below 60.
#[verifier::external_body]
fn parse_clock_time(text: &str) -> (r: Option<(u32, u32)>)
    ensures
        r is Some <==> clock_time_of(text@) is Some,
        r is Some ==> clock_time_of(text@) == Some(((r->0).0 as int, (r->0).1 as int)),
        r is Some ==> (r->0).0 < 24 && (r->0).1 < 60,
{
    NaiveTime::parse_from_str(text, "%H:%M").ok().map(|t| (t.hour(), t.minute()))
}

/// A time of day on the local clock.
#[derive(Debug, Clone, Copy, PartialEq, Eq, Hash, Structural)]
pub struct TimeOfDay {
    hour: u32,
    minute: u32,
    second: u32,
    nanosecond: u32,
}

/// The nanoseconds from midnight to a time of day.
pub open spec fn nanos_of_day(hour: int, minute: int, second: int, nanosecond: int) -> int {
    ((hour * 60 + minute) * 60 + second) * 1_000_000_000 + nanosecond
}

/// Whether four numbers are a time of day.
pub open spec fn is_time_of_day(hour: int, minute: int, second: int, nanosecond: int) -> bool {
    &&& 0 <= hour < 24
    &&& 0 <= minute < 60
    &&& 0 <= second < 60
    &&& 0 <= nanosecond < 1_000_000_000
}

impl TimeOfDay {
    #[verifier::type_invariant]
    closed spec fn in_range(self) -> bool {
        is_time_of_day(
            self.hour as int,
            self.minute as int,
            self.second as int,
            self.nanosecond as int,
        )
    }

    /// The hour, from 0 to 23.
    pub closed spec fn spec_hour(&self) -> int {
        self.hour as int
    }

    /// The minute, from 0 to 59.
    pub closed spec fn spec_minute(&self) -> int {
        self.minute as int
    }

    /// The second, from 0 to 59.
    pub closed spec fn spec_second(&self) -> int {
        self.second as int
    }

    /// The nanoseconds beyond the whole second.
    pub closed spec fn spec_nanosecond(&self) -> int {
        self.nanosecond as int
    }

    /// Every field lies in its range; it holds of every value that `new`
    /// hands out.
    pub open spec fn wf(&self) -> bool {
        is_time_of_day(
            self.spec_hour(),
            self.spec_minute(),
            self.spec_second(),
            self.spec_nanosecond(),
        )
    }

    /// The nanoseconds from midnight to this time.
    pub open spec fn spec_nanos(&self) -> int {
        nanos_of_day(
            self.spec_hour(),
            self.spec_minute(),
            self.spec_second(),
            self.spec_nanosecond(),
        )
    }

    /// The time of day with the given fields, if there is one.
    pub fn new(hour: u32, minute: u32, second: u32, nanosecond: u32) -> (r: Option<TimeOfDay>)
        ensures
            r is Some <==> is_time_of_day(
                hour as int,
                minute as int,
                second as int,
                nanosecond as int,
            ),
            r is Some ==> r->0.spec_hour() == hour && r->0.spec_minute() == minute
                && r->0.spec_second() == second && r->0.spec_nanosecond() == nanosecond
                && r->0.wf(),
    {
        if hour < 24 && minute < 60 && second < 60 && nanosecond < 1_000_000_000 {
            Some(TimeOfDay { hour, minute, second, nanosecond })
        } else {
            None
        }
    }

    /// The hour, from 0 to 23.
    pub fn hour(&self) -> (r: u32)
        ensures
            r == self.spec_hour(),
            r < 24,
    {
        proof {
            use_type_invariant(self);
        }
        self.hour
    }

    /// The minute, from 0 to 59.
    pub fn minute(&self) -> (r: u32)
        ensures
            r == self.spec_minute(),
            r < 60,
    {
        proof {
            use_type_invariant(self);
        }
        self.minute
    }

    /// The second, from 0 to 59.
    pub fn second(&self) -> (r: u32)
        ensures
            r == self.spec_second(),
            r < 60,
    {
        proof {
            use_type_invariant(self);
        }
        self.second
    }

    /// The nanoseconds beyond the whole second.
    pub fn nanosecond(&self) -> (r: u32)
        ensures
            r == self.spec_nanosecond(),
            r < 1_000_000_000,
    {
        proof {
            use_type_invariant(self);
        }
        self.nanosecond
    }

    /// Whether this time is the given hour and minute or later.
    pub fn is_at_or_after(&self, hour: u32, minute: u32) -> (r: bool)
        ensures
            r == (nanos_of_day(hour as int, minute as int, 0, 0) <= self.spec_nanos()),
            self.wf(),
    {
        proof {
            use_type_invariant(self);
            lemma_minutes_order(
                self.hour as int,
                self.minute as int,
                self.second as int,
                self.nanosecond as int,
                hour as int,
                minute as int,
            );
        }
        let now_minutes: u64 = self.hour as u64 * 60 + self.minute as u64;
        let target_minutes: u64 = hour as u64 * 60 + minute as u64;
        target_minutes <= now_minutes
    }
}

/// A time of day is at or after the start of a minute exactly if its own
/// minute is that one or a later one.
pub proof fn lemma_minutes_order(
    hour: int,
    minute: int,
    second: int,
    nanosecond: int,
    target_hour: int,
    target_minute: int,
)
    requires
        is_time_of_day(hour, minute, second, nanosecond),
        0 <= target_hour,
        0 <= target_minute,
    ensures
        (nanos_of_day(target_hour, target_minute, 0, 0) <= nanos_of_day(
            hour,
            minute,
            second,
            nanosecond,
        )) == (target_hour * 60 + target_minute <= hour * 60 + minute),
{
    let now = hour * 60 + minute;
    let target = target_hour * 60 + target_minute;
    assert(nanos_of_day(target_hour, target_minute, 0, 0) == target * 60_000_000_000) by (nonlinear_arith)
        requires
            target == target_hour * 60 + target_minute,
            nanos_of_day(target_hour, target_minute, 0, 0) == ((target_hour * 60 + target_minute)
                * 60 + 0) * 1_000_000_000 + 0,
    ;
    assert(nanos_of_day(hour, minute, second, nanosecond) == now * 60_000_000_000 + (second
        * 1_000_000_000 + nanosecond)) by (nonlinear_arith)
        requires
            now == hour * 60 + minute,
            nanos_of_day(hour, minute, second, nanosecond) == ((hour * 60 + minute) * 60 + second)
                * 1_000_000_000 + nanosecond,
    ;
    let rest = second * 1_000_000_000 + nanosecond;
    assert(0 <= rest < 60_000_000_000);
    if target <= now {
        assert(target * 60_000_000_000 <= now * 60_000_000_000) by (nonlinear_arith)
            requires
                target <= now,
        ;
    } else {
        assert(target * 60_000_000_000 >= (now + 1) * 60_000_000_000) by (nonlinear_arith)
            requires
                target >= now + 1,
        ;
        assert((now + 1) * 60_000_000_000 == now * 60_000_000_000 + 60_000_000_000) by (nonlinear_arith);
    }
}

/// A span of time: whole seconds and the nanoseconds beyond them.
#[derive(Debug, Clone, Copy, PartialEq, Eq, Hash, Structural)]
pub struct SleepDuration {
    pub secs: u64,
    pub nanos: u32,
}

impl SleepDuration {
    /// The span in nanoseconds.
    pub open spec fn total_nanos(&self) -> int {
        self.secs * 1_000_000_000 + self.nanos
    }
}

/// The nanoseconds from a time of day to the next start of the minute
/// `target_hour`:`target_minute`: on the same day where that lies ahead, else
/// on the day after.
pub open spec fn spec_sleep_nanos(target_hour: int, target_minute: int, now: int) -> int {
    let target = nanos_of_day(target_hour, target_minute, 0, 0);
    if target <= now {
        target + 86_400 * 1_000_000_000 - now
    } else {
        target - now
    }
}

/// How long to sleep from `now` until the clock next shows
/// `target_hour`:`target_minute`. A time that has come or passed today is
/// waited for until tomorrow, so the span is more than nothing and at most a
/// day. The span is counted on the time of day alone: it takes the clock to
/// run evenly until the target, and knows of no hour that a time zone puts
/// in or leaves out on the way.
pub fn sleep_until(target_hour: u32, target_minute: u32, now: &TimeOfDay) -> (r: SleepDuration)
    requires
        target_hour < 24,
        target_minute < 60,
    ensures
        r.total_nanos() == spec_sleep_nanos(target_hour as int, target_minute as int, now.spec_nanos()),
        r.nanos < 1_000_000_000,
        0 < r.total_nanos() <= 86_400 * 1_000_000_000,
{
    let now_seconds: u64 = (now.hour() as u64 * 60 + now.minute() as u64) * 60 + now.second() as u64;
    let now_nanos: u64 = now_seconds * NANOS_PER_SECOND + now.nanosecond() as u64;
    let target_seconds: u64 = (target_hour as u64 * 60 + target_minute as u64) * 60;
    let mut target_nanos: u64 = target_seconds * NANOS_PER_SECOND;
    if target_nanos <= now_nanos {
        target_nanos = target_nanos + SECONDS_PER_DAY * NANOS_PER_SECOND;
    }
    let span: u64 = target_nanos - now_nanos;
    let r = SleepDuration {
        secs: span / NANOS_PER_SECOND,
        nanos: (span % NANOS_PER_SECOND) as u32,
    };
    proof {
        assert(span == (span / 1_000_000_000) * 1_000_000_000 + span % 1_000_000_000) by {
            vstd::arithmetic::div_mod::lemma_fundamental_div_mod(span as int, 1_000_000_000);
        }
    }
    r
}

/// The hour and minute of a configured time of day, or the reason why it
/// names none.
pub fn parse_prompt_time(time_str: &str) -> (r: Result<(u32, u32), JournalError>)
    ensures
        clock_time_of(time_str@) is None ==> r == Err::<(u32, u32), JournalError>(
            JournalError::InvalidScheduleTime,
        ),
        clock_time_of(time_str@) is Some ==> r is Ok && clock_time_of(time_str@) == Some(
            ((r->Ok_0).0 as int, (r->Ok_0).1 as int),
        ),
        r is Ok ==> (r->Ok_0).0 < 24 && (r->Ok_0).1 < 60,
{
    match parse_clock_time(time_str) {
        Some(time) => Ok(time),
        None => Err(JournalError::InvalidScheduleTime),
    }
}

/// How long to sleep from `now` until the configured time of day comes
/// next, today or else tomorrow. It is to be asked again after every wake,
/// since `now` moves on.
pub fn calculate_sleep_until_prompt_time(time_str: &str, now: &TimeOfDay) -> (r: Result<
    SleepDuration,
    JournalError,
>)
    ensures
        clock_time_of(time_str@) is None ==> r == Err::<SleepDuration, JournalError>(
            JournalError::InvalidScheduleTime,
        ),
        clock_time_of(time_str@) is Some ==> r is Ok && r->Ok_0.total_nanos() == spec_sleep_nanos(
            (clock_time_of(time_str@)->0).0,
            (clock_time_of(time_str@)->0).1,
            now.spec_nanos(),
        ),
        r is Ok ==> r->Ok_0.nanos < 1_000_000_000 && 0 < r->Ok_0.total_nanos() <= 86_400
            * 1_000_000_000,
{
    match parse_prompt_time(time_str) {
        Ok(time) => Ok(sleep_until(time.0, time.1, now)),
        Err(e) => Err(e),
    }
}

/// What the startup check of the scheduler does.
#[derive(Debug, Clone, Copy, PartialEq, Eq, Hash, Structural)]
pub enum StartupAction {
    /// The time of day for generation has not come yet: wait for it.
    Wait,
    /// The time has come and today has prompts: bring summaries and status
    /// up to date, then wait for the next day.
    CatchUp,
    /// The time has come and today has no prompt: bring summaries and status
    /// up to date, then generate today's prompts.
    CatchUpAndGenerate,
}

/// What the startup check does, given the time of day for generation, the
/// time now and the number of prompts that today has.
pub open spec fn spec_startup_action(
    target_hour: int,
    target_minute: int,
    now: int,
    existing_prompts: u8,
) -> StartupAction {
    if now < nanos_of_day(target_hour, target_minute, 0, 0) {
        StartupAction::Wait
    } else if existing_prompts == 0 {
        StartupAction::CatchUpAndGenerate
    } else {
        StartupAction::CatchUp
    }
}

/// What the startup check does, given the time of day for generation, the
/// time now and the number of prompts that today has.
pub fn startup_action(target_hour: u32, target_minute: u32, now: &TimeOfDay, existing_prompts: u8) -> (r:
    StartupAction)
    ensures
        r == spec_startup_action(
            target_hour as int,
            target_minute as int,
            now.spec_nanos(),
            existing_prompts,
        ),
{
    if !now.is_at_or_after(target_hour, target_minute) {
        StartupAction::Wait
    } else if existing_prompts == 0 {
        StartupAction::CatchUpAndGenerate
    } else {
        StartupAction::CatchUp
    }
}

/// What the startup check does for a configured time of day, or the reason
/// why that names no time.
pub fn check_startup(time_str: &str, now: &TimeOfDay, existing_prompts: u8) -> (r: Result<
    StartupAction,
    JournalError,
>)
    ensures
        clock_time_of(time_str@) is None ==> r == Err::<StartupAction, JournalError>(
            JournalError::InvalidScheduleTime,
        ),
        clock_time_of(time_str@) is Some ==> r == Ok::<StartupAction, JournalError>(
            spec_startup_action(
                (clock_time_of(time_str@)->0).0,
                (clock_time_of(time_str@)->0).1,
                now.spec_nanos(),
                existing_prompts,
            ),
        ),
{
    match parse_prompt_time(time_str) {
        Ok(time) => Ok(startup_action(time.0, time.1, now, existing_prompts)),
        Err(e) => Err(e),
    }
}

/// The number of prompts of a day up to which prompts are generated: the
/// number asked for, or else the configured one.
pub fn effective_max_prompts(max_prompts_override: Option<u8>, max_prompts_per_day: u8) -> (r: u8)
    ensures
        r == match max_prompts_override {
            Some(max) => max,
            None => max_prompts_per_day,
        },
{
    match max_prompts_override {
        Some(max) => max,
        None => max_prompts_per_day,
    }
}

/// How many of the first three prompts of a day exist.
pub fn count_existing_prompts(first: bool, second: bool, third: bool) -> (r: u8)
    ensures
        r == (if first {
            1int
        } else {
            0int
        }) + (if second {
            1int
        } else {
            0int
        }) + (if third {
            1int
        } else {
            0int
        }),
        r <= COUNTED_PROMPTS,
{
    let mut count: u8 = 0;
    if first {
        count += 1;
    }
    if second {
        count += 1;
    }
    if third {
        count += 1;
    }
    count
}

/// One step of a generation pass: the prompt to generate, and whether the
/// summaries and the status are brought up to date before it.
#[derive(Debug, Clone, Copy, PartialEq, Eq, Hash, Structural)]
pub struct PromptStep {
    pub prompt_number: u8,
    pub run_checks: bool,
}

/// The steps of a generation pass for a day of which `existing_prompts`
/// prompts were counted and that is to have `max_prompts`: one for each
/// number above that count, up to `max_prompts`, in rising order. Whether a
/// prompt with one of these numbers exists is asked anew before it is
/// generated. Only the step for prompt 1 brings summaries and status up to
/// date, and only if that is not skipped.
pub open spec fn spec_generation_steps(existing_prompts: u8, max_prompts: u8, skip_checks: bool) -> Seq<
    PromptStep,
> {
    if existing_prompts >= max_prompts {
        Seq::<PromptStep>::empty()
    } else {
        Seq::new(
            (max_prompts - existing_prompts) as nat,
            |i: int|
                PromptStep {
                    prompt_number: (existing_prompts + 1 + i) as u8,
                    run_checks: !skip_checks && existing_prompts + 1 + i == 1,
                },
        )
    }
}

/// The steps of a generation pass: one for each number above the count of
/// existing prompts, up to `max_prompts`.
pub fn plan_prompt_generation(existing_prompts: u8, max_prompts: u8, skip_checks: bool) -> (r: Vec<
    PromptStep,
>)
    ensures
        r@ == spec_generation_steps(existing_prompts, max_prompts, skip_checks),
        existing_prompts >= max_prompts ==> r@.len() == 0,
        existing_prompts < max_prompts ==> r@.len() == max_prompts - existing_prompts,
{
    let mut steps: Vec<PromptStep> = Vec::new();
    if existing_prompts >= max_prompts {
        assert(steps@ =~= spec_generation_steps(existing_prompts, max_prompts, skip_checks));
        return steps;
    }
    let mut prompt_number: u8 = existing_prompts + 1;
    loop
        invariant_except_break
            existing_prompts < prompt_number <= max_prompts,
            steps@.len() == prompt_number - existing_prompts - 1,
            forall|i: int|
                0 <= i < steps@.len() ==> #[trigger] steps@[i] == (PromptStep {
                    prompt_number: (existing_prompts + 1 + i) as u8,
                    run_checks: !skip_checks && existing_prompts + 1 + i == 1,
                }),
        ensures
            existing_prompts < max_prompts,
            steps@.len() == max_prompts - existing_prompts,
            forall|i: int|
                0 <= i < steps@.len() ==> #[trigger] steps@[i] == (PromptStep {
                    prompt_number: (existing_prompts + 1 + i) as u8,
                    run_checks: !skip_checks && existing_prompts + 1 + i == 1,
                }),
        decreases max_prompts - prompt_number,
    {
        steps.push(PromptStep { prompt_number, run_checks: !skip_checks && prompt_number == 1 });
        if prompt_number == max_prompts {
            break ;
        }
        prompt_number += 1;
    }
    assert(steps@ =~= spec_generation_steps(existing_prompts, max_prompts, skip_checks));
    steps
}

/// What is done with a request for one prompt of a day.
#[derive(Debug, Clone, Copy, PartialEq, Eq, Hash, Structural)]
pub enum OnDemandDecision {
    /// The number lies above the number of prompts that a day may have: the
    /// request is refused.
    Rejected,
    /// The prompt exists: the request is met, with no call of the backend
    /// and no write.
    AlreadyExists,
    /// The prompt is generated and written.
    Generate,
}

impl OnDemandDecision {
    /// The number of calls of the backend that the decision leads to.
    pub open spec fn backend_calls(&self) -> nat {
        if *self == OnDemandDecision::Generate {
            1
        } else {
            0
        }
    }

    /// The number of writes to the store that the decision leads to, where
    /// the backend answers.
    pub open spec fn store_writes(&self) -> nat {
        if *self == OnDemandDecision::Generate {
            1
        } else {
            0
        }
    }

    /// Whether the prompt exists once the decision has been carried out
    /// with success.
    pub open spec fn exists_after(&self, existed: bool) -> bool {
        existed || *self == OnDemandDecision::Generate
    }
}

/// What is done with a request for the prompt `prompt_number` of a day that
/// may have `max_prompts_per_day` prompts.
pub open spec fn spec_on_demand(prompt_number: u8, max_prompts_per_day: u8, exists: bool) -> OnDemandDecision {
    if prompt_number > max_prompts_per_day {
        OnDemandDecision::Rejected
    } else if exists {
        OnDemandDecision::AlreadyExists
    } else {
        OnDemandDecision::Generate
    }
}

/// What is done with a request for one prompt that the caller waits for.
pub fn decide_on_demand(prompt_number: u8, max_prompts_per_day: u8, exists: bool) -> (r:
    OnDemandDecision)
    ensures
        r == spec_on_demand(prompt_number, max_prompts_per_day, exists),
{
    if prompt_number > max_prompts_per_day {
        OnDemandDecision::Rejected
    } else if exists {
        OnDemandDecision::AlreadyExists
    } else {
        OnDemandDecision::Generate
    }
}

/// What is done with a request for one prompt that is queued and not
/// waited for: there is no limit on its number.
pub fn decide_queued(exists: bool) -> (r: OnDemandDecision)
    ensures
        r == spec_on_demand(0, 0, exists),
        r != OnDemandDecision::Rejected,
{
    if exists {
        OnDemandDecision::AlreadyExists
    } else {
        OnDemandDecision::Generate
    }
}

/// Two requests, one after the other, for a prompt that does not exist and
/// whose number is allowed lead to one call of the backend and one write:
/// the first generates the prompt, the second finds it.
pub proof fn lemma_generation_idempotent(prompt_number: u8, max_prompts_per_day: u8)
    requires
        prompt_number <= max_prompts_per_day,
    ensures
        ({
            let first = spec_on_demand(prompt_number, max_prompts_per_day, false);
            let second = spec_on_demand(
                prompt_number,
                max_prompts_per_day,
                first.exists_after(false),
            );
            &&& first == OnDemandDecision::Generate
            &&& second == OnDemandDecision::AlreadyExists
            &&& first.backend_calls() + second.backend_calls() == 1
            &&& first.store_writes() + second.store_writes() == 1
        }),
{
}

/// A request for a prompt that exists leads to no call of the backend and
/// no write, and leaves the prompt in existence.
pub proof fn lemma_existing_prompt_untouched(prompt_number: u8, max_prompts_per_day: u8)
    ensures
        spec_on_demand(prompt_number, max_prompts_per_day, true).backend_calls() == 0,
        spec_on_demand(prompt_number, max_prompts_per_day, true).store_writes() == 0,
        spec_on_demand(prompt_number, max_prompts_per_day, true).exists_after(true),
{
}

/// A generation pass for a day that has all its prompts does nothing, and
/// a pass that follows a complete pass does nothing.
pub proof fn lemma_generation_pass_idempotent(existing_prompts: u8, max_prompts: u8, skip_checks: bool)
    ensures
        existing_prompts >= max_prompts ==> spec_generation_steps(
            existing_prompts,
            max_prompts,
            skip_checks,
        ).len() == 0,
        spec_generation_steps(max_prompts, max_prompts, skip_checks).len() == 0,
        forall|i: int|
            0 <= i < spec_generation_steps(existing_prompts, max_prompts, skip_checks).len() ==> {
                let step = #[trigger] spec_generation_steps(
                    existing_prompts,
                    max_prompts,
                    skip_checks,
                )[i];
                &&& existing_prompts < step.prompt_number <= max_prompts
                &&& step.prompt_number == existing_prompts + 1 + i
                &&& step.run_checks ==> i == 0
            },
{
}

/// What is written after the backend has answered for an entry.
#[derive(Debug, Clone, Copy, PartialEq, Eq, Hash, Structural)]
pub struct PersistPlan {
    /// The summary is written for the entry's day.
    pub save_summary: bool,
    /// The new status is written for the entry's day.
    pub save_status: bool,
    /// The new status replaces the rolling status.
    pub update_rolling_status: bool,
}

/// Whether the backend is asked about an entry: only if its summary or its
/// status is missing.
pub fn needs_processing(summary_exists: bool, status_exists: bool) -> (r: bool)
    ensures
        r == (!summary_exists || !status_exists),
{
    !summary_exists || !status_exists
}

/// What is written after the backend has answered for an entry: the
/// summary if it was missing, the status if it was missing and the backend
/// gave a new one; a new status always replaces the rolling status.
pub fn plan_persist(summary_exists: bool, status_exists: bool, status_updated: bool) -> (r:
    PersistPlan)
    ensures
        r.save_summary == !summary_exists,
        r.save_status == (!status_exists && status_updated),
        r.update_rolling_status == status_updated,
{
    PersistPlan {
        save_summary: !summary_exists,
        save_status: !status_exists && status_updated,
        update_rolling_status: status_updated,
    }
}

/// How the call of the backend for an entry ended.
#[derive(Debug, Clone, Copy, PartialEq, Eq, Hash, Structural)]
pub enum BackendOutcome {
    /// The backend gave a summary and, where `status_updated` holds, a new
    /// status.
    Answered { status_updated: bool },
    /// The backend could not be reached, or the call failed.
    Failed,
}

/// What follows the call of the backend for an entry.
#[derive(Debug, Clone, Copy, PartialEq, Eq, Hash, Structural)]
pub enum CatchUpStep {
    /// What the backend gave is written as the plan says.
    Persist(PersistPlan),
    /// Nothing is written for this date, and the pass goes on with the next.
    SkipDate,
}

/// What follows the call of the backend for an entry: a failure ends the
/// work on this date only and leaves nothing of it behind, and an answer is
/// written as far as the date lacks it.
pub open spec fn spec_after_backend_call(
    summary_exists: bool,
    status_exists: bool,
    outcome: BackendOutcome,
) -> CatchUpStep {
    match outcome {
        BackendOutcome::Failed => CatchUpStep::SkipDate,
        BackendOutcome::Answered { status_updated } => CatchUpStep::Persist(
            PersistPlan {
                save_summary: !summary_exists,
                save_status: !status_exists && status_updated,
                update_rolling_status: status_updated,
            },
        ),
    }
}

/// What follows the call of the backend for an entry.
pub fn after_backend_call(summary_exists: bool, status_exists: bool, outcome: BackendOutcome) -> (r:
    CatchUpStep)
    ensures
        r == spec_after_backend_call(summary_exists, status_exists, outcome),
        outcome == BackendOutcome::Failed ==> r == CatchUpStep::SkipDate,
        outcome matches BackendOutcome::Answered { status_updated } ==> r == CatchUpStep::Persist(
            PersistPlan {
                save_summary: !summary_exists,
                save_status: !status_exists && status_updated,
                update_rolling_status: status_updated,
            },
        ),
{
    match outcome {
        BackendOutcome::Failed => CatchUpStep::SkipDate,
        BackendOutcome::Answered { status_updated } => CatchUpStep::Persist(
            plan_persist(summary_exists, status_exists, status_updated),
        ),
    }
}

/// The first `upto` dates of a list without those that stood in it before.
pub open spec fn without_repeats(dates: Seq<CycleDate>, upto: int) -> Seq<CycleDate>
    decreases upto,
{
    if upto <= 0 {
        Seq::<CycleDate>::empty()
    } else {
        let before = without_repeats(dates, upto - 1);
        if before.contains(dates[upto - 1]) {
            before
        } else {
            before.push(dates[upto - 1])
        }
    }
}

/// The dates to bring up to date: those that lack a summary and those that
/// lack a status, each once, in the order in which they first come.
pub open spec fn spec_entries_to_process(
    needing_summaries: Seq<CycleDate>,
    needing_status: Seq<CycleDate>,
) -> Seq<CycleDate> {
    without_repeats(
        needing_summaries + needing_status,
        (needing_summaries.len() + needing_status.len()) as int,
    )
}

/// Whether a date is among the first `upto` dates of a list.
pub open spec fn among_first(dates: Seq<CycleDate>, upto: int, date: CycleDate) -> bool {
    exists|i: int| 0 <= i < upto && #[trigger] dates[i] == date
}

/// A list without repeats holds no date twice, holds every date of the
/// list it was made from and no other.
pub proof fn lemma_without_repeats(dates: Seq<CycleDate>, upto: int)
    requires
        0 <= upto <= dates.len(),
    ensures
        without_repeats(dates, upto).len() <= upto,
        forall|i: int, j: int|
            0 <= i < j < without_repeats(dates, upto).len() ==> #[trigger] without_repeats(
                dates,
                upto,
            )[i] != #[trigger] without_repeats(dates, upto)[j],
        forall|i: int| 0 <= i < upto ==> without_repeats(dates, upto).contains(#[trigger] dates[i]),
        forall|k: int|
            0 <= k < without_repeats(dates, upto).len() ==> among_first(
                dates,
                upto,
                #[trigger] without_repeats(dates, upto)[k],
            ),
    decreases upto,
{
    if upto > 0 {
        lemma_without_repeats(dates, upto - 1);
        let before = without_repeats(dates, upto - 1);
        let after = without_repeats(dates, upto);
        let last = dates[upto - 1];
        assert forall|k: int| 0 <= k < after.len() implies among_first(
            dates,
            upto,
            #[trigger] after[k],
        ) by {
            if k < before.len() {
                assert(after[k] == before[k]);
                assert(among_first(dates, upto - 1, before[k]));
                let at = choose|at: int| 0 <= at < upto - 1 && #[trigger] dates[at] == before[k];
                assert(dates[at] == after[k]);
            } else {
                assert(after[k] == last);
                assert(dates[upto - 1] == after[k]);
            }
        }
        assert forall|i: int| 0 <= i < upto implies after.contains(#[trigger] dates[i]) by {
            if i < upto - 1 {
                assert(before.contains(dates[i]));
                let at = choose|at: int| 0 <= at < before.len() && before[at] == dates[i];
                assert(after[at] == dates[i]);
            } else if before.contains(last) {
            } else {
                assert(after[before.len() as int] == last);
            }
        }
        assert forall|i: int, j: int| 0 <= i < j < after.len() implies #[trigger] after[i]
            != #[trigger] after[j] by {
            if j < before.len() {
                assert(after[i] == before[i] && after[j] == before[j]);
            } else {
                assert(after[j] == last);
                assert(after[i] == before[i]);
                assert(!before.contains(last));
            }
        }
    }
}

/// Whether a date stands in a list.
fn holds_date(dates: &Vec<CycleDate>, date: CycleDate) -> (r: bool)
    ensures
        r == dates@.contains(date),
{
    let mut i: usize = 0;
    while i < dates.len()
        invariant
            i <= dates.len(),
            forall|k: int| 0 <= k < i ==> dates@[k] != date,
        decreases dates.len() - i,
    {
        if dates[i] == date {
            return true;
        }
        i += 1;
    }
    false
}

/// The dates to bring up to date: those that lack a summary and those that
/// lack a status, each once, in the order in which they first come.
pub fn entries_to_process(needing_summaries: &Vec<CycleDate>, needing_status: &Vec<CycleDate>) -> (r:
    Vec<CycleDate>)
    ensures
        r@ == spec_entries_to_process(needing_summaries@, needing_status@),
        forall|i: int, j: int| 0 <= i < j < r@.len() ==> #[trigger] r@[i] != #[trigger] r@[j],
        forall|i: int|
            0 <= i < needing_summaries@.len() ==> r@.contains(#[trigger] needing_summaries@[i]),
        forall|i: int| 0 <= i < needing_status@.len() ==> r@.contains(#[trigger] needing_status@[i]),
        forall|k: int|
            0 <= k < r@.len() ==> needing_summaries@.contains(#[trigger] r@[k])
                || needing_status@.contains(r@[k]),
{
    let ghost all = needing_summaries@ + needing_status@;
    let mut dates: Vec<CycleDate> = Vec::new();
    let mut i: usize = 0;
    while i < needing_summaries.len()
        invariant
            i <= needing_summaries.len(),
            all == needing_summaries@ + needing_status@,
            dates@ == without_repeats(all, i as int),
        decreases needing_summaries.len() - i,
    {
        assert(all[i as int] == needing_summaries@[i as int]);
        if !holds_date(&dates, needing_summaries[i]) {
            dates.push(needing_summaries[i]);
        }
        i += 1;
    }
    let first = needing_summaries.len();
    let mut j: usize = 0;
    while j < needing_status.len()
        invariant
            j <= needing_status.len(),
            first == needing_summaries.len(),
            all == needing_summaries@ + needing_status@,
            dates@ == without_repeats(all, first + j),
        decreases needing_status.len() - j,
    {
        assert(all[first + j] == needing_status@[j as int]);
        if !holds_date(&dates, needing_status[j]) {
            dates.push(needing_status[j]);
        }
        j += 1;
    }
    proof {
        lemma_without_repeats(all, all.len() as int);
        assert forall|i: int| 0 <= i < needing_summaries@.len() implies dates@.contains(
            #[trigger] needing_summaries@[i],
        ) by {
            assert(all[i] == needing_summaries@[i]);
        }
        assert forall|i: int| 0 <= i < needing_status@.len() implies dates@.contains(
            #[trigger] needing_status@[i],
        ) by {
            assert(all[first + i] == needing_status@[i]);
        }
        assert forall|k: int| 0 <= k < dates@.len() implies needing_summaries@.contains(
            #[trigger] dates@[k],
        ) || needing_status@.contains(dates@[k]) by {
            assert(among_first(all, all.len() as int, dates@[k]));
            let at = choose|at: int| 0 <= at < all.len() && #[trigger] all[at] == dates@[k];
            if at < first {
                assert(needing_summaries@[at] == dates@[k]);
            } else {
                assert(needing_status@[at - first] == dates@[k]);
            }
        }
    }
    dates
}

/// Where the scheduler stands.
#[derive(Debug, Clone, Copy, PartialEq, Eq, Hash, Structural)]
pub enum SchedulerPhase {
    /// No loop runs.
    Stopped,
    /// The loop sleeps until the time of day for generation.
    Waiting,
    /// A pass runs: the startup check, or the generation of a day's prompts.
    Generating,
}

/// The state of the scheduler: where it stands, and whether it has been
/// asked to stop.
#[derive(Debug, Clone, Copy, PartialEq, Eq, Hash, Structural)]
pub struct SchedulerState {
    pub phase: SchedulerPhase,
    pub stop_requested: bool,
}

/// What happens to the scheduler.
#[derive(Debug, Clone, Copy, PartialEq, Eq, Hash, Structural)]
pub enum SchedulerEvent {
    /// The scheduler is asked to start.
    Start,
    /// The scheduler is asked to stop.
    Stop,
    /// The sleep until the time of day for generation is over.
    Woke,
    /// The configured time of day could not be read, and the wait before
    /// the next try is over.
    RetryElapsed,
    /// The pass that ran is over, with or without success, and so is the
    /// rest after it.
    PassFinished,
}

/// What the scheduler's loop is to do next.
#[derive(Debug, Clone, Copy, PartialEq, Eq, Hash, Structural)]
pub enum SchedulerAction {
    /// Nothing.
    Nothing,
    /// Run the startup check.
    RunStartupCheck,
    /// Work out anew how long it is until the time of day for generation,
    /// and sleep that long.
    SleepUntilPromptTime,
    /// Generate today's prompts.
    GenerateDailyPrompts,
    /// Leave the loop.
    Exit,
}

impl SchedulerState {
    /// The state and the action that follow an event.
    ///
    /// A start finds the scheduler stopped and runs the startup check; while
    /// a loop runs it only takes back a request to stop. A request to stop is
    /// kept until the loop reads it, and the loop reads it only when a pass,
    /// or a wait for a readable time of day, is over: then it leaves, and
    /// else it sleeps until the time of day for generation. A wake is
    /// followed by the generation of the day's prompts.
    pub open spec fn spec_step(self, event: SchedulerEvent) -> (SchedulerState, SchedulerAction) {
        match (self.phase, event) {
            (SchedulerPhase::Stopped, SchedulerEvent::Start) => (
                SchedulerState { phase: SchedulerPhase::Generating, stop_requested: false },
                SchedulerAction::RunStartupCheck,
            ),
            (_, SchedulerEvent::Start) => (
                SchedulerState { phase: self.phase, stop_requested: false },
                SchedulerAction::Nothing,
            ),
            (SchedulerPhase::Stopped, _) => (self, SchedulerAction::Nothing),
            (_, SchedulerEvent::Stop) => (
                SchedulerState { phase: self.phase, stop_requested: true },
                SchedulerAction::Nothing,
            ),
            (SchedulerPhase::Waiting, SchedulerEvent::Woke) => (
                SchedulerState { phase: SchedulerPhase::Generating, stop_requested: self.stop_requested },
                SchedulerAction::GenerateDailyPrompts,
            ),
            (SchedulerPhase::Waiting, SchedulerEvent::RetryElapsed) | (
                SchedulerPhase::Generating,
                SchedulerEvent::PassFinished,
            ) => if self.stop_requested {
                (
                    SchedulerState { phase: SchedulerPhase::Stopped, stop_requested: false },
                    SchedulerAction::Exit,
                )
            } else {
                (
                    SchedulerState { phase: SchedulerPhase::Waiting, stop_requested: false },
                    SchedulerAction::SleepUntilPromptTime,
                )
            },
            _ => (self, SchedulerAction::Nothing),
        }
    }

    /// The state of a scheduler that was never started.
    pub fn new() -> (r: SchedulerState)
        ensures
            r == (SchedulerState { phase: SchedulerPhase::Stopped, stop_requested: false }),
    {
        SchedulerState { phase: SchedulerPhase::Stopped, stop_requested: false }
    }

    /// Whether a loop runs that has not been asked to stop.
    pub fn is_running(&self) -> (r: bool)
        ensures
            r == (self.phase != SchedulerPhase::Stopped && !self.stop_requested),
    {
        !matches!(self.phase, SchedulerPhase::Stopped) && !self.stop_requested
    }

    /// The state and the action that follow an event.
    pub fn step(self, event: SchedulerEvent) -> (r: (SchedulerState, SchedulerAction))
        ensures
            r == self.spec_step(event),
    {
        match (self.phase, event) {
            (SchedulerPhase::Stopped, SchedulerEvent::Start) => (
                SchedulerState { phase: SchedulerPhase::Generating, stop_requested: false },
                SchedulerAction::RunStartupCheck,
            ),
            (_, SchedulerEvent::Start) => (
                SchedulerState { phase: self.phase, stop_requested: false },
                SchedulerAction::Nothing,
            ),
            (SchedulerPhase::Stopped, _) => (self, SchedulerAction::Nothing),
            (_, SchedulerEvent::Stop) => (
                SchedulerState { phase: self.phase, stop_requested: true },
                SchedulerAction::Nothing,
            ),
            (SchedulerPhase::Waiting, SchedulerEvent::Woke) => (
                SchedulerState { phase: SchedulerPhase::Generating, stop_requested: self.stop_requested },
                SchedulerAction::GenerateDailyPrompts,
            ),
            (SchedulerPhase::Waiting, SchedulerEvent::RetryElapsed) | (
                SchedulerPhase::Generating,
                SchedulerEvent::PassFinished,
            ) => {
                if self.stop_requested {
                    (
                        SchedulerState { phase: SchedulerPhase::Stopped, stop_requested: false },
                        SchedulerAction::Exit,
                    )
                } else {
                    (
                        SchedulerState { phase: SchedulerPhase::Waiting, stop_requested: false },
                        SchedulerAction::SleepUntilPromptTime,
                    )
                }
            },
            _ => (self, SchedulerAction::Nothing),
        }
    }
}

/// A request to stop never cuts a pass short: it leaves the phase as it is,
/// and the loop leaves only once the pass is over.
pub proof fn lemma_stop_is_cooperative(state: SchedulerState)
    ensures
        state.spec_step(SchedulerEvent::Stop).0.phase == state.phase,
        state.spec_step(SchedulerEvent::Stop).1 == SchedulerAction::Nothing,
        state.phase == SchedulerPhase::Generating ==> state.spec_step(SchedulerEvent::Stop).0.spec_step(
            SchedulerEvent::PassFinished,
        ) == (
            SchedulerState { phase: SchedulerPhase::Stopped, stop_requested: false },
            SchedulerAction::Exit,
        ),
{
}

/// A pass is started only by a start from the stopped state or by a wake
/// from a wait, and after a pass the loop waits again unless it was asked to
/// stop.
pub proof fn lemma_scheduler_cycle(state: SchedulerState, event: SchedulerEvent)
    ensures
        state.spec_step(event).0.phase == SchedulerPhase::Generating && state.phase
            != SchedulerPhase::Generating ==> (state.phase == SchedulerPhase::Stopped && event
            == SchedulerEvent::Start) || (state.phase == SchedulerPhase::Waiting && event
            == SchedulerEvent::Woke),
        state.phase == SchedulerPhase::Generating && event == SchedulerEvent::PassFinished
            && !state.stop_requested ==> state.spec_step(event) == (
            SchedulerState { phase: SchedulerPhase::Waiting, stop_requested: false },
            SchedulerAction::SleepUntilPromptTime,
        ),
        state.phase == SchedulerPhase::Stopped && event != SchedulerEvent::Start
            ==> state.spec_step(event).0 == state,
        state.spec_step(event).0.phase == SchedulerPhase::Stopped ==> !state.spec_step(
            event,
        ).0.stop_requested || state.phase == SchedulerPhase::Stopped,
{
}


/// The content that is being generated right now, so that no content is
/// generated twice at the same time: each is held by one generation at most.
#[derive(Debug)]
pub struct GenerationLocks {
    held: Vec<(CycleDate, ArtifactKind)>,
}

impl View for GenerationLocks {
    type V = Set<(CycleDate, ArtifactKind)>;

    /// The content that is held.
    closed spec fn view(&self) -> Set<(CycleDate, ArtifactKind)> {
        self.held@.to_set()
    }
}

impl GenerationLocks {
    #[verifier::type_invariant]
    closed spec fn no_key_twice(self) -> bool {
        forall|i: int, j: int|
            0 <= i < j < self.held@.len() ==> #[trigger] self.held@[i] != #[trigger] self.held@[j]
    }

    /// No content is held.
    pub fn new() -> (r: GenerationLocks)
        ensures
            r@ == Set::<(CycleDate, ArtifactKind)>::empty(),
    {
        let r = GenerationLocks { held: Vec::new() };
        assert(r.held@.to_set() =~= Set::<(CycleDate, ArtifactKind)>::empty());
        r
    }

    /// Whether a day's content of a kind is held.
    pub fn is_held(&self, cycle_date: CycleDate, kind: ArtifactKind) -> (r: bool)
        ensures
            r == self@.contains((cycle_date, kind)),
    {
        self.place_of(cycle_date, kind).is_some()
    }

    fn place_of(&self, cycle_date: CycleDate, kind: ArtifactKind) -> (r: Option<usize>)
        ensures
            r is Some ==> r->0 < self.held@.len() && self.held@[r->0 as int] == (cycle_date, kind),
            r is None ==> !self.held@.contains((cycle_date, kind)),
            r is Some <==> self@.contains((cycle_date, kind)),
    {
        let mut i: usize = 0;
        while i < self.held.len()
            invariant
                i <= self.held.len(),
                forall|k: int| 0 <= k < i ==> self.held@[k] != (cycle_date, kind),
            decreases self.held.len() - i,
        {
            if self.held[i].0 == cycle_date && self.held[i].1 == kind {
                assert(self.held@.contains((cycle_date, kind)));
                return Some(i);
            }
            i += 1;
        }
        None
    }

    /// Takes hold of a day's content of a kind, unless it is held: the
    /// answer says whether the caller holds it now.
    pub fn try_acquire(&mut self, cycle_date: CycleDate, kind: ArtifactKind) -> (r: bool)
        ensures
            r == !old(self)@.contains((cycle_date, kind)),
            r ==> final(self)@ == old(self)@.insert((cycle_date, kind)),
            !r ==> final(self)@ == old(self)@,
            final(self)@.contains((cycle_date, kind)),
    {
        proof {
            use_type_invariant(&*self);
        }
        if self.place_of(cycle_date, kind).is_some() {
            return false;
        }
        let ghost before = self.held@;
        let mut held = copy_without(&self.held, self.held.len());
        held.push((cycle_date, kind));
        proof {
            assert(before.subrange(0, before.len() as int) =~= before);
            assert(held@ =~= before.push((cycle_date, kind)));
            assert forall|i: int, j: int| 0 <= i < j < held@.len() implies #[trigger] held@[i]
                != #[trigger] held@[j] by {
                assert(held@[i] == before[i]);
                if j < before.len() {
                    assert(held@[j] == before[j]);
                } else {
                    assert(before.contains(before[i]));
                }
            }
        }
        *self = GenerationLocks { held };
        proof {
            assert(self.held@.to_set() =~= before.to_set().insert((cycle_date, kind))) by {
                assert forall|key: (CycleDate, ArtifactKind)|
                    self.held@.to_set().contains(key) <==> before.to_set().insert(
                        (cycle_date, kind),
                    ).contains(key) by {
                    if self.held@.contains(key) {
                        let at = choose|at: int| 0 <= at < self.held@.len() && self.held@[at] == key;
                        if at < before.len() {
                            assert(before[at] == key);
                        }
                    }
                    if before.contains(key) {
                        let at = choose|at: int| 0 <= at < before.len() && before[at] == key;
                        assert(self.held@[at] == key);
                    }
                    if key == (cycle_date, kind) {
                        assert(self.held@[before.len() as int] == key);
                    }
                }
            }
        }
        true
    }

    /// Lets go of a day's content of a kind.
    pub fn release(&mut self, cycle_date: CycleDate, kind: ArtifactKind)
        ensures
            final(self)@ == old(self)@.remove((cycle_date, kind)),
            !final(self)@.contains((cycle_date, kind)),
    {
        proof {
            use_type_invariant(&*self);
        }
        match self.place_of(cycle_date, kind) {
            Some(place) => {
                let ghost before = self.held@;
                let held = copy_without(&self.held, place);
                proof {
                    assert(held@ =~= before.remove(place as int));
                    assert forall|i: int, j: int| 0 <= i < j < held@.len() implies #[trigger] held@[i]
                        != #[trigger] held@[j] by {
                        let from_i = if i < place {
                            i
                        } else {
                            i + 1
                        };
                        let from_j = if j < place {
                            j
                        } else {
                            j + 1
                        };
                        assert(held@[i] == before[from_i] && held@[j] == before[from_j]);
                    }
                }
                *self = GenerationLocks { held };
                proof {
                    let after = self.held@;
                    assert(after =~= before.remove(place as int));
                    assert forall|key: (CycleDate, ArtifactKind)|
                        after.to_set().contains(key) <==> before.to_set().remove(
                            (cycle_date, kind),
                        ).contains(key) by {
                        if after.contains(key) {
                            let at = choose|at: int| 0 <= at < after.len() && after[at] == key;
                            if at < place {
                                assert(before[at] == key);
                            } else {
                                assert(before[at + 1] == key);
                            }
                        }
                        if before.contains(key) && key != (cycle_date, kind) {
                            let at = choose|at: int| 0 <= at < before.len() && before[at] == key;
                            if at < place {
                                assert(after[at] == key);
                            } else {
                                assert(at > place);
                                assert(after[at - 1] == key);
                            }
                        }
                    }
                    assert(after.to_set() =~= before.to_set().remove((cycle_date, kind)));
                }
            },
            None => {
                assert(self.held@.to_set() =~= self.held@.to_set().remove((cycle_date, kind)));
            },
        }
    }
}

/// A copy of a list of keys without the key at a place; the whole list
/// where the place lies behind its end.
fn copy_without(keys: &Vec<(CycleDate, ArtifactKind)>, place: usize) -> (r: Vec<
    (CycleDate, ArtifactKind),
>)
    ensures
        place < keys@.len() ==> r@ == keys@.subrange(0, place as int) + keys@.subrange(
            place as int + 1,
            keys@.len() as int,
        ),
        place >= keys@.len() ==> r@ == keys@.subrange(0, keys@.len() as int),
{
    let mut copy: Vec<(CycleDate, ArtifactKind)> = Vec::new();
    let mut i: usize = 0;
    while i < keys.len()
        invariant
            i <= keys.len(),
            i <= place ==> copy@ == keys@.subrange(0, i as int),
            i > place ==> copy@ == keys@.subrange(0, place as int) + keys@.subrange(
                place as int + 1,
                i as int,
            ),
        decreases keys.len() - i,
    {
        if i != place {
            copy.push(keys[i]);
        }
        i += 1;
        proof {
            if i <= place {
                assert(copy@ =~= keys@.subrange(0, i as int));
            } else {
                assert(copy@ =~= keys@.subrange(0, place as int) + keys@.subrange(
                    place as int + 1,
                    i as int,
                ));
            }
        }
    }
    copy
}

/// Of two generations that ask for the same content while none has let go
/// of it, only the first gets hold of it.
pub proof fn lemma_locks_exclude(held: Set<(CycleDate, ArtifactKind)>, key: (CycleDate, ArtifactKind))
    ensures
        held.insert(key).contains(key),
        held.insert(key).remove(key) == held.remove(key),
        !held.contains(key) ==> held.insert(key).remove(key) == held,
{
    assert(held.insert(key).remove(key) =~= held.remove(key));
    if !held.contains(key) {
        assert(held.remove(key) =~= held);
    }
}

} // verus!
