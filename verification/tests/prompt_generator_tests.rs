use llm_journal::cycle_date::CycleDate;
use llm_journal::error::JournalError;
use llm_journal::journal::ArtifactKind;
use llm_journal::prompt_generator::{
    after_backend_call, calculate_sleep_until_prompt_time, check_startup, count_existing_prompts, decide_on_demand,
    decide_queued, effective_max_prompts, entries_to_process, needs_processing, parse_prompt_time,
    plan_persist, plan_prompt_generation, sleep_until, startup_action, BackendOutcome,
    CatchUpStep, GenerationLocks, OnDemandDecision,
    PersistPlan, PromptStep, SchedulerAction, SchedulerEvent, SchedulerPhase, SchedulerState,
    SleepDuration, StartupAction, TimeOfDay,
};

fn at(hour: u32, minute: u32) -> TimeOfDay {
    TimeOfDay::new(hour, minute, 0, 0).unwrap()
}

#[test]
fn test_calculate_sleep_duration() {
    let result = calculate_sleep_until_prompt_time("06:00", &at(12, 30));
    assert!(result.is_ok());

    let result = calculate_sleep_until_prompt_time("invalid", &at(12, 30));
    assert!(result.is_err());
}

#[test]
fn sleep_at_five_until_six_is_one_hour() {
    assert_eq!(
        calculate_sleep_until_prompt_time("06:00", &at(5, 0)),
        Ok(SleepDuration { secs: 3_600, nanos: 0 })
    );
}

#[test]
fn sleep_at_seven_until_six_rolls_to_the_next_day() {
    assert_eq!(
        calculate_sleep_until_prompt_time("06:00", &at(7, 0)),
        Ok(SleepDuration { secs: 23 * 3_600, nanos: 0 })
    );
}

#[test]
fn sleep_at_the_target_time_is_a_whole_day() {
    assert_eq!(sleep_until(6, 0, &at(6, 0)), SleepDuration { secs: 86_400, nanos: 0 });
}

#[test]
fn sleep_counts_seconds_and_nanoseconds() {
    let now = TimeOfDay::new(5, 59, 58, 250_000_000).unwrap();
    assert_eq!(sleep_until(6, 0, &now), SleepDuration { secs: 1, nanos: 750_000_000 });
    let just_after = TimeOfDay::new(6, 0, 0, 1).unwrap();
    assert_eq!(sleep_until(6, 0, &just_after), SleepDuration { secs: 86_399, nanos: 999_999_999 });
    let midnight = at(0, 0);
    assert_eq!(sleep_until(23, 59, &midnight), SleepDuration { secs: 86_340, nanos: 0 });
}

#[test]
fn schedule_time_that_cannot_be_read_is_an_error() {
    for text in ["invalid", "", "25:00", "12:60", "12", "12:00:00x", "noon"] {
        assert_eq!(
            calculate_sleep_until_prompt_time(text, &at(1, 0)),
            Err(JournalError::InvalidScheduleTime),
            "{:?}",
            text
        );
        assert_eq!(parse_prompt_time(text), Err(JournalError::InvalidScheduleTime));
    }
    assert_eq!(parse_prompt_time("06:00"), Ok((6, 0)));
    assert_eq!(parse_prompt_time("23:59"), Ok((23, 59)));
    assert_eq!(parse_prompt_time("7:15"), Ok((7, 15)));
}

#[test]
fn time_of_day_rejects_fields_out_of_range() {
    assert!(TimeOfDay::new(24, 0, 0, 0).is_none());
    assert!(TimeOfDay::new(0, 60, 0, 0).is_none());
    assert!(TimeOfDay::new(0, 0, 60, 0).is_none());
    assert!(TimeOfDay::new(0, 0, 0, 1_000_000_000).is_none());
    let time = TimeOfDay::new(23, 59, 59, 999_999_999).unwrap();
    assert_eq!((time.hour(), time.minute(), time.second(), time.nanosecond()), (23, 59, 59, 999_999_999));
}

#[test]
fn startup_check_waits_before_the_time_and_generates_only_without_prompts() {
    assert_eq!(startup_action(6, 0, &at(5, 59), 0), StartupAction::Wait);
    assert_eq!(startup_action(6, 0, &at(6, 0), 0), StartupAction::CatchUpAndGenerate);
    assert_eq!(startup_action(6, 0, &at(6, 0), 1), StartupAction::CatchUp);
    assert_eq!(startup_action(6, 0, &TimeOfDay::new(5, 59, 59, 999_999_999).unwrap(), 0), StartupAction::Wait);
    assert_eq!(check_startup("06:00", &at(9, 0), 3), Ok(StartupAction::CatchUp));
    assert_eq!(check_startup("06:00", &at(9, 0), 0), Ok(StartupAction::CatchUpAndGenerate));
    assert_eq!(check_startup("six", &at(9, 0), 0), Err(JournalError::InvalidScheduleTime));
}

#[test]
fn existing_prompts_are_counted_among_the_first_three() {
    assert_eq!(count_existing_prompts(false, false, false), 0);
    assert_eq!(count_existing_prompts(true, false, true), 2);
    assert_eq!(count_existing_prompts(true, true, true), 3);
    assert_eq!(effective_max_prompts(None, 3), 3);
    assert_eq!(effective_max_prompts(Some(5), 3), 5);
}

#[test]
fn generation_pass_generates_the_missing_numbers_in_order() {
    assert_eq!(
        plan_prompt_generation(0, 3, false),
        vec![
            PromptStep { prompt_number: 1, run_checks: true },
            PromptStep { prompt_number: 2, run_checks: false },
            PromptStep { prompt_number: 3, run_checks: false },
        ]
    );
    assert_eq!(
        plan_prompt_generation(0, 2, true),
        vec![
            PromptStep { prompt_number: 1, run_checks: false },
            PromptStep { prompt_number: 2, run_checks: false },
        ]
    );
    assert_eq!(plan_prompt_generation(1, 3, false), vec![
        PromptStep { prompt_number: 2, run_checks: false },
        PromptStep { prompt_number: 3, run_checks: false },
    ]);
    assert_eq!(plan_prompt_generation(254, 255, false), vec![PromptStep { prompt_number: 255, run_checks: false }]);
}

#[test]
fn generation_pass_does_nothing_when_the_prompts_exist() {
    assert!(plan_prompt_generation(3, 3, false).is_empty());
    assert!(plan_prompt_generation(5, 3, false).is_empty());
    assert!(plan_prompt_generation(0, 0, false).is_empty());
    assert!(plan_prompt_generation(255, 255, true).is_empty());
}

#[test]
fn two_requests_for_a_missing_prompt_generate_it_once() {
    let mut exists = false;
    let mut backend_calls = 0;
    let mut writes = 0;
    for _ in 0..2 {
        match decide_on_demand(2, 3, exists) {
            OnDemandDecision::Generate => {
                backend_calls += 1;
                writes += 1;
                exists = true;
            }
            OnDemandDecision::AlreadyExists => {}
            OnDemandDecision::Rejected => panic!("an allowed number was refused"),
        }
    }
    assert_eq!((backend_calls, writes), (1, 1));
}

#[test]
fn on_demand_requests_above_the_limit_are_refused() {
    assert_eq!(decide_on_demand(4, 3, false), OnDemandDecision::Rejected);
    assert_eq!(decide_on_demand(4, 3, true), OnDemandDecision::Rejected);
    assert_eq!(decide_on_demand(3, 3, false), OnDemandDecision::Generate);
    assert_eq!(decide_on_demand(3, 3, true), OnDemandDecision::AlreadyExists);
    assert_eq!(decide_queued(false), OnDemandDecision::Generate);
    assert_eq!(decide_queued(true), OnDemandDecision::AlreadyExists);
}

#[test]
fn only_missing_artifacts_are_written() {
    assert!(!needs_processing(true, true));
    assert!(needs_processing(false, true));
    assert!(needs_processing(true, false));
    assert_eq!(
        plan_persist(false, false, true),
        PersistPlan { save_summary: true, save_status: true, update_rolling_status: true }
    );
    assert_eq!(
        plan_persist(false, false, false),
        PersistPlan { save_summary: true, save_status: false, update_rolling_status: false }
    );
    assert_eq!(
        plan_persist(true, false, true),
        PersistPlan { save_summary: false, save_status: true, update_rolling_status: true }
    );
    assert_eq!(
        plan_persist(false, true, true),
        PersistPlan { save_summary: true, save_status: false, update_rolling_status: true }
    );
}

#[test]
fn entries_to_process_holds_each_date_once() {
    let a = CycleDate::new(0, 0, 0, 1).unwrap();
    let b = CycleDate::new(0, 0, 0, 2).unwrap();
    let c = CycleDate::new(0, 0, 0, 3).unwrap();
    assert_eq!(entries_to_process(&vec![a, b, a], &vec![b, c, a, c]), vec![a, b, c]);
    assert_eq!(entries_to_process(&vec![], &vec![c, c]), vec![c]);
    assert!(entries_to_process(&vec![], &vec![]).is_empty());
}

#[test]
fn scheduler_runs_the_startup_check_then_waits_and_generates_in_turn() {
    let state = SchedulerState::new();
    assert_eq!(state.phase, SchedulerPhase::Stopped);
    assert!(!state.is_running());
    let (state, action) = state.step(SchedulerEvent::Start);
    assert_eq!((state.phase, action), (SchedulerPhase::Generating, SchedulerAction::RunStartupCheck));
    assert!(state.is_running());
    let (state, action) = state.step(SchedulerEvent::PassFinished);
    assert_eq!((state.phase, action), (SchedulerPhase::Waiting, SchedulerAction::SleepUntilPromptTime));
    let (state, action) = state.step(SchedulerEvent::Woke);
    assert_eq!((state.phase, action), (SchedulerPhase::Generating, SchedulerAction::GenerateDailyPrompts));
    let (state, action) = state.step(SchedulerEvent::PassFinished);
    assert_eq!((state.phase, action), (SchedulerPhase::Waiting, SchedulerAction::SleepUntilPromptTime));
    let (state, action) = state.step(SchedulerEvent::RetryElapsed);
    assert_eq!((state.phase, action), (SchedulerPhase::Waiting, SchedulerAction::SleepUntilPromptTime));
}

#[test]
fn scheduler_stops_only_after_the_pass_in_flight() {
    let (state, _) = SchedulerState::new().step(SchedulerEvent::Start);
    let (state, action) = state.step(SchedulerEvent::Stop);
    assert_eq!((state.phase, action), (SchedulerPhase::Generating, SchedulerAction::Nothing));
    assert!(!state.is_running());
    let (state, action) = state.step(SchedulerEvent::PassFinished);
    assert_eq!((state.phase, action), (SchedulerPhase::Stopped, SchedulerAction::Exit));
    assert_eq!(state, SchedulerState::new());
}

#[test]
fn scheduler_asked_to_stop_while_waiting_still_generates_once_it_wakes() {
    let (state, _) = SchedulerState::new().step(SchedulerEvent::Start);
    let (state, _) = state.step(SchedulerEvent::PassFinished);
    let (state, _) = state.step(SchedulerEvent::Stop);
    assert_eq!(state.phase, SchedulerPhase::Waiting);
    let (state, action) = state.step(SchedulerEvent::Woke);
    assert_eq!((state.phase, action), (SchedulerPhase::Generating, SchedulerAction::GenerateDailyPrompts));
    let (state, action) = state.step(SchedulerEvent::PassFinished);
    assert_eq!((state.phase, action), (SchedulerPhase::Stopped, SchedulerAction::Exit));
}

#[test]
fn scheduler_ignores_a_second_start_and_events_while_stopped() {
    let (running, _) = SchedulerState::new().step(SchedulerEvent::Start);
    assert_eq!(running.step(SchedulerEvent::Start), (running, SchedulerAction::Nothing));
    let stopped = SchedulerState::new();
    for event in [SchedulerEvent::Stop, SchedulerEvent::Woke, SchedulerEvent::RetryElapsed, SchedulerEvent::PassFinished] {
        assert_eq!(stopped.step(event), (stopped, SchedulerAction::Nothing));
    }
    let (asked, _) = running.step(SchedulerEvent::Stop);
    let (resumed, action) = asked.step(SchedulerEvent::Start);
    assert_eq!((resumed, action), (running, SchedulerAction::Nothing));
}

#[test]
fn generation_locks_let_one_generation_hold_a_prompt() {
    let date = CycleDate::new(1, 2, 3, 4).unwrap();
    let other = CycleDate::new(1, 2, 3, 5).unwrap();
    let mut locks = GenerationLocks::new();
    assert!(!locks.is_held(date, ArtifactKind::Prompt(1)));
    assert!(locks.try_acquire(date, ArtifactKind::Prompt(1)));
    assert!(locks.is_held(date, ArtifactKind::Prompt(1)));
    assert!(!locks.try_acquire(date, ArtifactKind::Prompt(1)));
    assert!(locks.try_acquire(date, ArtifactKind::Prompt(2)));
    assert!(locks.try_acquire(other, ArtifactKind::Prompt(1)));
    assert!(locks.try_acquire(date, ArtifactKind::Summary));
    locks.release(date, ArtifactKind::Prompt(1));
    assert!(!locks.is_held(date, ArtifactKind::Prompt(1)));
    assert!(locks.is_held(date, ArtifactKind::Prompt(2)));
    assert!(locks.is_held(other, ArtifactKind::Prompt(1)));
    assert!(locks.try_acquire(date, ArtifactKind::Prompt(1)));
    locks.release(other, ArtifactKind::Status);
    assert!(locks.is_held(date, ArtifactKind::Summary));
}

#[test]
fn backend_failure_skips_the_date_and_writes_nothing() {
    for summary_exists in [false, true] {
        for status_exists in [false, true] {
            assert_eq!(
                after_backend_call(summary_exists, status_exists, BackendOutcome::Failed),
                CatchUpStep::SkipDate
            );
        }
    }
}

#[test]
fn backend_answer_is_written_as_far_as_the_date_lacks_it() {
    assert_eq!(
        after_backend_call(false, false, BackendOutcome::Answered { status_updated: true }),
        CatchUpStep::Persist(PersistPlan { save_summary: true, save_status: true, update_rolling_status: true })
    );
    assert_eq!(
        after_backend_call(false, false, BackendOutcome::Answered { status_updated: false }),
        CatchUpStep::Persist(PersistPlan { save_summary: true, save_status: false, update_rolling_status: false })
    );
    assert_eq!(
        after_backend_call(true, false, BackendOutcome::Answered { status_updated: true }),
        CatchUpStep::Persist(PersistPlan { save_summary: false, save_status: true, update_rolling_status: true })
    );
    assert_eq!(
        after_backend_call(false, true, BackendOutcome::Answered { status_updated: true }),
        CatchUpStep::Persist(PersistPlan { save_summary: true, save_status: false, update_rolling_status: true })
    );
}

#[test]
fn catch_up_goes_on_after_a_failure_for_one_date() {
    let dates = entries_to_process(
        &vec![CycleDate::new(0, 0, 0, 1).unwrap(), CycleDate::new(0, 0, 0, 2).unwrap()],
        &vec![],
    );
    let outcomes = [BackendOutcome::Failed, BackendOutcome::Answered { status_updated: false }];
    let mut summaries_written = Vec::new();
    for (date, outcome) in dates.iter().zip(outcomes) {
        assert!(needs_processing(false, false));
        match after_backend_call(false, false, outcome) {
            CatchUpStep::Persist(plan) => {
                if plan.save_summary {
                    summaries_written.push(*date);
                }
                assert!(!plan.save_status && !plan.update_rolling_status);
            }
            CatchUpStep::SkipDate => {}
        }
    }
    assert_eq!(summaries_written, vec![CycleDate::new(0, 0, 0, 2).unwrap()]);
    assert!(!needs_processing(true, true));
}
