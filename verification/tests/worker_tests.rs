use llm_journal::config::JournalConfig;
use llm_journal::cycle_date::CycleDate;
use llm_journal::error::JournalError;
use llm_journal::journal::{
    date_of_directory, entry_type_label, DirectoryEntry, JournalManager, PromptType,
};
use llm_journal::journal_processor::{
    cron_expression, nightly_target, parse_processing_time, plan_nightly_prompts,
    processing_schedule,
};
use llm_journal::llm_worker::{
    build_prompt_request, build_status_request, build_summary_request, clean_response,
    interpret_status_response,
};
use llm_journal::personalization::PersonalizationConfig;
use llm_journal::prompts::PromptsConfig;
use llm_journal::real_date::RealDate;

fn config(status: Option<&str>) -> PersonalizationConfig {
    PersonalizationConfig {
        prompts: PromptsConfig::default(),
        profile: Some("P".to_string()),
        style: None,
        status: status.map(|s| s.to_string()),
        holidays: vec![],
        journal_dir: "journal".to_string(),
    }
}

#[test]
fn prompt_request_joins_enriches_and_adds_the_variation() {
    let today = RealDate::from_ymd(2024, 1, 7).unwrap();
    let context = vec!["Day 00000: one".to_string(), "Day 00001: two".to_string()];
    let first = build_prompt_request(&config(None), &context, 1, PromptType::WeeklyReflection, &today);
    assert_eq!(
        first,
        "Based on the following journal entries from the past week, create a reflective prompt that encourages deeper weekly reflection on themes, patterns, growth, and lessons learned:\n\nCURRENT DATE: Sunday, January 07, 2024\n\nUSER PROFILE:\nP\n\nJOURNAL CONTEXT:\nDay 00000: one\n\nDay 00001: two\n\nWeekly reflection prompt:"
    );
    let second = build_prompt_request(&config(None), &context, 2, PromptType::WeeklyReflection, &today);
    assert_eq!(second, format!("{}\n\nCreate a different perspective or angle for this prompt:", first));
    let sixth = build_prompt_request(&config(None), &context, 6, PromptType::WeeklyReflection, &today);
    assert!(sixth.ends_with("(variation #6):"));
}

#[test]
fn summary_request_uses_the_summary_template() {
    assert!(build_summary_request(&config(None), "Today I rested.").contains("\n\nToday I rested.\n\nSummary:"));
}

#[test]
fn status_request_holds_the_current_status_and_the_entry() {
    let request = build_status_request(&config(Some("Moving house.")), "Packed boxes.");
    assert!(request.starts_with("Based on this journal entry and the current status, update the user's ongoing life circumstances."));
    assert!(request.contains("\n\nCURRENT STATUS:\nMoving house.\n\nTODAY'S JOURNAL ENTRY:\nPacked boxes.\n\nPlease provide an updated status summary that:\n1. Preserves"));
    assert!(request.contains("2. Incorporates significant new developments from today's entry  \n3. Removes"));
    assert!(request.ends_with("respond with \"NO_UPDATE_NEEDED\".\n\nUpdated Status:"));
    let without = build_status_request(&config(None), "x");
    assert!(without.contains("CURRENT STATUS:\nNo previous status recorded.\n\n"));
}

#[test]
fn status_response_is_a_new_status_unless_empty_or_declined() {
    assert_eq!(interpret_status_response("  NO_UPDATE_NEEDED \n"), None);
    assert_eq!(interpret_status_response(" \n "), None);
    assert_eq!(interpret_status_response(""), None);
    assert_eq!(interpret_status_response("\n Busy with the move. \n"), Some("Busy with the move.".to_string()));
    assert_eq!(
        interpret_status_response("NO_UPDATE_NEEDED yet"),
        Some("NO_UPDATE_NEEDED yet".to_string())
    );
    assert_eq!(clean_response("  What did you learn?\n"), "What did you learn?");
}

#[test]
fn processing_time_is_hour_and_minute() {
    assert_eq!(parse_processing_time("03:00"), Ok((3, 0)));
    assert_eq!(parse_processing_time("23:59"), Ok((23, 59)));
    assert_eq!(parse_processing_time("3:5"), Ok((3, 5)));
    for text in [
        "", "03", "03:00:00", "24:00", "03:60", "a:b", "03:", ":30", " 03:00", "-1:00", "+3:+5",
        "+03:00", "03:+0",
    ] {
        assert_eq!(parse_processing_time(text), Err(JournalError::InvalidScheduleTime), "{:?}", text);
    }
}

#[test]
fn cron_expression_fires_daily_at_the_minute() {
    assert_eq!(cron_expression(3, 0), "0 0 3 * * *");
    assert_eq!(cron_expression(23, 59), "0 59 23 * * *");
    assert_eq!(processing_schedule("03:30"), Ok("0 30 3 * * *".to_string()));
    assert_eq!(processing_schedule("3h30"), Err(JournalError::InvalidScheduleTime));
}

#[test]
fn nightly_plan_targets_the_day_after() {
    let today = CycleDate::new(2, 4, 3, 6).unwrap();
    assert_eq!(nightly_target(&today), CycleDate { year_cycle: 2, month: 5, week: 0, day: 0 });
    let plan = plan_nightly_prompts(&today, 3, &vec![false, false, false]);
    assert_eq!(plan.target, CycleDate { year_cycle: 2, month: 5, week: 0, day: 0 });
    assert_eq!(plan.prompt_type, PromptType::MonthlyReflection);
    assert_eq!(plan.prompt_numbers, vec![1, 2, 3]);
    let none = plan_nightly_prompts(&CycleDate::new(2, 4, 3, 5).unwrap(), 0, &vec![]);
    assert_eq!(none.prompt_type, PromptType::Daily);
    assert!(none.prompt_numbers.is_empty());
    let all = plan_nightly_prompts(&CycleDate::new(0, 0, 0, 0).unwrap(), 255, &vec![false; 255]);
    assert_eq!(all.prompt_numbers.len(), 255);
    assert_eq!(all.prompt_numbers[254], 255);
}

#[test]
fn nightly_plan_leaves_existing_prompts_alone() {
    let today = CycleDate::new(1, 2, 3, 4).unwrap();
    assert_eq!(plan_nightly_prompts(&today, 3, &vec![true, false, false]).prompt_numbers, vec![2, 3]);
    assert_eq!(plan_nightly_prompts(&today, 3, &vec![false, true, false]).prompt_numbers, vec![1, 3]);
    assert_eq!(plan_nightly_prompts(&today, 4, &vec![true, false, true, false]).prompt_numbers, vec![2, 4]);
    assert!(plan_nightly_prompts(&today, 3, &vec![true, true, true]).prompt_numbers.is_empty());
}

#[test]
fn directories_named_by_a_code_belong_to_a_day() {
    assert_eq!(date_of_directory("03B25"), Some(CycleDate { year_cycle: 3, month: 11, week: 2, day: 5 }));
    assert_eq!(date_of_directory("notes"), None);
    assert_eq!(date_of_directory("03B2"), None);
    assert_eq!(date_of_directory("03B29"), None);
}

#[test]
fn entry_type_follows_the_role_of_the_day() {
    assert_eq!(entry_type_label(&CycleDate::new(1, 0, 0, 0).unwrap()), "Yearly Reflection");
    assert_eq!(entry_type_label(&CycleDate::new(1, 2, 0, 0).unwrap()), "Monthly Reflection");
    assert_eq!(entry_type_label(&CycleDate::new(1, 2, 3, 0).unwrap()), "Weekly Reflection");
    assert_eq!(entry_type_label(&CycleDate::new(1, 2, 3, 4).unwrap()), "Daily Entry");
}

#[test]
fn journal_config_defaults() {
    let config = JournalConfig::default();
    assert_eq!(config.journal_directory, "journal_entries");
    assert_eq!(config.processing_time, "03:00");
    assert_eq!(config.prompt_generation_time, "06:00");
    assert_eq!(config.max_prompts_per_day, 3);
}

#[test]
fn directory_scan_finds_days_with_an_entry_and_no_summary() {
    let entry = |name: &str, is_dir: bool, has_entry: bool, has_summary: bool, has_status: bool| DirectoryEntry {
        name: name.to_string(),
        is_dir,
        has_entry,
        has_summary,
        has_status,
    };
    let listing = vec![
        entry("00001", true, true, false, false),
        entry("00002", true, true, true, false),
        entry("notes", true, true, false, false),
        entry("00003", false, true, false, false),
        entry("00004", true, false, false, false),
        entry("00005", true, true, false, true),
        entry("00009", true, true, false, false),
    ];
    let manager = JournalManager::new("journal");
    let summaries: Vec<String> = manager.find_entries_needing_summaries(&listing).iter().map(|d| d.to_string()).collect();
    assert_eq!(summaries, vec!["00001", "00005"]);
    let status: Vec<String> = manager.find_entries_needing_status(&listing).iter().map(|d| d.to_string()).collect();
    assert_eq!(status, vec!["00001", "00002"]);
}

#[test]
fn manager_builds_the_context_of_a_date() {
    let manager = JournalManager::new("journal");
    let date = CycleDate::new(2, 5, 0, 0).unwrap();
    let found = vec![Some("a".to_string()), None, Some("c".to_string()), None];
    assert_eq!(
        manager.get_context_for_prompt(&date, &found),
        vec!["Week 0 reflection: a", "Week 2 reflection: c"]
    );
}
