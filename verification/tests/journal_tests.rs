use llm_journal::cycle_date::CycleDate;
use llm_journal::journal::{
    context_fragment, context_requests, get_context_for_prompt, ArtifactKind, ContextLabel,
    ContextRequest, ContextSource, JournalManager, PromptType,
};

fn code_list(requests: &Vec<ContextRequest>) -> Vec<String> {
    requests.iter().map(|r| r.date.to_string()).collect()
}

#[test]
fn prompt_type_follows_the_highest_role_of_the_date() {
    assert_eq!(PromptType::for_date(&CycleDate::new(1, 0, 0, 0).unwrap()), PromptType::YearlyReflection);
    assert_eq!(PromptType::for_date(&CycleDate::new(1, 5, 0, 0).unwrap()), PromptType::MonthlyReflection);
    assert_eq!(PromptType::for_date(&CycleDate::new(1, 5, 2, 0).unwrap()), PromptType::WeeklyReflection);
    assert_eq!(PromptType::for_date(&CycleDate::new(1, 5, 2, 3).unwrap()), PromptType::Daily);
    assert_eq!(PromptType::for_date(&CycleDate::new(1, 0, 0, 3).unwrap()), PromptType::Daily);
}

#[test]
fn prompt_type_labels() {
    assert_eq!(PromptType::Daily.label(), "Daily");
    assert_eq!(PromptType::WeeklyReflection.label(), "Weekly Reflection");
    assert_eq!(PromptType::MonthlyReflection.label(), "Monthly Reflection");
    assert_eq!(PromptType::YearlyReflection.label(), "Yearly Reflection");
}

#[test]
fn file_paths_lie_in_the_directory_of_the_date() {
    let manager = JournalManager::new("journal_entries");
    let date = CycleDate::new(3, 11, 2, 5).unwrap();
    let paths = manager.get_file_paths(&date);
    assert_eq!(paths.entry, "journal_entries/03B25/entry.txt");
    assert_eq!(paths.summary, "journal_entries/03B25/summary.txt");
    assert_eq!(paths.status, "journal_entries/03B25/status.txt");
    assert_eq!(paths.prompt1, "journal_entries/03B25/prompt1.txt");
    assert_eq!(paths.prompt2, "journal_entries/03B25/prompt2.txt");
    assert_eq!(paths.prompt3, "journal_entries/03B25/prompt3.txt");
    assert_eq!(manager.date_dir(&date), "journal_entries/03B25");
    assert_eq!(manager.base_path(), "journal_entries");
}

#[test]
fn file_paths_do_not_double_the_separator() {
    let date = CycleDate::new(0, 0, 0, 0).unwrap();
    assert_eq!(JournalManager::new("data/").get_file_paths(&date).entry, "data/00000/entry.txt");
    assert_eq!(JournalManager::new("").get_file_paths(&date).entry, "00000/entry.txt");
}

#[test]
fn prompt_paths_are_numbered_from_one() {
    let manager = JournalManager::new("j");
    let date = CycleDate::new(1, 2, 3, 4).unwrap();
    assert_eq!(manager.prompt_path(&date, 0), None);
    assert_eq!(manager.prompt_path(&date, 1), Some("j/01234/prompt1.txt".to_string()));
    assert_eq!(manager.prompt_path(&date, 12), Some("j/01234/prompt12.txt".to_string()));
}

#[test]
fn first_day_of_year_asks_for_the_months_of_the_year_before() {
    let requests = context_requests(&CycleDate::new(4, 0, 0, 0).unwrap());
    assert_eq!(
        code_list(&requests),
        vec![
            "03000", "03100", "03200", "03300", "03400", "03500", "03600", "03700", "03800",
            "03900", "03A00", "03B00", "03C00"
        ]
    );
    assert!(requests.iter().all(|r| r.source == ContextSource::Entry && r.label == ContextLabel::Month));
}

#[test]
fn first_day_of_year_zero_asks_for_year_ninety_nine() {
    let requests = context_requests(&CycleDate::new(0, 0, 0, 0).unwrap());
    assert_eq!(requests.len(), 13);
    assert_eq!(requests[0].date, CycleDate { year_cycle: 99, month: 0, week: 0, day: 0 });
    assert_eq!(requests[12].date, CycleDate { year_cycle: 99, month: 12, week: 0, day: 0 });
}

#[test]
fn first_day_of_month_five_asks_for_the_weeks_of_month_four() {
    let requests = context_requests(&CycleDate::new(2, 5, 0, 0).unwrap());
    assert_eq!(code_list(&requests), vec!["02400", "02410", "02420", "02430"]);
    assert!(requests.iter().all(|r| r.source == ContextSource::Entry && r.label == ContextLabel::Week));
}

#[test]
fn first_day_of_week_asks_for_the_entries_of_seven_days() {
    let requests = context_requests(&CycleDate::new(1, 5, 2, 0).unwrap());
    assert_eq!(code_list(&requests), vec!["01511", "01512", "01513", "01514", "01515", "01516", "01520"]);
    assert!(requests.iter().all(|r| r.source == ContextSource::Entry && r.label == ContextLabel::Day));
}

#[test]
fn ordinary_day_asks_for_the_summaries_of_seven_days() {
    let requests = context_requests(&CycleDate::new(1, 5, 2, 3).unwrap());
    assert_eq!(code_list(&requests), vec!["01514", "01515", "01516", "01520", "01521", "01522", "01523"]);
    assert!(requests.iter().all(|r| r.source == ContextSource::Summary && r.label == ContextLabel::Day));
}

#[test]
fn fragments_carry_the_label_of_their_source() {
    let month = ContextRequest {
        date: CycleDate { year_cycle: 3, month: 11, week: 0, day: 0 },
        source: ContextSource::Entry,
        label: ContextLabel::Month,
    };
    assert_eq!(context_fragment(&month, "a year"), "Month 11 reflection: a year");
    let week = ContextRequest {
        date: CycleDate { year_cycle: 3, month: 4, week: 2, day: 0 },
        source: ContextSource::Entry,
        label: ContextLabel::Week,
    };
    assert_eq!(context_fragment(&week, "a week"), "Week 2 reflection: a week");
    let day = ContextRequest {
        date: CycleDate { year_cycle: 3, month: 11, week: 2, day: 5 },
        source: ContextSource::Summary,
        label: ContextLabel::Day,
    };
    assert_eq!(context_fragment(&day, "a day"), "Day 03B25: a day");
}

#[test]
fn context_skips_what_was_not_found_and_keeps_the_order() {
    let requests = context_requests(&CycleDate::new(1, 5, 2, 0).unwrap());
    let found = vec![
        None,
        Some("two".to_string()),
        None,
        Some("four".to_string()),
        None,
        None,
        Some("seven".to_string()),
    ];
    let context = get_context_for_prompt(&requests, &found);
    assert_eq!(context, vec!["Day 01512: two", "Day 01514: four", "Day 01520: seven"]);
    assert!(context.len() <= 7);
}

#[test]
fn context_of_nothing_found_is_empty() {
    let requests = context_requests(&CycleDate::new(1, 5, 0, 0).unwrap());
    assert!(get_context_for_prompt(&requests, &vec![None, None, None, None]).is_empty());
    assert!(get_context_for_prompt(&requests, &Vec::new()).is_empty());
}

#[test]
fn context_of_a_month_start_labels_the_weeks() {
    let requests = context_requests(&CycleDate::new(1, 0, 0, 0 + 0).unwrap());
    assert_eq!(requests.len(), 13);
    let requests = context_requests(&CycleDate::new(1, 0 + 1, 0, 0).unwrap());
    let found = vec![Some("w0".to_string()), Some("w1".to_string()), Some("w2".to_string()), Some("w3".to_string())];
    assert_eq!(
        get_context_for_prompt(&requests, &found),
        vec!["Week 0 reflection: w0", "Week 1 reflection: w1", "Week 2 reflection: w2", "Week 3 reflection: w3"]
    );
    assert_eq!(requests[0].date, CycleDate { year_cycle: 1, month: 0, week: 0, day: 0 });
}

#[test]
fn first_month_of_a_year_looks_back_into_the_year_before() {
    let requests = context_requests(&CycleDate::new(0, 0, 0, 0).unwrap());
    assert_eq!(requests[0].date.year_cycle, 99);
    let date = CycleDate { year_cycle: 5, month: 0, week: 0, day: 0 };
    assert!(date.is_first_day_of_year());
}

#[test]
fn artifacts_are_addressed_by_date_and_kind() {
    let manager = JournalManager::new("j");
    let date = CycleDate::new(1, 2, 3, 4).unwrap();
    assert_eq!(manager.artifact_path(&date, ArtifactKind::Entry), Some("j/01234/entry.txt".to_string()));
    assert_eq!(manager.artifact_path(&date, ArtifactKind::Summary), Some("j/01234/summary.txt".to_string()));
    assert_eq!(manager.artifact_path(&date, ArtifactKind::Status), Some("j/01234/status.txt".to_string()));
    assert_eq!(manager.artifact_path(&date, ArtifactKind::Prompt(2)), Some("j/01234/prompt2.txt".to_string()));
    assert_eq!(manager.artifact_path(&date, ArtifactKind::Prompt(0)), None);
    assert!(!ArtifactKind::Entry.is_generated());
    assert!(ArtifactKind::Summary.is_generated());
    assert!(ArtifactKind::Status.is_generated());
    assert!(ArtifactKind::Prompt(1).is_generated());
    assert_eq!(ContextSource::Entry.artifact(), ArtifactKind::Entry);
    assert_eq!(ContextSource::Summary.artifact(), ArtifactKind::Summary);
}
