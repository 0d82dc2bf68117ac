use llm_journal::personalization::{upcoming_places, Holiday, PersonalizationConfig};
use llm_journal::prompts::PromptsConfig;
use llm_journal::real_date::RealDate;

fn holiday(name: &str, date: &str, category: &str, description: Option<&str>) -> Holiday {
    Holiday {
        name: name.to_string(),
        date: date.to_string(),
        category: category.to_string(),
        description: description.map(|d| d.to_string()),
        recurring: date.len() == 5,
    }
}

fn config_with(holidays: Vec<Holiday>) -> PersonalizationConfig {
    PersonalizationConfig {
        prompts: PromptsConfig::default(),
        profile: None,
        style: None,
        status: None,
        holidays,
        journal_dir: "/tmp".to_string(),
    }
}

fn day(year: i32, month: u32, day: u32) -> RealDate {
    RealDate::from_ymd(year, month, day).unwrap()
}

#[test]
fn test_enrich_context() {
    let config = PersonalizationConfig {
        prompts: PromptsConfig::default(),
        profile: Some("I'm a software developer".to_string()),
        style: Some("Be encouraging and direct".to_string()),
        status: Some("Currently working on a challenging project".to_string()),
        holidays: vec![],
        journal_dir: "/tmp".to_string(),
    };

    let base_context = "Recent journal entries show stress about work";
    let enriched = config.enrich_context(base_context, &day(2025, 6, 1));

    assert!(enriched.contains("USER PROFILE:"));
    assert!(enriched.contains("COMMUNICATION STYLE:"));
    assert!(enriched.contains("CURRENT STATUS:"));
    assert!(enriched.contains("JOURNAL CONTEXT:"));
    assert!(enriched.contains("software developer"));
    assert!(enriched.contains("encouraging and direct"));
    assert!(enriched.contains("challenging project"));
    assert!(enriched.contains("stress about work"));
}

#[test]
fn test_temporal_awareness() {
    let test_holidays = vec![
        Holiday {
            name: "Test Birthday".to_string(),
            date: "12-25".to_string(),
            category: "birthday".to_string(),
            description: Some("Test person's birthday".to_string()),
            recurring: true,
        },
        Holiday {
            name: "New Year".to_string(),
            date: "01-01".to_string(),
            category: "holiday".to_string(),
            description: None,
            recurring: true,
        },
    ];

    let config = PersonalizationConfig {
        prompts: PromptsConfig::default(),
        profile: Some("Test user".to_string()),
        style: Some("Test style".to_string()),
        status: Some("Test status".to_string()),
        holidays: test_holidays,
        journal_dir: "/tmp".to_string(),
    };
    let today = day(2025, 12, 20);

    let temporal_context = config.get_temporal_context(&today);
    assert!(temporal_context.contains("CURRENT DATE:"));

    let upcoming = config.get_upcoming_holidays(&today);
    assert!(upcoming.len() <= 2);

    let base_context = "Test journal context";
    let enriched = config.enrich_context(base_context, &today);
    assert!(enriched.contains("CURRENT DATE:"));
    assert!(enriched.contains("USER PROFILE:"));
    assert!(enriched.contains("JOURNAL CONTEXT:"));

    println!("Temporal context test passed!");
    println!("Generated temporal context: {}", temporal_context);
}

#[test]
fn enrich_context_is_the_blocks_in_fixed_order() {
    let config = PersonalizationConfig {
        prompts: PromptsConfig::default(),
        profile: Some("P".to_string()),
        style: Some("S".to_string()),
        status: Some("T".to_string()),
        holidays: vec![],
        journal_dir: "/tmp".to_string(),
    };
    assert_eq!(
        config.enrich_context("BASE", &day(2024, 1, 7)),
        "CURRENT DATE: Sunday, January 07, 2024\n\nUSER PROFILE:\nP\n\nCOMMUNICATION STYLE:\nS\n\nCURRENT STATUS:\nT\n\nJOURNAL CONTEXT:\nBASE"
    );
}

#[test]
fn enrich_context_leaves_out_blocks_that_are_absent_or_blank() {
    let config = PersonalizationConfig {
        prompts: PromptsConfig::default(),
        profile: Some("   \n".to_string()),
        style: None,
        status: Some(" kept as written ".to_string()),
        holidays: vec![],
        journal_dir: "/tmp".to_string(),
    };
    assert_eq!(
        config.enrich_context("BASE", &day(2024, 1, 7)),
        "CURRENT DATE: Sunday, January 07, 2024\n\nCURRENT STATUS:\n kept as written \n\nJOURNAL CONTEXT:\nBASE"
    );
}

#[test]
fn holiday_thirty_days_out_is_upcoming_and_thirty_one_is_not() {
    let today = day(2025, 3, 1);
    let config = config_with(vec![
        holiday("At thirty", "03-31", "test", None),
        holiday("At thirty-one", "04-01", "test", None),
    ]);
    assert_eq!(PersonalizationConfig::days_until_holiday(&config.holidays[0], &today), Some(30));
    assert_eq!(PersonalizationConfig::days_until_holiday(&config.holidays[1], &today), Some(31));
    let upcoming = config.get_upcoming_holidays(&today);
    assert_eq!(upcoming.len(), 1);
    assert_eq!(upcoming[0].name, "At thirty");
}

#[test]
fn days_until_rolls_a_past_day_into_the_next_year() {
    let today = day(2025, 12, 26);
    assert_eq!(
        PersonalizationConfig::days_until_holiday(&holiday("Christmas", "12-25", "c", None), &today),
        Some(364)
    );
    assert_eq!(
        PersonalizationConfig::days_until_holiday(&holiday("Boxing", "12-26", "c", None), &today),
        Some(0)
    );
    assert_eq!(
        PersonalizationConfig::days_until_holiday(&holiday("New Year", "01-01", "c", None), &today),
        Some(6)
    );
}

#[test]
fn days_until_a_leap_day() {
    assert_eq!(
        PersonalizationConfig::days_until_holiday(&holiday("Leap", "02-29", "c", None), &day(2023, 3, 1)),
        Some(365)
    );
    assert_eq!(
        PersonalizationConfig::days_until_holiday(&holiday("Leap", "02-29", "c", None), &day(2025, 3, 1)),
        None
    );
}

#[test]
fn days_until_a_dated_day_counts_until_it_has_passed() {
    let one_day = holiday("Launch", "2025-07-04", "work", None);
    assert_eq!(PersonalizationConfig::days_until_holiday(&one_day, &day(2025, 7, 1)), Some(3));
    assert_eq!(PersonalizationConfig::days_until_holiday(&one_day, &day(2025, 7, 4)), Some(0));
    assert_eq!(PersonalizationConfig::days_until_holiday(&one_day, &day(2025, 7, 5)), None);
}

#[test]
fn days_until_is_none_for_dates_of_another_form() {
    let today = day(2025, 7, 1);
    for date in ["", "07", "7-4", "07/04", "0704-", "13-01", "07-32", "2025-7-4", "2025-02-30", "July 4th!!", "2025-07-045"] {
        assert_eq!(
            PersonalizationConfig::days_until_holiday(&holiday("x", date, "c", None), &today),
            None,
            "{:?}",
            date
        );
    }
}

#[test]
fn upcoming_holidays_come_nearest_first_and_keep_their_order_when_equally_near() {
    let today = day(2025, 6, 1);
    let config = config_with(vec![
        holiday("Far", "08-01", "c", None),
        holiday("Ten A", "06-11", "c", None),
        holiday("Today", "06-01", "c", None),
        holiday("Ten B", "06-11", "c", None),
        holiday("Past one-off", "2025-05-01", "c", None),
        holiday("Three", "2025-06-04", "c", None),
        holiday("Unreadable", "soon", "c", None),
    ]);
    let names: Vec<String> = config.get_upcoming_holidays(&today).iter().map(|h| h.name.clone()).collect();
    assert_eq!(names, vec!["Today", "Three", "Ten A", "Ten B"]);
}

#[test]
fn upcoming_places_orders_by_days_and_drops_what_is_far_or_unknown() {
    let days = vec![Some(12), None, Some(0), Some(31), Some(12), Some(30), Some(5)];
    assert_eq!(upcoming_places(&days), vec![2, 6, 0, 4, 5]);
    assert_eq!(upcoming_places(&Vec::new()), Vec::<usize>::new());
}

#[test]
fn temporal_context_names_at_most_five_holidays() {
    let today = day(2025, 6, 1);
    let config = config_with(vec![
        holiday("H6", "06-07", "c", None),
        holiday("H5", "06-06", "c", None),
        holiday("H4", "06-05", "c", None),
        holiday("H3", "06-04", "c", None),
        holiday("H2", "06-03", "c", Some("two days")),
        holiday("H1", "06-02", "family", None),
        holiday("H0", "06-01", "c", Some("now")),
    ]);
    assert_eq!(config.get_upcoming_holidays(&today).len(), 7);
    assert_eq!(
        config.get_temporal_context(&today),
        "CURRENT DATE: Sunday, June 01, 2025\n\nUPCOMING EVENTS (next 30 days):\n- H0 (TODAY): c - now\n- H1 (tomorrow): family \n- H2 (in 2 days): c - two days\n- H3 (in 3 days): c \n- H4 (in 4 days): c \n\n"
    );
}

#[test]
fn temporal_context_without_upcoming_holidays_is_the_date_alone() {
    let config = config_with(vec![holiday("Far", "12-25", "c", None)]);
    assert_eq!(config.get_temporal_context(&day(2025, 6, 1)), "CURRENT DATE: Sunday, June 01, 2025\n\n");
}

#[test]
fn parse_holidays_reads_fields_and_skips_comments() {
    let content = "# comment\n\n12-25|religious|Christmas|Family gathering\r\n  2025-07-04 | work | Launch \n07|seasonal|Summer|  \nbroken|line\n#12-31|x|y\n";
    let holidays = PersonalizationConfig::parse_holidays(content);
    assert_eq!(holidays.len(), 3);
    assert_eq!(holidays[0].date, "12-25");
    assert_eq!(holidays[0].category, "religious");
    assert_eq!(holidays[0].name, "Christmas");
    assert_eq!(holidays[0].description, Some("Family gathering".to_string()));
    assert!(holidays[0].recurring);
    assert_eq!(holidays[1].date, "2025-07-04");
    assert_eq!(holidays[1].name, "Launch");
    assert_eq!(holidays[1].description, None);
    assert!(!holidays[1].recurring);
    assert_eq!(holidays[2].date, "07");
    assert_eq!(holidays[2].description, None);
    assert!(holidays[2].recurring);
}

#[test]
fn default_holiday_list_names_no_holiday() {
    let content = PersonalizationConfig::default_holidays_content();
    assert!(content.starts_with("# This file contains important dates"));
    assert!(PersonalizationConfig::parse_holidays(&content).is_empty());
}

#[test]
fn load_falls_back_on_defaults() {
    let config = PersonalizationConfig::load("journal", PromptsConfig::default(), None, Some("  \n"), None, None);
    assert_eq!(config.profile, Some(PersonalizationConfig::default_profile_content()));
    assert_eq!(config.style, Some(PersonalizationConfig::default_style_content()));
    assert_eq!(config.status, None);
    assert!(config.holidays.is_empty());
    assert_eq!(config.journal_dir, "journal");
    assert!(config.profile.unwrap().starts_with("This file contains static information about you"));
}

#[test]
fn load_trims_what_was_read() {
    let config = PersonalizationConfig::load(
        "journal",
        PromptsConfig::default(),
        Some("  me \n"),
        Some("plain"),
        Some("\n busy week \n"),
        Some("01-01|holiday|New Year"),
    );
    assert_eq!(config.profile, Some("me".to_string()));
    assert_eq!(config.style, Some("plain".to_string()));
    assert_eq!(config.status, Some("busy week".to_string()));
    assert_eq!(config.holidays.len(), 1);
    assert_eq!(config.holidays[0].name, "New Year");
    let blank_status = PersonalizationConfig::load("j", PromptsConfig::default(), None, None, Some("  "), None);
    assert_eq!(blank_status.status, None);
}

#[test]
fn update_status_swaps_only_after_the_write_succeeded() {
    let mut config = config_with(vec![]);
    assert_eq!(config.recorded_status(), None);
    assert_eq!(config.get_current_status(), "No previous status recorded.");
    assert!(config.update_status("first".to_string(), true).is_ok());
    assert_eq!(config.recorded_status(), Some(&"first".to_string()));
    assert!(config.update_status("second".to_string(), false).is_err());
    assert_eq!(config.recorded_status(), Some(&"first".to_string()));
    assert_eq!(config.get_current_status(), "first");
    assert_eq!(config.status_path(), "/tmp/status.txt");
}

#[test]
fn current_status_is_the_sentinel_text_until_one_is_recorded() {
    let mut config = config_with(vec![]);
    assert_eq!(config.get_current_status(), "No previous status recorded.");
    config.status = Some(String::new());
    assert_eq!(config.get_current_status(), "");
    config.status = Some("Moving house.".to_string());
    assert_eq!(config.get_current_status(), "Moving house.");
    assert_eq!(config.status, Some("Moving house.".to_string()));
}

#[test]
fn holiday_dates_are_digits_and_dashes_only() {
    let today = day(2025, 7, 1);
    for date in ["+1-25", "1-+25", "+7-04", "07-+4"] {
        assert_eq!(
            PersonalizationConfig::days_until_holiday(&holiday("x", date, "c", None), &today),
            None,
            "{:?}",
            date
        );
    }
    assert_eq!(
        PersonalizationConfig::days_until_holiday(&holiday("x", "07-04", "c", None), &today),
        Some(3)
    );
}
