use llm_journal::journal::PromptType;
use llm_journal::prompts::PromptsConfig;

#[test]
fn test_prompt_substitution() {
    let config = PromptsConfig::default();
    let context = "Sample context";
    let prompt_type = PromptType::Daily;

    let result = config.get_prompt_template(&prompt_type, context);
    assert!(result.contains("Sample context"));
    assert!(!result.contains("{context}"));
}

#[test]
fn test_variation_suffixes() {
    let config = PromptsConfig::default();

    assert_eq!(config.get_variation_suffix(1), "");
    assert!(config.get_variation_suffix(2).contains("different perspective"));
    assert!(config.get_variation_suffix(3).contains("third unique"));
    assert!(config.get_variation_suffix(5).contains("variation #5"));
}

#[test]
fn default_templates_hold_their_placeholders() {
    let config = PromptsConfig::default();
    assert!(config.summary_generation.contains("Please summarize"));
    assert!(config.summary_generation.contains("{entry_content}"));
    assert!(config.daily_prompt.contains("Today's journal prompt"));
    assert!(config.weekly_reflection.contains("{context}"));
    assert!(config.monthly_reflection.contains("{context}"));
    assert!(config.yearly_reflection.contains("{context}"));
}

#[test]
fn summary_prompt_is_the_template_with_the_entry_put_in() {
    let config = PromptsConfig::default();
    assert_eq!(
        config.get_summary_prompt("Walked the dog."),
        "Please summarize the following journal entry in 2-3 sentences, focusing on key emotions, events, and insights:\n\nWalked the dog.\n\nSummary:"
    );
}

#[test]
fn each_prompt_type_has_its_own_template() {
    let config = PromptsConfig::default();
    assert!(config.get_prompt_template(&PromptType::Daily, "C").ends_with("\n\nC\n\nToday's journal prompt:"));
    assert!(config.get_prompt_template(&PromptType::WeeklyReflection, "C").ends_with("\n\nC\n\nWeekly reflection prompt:"));
    assert!(config.get_prompt_template(&PromptType::MonthlyReflection, "C").ends_with("\n\nC\n\nMonthly reflection prompt:"));
    assert!(config.get_prompt_template(&PromptType::YearlyReflection, "C").ends_with("\n\nC\n\nYearly reflection prompt:"));
}

#[test]
fn variation_suffix_puts_the_number_in() {
    let config = PromptsConfig::default();
    assert_eq!(config.get_variation_suffix(0), "");
    assert_eq!(
        config.get_variation_suffix(2),
        "\n\nCreate a different perspective or angle for this prompt:"
    );
    assert_eq!(
        config.get_variation_suffix(4),
        "\n\nCreate another unique and creative approach to this reflection (variation #4):"
    );
    assert_eq!(
        config.get_variation_suffix(255),
        "\n\nCreate another unique and creative approach to this reflection (variation #255):"
    );
}
