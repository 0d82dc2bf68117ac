use vstd::prelude::*;

verus! {

/// The directory of the journal, unless another is configured.
pub const DEFAULT_JOURNAL_DIRECTORY: &'static str = "journal_entries";

/// The time of day of the nightly processing, unless another is configured.
pub const DEFAULT_PROCESSING_TIME: &'static str = "03:00";

/// The time of day at which prompts are generated, unless another is
/// configured.
pub const DEFAULT_PROMPT_GENERATION_TIME: &'static str = "06:00";

/// The number of prompts of a day, unless another is configured.
pub const DEFAULT_MAX_PROMPTS_PER_DAY: u8 = 3;

/// The settings of the journal: where it is kept, when its background work
/// runs, and how many prompts a day gets.
#[derive(Debug, Clone)]
pub struct JournalConfig {
    /// The directory of the journal.
    pub journal_directory: String,
    /// The time of day of the nightly processing, as `HH:MM`.
    pub processing_time: String,
    /// The time of day at which the day's prompts are generated, as `HH:MM`.
    pub prompt_generation_time: String,
    /// The number of prompts that are generated for a day.
    pub max_prompts_per_day: u8,
}

impl Default for JournalConfig {
    fn default() -> (r: JournalConfig)
        ensures
            r.journal_directory@ == DEFAULT_JOURNAL_DIRECTORY@,
            r.processing_time@ == DEFAULT_PROCESSING_TIME@,
            r.prompt_generation_time@ == DEFAULT_PROMPT_GENERATION_TIME@,
            r.max_prompts_per_day == DEFAULT_MAX_PROMPTS_PER_DAY,
    {
        JournalConfig {
            journal_directory: DEFAULT_JOURNAL_DIRECTORY.to_owned(),
            processing_time: DEFAULT_PROCESSING_TIME.to_owned(),
            prompt_generation_time: DEFAULT_PROMPT_GENERATION_TIME.to_owned(),
            max_prompts_per_day: DEFAULT_MAX_PROMPTS_PER_DAY,
        }
    }
}

} // verus!
