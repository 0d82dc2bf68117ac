use crate::journal::PromptType;
use crate::text::{chars_of, decimal, push_decimal, replace_all, replaced, string_of};
use vstd::prelude::*;

verus! {

/// The place in the summary template where the entry's text goes.
pub const ENTRY_PLACEHOLDER: &'static str = "{entry_content}";

/// The place in a prompt template where the context goes.
pub const CONTEXT_PLACEHOLDER: &'static str = "{context}";

/// The place in the variation for further prompts where the prompt's number
/// goes.
pub const NUMBER_PLACEHOLDER: &'static str = "{number}";

/// The template of the request for a summary.
pub const DEFAULT_SUMMARY_GENERATION: &'static str =
    "Please summarize the following journal entry in 2-3 sentences, focusing on key emotions, events, and insights:\n\n{entry_content}\n\nSummary:";

/// The template of the request for the prompt of an ordinary day.
pub const DEFAULT_DAILY_PROMPT: &'static str =
    "Based on the following journal summaries from the past week, create an insightful and thought-provoking journal prompt for today. The prompt should help the person reflect on patterns, growth, or connections to recent experiences:\n\n{context}\n\nToday's journal prompt:";

/// The template of the request for the prompt of the first day of a week.
pub const DEFAULT_WEEKLY_REFLECTION: &'static str =
    "Based on the following journal entries from the past week, create a reflective prompt that encourages deeper weekly reflection on themes, patterns, growth, and lessons learned:\n\n{context}\n\nWeekly reflection prompt:";

/// The template of the request for the prompt of the first day of a month.
pub const DEFAULT_MONTHLY_REFLECTION: &'static str =
    "Based on the following weekly reflections from the past month, create a comprehensive monthly reflection prompt that explores broader patterns, achievements, challenges, and personal growth:\n\n{context}\n\nMonthly reflection prompt:";

/// The template of the request for the prompt of the first day of a year.
pub const DEFAULT_YEARLY_REFLECTION: &'static str =
    "Based on the following monthly reflections from the past year, create a profound yearly reflection prompt that encourages deep introspection on personal transformation, major themes, life lessons, and future aspirations:\n\n{context}\n\nYearly reflection prompt:";

/// What is added to the request for the second prompt of a day.
pub const DEFAULT_SECOND_VARIATION: &'static str =
    "\n\nCreate a different perspective or angle for this prompt:";

/// What is added to the request for the third prompt of a day.
pub const DEFAULT_THIRD_VARIATION: &'static str =
    "\n\nCreate a third unique approach to this reflection:";

/// What is added to the request for a further prompt of a day.
pub const DEFAULT_ADDITIONAL_VARIATION: &'static str =
    "\n\nCreate another unique and creative approach to this reflection (variation #{number}):";

/// What is added to a prompt request so that the second, the third and the
/// further prompts of a day differ from the first.
#[derive(Debug, Clone)]
pub struct PromptVariations {
    pub second: String,
    pub third: String,
    pub additional: String,
}

/// The templates of the requests that are sent to the generation backend.
#[derive(Debug, Clone)]
pub struct PromptsConfig {
    pub summary_generation: String,
    pub daily_prompt: String,
    pub weekly_reflection: String,
    pub monthly_reflection: String,
    pub yearly_reflection: String,
    pub prompt_variations: PromptVariations,
}

impl Default for PromptsConfig {
    fn default() -> (r: PromptsConfig)
        ensures
            r.summary_generation@ == DEFAULT_SUMMARY_GENERATION@,
            r.daily_prompt@ == DEFAULT_DAILY_PROMPT@,
            r.weekly_reflection@ == DEFAULT_WEEKLY_REFLECTION@,
            r.monthly_reflection@ == DEFAULT_MONTHLY_REFLECTION@,
            r.yearly_reflection@ == DEFAULT_YEARLY_REFLECTION@,
            r.prompt_variations.second@ == DEFAULT_SECOND_VARIATION@,
            r.prompt_variations.third@ == DEFAULT_THIRD_VARIATION@,
            r.prompt_variations.additional@ == DEFAULT_ADDITIONAL_VARIATION@,
    {
        PromptsConfig {
            summary_generation: DEFAULT_SUMMARY_GENERATION.to_owned(),
            daily_prompt: DEFAULT_DAILY_PROMPT.to_owned(),
            weekly_reflection: DEFAULT_WEEKLY_REFLECTION.to_owned(),
            monthly_reflection: DEFAULT_MONTHLY_REFLECTION.to_owned(),
            yearly_reflection: DEFAULT_YEARLY_REFLECTION.to_owned(),
            prompt_variations: PromptVariations {
                second: DEFAULT_SECOND_VARIATION.to_owned(),
                third: DEFAULT_THIRD_VARIATION.to_owned(),
                additional: DEFAULT_ADDITIONAL_VARIATION.to_owned(),
            },
        }
    }
}

impl PromptsConfig {
    /// The template that belongs to a kind of prompt.
    pub open spec fn spec_template(&self, prompt_type: PromptType) -> Seq<char> {
        match prompt_type {
            PromptType::Daily => self.daily_prompt@,
            PromptType::WeeklyReflection => self.weekly_reflection@,
            PromptType::MonthlyReflection => self.monthly_reflection@,
            PromptType::YearlyReflection => self.yearly_reflection@,
        }
    }

    /// What is added to the request for the prompt with the given number:
    /// nothing for the first, a text of its own for the second and the third,
    /// and for a later one the text for further prompts with the number put
    /// in.
    pub open spec fn spec_variation_suffix(&self, prompt_number: u8) -> Seq<char> {
        if prompt_number == 2 {
            self.prompt_variations.second@
        } else if prompt_number == 3 {
            self.prompt_variations.third@
        } else if prompt_number > 3 {
            replaced(
                self.prompt_variations.additional@,
                NUMBER_PLACEHOLDER@,
                decimal(prompt_number as nat),
            )
        } else {
            Seq::<char>::empty()
        }
    }

    /// The request for a summary of an entry: the summary template with the
    /// entry's text in each of its places.
    pub fn get_summary_prompt(&self, entry_content: &str) -> (r: String)
        ensures
            r@ == replaced(self.summary_generation@, ENTRY_PLACEHOLDER@, entry_content@),
    {
        let template = chars_of(self.summary_generation.as_str());
        let pattern = chars_of(ENTRY_PLACEHOLDER);
        let with = chars_of(entry_content);
        string_of(&replace_all(&template, &pattern, &with))
    }

    /// The request for a prompt of the given kind: its template with the
    /// context in each of its places.
    pub fn get_prompt_template(&self, prompt_type: &PromptType, context: &str) -> (r: String)
        ensures
            r@ == replaced(self.spec_template(*prompt_type), CONTEXT_PLACEHOLDER@, context@),
    {
        let template = match prompt_type {
            PromptType::Daily => chars_of(self.daily_prompt.as_str()),
            PromptType::WeeklyReflection => chars_of(self.weekly_reflection.as_str()),
            PromptType::MonthlyReflection => chars_of(self.monthly_reflection.as_str()),
            PromptType::YearlyReflection => chars_of(self.yearly_reflection.as_str()),
        };
        let pattern = chars_of(CONTEXT_PLACEHOLDER);
        let with = chars_of(context);
        string_of(&replace_all(&template, &pattern, &with))
    }

    /// What is added to the request for the prompt with the given number.
    pub fn get_variation_suffix(&self, prompt_number: u8) -> (r: String)
        ensures
            r@ == self.spec_variation_suffix(prompt_number),
    {
        if prompt_number == 2 {
            self.prompt_variations.second.clone()
        } else if prompt_number == 3 {
            self.prompt_variations.third.clone()
        } else if prompt_number > 3 {
            let template = chars_of(self.prompt_variations.additional.as_str());
            let pattern = chars_of(NUMBER_PLACEHOLDER);
            let mut number: Vec<char> = Vec::new();
            push_decimal(&mut number, prompt_number as u64);
            assert(number@ =~= decimal(prompt_number as nat));
            string_of(&replace_all(&template, &pattern, &number))
        } else {
            String::new()
        }
    }
}

} // verus!
