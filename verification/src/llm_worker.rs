use crate::journal::PromptType;
use crate::personalization::PersonalizationConfig;
use crate::real_date::RealDate;
use crate::text::{
    chars_equal, chars_of, join, joined, push_str, string_of, string_views_of, trim, trimmed,
};
use vstd::prelude::*;

verus! {

/// What stands between the pieces of a context.
pub const CONTEXT_SEPARATOR: &'static str = "\n\n";

/// The answer by which the backend says that the status stays as it is.
pub const NO_UPDATE_ANSWER: &'static str = "NO_UPDATE_NEEDED";

/// The length that is asked of a summary.
pub const SUMMARY_MAX_TOKENS: usize = 100;

/// The length that is asked of a status.
pub const STATUS_MAX_TOKENS: usize = 200;

/// The length that is asked of a prompt.
pub const PROMPT_MAX_TOKENS: usize = 150;

/// The request for a new status, up to the place of the current status.
pub const STATUS_REQUEST_HEAD: &'static str =
    "Based on this journal entry and the current status, update the user's ongoing life circumstances. Focus on significant changes, ongoing situations, emotional states, relationships, work/health updates, and challenges/projects that should be remembered for future context.\n\nCURRENT STATUS:\n";

/// The request for a new status, between the current status and the entry.
pub const STATUS_REQUEST_MIDDLE: &'static str =
    "\n\nTODAY'S JOURNAL ENTRY:\n";

/// The request for a new status, after the entry.
pub const STATUS_REQUEST_TAIL: &'static str =
    "\n\nPlease provide an updated status summary that:\n1. Preserves important ongoing situations from current status\n2. Incorporates significant new developments from today's entry  \n3. Removes outdated information\n4. Focuses on context that will be valuable for future journal prompts\n5. Keeps it concise but informative (3-5 sentences)\n\nIf today's entry doesn't contain significant status changes, respond with \"NO_UPDATE_NEEDED\".\n\nUpdated Status:";

/// The text of a status, or the text that stands in for one that was never
/// recorded.
pub open spec fn status_or_default(status: Option<String>) -> Seq<char> {
    match status {
        Some(text) => text@,
        None => crate::personalization::NO_STATUS_TEXT@,
    }
}

/// The request for a new status: the current status and the entry in their
/// places.
pub open spec fn spec_status_request(status: Option<String>, entry_content: Seq<char>) -> Seq<char> {
    STATUS_REQUEST_HEAD@ + status_or_default(status) + STATUS_REQUEST_MIDDLE@ + entry_content
        + STATUS_REQUEST_TAIL@
}

/// The new status that an answer of the backend holds: the answer,
/// trimmed, unless that is empty or says that no new status is needed.
pub open spec fn spec_status_update(response: Seq<char>) -> Option<Seq<char>> {
    if trimmed(response).len() == 0 || trimmed(response) == NO_UPDATE_ANSWER@ {
        None
    } else {
        Some(trimmed(response))
    }
}

/// The request for a prompt: the pieces of the context joined by blank
/// lines, enriched, put into the template of the kind of prompt, and
/// followed by the variation for the prompt's number.
pub open spec fn spec_prompt_request(
    config: PersonalizationConfig,
    context: Seq<String>,
    prompt_number: u8,
    prompt_type: PromptType,
    today: int,
) -> Seq<char> {
    crate::text::replaced(
        config.prompts.spec_template(prompt_type),
        crate::prompts::CONTEXT_PLACEHOLDER@,
        config.spec_enrich_context(joined(string_views_of(context), CONTEXT_SEPARATOR@), today),
    ) + config.prompts.spec_variation_suffix(prompt_number)
}

/// The request for a summary of an entry.
pub fn build_summary_request(config: &PersonalizationConfig, entry_content: &str) -> (r: String)
    ensures
        r@ == crate::text::replaced(
            config.prompts.summary_generation@,
            crate::prompts::ENTRY_PLACEHOLDER@,
            entry_content@,
        ),
{
    config.prompts.get_summary_prompt(entry_content)
}

/// The request for a new status after an entry. It is built on the status
/// as it is before the backend is called.
pub fn build_status_request(config: &PersonalizationConfig, entry_content: &str) -> (r: String)
    ensures
        r@ == spec_status_request(config.status, entry_content@),
{
    let mut out: Vec<char> = Vec::new();
    push_str(&mut out, STATUS_REQUEST_HEAD);
    let current = config.get_current_status();
    push_str(&mut out, current.as_str());
    push_str(&mut out, STATUS_REQUEST_MIDDLE);
    push_str(&mut out, entry_content);
    push_str(&mut out, STATUS_REQUEST_TAIL);
    assert(out@ =~= spec_status_request(config.status, entry_content@));
    string_of(&out)
}

/// The new status that an answer of the backend holds, if it holds one.
pub fn interpret_status_response(response: &str) -> (r: Option<String>)
    ensures
        r is Some <==> spec_status_update(response@) is Some,
        r is Some ==> r->0@ == spec_status_update(response@)->0,
{
    let text = trim(&chars_of(response));
    let no_update = chars_of(NO_UPDATE_ANSWER);
    if text.len() == 0 || chars_equal(&text, &no_update) {
        None
    } else {
        Some(string_of(&text))
    }
}

/// What is kept of an answer of the backend: the answer, trimmed.
pub fn clean_response(response: &str) -> (r: String)
    ensures
        r@ == trimmed(response@),
{
    string_of(&trim(&chars_of(response)))
}

/// The request for a prompt.
pub fn build_prompt_request(
    config: &PersonalizationConfig,
    context: &Vec<String>,
    prompt_number: u8,
    prompt_type: PromptType,
    today: &RealDate,
) -> (r: String)
    ensures
        r@ == spec_prompt_request(*config, context@, prompt_number, prompt_type, today@),
{
    let context_text = string_of(&join(context, CONTEXT_SEPARATOR));
    let enriched = config.enrich_context(context_text.as_str(), today);
    let request = config.prompts.get_prompt_template(&prompt_type, enriched.as_str());
    let suffix = config.prompts.get_variation_suffix(prompt_number);
    let mut out: Vec<char> = Vec::new();
    push_str(&mut out, request.as_str());
    push_str(&mut out, suffix.as_str());
    assert(out@ =~= spec_prompt_request(*config, context@, prompt_number, prompt_type, today@));
    string_of(&out)
}

} // verus!
