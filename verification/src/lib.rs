//! The core of a personal journal that asks its writer questions: a fixed
//! calendar of 364 days by which all content is addressed, the context that
//! is gathered from a day's history, what is known of the writer, and the
//! rules by which summaries, status and prompts are generated on schedule or
//! on demand.

pub mod config;
pub mod cycle_date;
pub mod error;
pub mod handlers;
pub mod journal;
pub mod journal_processor;
pub mod llm_worker;
pub mod personalization;
pub mod prompt_generator;
pub mod prompts;
pub mod real_date;
pub mod text;
