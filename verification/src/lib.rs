//! A local-first journaling core: timestamped idea notes, time-boxed done
//! tasks with attachments, reusable prompt templates, stored AI credentials,
//! and assembly of a daily-report request for a chat-completion endpoint.

use vstd::prelude::*;

mod ai;
mod attachments;
mod config;
mod dates;
mod errors;
mod jsontext;
mod lexord;
mod models;
mod ordering;
mod prompts;
mod records;
mod rowmap;
mod seqfacts;

pub use ai::{build_daily_report_prompt, chat_body_json, chat_url, daily_report_prompt};
pub use ai::{extract_reply, generate_daily_report_request, idea_line, idea_lines};
pub use ai::{json_wellformed, prepare_message, reply_of, system_prompt, task_line, task_lines};
pub use ai::{ChatRequest, ChatRequestModel};
pub use attachments::{decode_attachments, encodable, json_of_strings, strings_of_json};
pub use config::ConfigManager;
pub use dates::{date_of_timestamp, format_hm, hm_of_timestamp, is_local_date_of};
pub use dates::timestamp_in_range;
pub use dates::{TIMESTAMP_MAX, TIMESTAMP_MIN};
pub use errors::AppError;
pub use jsontext::{config_json, escape_str, has_short_escape, short_unescape};
pub use jsontext::{lemma_config_roundtrip, lemma_parse_config_sound};
pub use jsontext::{lemma_parse_escaped, lemma_parse_sound, parse_config, parse_str};
pub use lexord::{lemma_lex_antisym, lemma_lex_total, lemma_lex_trans};
pub use lexord::{lex_le, lex_lt, str_eq, str_lex_le};
pub use models::{ApiConfig, ConfigModel, DoneTask, Idea, IdeaModel, IdeaRow, IdeaRowModel};
pub use models::{Prompt, PromptModel, RecordsModel, TaskModel, TaskRow, TaskRowModel, TodayRecords};
pub use ordering::{idea_row_before, idea_row_order, prompt_order, task_row_before};
pub use ordering::{task_row_order, task_start_order};
pub use prompts::{has_id, has_name, name_taken_by_other, prompt_keeps, prompt_overwritten};
pub use prompts::PromptStore;
pub use records::{idea_appended, idea_in_range, idea_keeps, idea_on_date, task_appended};
pub use records::{row_of_idea, row_of_task};
pub use records::{lemma_delete_idea_idempotent, lemma_delete_task_idempotent, RecordStore};
pub use records::{rows_of_ideas, rows_of_tasks, task_in_range, task_keeps, task_on_date};
pub use rowmap::{idea_from_row, prompt_from_row, task_from_row};
pub use rowmap::{RawIdeaRow, RawPromptRow, RawTaskRow};

verus! {

} // verus!
