use vstd::prelude::*;

use crate::attachments::{decode_attachments, json_of_strings, strings_of_json};
use crate::models::{DoneTask, Idea, Prompt};

verus! {

/// A fetched idea row as a storage layer hands it over: any column may
/// be missing or unreadable.
pub struct RawIdeaRow {
    pub id: Option<i64>,
    pub content: Option<String>,
    pub attachments: Option<String>,
    pub created_at: Option<i64>,
    pub date: Option<String>,
}

/// A fetched done-task row with possibly missing columns.
pub struct RawTaskRow {
    pub id: Option<i64>,
    pub content: Option<String>,
    pub start_time: Option<i64>,
    pub end_time: Option<i64>,
    pub attachments: Option<String>,
    pub created_at: Option<i64>,
    pub date: Option<String>,
}

/// A fetched prompt row with possibly missing columns.
pub struct RawPromptRow {
    pub id: Option<i64>,
    pub name: Option<String>,
    pub content: Option<String>,
    pub created_at: Option<i64>,
    pub updated_at: Option<i64>,
}

/// Reconstructs a typed idea, substituting a safe default for each
/// missing or malformed column, so one corrupted row cannot fail a
/// whole result set.
pub fn idea_from_row(row: RawIdeaRow) -> (r: Idea)
    ensures
        r.id == (match row.id {
            Some(v) => v,
            None => 0,
        }),
        r@.content == (match row.content {
            Some(s) => s@,
            None => Seq::<char>::empty(),
        }),
        r.created_at == (match row.created_at {
            Some(v) => v,
            None => 0,
        }),
        r@.date == (match row.date {
            Some(s) => s@,
            None => Seq::<char>::empty(),
        }),
        r@.attachments == (match row.attachments {
            Some(s) => match strings_of_json(s@) {
                Some(l) => l,
                None => Seq::<Seq<char>>::empty(),
            },
            None => Seq::<Seq<char>>::empty(),
        }),
        match row.attachments {
            Some(s) => forall|l: Seq<Seq<char>>|
                s@ == json_of_strings(l) ==> r@.attachments == l,
            None => r@.attachments.len() == 0,
        },
{
    let attachments = match &row.attachments {
        Some(s) => decode_attachments(s.as_str()),
        None => Vec::new(),
    };
    Idea {
        id: match row.id {
            Some(v) => v,
            None => 0,
        },
        content: match row.content {
            Some(s) => s,
            None => String::new(),
        },
        attachments,
        created_at: match row.created_at {
            Some(v) => v,
            None => 0,
        },
        date: match row.date {
            Some(s) => s,
            None => String::new(),
        },
    }
}

/// Reconstructs a typed done task with the same defaulting policy.
pub fn task_from_row(row: RawTaskRow) -> (r: DoneTask)
    ensures
        r.id == (match row.id {
            Some(v) => v,
            None => 0,
        }),
        r@.content == (match row.content {
            Some(s) => s@,
            None => Seq::<char>::empty(),
        }),
        r.start_time == (match row.start_time {
            Some(v) => v,
            None => 0,
        }),
        r.end_time == (match row.end_time {
            Some(v) => v,
            None => 0,
        }),
        r.created_at == (match row.created_at {
            Some(v) => v,
            None => 0,
        }),
        r@.date == (match row.date {
            Some(s) => s@,
            None => Seq::<char>::empty(),
        }),
        r@.attachments == (match row.attachments {
            Some(s) => match strings_of_json(s@) {
                Some(l) => l,
                None => Seq::<Seq<char>>::empty(),
            },
            None => Seq::<Seq<char>>::empty(),
        }),
        match row.attachments {
            Some(s) => forall|l: Seq<Seq<char>>|
                s@ == json_of_strings(l) ==> r@.attachments == l,
            None => r@.attachments.len() == 0,
        },
{
    let attachments = match &row.attachments {
        Some(s) => decode_attachments(s.as_str()),
        None => Vec::new(),
    };
    DoneTask {
        id: match row.id {
            Some(v) => v,
            None => 0,
        },
        content: match row.content {
            Some(s) => s,
            None => String::new(),
        },
        start_time: match row.start_time {
            Some(v) => v,
            None => 0,
        },
        end_time: match row.end_time {
            Some(v) => v,
            None => 0,
        },
        attachments,
        created_at: match row.created_at {
            Some(v) => v,
            None => 0,
        },
        date: match row.date {
            Some(s) => s,
            None => String::new(),
        },
    }
}

/// Reconstructs a typed prompt with the same defaulting policy.
pub fn prompt_from_row(row: RawPromptRow) -> (r: Prompt)
    ensures
        r.id == (match row.id {
            Some(v) => v,
            None => 0,
        }),
        r@.name == (match row.name {
            Some(s) => s@,
            None => Seq::<char>::empty(),
        }),
        r@.content == (match row.content {
            Some(s) => s@,
            None => Seq::<char>::empty(),
        }),
        r.created_at == (match row.created_at {
            Some(v) => v,
            None => 0,
        }),
        r.updated_at == (match row.updated_at {
            Some(v) => v,
            None => 0,
        }),
{
    Prompt {
        id: match row.id {
            Some(v) => v,
            None => 0,
        },
        name: match row.name {
            Some(s) => s,
            None => String::new(),
        },
        content: match row.content {
            Some(s) => s,
            None => String::new(),
        },
        created_at: match row.created_at {
            Some(v) => v,
            None => 0,
        },
        updated_at: match row.updated_at {
            Some(v) => v,
            None => 0,
        },
    }
}

} // verus!
