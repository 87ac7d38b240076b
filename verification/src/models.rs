use vstd::prelude::*;

verus! {

// ---------------------------------------------------------------------------
// Stored rows: the shape records take in the backing table, with the
// attachment list serialized into a single text column.
// ---------------------------------------------------------------------------

/// A stored idea row.
pub struct IdeaRow {
    pub id: i64,
    pub content: String,
    /// The attachment list, serialized as a JSON array of strings.
    pub attachments_json: String,
    pub created_at: i64,
    /// `YYYY-MM-DD`, derived from `created_at` at write time.
    pub date: String,
}

/// The mathematical value of an `IdeaRow`.
pub ghost struct IdeaRowModel {
    pub id: int,
    pub content: Seq<char>,
    pub attachments_json: Seq<char>,
    pub created_at: int,
    pub date: Seq<char>,
}

impl View for IdeaRow {
    type V = IdeaRowModel;

    open spec fn view(&self) -> IdeaRowModel {
        IdeaRowModel {
            id: self.id as int,
            content: self.content@,
            attachments_json: self.attachments_json@,
            created_at: self.created_at as int,
            date: self.date@,
        }
    }
}

impl DeepView for IdeaRow {
    type V = IdeaRowModel;

    open spec fn deep_view(&self) -> IdeaRowModel {
        self.view()
    }
}

impl Clone for IdeaRow {
    fn clone(&self) -> (r: Self)
        ensures
            r@ == self@,
    {
        IdeaRow {
            id: self.id,
            content: self.content.clone(),
            attachments_json: self.attachments_json.clone(),
            created_at: self.created_at,
            date: self.date.clone(),
        }
    }
}

/// A stored done-task row.
pub struct TaskRow {
    pub id: i64,
    pub content: String,
    pub start_time: i64,
    pub end_time: i64,
    /// The attachment list, serialized as a JSON array of strings.
    pub attachments_json: String,
    pub created_at: i64,
    /// `YYYY-MM-DD`, derived from `start_time` at write time.
    pub date: String,
}

/// The mathematical value of a `TaskRow`.
pub ghost struct TaskRowModel {
    pub id: int,
    pub content: Seq<char>,
    pub start_time: int,
    pub end_time: int,
    pub attachments_json: Seq<char>,
    pub created_at: int,
    pub date: Seq<char>,
}

impl View for TaskRow {
    type V = TaskRowModel;

    open spec fn view(&self) -> TaskRowModel {
        TaskRowModel {
            id: self.id as int,
            content: self.content@,
            start_time: self.start_time as int,
            end_time: self.end_time as int,
            attachments_json: self.attachments_json@,
            created_at: self.created_at as int,
            date: self.date@,
        }
    }
}

impl DeepView for TaskRow {
    type V = TaskRowModel;

    open spec fn deep_view(&self) -> TaskRowModel {
        self.view()
    }
}

impl Clone for TaskRow {
    fn clone(&self) -> (r: Self)
        ensures
            r@ == self@,
    {
        TaskRow {
            id: self.id,
            content: self.content.clone(),
            start_time: self.start_time,
            end_time: self.end_time,
            attachments_json: self.attachments_json.clone(),
            created_at: self.created_at,
            date: self.date.clone(),
        }
    }
}

// ---------------------------------------------------------------------------
// Reconstructed records: what queries hand back, with the attachment
// list decoded again.
// ---------------------------------------------------------------------------

/// A free-form note with attachment paths, tagged with the calendar day
/// derived from its creation timestamp.
pub struct Idea {
    pub id: i64,
    pub content: String,
    pub attachments: Vec<String>,
    pub created_at: i64,
    /// `YYYY-MM-DD`.
    pub date: String,
}

/// The mathematical value of an `Idea`.
pub ghost struct IdeaModel {
    pub id: int,
    pub content: Seq<char>,
    pub attachments: Seq<Seq<char>>,
    pub created_at: int,
    pub date: Seq<char>,
}

impl View for Idea {
    type V = IdeaModel;

    open spec fn view(&self) -> IdeaModel {
        IdeaModel {
            id: self.id as int,
            content: self.content@,
            attachments: self.attachments.deep_view(),
            created_at: self.created_at as int,
            date: self.date@,
        }
    }
}

/// A completed activity with a start and an end time.
pub struct DoneTask {
    pub id: i64,
    pub content: String,
    pub start_time: i64,
    pub end_time: i64,
    pub attachments: Vec<String>,
    pub created_at: i64,
    /// `YYYY-MM-DD`, derived from `start_time`.
    pub date: String,
}

/// The mathematical value of a `DoneTask`.
pub ghost struct TaskModel {
    pub id: int,
    pub content: Seq<char>,
    pub start_time: int,
    pub end_time: int,
    pub attachments: Seq<Seq<char>>,
    pub created_at: int,
    pub date: Seq<char>,
}

impl View for DoneTask {
    type V = TaskModel;

    open spec fn view(&self) -> TaskModel {
        TaskModel {
            id: self.id as int,
            content: self.content@,
            start_time: self.start_time as int,
            end_time: self.end_time as int,
            attachments: self.attachments.deep_view(),
            created_at: self.created_at as int,
            date: self.date@,
        }
    }
}

/// The records of one calendar day, assembled on demand.
pub struct TodayRecords {
    pub ideas: Vec<Idea>,
    pub tasks: Vec<DoneTask>,
}

/// The mathematical value of a `TodayRecords`.
pub ghost struct RecordsModel {
    pub ideas: Seq<IdeaModel>,
    pub tasks: Seq<TaskModel>,
}

impl View for TodayRecords {
    type V = RecordsModel;

    open spec fn view(&self) -> RecordsModel {
        RecordsModel { ideas: self.ideas.deep_view(), tasks: self.tasks.deep_view() }
    }
}

impl DeepView for Idea {
    type V = IdeaModel;

    open spec fn deep_view(&self) -> IdeaModel {
        self.view()
    }
}

impl DeepView for DoneTask {
    type V = TaskModel;

    open spec fn deep_view(&self) -> TaskModel {
        self.view()
    }
}

// ---------------------------------------------------------------------------
// Prompts and credentials.
// ---------------------------------------------------------------------------

/// A named reusable text template.
pub struct Prompt {
    pub id: i64,
    /// Unique among all stored prompts.
    pub name: String,
    pub content: String,
    pub created_at: i64,
    pub updated_at: i64,
}

/// The mathematical value of a `Prompt`.
pub ghost struct PromptModel {
    pub id: int,
    pub name: Seq<char>,
    pub content: Seq<char>,
    pub created_at: int,
    pub updated_at: int,
}

impl View for Prompt {
    type V = PromptModel;

    open spec fn view(&self) -> PromptModel {
        PromptModel {
            id: self.id as int,
            name: self.name@,
            content: self.content@,
            created_at: self.created_at as int,
            updated_at: self.updated_at as int,
        }
    }
}

impl DeepView for Prompt {
    type V = PromptModel;

    open spec fn deep_view(&self) -> PromptModel {
        self.view()
    }
}

impl Clone for Prompt {
    fn clone(&self) -> (r: Self)
        ensures
            r@ == self@,
    {
        Prompt {
            id: self.id,
            name: self.name.clone(),
            content: self.content.clone(),
            created_at: self.created_at,
            updated_at: self.updated_at,
        }
    }
}

/// Credentials and endpoint selection for the AI bridge.
pub struct ApiConfig {
    pub api_key: String,
    pub api_url: String,
    pub model: String,
}

/// The mathematical value of an `ApiConfig`.
pub ghost struct ConfigModel {
    pub api_key: Seq<char>,
    pub api_url: Seq<char>,
    pub model: Seq<char>,
}

impl View for ApiConfig {
    type V = ConfigModel;

    open spec fn view(&self) -> ConfigModel {
        ConfigModel { api_key: self.api_key@, api_url: self.api_url@, model: self.model@ }
    }
}

impl Clone for ApiConfig {
    fn clone(&self) -> (r: Self)
        ensures
            r@ == self@,
    {
        ApiConfig {
            api_key: self.api_key.clone(),
            api_url: self.api_url.clone(),
            model: self.model.clone(),
        }
    }
}

} // verus!
