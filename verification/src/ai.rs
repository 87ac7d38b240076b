use vstd::prelude::*;

use crate::config::ConfigManager;
use crate::dates::{format_hm, hm_of_timestamp, push_char};
use crate::errors::AppError;
use crate::jsontext::{escape_str, escape_to_json, parse_config};
use crate::models::{DoneTask, Idea, IdeaModel, RecordsModel, TaskModel, TodayRecords};
use crate::records::RecordStore;

verus! {

// ---------------------------------------------------------------------------
// The outbound chat request.
// ---------------------------------------------------------------------------

/// Everything the host needs for one chat-completion POST: the full
/// endpoint URL, the bearer token, and the JSON body.
pub struct ChatRequest {
    pub url: String,
    pub api_key: String,
    pub body: String,
}

/// The mathematical value of a `ChatRequest`.
pub ghost struct ChatRequestModel {
    pub url: Seq<char>,
    pub api_key: Seq<char>,
    pub body: Seq<char>,
}

impl View for ChatRequest {
    type V = ChatRequestModel;

    open spec fn view(&self) -> ChatRequestModel {
        ChatRequestModel { url: self.url@, api_key: self.api_key@, body: self.body@ }
    }
}

/// The fixed system turn of every chat request.
pub open spec fn system_prompt() -> Seq<char> {
    "You are a helpful assistant that writes a concise daily summary."@
}

/// The chat-completion endpoint under a configured base URL.
pub open spec fn chat_url(api_url: Seq<char>) -> Seq<char> {
    api_url + "/chat/completions"@
}

/// The JSON body of one chat request: the configured model, the fixed
/// system turn, the caller's message, streaming disabled.
pub open spec fn chat_body_json(model: Seq<char>, message: Seq<char>) -> Seq<char> {
    "{\"model\":\""@ + escape_str(model)
        + "\",\"messages\":[{\"role\":\"system\",\"content\":\""@ + escape_str(system_prompt())
        + "\"},{\"role\":\"user\",\"content\":\""@ + escape_str(message)
        + "\"}],\"stream\":false}"@
}

/// Renders the JSON body of one chat request.
fn build_chat_body(model: &str, message: &str) -> (r: String)
    ensures
        r@ == chat_body_json(model@, message@),
{
    let mut out = String::from_str("{\"model\":\"");
    let em = escape_to_json(model);
    out.append(em.as_str());
    out.append("\",\"messages\":[{\"role\":\"system\",\"content\":\"");
    let es = escape_to_json("You are a helpful assistant that writes a concise daily summary.");
    out.append(es.as_str());
    out.append("\"},{\"role\":\"user\",\"content\":\"");
    let eu = escape_to_json(message);
    out.append(eu.as_str());
    out.append("\"}],\"stream\":false}");
    proof {
        assert(out@ =~= chat_body_json(model@, message@));
    }
    out
}

/// Builds the request for one message against the stored credentials,
/// touching no network: with no configuration saved it fails with
/// `ConfigMissing` and no request value exists at all.
pub fn prepare_message(cfg: &ConfigManager, text: &str) -> (r: Result<ChatRequest, AppError>)
    ensures
        (cfg.file() is None) <==> r == Err::<ChatRequest, AppError>(AppError::ConfigMissing),
        match cfg.file() {
            None => r == Err::<ChatRequest, AppError>(AppError::ConfigMissing),
            Some(s) => match parse_config(s) {
                None => r == Err::<ChatRequest, AppError>(AppError::ConfigCorrupt),
                Some(c) => {
                    &&& r is Ok
                    &&& r->Ok_0@.url == chat_url(c.api_url)
                    &&& r->Ok_0@.api_key == c.api_key
                    &&& r->Ok_0@.body == chat_body_json(c.model, text@)
                },
            },
        },
{
    match cfg.load_config() {
        Err(e) => Err(e),
        Ok(None) => Err(AppError::ConfigMissing),
        Ok(Some(config)) => {
            let url = config.api_url.clone().concat("/chat/completions");
            let body = build_chat_body(config.model.as_str(), text);
            Ok(ChatRequest { url, api_key: config.api_key, body })
        },
    }
}

// ---------------------------------------------------------------------------
// Reading the reply.
// ---------------------------------------------------------------------------

/// The documents serde_json accepts as JSON.
pub uninterp spec fn json_wellformed(s: Seq<char>) -> bool;

/// The reply a well-formed chat-completion response carries: the text
/// under `choices[0].message.content`, or nothing where the document
/// has another shape. A function of the document alone.
pub uninterp spec fn reply_of(s: Seq<char>) -> Option<Seq<char>>;

/// Relies on `serde_json::from_str` for `Value` (it accepts exactly the
/// well-formed JSON documents), on `Value::get` by key and by index,
/// and on `Value::as_str`: the whole extraction is a function of the
/// document text alone, named `reply_of`.
#[verifier::external_body]
fn extract_reply_raw(s: &str) -> (r: Option<Option<String>>)
    ensures
        r is Some <==> json_wellformed(s@),
        r matches Some(t) ==> t.deep_view() == reply_of(s@),
{
    let v: serde_json::Value = match serde_json::from_str(s) {
        Ok(v) => v,
        Err(_) => return None,
    };
    Some(
        v.get("choices")
            .and_then(|c| c.get(0))
            .and_then(|c| c.get("message"))
            .and_then(|m| m.get("content"))
            .and_then(|c| c.as_str())
            .map(|t| t.to_string()),
    )
}

fn reply_placeholder() -> (r: String)
    ensures
        r@ == "(no reply)"@,
{
    String::from_str("(no reply)")
}

/// The reply text in a chat-completion response body: the content of
/// `choices[0].message.content`, the placeholder where the document has
/// another shape, and `ResponseParseError` exactly on non-JSON bodies.
pub fn extract_reply(body: &str) -> (r: Result<String, AppError>)
    ensures
        (r is Err) <==> !json_wellformed(body@),
        r is Err ==> r == Err::<String, AppError>(AppError::ResponseParseError),
        json_wellformed(body@) ==> r is Ok && r->Ok_0@ == (match reply_of(body@) {
            Some(t) => t,
            None => "(no reply)"@,
        }),
{
    match extract_reply_raw(body) {
        None => Err(AppError::ResponseParseError),
        Some(None) => Ok(reply_placeholder()),
        Some(Some(text)) => Ok(text),
    }
}

// ---------------------------------------------------------------------------
// The daily report prompt.
// ---------------------------------------------------------------------------

/// One idea's bullet line.
pub open spec fn idea_line(i: IdeaModel) -> Seq<char> {
    "- "@ + i.content + "\n"@
}

/// The bullet lines for a list of ideas, in order.
pub open spec fn idea_lines(ideas: Seq<IdeaModel>) -> Seq<char>
    decreases ideas.len(),
{
    if ideas.len() == 0 {
        Seq::empty()
    } else {
        idea_line(ideas[0]) + idea_lines(ideas.skip(1))
    }
}

/// One task's bullet line, with its `HH:MM-HH:MM` time box.
pub open spec fn task_line(t: TaskModel) -> Seq<char> {
    "- ["@ + hm_of_timestamp(t.start_time) + "-"@ + hm_of_timestamp(t.end_time) + "] "@
        + t.content + "\n"@
}

/// The bullet lines for a list of tasks, in order.
pub open spec fn task_lines(tasks: Seq<TaskModel>) -> Seq<char>
    decreases tasks.len(),
{
    if tasks.len() == 0 {
        Seq::empty()
    } else {
        task_line(tasks[0]) + task_lines(tasks.skip(1))
    }
}

/// The whole report request: a section per record kind, each omitted
/// when it would be empty, between a fixed opening and closing line.
pub open spec fn daily_report_prompt(rm: RecordsModel) -> Seq<char> {
    "请根据以下记录总结今天：\n"@ + (if rm.ideas.len() == 0 {
        Seq::<char>::empty()
    } else {
        "今日想法：\n"@ + idea_lines(rm.ideas)
    }) + (if rm.tasks.len() == 0 {
        Seq::<char>::empty()
    } else {
        "今日完成：\n"@ + task_lines(rm.tasks)
    }) + "请用中文写一段简短友好的总结。"@
}

/// Listing one more idea appends its line.
proof fn lemma_idea_lines_snoc(a: Seq<IdeaModel>, x: IdeaModel)
    ensures
        idea_lines(a.push(x)) == idea_lines(a) + idea_line(x),
    decreases a.len(),
{
    if a.len() == 0 {
        assert(a.push(x).len() == 1);
        assert(a.push(x)[0] == x);
        assert(a.push(x).skip(1) =~= Seq::<IdeaModel>::empty());
        assert(idea_lines(Seq::<IdeaModel>::empty()) == Seq::<char>::empty());
        assert(idea_lines(a) == Seq::<char>::empty());
        assert(idea_lines(a.push(x)) == idea_line(x) + idea_lines(Seq::<IdeaModel>::empty()));
        assert(idea_lines(a.push(x)) =~= idea_lines(a) + idea_line(x));
    } else {
        lemma_idea_lines_snoc(a.skip(1), x);
        assert(a.push(x)[0] == a[0]);
        assert(a.push(x).skip(1) =~= a.skip(1).push(x));
        assert(idea_lines(a.push(x)) == idea_line(a[0]) + (idea_lines(a.skip(1)) + idea_line(x)));
        assert(idea_line(a[0]) + (idea_lines(a.skip(1)) + idea_line(x)) =~= (idea_line(a[0])
            + idea_lines(a.skip(1))) + idea_line(x));
    }
}

/// Listing one more task appends its line.
proof fn lemma_task_lines_snoc(a: Seq<TaskModel>, x: TaskModel)
    ensures
        task_lines(a.push(x)) == task_lines(a) + task_line(x),
    decreases a.len(),
{
    if a.len() == 0 {
        assert(a.push(x).len() == 1);
        assert(a.push(x)[0] == x);
        assert(a.push(x).skip(1) =~= Seq::<TaskModel>::empty());
        assert(task_lines(Seq::<TaskModel>::empty()) == Seq::<char>::empty());
        assert(task_lines(a) == Seq::<char>::empty());
        assert(task_lines(a.push(x)) == task_line(x) + task_lines(Seq::<TaskModel>::empty()));
        assert(task_lines(a.push(x)) =~= task_lines(a) + task_line(x));
    } else {
        lemma_task_lines_snoc(a.skip(1), x);
        assert(a.push(x)[0] == a[0]);
        assert(a.push(x).skip(1) =~= a.skip(1).push(x));
        assert(task_lines(a.push(x)) == task_line(a[0]) + (task_lines(a.skip(1)) + task_line(x)));
        assert(task_line(a[0]) + (task_lines(a.skip(1)) + task_line(x)) =~= (task_line(a[0])
            + task_lines(a.skip(1))) + task_line(x));
    }
}

fn ideas_section(ideas: &Vec<Idea>) -> (r: String)
    ensures
        r@ == idea_lines(ideas.deep_view()),
{
    let ghost dv = ideas.deep_view();
    let mut out = String::new();
    let mut i: usize = 0;
    proof {
        assert(dv.take(0) =~= Seq::<IdeaModel>::empty());
        assert(out@ =~= idea_lines(dv.take(0)));
    }
    while i < ideas.len()
        invariant
            i <= ideas.len(),
            dv == ideas.deep_view(),
            dv.len() == ideas.len(),
            out@ == idea_lines(dv.take(i as int)),
        decreases ideas.len() - i,
    {
        proof {
            lemma_idea_lines_snoc(dv.take(i as int), dv[i as int]);
            assert(dv.take(i as int).push(dv[i as int]) =~= dv.take(i as int + 1));
            assert(dv[i as int] == ideas@[i as int].deep_view());
        }
        out.append("- ");
        out.append(ideas[i].content.as_str());
        out.append("\n");
        proof {
            assert(out@ =~= idea_lines(dv.take(i as int)) + idea_line(dv[i as int]));
        }
        i = i + 1;
    }
    proof {
        assert(dv.take(dv.len() as int) =~= dv);
    }
    out
}

fn tasks_section(tasks: &Vec<DoneTask>) -> (r: String)
    ensures
        r@ == task_lines(tasks.deep_view()),
{
    let ghost dv = tasks.deep_view();
    let mut out = String::new();
    let mut i: usize = 0;
    proof {
        assert(dv.take(0) =~= Seq::<TaskModel>::empty());
        assert(out@ =~= task_lines(dv.take(0)));
    }
    while i < tasks.len()
        invariant
            i <= tasks.len(),
            dv == tasks.deep_view(),
            dv.len() == tasks.len(),
            out@ == task_lines(dv.take(i as int)),
        decreases tasks.len() - i,
    {
        proof {
            lemma_task_lines_snoc(dv.take(i as int), dv[i as int]);
            assert(dv.take(i as int).push(dv[i as int]) =~= dv.take(i as int + 1));
            assert(dv[i as int] == tasks@[i as int].deep_view());
        }
        out.append("- [");
        let hs = format_hm(tasks[i].start_time);
        out.append(hs.as_str());
        out.append("-");
        let he = format_hm(tasks[i].end_time);
        out.append(he.as_str());
        out.append("] ");
        out.append(tasks[i].content.as_str());
        out.append("\n");
        proof {
            assert(out@ =~= task_lines(dv.take(i as int)) + task_line(dv[i as int]));
        }
        i = i + 1;
    }
    proof {
        assert(dv.take(dv.len() as int) =~= dv);
    }
    out
}

/// Composes the report request from one day's records; an empty record
/// kind contributes no section at all.
pub fn build_daily_report_prompt(records: &TodayRecords) -> (r: String)
    ensures
        r@ == daily_report_prompt(records@),
{
    let mut out = String::from_str("请根据以下记录总结今天：\n");
    if records.ideas.len() > 0 {
        out.append("今日想法：\n");
        let s = ideas_section(&records.ideas);
        out.append(s.as_str());
    }
    proof {
        assert(records@.ideas == records.ideas.deep_view());
        assert(records@.ideas.len() == records.ideas@.len());
    }
    if records.tasks.len() > 0 {
        out.append("今日完成：\n");
        let s = tasks_section(&records.tasks);
        out.append(s.as_str());
    }
    proof {
        assert(records@.tasks == records.tasks.deep_view());
        assert(records@.tasks.len() == records.tasks@.len());
    }
    out.append("请用中文写一段简短友好的总结。");
    proof {
        assert(out@ =~= daily_report_prompt(records@));
    }
    out
}

/// Builds the daily-report chat request from today's records and the
/// stored credentials; the host only has to send it. Fails with
/// `ConfigMissing` before anything else exists when no configuration
/// is saved.
pub fn generate_daily_report_request(store: &RecordStore, cfg: &ConfigManager) -> (r: Result<
    ChatRequest,
    AppError,
>)
    requires
        store.wf(),
    ensures
        (cfg.file() is None) <==> r == Err::<ChatRequest, AppError>(AppError::ConfigMissing),
        match cfg.file() {
            None => r == Err::<ChatRequest, AppError>(AppError::ConfigMissing),
            Some(s) => match parse_config(s) {
                None => r == Err::<ChatRequest, AppError>(AppError::ConfigCorrupt),
                Some(c) => {
                    &&& r is Ok
                    &&& r->Ok_0@.url == chat_url(c.api_url)
                    &&& r->Ok_0@.api_key == c.api_key
                    &&& exists|d: Seq<char>, rm: RecordsModel|
                        store.day_records_match(d, rm) && r->Ok_0@.body == chat_body_json(
                            c.model,
                            daily_report_prompt(rm),
                        )
                },
            },
        },
{
    let records = store.get_today_records();
    let prompt = build_daily_report_prompt(&records);
    let r = prepare_message(cfg, prompt.as_str());
    proof {
        if r is Ok {
            let d = choose|d: Seq<char>| store.day_records_match(d, records@);
            assert(store.day_records_match(d, records@));
        }
    }
    r
}

} // verus!
