use daybook::{
    build_daily_report_prompt, extract_reply, format_hm, generate_daily_report_request,
    prepare_message, AppError, ConfigManager, DoneTask, Idea, RecordStore, TodayRecords,
};

// 2024-01-15T09:00:00Z and 2024-01-15T10:30:00Z
const TS_0900: i64 = 1705309200;
const TS_1030: i64 = 1705314600;

fn configured_manager() -> ConfigManager {
    let mut manager = ConfigManager::new();
    manager
        .save_api_config(
            "sk-key".to_string(),
            "https://api.example.com/v1".to_string(),
            "test-model".to_string(),
        )
        .unwrap();
    manager
}

#[test]
fn send_without_config_fails_before_any_request_exists() {
    let manager = ConfigManager::new();
    let r = prepare_message(&manager, "hello");
    assert!(matches!(r, Err(AppError::ConfigMissing)));
}

#[test]
fn daily_report_without_config_fails_with_config_missing() {
    let store = RecordStore::new();
    let manager = ConfigManager::new();
    let r = generate_daily_report_request(&store, &manager);
    assert!(matches!(r, Err(AppError::ConfigMissing)));
}

#[test]
fn prepare_message_builds_url_key_and_json_body() {
    let manager = configured_manager();
    let request = prepare_message(&manager, "hello \"world\"").unwrap();
    assert_eq!(request.url, "https://api.example.com/v1/chat/completions");
    assert_eq!(request.api_key, "sk-key");
    let body: serde_json::Value = serde_json::from_str(&request.body).unwrap();
    assert_eq!(body["model"].as_str().unwrap(), "test-model");
    assert_eq!(body["stream"].as_bool().unwrap(), false);
    let messages = body["messages"].as_array().unwrap();
    assert_eq!(messages.len(), 2);
    assert_eq!(messages[0]["role"].as_str().unwrap(), "system");
    assert_eq!(messages[1]["role"].as_str().unwrap(), "user");
    assert_eq!(messages[1]["content"].as_str().unwrap(), "hello \"world\"");
}

#[test]
fn report_prompt_contains_task_line_with_time_box() {
    let records = TodayRecords {
        ideas: vec![],
        tasks: vec![DoneTask {
            id: 1,
            content: "write report".to_string(),
            start_time: TS_0900,
            end_time: TS_1030,
            attachments: vec![],
            created_at: TS_1030,
            date: "2024-01-15".to_string(),
        }],
    };
    let prompt = build_daily_report_prompt(&records);
    assert!(prompt.contains("- [09:00-10:30] write report\n"));
}

#[test]
fn report_prompt_lists_ideas_as_bullets() {
    let records = TodayRecords {
        ideas: vec![
            Idea {
                id: 1,
                content: "buy milk".to_string(),
                attachments: vec![],
                created_at: TS_0900,
                date: "2024-01-15".to_string(),
            },
            Idea {
                id: 2,
                content: "call mom".to_string(),
                attachments: vec![],
                created_at: TS_0900,
                date: "2024-01-15".to_string(),
            },
        ],
        tasks: vec![],
    };
    let prompt = build_daily_report_prompt(&records);
    assert!(prompt.contains("今日想法：\n- buy milk\n- call mom\n"));
}

#[test]
fn report_prompt_omits_empty_sections() {
    let empty = TodayRecords { ideas: vec![], tasks: vec![] };
    let prompt = build_daily_report_prompt(&empty);
    assert!(!prompt.contains("今日想法"));
    assert!(!prompt.contains("今日完成"));
    assert!(prompt.contains("请根据以下记录总结今天"));
}

#[test]
fn extract_reply_reads_the_first_choice() {
    let body = "{\"choices\":[{\"message\":{\"role\":\"assistant\",\"content\":\"hi there\"}}]}";
    assert_eq!(extract_reply(body), Ok("hi there".to_string()));
}

#[test]
fn extract_reply_defaults_on_unexpected_shape() {
    assert_eq!(extract_reply("{}"), Ok("(no reply)".to_string()));
    assert_eq!(extract_reply("{\"choices\":[]}"), Ok("(no reply)".to_string()));
    assert_eq!(
        extract_reply("{\"choices\":[{\"message\":{}}]}"),
        Ok("(no reply)".to_string())
    );
    assert_eq!(
        extract_reply("{\"choices\":[{\"message\":{\"content\":42}}]}"),
        Ok("(no reply)".to_string())
    );
}

#[test]
fn extract_reply_rejects_non_json() {
    assert_eq!(extract_reply("not json"), Err(AppError::ResponseParseError));
    assert_eq!(extract_reply(""), Err(AppError::ResponseParseError));
}

#[test]
fn format_hm_pads_and_wraps() {
    assert_eq!(format_hm(0), "00:00");
    assert_eq!(format_hm(86399), "23:59");
    assert_eq!(format_hm(TS_0900), "09:00");
    assert_eq!(format_hm(TS_1030), "10:30");
    assert_eq!(format_hm(-1), "23:59");
}

#[test]
fn daily_report_request_carries_store_content() {
    let mut store = RecordStore::new();
    store
        .add_done_task("write report".to_string(), TS_0900, TS_1030, vec![], TS_1030)
        .unwrap();
    let manager = configured_manager();
    // The request only carries today's records; the fixed frame is
    // always present whatever the clock says.
    let request = generate_daily_report_request(&store, &manager).unwrap();
    let body: serde_json::Value = serde_json::from_str(&request.body).unwrap();
    let user_turn = body["messages"][1]["content"].as_str().unwrap();
    assert!(user_turn.contains("请根据以下记录总结今天"));
    assert!(user_turn.contains("请用中文写一段简短友好的总结。"));
}
