use daybook::{AppError, PromptStore};

#[test]
fn add_prompt_returns_fresh_ids() {
    let mut store = PromptStore::new();
    let a = store.add_prompt("daily".to_string(), "summarize".to_string()).unwrap();
    let b = store.add_prompt("weekly".to_string(), "review".to_string()).unwrap();
    assert_eq!(a, 1);
    assert_eq!(b, 2);
}

#[test]
fn duplicate_name_is_refused_and_row_untouched() {
    let mut store = PromptStore::new();
    store.add_prompt("daily".to_string(), "original".to_string()).unwrap();
    let r = store.add_prompt("daily".to_string(), "impostor".to_string());
    assert_eq!(r, Err(AppError::DuplicateName));
    let prompts = store.get_prompts();
    assert_eq!(prompts.len(), 1);
    assert_eq!(prompts[0].name, "daily");
    assert_eq!(prompts[0].content, "original");
}

#[test]
fn get_prompts_is_sorted_by_update_time_desc() {
    let mut store = PromptStore::new();
    store.add_prompt("a".to_string(), "1".to_string()).unwrap();
    store.add_prompt("b".to_string(), "2".to_string()).unwrap();
    store.add_prompt("c".to_string(), "3".to_string()).unwrap();
    let prompts = store.get_prompts();
    assert_eq!(prompts.len(), 3);
    for w in prompts.windows(2) {
        assert!(w[0].updated_at >= w[1].updated_at);
    }
}

#[test]
fn update_prompt_overwrites_and_keeps_creation_stamp() {
    let mut store = PromptStore::new();
    let id = store.add_prompt("daily".to_string(), "old".to_string()).unwrap();
    let created = store.get_prompts()[0].created_at;
    store.update_prompt(id, "daily".to_string(), "new".to_string()).unwrap();
    let prompts = store.get_prompts();
    assert_eq!(prompts.len(), 1);
    assert_eq!(prompts[0].name, "daily");
    assert_eq!(prompts[0].content, "new");
    assert_eq!(prompts[0].created_at, created);
    assert!(prompts[0].updated_at >= created);
}

#[test]
fn update_missing_id_is_silent_noop() {
    let mut store = PromptStore::new();
    store.add_prompt("daily".to_string(), "text".to_string()).unwrap();
    let r = store.update_prompt(42, "other".to_string(), "ignored".to_string());
    assert_eq!(r, Ok(()));
    let prompts = store.get_prompts();
    assert_eq!(prompts.len(), 1);
    assert_eq!(prompts[0].name, "daily");
    assert_eq!(prompts[0].content, "text");
}

#[test]
fn rename_onto_taken_name_is_refused() {
    let mut store = PromptStore::new();
    store.add_prompt("daily".to_string(), "1".to_string()).unwrap();
    let id = store.add_prompt("weekly".to_string(), "2".to_string()).unwrap();
    let r = store.update_prompt(id, "daily".to_string(), "2".to_string());
    assert_eq!(r, Err(AppError::DuplicateName));
    let prompts = store.get_prompts();
    assert_eq!(prompts.len(), 2);
    let weekly = prompts.iter().find(|p| p.id == id).unwrap();
    assert_eq!(weekly.name, "weekly");
    assert_eq!(weekly.content, "2");
}

#[test]
fn delete_prompt_is_physical_and_noop_when_absent() {
    let mut store = PromptStore::new();
    let id = store.add_prompt("daily".to_string(), "1".to_string()).unwrap();
    store.add_prompt("weekly".to_string(), "2".to_string()).unwrap();
    assert_eq!(store.delete_prompt(id), Ok(()));
    assert_eq!(store.delete_prompt(id), Ok(()));
    let prompts = store.get_prompts();
    assert_eq!(prompts.len(), 1);
    assert_eq!(prompts[0].name, "weekly");
}
