use loss::event_source::{KeyCode, KeyEvent, KeyModifiers};
use loss::prompt::{Prompt, PromptAction};

#[test]
fn test_prompt_history() {
    let mut prompt = Prompt::default();
    prompt.start();
    assert_eq!(prompt.previous_one(), String::default());
    assert_eq!(prompt.next_one(), String::default());

    prompt.push_history("123");
    prompt.start();
    assert_eq!(prompt.previous_one(), "123".to_string());
    assert_eq!(prompt.next_one(), String::default());
    assert_eq!(prompt.previous_one(), "123".to_string());

    prompt.push_history("456");
    prompt.start();
    assert_eq!(prompt.previous_one(), "456".to_string());
    assert_eq!(prompt.previous_one(), "123".to_string());
    assert_eq!(prompt.previous_one(), "123".to_string());
    assert_eq!(prompt.next_one(), "456".to_string());
    assert_eq!(prompt.next_one(), String::default());

    prompt.push_history("456");
    assert_eq!(prompt.prompt_history.len(), 2);

    prompt.push_history("123");
    assert_eq!(prompt.prompt_history.len(), 3);
}

fn key(code: KeyCode) -> KeyEvent {
    KeyEvent::new(code, KeyModifiers::NONE)
}

#[test]
fn prompt_takes_text_and_enters_it() {
    let mut prompt = Prompt::default();
    assert!(!prompt.is_active());
    prompt.start();
    assert!(prompt.is_active());
    assert_eq!(
        prompt.handle_raw_event(&key(KeyCode::Char('a'))),
        Some(PromptAction::Content("a".to_string()))
    );
    assert_eq!(
        prompt.handle_raw_event(&KeyEvent::new(KeyCode::Char('B'), KeyModifiers::SHIFT)),
        Some(PromptAction::Content("aB".to_string()))
    );
    assert_eq!(
        prompt.handle_raw_event(&key(KeyCode::Backspace)),
        Some(PromptAction::Content("a".to_string()))
    );
    assert_eq!(
        prompt.handle_raw_event(&KeyEvent::new(KeyCode::Char('c'), KeyModifiers::CONTROL)),
        None
    );
    assert_eq!(prompt.handle_raw_event(&key(KeyCode::Home)), None);
    assert_eq!(
        prompt.handle_raw_event(&key(KeyCode::Enter)),
        Some(PromptAction::Enter("a".to_string()))
    );
    assert!(!prompt.is_active());
    assert_eq!(prompt.prompt_history, vec!["a".to_string()]);
}

#[test]
fn prompt_walks_its_history_and_cancels() {
    let mut prompt = Prompt::default();
    prompt.push_history("one");
    prompt.push_history("two");
    prompt.start();
    assert_eq!(
        prompt.handle_raw_event(&key(KeyCode::Up)),
        Some(PromptAction::Content("two".to_string()))
    );
    assert_eq!(
        prompt.handle_raw_event(&key(KeyCode::Up)),
        Some(PromptAction::Content("one".to_string()))
    );
    assert_eq!(
        prompt.handle_raw_event(&key(KeyCode::Down)),
        Some(PromptAction::Content("two".to_string()))
    );
    assert_eq!(
        prompt.handle_raw_event(&key(KeyCode::Down)),
        Some(PromptAction::Content(String::new()))
    );
    assert_eq!(prompt.handle_raw_event(&key(KeyCode::Backspace)), Some(PromptAction::Content(String::new())));
    assert_eq!(prompt.handle_raw_event(&key(KeyCode::Esc)), Some(PromptAction::Cancel));
    assert!(!prompt.is_active());
    assert_eq!(prompt.prompt_history.len(), 2);
}
