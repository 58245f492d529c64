//! Forms.
use todui::errors::TodoError;
use todui::forms::{
    handle_single_line_input, parse_labels, parse_nullable_datetime, parse_nullable_text,
    stated_datetime, ChatAction, ChatForm, EditAction, EditForm, SettingTextAction, SettingTextForm,
};
use todui::field::EditableField;
use todui::key::{KeyCode, KeyEvent, KeyModifiers};
use todui::model::Task;
use todui::settings::SettingsField;
use todui::time::OffsetInstant;

fn sample_task() -> Task {
    Task {
        id: "0197f27f-83b0-7000-8000-000000000001".to_string(),
        title: "Do the thing".to_string(),
        content: "Content with **bold**, _italic_, and `code`.".to_string(),
        labels: vec!["task".to_string()],
        branch: None,
        created_at: "2026-06-25T10:10:06+02:00".to_string(),
        updated_at: None,
        completed_at: None,
        due_at: None,
    }
}

fn press(code: KeyCode) -> KeyEvent {
    KeyEvent { code, modifiers: KeyModifiers::Plain }
}

fn with(code: KeyCode, modifiers: KeyModifiers) -> KeyEvent {
    KeyEvent { code, modifiers }
}

#[test]
fn edit_update_keeps_created_at_out_of_form_and_validates_dates() {
    let task = sample_task();
    let mut form = EditForm::from_task(&task);

    assert_eq!(form.fields.len(), 6);
    assert!(!form.fields.iter().any(|field| field.label == "Created at"));

    form.fields[0].value = "New title".to_string();
    form.fields[2].value = "one, two, , three".to_string();
    form.fields[3].value = "feature/example".to_string();
    form.fields[4].value = "2026-06-25T12:00:00+02:00".to_string();
    let update = form.to_update().unwrap();

    assert_eq!(update.title, "New title");
    assert_eq!(update.labels, vec!["one", "two", "three"]);
    assert_eq!(update.branch.as_deref(), Some("feature/example"));
    assert_eq!(update.completed_at.as_deref(), Some("2026-06-25T12:00:00+02:00"));

    form.fields[3].value = "   ".to_string();
    assert_eq!(form.to_update().unwrap().branch, None);

    form.fields[5].value = "not a date".to_string();
    let error = form.to_update().unwrap_err().message();
    assert!(error.contains("due_at must be an RFC3339 datetime"));
}

#[test]
fn a_form_needs_a_title_and_dates() {
    let mut form = EditForm::from_task(&sample_task());
    form.fields[4].value = "x".to_string();
    assert_eq!(
        form.to_update(),
        Err(TodoError::InvalidDateTime { field: "completed_at".to_string() })
    );
    form.fields[0].value = " \t".to_string();
    assert_eq!(form.to_update(), Err(TodoError::EmptyTitle));
}

#[test]
fn an_untouched_form_changes_nothing() {
    let mut task = sample_task();
    task.labels = vec!["a b".to_string(), "c".to_string()];
    task.branch = Some("main".to_string());
    task.due_at = Some("2026-06-26T09:00:00+02:00".to_string());
    let update = EditForm::from_task(&task).to_update().unwrap();
    assert_eq!(update.title, task.title);
    assert_eq!(update.content, task.content);
    assert_eq!(update.labels, task.labels);
    assert_eq!(update.branch, task.branch);
    assert_eq!(update.completed_at, task.completed_at);
    assert_eq!(update.due_at, task.due_at);
}

#[test]
fn the_form_of_a_new_task_holds_the_task() {
    let form = EditForm::from_new_task(&sample_task());
    assert_eq!(form.new_task, Some(sample_task()));
    assert_eq!(form.active, 0);
    assert!(form.fields[1].multiline);
    assert!(EditForm::from_task(&sample_task()).new_task.is_none());
}

#[test]
fn tab_goes_round_the_fields() {
    let mut form = EditForm::from_task(&sample_task());
    assert_eq!(form.handle_key(press(KeyCode::BackTab)), EditAction::Stay);
    assert_eq!(form.active, 5);
    assert_eq!(form.handle_key(press(KeyCode::Tab)), EditAction::Stay);
    assert_eq!(form.active, 0);
    form.handle_key(press(KeyCode::Enter));
    assert_eq!(form.active, 1);
    form.handle_key(press(KeyCode::Enter));
    assert_eq!(form.active, 1);
    assert!(form.fields[1].value.ends_with('\n'));
}

#[test]
fn keys_type_into_the_active_field() {
    let mut form = EditForm::from_task(&sample_task());
    form.handle_key(press(KeyCode::Char('!')));
    form.handle_key(with(KeyCode::Char('A'), KeyModifiers::Shift));
    form.handle_key(with(KeyCode::Char('x'), KeyModifiers::Control));
    form.handle_key(with(KeyCode::Char('y'), KeyModifiers::Other));
    assert_eq!(form.fields[0].value, "Do the thing!A");
    form.handle_key(press(KeyCode::Backspace));
    form.handle_key(press(KeyCode::Home));
    form.handle_key(press(KeyCode::Delete));
    assert_eq!(form.fields[0].value, "o the thing!");
    form.handle_key(press(KeyCode::Right));
    assert_eq!(form.fields[0].cursor, 1);
    form.handle_key(press(KeyCode::Left));
    form.handle_key(press(KeyCode::End));
    assert_eq!(form.fields[0].cursor, 12);
    form.active = 1;
    form.fields[1].value = "a\nb\nc".to_string();
    form.fields[1].cursor = 0;
    form.handle_key(press(KeyCode::Down));
    assert_eq!(form.fields[1].cursor, 2);
    form.handle_key(press(KeyCode::Up));
    assert_eq!(form.fields[1].cursor, 0);
    form.handle_key(press(KeyCode::PageDown));
    assert_eq!(form.fields[1].cursor, 2);
    form.handle_key(press(KeyCode::PageUp));
    assert_eq!(form.fields[1].cursor, 0);
}

#[test]
fn forms_are_saved_and_cancelled() {
    let mut form = EditForm::from_task(&sample_task());
    assert_eq!(form.handle_key(press(KeyCode::Esc)), EditAction::Cancel);
    assert_eq!(form.handle_key(press(KeyCode::F(2))), EditAction::Save);
    assert_eq!(
        form.handle_key(with(KeyCode::Char('s'), KeyModifiers::Control)),
        EditAction::Save
    );
    assert_eq!(form.handle_key(press(KeyCode::F(3))), EditAction::Stay);
    assert_eq!(form.handle_key(press(KeyCode::Other)), EditAction::Stay);
}

#[test]
fn labels_are_read_from_a_list() {
    assert_eq!(parse_labels("a, b ,,c"), vec!["a", "b", "c"]);
    assert!(parse_labels("").is_empty());
    assert!(parse_labels(" , ").is_empty());
    let labels = vec!["one".to_string(), "two three".to_string()];
    assert_eq!(parse_labels(&labels.join(", ")), labels);
}

#[test]
fn blank_texts_are_nothing() {
    assert_eq!(parse_nullable_text("  "), None);
    assert_eq!(parse_nullable_text(" a "), Some("a".to_string()));
}

#[test]
fn dates_are_read_and_put_in_their_normal_form() {
    let read = |text: &str| parse_nullable_datetime(text, "due_at");
    assert_eq!(read(" "), Ok(None));
    assert_eq!(
        read(" 2026-06-26t09:00:00.500z "),
        Ok(Some("2026-06-26T09:00:00.500+00:00".to_string()))
    );
    let normal = read("2026-06-26 09:00:00+02:00").unwrap().unwrap();
    assert_eq!(normal, "2026-06-26T09:00:00+02:00");
    assert_eq!(read(&normal), Ok(Some(normal.clone())));
    assert_eq!(
        read("tomorrow"),
        Err(TodoError::InvalidDateTime { field: "due_at".to_string() })
    );
    let instant = OffsetInstant { secs: 0, nanos: 0, offset: 3600 };
    assert_eq!(
        stated_datetime(Some(instant), "x"),
        Ok(Some("1970-01-01T01:00:00+01:00".to_string()))
    );
    assert!(stated_datetime(None, "x").is_err());
}

#[test]
fn the_chat_bar_submits_its_prompt() {
    let mut form = ChatForm::new();
    assert_eq!(form.handle_key(press(KeyCode::Char('h'))), ChatAction::Stay);
    assert_eq!(form.handle_key(press(KeyCode::Char('i'))), ChatAction::Stay);
    assert_eq!(form.handle_key(press(KeyCode::Enter)), ChatAction::Submit("hi".to_string()));
    form.pending = true;
    assert_eq!(form.handle_key(press(KeyCode::Enter)), ChatAction::Stay);
    assert_eq!(form.handle_key(press(KeyCode::Char('x'))), ChatAction::Stay);
    assert_eq!(form.input.value, "hi");
    assert_eq!(form.handle_key(press(KeyCode::Esc)), ChatAction::Cancel);
}

#[test]
fn the_form_of_a_setting_needs_a_value() {
    let mut form = SettingTextForm::new(SettingsField::LlmModel, "m".to_string());
    assert_eq!(form.input.label, "LLM model");
    assert_eq!(form.handle_key(press(KeyCode::Char('x'))), SettingTextAction::Stay);
    assert_eq!(form.value(), Ok("mx".to_string()));
    assert_eq!(form.handle_key(press(KeyCode::Enter)), SettingTextAction::Save);
    assert_eq!(form.handle_key(press(KeyCode::F(2))), SettingTextAction::Save);
    assert_eq!(form.handle_key(press(KeyCode::Esc)), SettingTextAction::Cancel);
    let blank = SettingTextForm::new(SettingsField::LlmModel, "  ".to_string());
    assert_eq!(blank.value(), Err(TodoError::EmptySetting));
}

#[test]
fn a_single_line_ignores_vertical_keys() {
    let mut field = EditableField::single_line("Prompt", "ab".to_string());
    handle_single_line_input(&mut field, press(KeyCode::Up));
    handle_single_line_input(&mut field, press(KeyCode::PageDown));
    assert_eq!(field.cursor, 2);
    handle_single_line_input(&mut field, press(KeyCode::Home));
    assert_eq!(field.cursor, 0);
}
