//! Projects, tasks, settings and time.
use todui::errors::{short_error_message, TodoError};
use todui::model::{
    apply_task_update, apply_task_update_at, sort_projects, task_is_hidden, task_list_marker,
    toggle_completion, visible_task_indices, visible_task_indices_at, Project, ProjectFile, Task,
    TaskUpdate,
};
use todui::settings::{
    changed_wrap_cols, cycle_codex_reasoning_effort, settings_field, CodexReasoningEffort,
    LlmBackend, Settings, SettingsField, DEFAULT_LLM_BASE_URL, DEFAULT_LLM_MODEL,
    SETTINGS_FIELD_COUNT,
};
use todui::time::{
    current_instant, is_long_done, timestamp, OffsetInstant, UtcInstant, DAY_SECONDS,
    HIDE_COMPLETED_AFTER_DAYS,
};

// 2026-06-25T08:00:00Z
const NOW: UtcInstant = UtcInstant { secs: 1_782_374_400, nanos: 500 };

fn task(completed_at: Option<&str>) -> Task {
    Task {
        id: "0197f27f-83b0-7000-8000-000000000001".to_string(),
        title: "Do the thing".to_string(),
        content: "Content".to_string(),
        labels: vec!["task".to_string()],
        branch: None,
        created_at: "2026-06-25T10:10:06+02:00".to_string(),
        updated_at: None,
        completed_at: completed_at.map(str::to_string),
        due_at: None,
    }
}

fn file(title: &str, stem: &str) -> ProjectFile {
    ProjectFile {
        file_stem: stem.to_string(),
        project: Project {
            title: title.to_string(),
            description: String::new(),
            labels: Vec::new(),
            tasks: Vec::new(),
        },
    }
}

#[test]
fn an_instant_is_stored_to_the_second() {
    assert_eq!(timestamp(NOW), "2026-06-25T08:00:00Z");
    assert_eq!(timestamp(UtcInstant { secs: 0, nanos: 0 }), "1970-01-01T00:00:00Z");
    assert_eq!(
        timestamp(UtcInstant { secs: 59, nanos: 1_500_000_000 }),
        "1970-01-01T00:00:60Z"
    );
    assert_eq!(timestamp(UtcInstant { secs: -1, nanos: 0 }), "1969-12-31T23:59:59Z");
}

#[test]
fn the_present_comes_after_the_past() {
    let before = chrono::Utc::now().timestamp();
    let now = current_instant();
    let after = chrono::Utc::now().timestamp();
    assert!(before <= now.secs && now.secs <= after);
    assert!(now.nanos < 1_000_000_000);
}

#[test]
fn two_weeks_make_a_task_long_done() {
    let two_weeks = HIDE_COMPLETED_AFTER_DAYS * DAY_SECONDS;
    let at = |secs: i64, nanos: u32| Some(OffsetInstant { secs, nanos, offset: 0 });
    assert!(!is_long_done(None, NOW));
    assert!(is_long_done(at(NOW.secs - two_weeks - 1, 0), NOW));
    assert!(is_long_done(at(NOW.secs - two_weeks, 499), NOW));
    assert!(!is_long_done(at(NOW.secs - two_weeks, 500), NOW));
    assert!(!is_long_done(at(NOW.secs, 0), NOW));
    let leap = UtcInstant { secs: NOW.secs - 1, nanos: 1_000_000_000 };
    assert_eq!(leap.cutoff(), UtcInstant { secs: NOW.secs - two_weeks, nanos: 0 });
    assert_eq!(NOW.cutoff(), UtcInstant { secs: NOW.secs - two_weeks, nanos: 500 });
}

#[test]
fn markers_tell_tasks_apart() {
    assert_eq!(task_list_marker(&task(None), NOW), "[ ]");
    assert_eq!(task_list_marker(&task(Some("2026-06-24T08:00:00Z")), NOW), "[x]");
    assert_eq!(task_list_marker(&task(Some("2026-06-11T09:59:59+02:00")), NOW), "[hidden]");
    assert_eq!(task_list_marker(&task(Some("2026-06-11T10:00:00+02:00")), NOW), "[hidden]");
    assert_eq!(task_list_marker(&task(Some("2026-06-11T10:00:01+02:00")), NOW), "[x]");
    assert_eq!(task_list_marker(&task(Some("no date")), NOW), "[x]");
    assert!(!task_is_hidden(&task(Some("no date")), NOW));
}

#[test]
fn hidden_tasks_are_left_out_of_the_list() {
    let tasks = vec![
        task(None),
        task(Some("2020-01-01T00:00:00Z")),
        task(Some("2026-06-25T00:00:00Z")),
    ];
    assert_eq!(visible_task_indices_at(&tasks, false, NOW), vec![0, 2]);
    assert_eq!(visible_task_indices_at(&tasks, true, NOW), vec![0, 1, 2]);
    assert_eq!(visible_task_indices(&tasks, true), vec![0, 1, 2]);
    assert!(!visible_task_indices(&tasks, false).contains(&1));
}

#[test]
fn completing_twice_opens_the_task_again() {
    let mut done = task(None);
    assert!(toggle_completion(&mut done, NOW));
    assert_eq!(done.completed_at.as_deref(), Some("2026-06-25T08:00:00Z"));
    assert_eq!(done.updated_at, done.completed_at);
    let later = UtcInstant { secs: NOW.secs + 1, nanos: 0 };
    assert!(!toggle_completion(&mut done, later));
    assert_eq!(done.completed_at, None);
    assert_eq!(done.updated_at.as_deref(), Some("2026-06-25T08:00:01Z"));
    done.updated_at = None;
    assert_eq!(done, task(None));
}

fn update() -> TaskUpdate {
    TaskUpdate {
        title: "New".to_string(),
        content: "Text".to_string(),
        labels: vec!["x".to_string()],
        branch: Some("b".to_string()),
        completed_at: None,
        due_at: Some("2026-06-26T08:00:00+00:00".to_string()),
    }
}

#[test]
fn updates_keep_what_identifies_a_task() {
    let mut changed = task(None);
    apply_task_update_at(&mut changed, update(), true, NOW);
    assert_eq!(changed.id, task(None).id);
    assert_eq!(changed.created_at, task(None).created_at);
    assert_eq!(changed.updated_at.as_deref(), Some("2026-06-25T08:00:00Z"));
    assert_eq!(changed.title, "New");
    assert_eq!(changed.branch.as_deref(), Some("b"));

    let mut untouched = task(None);
    apply_task_update_at(&mut untouched, update(), false, NOW);
    assert_eq!(untouched.updated_at, None);

    let mut present = task(None);
    apply_task_update(&mut present, update(), true);
    assert!(present.updated_at.is_some());
}

#[test]
fn projects_are_sorted_by_title_and_file() {
    let sorted = sort_projects(vec![
        file("beta", "1"),
        file("Alpha", "3"),
        file("ALPHA", "2"),
        file("", "9"),
    ]);
    let stems: Vec<&str> = sorted.iter().map(|f| f.file_stem.as_str()).collect();
    assert_eq!(stems, vec!["9", "2", "3", "1"]);
    assert_eq!(sorted[0].file_name(), "9.json");
}

#[test]
fn settings_have_defaults() {
    let settings = Settings::default();
    assert_eq!(settings.statusline_message_timeout(), 3000);
    assert_eq!(settings.syntax_theme, "base16-ocean.dark");
    assert_eq!(settings.syntax_theme_folder, "themes");
    assert!(settings.use_theme_app_background);
    assert!(settings.use_theme_modal_background);
    assert_eq!(settings.task_content_wrap_cols, 120);
    assert_eq!(settings.llm_backend, LlmBackend::CodexExec);
    assert_eq!(settings.codex_reasoning_effort, None);
    assert!(!settings.codex_fast_mode);
    assert_eq!(settings.llm_base_url, DEFAULT_LLM_BASE_URL);
    assert_eq!(settings.llm_model, DEFAULT_LLM_MODEL);
    assert_eq!(LlmBackend::default(), LlmBackend::CodexExec);
}

#[test]
fn backends_and_efforts_go_round() {
    assert_eq!(LlmBackend::CodexExec.cycle(1), LlmBackend::Api);
    assert_eq!(LlmBackend::Api.cycle(-1), LlmBackend::CodexExec);
    assert_eq!(LlmBackend::CodexExec.label(), "codex_exec");
    assert_eq!(LlmBackend::Api.label(), "api");
    let all = [
        None,
        Some(CodexReasoningEffort::Minimal),
        Some(CodexReasoningEffort::Low),
        Some(CodexReasoningEffort::Medium),
        Some(CodexReasoningEffort::High),
        Some(CodexReasoningEffort::Xhigh),
    ];
    for i in 0..all.len() {
        assert_eq!(cycle_codex_reasoning_effort(all[i], 1), all[(i + 1) % all.len()]);
        assert_eq!(cycle_codex_reasoning_effort(all[(i + 1) % all.len()], -1), all[i]);
        assert_eq!(cycle_codex_reasoning_effort(all[i], 6), all[i]);
        assert_eq!(cycle_codex_reasoning_effort(all[i], -13), all[(i + 5) % all.len()]);
    }
    let labels: Vec<&str> = all.iter().flatten().map(|e| e.label()).collect();
    assert_eq!(labels, vec!["minimal", "low", "medium", "high", "xhigh"]);
}

#[test]
fn wrapping_changes_by_steps() {
    assert_eq!(changed_wrap_cols(120, 1), 130);
    assert_eq!(changed_wrap_cols(120, -1), 110);
    assert_eq!(changed_wrap_cols(25, -1), 20);
    assert_eq!(changed_wrap_cols(5, -1), 20);
    assert_eq!(changed_wrap_cols(usize::MAX, 1), usize::MAX);
}

#[test]
fn settings_are_listed_in_order() {
    let labels: Vec<&str> = (0..SETTINGS_FIELD_COUNT).map(|i| settings_field(i).label()).collect();
    assert_eq!(
        labels,
        vec![
            "Theme",
            "App background",
            "Modal background",
            "Content wrap cols",
            "LLM backend",
            "Codex reasoning",
            "Codex fast",
            "LLM base URL",
            "LLM model",
        ]
    );
    assert_eq!(settings_field(4), SettingsField::LlmBackend);
}

#[test]
fn errors_have_short_messages() {
    let cases = [
        ("title cannot be empty", "empty title"),
        ("completed_at must be", "invalid completed_at"),
        ("due_at must be", "invalid due_at"),
        ("no task selected", "no task selected"),
        ("no project selected", "no project selected"),
        ("empty prompt", "empty prompt"),
        ("TODUI_LLM_API_KEY is not set", "missing api key"),
        ("spawn codex exec", "codex failed; see log"),
        ("send llm request", "llm failed"),
        ("draft content cannot be empty", "invalid llm json"),
        ("bad todo json", "invalid llm json"),
        ("watch project file x", "watch failed"),
        ("parse project file x", "reload failed"),
        ("read project file x", "reload failed"),
        ("write project file x", "save failed"),
        ("serialize settings", "save failed"),
        ("delete project file x", "delete failed"),
        ("something else", "action failed"),
    ];
    for (text, short) in cases {
        assert_eq!(short_error_message(text), short);
    }
}

#[test]
fn errors_say_what_went_wrong() {
    let text = |s: &str| s.to_string();
    let cases = [
        (TodoError::EmptyTitle, "title cannot be empty"),
        (
            TodoError::InvalidDateTime { field: text("due_at") },
            "due_at must be an RFC3339 datetime or empty",
        ),
        (TodoError::NoTaskSelected, "no task selected"),
        (TodoError::NoProjectSelected, "no project selected"),
        (TodoError::EmptyPrompt, "empty prompt"),
        (TodoError::EmptySetting, "setting cannot be empty"),
        (TodoError::InvalidBaseUrl { base_url: text("x") }, "invalid llm base url x"),
        (TodoError::UnsupportedScheme, "llm base url must use http or https"),
        (TodoError::ApiKeyNotSet, "TODUI_LLM_API_KEY is not set"),
        (TodoError::ApiKeyEmpty, "TODUI_LLM_API_KEY is empty"),
        (TodoError::EmptyDraftTitle, "draft title cannot be empty"),
        (TodoError::EmptyDraftContent, "draft content cannot be empty"),
        (TodoError::InvalidResponse, "parse llm response"),
        (TodoError::MissingTodoJson, "llm response missing todo json"),
        (TodoError::InvalidCodexEvent, "parse codex json event"),
        (TodoError::NoFinalMessage, "codex final message missing"),
        (TodoError::EmptyCodexStream, "codex exec returned empty json stream"),
        (
            TodoError::CodexFailed { command: text("exec -"), stderr: text("no") },
            "codex exec failed\ncommand: codex exec -\nstderr:\nno",
        ),
        (
            TodoError::ApiStatus { status: text("500"), body: text("oops") },
            "llm api returned 500: oops",
        ),
    ];
    for (error, message) in cases {
        assert_eq!(error.message(), message);
    }
}
