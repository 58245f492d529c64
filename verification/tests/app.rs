//! The application, driven by keys.
use todui::app::{App, Clock, Effect, Mode, Outcome, ProjectChange, Screen};
use todui::errors::TodoError;
use todui::forms::EditForm;
use todui::key::{KeyCode, KeyEvent, KeyModifiers};
use todui::llm::{draft_to_task, LlmTodoDraft};
use todui::model::{Project, ProjectFile, Task};
use todui::settings::{settings_field, CodexReasoningEffort, LlmBackend, Settings, SettingsField};
use todui::time::{timestamp, UtcInstant, DAY_SECONDS, HIDE_COMPLETED_AFTER_DAYS};
use todui::view::{footer_action, footer_actions};
use todui::watch::{
    has_changed, is_relevant_change, sync_project_watcher, ChangeKind, FileChange, WatchAction,
};

// 2026-06-25T08:00:00Z
const NOW: UtcInstant = UtcInstant { secs: 1_782_374_400, nanos: 0 };
const CLOCK: Clock = Clock { utc: NOW, ticks: 5_000_000_000 };

fn sample_project() -> Project {
    Project {
        title: "Example".to_string(),
        description: "Project description".to_string(),
        labels: vec!["project".to_string()],
        tasks: vec![Task {
            id: "0197f27f-83b0-7000-8000-000000000001".to_string(),
            title: "Do the thing".to_string(),
            content: "Content with **bold**, _italic_, and `code`.".to_string(),
            labels: vec!["task".to_string()],
            branch: None,
            created_at: "2026-06-25T10:10:06+02:00".to_string(),
            updated_at: None,
            completed_at: None,
            due_at: None,
        }],
    }
}

fn task_with_id(id: &str) -> Task {
    let mut task = sample_project().tasks.remove(0);
    task.id = id.to_string();
    task
}

fn app_with(project: Project) -> App {
    let file = ProjectFile { file_stem: "project".to_string(), project };
    App::new(vec![file], Settings::default(), Vec::new())
}

fn test_app() -> App {
    app_with(sample_project())
}

fn empty_app() -> App {
    App::new(Vec::new(), Settings::default(), Vec::new())
}

fn press(code: KeyCode) -> KeyEvent {
    KeyEvent { code, modifiers: KeyModifiers::Plain }
}

/// Takes a key and lets every effect succeed.
fn drive(app: &mut App, code: KeyCode) {
    let mut effect = app.handle_key(press(code), CLOCK);
    for _ in 0..4 {
        let outcome = match &effect {
            Effect::Done | Effect::AskLlm(_) => return,
            Effect::LoadThemeOptions => {
                Outcome::ThemeOptions(vec!["one".to_string(), "two".to_string()])
            }
            Effect::ReadLlmInputs { .. } => {
                Outcome::LlmInputs { instructions: "Be brief.".to_string(), api_key: None }
            }
            _ => Outcome::Succeeded,
        };
        effect = app.resume(effect, outcome, CLOCK);
    }
}

fn type_text(app: &mut App, text: &str) {
    for c in text.chars() {
        app.handle_key(press(KeyCode::Char(c)), CLOCK);
    }
}

fn index_of(wanted: SettingsField) -> usize {
    (0..9).find(|i| settings_field(*i) == wanted).unwrap()
}

#[test]
fn settings_screen_cycles_llm_backend() {
    let mut app = test_app();
    drive(&mut app, KeyCode::Char('s'));
    app.settings_index = index_of(SettingsField::LlmBackend);
    let effect = app.handle_key(press(KeyCode::Right), CLOCK);

    assert!(matches!(effect, Effect::SaveSettings { closes_form: false }));
    assert_eq!(app.settings.llm_backend, LlmBackend::Api);
    app.resume(effect, Outcome::Succeeded, CLOCK);
    assert_eq!(app.status_message_text(), Some("settings saved"));
}

#[test]
fn settings_screen_configures_codex_reasoning_and_fast_mode() {
    let mut app = test_app();
    drive(&mut app, KeyCode::Char('s'));
    app.settings_index = index_of(SettingsField::CodexReasoningEffort);
    drive(&mut app, KeyCode::Right);
    app.settings_index = index_of(SettingsField::CodexFastMode);
    drive(&mut app, KeyCode::Right);

    assert_eq!(app.settings.codex_reasoning_effort, Some(CodexReasoningEffort::Minimal));
    assert!(app.settings.codex_fast_mode);
}

#[test]
fn settings_screen_saves_theme_and_background_choices() {
    let mut app = test_app();
    app.settings.syntax_theme = "base16-black-metal-dark-funeral".to_string();
    drive(&mut app, KeyCode::Char('s'));
    drive(&mut app, KeyCode::Right);
    drive(&mut app, KeyCode::Down);
    drive(&mut app, KeyCode::Right);
    drive(&mut app, KeyCode::Down);
    drive(&mut app, KeyCode::Right);
    drive(&mut app, KeyCode::Down);
    drive(&mut app, KeyCode::Right);

    assert_eq!(app.screen, Screen::Settings);
    assert_ne!(app.settings.syntax_theme, "base16-black-metal-dark-funeral");
    assert!(!app.settings.use_theme_app_background);
    assert!(!app.settings.use_theme_modal_background);
    assert_eq!(app.settings.task_content_wrap_cols, 130);
}

#[test]
fn a_theme_that_cannot_be_loaded_is_taken_back() {
    let mut app = test_app();
    drive(&mut app, KeyCode::Char('s'));
    app.settings.syntax_theme = "one".to_string();
    let effect = app.handle_key(press(KeyCode::Left), CLOCK);
    assert_eq!(app.settings.syntax_theme, "two");
    let next = app.resume(effect, Outcome::Failed("no syntax themes".to_string()), CLOCK);
    assert!(matches!(next, Effect::Done));
    assert_eq!(app.settings.syntax_theme, "one");
    assert_eq!(app.status_message_text(), Some("action failed"));
}

#[test]
fn themes_are_left_alone_where_there_are_none() {
    let mut app = test_app();
    let effect = app.handle_key(press(KeyCode::Char('s')), CLOCK);
    app.resume(effect, Outcome::ThemeOptions(Vec::new()), CLOCK);
    let effect = app.handle_key(press(KeyCode::Right), CLOCK);
    assert!(matches!(effect, Effect::SaveSettings { closes_form: false }));
    assert_eq!(app.settings.syntax_theme, "base16-ocean.dark");
}

#[test]
fn text_settings_are_edited_in_a_form() {
    let mut app = test_app();
    drive(&mut app, KeyCode::Char('s'));
    app.settings_index = index_of(SettingsField::LlmModel);
    drive(&mut app, KeyCode::Enter);
    assert!(matches!(app.mode, Mode::EditingSetting(_)));
    type_text(&mut app, "-x");
    drive(&mut app, KeyCode::Enter);
    assert!(matches!(app.mode, Mode::Normal));
    assert_eq!(app.settings.llm_model, "gpt-5.5-x");

    app.settings_index = index_of(SettingsField::LlmBaseUrl);
    drive(&mut app, KeyCode::Enter);
    for _ in 0..40 {
        app.handle_key(press(KeyCode::Backspace), CLOCK);
    }
    drive(&mut app, KeyCode::Enter);
    assert_eq!(app.status_message_text(), Some("action failed"));
    type_text(&mut app, "file:///tmp");
    drive(&mut app, KeyCode::Enter);
    assert!(matches!(app.mode, Mode::EditingSetting(_)));
    assert_eq!(app.status_message_text(), Some("llm failed"));
    assert_eq!(app.settings.llm_base_url, "https://api.openai.com/v1");
    drive(&mut app, KeyCode::Esc);
    assert!(matches!(app.mode, Mode::Normal));
}

#[test]
fn status_messages_expire_after_configured_timeout() {
    let mut app = test_app();
    app.settings.statusline_message_timeout_ms = 10;
    app.set_status_message("project reloaded", CLOCK);

    let soon = Clock { ticks: CLOCK.ticks + 9_999_999, ..CLOCK };
    app.expire_status_message(soon);
    assert_eq!(app.status_message_text(), Some("project reloaded"));

    let later = Clock { ticks: CLOCK.ticks + 11_000_000, ..CLOCK };
    app.expire_status_message(later);
    assert!(app.status_message_text().is_none());
}

#[test]
fn c_opens_chat_bar_for_selected_project() {
    let mut app = test_app();
    app.handle_key(press(KeyCode::Char('c')), CLOCK);

    assert!(matches!(app.mode, Mode::Chat(_)));
    let actions = footer_actions(&app);
    assert_eq!(actions[0], footer_action("Enter", "create draft"));
}

#[test]
fn old_completed_tasks_are_hidden_until_toggled() {
    let at = |days: i64| {
        Some(timestamp(UtcInstant { secs: NOW.secs - days * DAY_SECONDS, nanos: 0 }))
    };
    let mut old_completed = task_with_id("0197f27f-83b0-7000-8000-000000000002");
    old_completed.title = "Old completed".to_string();
    old_completed.completed_at = at(HIDE_COMPLETED_AFTER_DAYS + 1);
    let mut recent_completed = task_with_id("0197f27f-83b0-7000-8000-000000000003");
    recent_completed.title = "Recent completed".to_string();
    recent_completed.completed_at = at(HIDE_COMPLETED_AFTER_DAYS - 1);
    let mut project = sample_project();
    project.tasks = vec![old_completed, recent_completed];

    let mut app = app_with(project);
    drive(&mut app, KeyCode::Enter);

    assert_eq!(app.screen, Screen::ProjectDetail);
    assert_eq!(app.visible_task_indices(NOW), vec![1]);
    assert_eq!(app.task_index, 1);

    drive(&mut app, KeyCode::Char('h'));

    assert!(app.show_hidden_tasks);
    assert_eq!(app.visible_task_indices(NOW), vec![0, 1]);
    assert_eq!(app.status_message_text(), Some("showing hidden"));
    drive(&mut app, KeyCode::Char('h'));
    assert!(!app.show_hidden_tasks);
    assert_eq!(app.task_index, 1);
}

#[test]
fn space_toggles_selected_task_completion_in_project_detail() {
    let mut app = test_app();
    app.screen = Screen::ProjectDetail;
    let effect = app.handle_key(press(KeyCode::Char(' ')), CLOCK);
    assert!(matches!(
        effect,
        Effect::SaveProject(ProjectChange::Toggled { task_index: 0, completed: true })
    ));
    app.resume(effect, Outcome::Succeeded, CLOCK);

    let task = &app.projects[0].project.tasks[0];
    assert!(task.completed_at.is_some());
    assert!(task.updated_at.is_some());
    assert_eq!(task.completed_at, task.updated_at);
    assert_eq!(app.status_message_text(), Some("task completed"));

    drive(&mut app, KeyCode::Char(' '));

    let task = &app.projects[0].project.tasks[0];
    assert!(task.completed_at.is_none());
    assert!(task.updated_at.is_some());
    assert_eq!(app.status_message_text(), Some("task reopened"));
}

#[test]
fn a_save_that_fails_is_reported() {
    let mut app = test_app();
    app.screen = Screen::ProjectDetail;
    let effect = app.handle_key(press(KeyCode::Char(' ')), CLOCK);
    app.resume(effect, Outcome::Failed("write project file x".to_string()), CLOCK);
    assert_eq!(app.status_message_text(), Some("save failed"));
    assert!(app.projects[0].project.tasks[0].completed_at.is_some());
}

#[test]
fn saving_task_updates_updated_at_but_not_created_at() {
    let mut app = test_app();
    app.screen = Screen::TaskDetail;
    let form = EditForm::from_task(app.current_task(NOW).unwrap());
    app.mode = Mode::Editing(form);
    if let Mode::Editing(form) = &mut app.mode {
        form.fields[0].value = "Updated title".to_string();
        form.fields[3].value = "feature/example".to_string();
    }

    drive(&mut app, KeyCode::F(2));

    let task = &app.projects[0].project.tasks[0];
    assert_eq!(task.title, "Updated title");
    assert_eq!(task.branch.as_deref(), Some("feature/example"));
    assert_eq!(task.created_at, "2026-06-25T10:10:06+02:00");
    assert!(task.updated_at.is_some());
    assert!(matches!(app.mode, Mode::Normal));
    assert_eq!(app.status_message_text(), Some("task saved"));
}

#[test]
fn a_form_that_is_refused_stays_open() {
    let mut app = test_app();
    app.screen = Screen::ProjectDetail;
    drive(&mut app, KeyCode::Char('e'));
    for _ in 0..20 {
        app.handle_key(press(KeyCode::Backspace), CLOCK);
    }
    drive(&mut app, KeyCode::F(2));
    assert!(matches!(app.mode, Mode::Editing(_)));
    assert_eq!(app.status_message_text(), Some("empty title"));
    assert_eq!(app.projects[0].project.tasks[0].title, "Do the thing");
    drive(&mut app, KeyCode::Esc);
    assert!(matches!(app.mode, Mode::Normal));
}

fn sample_draft() -> LlmTodoDraft {
    LlmTodoDraft {
        title: "Draft title".to_string(),
        content: "Draft content".to_string(),
        labels: vec!["llm".to_string()],
        branch: None,
        due_at: None,
    }
}

#[test]
fn saving_llm_draft_appends_new_task() {
    let mut app = test_app();
    drive(&mut app, KeyCode::Char('c'));
    type_text(&mut app, "hello");
    drive(&mut app, KeyCode::Enter);
    assert!(app.llm_pending);
    assert_eq!(app.poll_llm_response(Ok(sample_draft()), CLOCK), None);
    assert_eq!(app.status_message_text(), Some("review draft"));
    if let Mode::Editing(form) = &mut app.mode {
        form.fields[0].value = "Reviewed title".to_string();
    }
    drive(&mut app, KeyCode::F(2));

    let tasks = &app.projects[0].project.tasks;
    let task = tasks.last().unwrap();
    assert_eq!(tasks.len(), 2);
    assert_eq!(task.title, "Reviewed title");
    assert_eq!(task.content, "Draft content");
    assert_eq!(task.labels, vec!["llm"]);
    assert!(task.updated_at.is_none());
    assert_eq!(app.screen, Screen::ProjectDetail);
    assert_eq!(app.task_index, 1);
    assert_eq!(app.status_message_text(), Some("task added"));
}

#[test]
fn prompts_are_checked_before_they_are_sent() {
    let mut app = test_app();
    drive(&mut app, KeyCode::Char('c'));
    drive(&mut app, KeyCode::Enter);
    assert_eq!(app.status_message_text(), Some("empty prompt"));
    type_text(&mut app, " hi ");
    let effect = app.handle_key(press(KeyCode::Enter), CLOCK);
    match &effect {
        Effect::ReadLlmInputs { prompt, with_api_key } => {
            assert_eq!(prompt, "hi");
            assert!(!with_api_key);
        }
        other => panic!("{other:?}"),
    }
    let inputs = Outcome::LlmInputs { instructions: "Do.".to_string(), api_key: None };
    match app.resume(effect, inputs, CLOCK) {
        Effect::AskLlm(request) => {
            assert_eq!(request.user_prompt, "hi");
            assert_eq!(request.instructions, "Do.");
            assert_eq!(request.project, sample_project());
            assert_eq!(request.requested_at, "2026-06-25T08:00:00Z");
            assert_eq!(request.api_key, None);
            assert_eq!(request.backend, LlmBackend::CodexExec);
        }
        other => panic!("{other:?}"),
    }
    assert!(app.llm_pending);
    assert_eq!(app.status_message_text(), Some("asking codex"));
    assert!(matches!(&app.mode, Mode::Chat(form) if form.pending));
}

#[test]
fn the_service_needs_a_key() {
    let mut app = test_app();
    app.settings.llm_backend = LlmBackend::Api;
    drive(&mut app, KeyCode::Char('c'));
    type_text(&mut app, "hi");
    for key in [None, Some(" ".to_string())] {
        let effect = app.handle_key(press(KeyCode::Enter), CLOCK);
        let inputs = Outcome::LlmInputs { instructions: String::new(), api_key: key };
        assert!(matches!(app.resume(effect, inputs, CLOCK), Effect::Done));
        assert_eq!(app.status_message_text(), Some("missing api key"));
        assert!(!app.llm_pending);
    }
    let effect = app.handle_key(press(KeyCode::Enter), CLOCK);
    let inputs =
        Outcome::LlmInputs { instructions: String::new(), api_key: Some("key".to_string()) };
    assert!(matches!(app.resume(effect, inputs, CLOCK), Effect::AskLlm(_)));
    assert_eq!(app.status_message_text(), Some("asking llm"));
}

#[test]
fn cancelled_answers_are_dropped() {
    let mut app = test_app();
    drive(&mut app, KeyCode::Char('c'));
    type_text(&mut app, "hi");
    drive(&mut app, KeyCode::Enter);
    drive(&mut app, KeyCode::Esc);
    assert!(!app.llm_pending);
    assert_eq!(app.take_answer(Err("late".to_string()), CLOCK, "id".to_string()), None);
    assert!(matches!(app.mode, Mode::Normal));
}

#[test]
fn failed_answers_are_logged() {
    let mut app = test_app();
    drive(&mut app, KeyCode::Char('c'));
    type_text(&mut app, "hi");
    drive(&mut app, KeyCode::Enter);
    let logged = app.take_answer(Err("spawn codex exec".to_string()), CLOCK, "id".to_string());
    assert_eq!(logged.as_deref(), Some("spawn codex exec"));
    assert!(matches!(app.mode, Mode::Normal));
    assert_eq!(app.status_message_text(), Some("codex failed; see log"));

    drive(&mut app, KeyCode::Char('c'));
    type_text(&mut app, "hi");
    drive(&mut app, KeyCode::Enter);
    let mut draft = sample_draft();
    draft.content = String::new();
    let logged = app.take_answer(Ok(draft), CLOCK, "id".to_string());
    assert_eq!(logged, Some(TodoError::EmptyDraftContent.message()));
}

#[test]
fn an_answer_outside_of_the_chat_bar_is_dropped() {
    let mut app = test_app();
    app.llm_pending = true;
    assert_eq!(app.take_answer(Ok(sample_draft()), CLOCK, "id".to_string()), None);
    assert!(!app.llm_pending);
    assert!(matches!(app.mode, Mode::Normal));
}

#[test]
fn deletes_task_and_project_file() {
    let mut app = test_app();
    drive(&mut app, KeyCode::Enter);
    drive(&mut app, KeyCode::Char('d'));
    assert!(matches!(app.mode, Mode::ConfirmDelete(_)));
    drive(&mut app, KeyCode::Char('y'));
    assert!(app.projects[0].project.tasks.is_empty());
    assert_eq!(app.status_message_text(), Some("task deleted"));

    drive(&mut app, KeyCode::Char('q'));
    drive(&mut app, KeyCode::Char('d'));
    let effect = app.handle_key(press(KeyCode::Enter), CLOCK);
    assert!(matches!(effect, Effect::DeleteProjectFile));
    assert_eq!(app.projects.len(), 1);
    app.resume(effect, Outcome::Succeeded, CLOCK);
    assert!(app.projects.is_empty());
    assert_eq!(app.status_message_text(), Some("project deleted"));
}

#[test]
fn a_deletion_can_be_cancelled() {
    let mut app = test_app();
    drive(&mut app, KeyCode::Char('d'));
    drive(&mut app, KeyCode::Char('x'));
    assert!(matches!(app.mode, Mode::ConfirmDelete(_)));
    drive(&mut app, KeyCode::Char('n'));
    assert!(matches!(app.mode, Mode::Normal));
    assert_eq!(app.projects.len(), 1);
}

#[test]
fn nothing_can_be_done_without_a_project() {
    let mut app = empty_app();
    drive(&mut app, KeyCode::Char('c'));
    assert_eq!(app.status_message_text(), Some("no project selected"));
    drive(&mut app, KeyCode::Char('d'));
    assert_eq!(app.status_message_text(), Some("no project selected"));
    drive(&mut app, KeyCode::Char('e'));
    assert_eq!(app.status_message_text(), Some("no task selected"));
    drive(&mut app, KeyCode::Enter);
    assert_eq!(app.screen, Screen::Projects);
    drive(&mut app, KeyCode::Down);
    assert_eq!(app.project_index, 0);
    assert!(app.current_project().is_none());
}

#[test]
fn watcher_is_enabled_only_for_open_project_views() {
    let mut app = test_app();
    let mut watched: Option<String> = None;
    assert_eq!(
        sync_project_watcher(&watched, app.watched_project_path()),
        WatchAction::Stop
    );

    app.screen = Screen::ProjectDetail;
    let action = sync_project_watcher(&watched, app.watched_project_path());
    assert_eq!(action, WatchAction::Start("project.json".to_string()));
    watched = Some("project.json".to_string());
    assert_eq!(
        sync_project_watcher(&watched, app.watched_project_path()),
        WatchAction::Keep
    );
    watched = Some("other.json".to_string());
    assert_eq!(
        sync_project_watcher(&watched, app.watched_project_path()),
        WatchAction::Start("project.json".to_string())
    );

    app.screen = Screen::Projects;
    assert_eq!(
        sync_project_watcher(&watched, app.watched_project_path()),
        WatchAction::Stop
    );
}

#[test]
fn changes_of_the_watched_file_matter() {
    let change = |kind: ChangeKind, names: &[&str]| FileChange {
        kind,
        names: names.iter().map(|n| Some(n.to_string())).collect(),
    };
    assert!(is_relevant_change(&change(ChangeKind::Modify, &["a", "b"]), "b"));
    assert!(!is_relevant_change(&change(ChangeKind::Modify, &["a"]), "b"));
    assert!(!is_relevant_change(&change(ChangeKind::Access, &["b"]), "b"));
    assert!(!is_relevant_change(&change(ChangeKind::Other, &[]), "b"));
    assert!(is_relevant_change(&change(ChangeKind::Any, &[]), "b"));
    assert!(is_relevant_change(&change(ChangeKind::Create, &["b"]), "b"));
    assert!(is_relevant_change(&change(ChangeKind::Remove, &["b"]), "b"));
    let unnamed = FileChange { kind: ChangeKind::Modify, names: vec![None] };
    assert!(!is_relevant_change(&unnamed, "b"));
    let access = change(ChangeKind::Access, &["b"]);
    assert!(has_changed(&vec![access, change(ChangeKind::Modify, &["b"])], "b"));
    assert!(!has_changed(&Vec::new(), "b"));
}

#[test]
fn reload_current_project_from_disk_picks_up_added_todos() {
    let mut app = test_app();
    app.screen = Screen::ProjectDetail;

    let mut project = sample_project();
    let mut added = task_with_id("0197f27f-83b0-7000-8000-000000000002");
    added.title = "Added by LLM".to_string();
    added.content = "Fresh external content".to_string();
    project.tasks.push(added);

    app.reload_current_project(Ok(project), CLOCK);

    assert_eq!(app.projects[0].project.tasks.len(), 2);
    assert_eq!(app.projects[0].project.tasks[1].title, "Added by LLM");
    assert_eq!(app.task_index, 0);
    assert_eq!(app.status_message_text(), Some("project reloaded"));
}

#[test]
fn reload_current_project_from_disk_preserves_selection_by_id() {
    let mut project = sample_project();
    let mut second = task_with_id("0197f27f-83b0-7000-8000-000000000002");
    second.title = "Second task".to_string();
    second.created_at = "2026-06-25T11:10:06+02:00".to_string();
    project.tasks.push(second);

    let mut app = app_with(project);
    app.screen = Screen::ProjectDetail;
    app.task_index = 1;

    let mut changed = app.projects[0].project.clone();
    changed.tasks.swap(0, 1);
    changed.tasks[0].title = "Renamed second task".to_string();

    app.reload_current_project(Ok(changed), CLOCK);

    assert_eq!(app.task_index, 0);
    assert_eq!(app.current_task(NOW).unwrap().title, "Renamed second task");
}

#[test]
fn a_reload_may_fail_or_empty_the_project() {
    let mut app = test_app();
    app.screen = Screen::TaskDetail;
    app.reload_current_project(Err("parse project file x".to_string()), CLOCK);
    assert_eq!(app.status_message_text(), Some("reload failed"));
    assert_eq!(app.projects[0].project.tasks.len(), 1);

    let mut empty = sample_project();
    empty.tasks.clear();
    app.reload_current_project(Ok(empty), CLOCK);
    assert_eq!(app.screen, Screen::ProjectDetail);
    assert!(app.current_task(NOW).is_none());

    let mut none = empty_app();
    none.reload_current_project(Ok(sample_project()), CLOCK);
    assert_eq!(none.status_message_text(), Some("no project selected"));
}

#[test]
fn going_back_leads_out() {
    let mut app = test_app();
    drive(&mut app, KeyCode::Enter);
    drive(&mut app, KeyCode::Enter);
    assert_eq!(app.screen, Screen::TaskDetail);
    drive(&mut app, KeyCode::Char('s'));
    assert_eq!(app.screen, Screen::Settings);
    drive(&mut app, KeyCode::Esc);
    assert_eq!(app.screen, Screen::TaskDetail);
    drive(&mut app, KeyCode::Esc);
    assert_eq!(app.screen, Screen::ProjectDetail);
    drive(&mut app, KeyCode::Char('q'));
    assert_eq!(app.screen, Screen::Projects);
    assert!(!app.should_quit);
    drive(&mut app, KeyCode::Char('q'));
    assert!(app.should_quit);
}

#[test]
fn the_list_is_walked_within_its_bounds() {
    let mut project = sample_project();
    project.tasks.push(task_with_id("0197f27f-83b0-7000-8000-000000000002"));
    let mut app = app_with(project);
    drive(&mut app, KeyCode::Enter);
    drive(&mut app, KeyCode::Char('k'));
    assert_eq!(app.task_index, 0);
    drive(&mut app, KeyCode::Char('j'));
    assert_eq!(app.task_index, 1);
    drive(&mut app, KeyCode::Down);
    assert_eq!(app.task_index, 1);
    drive(&mut app, KeyCode::Up);
    assert_eq!(app.task_index, 0);
    drive(&mut app, KeyCode::Enter);
    drive(&mut app, KeyCode::Down);
    drive(&mut app, KeyCode::Down);
    assert_eq!(app.detail_scroll, 2);
    drive(&mut app, KeyCode::Up);
    assert_eq!(app.detail_scroll, 1);
    drive(&mut app, KeyCode::Home);
    assert_eq!(app.detail_scroll, 0);
}

#[test]
fn projects_are_walked_within_their_bounds() {
    let file = |stem: &str| ProjectFile {
        file_stem: stem.to_string(),
        project: sample_project(),
    };
    let mut app = App::new(vec![file("a"), file("b")], Settings::default(), Vec::new());
    drive(&mut app, KeyCode::Up);
    assert_eq!(app.project_index, 0);
    drive(&mut app, KeyCode::Down);
    drive(&mut app, KeyCode::Down);
    assert_eq!(app.project_index, 1);
    drive(&mut app, KeyCode::Char('d'));
    drive(&mut app, KeyCode::Char('y'));
    assert_eq!(app.project_index, 0);
    assert_eq!(app.projects[0].file_stem, "a");
}

#[test]
fn a_new_task_keeps_its_identity() {
    let task = draft_to_task(sample_draft(), NOW, "the-id".to_string()).unwrap();
    let mut app = test_app();
    app.mode = Mode::Editing(EditForm::from_new_task(&task));
    drive(&mut app, KeyCode::F(2));
    let added = app.projects[0].project.tasks.last().unwrap();
    assert_eq!(added.id, "the-id");
    assert_eq!(added.created_at, "2026-06-25T08:00:00Z");
}
