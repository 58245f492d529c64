//! What the screens show.
use todui::app::{App, Clock, DeleteTarget, Mode, Screen};
use todui::forms::{ChatForm, EditForm, SettingTextForm};
use todui::geometry::{Position, Rect};
use todui::model::{task_list_marker, Project, ProjectFile, Task};
use todui::settings::{Settings, SettingsField};
use todui::style::{Line, Style, UiTheme};
use todui::syntax::SyntaxResources;
use todui::time::{timestamp, UtcInstant, DAY_SECONDS, HIDE_COMPLETED_AFTER_DAYS};
use todui::view::{
    chat_bar, delete_modal, edit_modal, footer_actions, footer_line, main_screen, on_off,
    project_detail_screen, project_preview_lines, projects_screen, property_label_line,
    property_line, setting_text_modal, settings_items, settings_screen, task_detail_screen,
    task_metadata_lines, task_preview_lines, MainScreen,
};

// 2026-06-25T08:00:00Z
const NOW: UtcInstant = UtcInstant { secs: 1_782_374_400, nanos: 0 };
const CLOCK: Clock = Clock { utc: NOW, ticks: 0 };

fn resources() -> SyntaxResources {
    let themes = syntect::highlighting::ThemeSet::load_defaults();
    SyntaxResources::from_theme(themes.themes["base16-ocean.dark"].clone())
}

fn test_ui_theme() -> UiTheme {
    resources().ui_theme
}

fn sample_project() -> Project {
    Project {
        title: "Example".to_string(),
        description: "Project description".to_string(),
        labels: vec!["project".to_string()],
        tasks: vec![Task {
            id: "0197f27f-83b0-7000-8000-000000000001".to_string(),
            title: "Do the thing".to_string(),
            content: "Content with **bold**, _italic_, and `code`.".to_string(),
            labels: vec!["task".to_string()],
            branch: None,
            created_at: "2026-06-25T10:10:06+02:00".to_string(),
            updated_at: None,
            completed_at: None,
            due_at: None,
        }],
    }
}

fn sample_file() -> ProjectFile {
    ProjectFile { file_stem: "project".to_string(), project: sample_project() }
}

fn test_app() -> App {
    App::new(vec![sample_file()], Settings::default(), Vec::new())
}

fn hidden_task() -> Task {
    let mut task = sample_project().tasks.remove(0);
    task.completed_at = Some(timestamp(UtcInstant {
        secs: NOW.secs - (HIDE_COMPLETED_AFTER_DAYS + 1) * DAY_SECONDS,
        nanos: 0,
    }));
    task
}

fn texts(lines: &[Line]) -> Vec<String> {
    lines.iter().map(|line| line.text()).collect()
}

#[test]
fn task_preview_includes_content_excerpt() {
    let task = &sample_project().tasks[0];
    let theme = test_ui_theme();
    let preview = task_preview_lines(task, theme, NOW);

    assert_eq!(preview[5].text(), "");
    assert_eq!(preview[6].text(), "Content:");
    assert_eq!(preview[7].text(), "Content with bold, italic, and code.");
    assert_eq!(preview[0].spans[0].style.fg, Some(theme.accent));
    assert_eq!(preview[1].spans[0].style.fg, Some(theme.accent));
    assert_eq!(preview[2].spans[0].style.fg, Some(theme.accent));
    assert_eq!(preview[6].spans[0].style.fg, Some(theme.accent));
}

#[test]
fn hidden_tasks_have_distinct_marker_and_preview_note() {
    let task = hidden_task();
    let preview = texts(&task_preview_lines(&task, test_ui_theme(), NOW)).concat();

    assert_eq!(task_list_marker(&task, NOW), "[hidden]");
    assert!(preview.contains("Hidden: completed more than 2 weeks ago"));
}

#[test]
fn footer_styles_status_and_keybind_keys() {
    let mut app = test_app();
    let theme = test_ui_theme();
    app.set_status_message("project reloaded", CLOCK);
    let line = footer_line(&app, theme);

    assert!(line.spans.iter().any(|span| {
        span.content == "project reloaded" && span.style.fg == Some(theme.accent)
    }));
    assert!(line.spans.iter().any(|span| {
        span.content == "Up/Down"
            && span.style.fg == Some(theme.accent)
            && span.style.bg.is_none()
    }));
}

#[test]
fn the_footer_names_the_keys_of_every_screen() {
    let mut app = test_app();
    let theme = test_ui_theme();
    assert_eq!(
        footer_line(&app, theme).text(),
        "Up/Down move | Enter open | c chat | s settings | d delete | q quit"
    );
    app.screen = Screen::ProjectDetail;
    assert_eq!(
        footer_line(&app, theme).text(),
        "Up/Down move | Enter open | Space toggle done | c chat | e edit | d delete | \
         s settings | h show hidden | q back"
    );
    app.show_hidden_tasks = true;
    assert_eq!(footer_actions(&app)[7].description, "hide hidden");
    app.screen = Screen::TaskDetail;
    assert_eq!(
        footer_line(&app, theme).text(),
        "Up/Down scroll | c chat | e edit | d delete | s settings | q back"
    );
    app.screen = Screen::Settings;
    app.set_status_message("saved", CLOCK);
    assert_eq!(
        footer_line(&app, theme).text(),
        "saved | Up/Down move | Left/Right change | q back"
    );
    app.status_message = None;
    let mut form = ChatForm::new();
    form.pending = true;
    app.mode = Mode::Chat(form);
    assert_eq!(footer_line(&app, theme).text(), "Esc cancel");
    app.mode = Mode::Editing(EditForm::from_task(&hidden_task()));
    assert_eq!(footer_line(&app, theme).text(), "Tab next | F2/Ctrl-S save | Esc cancel");
    app.mode = Mode::EditingSetting(SettingTextForm::new(
        SettingsField::LlmModel,
        String::new(),
    ));
    assert_eq!(footer_line(&app, theme).text(), "Enter/F2/Ctrl-S save | Esc cancel");
    app.mode = Mode::ConfirmDelete(DeleteTarget::Task);
    assert_eq!(footer_line(&app, theme).text(), "y/Enter confirm | n/Esc cancel");
}

#[test]
fn projects_are_listed_with_their_tasks() {
    let theme = test_ui_theme();
    let screen = projects_screen(&test_app(), theme);
    assert_eq!(screen.list.title, "Projects");
    assert_eq!(texts(&screen.list.items), vec!["Example (1)"]);
    assert_eq!(screen.list.selected, Some(0));
    assert_eq!(screen.preview.title, "Project");
    assert_eq!(
        texts(&screen.preview.lines),
        vec![
            "Example",
            "File: project.json",
            "Labels: project",
            "Tasks: 1",
            "",
            "Project description"
        ]
    );
    let empty = projects_screen(&App::new(Vec::new(), Settings::default(), Vec::new()), theme);
    assert_eq!(texts(&empty.list.items), vec!["No projects in data/"]);
    assert_eq!(empty.list.selected, None);
    assert_eq!(
        texts(&empty.preview.lines),
        vec!["Create a project JSON file in data/ to begin."]
    );
    let lines = project_preview_lines(&sample_file(), theme);
    assert_eq!(lines[0].spans[0].style, Style::bold());
    assert!(lines[4].spans.is_empty());
}

#[test]
fn tasks_are_listed_as_far_as_they_are_shown() {
    let theme = test_ui_theme();
    let mut file = sample_file();
    file.project.tasks.insert(0, hidden_task());
    let mut app = App::new(vec![file], Settings::default(), Vec::new());
    app.screen = Screen::ProjectDetail;
    let screen = project_detail_screen(&app, theme, NOW).unwrap();
    assert_eq!(screen.header.title, "Project Details");
    assert_eq!(screen.list.title, "Todos (1 hidden)");
    assert_eq!(texts(&screen.list.items), vec!["[ ] Do the thing"]);
    assert_eq!(screen.list.selected, Some(0));
    assert_eq!(screen.preview.title, "Todo Preview");
    app.show_hidden_tasks = true;
    let all = project_detail_screen(&app, theme, NOW).unwrap();
    assert_eq!(all.list.title, "Todos (showing hidden)");
    assert_eq!(texts(&all.list.items), vec!["[hidden] Do the thing", "[ ] Do the thing"]);
    assert_eq!(all.list.items[0].spans[1].style, Style::fg(theme.muted));
    assert_eq!(all.list.items[1].spans[1].style, Style::fg(theme.foreground));

    app.show_hidden_tasks = false;
    app.projects[0].project.tasks.pop();
    let none = project_detail_screen(&app, theme, NOW).unwrap();
    assert_eq!(
        texts(&none.list.items),
        vec!["No visible todos. Press h to show hidden tasks."]
    );
    assert_eq!(none.list.selected, None);
    assert_eq!(texts(&none.preview.lines), vec!["No todo selected"]);
    app.projects[0].project.tasks.clear();
    let empty = project_detail_screen(&app, theme, NOW).unwrap();
    assert_eq!(empty.list.title, "Todos");
    assert_eq!(texts(&empty.list.items), vec!["No todos"]);
    app.projects.clear();
    assert!(project_detail_screen(&app, theme, NOW).is_none());
}

#[test]
fn a_task_is_shown_with_its_content() {
    let resources = resources();
    let mut app = test_app();
    app.screen = Screen::TaskDetail;
    app.detail_scroll = 3;
    let screen = task_detail_screen(&app, &resources, NOW).unwrap();
    assert_eq!(screen.metadata.title, "Todo Details");
    assert_eq!(
        texts(&screen.metadata.lines),
        vec![
            "Do the thing",
            "Labels: task",
            "Branch: -",
            "Created: 2026-06-25T10:10:06+02:00",
            "Updated: -",
            "Completed: -",
            "Due: -",
        ]
    );
    assert_eq!(screen.content.title, "Content");
    assert_eq!(texts(&screen.content.lines), vec!["Content with bold, italic, and code."]);
    assert_eq!(screen.scroll, 3);
    assert!(matches!(main_screen(&app, &resources, NOW), MainScreen::TaskDetail(Some(_))));
    app.projects.clear();
    assert!(task_detail_screen(&app, &resources, NOW).is_none());
    assert_eq!(task_metadata_lines(&hidden_task()).len(), 7);
}

#[test]
fn every_screen_has_its_content() {
    let resources = resources();
    let mut app = test_app();
    assert!(matches!(main_screen(&app, &resources, NOW), MainScreen::Projects(_)));
    app.screen = Screen::ProjectDetail;
    assert!(matches!(main_screen(&app, &resources, NOW), MainScreen::ProjectDetail(Some(_))));
    app.screen = Screen::Settings;
    assert!(matches!(main_screen(&app, &resources, NOW), MainScreen::Settings(_)));
}

#[test]
fn settings_are_shown_with_their_values() {
    let theme = test_ui_theme();
    let app = test_app();
    let items = settings_items(&app, theme);
    assert_eq!(
        texts(&items),
        vec![
            "Theme: base16-ocean.dark",
            "App background: theme",
            "Modal background: theme",
            "Content wrap cols: 120",
            "LLM backend: codex_exec",
            "Codex reasoning: default",
            "Codex fast: off",
            "LLM base URL: https://api.openai.com/v1",
            "LLM model: gpt-5.5",
        ]
    );
    let screen = settings_screen(&app, theme);
    assert_eq!(screen.title, "Settings");
    assert_eq!(screen.selected, Some(0));
    assert_eq!(on_off(true), "theme");
    assert_eq!(on_off(false), "terminal");
    assert_eq!(property_line("A", "b".to_string(), theme).text(), "A: b");
    assert_eq!(property_label_line("A", theme).text(), "A:");
}

#[test]
fn a_form_is_laid_out_in_its_frames() {
    let mut form = EditForm::from_task(&sample_project().tasks[0]);
    let areas: Vec<Rect> = (0..6).map(|i| Rect::new(0, i * 3, 10, 3)).collect();
    let inputs = edit_modal(&mut form, &areas);
    assert_eq!(inputs.len(), 6);
    assert!(inputs[0].focused);
    assert_eq!(inputs[0].title, "Title");
    assert_eq!(inputs[0].text, "e thing");
    assert_eq!(inputs[0].cursor, Some(Position::new(8, 1)));
    assert!(!inputs[1].focused);
    assert_eq!(inputs[1].cursor, None);
    assert_eq!(inputs[1].text, "Content ");
    assert_eq!(form.fields[1].viewport_height, 1);
}

#[test]
fn small_forms_are_shown_in_a_frame() {
    let area = Rect::new(2, 20, 76, 3);
    let mut form = ChatForm::new();
    let empty = chat_bar(&form, area);
    assert_eq!(empty.title, "New Todo");
    assert_eq!(empty.text, "");
    assert_eq!(empty.cursor, Some(Position::new(3, 21)));
    form.pending = true;
    let waiting = chat_bar(&form, area);
    assert_eq!(waiting.title, "New Todo: waiting");
    assert_eq!(waiting.text, "Creating draft...");
    assert_eq!(waiting.cursor, None);
    assert!(!waiting.focused);
    let setting = SettingTextForm::new(SettingsField::LlmModel, "m".to_string());
    let shown = setting_text_modal(&setting, area);
    assert_eq!(shown.title, "LLM model");
    assert_eq!(shown.text, "m");
    assert_eq!(shown.cursor, Some(Position::new(4, 21)));
}

#[test]
fn deletions_are_asked_about() {
    let app = test_app();
    let project = delete_modal(&app, DeleteTarget::Project, NOW);
    assert_eq!(project.title, "Confirm Delete");
    assert_eq!(
        texts(&project.lines),
        vec![
            "Delete project \"Example\" and its JSON file?",
            "",
            "Press y or Enter to confirm. Press n or Esc to cancel.",
        ]
    );
    let task = delete_modal(&app, DeleteTarget::Task, NOW);
    assert_eq!(task.lines[0].text(), "Delete todo \"Do the thing\"?");
    let empty = App::new(Vec::new(), Settings::default(), Vec::new());
    assert_eq!(
        delete_modal(&empty, DeleteTarget::Task, NOW).lines[0].text(),
        "Delete todo \"selected task\"?"
    );
    assert_eq!(
        delete_modal(&empty, DeleteTarget::Project, NOW).lines[0].text(),
        "Delete project \"selected project\" and its JSON file?"
    );
}
