//! What the screens show.
use vstd::prelude::*;

use crate::app::{position_of_index, App, AppView, DeleteTarget, Mode, ModeView, Screen};
use crate::content::{content_excerpt, excerpt, format_labels, labels_text};
use crate::field::{EditableField, FieldView};
use crate::forms::{ChatForm, EditForm, EditFormView, SettingTextForm};
use crate::geometry::{Position, Rect};
use crate::llm::lemma_has_middle;
use crate::model::{
    marker, project_file_name, task_is_hidden, task_list_marker, task_views,
    visible_indices, visible_task_indices_at, ProjectFile, ProjectFileView, Task, TaskView,
};
use crate::order::ints;
use crate::render::{content_lines, render_content_lines};
use crate::settings::{
    settings_field, settings_fields, CodexReasoningEffort, SettingsField, SettingsView,
    SETTINGS_FIELD_COUNT,
};
use crate::style::{
    footer_key_style, key_style, lemma_line_text_push, line_text, line_views, push_line, push_span,
    raw_line, raw_span, span_views, Line, Span, SpanView, Style, UiTheme,
};
use crate::syntax::SyntaxResources;
use crate::text::{concat_text, decimal, decimal_text, has_part, text_opt};
use crate::time::UtcInstant;

verus! {

/// A panel as mathematics sees it.
pub struct PanelView {
    pub title: Seq<char>,
    pub lines: Seq<Seq<SpanView>>,
}

/// A panel: a title over lines.
#[derive(Debug)]
pub struct Panel {
    pub title: String,
    pub lines: Vec<Line>,
}

impl View for Panel {
    type V = PanelView;

    open spec fn view(&self) -> PanelView {
        PanelView { title: self.title@, lines: line_views(self.lines@) }
    }
}

/// A list as mathematics sees it.
pub struct ListingView {
    pub title: Seq<char>,
    pub items: Seq<Seq<SpanView>>,
    pub selected: Option<int>,
}

/// A list: a title over lines, of which one may be chosen.
#[derive(Debug)]
pub struct Listing {
    pub title: String,
    pub items: Vec<Line>,
    pub selected: Option<usize>,
}

/// A place, if there is one.
pub open spec fn index_opt(v: Option<usize>) -> Option<int> {
    match v {
        Some(i) => Some(i as int),
        None => None,
    }
}

impl View for Listing {
    type V = ListingView;

    open spec fn view(&self) -> ListingView {
        ListingView {
            title: self.title@,
            items: line_views(self.items@),
            selected: index_opt(self.selected),
        }
    }
}

/// A property: its name and its value.
pub open spec fn property(label: Seq<char>, value: Seq<char>, theme: UiTheme) -> Seq<SpanView> {
    seq![SpanView { content: label + ": "@, style: key_style(theme) }, raw_span(value)]
}

/// A property: its name and its value.
pub fn property_line(label: &'static str, value: String, theme: UiTheme) -> (r: Line)
    ensures
        r@ == property(label@, value@, theme),
{
    Line::pair(
        Span::styled(concat_text(label, ": "), footer_key_style(theme)),
        Span::raw(value),
    )
}

/// The name of a property.
pub open spec fn property_label(label: Seq<char>, theme: UiTheme) -> Seq<SpanView> {
    seq![SpanView { content: label + ":"@, style: key_style(theme) }]
}

/// The name of a property.
pub fn property_label_line(label: &'static str, theme: UiTheme) -> (r: Line)
    ensures
        r@ == property_label(label@, theme),
{
    Line::of(Span::styled(concat_text(label, ":"), footer_key_style(theme)))
}

/// A title in bold.
pub open spec fn bold_title(title: Seq<char>) -> Seq<SpanView> {
    seq![SpanView { content: title, style: Style::bold_style() }]
}

/// What is shown of a project.
pub open spec fn project_preview(file: ProjectFileView, theme: UiTheme) -> Seq<Seq<SpanView>> {
    seq![
        bold_title(file.project.title),
        property("File"@, project_file_name(file.file_stem), theme),
        property("Labels"@, labels_text(file.project.labels), theme),
        property("Tasks"@, decimal(file.project.tasks.len()), theme),
        Seq::empty(),
        raw_line(file.project.description),
    ]
}

/// What is shown of a project.
pub fn project_preview_lines(project_file: &ProjectFile, theme: UiTheme) -> (r: Vec<Line>)
    ensures
        line_views(r@) == project_preview(project_file@, theme),
{
    let mut lines: Vec<Line> = Vec::new();
    assert(line_views(lines@) =~= Seq::empty());
    push_line(
        &mut lines,
        Line::of(Span::styled(project_file.project.title.clone(), Style::bold())),
    );
    push_line(&mut lines, property_line("File", project_file.file_name(), theme));
    push_line(
        &mut lines,
        property_line("Labels", format_labels(project_file.project.labels.as_slice()), theme),
    );
    push_line(
        &mut lines,
        property_line("Tasks", decimal_text(project_file.project.tasks.len()), theme),
    );
    push_line(&mut lines, Line::empty());
    push_line(&mut lines, Line::raw(project_file.project.description.clone()));
    assert(line_views(lines@) =~= project_preview(project_file@, theme));
    lines
}

/// An optional text; a dash where there is none.
pub open spec fn text_or_dash_spec(v: Option<Seq<char>>) -> Seq<char> {
    match v {
        Some(text) => text,
        None => "-"@,
    }
}

fn text_or_dash(v: &Option<String>) -> (r: String)
    ensures
        r@ == text_or_dash_spec(text_opt(*v)),
{
    match v {
        Some(text) => text.clone(),
        None => "-".to_owned(),
    }
}

/// How much of a content a preview shows.
pub const PREVIEW_CHARS: usize = 540;

/// What is shown of a task beside the list.
pub open spec fn task_preview(
    task: TaskView,
    theme: UiTheme,
    now: UtcInstant,
) -> Seq<Seq<SpanView>> {
    seq![
        seq![SpanView { content: task.title, style: key_style(theme) }],
        property("Labels"@, labels_text(task.labels), theme),
        property("Branch"@, text_or_dash_spec(task.branch), theme),
        property("Completed"@, text_or_dash_spec(task.completed_at), theme),
        property("Due"@, text_or_dash_spec(task.due_at), theme),
        Seq::empty(),
        property_label("Content"@, theme),
        raw_line(excerpt(task.content, PREVIEW_CHARS as int)),
    ] + (if task.hidden(now) {
        seq![
            Seq::empty(),
            seq![
                SpanView {
                    content: "Hidden: completed more than 2 weeks ago"@,
                    style: Style::colored(theme.muted),
                },
            ],
        ]
    } else {
        Seq::empty()
    })
}

/// What is shown of a task beside the list.
pub fn task_preview_lines(task: &Task, theme: UiTheme, now: UtcInstant) -> (r: Vec<Line>)
    requires
        now.has_cutoff(),
    ensures
        line_views(r@) == task_preview(task@, theme, now),
{
    let mut lines: Vec<Line> = Vec::new();
    assert(line_views(lines@) =~= Seq::empty());
    push_line(
        &mut lines,
        Line::of(Span::styled(task.title.clone(), footer_key_style(theme))),
    );
    push_line(
        &mut lines,
        property_line("Labels", format_labels(task.labels.as_slice()), theme),
    );
    push_line(&mut lines, property_line("Branch", text_or_dash(&task.branch), theme));
    push_line(&mut lines, property_line("Completed", text_or_dash(&task.completed_at), theme));
    push_line(&mut lines, property_line("Due", text_or_dash(&task.due_at), theme));
    push_line(&mut lines, Line::empty());
    push_line(&mut lines, property_label_line("Content", theme));
    push_line(&mut lines, Line::raw(content_excerpt(task.content.as_str(), PREVIEW_CHARS)));
    if task_is_hidden(task, now) {
        push_line(&mut lines, Line::empty());
        push_line(
            &mut lines,
            Line::of(
                Span::styled(
                    "Hidden: completed more than 2 weeks ago".to_owned(),
                    Style::fg(theme.muted),
                ),
            ),
        );
    }
    assert(line_views(lines@) =~= task_preview(task@, theme, now));
    lines
}

/// What is shown of a task above its content.
pub open spec fn task_metadata(task: TaskView) -> Seq<Seq<SpanView>> {
    seq![
        bold_title(task.title),
        raw_line("Labels: "@ + labels_text(task.labels)),
        raw_line("Branch: "@ + text_or_dash_spec(task.branch)),
        raw_line("Created: "@ + task.created_at),
        raw_line("Updated: "@ + text_or_dash_spec(task.updated_at)),
        raw_line("Completed: "@ + text_or_dash_spec(task.completed_at)),
        raw_line("Due: "@ + text_or_dash_spec(task.due_at)),
    ]
}

fn labelled(label: &str, value: String) -> (r: Line)
    ensures
        r@ == raw_line(label@ + value@),
{
    Line::raw(concat_text(label, value.as_str()))
}

/// What is shown of a task above its content.
pub fn task_metadata_lines(task: &Task) -> (r: Vec<Line>)
    ensures
        line_views(r@) == task_metadata(task@),
{
    let mut lines: Vec<Line> = Vec::new();
    assert(line_views(lines@) =~= Seq::empty());
    push_line(&mut lines, Line::of(Span::styled(task.title.clone(), Style::bold())));
    push_line(&mut lines, labelled("Labels: ", format_labels(task.labels.as_slice())));
    push_line(&mut lines, labelled("Branch: ", text_or_dash(&task.branch)));
    push_line(&mut lines, labelled("Created: ", task.created_at.clone()));
    push_line(&mut lines, labelled("Updated: ", text_or_dash(&task.updated_at)));
    push_line(&mut lines, labelled("Completed: ", text_or_dash(&task.completed_at)));
    push_line(&mut lines, labelled("Due: ", text_or_dash(&task.due_at)));
    assert(line_views(lines@) =~= task_metadata(task@));
    lines
}

/// Whether a background is the theme's or the terminal's.
pub open spec fn on_off_spec(value: bool) -> Seq<char> {
    if value {
        "theme"@
    } else {
        "terminal"@
    }
}

/// Whether a background is the theme's or the terminal's.
pub fn on_off(value: bool) -> (r: &'static str)
    ensures
        r@ == on_off_spec(value),
{
    if value {
        "theme"
    } else {
        "terminal"
    }
}

/// The value of a setting.
pub open spec fn setting_value(settings: SettingsView, field: SettingsField) -> Seq<char> {
    match field {
        SettingsField::SyntaxTheme => settings.syntax_theme,
        SettingsField::AppBackground => on_off_spec(settings.use_theme_app_background),
        SettingsField::ModalBackground => on_off_spec(settings.use_theme_modal_background),
        SettingsField::TaskContentWrapCols => decimal(settings.task_content_wrap_cols),
        SettingsField::LlmBackend => settings.llm_backend.label_spec(),
        SettingsField::CodexReasoningEffort => match settings.codex_reasoning_effort {
            Some(effort) => effort.label_spec(),
            None => "default"@,
        },
        SettingsField::CodexFastMode => if settings.codex_fast_mode {
            "on"@
        } else {
            "off"@
        },
        SettingsField::LlmBaseUrl => settings.llm_base_url,
        SettingsField::LlmModel => settings.llm_model,
    }
}

/// A line of the settings.
pub open spec fn setting_line(
    settings: SettingsView,
    field: SettingsField,
    theme: UiTheme,
) -> Seq<SpanView> {
    seq![
        SpanView { content: field.label_spec() + ": "@, style: Style::colored(theme.muted) },
        SpanView {
            content: setting_value(settings, field),
            style: Style::colored(theme.foreground),
        },
    ]
}

fn setting_text(app: &App, field: SettingsField) -> (r: String)
    ensures
        r@ == setting_value(app@.settings, field),
{
    match field {
        SettingsField::SyntaxTheme => app.settings.syntax_theme.clone(),
        SettingsField::AppBackground => on_off(app.settings.use_theme_app_background).to_owned(),
        SettingsField::ModalBackground => on_off(
            app.settings.use_theme_modal_background,
        ).to_owned(),
        SettingsField::TaskContentWrapCols => decimal_text(app.settings.task_content_wrap_cols),
        SettingsField::LlmBackend => app.settings.llm_backend.label().to_owned(),
        SettingsField::CodexReasoningEffort => match app.settings.codex_reasoning_effort {
            Some(effort) => effort.label().to_owned(),
            None => "default".to_owned(),
        },
        SettingsField::CodexFastMode => if app.settings.codex_fast_mode {
            "on".to_owned()
        } else {
            "off".to_owned()
        },
        SettingsField::LlmBaseUrl => app.settings.llm_base_url.clone(),
        SettingsField::LlmModel => app.settings.llm_model.clone(),
    }
}

/// The lines of the settings.
pub fn settings_items(app: &App, theme: UiTheme) -> (r: Vec<Line>)
    ensures
        line_views(r@) == settings_fields().map_values(
            |field: SettingsField| setting_line(app@.settings, field, theme),
        ),
{
    let mut items: Vec<Line> = Vec::new();
    let mut i: usize = 0;
    while i < SETTINGS_FIELD_COUNT
        invariant
            i <= SETTINGS_FIELD_COUNT,
            items@.len() == i,
            forall|k: int|
                0 <= k < i ==> (#[trigger] items@[k])@ == setting_line(
                    app@.settings,
                    settings_fields()[k],
                    theme,
                ),
        decreases SETTINGS_FIELD_COUNT - i,
    {
        let field = settings_field(i);
        items.push(
            Line::pair(
                Span::styled(concat_text(field.label(), ": "), Style::fg(theme.muted)),
                Span::styled(setting_text(app, field), Style::fg(theme.foreground)),
            ),
        );
        i = i + 1;
    }
    assert(line_views(items@) =~= settings_fields().map_values(
        |field: SettingsField| setting_line(app@.settings, field, theme),
    ));
    items
}

/// The settings screen.
pub open spec fn settings_listing(app: AppView, theme: UiTheme) -> ListingView {
    ListingView {
        title: "Settings"@,
        items: settings_fields().map_values(
            |field: SettingsField| setting_line(app.settings, field, theme),
        ),
        selected: Some(app.settings_index),
    }
}

/// The settings screen.
pub fn settings_screen(app: &App, theme: UiTheme) -> (r: Listing)
    requires
        app@.wf(),
    ensures
        r@ == settings_listing(app@, theme),
{
    Listing {
        title: "Settings".to_owned(),
        items: settings_items(app, theme),
        selected: Some(app.settings_index),
    }
}

/// What a key does, as mathematics sees it.
pub struct FooterActionView {
    pub key: Seq<char>,
    pub description: Seq<char>,
}

/// What a key does.
#[derive(Debug, PartialEq, Eq)]
pub struct FooterAction {
    pub key: String,
    pub description: String,
}

impl View for FooterAction {
    type V = FooterActionView;

    open spec fn view(&self) -> FooterActionView {
        FooterActionView { key: self.key@, description: self.description@ }
    }
}

/// What a key does.
pub open spec fn action(key: Seq<char>, description: Seq<char>) -> FooterActionView {
    FooterActionView { key, description }
}

/// What a key does.
pub fn footer_action(key: &str, description: &str) -> (r: FooterAction)
    ensures
        r@ == action(key@, description@),
{
    FooterAction { key: key.to_owned(), description: description.to_owned() }
}

/// The views of several actions.
pub open spec fn action_views(v: Seq<FooterAction>) -> Seq<FooterActionView> {
    v.map_values(|a: FooterAction| a@)
}

/// What the keys do on a screen.
pub open spec fn screen_actions(screen: Screen, show_hidden: bool) -> Seq<FooterActionView> {
    match screen {
        Screen::Projects => seq![
            action("Up/Down"@, "move"@),
            action("Enter"@, "open"@),
            action("c"@, "chat"@),
            action("s"@, "settings"@),
            action("d"@, "delete"@),
            action("q"@, "quit"@),
        ],
        Screen::ProjectDetail => seq![
            action("Up/Down"@, "move"@),
            action("Enter"@, "open"@),
            action("Space"@, "toggle done"@),
            action("c"@, "chat"@),
            action("e"@, "edit"@),
            action("d"@, "delete"@),
            action("s"@, "settings"@),
            action(
                "h"@,
                if show_hidden {
                    "hide hidden"@
                } else {
                    "show hidden"@
                },
            ),
            action("q"@, "back"@),
        ],
        Screen::TaskDetail => seq![
            action("Up/Down"@, "scroll"@),
            action("c"@, "chat"@),
            action("e"@, "edit"@),
            action("d"@, "delete"@),
            action("s"@, "settings"@),
            action("q"@, "back"@),
        ],
        Screen::Settings => seq![
            action("Up/Down"@, "move"@),
            action("Left/Right"@, "change"@),
            action("q"@, "back"@),
        ],
    }
}

/// What the keys do.
pub open spec fn actions_of(app: AppView) -> Seq<FooterActionView> {
    match app.mode {
        ModeView::Normal => screen_actions(app.screen, app.show_hidden_tasks),
        ModeView::Chat(form) => if form.pending {
            seq![action("Esc"@, "cancel"@)]
        } else {
            seq![action("Enter"@, "create draft"@), action("Esc"@, "cancel"@)]
        },
        ModeView::Editing(form) => seq![
            action("Tab"@, "next"@),
            action("F2/Ctrl-S"@, "save"@),
            action("Esc"@, "cancel"@),
        ],
        ModeView::EditingSetting(form) => seq![
            action("Enter/F2/Ctrl-S"@, "save"@),
            action("Esc"@, "cancel"@),
        ],
        ModeView::ConfirmDelete(target) => seq![
            action("y/Enter"@, "confirm"@),
            action("n/Esc"@, "cancel"@),
        ],
    }
}

fn actions_from(pairs: &[(&str, &str)]) -> (r: Vec<FooterAction>)
    ensures
        action_views(r@) == pairs@.map_values(|p: (&str, &str)| action(p.0@, p.1@)),
{
    let mut out: Vec<FooterAction> = Vec::new();
    let mut i: usize = 0;
    while i < pairs.len()
        invariant
            i <= pairs@.len(),
            out@.len() == i,
            forall|k: int|
                0 <= k < i ==> (#[trigger] out@[k])@ == action(pairs@[k].0@, pairs@[k].1@),
        decreases pairs@.len() - i,
    {
        out.push(footer_action(pairs[i].0, pairs[i].1));
        i = i + 1;
    }
    assert(action_views(out@) =~= pairs@.map_values(|p: (&str, &str)| action(p.0@, p.1@)));
    out
}

fn footer_screen_actions(screen: Screen, show_hidden: bool) -> (r: Vec<FooterAction>)
    ensures
        action_views(r@) == screen_actions(screen, show_hidden),
{
    let r = match screen {
        Screen::Projects => actions_from(
            &[
                ("Up/Down", "move"),
                ("Enter", "open"),
                ("c", "chat"),
                ("s", "settings"),
                ("d", "delete"),
                ("q", "quit"),
            ],
        ),
        Screen::ProjectDetail => actions_from(
            &[
                ("Up/Down", "move"),
                ("Enter", "open"),
                ("Space", "toggle done"),
                ("c", "chat"),
                ("e", "edit"),
                ("d", "delete"),
                ("s", "settings"),
                (
                    "h",
                    if show_hidden {
                        "hide hidden"
                    } else {
                        "show hidden"
                    },
                ),
                ("q", "back"),
            ],
        ),
        Screen::TaskDetail => actions_from(
            &[
                ("Up/Down", "scroll"),
                ("c", "chat"),
                ("e", "edit"),
                ("d", "delete"),
                ("s", "settings"),
                ("q", "back"),
            ],
        ),
        Screen::Settings => actions_from(
            &[("Up/Down", "move"), ("Left/Right", "change"), ("q", "back")],
        ),
    };
    assert(action_views(r@) =~= screen_actions(screen, show_hidden));
    r
}

/// What the keys do.
pub fn footer_actions(app: &App) -> (r: Vec<FooterAction>)
    ensures
        action_views(r@) == actions_of(app@),
{
    let r = match &app.mode {
        Mode::Normal => footer_screen_actions(app.screen, app.show_hidden_tasks),
        Mode::Chat(form) => if form.pending {
            actions_from(&[("Esc", "cancel")])
        } else {
            actions_from(&[("Enter", "create draft"), ("Esc", "cancel")])
        },
        Mode::Editing(_) => actions_from(
            &[("Tab", "next"), ("F2/Ctrl-S", "save"), ("Esc", "cancel")],
        ),
        Mode::EditingSetting(_) => actions_from(
            &[("Enter/F2/Ctrl-S", "save"), ("Esc", "cancel")],
        ),
        Mode::ConfirmDelete(_) => actions_from(&[("y/Enter", "confirm"), ("n/Esc", "cancel")]),
    };
    assert(action_views(r@) =~= actions_of(app@));
    r
}

/// What stands between the parts of the footer.
pub open spec fn footer_gap(theme: UiTheme) -> SpanView {
    SpanView { content: " | "@, style: Style::colored(theme.muted) }
}

/// Actions with gaps between them.
pub open spec fn action_spans(actions: Seq<FooterActionView>, theme: UiTheme) -> Seq<SpanView>
    decreases actions.len(),
{
    if actions.len() == 0 {
        Seq::empty()
    } else {
        let before = action_spans(actions.drop_last(), theme);
        let last = actions.last();
        (if actions.len() > 1 {
            before.push(footer_gap(theme))
        } else {
            before
        }) + seq![
            SpanView { content: last.key, style: key_style(theme) },
            raw_span(" "@),
            SpanView { content: last.description, style: Style::colored(theme.muted) },
        ]
    }
}

/// The footer: the message, if there is one, and what the keys do.
pub open spec fn footer(app: AppView, theme: UiTheme) -> Seq<SpanView> {
    (match app.status_message {
        Some(message) => seq![
            SpanView { content: message.text, style: key_style(theme) },
            footer_gap(theme),
        ],
        None => Seq::empty(),
    }) + action_spans(actions_of(app), theme)
}

fn gap_span(theme: UiTheme) -> (r: Span)
    ensures
        r@ == footer_gap(theme),
{
    Span::styled(" | ".to_owned(), Style::fg(theme.muted))
}

/// The footer.
pub fn footer_line(app: &App, theme: UiTheme) -> (r: Line)
    ensures
        r@ == footer(app@, theme),
{
    let mut spans: Vec<Span> = Vec::new();
    assert(span_views(spans@) =~= Seq::empty());
    if let Some(message) = app.status_message_text() {
        push_span(&mut spans, Span::styled(message.to_owned(), footer_key_style(theme)));
        push_span(&mut spans, gap_span(theme));
    }
    let ghost start = span_views(spans@);
    let actions = footer_actions(app);
    let ghost views = actions_of(app@);
    let mut i: usize = 0;
    assert(views.take(0) =~= Seq::empty());
    assert(start + action_spans(views.take(0), theme) =~= start);
    while i < actions.len()
        invariant
            i <= actions@.len(),
            views == action_views(actions@),
            span_views(spans@) == start + action_spans(views.take(i as int), theme),
        decreases actions@.len() - i,
    {
        let ghost before = span_views(spans@);
        assert(views.take(i + 1).drop_last() =~= views.take(i as int));
        assert(views.take(i + 1).last() == actions@[i as int]@);
        if i > 0 {
            push_span(&mut spans, gap_span(theme));
        }
        push_span(&mut spans, Span::styled(actions[i].key.clone(), footer_key_style(theme)));
        push_span(&mut spans, Span::raw(" ".to_owned()));
        push_span(
            &mut spans,
            Span::styled(actions[i].description.clone(), Style::fg(theme.muted)),
        );
        assert(span_views(spans@) =~= start + action_spans(views.take(i + 1), theme));
        i = i + 1;
    }
    assert(views.take(actions@.len() as int) =~= views);
    assert(span_views(spans@) =~= footer(app@, theme));
    Line { spans }
}

/// A plain line in place of a list or a panel.
pub open spec fn notice(text: Seq<char>) -> Seq<Seq<SpanView>> {
    seq![raw_line(text)]
}

fn notice_lines(text: &str) -> (r: Vec<Line>)
    ensures
        line_views(r@) == notice(text@),
{
    let mut lines: Vec<Line> = Vec::new();
    lines.push(Line::raw(text.to_owned()));
    assert(line_views(lines@) =~= notice(text@));
    lines
}

/// A project in the list: its title, and how many tasks it has.
pub open spec fn project_item(file: ProjectFileView, theme: UiTheme) -> Seq<SpanView> {
    seq![
        SpanView { content: file.project.title, style: Style::colored(theme.foreground) },
        raw_span(" ("@ + decimal(file.project.tasks.len()) + ")"@),
    ]
}

/// The list of projects.
pub open spec fn projects_listing(app: AppView, theme: UiTheme) -> ListingView {
    ListingView {
        title: "Projects"@,
        items: if app.projects.len() == 0 {
            notice("No projects in data/"@)
        } else {
            app.projects.map_values(|file: ProjectFileView| project_item(file, theme))
        },
        selected: if app.projects.len() == 0 {
            None
        } else {
            Some(app.project_index)
        },
    }
}

/// The chosen project beside the list.
pub open spec fn project_panel(app: AppView, theme: UiTheme) -> PanelView {
    PanelView {
        title: "Project"@,
        lines: match app.current_project() {
            Some(file) => project_preview(file, theme),
            None => notice("Create a project JSON file in data/ to begin."@),
        },
    }
}

/// The screen of the projects.
#[derive(Debug)]
pub struct ProjectsScreen {
    pub list: Listing,
    pub preview: Panel,
}

fn counted(count: usize) -> (r: String)
    ensures
        r@ == " ("@ + decimal(count as nat) + ")"@,
{
    let number = decimal_text(count);
    let mut text = concat_text(" (", number.as_str());
    text.append(")");
    text
}

fn project_items(projects: &Vec<ProjectFile>, theme: UiTheme) -> (r: Vec<Line>)
    ensures
        line_views(r@) == crate::model::project_views(projects@).map_values(
            |file: ProjectFileView| project_item(file, theme),
        ),
{
    let mut items: Vec<Line> = Vec::new();
    let mut i: usize = 0;
    while i < projects.len()
        invariant
            i <= projects@.len(),
            items@.len() == i,
            forall|k: int|
                0 <= k < i ==> (#[trigger] items@[k])@ == project_item(projects@[k]@, theme),
        decreases projects@.len() - i,
    {
        let project = &projects[i].project;
        items.push(
            Line::pair(
                Span::styled(project.title.clone(), Style::fg(theme.foreground)),
                Span::raw(counted(project.tasks.len())),
            ),
        );
        i = i + 1;
    }
    assert(line_views(items@) =~= crate::model::project_views(projects@).map_values(
        |file: ProjectFileView| project_item(file, theme),
    ));
    items
}

/// The screen of the projects.
pub fn projects_screen(app: &App, theme: UiTheme) -> (r: ProjectsScreen)
    ensures
        r.list@ == projects_listing(app@, theme),
        r.preview@ == project_panel(app@, theme),
{
    let empty = app.projects.len() == 0;
    let items = if empty {
        notice_lines("No projects in data/")
    } else {
        project_items(&app.projects, theme)
    };
    let lines = match app.current_project() {
        Some(file) => project_preview_lines(file, theme),
        None => notice_lines("Create a project JSON file in data/ to begin."),
    };
    ProjectsScreen {
        list: Listing {
            title: "Projects".to_owned(),
            items,
            selected: if empty {
                None
            } else {
                Some(app.project_index)
            },
        },
        preview: Panel { title: "Project".to_owned(), lines },
    }
}

/// How many tasks are hidden.
pub open spec fn hidden_count(tasks: Seq<TaskView>, now: UtcInstant) -> nat
    decreases tasks.len(),
{
    if tasks.len() == 0 {
        0
    } else {
        hidden_count(tasks.drop_last(), now) + (if tasks.last().hidden(now) {
            1nat
        } else {
            0
        })
    }
}

/// A task in the list: whether it is done, and its title.
pub open spec fn task_item(task: TaskView, theme: UiTheme, now: UtcInstant) -> Seq<SpanView> {
    seq![
        raw_span(marker(task, now) + " "@),
        SpanView {
            content: task.title,
            style: Style::colored(
                if task.hidden(now) {
                    theme.muted
                } else {
                    theme.foreground
                },
            ),
        },
    ]
}

/// The title of the list of tasks.
pub open spec fn tasks_title(show_hidden: bool, hidden: nat) -> Seq<char> {
    if show_hidden {
        "Todos (showing hidden)"@
    } else if hidden > 0 {
        "Todos ("@ + decimal(hidden) + " hidden)"@
    } else {
        "Todos"@
    }
}

/// The list of tasks: those that are shown, and the chosen one of them.
pub open spec fn tasks_listing(app: AppView, theme: UiTheme, now: UtcInstant) -> ListingView {
    let tasks = app.tasks();
    let shown = app.visible(now);
    ListingView {
        title: tasks_title(app.show_hidden_tasks, hidden_count(tasks, now)),
        items: if tasks.len() == 0 {
            notice("No todos"@)
        } else if shown.len() == 0 {
            notice("No visible todos. Press h to show hidden tasks."@)
        } else {
            shown.map_values(|i: int| task_item(tasks[i], theme, now))
        },
        selected: if shown.len() == 0 {
            None
        } else if shown.contains(app.task_index) {
            Some(shown.index_of_first(app.task_index)->0)
        } else {
            Some(0)
        },
    }
}

/// The project above its list.
pub open spec fn project_header(file: ProjectFileView, theme: UiTheme) -> PanelView {
    PanelView { title: "Project Details"@, lines: project_preview(file, theme) }
}

/// The chosen task beside the list.
pub open spec fn task_panel(app: AppView, theme: UiTheme, now: UtcInstant) -> PanelView {
    PanelView {
        title: "Todo Preview"@,
        lines: match app.current_task(now) {
            Some(task) => task_preview(task, theme, now),
            None => notice("No todo selected"@),
        },
    }
}

/// The screen of a project.
#[derive(Debug)]
pub struct ProjectDetailScreen {
    pub header: Panel,
    pub list: Listing,
    pub preview: Panel,
}

fn count_hidden(tasks: &Vec<Task>, now: UtcInstant) -> (r: usize)
    requires
        now.has_cutoff(),
    ensures
        r == hidden_count(task_views(tasks@), now),
{
    let ghost views = task_views(tasks@);
    let mut count: usize = 0;
    let mut i: usize = 0;
    assert(views.take(0) =~= Seq::empty());
    while i < tasks.len()
        invariant
            i <= tasks@.len(),
            count <= i,
            now.has_cutoff(),
            views == task_views(tasks@),
            count == hidden_count(views.take(i as int), now),
        decreases tasks@.len() - i,
    {
        assert(views.take(i + 1).drop_last() =~= views.take(i as int));
        assert(views.take(i + 1).last() == tasks@[i as int]@);
        if task_is_hidden(&tasks[i], now) {
            count = count + 1;
        }
        i = i + 1;
    }
    assert(views.take(tasks@.len() as int) =~= views);
    count
}

fn todos_title(show_hidden: bool, hidden: usize) -> (r: String)
    ensures
        r@ == tasks_title(show_hidden, hidden as nat),
{
    if show_hidden {
        "Todos (showing hidden)".to_owned()
    } else if hidden > 0 {
        let number = decimal_text(hidden);
        let mut text = concat_text("Todos (", number.as_str());
        text.append(" hidden)");
        text
    } else {
        "Todos".to_owned()
    }
}

fn task_items(tasks: &Vec<Task>, shown: &Vec<usize>, theme: UiTheme, now: UtcInstant) -> (r: Vec<
    Line,
>)
    requires
        now.has_cutoff(),
        forall|k: int| 0 <= k < shown@.len() ==> #[trigger] shown@[k] < tasks@.len(),
    ensures
        line_views(r@) == ints(shown@).map_values(
            |i: int| task_item(task_views(tasks@)[i], theme, now),
        ),
{
    let mut items: Vec<Line> = Vec::new();
    let mut k: usize = 0;
    while k < shown.len()
        invariant
            k <= shown@.len(),
            now.has_cutoff(),
            forall|k: int| 0 <= k < shown@.len() ==> #[trigger] shown@[k] < tasks@.len(),
            items@.len() == k,
            forall|j: int|
                0 <= j < k ==> (#[trigger] items@[j])@ == task_item(
                    tasks@[shown@[j] as int]@,
                    theme,
                    now,
                ),
        decreases shown@.len() - k,
    {
        assert(shown@[k as int] < tasks@.len());
        let task = &tasks[shown[k]];
        let color = if task_is_hidden(task, now) {
            theme.muted
        } else {
            theme.foreground
        };
        items.push(
            Line::pair(
                Span::raw(concat_text(task_list_marker(task, now), " ")),
                Span::styled(task.title.clone(), Style::fg(color)),
            ),
        );
        k = k + 1;
    }
    assert(line_views(items@) =~= ints(shown@).map_values(
        |i: int| task_item(task_views(tasks@)[i], theme, now),
    ));
    items
}

fn tasks_list(app: &App, tasks: &Vec<Task>, theme: UiTheme, now: UtcInstant) -> (r: Listing)
    requires
        now.has_cutoff(),
        task_views(tasks@) == app@.tasks(),
    ensures
        r@ == tasks_listing(app@, theme, now),
{
    let shown = visible_task_indices_at(tasks, app.show_hidden_tasks, now);
    let ghost all = app@.visible(now);
    assert(ints(shown@) == all);
    proof {
        crate::model::law_visible_indices(app@.tasks(), app@.show_hidden_tasks, now);
    }
    assert forall|k: int| 0 <= k < shown@.len() implies #[trigger] shown@[k] < tasks@.len() by {
        assert(all[k] == shown@[k]);
    }
    let items = if tasks.len() == 0 {
        notice_lines("No todos")
    } else if shown.len() == 0 {
        notice_lines("No visible todos. Press h to show hidden tasks.")
    } else {
        task_items(tasks, &shown, theme, now)
    };
    let selected = if shown.len() == 0 {
        None
    } else {
        match position_of_index(&shown, app.task_index) {
            Some(p) => Some(p),
            None => Some(0),
        }
    };
    Listing { title: todos_title(app.show_hidden_tasks, count_hidden(tasks, now)), items, selected }
}

/// The screen of a project; none where no project is chosen.
pub fn project_detail_screen(app: &App, theme: UiTheme, now: UtcInstant) -> (r: Option<
    ProjectDetailScreen,
>)
    requires
        now.has_cutoff(),
    ensures
        match app@.current_project() {
            Some(file) => r matches Some(screen) && screen.header@ == project_header(file, theme)
                && screen.list@ == tasks_listing(app@, theme, now) && screen.preview@ == task_panel(
                app@,
                theme,
                now,
            ),
            None => r is None,
        },
{
    match app.current_project() {
        Some(file) => {
            let lines = match app.current_task(now) {
                Some(task) => task_preview_lines(task, theme, now),
                None => notice_lines("No todo selected"),
            };
            Some(
                ProjectDetailScreen {
                    header: Panel {
                        title: "Project Details".to_owned(),
                        lines: project_preview_lines(file, theme),
                    },
                    list: tasks_list(app, &file.project.tasks, theme, now),
                    preview: Panel { title: "Todo Preview".to_owned(), lines },
                },
            )
        },
        None => None,
    }
}

/// The screen of a task.
#[derive(Debug)]
pub struct TaskDetailScreen {
    pub metadata: Panel,
    pub content: Panel,
    pub scroll: u16,
}

/// The screen of a task; none where no task is chosen.
pub fn task_detail_screen(app: &App, resources: &SyntaxResources, now: UtcInstant) -> (r: Option<
    TaskDetailScreen,
>)
    requires
        now.has_cutoff(),
        resources.wf(),
    ensures
        match app@.current_task(now) {
            Some(task) => r matches Some(screen) && screen.metadata@ == (PanelView {
                title: "Todo Details"@,
                lines: task_metadata(task),
            }) && screen.content@ == (PanelView {
                title: "Content"@,
                lines: content_lines(
                    task.content,
                    *resources,
                    app@.settings.task_content_wrap_cols as int,
                ),
            }) && screen.scroll == app@.detail_scroll,
            None => r is None,
        },
{
    match app.current_task(now) {
        Some(task) => Some(
            TaskDetailScreen {
                metadata: Panel {
                    title: "Todo Details".to_owned(),
                    lines: task_metadata_lines(task),
                },
                content: Panel {
                    title: "Content".to_owned(),
                    lines: render_content_lines(
                        task.content.as_str(),
                        resources,
                        app.settings.task_content_wrap_cols,
                    ),
                },
                scroll: app.detail_scroll,
            },
        ),
        None => None,
    }
}

/// What the main part of the terminal shows.
#[derive(Debug)]
pub enum MainScreen {
    Projects(ProjectsScreen),
    /// The chosen project, if there is one.
    ProjectDetail(Option<ProjectDetailScreen>),
    /// The chosen task, if there is one.
    TaskDetail(Option<TaskDetailScreen>),
    Settings(Listing),
}

/// What the main part of the terminal shows.
pub fn main_screen(app: &App, resources: &SyntaxResources, now: UtcInstant) -> (r: MainScreen)
    requires
        app@.wf(),
        now.has_cutoff(),
        resources.wf(),
    ensures
        match app@.screen {
            Screen::Projects => r matches MainScreen::Projects(screen) && screen.list@
                == projects_listing(app@, resources.ui_theme) && screen.preview@ == project_panel(
                app@,
                resources.ui_theme,
            ),
            Screen::ProjectDetail => r matches MainScreen::ProjectDetail(screen) && match screen {
                Some(shown) => app@.current_project() matches Some(file) && shown.header@
                    == project_header(file, resources.ui_theme) && shown.list@ == tasks_listing(
                    app@,
                    resources.ui_theme,
                    now,
                ) && shown.preview@ == task_panel(app@, resources.ui_theme, now),
                None => app@.current_project() is None,
            },
            Screen::TaskDetail => r matches MainScreen::TaskDetail(screen) && match screen {
                Some(shown) => app@.current_task(now) matches Some(task) && shown.metadata@ == (
                PanelView { title: "Todo Details"@, lines: task_metadata(task) }) && shown.content@
                    == (PanelView {
                    title: "Content"@,
                    lines: content_lines(
                        task.content,
                        *resources,
                        app@.settings.task_content_wrap_cols as int,
                    ),
                }) && shown.scroll == app@.detail_scroll,
                None => app@.current_task(now) is None,
            },
            Screen::Settings => r matches MainScreen::Settings(list) && list@ == settings_listing(
                app@,
                resources.ui_theme,
            ),
        },
{
    let theme = resources.ui_theme;
    match app.screen {
        Screen::Projects => MainScreen::Projects(projects_screen(app, theme)),
        Screen::ProjectDetail => MainScreen::ProjectDetail(project_detail_screen(app, theme, now)),
        Screen::TaskDetail => MainScreen::TaskDetail(task_detail_screen(app, resources, now)),
        Screen::Settings => MainScreen::Settings(settings_screen(app, theme)),
    }
}

/// A cell, if there is one.
pub open spec fn cell_opt(v: Option<Position>) -> Option<(int, int)> {
    match v {
        Some(p) => Some((p.x as int, p.y as int)),
        None => None,
    }
}

/// A text in a frame, and the cell of the cursor where it is typed into.
#[derive(Debug)]
pub struct InputView {
    pub title: String,
    pub text: String,
    pub focused: bool,
    pub cursor: Option<Position>,
}

/// A field once it has been laid out in a frame: it knows the height that it
/// has, and follows the cursor where it is typed into.
pub open spec fn laid_out(field: FieldView, area: Rect, active: bool) -> FieldView {
    let height: int = if area.height > 2 {
        area.height - 2
    } else {
        0
    };
    let sized = FieldView { viewport_height: height, ..field };
    if active {
        sized.scrolled(height)
    } else {
        sized
    }
}

/// Whether `input` is what a field shows in a frame.
pub open spec fn is_input(input: InputView, field: FieldView, area: Rect, active: bool) -> bool {
    let inside = area.inside();
    let width = inside.width as int;
    let height = inside.height as int;
    &&& input.title@ == field.label
    &&& input.focused == active
    &&& input.text@ == field.shown(
        width,
        height,
        if active {
            field.first_column(width)
        } else {
            0
        },
    )
    &&& cell_opt(input.cursor) == (if active {
        field.cursor_cell(inside)
    } else {
        None
    })
}

/// Lays a field out in a frame.
pub fn lay_out_field(field: &mut EditableField, area: Rect, active: bool) -> (r: InputView)
    requires
        area.addressable(),
    ensures
        final(field)@ == laid_out(old(field)@, area, active),
        is_input(r, final(field)@, area, active),
{
    let height: usize = area.height.saturating_sub(2) as usize;
    field.viewport_height = height;
    if active {
        field.update_scroll(height);
    }
    let inner = area.inner();
    let width: usize = inner.width as usize;
    let cursor = if active {
        field.terminal_cursor_position(inner)
    } else {
        None
    };
    let text = if active {
        field.display_value(width, height)
    } else {
        field.display_preview(width, height)
    };
    InputView { title: field.label.to_owned(), text, focused: active, cursor }
}

/// The fields of a form once they have been laid out in frames.
pub open spec fn laid_out_form(form: EditFormView, areas: Seq<Rect>) -> EditFormView {
    EditFormView {
        fields: Seq::new(
            form.fields.len(),
            |i: int| laid_out(form.fields[i], areas[i], i == form.active),
        ),
        ..form
    }
}

proof fn lemma_laid_out_in_bounds(field: FieldView, area: Rect, active: bool)
    requires
        field.in_bounds(),
    ensures
        laid_out(field, area, active).in_bounds(),
{
}

/// Lays the fields of a form out in frames, one for each.
pub fn edit_modal(form: &mut EditForm, areas: &Vec<Rect>) -> (r: Vec<InputView>)
    requires
        old(form)@.wf(),
        areas@.len() == old(form)@.fields.len(),
        forall|i: int| 0 <= i < areas@.len() ==> (#[trigger] areas@[i]).addressable(),
    ensures
        final(form)@ == laid_out_form(old(form)@, areas@),
        final(form)@.wf(),
        r@.len() == areas@.len(),
        forall|i: int|
            0 <= i < r@.len() ==> is_input(
                #[trigger] r@[i],
                final(form)@.fields[i],
                areas@[i],
                i == old(form)@.active,
            ),
{
    let ghost before = form@;
    let ghost after = laid_out_form(before, areas@);
    let active: usize = form.active;
    let mut inputs: Vec<InputView> = Vec::new();
    let mut i: usize = 0;
    while i < areas.len()
        invariant
            i <= areas@.len(),
            areas@.len() == form.fields@.len(),
            before.fields.len() == form.fields@.len(),
            after == laid_out_form(before, areas@),
            active == before.active,
            form.active == active,
            form@.new_task == before.new_task,
            forall|k: int| 0 <= k < areas@.len() ==> (#[trigger] areas@[k]).addressable(),
            inputs@.len() == i,
            forall|k: int| 0 <= k < i ==> (#[trigger] form.fields@[k])@ == after.fields[k],
            forall|k: int|
                i <= k < form.fields@.len() ==> (#[trigger] form.fields@[k])@ == before.fields[k],
            forall|k: int|
                0 <= k < i ==> is_input(
                    #[trigger] inputs@[k],
                    after.fields[k],
                    areas@[k],
                    k == active,
                ),
        decreases areas@.len() - i,
    {
        assert(areas@[i as int].addressable());
        assert(form.fields@[i as int]@ == before.fields[i as int]);
        let ghost old_fields = form.fields@;
        let input = lay_out_field(&mut form.fields[i], areas[i], i == active);
        assert(forall|k: int|
            0 <= k < form.fields@.len() && k != i ==> #[trigger] form.fields@[k] == old_fields[k]);
        inputs.push(input);
        i = i + 1;
    }
    proof {
        assert(form@.fields =~= after.fields);
        assert forall|k: int| 0 <= k < after.fields.len() implies (
        #[trigger] after.fields[k]).in_bounds() by {
            assert(before.fields[k].in_bounds());
            lemma_laid_out_in_bounds(before.fields[k], areas@[k], k == active);
        }
    }
    inputs
}

/// The chat bar in a frame: the prompt, or that a draft is awaited.
pub fn chat_bar(form: &ChatForm, area: Rect) -> (r: InputView)
    requires
        area.addressable(),
    ensures
        r.title@ == (if form@.pending {
            "New Todo: waiting"@
        } else {
            "New Todo"@
        }),
        r.focused == !form@.pending,
        r.text@ == (if form@.pending {
            "Creating draft..."@
        } else {
            form@.input.shown(
                area.inside().width as int,
                1,
                form@.input.first_column(area.inside().width as int),
            )
        }),
        cell_opt(r.cursor) == (if form@.pending {
            None
        } else {
            form@.input.cursor_cell(area.inside())
        }),
{
    if form.pending {
        return InputView {
            title: "New Todo: waiting".to_owned(),
            text: "Creating draft...".to_owned(),
            focused: false,
            cursor: None,
        };
    }
    let inner = area.inner();
    InputView {
        title: "New Todo".to_owned(),
        text: form.input.display_value(inner.width as usize, 1),
        focused: true,
        cursor: form.input.terminal_cursor_position(inner),
    }
}

/// The form of a setting in a frame.
pub fn setting_text_modal(form: &SettingTextForm, area: Rect) -> (r: InputView)
    requires
        area.addressable(),
    ensures
        r.title@ == form@.field.label_spec(),
        r.focused,
        r.text@ == form@.input.shown(
            area.inside().width as int,
            1,
            form@.input.first_column(area.inside().width as int),
        ),
        cell_opt(r.cursor) == form@.input.cursor_cell(area.inside()),
{
    let inner = area.inner();
    InputView {
        title: form.field.label().to_owned(),
        text: form.input.display_value(inner.width as usize, 1),
        focused: true,
        cursor: form.input.terminal_cursor_position(inner),
    }
}

/// The question before a deletion.
pub open spec fn delete_prompt(app: AppView, target: DeleteTarget, now: UtcInstant) -> Seq<char> {
    match target {
        DeleteTarget::Project => "Delete project \""@ + (match app.current_project() {
            Some(file) => file.project.title,
            None => "selected project"@,
        }) + "\" and its JSON file?"@,
        DeleteTarget::Task => "Delete todo \""@ + (match app.current_task(now) {
            Some(task) => task.title,
            None => "selected task"@,
        }) + "\"?"@,
    }
}

/// The question before a deletion, with what to press.
pub fn delete_modal(app: &App, target: DeleteTarget, now: UtcInstant) -> (r: Panel)
    requires
        now.has_cutoff(),
    ensures
        r@ == (PanelView {
            title: "Confirm Delete"@,
            lines: seq![
                raw_line(delete_prompt(app@, target, now)),
                Seq::empty(),
                raw_line("Press y or Enter to confirm. Press n or Esc to cancel."@),
            ],
        }),
{
    let prompt = match target {
        DeleteTarget::Project => {
            let mut text = match app.current_project() {
                Some(file) => concat_text("Delete project \"", file.project.title.as_str()),
                None => concat_text("Delete project \"", "selected project"),
            };
            text.append("\" and its JSON file?");
            text
        },
        DeleteTarget::Task => {
            let mut text = match app.current_task(now) {
                Some(task) => concat_text("Delete todo \"", task.title.as_str()),
                None => concat_text("Delete todo \"", "selected task"),
            };
            text.append("\"?");
            text
        },
    };
    let mut lines: Vec<Line> = Vec::new();
    assert(line_views(lines@) =~= Seq::empty());
    push_line(&mut lines, Line::raw(prompt));
    push_line(&mut lines, Line::empty());
    push_line(
        &mut lines,
        Line::raw("Press y or Enter to confirm. Press n or Esc to cancel.".to_owned()),
    );
    let r = Panel { title: "Confirm Delete".to_owned(), lines };
    assert(r@.lines =~= seq![
        raw_line(delete_prompt(app@, target, now)),
        Seq::empty(),
        raw_line("Press y or Enter to confirm. Press n or Esc to cancel."@),
    ]);
    r
}

/// The list of a project shows one line for each task that is shown, and the
/// line that is chosen is one of them.
pub proof fn law_task_list_shows_visible_tasks(app: AppView, theme: UiTheme, now: UtcInstant)
    requires
        app.visible(now).len() > 0,
    ensures
        tasks_listing(app, theme, now).items.len() == app.visible(now).len(),
        tasks_listing(app, theme, now).selected matches Some(i) && 0 <= i < app.visible(now).len(),
        app.screen == Screen::ProjectDetail ==> app.selected_task_index(now) == Some(
            app.visible(now)[tasks_listing(app, theme, now).selected->0],
        ),
{
    let shown = app.visible(now);
    crate::model::law_visible_indices(app.tasks(), app.show_hidden_tasks, now);
    assert(0 <= shown[0] < app.tasks().len());
    if shown.contains(app.task_index) {
        shown.index_of_first_ensures(app.task_index);
    }
}

/// The footer begins with the message, where there is one, and is what the keys
/// do, where there is none.
pub proof fn law_footer_begins_with_message(app: AppView, theme: UiTheme)
    ensures
        app.status_message matches Some(message) ==> footer(app, theme)[0] == (SpanView {
            content: message.text,
            style: key_style(theme),
        }),
        app.status_message is None ==> footer(app, theme) == action_spans(actions_of(app), theme),
{
    if app.status_message is None {
        assert(footer(app, theme) =~= action_spans(actions_of(app), theme));
    }
}

/// Whether one of several lines reads `text`.
pub open spec fn shows(lines: Seq<Seq<SpanView>>, text: Seq<char>) -> bool {
    exists|i: int| 0 <= i < lines.len() && line_text(#[trigger] lines[i]) == text
}

proof fn lemma_two_spans(first: SpanView, second: SpanView)
    ensures
        line_text(seq![first, second]) == first.content + second.content,
        line_text(seq![first]) == first.content,
{
    let none = Seq::<SpanView>::empty();
    let one = none.push(first);
    lemma_line_text_push(none, first);
    lemma_line_text_push(one, second);
    assert(seq![first] =~= one);
    assert(seq![first, second] =~= one.push(second));
    assert(line_text(none) =~= Seq::<char>::empty());
    assert(Seq::<char>::empty() + first.content =~= first.content);
}

proof fn lemma_shows_property(
    lines: Seq<Seq<SpanView>>,
    i: int,
    label: Seq<char>,
    value: Seq<char>,
    theme: UiTheme,
)
    requires
        0 <= i < lines.len(),
        lines[i] == property(label, value, theme),
    ensures
        shows(lines, label + ": "@ + value),
{
    lemma_two_spans(
        SpanView { content: label + ": "@, style: key_style(theme) },
        raw_span(value),
    );
    assert(line_text(lines[i]) == label + ": "@ + value);
}

/// A project is shown with its title, the name of its file, its labels, how many
/// tasks it has and what it is about.
pub proof fn law_project_is_previewed(file: ProjectFileView, theme: UiTheme)
    ensures
        shows(project_preview(file, theme), file.project.title),
        shows(project_preview(file, theme), "File"@ + ": "@ + file.file_stem + ".json"@),
        shows(project_preview(file, theme), "Labels"@ + ": "@ + labels_text(file.project.labels)),
        shows(project_preview(file, theme), "Tasks"@ + ": "@ + decimal(file.project.tasks.len())),
        project_preview(file, theme).contains(raw_line(file.project.description)),
{
    let lines = project_preview(file, theme);
    let title = SpanView { content: file.project.title, style: Style::bold_style() };
    lemma_two_spans(title, title);
    assert(line_text(lines[0]) == file.project.title);
    lemma_shows_property(lines, 1, "File"@, project_file_name(file.file_stem), theme);
    assert("File"@ + ": "@ + project_file_name(file.file_stem) =~= "File"@ + ": "@ + file.file_stem
        + ".json"@);
    lemma_shows_property(lines, 2, "Labels"@, labels_text(file.project.labels), theme);
    lemma_shows_property(lines, 3, "Tasks"@, decimal(file.project.tasks.len()), theme);
    assert(lines[5] == raw_line(file.project.description));
}

/// A task is shown beside the list with all that it says but its times, each
/// under its name, and with the beginning of its content; a hidden one is called
/// that.
pub proof fn law_task_is_previewed(task: TaskView, theme: UiTheme, now: UtcInstant)
    ensures
        ({
            let lines = task_preview(task, theme, now);
            &&& shows(lines, task.title)
            &&& shows(lines, "Labels"@ + ": "@ + labels_text(task.labels))
            &&& task.branch matches Some(v) ==> shows(lines, "Branch"@ + ": "@ + v)
            &&& task.branch is None ==> shows(lines, "Branch"@ + ": "@ + "-"@)
            &&& task.completed_at matches Some(v) ==> shows(lines, "Completed"@ + ": "@ + v)
            &&& task.completed_at is None ==> shows(lines, "Completed"@ + ": "@ + "-"@)
            &&& task.due_at matches Some(v) ==> shows(lines, "Due"@ + ": "@ + v)
            &&& task.due_at is None ==> shows(lines, "Due"@ + ": "@ + "-"@)
            &&& lines.contains(raw_line(excerpt(task.content, 540)))
            &&& task.hidden(now) ==> shows(lines, "Hidden: completed more than 2 weeks ago"@)
            &&& !task.hidden(now) ==> lines.len() == 8
        }),
{
    let lines = task_preview(task, theme, now);
    let title = SpanView { content: task.title, style: key_style(theme) };
    lemma_two_spans(title, title);
    assert(line_text(lines[0]) == task.title);
    lemma_shows_property(lines, 1, "Labels"@, labels_text(task.labels), theme);
    lemma_shows_property(lines, 2, "Branch"@, text_or_dash_spec(task.branch), theme);
    lemma_shows_property(lines, 3, "Completed"@, text_or_dash_spec(task.completed_at), theme);
    lemma_shows_property(lines, 4, "Due"@, text_or_dash_spec(task.due_at), theme);
    assert(lines[7] == raw_line(excerpt(task.content, 540)));
    if task.hidden(now) {
        let note = SpanView {
            content: "Hidden: completed more than 2 weeks ago"@,
            style: Style::colored(theme.muted),
        };
        lemma_two_spans(note, note);
        assert(lines[9] == seq![note]);
        assert(line_text(lines[9]) == note.content);
    }
}

/// A task is shown above its content with all else that it says, each under its
/// name.
pub proof fn law_task_is_described(task: TaskView)
    ensures
        shows(task_metadata(task), task.title),
        task_metadata(task).contains(raw_line("Labels: "@ + labels_text(task.labels))),
        task.branch matches Some(v) ==> task_metadata(task).contains(raw_line("Branch: "@ + v)),
        task.branch is None ==> task_metadata(task).contains(raw_line("Branch: "@ + "-"@)),
        task_metadata(task).contains(raw_line("Created: "@ + task.created_at)),
        task.updated_at matches Some(v) ==> task_metadata(task).contains(
            raw_line("Updated: "@ + v),
        ),
        task.updated_at is None ==> task_metadata(task).contains(raw_line("Updated: "@ + "-"@)),
        task.completed_at matches Some(v) ==> task_metadata(task).contains(
            raw_line("Completed: "@ + v),
        ),
        task.completed_at is None ==> task_metadata(task).contains(raw_line("Completed: "@ + "-"@)),
        task.due_at matches Some(v) ==> task_metadata(task).contains(raw_line("Due: "@ + v)),
        task.due_at is None ==> task_metadata(task).contains(raw_line("Due: "@ + "-"@)),
{
    let lines = task_metadata(task);
    let title = SpanView { content: task.title, style: Style::bold_style() };
    lemma_two_spans(title, title);
    assert(line_text(lines[0]) == task.title);
    assert(lines[1] == raw_line("Labels: "@ + labels_text(task.labels)));
    assert(lines[2] == raw_line("Branch: "@ + text_or_dash_spec(task.branch)));
    assert(lines[3] == raw_line("Created: "@ + task.created_at));
    assert(lines[4] == raw_line("Updated: "@ + text_or_dash_spec(task.updated_at)));
    assert(lines[5] == raw_line("Completed: "@ + text_or_dash_spec(task.completed_at)));
    assert(lines[6] == raw_line("Due: "@ + text_or_dash_spec(task.due_at)));
}

/// Each project has a line in the list, in its place, with its title and how
/// many tasks it has; the one beside the list is the chosen one.
pub proof fn law_projects_are_listed(app: AppView, theme: UiTheme, i: int)
    requires
        0 <= i < app.projects.len(),
        0 <= app.project_index < app.projects.len(),
    ensures
        projects_listing(app, theme).items.len() == app.projects.len(),
        line_text(projects_listing(app, theme).items[i]) == app.projects[i].project.title + " ("@
            + decimal(app.projects[i].project.tasks.len()) + ")"@,
        projects_listing(app, theme).selected == Some(app.project_index),
        project_panel(app, theme).lines == project_preview(
            app.projects[projects_listing(app, theme).selected->0],
            theme,
        ),
{
    let file = app.projects[i];
    let count = " ("@ + decimal(file.project.tasks.len()) + ")"@;
    lemma_two_spans(
        SpanView { content: file.project.title, style: Style::colored(theme.foreground) },
        raw_span(count),
    );
    assert(file.project.title + count =~= file.project.title + " ("@ + decimal(
        file.project.tasks.len(),
    ) + ")"@);
}

/// Each task that is shown has a line in the list, in its place: what is open has
/// an empty box before its title, what is done a ticked one, and what is hidden
/// is called that.
pub proof fn law_tasks_are_listed(app: AppView, theme: UiTheme, now: UtcInstant, k: int)
    requires
        0 <= k < app.visible(now).len(),
    ensures
        ({
            let task = app.tasks()[app.visible(now)[k]];
            line_text(tasks_listing(app, theme, now).items[k]) == (if task.hidden(now) {
                "[hidden]"@
            } else if task.completed_at is Some {
                "[x]"@
            } else {
                "[ ]"@
            }) + " "@ + task.title
        }),
{
    let shown = app.visible(now);
    crate::model::law_visible_indices(app.tasks(), app.show_hidden_tasks, now);
    assert(0 <= shown[k] < app.tasks().len());
    let task = app.tasks()[shown[k]];
    lemma_two_spans(
        raw_span(marker(task, now) + " "@),
        SpanView {
            content: task.title,
            style: Style::colored(
                if task.hidden(now) {
                    theme.muted
                } else {
                    theme.foreground
                },
            ),
        },
    );
    assert(tasks_listing(app, theme, now).items[k] == task_item(task, theme, now));
}

/// Every task of a list is either shown or counted as hidden.
pub proof fn law_hidden_tasks_are_counted(tasks: Seq<TaskView>, now: UtcInstant)
    ensures
        visible_indices(tasks, false, now).len() + hidden_count(tasks, now) == tasks.len(),
    decreases tasks.len(),
{
    if tasks.len() > 0 {
        law_hidden_tasks_are_counted(tasks.drop_last(), now);
    }
}

/// Each setting has a line with its name and its value.
pub proof fn law_settings_are_listed(app: AppView, theme: UiTheme)
    ensures
        ({
            let items = settings_listing(app, theme).items;
            let settings = app.settings;
            &&& items.len() == 9
            &&& shows(items, "Theme"@ + ": "@ + settings.syntax_theme)
            &&& shows(items, "App background"@ + ": "@ + (if settings.use_theme_app_background {
                "theme"@
            } else {
                "terminal"@
            }))
            &&& shows(items, "Modal background"@ + ": "@ + (if settings.use_theme_modal_background {
                "theme"@
            } else {
                "terminal"@
            }))
            &&& shows(
                items,
                "Content wrap cols"@ + ": "@ + decimal(settings.task_content_wrap_cols),
            )
            &&& shows(items, "LLM backend"@ + ": "@ + settings.llm_backend.label_spec())
            &&& settings.codex_reasoning_effort matches Some(effort) ==> shows(
                items,
                "Codex reasoning"@ + ": "@ + effort.label_spec(),
            )
            &&& settings.codex_reasoning_effort is None ==> shows(
                items,
                "Codex reasoning"@ + ": "@ + "default"@,
            )
            &&& shows(items, "Codex fast"@ + ": "@ + (if settings.codex_fast_mode {
                "on"@
            } else {
                "off"@
            }))
            &&& shows(items, "LLM base URL"@ + ": "@ + settings.llm_base_url)
            &&& shows(items, "LLM model"@ + ": "@ + settings.llm_model)
        }),
{
    let items = settings_listing(app, theme).items;
    let fields = settings_fields();
    assert(fields.len() == 9);
    assert forall|i: int| 0 <= i < 9 implies shows(
        items,
        (#[trigger] fields[i]).label_spec() + ": "@ + setting_value(app.settings, fields[i]),
    ) by {
        let field = fields[i];
        assert(items[i] == setting_line(app.settings, field, theme));
        lemma_two_spans(
            SpanView { content: field.label_spec() + ": "@, style: Style::colored(theme.muted) },
            SpanView {
                content: setting_value(app.settings, field),
                style: Style::colored(theme.foreground),
            },
        );
        assert(line_text(items[i]) == field.label_spec() + ": "@ + setting_value(
            app.settings,
            field,
        ));
    }
    assert(fields[0] == SettingsField::SyntaxTheme);
    assert(fields[1] == SettingsField::AppBackground);
    assert(fields[2] == SettingsField::ModalBackground);
    assert(fields[3] == SettingsField::TaskContentWrapCols);
    assert(fields[4] == SettingsField::LlmBackend);
    assert(fields[5] == SettingsField::CodexReasoningEffort);
    assert(fields[6] == SettingsField::CodexFastMode);
    assert(fields[7] == SettingsField::LlmBaseUrl);
    assert(fields[8] == SettingsField::LlmModel);
}

proof fn lemma_line_text_concat(a: Seq<SpanView>, b: Seq<SpanView>)
    ensures
        line_text(a + b) == line_text(a) + line_text(b),
    decreases b.len(),
{
    if b.len() == 0 {
        assert(a + b =~= a);
        assert(line_text(a) + line_text(b) =~= line_text(a));
    } else {
        assert((a + b).drop_last() =~= a + b.drop_last());
        lemma_line_text_concat(a, b.drop_last());
        assert(line_text(a + b) =~= line_text(a) + line_text(b));
    }
}

proof fn lemma_actions_name(actions: Seq<FooterActionView>, theme: UiTheme, i: int) -> (r: (
    Seq<char>,
    Seq<char>,
))
    requires
        0 <= i < actions.len(),
    ensures
        line_text(action_spans(actions, theme)) == r.0 + (actions[i].key + " "@
            + actions[i].description) + r.1,
    decreases actions.len(),
{
    let front = actions.drop_last();
    let last = actions.last();
    let before = action_spans(front, theme);
    let start = if actions.len() > 1 {
        before.push(footer_gap(theme))
    } else {
        before
    };
    let key = SpanView { content: last.key, style: key_style(theme) };
    let blank = raw_span(" "@);
    let said = SpanView { content: last.description, style: Style::colored(theme.muted) };
    let end = seq![key, blank, said];
    lemma_line_text_concat(start, end);
    lemma_two_spans(key, blank);
    lemma_line_text_push(seq![key, blank], said);
    assert(end =~= seq![key, blank].push(said));
    let tail = last.key + " "@ + last.description;
    if i < front.len() {
        let r = lemma_actions_name(front, theme, i);
        lemma_line_text_push(before, footer_gap(theme));
        let more = r.1 + " | "@ + tail;
        assert(line_text(action_spans(actions, theme)) =~= r.0 + (actions[i].key + " "@
            + actions[i].description) + more);
        (r.0, more)
    } else {
        let none = Seq::<char>::empty();
        assert(line_text(action_spans(actions, theme)) =~= line_text(start) + tail + none);
        (line_text(start), none)
    }
}

/// The footer names every key that does something, and says what.
pub proof fn law_footer_names_every_key(app: AppView, theme: UiTheme, i: int)
    requires
        0 <= i < actions_of(app).len(),
    ensures
        has_part(
            line_text(footer(app, theme)),
            actions_of(app)[i].key + " "@ + actions_of(app)[i].description,
        ),
{
    let actions = actions_of(app);
    let text = actions[i].key + " "@ + actions[i].description;
    let start = match app.status_message {
        Some(message) => seq![
            SpanView { content: message.text, style: key_style(theme) },
            footer_gap(theme),
        ],
        None => Seq::empty(),
    };
    let r = lemma_actions_name(actions, theme, i);
    lemma_line_text_concat(start, action_spans(actions, theme));
    lemma_has_middle(line_text(start) + r.0, text, r.1);
    assert(line_text(footer(app, theme)) =~= line_text(start) + r.0 + text + r.1);
}

/// The question before a deletion names what would be deleted.
pub proof fn law_delete_prompt_names_the_target(app: AppView, now: UtcInstant)
    ensures
        app.current_project() matches Some(file) ==> has_part(
            delete_prompt(app, DeleteTarget::Project, now),
            file.project.title,
        ),
        app.current_task(now) matches Some(task) ==> has_part(
            delete_prompt(app, DeleteTarget::Task, now),
            task.title,
        ),
{
    if let Some(file) = app.current_project() {
        lemma_has_middle("Delete project \""@, file.project.title, "\" and its JSON file?"@);
    }
    if let Some(task) = app.current_task(now) {
        lemma_has_middle("Delete todo \""@, task.title, "\"?"@);
    }
}

/// The footer of a screen offers what can be done there: to leave it everywhere;
/// to talk, to delete and to change settings on all but the settings; to edit and
/// to complete where there are tasks.
pub proof fn law_footer_offers(screen: Screen, show_hidden: bool)
    ensures
        ({
            let offered = screen_actions(screen, show_hidden);
            let on_tasks = screen == Screen::ProjectDetail || screen == Screen::TaskDetail;
            let on_lists = screen == Screen::Projects || screen == Screen::ProjectDetail;
            &&& screen == Screen::Projects ==> offered.contains(action("q"@, "quit"@))
            &&& screen != Screen::Projects ==> offered.contains(action("q"@, "back"@))
            &&& screen != Screen::Settings ==> offered.contains(action("c"@, "chat"@))
            &&& screen != Screen::Settings ==> offered.contains(action("d"@, "delete"@))
            &&& screen != Screen::Settings ==> offered.contains(action("s"@, "settings"@))
            &&& on_tasks ==> offered.contains(action("e"@, "edit"@))
            &&& on_lists ==> offered.contains(action("Enter"@, "open"@))
            &&& on_lists || screen == Screen::Settings ==> offered.contains(
                action("Up/Down"@, "move"@),
            )
            &&& screen == Screen::TaskDetail ==> offered.contains(action("Up/Down"@, "scroll"@))
            &&& screen == Screen::Settings ==> offered.contains(action("Left/Right"@, "change"@))
            &&& screen == Screen::ProjectDetail ==> offered.contains(
                action("Space"@, "toggle done"@),
            )
            &&& screen == Screen::ProjectDetail && show_hidden ==> offered.contains(
                action("h"@, "hide hidden"@),
            )
            &&& screen == Screen::ProjectDetail && !show_hidden ==> offered.contains(
                action("h"@, "show hidden"@),
            )
        }),
{
    let offered = screen_actions(screen, show_hidden);
    match screen {
        Screen::Projects => {
            assert(offered[0] == action("Up/Down"@, "move"@));
            assert(offered[1] == action("Enter"@, "open"@));
            assert(offered[2] == action("c"@, "chat"@));
            assert(offered[3] == action("s"@, "settings"@));
            assert(offered[4] == action("d"@, "delete"@));
            assert(offered[5] == action("q"@, "quit"@));
        },
        Screen::ProjectDetail => {
            assert(offered[0] == action("Up/Down"@, "move"@));
            assert(offered[1] == action("Enter"@, "open"@));
            assert(offered[2] == action("Space"@, "toggle done"@));
            assert(offered[3] == action("c"@, "chat"@));
            assert(offered[4] == action("e"@, "edit"@));
            assert(offered[5] == action("d"@, "delete"@));
            assert(offered[6] == action("s"@, "settings"@));
            assert(offered[7].key == "h"@);
            assert(offered.contains(offered[7]));
            assert(offered[8] == action("q"@, "back"@));
        },
        Screen::TaskDetail => {
            assert(offered[0] == action("Up/Down"@, "scroll"@));
            assert(offered[1] == action("c"@, "chat"@));
            assert(offered[2] == action("e"@, "edit"@));
            assert(offered[3] == action("d"@, "delete"@));
            assert(offered[4] == action("s"@, "settings"@));
            assert(offered[5] == action("q"@, "back"@));
        },
        Screen::Settings => {
            assert(offered[0] == action("Up/Down"@, "move"@));
            assert(offered[1] == action("Left/Right"@, "change"@));
            assert(offered[2] == action("q"@, "back"@));
        },
    }
}

/// Whatever else is open can be cancelled, and what can be saved or confirmed can
/// be that.
pub proof fn law_footer_offers_in_forms(app: AppView)
    ensures
        app.mode is Normal ==> actions_of(app) == screen_actions(app.screen, app.show_hidden_tasks),
        app.mode is Chat || app.mode is Editing || app.mode is EditingSetting
            ==> actions_of(app).contains(action("Esc"@, "cancel"@)),
        app.mode is ConfirmDelete ==> actions_of(app).contains(action("n/Esc"@, "cancel"@)),
        app.mode is ConfirmDelete ==> actions_of(app).contains(action("y/Enter"@, "confirm"@)),
        app.mode is Editing ==> actions_of(app).contains(action("F2/Ctrl-S"@, "save"@)),
        app.mode is Editing ==> actions_of(app).contains(action("Tab"@, "next"@)),
        app.mode is EditingSetting ==> actions_of(app).contains(
            action("Enter/F2/Ctrl-S"@, "save"@),
        ),
        app.mode matches ModeView::Chat(form) ==> (actions_of(app).contains(
            action("Enter"@, "create draft"@),
        ) || form.pending),
        app.mode matches ModeView::Chat(form) ==> form.pending ==> actions_of(app).len() == 1,
{
    let offered = actions_of(app);
    match app.mode {
        ModeView::Normal => {},
        ModeView::Chat(form) => {
            if form.pending {
                assert(offered[0] == action("Esc"@, "cancel"@));
            } else {
                assert(offered[0] == action("Enter"@, "create draft"@));
                assert(offered[1] == action("Esc"@, "cancel"@));
            }
        },
        ModeView::Editing(form) => {
            assert(offered[0] == action("Tab"@, "next"@));
            assert(offered[1] == action("F2/Ctrl-S"@, "save"@));
            assert(offered[2] == action("Esc"@, "cancel"@));
        },
        ModeView::EditingSetting(form) => {
            assert(offered[0] == action("Enter/F2/Ctrl-S"@, "save"@));
            assert(offered[1] == action("Esc"@, "cancel"@));
        },
        ModeView::ConfirmDelete(target) => {
            assert(offered[0] == action("y/Enter"@, "confirm"@));
            assert(offered[1] == action("n/Esc"@, "cancel"@));
        },
    }
}

/// Laying a field out in a frame changes neither its text nor its cursor; it gets
/// the height within the frame, and where it is typed into the line of the cursor
/// is in view.
pub proof fn law_laid_out_field(field: FieldView, area: Rect, active: bool)
    requires
        field.in_bounds(),
        0 <= field.scroll_top,
        area.height > 2,
    ensures
        ({
            let after = laid_out(field, area, active);
            &&& after.value == field.value && after.cursor == field.cursor
            &&& after.label == field.label && after.multiline == field.multiline
            &&& after.viewport_height + 2 == area.height
            &&& !active ==> after.scroll_top == field.scroll_top
            &&& active && field.multiline ==> after.scroll_top <= after.place().0
                < after.scroll_top + after.viewport_height
        }),
{
    if active && field.multiline {
        let sized = FieldView { viewport_height: area.height - 2, ..field };
        crate::field::law_scrolling_keeps_cursor_visible(sized, area.height - 2);
    }
}

/// The title of the list of tasks tells how many of them are not shown, where
/// there are any, and that hidden ones are shown where they are.
pub proof fn law_tasks_title(app: AppView, theme: UiTheme, now: UtcInstant)
    ensures
        ({
            let title = tasks_listing(app, theme, now).title;
            let hidden = app.tasks().len() - app.visible(now).len();
            &&& app.show_hidden_tasks ==> title == "Todos (showing hidden)"@
            &&& !app.show_hidden_tasks && hidden == 0 ==> title == "Todos"@
            &&& !app.show_hidden_tasks && hidden > 0 ==> title == "Todos ("@ + decimal(
                hidden as nat,
            ) + " hidden)"@
        }),
{
    law_hidden_tasks_are_counted(app.tasks(), now);
}

} // verus!
