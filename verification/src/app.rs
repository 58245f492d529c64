//! The application: what it shows, and what keys do to it.
//!
//! A step of the application changes its state and may ask for an effect, such
//! as saving a file. Whoever runs the application brings the effect about and
//! hands back what came of it.
use vstd::prelude::*;

use crate::errors::{short_error_message, short_message, TodoError, TodoErrorView};
use crate::forms::{
    law_form_stays_sound, lemma_line_after, nullable_text, task_fields, task_opt, ChatAction,
    ChatActionView, ChatForm, ChatFormView, EditAction, EditForm, EditFormView, SettingTextAction,
    SettingTextForm, SettingTextFormView,
};
use crate::key::{KeyCode, KeyEvent};
use crate::llm::{
    base_url_check, completions_url, draft_task, draft_to_task, is_uuid_v7, new_uuid, url_scheme,
    validate_llm_base_url, LlmTodoDraft, LlmTodoDraftView, LlmTodoRequest, LlmTodoRequestView,
};
use crate::model::{
    apply_task_update_at, law_visible_indices, project_file_name, project_views, stamp, task_views,
    toggle_completion, visible_indices, visible_task_indices_at, Project, ProjectFile,
    ProjectFileView, ProjectView, Task, TaskUpdate, TaskView,
};
use crate::order::ints;
use crate::settings::{
    changed_wrap_cols, cycle_codex_reasoning_effort, effort_after, effort_index, settings_field,
    settings_fields, wrap_cols_after, LlmBackend, Settings, SettingsField, SettingsView, SETTINGS_FIELD_COUNT,
};
use crate::text::{same_text, text_opt, texts, trim, trimmed};
use crate::time::{timestamp, UtcInstant};

verus! {

/// A screen.
#[derive(Debug, Clone, Copy, PartialEq, Eq, Structural)]
pub enum Screen {
    Projects,
    ProjectDetail,
    TaskDetail,
    Settings,
}

/// What is about to be deleted.
#[derive(Debug, Clone, Copy, PartialEq, Eq, Structural)]
pub enum DeleteTarget {
    Project,
    Task,
}

/// What keys go to, as mathematics sees it.
pub enum ModeView {
    Normal,
    Editing(EditFormView),
    Chat(ChatFormView),
    EditingSetting(SettingTextFormView),
    ConfirmDelete(DeleteTarget),
}

/// What keys go to: the screen, a form, or a question.
#[derive(Debug)]
pub enum Mode {
    Normal,
    Editing(EditForm),
    Chat(ChatForm),
    EditingSetting(SettingTextForm),
    ConfirmDelete(DeleteTarget),
}

impl View for Mode {
    type V = ModeView;

    open spec fn view(&self) -> ModeView {
        match self {
            Mode::Normal => ModeView::Normal,
            Mode::Editing(form) => ModeView::Editing(form@),
            Mode::Chat(form) => ModeView::Chat(form@),
            Mode::EditingSetting(form) => ModeView::EditingSetting(form@),
            Mode::ConfirmDelete(target) => ModeView::ConfirmDelete(*target),
        }
    }
}

impl ModeView {
    /// Whether the form, if there is one, is sound.
    pub open spec fn wf(self) -> bool {
        match self {
            ModeView::Editing(form) => form.wf(),
            ModeView::Chat(form) => form.wf(),
            ModeView::EditingSetting(form) => form.wf(),
            _ => true,
        }
    }
}

/// A message as mathematics sees it.
pub struct StatusView {
    pub text: Seq<char>,
    pub created_at: int,
}

/// A message, and when it came up, in nanoseconds.
#[derive(Debug, PartialEq, Eq)]
pub struct StatusMessage {
    pub text: String,
    pub created_at: u64,
}

/// A message, if there is one.
pub open spec fn status_view(v: Option<StatusMessage>) -> Option<StatusView> {
    match v {
        Some(message) => Some(
            StatusView { text: message.text@, created_at: message.created_at as int },
        ),
        None => None,
    }
}

/// The time: the present instant, and nanoseconds on a clock that never goes back.
#[derive(Debug, Clone, Copy, PartialEq, Eq)]
pub struct Clock {
    pub utc: UtcInstant,
    pub ticks: u64,
}

impl Clock {
    pub open spec fn wf(self) -> bool {
        self.utc.has_cutoff()
    }
}

/// Why a project is saved.
#[derive(Debug, Clone, Copy, PartialEq, Eq, Structural)]
pub enum ProjectChange {
    /// A task, by its place, was completed or opened again.
    Toggled { task_index: usize, completed: bool },
    /// A task was added.
    Added,
    /// A task was edited.
    Edited,
    /// A task was deleted.
    Deleted,
}

/// What a step asks for, as mathematics sees it.
pub enum EffectView {
    Done,
    LoadThemeOptions,
    LoadTheme { previous: Seq<char> },
    SaveSettings { closes_form: bool },
    SaveProject(ProjectChange),
    DeleteProjectFile,
    ReadLlmInputs { prompt: Seq<char>, with_api_key: bool },
    AskLlm(LlmTodoRequestView),
}

/// What a step asks for.
#[derive(Debug)]
pub enum Effect {
    /// Nothing.
    Done,
    /// The names of the themes in the folder of themes.
    LoadThemeOptions,
    /// The theme of the settings; there was another before.
    LoadTheme { previous: String },
    /// The settings are saved; the form that changed them closes then.
    SaveSettings { closes_form: bool },
    /// The current project is saved.
    SaveProject(ProjectChange),
    /// The file of the current project is deleted.
    DeleteProjectFile,
    /// The instructions for drafts are read, and the key where it is needed.
    ReadLlmInputs { prompt: String, with_api_key: bool },
    /// A draft is asked for.
    AskLlm(LlmTodoRequest),
}

impl View for Effect {
    type V = EffectView;

    open spec fn view(&self) -> EffectView {
        match self {
            Effect::Done => EffectView::Done,
            Effect::LoadThemeOptions => EffectView::LoadThemeOptions,
            Effect::LoadTheme { previous } => EffectView::LoadTheme { previous: previous@ },
            Effect::SaveSettings { closes_form } => EffectView::SaveSettings {
                closes_form: *closes_form,
            },
            Effect::SaveProject(change) => EffectView::SaveProject(*change),
            Effect::DeleteProjectFile => EffectView::DeleteProjectFile,
            Effect::ReadLlmInputs { prompt, with_api_key } => EffectView::ReadLlmInputs {
                prompt: prompt@,
                with_api_key: *with_api_key,
            },
            Effect::AskLlm(request) => EffectView::AskLlm(request@),
        }
    }
}

/// What came of an effect, as mathematics sees it.
pub enum OutcomeView {
    Succeeded,
    Failed(Seq<char>),
    ThemeOptions(Seq<Seq<char>>),
    LlmInputs { instructions: Seq<char>, api_key: Option<Seq<char>> },
}

/// What came of an effect.
#[derive(Debug, PartialEq, Eq)]
pub enum Outcome {
    /// It was brought about.
    Succeeded,
    /// It was not; this is said of it.
    Failed(String),
    /// These are the names of the themes.
    ThemeOptions(Vec<String>),
    /// These are the instructions and the key.
    LlmInputs { instructions: String, api_key: Option<String> },
}

impl View for Outcome {
    type V = OutcomeView;

    open spec fn view(&self) -> OutcomeView {
        match self {
            Outcome::Succeeded => OutcomeView::Succeeded,
            Outcome::Failed(text) => OutcomeView::Failed(text@),
            Outcome::ThemeOptions(options) => OutcomeView::ThemeOptions(texts(options@)),
            Outcome::LlmInputs { instructions, api_key } => OutcomeView::LlmInputs {
                instructions: instructions@,
                api_key: text_opt(*api_key),
            },
        }
    }
}

/// The application as mathematics sees it.
pub struct AppView {
    pub projects: Seq<ProjectFileView>,
    pub settings: SettingsView,
    pub theme_options: Seq<Seq<char>>,
    pub project_index: int,
    pub task_index: int,
    pub settings_index: int,
    pub settings_return_screen: Screen,
    pub show_hidden_tasks: bool,
    pub detail_scroll: int,
    pub screen: Screen,
    pub mode: ModeView,
    pub llm_pending: bool,
    pub status_message: Option<StatusView>,
    pub should_quit: bool,
}

/// The application.
#[derive(Debug)]
pub struct App {
    pub projects: Vec<ProjectFile>,
    pub settings: Settings,
    pub theme_options: Vec<String>,
    pub project_index: usize,
    pub task_index: usize,
    pub settings_index: usize,
    pub settings_return_screen: Screen,
    pub show_hidden_tasks: bool,
    pub detail_scroll: u16,
    pub screen: Screen,
    pub mode: Mode,
    pub llm_pending: bool,
    pub status_message: Option<StatusMessage>,
    pub should_quit: bool,
}

impl View for App {
    type V = AppView;

    open spec fn view(&self) -> AppView {
        AppView {
            projects: project_views(self.projects@),
            settings: self.settings@,
            theme_options: texts(self.theme_options@),
            project_index: self.project_index as int,
            task_index: self.task_index as int,
            settings_index: self.settings_index as int,
            settings_return_screen: self.settings_return_screen,
            show_hidden_tasks: self.show_hidden_tasks,
            detail_scroll: self.detail_scroll as int,
            screen: self.screen,
            mode: self.mode@,
            llm_pending: self.llm_pending,
            status_message: status_view(self.status_message),
            should_quit: self.should_quit,
        }
    }
}

/// The smaller of a number and the last place in a list.
pub open spec fn clamped(index: int, len: int) -> int {
    if len == 0 {
        0
    } else if index < len {
        index
    } else {
        len - 1
    }
}

/// The place `direction` steps on in a list, round and round.
pub open spec fn place_after(current: int, len: int, direction: int) -> int {
    (current + direction) % len
}

/// Where a text stands in a list; the first place where it does not.
pub open spec fn place_of(list: Seq<Seq<char>>, text: Seq<char>) -> int {
    if list.contains(text) {
        list.index_of_first(text)->0
    } else {
        0
    }
}

impl AppView {
    /// Whether a project is chosen where there is one, a line of the settings
    /// is, and the form is sound.
    pub open spec fn wf(self) -> bool {
        &&& 0 <= self.project_index
        &&& self.project_index < self.projects.len() || self.project_index == 0
        &&& 0 <= self.task_index
        &&& 0 <= self.settings_index < SETTINGS_FIELD_COUNT
        &&& self.mode.wf()
    }

    /// With a message.
    pub open spec fn saying(self, text: Seq<char>, clock: Clock) -> AppView {
        AppView {
            status_message: Some(StatusView { text, created_at: clock.ticks as int }),
            ..self
        }
    }

    /// With a short message for an error.
    pub open spec fn reporting(self, text: Seq<char>, clock: Clock) -> AppView {
        self.saying(short_message(text), clock)
    }

    /// With keys going elsewhere.
    pub open spec fn in_mode(self, mode: ModeView) -> AppView {
        AppView { mode, ..self }
    }

    /// The project that is chosen, if there is one.
    pub open spec fn current_project(self) -> Option<ProjectFileView> {
        if 0 <= self.project_index < self.projects.len() {
            Some(self.projects[self.project_index])
        } else {
            None
        }
    }

    /// The tasks of the project that is chosen.
    pub open spec fn tasks(self) -> Seq<TaskView> {
        match self.current_project() {
            Some(file) => file.project.tasks,
            None => Seq::empty(),
        }
    }

    /// With other tasks in the project that is chosen.
    pub open spec fn with_tasks(self, tasks: Seq<TaskView>) -> AppView {
        let file = self.projects[self.project_index];
        AppView {
            projects: self.projects.update(
                self.project_index,
                ProjectFileView {
                    file_stem: file.file_stem,
                    project: ProjectView { tasks, ..file.project },
                },
            ),
            ..self
        }
    }

    /// The tasks that the list shows.
    pub open spec fn visible(self, now: UtcInstant) -> Seq<int> {
        visible_indices(self.tasks(), self.show_hidden_tasks, now)
    }

    /// The task that is chosen, by its place: in the list of a project one
    /// that it shows, elsewhere any.
    pub open spec fn selected_task_index(self, now: UtcInstant) -> Option<int> {
        let len = self.tasks().len();
        if len == 0 {
            None
        } else if self.screen == Screen::ProjectDetail {
            let shown = self.visible(now);
            if shown.contains(self.task_index) {
                Some(self.task_index)
            } else if shown.len() > 0 {
                Some(shown[0])
            } else {
                None
            }
        } else {
            Some(clamped(self.task_index, len as int))
        }
    }

    /// The task that is chosen.
    pub open spec fn current_task(self, now: UtcInstant) -> Option<TaskView> {
        match self.selected_task_index(now) {
            Some(i) => Some(self.tasks()[i]),
            None => None,
        }
    }

    /// With a task chosen that the list shows, where it shows one.
    pub open spec fn normalized(self, now: UtcInstant) -> AppView {
        let shown = self.visible(now);
        if shown.len() == 0 {
            AppView {
                task_index: 0,
                detail_scroll: 0,
                screen: if self.screen == Screen::TaskDetail {
                    Screen::ProjectDetail
                } else {
                    self.screen
                },
                ..self
            }
        } else if shown.contains(self.task_index) {
            self
        } else {
            AppView { task_index: shown[0], detail_scroll: 0, ..self }
        }
    }

    /// With the task `direction` places on in the list chosen, as far as the list goes.
    pub open spec fn moved_task(self, direction: int, now: UtcInstant) -> AppView {
        let shown = self.visible(now);
        let place = if shown.contains(self.task_index) {
            shown.index_of_first(self.task_index)->0
        } else {
            0
        };
        let next = if place + direction < 0 {
            0
        } else {
            clamped(place + direction, shown.len() as int)
        };
        AppView {
            task_index: if shown.len() == 0 {
                0
            } else {
                shown[next]
            },
            ..self
        }
    }

    /// One down.
    pub open spec fn moved_down(self, now: UtcInstant) -> AppView {
        match self.screen {
            Screen::Projects => if self.project_index + 1 < self.projects.len() {
                AppView { project_index: self.project_index + 1, task_index: 0, ..self }
            } else {
                self
            },
            Screen::ProjectDetail => self.moved_task(1, now),
            Screen::TaskDetail => AppView {
                detail_scroll: if self.detail_scroll < u16::MAX {
                    self.detail_scroll + 1
                } else {
                    self.detail_scroll
                },
                ..self
            },
            Screen::Settings => self,
        }
    }

    /// One up.
    pub open spec fn moved_up(self, now: UtcInstant) -> AppView {
        match self.screen {
            Screen::Projects => AppView {
                project_index: if self.project_index > 0 {
                    self.project_index - 1
                } else {
                    0
                },
                task_index: 0,
                ..self
            },
            Screen::ProjectDetail => self.moved_task(-1, now),
            Screen::TaskDetail => AppView {
                detail_scroll: if self.detail_scroll > 0 {
                    self.detail_scroll - 1
                } else {
                    0
                },
                ..self
            },
            Screen::Settings => self,
        }
    }

    /// Back to where one came from, or out.
    pub open spec fn gone_back(self) -> AppView {
        match self.screen {
            Screen::Projects => AppView { should_quit: true, ..self },
            Screen::ProjectDetail => AppView { screen: Screen::Projects, ..self },
            Screen::TaskDetail => AppView { screen: Screen::ProjectDetail, ..self },
            Screen::Settings => AppView { screen: self.settings_return_screen, ..self },
        }
    }

    /// With what is chosen opened.
    pub open spec fn opened(self, now: UtcInstant) -> AppView {
        match self.screen {
            Screen::Projects => if self.current_project() is Some {
                AppView {
                    screen: Screen::ProjectDetail,
                    task_index: 0,
                    detail_scroll: 0,
                    ..self
                }.normalized(now)
            } else {
                self
            },
            Screen::ProjectDetail => match self.selected_task_index(now) {
                Some(i) => AppView {
                    task_index: i,
                    screen: Screen::TaskDetail,
                    detail_scroll: 0,
                    ..self
                },
                None => self,
            },
            _ => self,
        }
    }

    /// With the settings opened.
    pub open spec fn settings_opened(self, options: Seq<Seq<char>>) -> AppView {
        AppView {
            theme_options: options,
            settings_return_screen: self.screen,
            screen: Screen::Settings,
            settings_index: clamped(self.settings_index, SETTINGS_FIELD_COUNT as int),
            ..self
        }
    }

    /// With hidden tasks shown, or no longer.
    pub open spec fn hidden_toggled(self, clock: Clock) -> AppView {
        if self.screen != Screen::ProjectDetail {
            self
        } else {
            let toggled = AppView {
                show_hidden_tasks: !self.show_hidden_tasks,
                ..self
            }.normalized(clock.utc);
            toggled.saying(
                if self.show_hidden_tasks {
                    "hiding hidden"@
                } else {
                    "showing hidden"@
                },
                clock,
            )
        }
    }

    /// With the task that is chosen by its place after a reload: the one with
    /// an identifier, where there is one, else the one in that place.
    pub open spec fn reselected(self, id: Option<Seq<char>>, now: UtcInstant) -> AppView {
        let tasks = self.tasks();
        if self.current_project() is None || tasks.len() == 0 {
            AppView {
                task_index: 0,
                detail_scroll: 0,
                screen: if self.current_project() is Some && self.screen == Screen::TaskDetail {
                    Screen::ProjectDetail
                } else {
                    self.screen
                },
                ..self
            }
        } else {
            let place = match id {
                Some(id) => task_place(tasks, id),
                None => None,
            };
            AppView {
                task_index: match place {
                    Some(i) => i,
                    None => clamped(self.task_index, tasks.len() as int),
                },
                ..self
            }.normalized(now)
        }
    }
}

/// The time from one moment to another; none where the other comes first.
pub open spec fn elapsed(from: int, to: int) -> int {
    if to >= from {
        to - from
    } else {
        0
    }
}

/// Where the first task with an identifier stands.
pub open spec fn task_place(tasks: Seq<TaskView>, id: Seq<char>) -> Option<int>
    decreases tasks.len(),
{
    if tasks.len() == 0 {
        None
    } else if tasks[0].id == id {
        Some(0)
    } else {
        match task_place(tasks.drop_first(), id) {
            Some(i) => Some(i + 1),
            None => None,
        }
    }
}

/// What a step comes to: a state, and an effect or an error.
pub type StepView = (AppView, Result<EffectView, TodoErrorView>);

/// A step with its error, if there is one, reported.
pub open spec fn settled(step: StepView, clock: Clock) -> (AppView, EffectView) {
    match step.1 {
        Ok(effect) => (step.0, effect),
        Err(error) => (step.0.reporting(error.message(), clock), EffectView::Done),
    }
}

impl AppView {
    /// With another theme in the settings: the one `direction` places on.
    pub open spec fn theme_changed(self, direction: int) -> (AppView, EffectView) {
        let options = self.theme_options;
        let current = place_of(options, self.settings.syntax_theme);
        if options.len() == 0 {
            (self, EffectView::SaveSettings { closes_form: false })
        } else {
            (
                AppView {
                    settings: SettingsView {
                        syntax_theme: options[place_after(current, options.len() as int, direction)],
                        ..self.settings
                    },
                    ..self
                },
                EffectView::LoadTheme { previous: self.settings.syntax_theme },
            )
        }
    }

    /// With the chosen setting changed, one step on or back; a text is edited
    /// in a form.
    pub open spec fn setting_changed(self, direction: int) -> (AppView, EffectView) {
        let save = EffectView::SaveSettings { closes_form: false };
        let settings = self.settings;
        match settings_fields()[self.settings_index] {
            SettingsField::SyntaxTheme => self.theme_changed(direction),
            SettingsField::AppBackground => (
                AppView {
                    settings: SettingsView {
                        use_theme_app_background: !settings.use_theme_app_background,
                        ..settings
                    },
                    ..self
                },
                save,
            ),
            SettingsField::ModalBackground => (
                AppView {
                    settings: SettingsView {
                        use_theme_modal_background: !settings.use_theme_modal_background,
                        ..settings
                    },
                    ..self
                },
                save,
            ),
            SettingsField::TaskContentWrapCols => (
                AppView {
                    settings: SettingsView {
                        task_content_wrap_cols: wrap_cols_after(
                            settings.task_content_wrap_cols,
                            direction,
                        ),
                        ..settings
                    },
                    ..self
                },
                save,
            ),
            SettingsField::LlmBackend => (
                AppView {
                    settings: SettingsView {
                        llm_backend: settings.llm_backend.other(),
                        ..settings
                    },
                    ..self
                },
                save,
            ),
            SettingsField::CodexReasoningEffort => (
                AppView {
                    settings: SettingsView {
                        codex_reasoning_effort: effort_after(
                            settings.codex_reasoning_effort,
                            direction,
                        ),
                        ..settings
                    },
                    ..self
                },
                save,
            ),
            SettingsField::CodexFastMode => (
                AppView {
                    settings: SettingsView {
                        codex_fast_mode: !settings.codex_fast_mode,
                        ..settings
                    },
                    ..self
                },
                save,
            ),
            SettingsField::LlmBaseUrl => (
                self.setting_edited(SettingsField::LlmBaseUrl),
                EffectView::Done,
            ),
            SettingsField::LlmModel => (
                self.setting_edited(SettingsField::LlmModel),
                EffectView::Done,
            ),
        }
    }

    /// With a setting that is a text in a form.
    pub open spec fn setting_edited(self, field: SettingsField) -> AppView {
        match field {
            SettingsField::LlmBaseUrl => self.in_mode(
                ModeView::EditingSetting(
                    SettingTextFormView::initial(field, self.settings.llm_base_url),
                ),
            ),
            SettingsField::LlmModel => self.in_mode(
                ModeView::EditingSetting(
                    SettingTextFormView::initial(field, self.settings.llm_model),
                ),
            ),
            _ => self,
        }
    }

    /// With the text of a form in the settings. It must not be blank, and an
    /// address must be one of the web.
    pub open spec fn setting_saved(self, form: SettingTextFormView) -> StepView {
        let save = Ok(EffectView::SaveSettings { closes_form: true });
        match nullable_text(form.input.value) {
            None => (self, Err(TodoErrorView::EmptySetting)),
            Some(value) => match form.field {
                SettingsField::LlmBaseUrl => match base_url_check(
                    value,
                    url_scheme(completions_url(value)),
                ) {
                    Err(error) => (self, Err(error)),
                    Ok(()) => (
                        AppView {
                            settings: SettingsView { llm_base_url: value, ..self.settings },
                            ..self
                        },
                        save,
                    ),
                },
                SettingsField::LlmModel => (
                    AppView {
                        settings: SettingsView { llm_model: value, ..self.settings },
                        ..self
                    },
                    save,
                ),
                _ => (self, Ok(EffectView::Done)),
            },
        }
    }

    /// With the chosen task completed, or open again.
    pub open spec fn task_toggled(self, now: UtcInstant) -> StepView {
        if self.screen != Screen::ProjectDetail {
            (self, Ok(EffectView::Done))
        } else {
            match self.selected_task_index(now) {
                None => (self, Err(TodoErrorView::NoTaskSelected)),
                Some(i) => (
                    self.with_tasks(self.tasks().update(i, self.tasks()[i].toggled(now))),
                    Ok(
                        EffectView::SaveProject(
                            ProjectChange::Toggled {
                                task_index: i as usize,
                                completed: self.tasks()[i].completed_at is None,
                            },
                        ),
                    ),
                ),
            }
        }
    }

    /// With the chosen task in a form.
    pub open spec fn task_edited(self, now: UtcInstant) -> StepView {
        match self.current_task(now) {
            None => (self, Err(TodoErrorView::NoTaskSelected)),
            Some(task) => (
                self.in_mode(
                    ModeView::Editing(
                        EditFormView {
                            fields: task_fields(task),
                            active: 0,
                            new_task: None,
                        },
                    ),
                ),
                Ok(EffectView::Done),
            ),
        }
    }

    /// With a question before a deletion.
    pub open spec fn deletion_asked(self, now: UtcInstant) -> StepView {
        match self.screen {
            Screen::Projects => if self.current_project() is None {
                (self, Err(TodoErrorView::NoProjectSelected))
            } else {
                (
                    self.in_mode(ModeView::ConfirmDelete(DeleteTarget::Project)),
                    Ok(EffectView::Done),
                )
            },
            Screen::Settings => (self, Ok(EffectView::Done)),
            _ => if self.current_task(now) is None {
                (self, Err(TodoErrorView::NoTaskSelected))
            } else {
                (
                    self.in_mode(ModeView::ConfirmDelete(DeleteTarget::Task)),
                    Ok(EffectView::Done),
                )
            },
        }
    }

    /// With the chat bar open.
    pub open spec fn chat_opened(self) -> StepView {
        if self.current_project() is None {
            (self, Err(TodoErrorView::NoProjectSelected))
        } else {
            (self.in_mode(ModeView::Chat(ChatFormView::initial())), Ok(EffectView::Done))
        }
    }

    /// With the change of a form made: to a new task, which is added then, or
    /// to the chosen one.
    pub open spec fn form_saved(self, form: EditFormView, now: UtcInstant) -> StepView {
        match form.update() {
            Err(error) => (self, Err(error)),
            Ok(update) => match form.new_task {
                Some(task) => if self.current_project() is None {
                    (self, Err(TodoErrorView::NoProjectSelected))
                } else {
                    (
                        self.with_tasks(self.tasks().push(task.updated(update, false, now))),
                        Ok(EffectView::SaveProject(ProjectChange::Added)),
                    )
                },
                None => match self.selected_task_index(now) {
                    None => (self, Err(TodoErrorView::NoTaskSelected)),
                    Some(i) => (
                        self.with_tasks(
                            self.tasks().update(i, self.tasks()[i].updated(update, true, now)),
                        ),
                        Ok(EffectView::SaveProject(ProjectChange::Edited)),
                    ),
                },
            },
        }
    }

    /// What a prompt comes to: it must not be blank, one answer is awaited at
    /// a time, and a project must be chosen.
    pub open spec fn prompt_submitted(self, prompt: Seq<char>) -> Result<EffectView, TodoErrorView> {
        if trimmed(prompt).len() == 0 {
            Err(TodoErrorView::EmptyPrompt)
        } else if self.llm_pending {
            Ok(EffectView::Done)
        } else if self.current_project() is None {
            Err(TodoErrorView::NoProjectSelected)
        } else {
            Ok(
                EffectView::ReadLlmInputs {
                    prompt: trimmed(prompt),
                    with_api_key: self.settings.llm_backend == LlmBackend::Api,
                },
            )
        }
    }

    /// With what was asked about deleted: a project when its file is gone, a
    /// task at once.
    pub open spec fn deletion_confirmed(self, target: DeleteTarget, now: UtcInstant) -> StepView {
        match target {
            DeleteTarget::Project => if self.current_project() is None {
                (self, Err(TodoErrorView::NoProjectSelected))
            } else {
                (self, Ok(EffectView::DeleteProjectFile))
            },
            DeleteTarget::Task => match self.selected_task_index(now) {
                None => (self, Err(TodoErrorView::NoTaskSelected)),
                Some(i) => (
                    self.with_tasks(self.tasks().remove(i)),
                    Ok(EffectView::SaveProject(ProjectChange::Deleted)),
                ),
            },
        }
    }

    /// A key on the settings screen.
    pub open spec fn settings_key(self, key: KeyEvent) -> StepView {
        match key.code {
            KeyCode::Esc | KeyCode::Char('q') => (self.gone_back(), Ok(EffectView::Done)),
            KeyCode::Down | KeyCode::Char('j') => (
                AppView {
                    settings_index: clamped(
                        self.settings_index + 1,
                        SETTINGS_FIELD_COUNT as int,
                    ),
                    ..self
                },
                Ok(EffectView::Done),
            ),
            KeyCode::Up | KeyCode::Char('k') => (
                AppView {
                    settings_index: if self.settings_index > 0 {
                        self.settings_index - 1
                    } else {
                        0
                    },
                    ..self
                },
                Ok(EffectView::Done),
            ),
            KeyCode::Left | KeyCode::Char('h') => {
                let changed = self.setting_changed(-1);
                (changed.0, Ok(changed.1))
            },
            KeyCode::Right | KeyCode::Enter | KeyCode::Char('l') | KeyCode::Char(' ') => {
                let changed = self.setting_changed(1);
                (changed.0, Ok(changed.1))
            },
            _ => (self, Ok(EffectView::Done)),
        }
    }

    /// A key on a screen.
    pub open spec fn normal_key(self, key: KeyEvent, clock: Clock) -> StepView {
        let done = Ok(EffectView::Done);
        if self.screen == Screen::Settings {
            self.settings_key(key)
        } else {
            match key.code {
                KeyCode::Esc | KeyCode::Char('q') => (self.gone_back(), done),
                KeyCode::Down | KeyCode::Char('j') => (self.moved_down(clock.utc), done),
                KeyCode::Up | KeyCode::Char('k') => (self.moved_up(clock.utc), done),
                KeyCode::Enter => (self.opened(clock.utc), done),
                KeyCode::Char('s') => (self, Ok(EffectView::LoadThemeOptions)),
                KeyCode::Char('c') => self.chat_opened(),
                KeyCode::Char(' ') => self.task_toggled(clock.utc),
                KeyCode::Char('h') => (self.hidden_toggled(clock), done),
                KeyCode::Char('e') => self.task_edited(clock.utc),
                KeyCode::Char('d') => self.deletion_asked(clock.utc),
                KeyCode::Home => (AppView { task_index: 0, detail_scroll: 0, ..self }, done),
                _ => (self, done),
            }
        }
    }

    /// A key before a deletion.
    pub open spec fn confirm_key(
        self,
        key: KeyEvent,
        target: DeleteTarget,
        now: UtcInstant,
    ) -> StepView {
        match key.code {
            KeyCode::Enter | KeyCode::Char('y') => self.deletion_confirmed(target, now),
            KeyCode::Esc | KeyCode::Char('n') => (
                self.in_mode(ModeView::Normal),
                Ok(EffectView::Done),
            ),
            _ => (self, Ok(EffectView::Done)),
        }
    }

    /// A key in the form of a task.
    pub open spec fn edit_key(self, form: EditFormView, key: KeyEvent, now: UtcInstant) -> StepView {
        let (form, action) = form.after_key(key);
        let kept = self.in_mode(ModeView::Editing(form));
        match action {
            EditAction::Stay => (kept, Ok(EffectView::Done)),
            EditAction::Cancel => (self.in_mode(ModeView::Normal), Ok(EffectView::Done)),
            EditAction::Save => kept.form_saved(form, now),
        }
    }

    /// A key in the chat bar.
    pub open spec fn chat_key(self, form: ChatFormView, key: KeyEvent) -> StepView {
        let (form, action) = form.after_key(key);
        let kept = self.in_mode(ModeView::Chat(form));
        match action {
            ChatActionView::Stay => (kept, Ok(EffectView::Done)),
            ChatActionView::Cancel => (
                AppView { llm_pending: false, ..self.in_mode(ModeView::Normal) },
                Ok(EffectView::Done),
            ),
            ChatActionView::Submit(prompt) => (kept, kept.prompt_submitted(prompt)),
        }
    }

    /// A key in the form of a setting.
    pub open spec fn setting_text_key(self, form: SettingTextFormView, key: KeyEvent) -> StepView {
        let (form, action) = form.after_key(key);
        let kept = self.in_mode(ModeView::EditingSetting(form));
        match action {
            SettingTextAction::Stay => (kept, Ok(EffectView::Done)),
            SettingTextAction::Cancel => (self.in_mode(ModeView::Normal), Ok(EffectView::Done)),
            SettingTextAction::Save => kept.setting_saved(form),
        }
    }

    /// A key, wherever it goes.
    pub open spec fn key_step(self, key: KeyEvent, clock: Clock) -> StepView {
        match self.mode {
            ModeView::Normal => self.normal_key(key, clock),
            ModeView::Editing(form) => self.edit_key(form, key, clock.utc),
            ModeView::Chat(form) => self.chat_key(form, key),
            ModeView::EditingSetting(form) => self.setting_text_key(form, key),
            ModeView::ConfirmDelete(target) => self.confirm_key(key, target, clock.utc),
        }
    }

    /// The application after a key, and what it asks for. An error is reported.
    pub open spec fn after_key(self, key: KeyEvent, clock: Clock) -> (AppView, EffectView) {
        settled(self.key_step(key, clock), clock)
    }

    /// The application when its project was saved.
    pub open spec fn project_saved(self, change: ProjectChange, clock: Clock) -> AppView {
        let count = self.tasks().len() as int;
        match change {
            ProjectChange::Toggled { task_index, completed } => AppView {
                task_index: task_index as int,
                ..self
            }.normalized(clock.utc).saying(
                if completed {
                    "task completed"@
                } else {
                    "task reopened"@
                },
                clock,
            ),
            ProjectChange::Added => AppView {
                task_index: clamped(count, count),
                detail_scroll: 0,
                screen: Screen::ProjectDetail,
                mode: ModeView::Normal,
                ..self
            }.saying("task added"@, clock),
            ProjectChange::Edited => self.in_mode(ModeView::Normal).saying("task saved"@, clock),
            ProjectChange::Deleted => AppView {
                task_index: clamped(self.task_index, count),
                detail_scroll: 0,
                screen: if self.screen == Screen::TaskDetail {
                    Screen::ProjectDetail
                } else {
                    self.screen
                },
                ..self
            }.normalized(clock.utc).in_mode(ModeView::Normal).saying("task deleted"@, clock),
        }
    }

    /// The application when the file of the chosen project is gone.
    pub open spec fn project_deleted(self, clock: Clock) -> AppView {
        let projects = if self.current_project() is Some {
            self.projects.remove(self.project_index)
        } else {
            self.projects
        };
        AppView {
            projects,
            project_index: clamped(self.project_index, projects.len() as int),
            task_index: 0,
            detail_scroll: 0,
            screen: Screen::Projects,
            mode: ModeView::Normal,
            ..self
        }.saying("project deleted"@, clock)
    }

    /// The request for a draft: of the chosen project, with the key where the
    /// backend needs it.
    pub open spec fn draft_request(
        self,
        prompt: Seq<char>,
        instructions: Seq<char>,
        api_key: Option<Seq<char>>,
        now: UtcInstant,
    ) -> Result<LlmTodoRequestView, TodoErrorView> {
        let settings = self.settings;
        let with_key = settings.llm_backend == LlmBackend::Api;
        if self.current_project() is None {
            Err(TodoErrorView::NoProjectSelected)
        } else if with_key && api_key is None {
            Err(TodoErrorView::ApiKeyNotSet)
        } else if with_key && trimmed(api_key->0).len() == 0 {
            Err(TodoErrorView::ApiKeyEmpty)
        } else {
            Ok(
                LlmTodoRequestView {
                    backend: settings.llm_backend,
                    base_url: settings.llm_base_url,
                    model: settings.llm_model,
                    api_key: if with_key {
                        api_key
                    } else {
                        None
                    },
                    instructions,
                    project: self.current_project()->0.project,
                    user_prompt: prompt,
                    requested_at: stamp(now),
                    codex_reasoning_effort: settings.codex_reasoning_effort,
                    codex_fast_mode: settings.codex_fast_mode,
                },
            )
        }
    }

    /// The application while a draft is awaited.
    pub open spec fn awaiting_draft(self, clock: Clock) -> AppView {
        AppView {
            llm_pending: true,
            mode: match self.mode {
                ModeView::Chat(form) => ModeView::Chat(ChatFormView { pending: true, ..form }),
                mode => mode,
            },
            ..self
        }.saying(
            match self.settings.llm_backend {
                LlmBackend::CodexExec => "asking codex"@,
                LlmBackend::Api => "asking llm"@,
            },
            clock,
        )
    }

    /// With a draft asked for.
    pub open spec fn draft_asked(
        self,
        prompt: Seq<char>,
        instructions: Seq<char>,
        api_key: Option<Seq<char>>,
        clock: Clock,
    ) -> StepView {
        match self.draft_request(prompt, instructions, api_key, clock.utc) {
            Err(error) => (self, Err(error)),
            Ok(request) => (self.awaiting_draft(clock), Ok(EffectView::AskLlm(request))),
        }
    }

    /// The application when an effect that failed has been reported.
    pub open spec fn effect_failed(
        self,
        effect: EffectView,
        text: Seq<char>,
        clock: Clock,
    ) -> AppView {
        match effect {
            EffectView::LoadTheme { previous } => AppView {
                settings: SettingsView { syntax_theme: previous, ..self.settings },
                ..self
            }.reporting(text, clock),
            _ => self.reporting(text, clock),
        }
    }

    /// The application after an effect, and what it asks for next.
    pub open spec fn after_effect(
        self,
        effect: EffectView,
        outcome: OutcomeView,
        clock: Clock,
    ) -> (AppView, EffectView) {
        let done = EffectView::Done;
        match outcome {
            OutcomeView::Failed(text) => (self.effect_failed(effect, text, clock), done),
            OutcomeView::ThemeOptions(options) => match effect {
                EffectView::LoadThemeOptions => (self.settings_opened(options), done),
                _ => (self, done),
            },
            OutcomeView::LlmInputs { instructions, api_key } => match effect {
                EffectView::ReadLlmInputs { prompt, with_api_key } => settled(
                    self.draft_asked(prompt, instructions, api_key, clock),
                    clock,
                ),
                _ => (self, done),
            },
            OutcomeView::Succeeded => match effect {
                EffectView::LoadTheme { previous } => (
                    self,
                    EffectView::SaveSettings { closes_form: false },
                ),
                EffectView::SaveSettings { closes_form } => (
                    (if closes_form {
                        self.in_mode(ModeView::Normal)
                    } else {
                        self
                    }).saying("settings saved"@, clock),
                    done,
                ),
                EffectView::SaveProject(change) => (self.project_saved(change, clock), done),
                EffectView::DeleteProjectFile => (self.project_deleted(clock), done),
                _ => (self, done),
            },
        }
    }

    /// The application when the answer to a prompt is there, and what is
    /// logged. An answer that nobody waits for any more is dropped.
    pub open spec fn answered(
        self,
        answer: Result<LlmTodoDraftView, Seq<char>>,
        clock: Clock,
        id: Seq<char>,
    ) -> (AppView, Option<Seq<char>>) {
        let idle = AppView { llm_pending: false, ..self };
        if !self.llm_pending {
            (self, None)
        } else if !(self.mode is Chat) {
            (idle, None)
        } else {
            let task = match answer {
                Ok(draft) => match draft_task(draft, clock.utc, id) {
                    Ok(task) => Ok(task),
                    Err(error) => Err(error.message()),
                },
                Err(text) => Err(text),
            };
            match task {
                Ok(task) => (
                    idle.in_mode(
                        ModeView::Editing(
                            EditFormView {
                                fields: task_fields(task),
                                active: 0,
                                new_task: Some(task),
                            },
                        ),
                    ).saying("review draft"@, clock),
                    None,
                ),
                Err(text) => (
                    idle.in_mode(ModeView::Normal).reporting(text, clock),
                    Some(text),
                ),
            }
        }
    }

    /// The application when its project was read again.
    pub open spec fn reloaded(self, project: ProjectView, clock: Clock) -> AppView {
        let id = match self.current_task(clock.utc) {
            Some(task) => Some(task.id),
            None => None,
        };
        let file = self.projects[self.project_index];
        AppView {
            projects: self.projects.update(
                self.project_index,
                ProjectFileView { file_stem: file.file_stem, project },
            ),
            ..self
        }.reselected(id, clock.utc).saying("project reloaded"@, clock)
    }

    /// The application at a time: a message that has stayed long enough is gone.
    pub open spec fn expired(self, clock: Clock) -> AppView {
        match self.status_message {
            Some(message) => if elapsed(message.created_at, clock.ticks as int)
                >= self.settings.statusline_message_timeout_ms * 1_000_000 {
                AppView { status_message: None, ..self }
            } else {
                self
            },
            None => self,
        }
    }

    /// The file that is watched for changes, if one is.
    pub open spec fn watched_file(self) -> Option<Seq<char>> {
        match self.screen {
            Screen::Projects | Screen::Settings => None,
            _ => match self.current_project() {
                Some(file) => Some(project_file_name(file.file_stem)),
                None => None,
            },
        }
    }
}

fn contains_index(indices: &Vec<usize>, index: usize) -> (r: bool)
    ensures
        r == ints(indices@).contains(index as int),
{
    position_of_index(indices, index).is_some()
}

/// Where a place stands in a list of places.
pub fn position_of_index(indices: &Vec<usize>, index: usize) -> (r: Option<usize>)
    ensures
        match r {
            Some(p) => p < indices@.len() && ints(indices@).contains(index as int) && ints(
                indices@,
            ).index_of_first(index as int) == Some(p as int),
            None => !ints(indices@).contains(index as int),
        },
{
    let ghost all = ints(indices@);
    let mut p: usize = 0;
    while p < indices.len()
        invariant
            p <= indices@.len(),
            all == ints(indices@),
            forall|k: int| 0 <= k < p ==> #[trigger] all[k] != index,
        decreases indices@.len() - p,
    {
        assert(all[p as int] == indices@[p as int]);
        if indices[p] == index {
            proof {
                all.index_of_first_ensures(index as int);
                assert(all.contains(index as int));
            }
            return Some(p);
        }
        p = p + 1;
    }
    None
}

fn text_position(list: &Vec<String>, text: &str) -> (r: usize)
    ensures
        r == place_of(texts(list@), text@),
        list@.len() > 0 ==> r < list@.len(),
{
    let ghost all = texts(list@);
    proof {
        all.index_of_first_ensures(text@);
    }
    let mut i: usize = 0;
    while i < list.len()
        invariant
            i <= list@.len(),
            all == texts(list@),
            forall|k: int| 0 <= k < i ==> #[trigger] all[k] != text@,
        decreases list@.len() - i,
    {
        assert(all[i as int] == list@[i as int]@);
        if same_text(list[i].as_str(), text) {
            proof {
                all.index_of_first_ensures(text@);
                assert(all.contains(text@));
            }
            return i;
        }
        i = i + 1;
    }
    0
}

fn clamp(index: usize, len: usize) -> (r: usize)
    ensures
        r == clamped(index as int, len as int),
{
    if len == 0 {
        0
    } else if index < len {
        index
    } else {
        len - 1
    }
}

impl App {
    /// The application at first.
    pub fn new(projects: Vec<ProjectFile>, settings: Settings, theme_options: Vec<String>) -> (r:
        Self)
        ensures
            r@ == (AppView {
                projects: project_views(projects@),
                settings: settings@,
                theme_options: texts(theme_options@),
                project_index: 0,
                task_index: 0,
                settings_index: 0,
                settings_return_screen: Screen::Projects,
                show_hidden_tasks: false,
                detail_scroll: 0,
                screen: Screen::Projects,
                mode: ModeView::Normal,
                llm_pending: false,
                status_message: None,
                should_quit: false,
            }),
            r@.wf(),
    {
        App {
            projects,
            settings,
            theme_options,
            project_index: 0,
            task_index: 0,
            settings_index: 0,
            settings_return_screen: Screen::Projects,
            show_hidden_tasks: false,
            detail_scroll: 0,
            screen: Screen::Projects,
            mode: Mode::Normal,
            llm_pending: false,
            status_message: None,
            should_quit: false,
        }
    }

    /// Shows a message.
    pub fn set_status_message(&mut self, message: &str, clock: Clock)
        ensures
            final(self)@ == old(self)@.saying(message@, clock),
    {
        self.status_message = Some(
            StatusMessage { text: message.to_owned(), created_at: clock.ticks },
        );
    }

    /// Shows a short message for an error.
    pub fn report(&mut self, text: &str, clock: Clock)
        ensures
            final(self)@ == old(self)@.reporting(text@, clock),
    {
        self.set_status_message(short_error_message(text), clock);
    }

    /// Drops a message that has stayed long enough.
    pub fn expire_status_message(&mut self, clock: Clock)
        ensures
            final(self)@ == old(self)@.expired(clock),
    {
        let timeout: u64 = self.settings.statusline_message_timeout();
        let gone = match &self.status_message {
            Some(message) => {
                let elapsed: u64 = if clock.ticks >= message.created_at {
                    clock.ticks - message.created_at
                } else {
                    0
                };
                elapsed / 1_000_000 >= timeout
            },
            None => false,
        };
        if gone {
            self.status_message = None;
        }
    }

    /// The message that is shown.
    pub fn status_message_text(&self) -> (r: Option<&str>)
        ensures
            match self@.status_message {
                Some(message) => r matches Some(text) && text@ == message.text,
                None => r is None,
            },
    {
        match &self.status_message {
            Some(message) => Some(message.text.as_str()),
            None => None,
        }
    }

    /// The project that is chosen.
    pub fn current_project(&self) -> (r: Option<&ProjectFile>)
        ensures
            match self@.current_project() {
                Some(file) => r matches Some(f) && f@ == file,
                None => r is None,
            },
    {
        if self.project_index < self.projects.len() {
            Some(&self.projects[self.project_index])
        } else {
            None
        }
    }

    /// The tasks that the list shows.
    pub fn visible_task_indices(&self, now: UtcInstant) -> (r: Vec<usize>)
        requires
            now.has_cutoff(),
        ensures
            ints(r@) == self@.visible(now),
    {
        match self.current_project() {
            Some(file) => visible_task_indices_at(
                &file.project.tasks,
                self.show_hidden_tasks,
                now,
            ),
            None => {
                let none: Vec<usize> = Vec::new();
                assert(ints(none@) =~= self@.visible(now));
                none
            },
        }
    }

    /// The task that is chosen, by its place.
    pub fn selected_task_index(&self, now: UtcInstant) -> (r: Option<usize>)
        requires
            now.has_cutoff(),
        ensures
            match self@.selected_task_index(now) {
                Some(i) => r matches Some(j) && i == j && 0 <= i < self@.tasks().len(),
                None => r is None,
            },
    {
        let len: usize = self.task_count();
        if len == 0 {
            return None;
        }
        if self.screen == Screen::ProjectDetail {
            let shown = self.visible_task_indices(now);
            proof {
                law_visible_indices(self@.tasks(), self@.show_hidden_tasks, now);
            }
            let ghost all = self@.visible(now);
            assert(ints(shown@) == all);
            if contains_index(&shown, self.task_index) {
                assert(all.contains(self.task_index as int));
                let ghost p = choose|p: int| 0 <= p < all.len() && all[p] == self.task_index;
                assert(all[p] < self@.tasks().len());
                Some(self.task_index)
            } else if shown.len() > 0 {
                assert(all[0] == shown@[0]);
                Some(shown[0])
            } else {
                None
            }
        } else {
            Some(clamp(self.task_index, len))
        }
    }

    /// The task that is chosen.
    pub fn current_task(&self, now: UtcInstant) -> (r: Option<&Task>)
        requires
            now.has_cutoff(),
        ensures
            match self@.current_task(now) {
                Some(task) => r matches Some(t) && t@ == task,
                None => r is None,
            },
    {
        match self.selected_task_index(now) {
            Some(i) => match self.current_project() {
                Some(file) => {
                    assert(self@.tasks() == task_views(file.project.tasks@));
                    Some(&file.project.tasks[i])
                },
                None => None,
            },
            None => None,
        }
    }

    fn normalize_task_selection(&mut self, now: UtcInstant)
        requires
            now.has_cutoff(),
        ensures
            final(self)@ == old(self)@.normalized(now),
            final(self).mode == old(self).mode,
    {
        let shown = self.visible_task_indices(now);
        if shown.len() == 0 {
            self.task_index = 0;
            self.detail_scroll = 0;
            if self.screen == Screen::TaskDetail {
                self.screen = Screen::ProjectDetail;
            }
        } else if !contains_index(&shown, self.task_index) {
            assert(ints(shown@)[0] == shown@[0]);
            self.task_index = shown[0];
            self.detail_scroll = 0;
        }
    }

    fn move_visible_task(&mut self, direction: isize, now: UtcInstant)
        requires
            now.has_cutoff(),
        ensures
            final(self)@ == old(self)@.moved_task(direction as int, now),
    {
        let shown = self.visible_task_indices(now);
        if shown.len() == 0 {
            self.task_index = 0;
            return;
        }
        let place: usize = match position_of_index(&shown, self.task_index) {
            Some(p) => p,
            None => 0,
        };
        let sum: i128 = place as i128 + direction as i128;
        let next: usize = if sum < 0 {
            0
        } else if sum < shown.len() as i128 {
            sum as usize
        } else {
            shown.len() - 1
        };
        assert(ints(shown@)[next as int] == shown@[next as int]);
        self.task_index = shown[next];
    }

    fn move_down(&mut self, now: UtcInstant)
        requires
            old(self)@.wf(),
            now.has_cutoff(),
        ensures
            final(self)@ == old(self)@.moved_down(now),
    {
        match self.screen {
            Screen::Projects => {
                let len: usize = self.projects.len();
                if len > 0 && self.project_index < len - 1 {
                    self.project_index = self.project_index + 1;
                    self.task_index = 0;
                }
            },
            Screen::ProjectDetail => self.move_visible_task(1, now),
            Screen::TaskDetail => {
                self.detail_scroll = self.detail_scroll.saturating_add(1);
            },
            Screen::Settings => {},
        }
    }

    fn move_up(&mut self, now: UtcInstant)
        requires
            now.has_cutoff(),
        ensures
            final(self)@ == old(self)@.moved_up(now),
    {
        match self.screen {
            Screen::Projects => {
                self.project_index = self.project_index.saturating_sub(1);
                self.task_index = 0;
            },
            Screen::ProjectDetail => self.move_visible_task(-1, now),
            Screen::TaskDetail => {
                self.detail_scroll = self.detail_scroll.saturating_sub(1);
            },
            Screen::Settings => {},
        }
    }

    fn back_or_quit(&mut self)
        ensures
            final(self)@ == old(self)@.gone_back(),
    {
        match self.screen {
            Screen::Projects => {
                self.should_quit = true;
            },
            Screen::ProjectDetail => {
                self.screen = Screen::Projects;
            },
            Screen::TaskDetail => {
                self.screen = Screen::ProjectDetail;
            },
            Screen::Settings => {
                self.screen = self.settings_return_screen;
            },
        }
    }

    fn open_selected(&mut self, now: UtcInstant)
        requires
            now.has_cutoff(),
        ensures
            final(self)@ == old(self)@.opened(now),
    {
        match self.screen {
            Screen::Projects => {
                if self.current_project().is_some() {
                    self.screen = Screen::ProjectDetail;
                    self.task_index = 0;
                    self.detail_scroll = 0;
                    self.normalize_task_selection(now);
                }
            },
            Screen::ProjectDetail => {
                if let Some(i) = self.selected_task_index(now) {
                    self.task_index = i;
                    self.screen = Screen::TaskDetail;
                    self.detail_scroll = 0;
                }
            },
            _ => {},
        }
    }

    fn toggle_hidden_tasks(&mut self, clock: Clock)
        requires
            clock.wf(),
        ensures
            final(self)@ == old(self)@.hidden_toggled(clock),
    {
        if self.screen != Screen::ProjectDetail {
            return;
        }
        self.show_hidden_tasks = !self.show_hidden_tasks;
        let message = if self.show_hidden_tasks {
            "showing hidden"
        } else {
            "hiding hidden"
        };
        self.normalize_task_selection(clock.utc);
        self.set_status_message(message, clock);
    }

    fn open_chat_bar(&mut self) -> (r: Result<Effect, TodoError>)
        ensures
            is_step((final(self)@, r), old(self)@.chat_opened()),
    {
        if self.current_project().is_none() {
            return Err(TodoError::NoProjectSelected);
        }
        self.mode = Mode::Chat(ChatForm::new());
        Ok(Effect::Done)
    }
}

impl App {
    fn start_editing_setting(&mut self, field: SettingsField)
        ensures
            final(self)@ == old(self)@.setting_edited(field),
    {
        let value = match field {
            SettingsField::LlmBaseUrl => self.settings.llm_base_url.clone(),
            SettingsField::LlmModel => self.settings.llm_model.clone(),
            _ => return ,
        };
        self.mode = Mode::EditingSetting(SettingTextForm::new(field, value));
    }

    fn cycle_syntax_theme(&mut self, direction: isize) -> (r: Effect)
        ensures
            (final(self)@, r@) == old(self)@.theme_changed(direction as int),
            final(self).settings_index == old(self).settings_index,
    {
        let len: usize = self.theme_options.len();
        if len == 0 {
            return Effect::SaveSettings { closes_form: false };
        }
        let current = text_position(&self.theme_options, self.settings.syntax_theme.as_str());
        let sum: i128 = current as i128 + direction as i128;
        let next: usize = match sum.checked_rem_euclid(len as i128) {
            Some(place) => place as usize,
            None => 0,
        };
        let previous = self.settings.syntax_theme.clone();
        assert(self@.theme_options[next as int] == self.theme_options@[next as int]@);
        self.settings.syntax_theme = self.theme_options[next].clone();
        Effect::LoadTheme { previous }
    }

    fn change_task_content_wrap_cols(&mut self, direction: isize)
        ensures
            final(self)@ == (AppView {
                settings: SettingsView {
                    task_content_wrap_cols: wrap_cols_after(
                        old(self)@.settings.task_content_wrap_cols,
                        direction as int,
                    ),
                    ..old(self)@.settings
                },
                ..old(self)@
            }),
    {
        self.settings.task_content_wrap_cols = changed_wrap_cols(
            self.settings.task_content_wrap_cols,
            direction,
        );
    }

    fn change_setting(&mut self, direction: isize) -> (r: Effect)
        requires
            old(self)@.wf(),
            effort_index(old(self)@.settings.codex_reasoning_effort) + direction <= isize::MAX,
        ensures
            (final(self)@, r@) == old(self)@.setting_changed(direction as int),
    {
        let field = settings_field(self.settings_index);
        match field {
            SettingsField::SyntaxTheme => {
                return self.cycle_syntax_theme(direction);
            },
            SettingsField::AppBackground => {
                self.settings.use_theme_app_background = !self.settings.use_theme_app_background;
            },
            SettingsField::ModalBackground => {
                self.settings.use_theme_modal_background = !self.settings.use_theme_modal_background;
            },
            SettingsField::TaskContentWrapCols => self.change_task_content_wrap_cols(direction),
            SettingsField::LlmBackend => {
                self.settings.llm_backend = self.settings.llm_backend.cycle(direction);
            },
            SettingsField::CodexReasoningEffort => {
                self.settings.codex_reasoning_effort = cycle_codex_reasoning_effort(
                    self.settings.codex_reasoning_effort,
                    direction,
                );
            },
            SettingsField::CodexFastMode => {
                self.settings.codex_fast_mode = !self.settings.codex_fast_mode;
            },
            SettingsField::LlmBaseUrl | SettingsField::LlmModel => {
                self.start_editing_setting(field);
                return Effect::Done;
            },
        }
        Effect::SaveSettings { closes_form: false }
    }

    fn handle_settings_key(&mut self, key: KeyEvent) -> (r: Result<Effect, TodoError>)
        requires
            old(self)@.wf(),
        ensures
            is_step((final(self)@, r), old(self)@.settings_key(key)),
    {
        match key.code {
            KeyCode::Esc | KeyCode::Char('q') => {
                self.back_or_quit();
                Ok(Effect::Done)
            },
            KeyCode::Down | KeyCode::Char('j') => {
                self.settings_index = clamp(self.settings_index + 1, SETTINGS_FIELD_COUNT);
                Ok(Effect::Done)
            },
            KeyCode::Up | KeyCode::Char('k') => {
                self.settings_index = self.settings_index.saturating_sub(1);
                Ok(Effect::Done)
            },
            KeyCode::Left | KeyCode::Char('h') => Ok(self.change_setting(-1)),
            KeyCode::Right | KeyCode::Enter | KeyCode::Char('l') | KeyCode::Char(' ') => Ok(
                self.change_setting(1),
            ),
            _ => Ok(Effect::Done),
        }
    }

    fn save_setting_text_form(&mut self, field: SettingsField, value: Result<String, TodoError>) -> (r:
        Result<Effect, TodoError>)
        requires
            old(self)@.mode matches ModeView::EditingSetting(form) && form.field == field
                && match nullable_text(form.input.value) {
                Some(text) => value matches Ok(v) && v@ == text,
                None => value matches Err(e) && e@ == TodoErrorView::EmptySetting,
            },
        ensures
            old(self)@.mode matches ModeView::EditingSetting(form) && is_step(
                (final(self)@, r),
                old(self)@.setting_saved(form),
            ),
    {
        let value = match value {
            Ok(value) => value,
            Err(e) => return Err(e),
        };
        match field {
            SettingsField::LlmBaseUrl => {
                match validate_llm_base_url(value.as_str()) {
                    Ok(()) => {},
                    Err(e) => return Err(e),
                }
                self.settings.llm_base_url = value;
                Ok(Effect::SaveSettings { closes_form: true })
            },
            SettingsField::LlmModel => {
                self.settings.llm_model = value;
                Ok(Effect::SaveSettings { closes_form: true })
            },
            _ => Ok(Effect::Done),
        }
    }

    fn toggle_selected_task_completion(&mut self, now: UtcInstant) -> (r: Result<Effect, TodoError>)
        requires
            old(self)@.wf(),
            now.has_cutoff(),
        ensures
            is_step((final(self)@, r), old(self)@.task_toggled(now)),
    {
        let ghost before = self@;
        if self.screen != Screen::ProjectDetail {
            return Ok(Effect::Done);
        }
        let task_index: usize = match self.selected_task_index(now) {
            Some(i) => i,
            None => return Err(TodoError::NoTaskSelected),
        };
        let p: usize = self.project_index;
        let ghost old_projects = self.projects@;
        let ghost old_tasks = self.projects@[p as int].project.tasks@;
        assert(before.projects[p as int] == old_projects[p as int]@);
        assert(before.tasks()[task_index as int] == old_tasks[task_index as int]@);
        let completed = toggle_completion(&mut self.projects[p].project.tasks[task_index], now);
        proof {
            let tasks = self.projects@[p as int].project.tasks@;
            assert(task_views(tasks) =~= before.tasks().update(
                task_index as int,
                before.tasks()[task_index as int].toggled(now),
            ));
            assert(self@.projects =~= before.with_tasks(task_views(tasks)).projects);
        }
        Ok(Effect::SaveProject(ProjectChange::Toggled { task_index, completed }))
    }

    fn start_editing_selected_task(&mut self, now: UtcInstant) -> (r: Result<Effect, TodoError>)
        requires
            now.has_cutoff(),
        ensures
            is_step((final(self)@, r), old(self)@.task_edited(now)),
    {
        let form = match self.current_task(now) {
            Some(task) => EditForm::from_task(task),
            None => return Err(TodoError::NoTaskSelected),
        };
        self.mode = Mode::Editing(form);
        Ok(Effect::Done)
    }

    fn start_delete_confirmation(&mut self, now: UtcInstant) -> (r: Result<Effect, TodoError>)
        requires
            now.has_cutoff(),
        ensures
            is_step((final(self)@, r), old(self)@.deletion_asked(now)),
    {
        match self.screen {
            Screen::Projects => {
                if self.current_project().is_none() {
                    return Err(TodoError::NoProjectSelected);
                }
                self.mode = Mode::ConfirmDelete(DeleteTarget::Project);
            },
            Screen::ProjectDetail | Screen::TaskDetail => {
                if self.current_task(now).is_none() {
                    return Err(TodoError::NoTaskSelected);
                }
                self.mode = Mode::ConfirmDelete(DeleteTarget::Task);
            },
            Screen::Settings => {},
        }
        Ok(Effect::Done)
    }

    fn handle_normal_key(&mut self, key: KeyEvent, clock: Clock) -> (r: Result<Effect, TodoError>)
        requires
            old(self)@.wf(),
            clock.wf(),
        ensures
            is_step((final(self)@, r), old(self)@.normal_key(key, clock)),
    {
        if self.screen == Screen::Settings {
            return self.handle_settings_key(key);
        }
        match key.code {
            KeyCode::Esc | KeyCode::Char('q') => self.back_or_quit(),
            KeyCode::Down | KeyCode::Char('j') => self.move_down(clock.utc),
            KeyCode::Up | KeyCode::Char('k') => self.move_up(clock.utc),
            KeyCode::Enter => self.open_selected(clock.utc),
            KeyCode::Char('s') => return Ok(Effect::LoadThemeOptions),
            KeyCode::Char('c') => return self.open_chat_bar(),
            KeyCode::Char(' ') => return self.toggle_selected_task_completion(clock.utc),
            KeyCode::Char('h') => self.toggle_hidden_tasks(clock),
            KeyCode::Char('e') => return self.start_editing_selected_task(clock.utc),
            KeyCode::Char('d') => return self.start_delete_confirmation(clock.utc),
            KeyCode::Home => {
                self.task_index = 0;
                self.detail_scroll = 0;
            },
            _ => {},
        }
        Ok(Effect::Done)
    }
}

fn clone_task_opt(task: &Option<Task>) -> (r: Option<Task>)
    ensures
        task_opt(r) == task_opt(*task),
{
    match task {
        Some(task) => Some(task.clone()),
        None => None,
    }
}

/// Whether a change is the one that a form asks for.
pub open spec fn is_update(update: Result<TaskUpdate, TodoError>, form: EditFormView) -> bool {
    match form.update() {
        Ok(view) => update matches Ok(u) && u@ == view,
        Err(error) => update matches Err(e) && e@ == error,
    }
}

impl App {
    fn save_edit_form(
        &mut self,
        update: Result<TaskUpdate, TodoError>,
        new_task: Option<Task>,
        now: UtcInstant,
    ) -> (r: Result<Effect, TodoError>)
        requires
            old(self)@.wf(),
            now.has_cutoff(),
            old(self)@.mode matches ModeView::Editing(form) && is_update(update, form)
                && form.new_task == task_opt(new_task),
        ensures
            old(self)@.mode matches ModeView::Editing(form) && is_step(
                (final(self)@, r),
                old(self)@.form_saved(form, now),
            ),
    {
        let ghost before = self@;
        let update = match update {
            Ok(update) => update,
            Err(e) => return Err(e),
        };
        let p: usize = self.project_index;
        if let Some(added) = new_task {
            if p >= self.projects.len() {
                return Err(TodoError::NoProjectSelected);
            }
            let ghost old_projects = self.projects@;
            let mut task = added;
            apply_task_update_at(&mut task, update, false, now);
            let ghost view = task@;
            assert(before.projects[p as int] == old_projects[p as int]@);
            self.projects[p].project.tasks.push(task);
            proof {
                let tasks = self.projects@[p as int].project.tasks@;
                assert(task_views(tasks) =~= before.tasks().push(view));
                assert(self@.projects =~= before.with_tasks(task_views(tasks)).projects);
            }
            return Ok(Effect::SaveProject(ProjectChange::Added));
        }
        let task_index: usize = match self.selected_task_index(now) {
            Some(i) => i,
            None => return Err(TodoError::NoTaskSelected),
        };
        let ghost old_projects = self.projects@;
        let ghost old_tasks = self.projects@[p as int].project.tasks@;
        assert(before.projects[p as int] == old_projects[p as int]@);
        assert(before.tasks()[task_index as int] == old_tasks[task_index as int]@);
        let ghost change = update@;
        apply_task_update_at(&mut self.projects[p].project.tasks[task_index], update, true, now);
        proof {
            let tasks = self.projects@[p as int].project.tasks@;
            assert(task_views(tasks) =~= before.tasks().update(
                task_index as int,
                before.tasks()[task_index as int].updated(change, true, now),
            ));
            assert(self@.projects =~= before.with_tasks(task_views(tasks)).projects);
        }
        Ok(Effect::SaveProject(ProjectChange::Edited))
    }

    fn delete_selected_project(&mut self) -> (r: Result<Effect, TodoError>)
        ensures
            is_step(
                (final(self)@, r),
                (
                    old(self)@,
                    if old(self)@.current_project() is None {
                        Err(TodoErrorView::NoProjectSelected)
                    } else {
                        Ok(EffectView::DeleteProjectFile)
                    },
                ),
            ),
    {
        if self.current_project().is_none() {
            Err(TodoError::NoProjectSelected)
        } else {
            Ok(Effect::DeleteProjectFile)
        }
    }

    fn delete_selected_task(&mut self, now: UtcInstant) -> (r: Result<Effect, TodoError>)
        requires
            old(self)@.wf(),
            now.has_cutoff(),
        ensures
            is_step((final(self)@, r), old(self)@.deletion_confirmed(DeleteTarget::Task, now)),
    {
        let ghost before = self@;
        let task_index: usize = match self.selected_task_index(now) {
            Some(i) => i,
            None => return Err(TodoError::NoTaskSelected),
        };
        let p: usize = self.project_index;
        let ghost old_projects = self.projects@;
        assert(before.projects[p as int] == old_projects[p as int]@);
        let _removed = self.projects[p].project.tasks.remove(task_index);
        proof {
            let tasks = self.projects@[p as int].project.tasks@;
            assert(task_views(tasks) =~= before.tasks().remove(task_index as int));
            assert(self@.projects =~= before.with_tasks(task_views(tasks)).projects);
        }
        Ok(Effect::SaveProject(ProjectChange::Deleted))
    }

    fn handle_confirm_key(&mut self, key: KeyEvent, target: DeleteTarget, now: UtcInstant) -> (r:
        Result<Effect, TodoError>)
        requires
            old(self)@.wf(),
            now.has_cutoff(),
        ensures
            is_step((final(self)@, r), old(self)@.confirm_key(key, target, now)),
    {
        match key.code {
            KeyCode::Enter | KeyCode::Char('y') => match target {
                DeleteTarget::Project => self.delete_selected_project(),
                DeleteTarget::Task => self.delete_selected_task(now),
            },
            KeyCode::Esc | KeyCode::Char('n') => {
                self.mode = Mode::Normal;
                Ok(Effect::Done)
            },
            _ => Ok(Effect::Done),
        }
    }

    fn start_llm_todo_request(&mut self, prompt: String) -> (r: Result<Effect, TodoError>)
        ensures
            is_step((final(self)@, r), (old(self)@, old(self)@.prompt_submitted(prompt@))),
    {
        let prompt = trim(prompt.as_str());
        if prompt.as_str().unicode_len() == 0 {
            return Err(TodoError::EmptyPrompt);
        }
        if self.llm_pending {
            return Ok(Effect::Done);
        }
        if self.current_project().is_none() {
            return Err(TodoError::NoProjectSelected);
        }
        let with_api_key = self.settings.llm_backend == LlmBackend::Api;
        Ok(Effect::ReadLlmInputs { prompt, with_api_key })
    }

    /// Reports an error, if there is one.
    fn settle(&mut self, result: Result<Effect, TodoError>, clock: Clock) -> (r: Effect)
        ensures
            match result {
                Ok(effect) => final(self)@ == old(self)@ && r == effect,
                Err(e) => final(self)@ == old(self)@.reporting(e@.message(), clock)
                    && r@ == EffectView::Done,
            },
    {
        match result {
            Ok(effect) => effect,
            Err(error) => {
                let text = error.message();
                self.report(text.as_str(), clock);
                Effect::Done
            },
        }
    }

    fn handle_edit_key(&mut self, form: EditForm, key: KeyEvent, now: UtcInstant) -> (r: Result<
        Effect,
        TodoError,
    >)
        requires
            old(self)@.wf(),
            old(self)@.mode is Normal,
            form@.wf(),
            now.has_cutoff(),
        ensures
            is_step((final(self)@, r), old(self)@.edit_key(form@, key, now)),
    {
        let mut form = form;
        match form.handle_key(key) {
            EditAction::Stay => {
                self.mode = Mode::Editing(form);
                Ok(Effect::Done)
            },
            EditAction::Cancel => Ok(Effect::Done),
            EditAction::Save => {
                let update = form.to_update();
                let new_task = clone_task_opt(&form.new_task);
                self.mode = Mode::Editing(form);
                self.save_edit_form(update, new_task, now)
            },
        }
    }

    fn handle_chat_key(&mut self, form: ChatForm, key: KeyEvent) -> (r: Result<Effect, TodoError>)
        requires
            old(self)@.mode is Normal,
            form@.wf(),
        ensures
            is_step((final(self)@, r), old(self)@.chat_key(form@, key)),
    {
        let mut form = form;
        match form.handle_key(key) {
            ChatAction::Stay => {
                self.mode = Mode::Chat(form);
                Ok(Effect::Done)
            },
            ChatAction::Cancel => {
                self.llm_pending = false;
                Ok(Effect::Done)
            },
            ChatAction::Submit(prompt) => {
                self.mode = Mode::Chat(form);
                self.start_llm_todo_request(prompt)
            },
        }
    }

    fn handle_setting_text_key(&mut self, form: SettingTextForm, key: KeyEvent) -> (r: Result<
        Effect,
        TodoError,
    >)
        requires
            old(self)@.mode is Normal,
            form@.wf(),
        ensures
            is_step((final(self)@, r), old(self)@.setting_text_key(form@, key)),
    {
        let mut form = form;
        match form.handle_key(key) {
            SettingTextAction::Stay => {
                self.mode = Mode::EditingSetting(form);
                Ok(Effect::Done)
            },
            SettingTextAction::Cancel => Ok(Effect::Done),
            SettingTextAction::Save => {
                let value = form.value();
                let field = form.field;
                self.mode = Mode::EditingSetting(form);
                self.save_setting_text_form(field, value)
            },
        }
    }

    /// Takes a key; what it asks for is to be brought about and handed to `resume`.
    pub fn handle_key(&mut self, key: KeyEvent, clock: Clock) -> (r: Effect)
        requires
            old(self)@.wf(),
            clock.wf(),
        ensures
            (final(self)@, r@) == old(self)@.after_key(key, clock),
            final(self)@.wf(),
    {
        let ghost before = self@;
        proof {
            lemma_key_step_wf(before, key, clock);
        }
        let mut mode = Mode::Normal;
        std::mem::swap(&mut mode, &mut self.mode);
        let ghost bare = self@;
        assert(bare == before.in_mode(ModeView::Normal));
        let result = match mode {
            Mode::Normal => self.handle_normal_key(key, clock),
            Mode::Editing(form) => self.handle_edit_key(form, key, clock.utc),
            Mode::Chat(form) => self.handle_chat_key(form, key),
            Mode::EditingSetting(form) => self.handle_setting_text_key(form, key),
            Mode::ConfirmDelete(target) => {
                self.mode = Mode::ConfirmDelete(target);
                self.handle_confirm_key(key, target, clock.utc)
            },
        };
        assert(is_step((self@, result), before.key_step(key, clock)));
        self.settle(result, clock)
    }
}

impl App {
    fn open_settings(&mut self, options: Vec<String>)
        ensures
            final(self)@ == old(self)@.settings_opened(texts(options@)),
    {
        self.theme_options = options;
        self.settings_return_screen = self.screen;
        self.screen = Screen::Settings;
        self.settings_index = clamp(self.settings_index, SETTINGS_FIELD_COUNT);
    }

    fn task_was_toggled(&mut self, task_index: usize, completed: bool, clock: Clock)
        requires
            clock.wf(),
        ensures
            final(self)@ == old(self)@.project_saved(
                ProjectChange::Toggled { task_index, completed },
                clock,
            ),
    {
        self.task_index = task_index;
        self.normalize_task_selection(clock.utc);
        self.set_status_message(
            if completed {
                "task completed"
            } else {
                "task reopened"
            },
            clock,
        );
    }

    fn task_was_added(&mut self, clock: Clock)
        ensures
            final(self)@ == old(self)@.project_saved(ProjectChange::Added, clock),
    {
        let count: usize = self.task_count();
        self.task_index = clamp(count, count);
        self.detail_scroll = 0;
        self.screen = Screen::ProjectDetail;
        self.mode = Mode::Normal;
        self.set_status_message("task added", clock);
    }

    fn task_was_deleted(&mut self, clock: Clock)
        requires
            clock.wf(),
        ensures
            final(self)@ == old(self)@.project_saved(ProjectChange::Deleted, clock),
    {
        let count: usize = self.task_count();
        self.task_index = clamp(self.task_index, count);
        self.detail_scroll = 0;
        if self.screen == Screen::TaskDetail {
            self.screen = Screen::ProjectDetail;
        }
        self.normalize_task_selection(clock.utc);
        self.mode = Mode::Normal;
        self.set_status_message("task deleted", clock);
    }

    fn task_count(&self) -> (r: usize)
        ensures
            r == self@.tasks().len(),
    {
        match self.current_project() {
            Some(file) => file.project.tasks.len(),
            None => 0,
        }
    }

    fn project_was_saved(&mut self, change: ProjectChange, clock: Clock)
        requires
            clock.wf(),
        ensures
            final(self)@ == old(self)@.project_saved(change, clock),
    {
        match change {
            ProjectChange::Toggled { task_index, completed } => self.task_was_toggled(
                task_index,
                completed,
                clock,
            ),
            ProjectChange::Added => self.task_was_added(clock),
            ProjectChange::Edited => {
                self.mode = Mode::Normal;
                self.set_status_message("task saved", clock);
            },
            ProjectChange::Deleted => self.task_was_deleted(clock),
        }
    }

    fn project_was_deleted(&mut self, clock: Clock)
        ensures
            final(self)@ == old(self)@.project_deleted(clock),
    {
        let ghost before = self@;
        if self.project_index < self.projects.len() {
            let _removed = self.projects.remove(self.project_index);
            assert(self@.projects =~= before.projects.remove(before.project_index));
        }
        self.project_index = clamp(self.project_index, self.projects.len());
        self.task_index = 0;
        self.detail_scroll = 0;
        self.screen = Screen::Projects;
        self.mode = Mode::Normal;
        self.set_status_message("project deleted", clock);
    }

    /// The request for a draft.
    fn draft_request(
        &self,
        prompt: String,
        instructions: String,
        api_key: Option<String>,
        now: UtcInstant,
    ) -> (r: Result<LlmTodoRequest, TodoError>)
        requires
            now.wf(),
        ensures
            match self@.draft_request(prompt@, instructions@, text_opt(api_key), now) {
                Ok(request) => r matches Ok(q) && q@ == request,
                Err(error) => r matches Err(e) && e@ == error,
            },
    {
        let project = match self.current_project() {
            Some(file) => file.project.clone(),
            None => return Err(TodoError::NoProjectSelected),
        };
        let key = if self.settings.llm_backend == LlmBackend::Api {
            match api_key {
                Some(key) => {
                    let inside = trim(key.as_str());
                    if inside.as_str().unicode_len() == 0 {
                        return Err(TodoError::ApiKeyEmpty);
                    }
                    Some(key)
                },
                None => return Err(TodoError::ApiKeyNotSet),
            }
        } else {
            None
        };
        Ok(
            LlmTodoRequest {
                backend: self.settings.llm_backend,
                base_url: self.settings.llm_base_url.clone(),
                model: self.settings.llm_model.clone(),
                api_key: key,
                instructions,
                project,
                user_prompt: prompt,
                requested_at: timestamp(now),
                codex_reasoning_effort: self.settings.codex_reasoning_effort,
                codex_fast_mode: self.settings.codex_fast_mode,
            },
        )
    }

    fn await_draft(&mut self, clock: Clock)
        ensures
            final(self)@ == old(self)@.awaiting_draft(clock),
    {
        self.llm_pending = true;
        let mut mode = Mode::Normal;
        std::mem::swap(&mut mode, &mut self.mode);
        self.mode = match mode {
            Mode::Chat(form) => Mode::Chat(ChatForm { input: form.input, pending: true }),
            other => other,
        };
        let message = match self.settings.llm_backend {
            LlmBackend::CodexExec => "asking codex",
            LlmBackend::Api => "asking llm",
        };
        self.set_status_message(message, clock);
    }

    fn ask_for_draft(
        &mut self,
        prompt: String,
        instructions: String,
        api_key: Option<String>,
        clock: Clock,
    ) -> (r: Result<Effect, TodoError>)
        requires
            clock.wf(),
        ensures
            is_step(
                (final(self)@, r),
                old(self)@.draft_asked(prompt@, instructions@, text_opt(api_key), clock),
            ),
    {
        match self.draft_request(prompt, instructions, api_key, clock.utc) {
            Ok(request) => {
                self.await_draft(clock);
                Ok(Effect::AskLlm(request))
            },
            Err(error) => Err(error),
        }
    }

    fn effect_has_failed(&mut self, effect: Effect, text: String, clock: Clock)
        ensures
            final(self)@ == old(self)@.effect_failed(effect@, text@, clock),
    {
        if let Effect::LoadTheme { previous } = effect {
            self.settings.syntax_theme = previous;
        }
        self.report(text.as_str(), clock);
    }

    fn effect_has_succeeded(&mut self, effect: Effect, clock: Clock) -> (r: Effect)
        requires
            clock.wf(),
        ensures
            (final(self)@, r@) == old(self)@.after_effect(effect@, OutcomeView::Succeeded, clock),
    {
        match effect {
            Effect::LoadTheme { .. } => Effect::SaveSettings { closes_form: false },
            Effect::SaveSettings { closes_form } => {
                if closes_form {
                    self.mode = Mode::Normal;
                }
                self.set_status_message("settings saved", clock);
                Effect::Done
            },
            Effect::SaveProject(change) => {
                self.project_was_saved(change, clock);
                Effect::Done
            },
            Effect::DeleteProjectFile => {
                self.project_was_deleted(clock);
                Effect::Done
            },
            _ => Effect::Done,
        }
    }

    /// Takes what came of an effect; it may ask for another.
    pub fn resume(&mut self, effect: Effect, outcome: Outcome, clock: Clock) -> (r: Effect)
        requires
            old(self)@.wf(),
            clock.wf(),
        ensures
            (final(self)@, r@) == old(self)@.after_effect(effect@, outcome@, clock),
            final(self)@.wf(),
    {
        proof {
            lemma_after_effect_wf(self@, effect@, outcome@, clock);
        }
        match outcome {
            Outcome::Failed(text) => {
                self.effect_has_failed(effect, text, clock);
                Effect::Done
            },
            Outcome::ThemeOptions(options) => {
                if let Effect::LoadThemeOptions = effect {
                    self.open_settings(options);
                }
                Effect::Done
            },
            Outcome::LlmInputs { instructions, api_key } => match effect {
                Effect::ReadLlmInputs { prompt, with_api_key: _ } => {
                    let result = self.ask_for_draft(prompt, instructions, api_key, clock);
                    self.settle(result, clock)
                },
                _ => Effect::Done,
            },
            Outcome::Succeeded => self.effect_has_succeeded(effect, clock),
        }
    }

    fn open_llm_draft(&mut self, task: Task, clock: Clock)
        ensures
            final(self)@ == old(self)@.in_mode(
                ModeView::Editing(
                    EditFormView {
                        fields: task_fields(task@),
                        active: 0,
                        new_task: Some(task@),
                    },
                ),
            ).saying("review draft"@, clock),
    {
        self.mode = Mode::Editing(EditForm::from_new_task(&task));
        self.set_status_message("review draft", clock);
    }

    /// Takes the answer to a prompt, for a task under an identifier; what is
    /// to be logged of it, if anything is.
    pub fn take_answer(
        &mut self,
        answer: Result<LlmTodoDraft, String>,
        clock: Clock,
        id: String,
    ) -> (r: Option<String>)
        requires
            old(self)@.wf(),
            clock.wf(),
        ensures
            (final(self)@, text_opt(r)) == old(self)@.answered(answer_view(answer), clock, id@),
            final(self)@.wf(),
    {
        if !self.llm_pending {
            return None;
        }
        self.llm_pending = false;
        match &self.mode {
            Mode::Chat(_) => {},
            _ => return None,
        }
        let task = match answer {
            Ok(draft) => match draft_to_task(draft, clock.utc, id) {
                Ok(task) => Ok(task),
                Err(error) => Err(error.message()),
            },
            Err(text) => Err(text),
        };
        match task {
            Ok(task) => {
                self.open_llm_draft(task, clock);
                None
            },
            Err(text) => {
                self.mode = Mode::Normal;
                self.report(text.as_str(), clock);
                Some(text)
            },
        }
    }

    /// Takes the answer to a prompt, for a task under a new identifier.
    pub fn poll_llm_response(&mut self, answer: Result<LlmTodoDraft, String>, clock: Clock) -> (r:
        Option<String>)
        requires
            old(self)@.wf(),
            clock.wf(),
        ensures
            exists|id: Seq<char>| #[trigger]
                is_uuid_v7(id) && (final(self)@, text_opt(r)) == old(self)@.answered(
                    answer_view(answer),
                    clock,
                    id,
                ),
            final(self)@.wf(),
    {
        let id = new_uuid();
        let ghost text = id@;
        let r = self.take_answer(answer, clock, id);
        assert(is_uuid_v7(text));
        r
    }

    fn restore_task_selection(&mut self, selected_task_id: Option<String>, now: UtcInstant)
        requires
            now.has_cutoff(),
        ensures
            final(self)@ == old(self)@.reselected(text_opt(selected_task_id), now),
    {
        let (chosen, len): (bool, usize) = match self.current_project() {
            Some(file) => (true, file.project.tasks.len()),
            None => (false, 0),
        };
        assert(len == self@.tasks().len());
        if len == 0 {
            self.task_index = 0;
            self.detail_scroll = 0;
            if chosen && self.screen == Screen::TaskDetail {
                self.screen = Screen::ProjectDetail;
            }
            return;
        }
        let place = match &selected_task_id {
            Some(id) => self.find_task(id.as_str()),
            None => None,
        };
        self.task_index = match place {
            Some(i) => i,
            None => clamp(self.task_index, len),
        };
        self.normalize_task_selection(now);
    }

    fn find_task(&self, id: &str) -> (r: Option<usize>)
        ensures
            match r {
                Some(i) => task_place(self@.tasks(), id@) == Some(i as int),
                None => task_place(self@.tasks(), id@) is None,
            },
    {
        match self.current_project() {
            Some(file) => {
                let tasks = &file.project.tasks;
                let ghost all = task_views(tasks@);
                let mut i: usize = 0;
                assert(all.skip(0) =~= all);
                while i < tasks.len()
                    invariant
                        i <= tasks@.len(),
                        all == task_views(tasks@),
                        all == self@.tasks(),
                        task_place(all, id@) == (match task_place(all.skip(i as int), id@) {
                            Some(k) => Some(k + i),
                            None => None,
                        }),
                    decreases tasks@.len() - i,
                {
                    let ghost rest = all.skip(i as int);
                    assert(rest[0] == tasks@[i as int]@);
                    assert(rest.drop_first() =~= all.skip(i + 1));
                    if same_text(tasks[i].id.as_str(), id) {
                        return Some(i);
                    }
                    i = i + 1;
                }
                None
            },
            None => None,
        }
    }

    /// Takes the project that is chosen, read again, or what is said of the failure.
    pub fn reload_current_project(&mut self, project: Result<Project, String>, clock: Clock)
        requires
            old(self)@.wf(),
            clock.wf(),
        ensures
            final(self)@ == (if old(self)@.current_project() is None {
                old(self)@.reporting(TodoErrorView::NoProjectSelected.message(), clock)
            } else {
                match project {
                    Ok(project) => old(self)@.reloaded(project@, clock),
                    Err(text) => old(self)@.reporting(text@, clock),
                }
            }),
            final(self)@.wf(),
    {
        let ghost before = self@;
        if self.current_project().is_none() {
            let text = TodoError::NoProjectSelected.message();
            self.report(text.as_str(), clock);
            return;
        }
        match project {
            Ok(project) => {
                proof {
                    lemma_reloaded_wf(before, project@, clock);
                }
                let id = match self.current_task(clock.utc) {
                    Some(task) => Some(task.id.clone()),
                    None => None,
                };
                let ghost view = project@;
                let p: usize = self.project_index;
                assert(before.projects[p as int] == self.projects@[p as int]@);
                self.projects[p].project = project;
                assert(self@.projects =~= before.projects.update(
                    p as int,
                    ProjectFileView {
                        file_stem: before.projects[p as int].file_stem,
                        project: view,
                    },
                ));
                self.restore_task_selection(id, clock.utc);
                self.set_status_message("project reloaded", clock);
            },
            Err(text) => self.report(text.as_str(), clock),
        }
    }

    /// The file that is watched for changes.
    pub fn watched_project_path(&self) -> (r: Option<String>)
        ensures
            text_opt(r) == self@.watched_file(),
    {
        match self.screen {
            Screen::Projects | Screen::Settings => None,
            Screen::ProjectDetail | Screen::TaskDetail => match self.current_project() {
                Some(file) => Some(file.file_name()),
                None => None,
            },
        }
    }
}

/// An answer to a prompt as mathematics sees it.
pub open spec fn answer_view(
    answer: Result<LlmTodoDraft, String>,
) -> Result<LlmTodoDraftView, Seq<char>> {
    match answer {
        Ok(draft) => Ok(draft@),
        Err(text) => Err(text@),
    }
}

pub proof fn lemma_after_effect_wf(
    app: AppView,
    effect: EffectView,
    outcome: OutcomeView,
    clock: Clock,
)
    requires
        app.wf(),
    ensures
        app.after_effect(effect, outcome, clock).0.wf(),
{
    if effect is SaveProject {
        let count = app.tasks().len() as int;
        lemma_normalized_wf(
            AppView {
                task_index: clamped(app.task_index, count),
                detail_scroll: 0,
                screen: if app.screen == Screen::TaskDetail {
                    Screen::ProjectDetail
                } else {
                    app.screen
                },
                ..app
            },
            clock.utc,
        );
        if effect->SaveProject_0 is Toggled {
            lemma_normalized_wf(
                AppView { task_index: effect->SaveProject_0->task_index as int, ..app },
                clock.utc,
            );
        }
    }
}

proof fn lemma_reloaded_wf(app: AppView, project: ProjectView, clock: Clock)
    requires
        app.wf(),
        app.current_project() is Some,
    ensures
        app.reloaded(project, clock).wf(),
{
    let file = app.projects[app.project_index];
    let changed = AppView {
        projects: app.projects.update(
            app.project_index,
            ProjectFileView { file_stem: file.file_stem, project },
        ),
        ..app
    };
    let id = match app.current_task(clock.utc) {
        Some(task) => Some(task.id),
        None => None,
    };
    let place = match id {
        Some(id) => task_place(changed.tasks(), id),
        None => None,
    };
    if id is Some {
        lemma_task_place(changed.tasks(), id->0);
    }
    lemma_normalized_wf(
        AppView {
            task_index: match place {
                Some(i) => i,
                None => clamped(changed.task_index, changed.tasks().len() as int),
            },
            ..changed
        },
        clock.utc,
    );
}

pub proof fn lemma_task_place(tasks: Seq<TaskView>, id: Seq<char>)
    ensures
        match task_place(tasks, id) {
            Some(i) => 0 <= i < tasks.len() && tasks[i].id == id && forall|k: int|
                0 <= k < i ==> (#[trigger] tasks[k]).id != id,
            None => forall|k: int| 0 <= k < tasks.len() ==> (#[trigger] tasks[k]).id != id,
        },
    decreases tasks.len(),
{
    if tasks.len() > 0 && tasks[0].id != id {
        let rest = tasks.drop_first();
        lemma_task_place(rest, id);
        assert forall|k: int| 1 <= k < tasks.len() implies (#[trigger] tasks[k]).id == rest[k
            - 1].id by {}
    }
}

proof fn lemma_normalized_wf(app: AppView, now: UtcInstant)
    requires
        app.wf(),
    ensures
        app.normalized(now).wf(),
        app.normalized(now).projects == app.projects,
        app.normalized(now).mode == app.mode,
{
    law_visible_indices(app.tasks(), app.show_hidden_tasks, now);
    let shown = app.visible(now);
    if shown.len() > 0 {
        assert(0 <= shown[0]);
    }
}

pub proof fn lemma_selected(app: AppView, now: UtcInstant)
    ensures
        app.selected_task_index(now) matches Some(i) ==> 0 <= i < app.tasks().len() || (app.screen
            != Screen::ProjectDetail && app.task_index < 0),
{
    law_visible_indices(app.tasks(), app.show_hidden_tasks, now);
    let shown = app.visible(now);
    if shown.contains(app.task_index) {
        let p = choose|p: int| 0 <= p < shown.len() && shown[p] == app.task_index;
        assert(0 <= shown[p] < app.tasks().len());
    }
    if shown.len() > 0 {
        assert(0 <= shown[0] < app.tasks().len());
    }
}

proof fn lemma_moved_wf(app: AppView, now: UtcInstant)
    requires
        app.wf(),
    ensures
        app.moved_down(now).wf(),
        app.moved_up(now).wf(),
        app.opened(now).wf(),
{
    law_visible_indices(app.tasks(), app.show_hidden_tasks, now);
    lemma_selected(app, now);
    let shown = app.visible(now);
    if shown.contains(app.task_index) {
        shown.index_of_first_ensures(app.task_index);
    }
    assert(forall|p: int| 0 <= p < shown.len() ==> 0 <= #[trigger] shown[p]);
    lemma_normalized_wf(
        AppView { screen: Screen::ProjectDetail, task_index: 0, detail_scroll: 0, ..app },
        now,
    );
}

proof fn lemma_task_form_wf(task: TaskView, new_task: Option<TaskView>)
    ensures
        (EditFormView { fields: task_fields(task), active: 0, new_task }).wf(),
{
}

proof fn lemma_setting_changed_wf(app: AppView, direction: int)
    requires
        app.wf(),
    ensures
        app.setting_changed(direction).0.wf(),
{
}

proof fn lemma_normal_key_wf(app: AppView, key: KeyEvent, clock: Clock)
    requires
        app.wf(),
        app.mode is Normal,
    ensures
        app.normal_key(key, clock).0.wf(),
{
    let now = clock.utc;
    lemma_moved_wf(app, now);
    lemma_normalized_wf(AppView { show_hidden_tasks: !app.show_hidden_tasks, ..app }, now);
    lemma_setting_changed_wf(app, 1);
    lemma_setting_changed_wf(app, -1);
    if app.current_task(now) is Some {
        lemma_task_form_wf(app.current_task(now)->0, None);
    }
}

pub proof fn lemma_key_step_wf(app: AppView, key: KeyEvent, clock: Clock)
    requires
        app.wf(),
    ensures
        app.key_step(key, clock).0.wf(),
        app.after_key(key, clock).0.wf(),
{
    match app.mode {
        ModeView::Normal => lemma_normal_key_wf(app, key, clock),
        ModeView::Editing(form) => law_form_stays_sound(form, key),
        ModeView::Chat(form) => lemma_line_after(form.input, key),
        ModeView::EditingSetting(form) => lemma_line_after(form.input, key),
        ModeView::ConfirmDelete(target) => {},
    }
}

/// A result of a step as mathematics sees it.
pub open spec fn is_step(step: (AppView, Result<Effect, TodoError>), view: StepView) -> bool {
    &&& step.0 == view.0
    &&& match view.1 {
        Ok(effect) => step.1 matches Ok(e) && e@ == effect,
        Err(error) => step.1 matches Err(e) && e@ == error,
    }
}

} // verus!
