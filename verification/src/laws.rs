//! What holds of the application as a whole.
use vstd::arithmetic::div_mod::{
    lemma_mod_add_multiples_vanish, lemma_mod_self_0, lemma_small_mod,
};
use vstd::prelude::*;

use crate::app::{
    lemma_after_effect_wf, lemma_key_step_wf, lemma_selected, lemma_task_place, task_place,
    AppView, Clock, DeleteTarget, EffectView, ModeView, OutcomeView, ProjectChange, Screen,
};
use crate::errors::TodoErrorView;
use crate::forms::{
    is_formable, law_untouched_form_changes_nothing, law_update_is_what_was_typed, lists, states,
    EditAction, EditFormView, SettingTextFormView,
};
use crate::key::{KeyCode, KeyEvent, KeyModifiers};
use crate::llm::{
    base_of, call_for, draft_task, law_base_address, law_prompt_parts, project_context, url_scheme,
    LlmCallView, LlmTodoDraftView,
};
use crate::model::{law_visible_indices, stamp, ProjectFileView, ProjectView, TaskView};
use crate::settings::{settings_fields, LlmBackend, SettingsField, SettingsView};
use crate::text::{has_part, trimmed};
use crate::time::UtcInstant;

verus! {

/// Keys and what comes of effects leave the application sound.
pub proof fn law_app_stays_sound(
    app: AppView,
    key: KeyEvent,
    effect: EffectView,
    outcome: OutcomeView,
    clock: Clock,
)
    requires
        app.wf(),
    ensures
        app.after_key(key, clock).0.wf(),
        app.after_effect(effect, outcome, clock).0.wf(),
{
    lemma_key_step_wf(app, key, clock);
    lemma_after_effect_wf(app, effect, outcome, clock);
}

/// Going back leads from a task to its project, to the projects, and out.
pub proof fn law_back_leads_out(app: AppView)
    requires
        app.screen == Screen::TaskDetail,
        !app.should_quit,
    ensures
        app.gone_back().screen == Screen::ProjectDetail,
        app.gone_back().gone_back().screen == Screen::Projects,
        !app.gone_back().gone_back().should_quit,
        app.gone_back().gone_back().gone_back().should_quit,
{
}

/// The settings lead back to the screen that they were opened on.
pub proof fn law_settings_lead_back(app: AppView, options: Seq<Seq<char>>)
    requires
        app.wf(),
    ensures
        app.settings_opened(options).screen == Screen::Settings,
        app.settings_opened(options).gone_back().screen == app.screen,
        app.settings_opened(options).gone_back().projects == app.projects,
        app.settings_opened(options).gone_back().settings == app.settings,
{
}

/// The application is left by no other key than those that go back, and only
/// from the projects.
pub proof fn law_only_projects_quit(app: AppView, key: KeyEvent, clock: Clock)
    requires
        !app.should_quit,
    ensures
        app.after_key(key, clock).0.should_quit ==> app.mode is Normal && app.screen
            == Screen::Projects && (key.code == KeyCode::Esc || key.code == KeyCode::Char('q')),
{
}

/// Where the list of a project shows tasks, one that it shows is chosen after
/// the choice is put right.
pub proof fn law_choice_is_visible(app: AppView, now: UtcInstant)
    requires
        app.visible(now).len() > 0,
    ensures
        app.visible(now).contains(app.normalized(now).task_index),
        app.normalized(now).visible(now) == app.visible(now),
        app.normalized(now).normalized(now) == app.normalized(now),
        app.screen == Screen::ProjectDetail ==> app.normalized(now).selected_task_index(now)
            == Some(app.normalized(now).task_index),
{
    let shown = app.visible(now);
    assert(shown.contains(shown[0]));
    law_visible_indices(app.tasks(), app.show_hidden_tasks, now);
    if app.tasks().len() == 0 {
        assert(0 <= shown[0] < app.tasks().len());
    }
}

/// Moving in the list of a project chooses a task that it shows.
pub proof fn law_moves_are_visible(app: AppView, now: UtcInstant)
    requires
        app.screen == Screen::ProjectDetail,
        app.visible(now).len() > 0,
    ensures
        app.visible(now).contains(app.moved_down(now).task_index),
        app.visible(now).contains(app.moved_up(now).task_index),
{
    let shown = app.visible(now);
    if shown.contains(app.task_index) {
        shown.index_of_first_ensures(app.task_index);
    }
}

/// A step down in the list of a project is undone by a step up, unless the
/// last task is chosen.
pub proof fn law_up_undoes_down(app: AppView, now: UtcInstant)
    requires
        app.screen == Screen::ProjectDetail,
        app.visible(now).contains(app.task_index),
        app.task_index != app.visible(now).last(),
    ensures
        app.moved_down(now).moved_up(now) == app,
{
    let shown = app.visible(now);
    law_visible_indices(app.tasks(), app.show_hidden_tasks, now);
    shown.index_of_first_ensures(app.task_index);
    let p = shown.index_of_first(app.task_index)->0;
    let down = app.moved_down(now);
    assert(p + 1 < shown.len());
    assert(down.task_index == shown[p + 1]);
    assert(shown.contains(shown[p + 1]));
    shown.index_of_first_ensures(down.task_index);
    let q = shown.index_of_first(down.task_index)->0;
    assert(q == p + 1) by {
        if q < p + 1 {
            assert(shown[q] < shown[p + 1]);
        } else if q > p + 1 {
            assert(shown[p + 1] < shown[q]);
        }
    }
    assert(down.visible(now) == shown);
}

/// A key that is refused changes nothing but the message.
pub proof fn law_refusal_changes_nothing(app: AppView, key: KeyEvent, clock: Clock)
    requires
        app.wf(),
        app.key_step(key, clock).1 is Err,
    ensures
        app.key_step(key, clock).0 == app,
        app.after_key(key, clock) == (
            app.reporting(app.key_step(key, clock).1->Err_0.message(), clock),
            EffectView::Done,
        ),
{
}

/// An effect that fails changes no project; nothing changes but the message,
/// and the theme where that could not be loaded.
pub proof fn law_failure_keeps_projects(
    app: AppView,
    effect: EffectView,
    text: Seq<char>,
    clock: Clock,
)
    ensures
        app.after_effect(effect, OutcomeView::Failed(text), clock).1 == EffectView::Done,
        app.after_effect(effect, OutcomeView::Failed(text), clock).0.projects == app.projects,
        app.after_effect(effect, OutcomeView::Failed(text), clock).0.mode == app.mode,
        !(effect is LoadTheme) ==> app.after_effect(effect, OutcomeView::Failed(text), clock).0
            == app.reporting(text, clock),
{
}

/// A theme that cannot be loaded leaves the settings as they were.
pub proof fn law_theme_failure_restores(
    app: AppView,
    direction: int,
    text: Seq<char>,
    clock: Clock,
)
    requires
        app.theme_options.len() > 0,
    ensures
        app.theme_changed(direction).0.after_effect(
            app.theme_changed(direction).1,
            OutcomeView::Failed(text),
            clock,
        ).0.settings == app.settings,
{
}

/// Whether projects differ in the tasks of the one at `index` alone.
pub open spec fn differ_at(
    before: Seq<ProjectFileView>,
    after: Seq<ProjectFileView>,
    index: int,
) -> bool {
    &&& after.len() == before.len()
    &&& forall|i: int|
        0 <= i < before.len() && i != index ==> #[trigger] after[i] == before[i]
    &&& 0 <= index < before.len() ==> after[index] == (ProjectFileView {
        file_stem: before[index].file_stem,
        project: ProjectView { tasks: after[index].project.tasks, ..before[index].project },
    })
}

proof fn lemma_normal_key_projects(app: AppView, key: KeyEvent, clock: Clock)
    requires
        app.wf(),
    ensures
        differ_at(app.projects, app.normal_key(key, clock).0.projects, app.project_index),
{
    if app.screen == Screen::Settings {
        assert(app.settings_key(key).0.projects == app.projects);
    } else if key.code == KeyCode::Char(' ') {
        lemma_selected(app, clock.utc);
    } else {
        assert(app.normal_key(key, clock).0.projects == app.projects);
    }
}

proof fn lemma_edit_key_projects(app: AppView, form: EditFormView, key: KeyEvent, now: UtcInstant)
    requires
        app.wf(),
    ensures
        differ_at(app.projects, app.edit_key(form, key, now).0.projects, app.project_index),
{
    let kept = app.in_mode(ModeView::Editing(form.after_key(key).0));
    lemma_selected(kept, now);
}

proof fn lemma_confirm_key_projects(
    app: AppView,
    target: DeleteTarget,
    key: KeyEvent,
    now: UtcInstant,
)
    requires
        app.wf(),
    ensures
        differ_at(app.projects, app.confirm_key(key, target, now).0.projects, app.project_index),
{
    lemma_selected(app, now);
}

/// Keys change the tasks of the chosen project alone, and nothing else of any
/// project.
pub proof fn law_keys_change_one_project(app: AppView, key: KeyEvent, clock: Clock)
    requires
        app.wf(),
    ensures
        differ_at(app.projects, app.after_key(key, clock).0.projects, app.project_index),
{
    match app.mode {
        ModeView::Normal => lemma_normal_key_projects(app, key, clock),
        ModeView::Editing(form) => lemma_edit_key_projects(app, form, key, clock.utc),
        ModeView::ConfirmDelete(target) => lemma_confirm_key_projects(
            app,
            target,
            key,
            clock.utc,
        ),
        _ => {
            assert(app.key_step(key, clock).0.projects == app.projects);
        },
    }
    assert(app.after_key(key, clock).0.projects == app.key_step(key, clock).0.projects);
}

/// Completing a task with a key stamps it, keeps its identity, and leaves the
/// other tasks as they are; a completed one is opened again.
pub proof fn law_toggle_key(app: AppView, clock: Clock, i: int)
    requires
        app.wf(),
        app.screen == Screen::ProjectDetail,
        app.selected_task_index(clock.utc) == Some(i),
    ensures
        app.task_toggled(clock.utc).0.tasks() == app.tasks().update(
            i,
            app.tasks()[i].toggled(clock.utc),
        ),
        app.task_toggled(clock.utc).0.tasks()[i].id == app.tasks()[i].id,
        app.task_toggled(clock.utc).0.tasks()[i].created_at == app.tasks()[i].created_at,
        app.task_toggled(clock.utc).0.tasks()[i].updated_at == Some(stamp(clock.utc)),
        app.tasks()[i].completed_at is None ==> app.task_toggled(
            clock.utc,
        ).0.tasks()[i].completed_at == Some(stamp(clock.utc)),
        app.tasks()[i].completed_at is Some ==> app.task_toggled(
            clock.utc,
        ).0.tasks()[i].completed_at is None,
{
    lemma_selected(app, clock.utc);
}

/// Saving the form of a task keeps its identity and when it was created, stamps
/// the update, and leaves the other tasks as they are.
pub proof fn law_edit_keeps_identity(app: AppView, form: EditFormView, now: UtcInstant, i: int)
    requires
        app.wf(),
        form.new_task is None,
        form.update() is Ok,
        app.selected_task_index(now) == Some(i),
    ensures
        app.form_saved(form, now).1 == Ok::<_, TodoErrorView>(
            EffectView::SaveProject(ProjectChange::Edited),
        ),
        app.form_saved(form, now).0.tasks().len() == app.tasks().len(),
        app.form_saved(form, now).0.tasks()[i].id == app.tasks()[i].id,
        app.form_saved(form, now).0.tasks()[i].created_at == app.tasks()[i].created_at,
        app.form_saved(form, now).0.tasks()[i].updated_at == Some(stamp(now)),
        forall|k: int|
            0 <= k < app.tasks().len() && k != i ==> #[trigger] app.form_saved(
                form,
                now,
            ).0.tasks()[k] == app.tasks()[k],
{
    lemma_selected(app, now);
}

/// Whether a task says what the texts of a form say: the title without blanks
/// around it, the content as it was typed, the labels between commas, a branch
/// unless that is blank, and the instants that are stated.
pub open spec fn says(task: TaskView, form: EditFormView) -> bool {
    &&& task.title == trimmed(form.fields[0].value)
    &&& task.content == form.fields[1].value
    &&& lists(task.labels, form.fields[2].value)
    &&& task.branch == if trimmed(form.fields[3].value).len() == 0 {
        None
    } else {
        Some(trimmed(form.fields[3].value))
    }
    &&& states(task.completed_at, form.fields[4].value)
    &&& states(task.due_at, form.fields[5].value)
}

/// What was typed into the form of a task is what the task says once the form
/// is saved, by whichever key.
pub proof fn law_saved_form_takes_effect(
    app: AppView,
    form: EditFormView,
    key: KeyEvent,
    clock: Clock,
    i: int,
)
    requires
        app.wf(),
        app.mode == ModeView::Editing(form),
        key.code == KeyCode::F(2) || (key.code == KeyCode::Char('s') && key.modifiers
            == KeyModifiers::Control),
        form.new_task is None,
        form.update() is Ok,
        app.selected_task_index(clock.utc) == Some(i),
    ensures
        says(app.after_key(key, clock).0.tasks()[i], form),
        app.after_key(key, clock).1 == EffectView::SaveProject(ProjectChange::Edited),
        app.after_key(key, clock).0.tasks().len() == app.tasks().len(),
{
    lemma_selected(app, clock.utc);
    law_update_is_what_was_typed(form);
    assert(form.after_key(key) == (form, EditAction::Save));
    assert(app.in_mode(ModeView::Editing(form)) == app);
    assert(app.key_step(key, clock) == app.form_saved(form, clock.utc));
    let saved = app.form_saved(form, clock.utc).0;
    assert(saved.tasks()[i].labels == form.update()->Ok_0.labels);
}

/// What was typed into the form of a new task is what the task says that is
/// added when the form is saved.
pub proof fn law_saved_form_makes_the_task(
    app: AppView,
    form: EditFormView,
    key: KeyEvent,
    clock: Clock,
)
    requires
        app.wf(),
        app.mode == ModeView::Editing(form),
        key.code == KeyCode::F(2) || (key.code == KeyCode::Char('s') && key.modifiers
            == KeyModifiers::Control),
        form.new_task is Some,
        form.update() is Ok,
        app.current_project() is Some,
    ensures
        says(app.after_key(key, clock).0.tasks().last(), form),
        app.after_key(key, clock).1 == EffectView::SaveProject(ProjectChange::Added),
        app.after_key(key, clock).0.tasks().drop_last() == app.tasks(),
{
    law_update_is_what_was_typed(form);
    assert(form.after_key(key) == (form, EditAction::Save));
    assert(app.in_mode(ModeView::Editing(form)) == app);
    assert(app.key_step(key, clock) == app.form_saved(form, clock.utc));
    let saved = app.form_saved(form, clock.utc).0;
    assert(saved.tasks().last().labels == form.update()->Ok_0.labels);
    assert(saved.tasks().drop_last() =~= app.tasks());
}

/// A task that is opened in its form and saved as it is keeps all it says, where
/// the form can state it.
pub proof fn law_edit_without_a_change(app: AppView, now: UtcInstant, i: int)
    requires
        app.wf(),
        app.selected_task_index(now) == Some(i),
        is_formable(app.tasks()[i]),
    ensures
        app.task_edited(now).0.mode matches ModeView::Editing(form) && app.form_saved(
            form,
            now,
        ).0.tasks()[i] == (TaskView { updated_at: Some(stamp(now)), ..app.tasks()[i] }),
{
    lemma_selected(app, now);
    law_untouched_form_changes_nothing(app.tasks()[i]);
}

/// A draft that is taken over as it is becomes the task that it says.
pub proof fn law_draft_taken_over(
    app: AppView,
    draft: LlmTodoDraftView,
    clock: Clock,
    id: Seq<char>,
)
    requires
        app.wf(),
        app.llm_pending,
        app.mode is Chat,
        app.current_project() is Some,
        draft_task(draft, clock.utc, id) is Ok,
        is_formable(draft_task(draft, clock.utc, id)->Ok_0),
    ensures
        ({
            let shown = app.answered(Ok(draft), clock, id).0;
            shown.mode matches ModeView::Editing(form) && shown.form_saved(
                form,
                clock.utc,
            ).0.tasks() == app.tasks().push(draft_task(draft, clock.utc, id)->Ok_0)
        }),
{
    let task = draft_task(draft, clock.utc, id)->Ok_0;
    law_untouched_form_changes_nothing(task);
    let shown = app.answered(Ok(draft), clock, id).0;
    assert(shown.tasks() == app.tasks());
}

/// A request carries what the settings say, each in its place, the chosen
/// project, and what it was asked with. It is made just where a project is
/// chosen and the service, if that is asked, has a key that is not blank.
pub proof fn law_request_carries_the_settings(
    app: AppView,
    prompt: Seq<char>,
    instructions: Seq<char>,
    api_key: Option<Seq<char>>,
    now: UtcInstant,
)
    ensures
        ({
            let asked = app.draft_request(prompt, instructions, api_key, now);
            let has_key = api_key is Some && trimmed(api_key->0).len() > 0;
            &&& asked is Ok <==> 0 <= app.project_index < app.projects.len() && (
            app.settings.llm_backend == LlmBackend::Api ==> has_key)
            &&& asked matches Ok(request) ==> {
                &&& request.backend == app.settings.llm_backend
                &&& request.base_url == app.settings.llm_base_url
                &&& request.model == app.settings.llm_model
                &&& request.codex_reasoning_effort == app.settings.codex_reasoning_effort
                &&& request.codex_fast_mode == app.settings.codex_fast_mode
                &&& request.project == app.projects[app.project_index].project
                &&& request.instructions == instructions
                &&& request.user_prompt == prompt
                &&& request.requested_at == stamp(now)
                &&& app.settings.llm_backend == LlmBackend::Api ==> request.api_key == api_key
                &&& app.settings.llm_backend == LlmBackend::CodexExec ==> request.api_key is None
            }
        }),
{
}

/// A draft that is asked of the service is asked where the settings say, with
/// their model and the key, and the service is told what the user wrote. No
/// slash stands before what is added to the address.
pub proof fn law_service_is_asked(
    app: AppView,
    prompt: Seq<char>,
    instructions: Seq<char>,
    api_key: Seq<char>,
    clock: Clock,
)
    requires
        app.settings.llm_backend == LlmBackend::Api,
        app.current_project() is Some,
        trimmed(api_key).len() > 0,
        url_scheme(base_of(app.settings.llm_base_url) + "/chat/completions"@) is Some,
    ensures
        ({
            let asked = app.after_effect(
                EffectView::ReadLlmInputs { prompt, with_api_key: true },
                OutcomeView::LlmInputs { instructions, api_key: Some(api_key) },
                clock,
            );
            let base = base_of(app.settings.llm_base_url);
            &&& asked.0.llm_pending
            &&& asked.1 matches EffectView::AskLlm(request) && call_for(request) matches Ok(
                LlmCallView::Api { url, api_key: key, model, system_prompt, user_prompt },
            ) && url == base + "/chat/completions"@ && key == trimmed(api_key) && model
                == app.settings.llm_model && user_prompt == prompt && has_part(
                system_prompt,
                trimmed(instructions),
            ) && project_context(app.projects[app.project_index].project).is_suffix_of(
                system_prompt,
            )
            &&& base.is_prefix_of(trimmed(app.settings.llm_base_url))
            &&& base.len() > 0 ==> base.last() != '/'
            &&& forall|i: int|
                base.len() <= i < trimmed(app.settings.llm_base_url).len() ==> #[trigger] trimmed(
                    app.settings.llm_base_url,
                )[i] == '/'
        }),
{
    let request = app.draft_request(prompt, instructions, Some(api_key), clock.utc)->Ok_0;
    law_prompt_parts(request);
    law_base_address(app.settings.llm_base_url);
}

/// A draft that is asked of `codex` is asked with the effort and the tier of the
/// settings, whatever key there is, and `codex` reads what the user wrote at the
/// end of its prompt.
pub proof fn law_codex_is_asked(
    app: AppView,
    prompt: Seq<char>,
    instructions: Seq<char>,
    api_key: Option<Seq<char>>,
    clock: Clock,
)
    requires
        app.settings.llm_backend == LlmBackend::CodexExec,
        app.current_project() is Some,
    ensures
        ({
            let asked = app.after_effect(
                EffectView::ReadLlmInputs { prompt, with_api_key: false },
                OutcomeView::LlmInputs { instructions, api_key },
                clock,
            );
            &&& asked.0.llm_pending
            &&& asked.1 matches EffectView::AskLlm(request) && call_for(request) matches Ok(
                LlmCallView::Codex { args, input },
            ) && trimmed(prompt).is_suffix_of(input) && (app.settings.codex_reasoning_effort
                matches Some(effort) ==> args[4] == "-c"@ && args[5] == "model_reasoning_effort="@
                + effort.label_spec()) && (app.settings.codex_fast_mode ==> args[args.len() - 6]
                == "-c"@ && args[args.len() - 5] == "service_tier=\"fast\""@)
        }),
{
    let request = app.draft_request(prompt, instructions, api_key, clock.utc)->Ok_0;
    law_prompt_parts(request);
}

/// A setting that is edited as a text shows its value and no other's, and a text
/// that is saved is that setting's, without blanks around it, and no other's.
pub proof fn law_setting_text_in_its_place(app: AppView, form: SettingTextFormView)
    requires
        app.setting_saved(form).1 is Ok,
    ensures
        app.setting_edited(SettingsField::LlmBaseUrl).mode matches ModeView::EditingSetting(f)
            && f.field == SettingsField::LlmBaseUrl && f.input.value == app.settings.llm_base_url,
        app.setting_edited(SettingsField::LlmModel).mode matches ModeView::EditingSetting(f)
            && f.field == SettingsField::LlmModel && f.input.value == app.settings.llm_model,
        trimmed(form.input.value).len() > 0,
        form.field == SettingsField::LlmBaseUrl ==> app.setting_saved(form).0.settings == (
        SettingsView { llm_base_url: trimmed(form.input.value), ..app.settings }),
        form.field == SettingsField::LlmModel ==> app.setting_saved(form).0.settings == (
        SettingsView { llm_model: trimmed(form.input.value), ..app.settings }),
{
}

/// Saving the form of a new task adds the task behind the others, as one that
/// was never updated, and shows it in its project.
pub proof fn law_new_task_is_added(
    app: AppView,
    form: EditFormView,
    task: TaskView,
    clock: Clock,
)
    requires
        app.wf(),
        app.current_project() is Some,
        form.new_task == Some(task),
        task.updated_at is None,
        form.update() is Ok,
    ensures
        app.form_saved(form, clock.utc).1 == Ok::<_, TodoErrorView>(
            EffectView::SaveProject(ProjectChange::Added),
        ),
        app.form_saved(form, clock.utc).0.tasks().len() == app.tasks().len() + 1,
        app.form_saved(form, clock.utc).0.tasks().drop_last() == app.tasks(),
        app.form_saved(form, clock.utc).0.tasks().last().id == task.id,
        app.form_saved(form, clock.utc).0.tasks().last().created_at == task.created_at,
        app.form_saved(form, clock.utc).0.tasks().last().updated_at is None,
        app.form_saved(form, clock.utc).0.project_saved(ProjectChange::Added, clock).task_index
            == app.tasks().len(),
        app.form_saved(form, clock.utc).0.project_saved(ProjectChange::Added, clock).screen
            == Screen::ProjectDetail,
{
    let saved = app.form_saved(form, clock.utc).0;
    assert(saved.tasks().drop_last() =~= app.tasks());
}

/// Deleting a task takes that task away, and no other.
pub proof fn law_delete_takes_one_task(app: AppView, now: UtcInstant, i: int)
    requires
        app.wf(),
        app.selected_task_index(now) == Some(i),
    ensures
        app.deletion_confirmed(DeleteTarget::Task, now).0.tasks() == app.tasks().remove(i),
        app.deletion_confirmed(DeleteTarget::Task, now).0.tasks().len() == app.tasks().len() - 1,
{
    lemma_selected(app, now);
}

/// A project leaves the application only when its file is gone, and then the
/// others stay as they are.
pub proof fn law_project_leaves_with_its_file(app: AppView, clock: Clock)
    requires
        app.wf(),
        app.current_project() is Some,
    ensures
        app.deletion_confirmed(DeleteTarget::Project, clock.utc) == (
            app,
            Ok::<_, TodoErrorView>(EffectView::DeleteProjectFile),
        ),
        app.project_deleted(clock).projects == app.projects.remove(app.project_index),
        app.project_deleted(clock).screen == Screen::Projects,
        app.project_deleted(clock).wf(),
{
}

/// A task that is chosen stays chosen when its project is read again, wherever
/// it stands then, as long as it is there and shown.
pub proof fn law_reload_keeps_choice(app: AppView, project: ProjectView, clock: Clock, i: int)
    requires
        app.wf(),
        app.current_project() is Some,
        app.current_task(clock.utc) is Some,
        task_place(project.tasks, app.current_task(clock.utc)->0.id) == Some(i),
        app.show_hidden_tasks || !project.tasks[i].hidden(clock.utc),
    ensures
        app.reloaded(project, clock).task_index == i,
        app.reloaded(project, clock).screen == app.screen,
        app.reloaded(project, clock).current_task(clock.utc) == Some(project.tasks[i]),
        project.tasks[i].id == app.current_task(clock.utc)->0.id,
{
    let id = app.current_task(clock.utc)->0.id;
    lemma_task_place(project.tasks, id);
    law_visible_indices(project.tasks, app.show_hidden_tasks, clock.utc);
    let after = app.reloaded(project, clock);
    assert(after.tasks() == project.tasks);
    assert(after.visible(clock.utc).contains(i));
}

/// One answer is awaited at a time: while it is, prompts ask for nothing more.
pub proof fn law_one_answer_at_a_time(app: AppView, prompt: Seq<char>)
    requires
        app.llm_pending,
    ensures
        !(app.prompt_submitted(prompt) matches Ok(EffectView::ReadLlmInputs { .. })),
{
}

/// An answer that was cancelled is dropped: the application is as it was, and
/// nothing is logged.
pub proof fn law_cancelled_answer_is_dropped(
    app: AppView,
    key: KeyEvent,
    clock: Clock,
    answer: Result<LlmTodoDraftView, Seq<char>>,
    id: Seq<char>,
)
    requires
        app.mode is Chat,
        key.code == KeyCode::Esc,
    ensures
        app.after_key(key, clock).0.mode is Normal,
        app.after_key(key, clock).0.answered(answer, clock, id) == (
            app.after_key(key, clock).0,
            None::<Seq<char>>,
        ),
{
}

/// An answer adds nothing by itself: a draft is shown in a form first, and no
/// project changes.
pub proof fn law_draft_is_reviewed(
    app: AppView,
    answer: Result<LlmTodoDraftView, Seq<char>>,
    clock: Clock,
    id: Seq<char>,
)
    ensures
        app.answered(answer, clock, id).0.projects == app.projects,
        !app.answered(answer, clock, id).0.llm_pending,
        app.mode is Chat && app.answered(answer, clock, id).0.mode is Editing ==> (
        app.answered(answer, clock, id).0.mode matches ModeView::Editing(form)
            && form.new_task matches Some(task) && task.id == id),
{
}

/// A message stays for the time set, and no longer.
pub proof fn law_message_expires(app: AppView, text: Seq<char>, clock: Clock, later: Clock)
    requires
        clock.ticks <= later.ticks,
    ensures
        (app.saying(text, clock).expired(later).status_message is None) == (later.ticks
            - clock.ticks >= app.settings.statusline_message_timeout_ms * 1_000_000),
        app.saying(text, clock).expired(later).expired(later) == app.saying(text, clock).expired(
            later,
        ),
{
}

/// Showing hidden tasks and hiding them again leaves a choice that was shown
/// as it was.
pub proof fn law_hidden_toggled_twice(app: AppView, clock: Clock)
    requires
        app.screen == Screen::ProjectDetail,
        !app.show_hidden_tasks,
        app.visible(clock.utc).contains(app.task_index),
    ensures
        app.hidden_toggled(clock).show_hidden_tasks,
        !app.hidden_toggled(clock).hidden_toggled(clock).show_hidden_tasks,
        app.hidden_toggled(clock).hidden_toggled(clock).task_index == app.task_index,
        app.hidden_toggled(clock).hidden_toggled(clock).detail_scroll == app.detail_scroll,
{
    let now = clock.utc;
    law_visible_indices(app.tasks(), false, now);
    law_visible_indices(app.tasks(), true, now);
    let shown = app.visible(now);
    let p = choose|p: int| 0 <= p < shown.len() && shown[p] == app.task_index;
    assert(0 <= shown[p] < app.tasks().len());
    let all = AppView { show_hidden_tasks: true, ..app };
    assert(all.tasks() == app.tasks());
    assert(all.visible(now).contains(app.task_index));
    let once = app.hidden_toggled(clock);
    assert(once.tasks() == app.tasks());
    let back = AppView { show_hidden_tasks: false, ..once };
    assert(back.tasks() == app.tasks());
    assert(back.visible(now) == shown);
}

/// A step down or up among the projects chooses the neighbour, where there is
/// one, and in the list of a project the neighbour among the tasks that are
/// shown; on a task it scrolls by a line.
pub proof fn law_moves_reach_the_neighbour(app: AppView, now: UtcInstant)
    requires
        app.wf(),
    ensures
        app.screen == Screen::Projects && app.project_index + 1 < app.projects.len()
            ==> app.moved_down(now).project_index == app.project_index + 1,
        app.screen == Screen::Projects && app.project_index + 1 >= app.projects.len()
            ==> app.moved_down(now) == app,
        app.screen == Screen::Projects && app.project_index > 0 ==> app.moved_up(now).project_index
            == app.project_index - 1,
        app.screen == Screen::Projects && app.project_index == 0 ==> app.moved_up(now).project_index
            == 0,
        app.screen == Screen::TaskDetail && app.detail_scroll < u16::MAX ==> app.moved_down(
            now,
        ).detail_scroll == app.detail_scroll + 1,
        app.screen == Screen::TaskDetail && app.detail_scroll > 0 ==> app.moved_up(
            now,
        ).detail_scroll == app.detail_scroll - 1,
        app.screen == Screen::ProjectDetail && app.visible(now).contains(app.task_index) ==> {
            let below = app.moved_down(now).task_index;
            let above = app.moved_up(now).task_index;
            &&& app.visible(now).contains(below) && app.visible(now).contains(above)
            &&& above <= app.task_index <= below
            &&& forall|i: int| #[trigger]
                app.visible(now).contains(i) && i > app.task_index ==> app.task_index < below <= i
            &&& forall|i: int| #[trigger]
                app.visible(now).contains(i) && i < app.task_index ==> i <= above < app.task_index
        },
{
    if app.screen == Screen::ProjectDetail && app.visible(now).contains(app.task_index) {
        let shown = app.visible(now);
        law_visible_indices(app.tasks(), app.show_hidden_tasks, now);
        shown.index_of_first_ensures(app.task_index);
        let p = shown.index_of_first(app.task_index)->0;
        let below = app.moved_down(now).task_index;
        let above = app.moved_up(now).task_index;
        assert(shown.contains(below)) by {
            if p + 1 < shown.len() {
                assert(shown[p + 1] == below);
            } else {
                assert(shown[p] == below);
            }
        }
        assert(shown.contains(above)) by {
            if p > 0 {
                assert(shown[p - 1] == above);
            } else {
                assert(shown[0] == above);
            }
        }
        assert forall|i: int| #[trigger] shown.contains(i) && i > app.task_index implies
            app.task_index < below <= i by {
            let q = choose|q: int| 0 <= q < shown.len() && shown[q] == i;
            if q < p {
                assert(shown[q] < shown[p]);
            }
            assert(p + 1 <= q);
            assert(shown[p] < shown[p + 1]);
            if p + 1 < q {
                assert(shown[p + 1] < shown[q]);
            }
        }
        assert forall|i: int| #[trigger] shown.contains(i) && i < app.task_index implies i <= above
            < app.task_index by {
            let q = choose|q: int| 0 <= q < shown.len() && shown[q] == i;
            if q > p {
                assert(shown[p] < shown[q]);
            }
            assert(q <= p - 1);
            assert(shown[p - 1] < shown[p]);
            if q < p - 1 {
                assert(shown[q] < shown[p - 1]);
            }
        }
    }
}

/// A letter does what the key does that it stands for.
pub proof fn law_letters_stand_for_keys(app: AppView, modifiers: KeyModifiers, clock: Clock)
    requires
        app.mode is Normal,
    ensures
        app.after_key(KeyEvent { code: KeyCode::Char('j'), modifiers }, clock) == app.after_key(
            KeyEvent { code: KeyCode::Down, modifiers },
            clock,
        ),
        app.after_key(KeyEvent { code: KeyCode::Char('k'), modifiers }, clock) == app.after_key(
            KeyEvent { code: KeyCode::Up, modifiers },
            clock,
        ),
        app.after_key(KeyEvent { code: KeyCode::Char('q'), modifiers }, clock) == app.after_key(
            KeyEvent { code: KeyCode::Esc, modifiers },
            clock,
        ),
        app.screen == Screen::Settings ==> app.after_key(
            KeyEvent { code: KeyCode::Char('h'), modifiers },
            clock,
        ) == app.after_key(KeyEvent { code: KeyCode::Left, modifiers }, clock),
        app.screen == Screen::Settings ==> app.after_key(
            KeyEvent { code: KeyCode::Char('l'), modifiers },
            clock,
        ) == app.after_key(KeyEvent { code: KeyCode::Right, modifiers }, clock),
        app.screen == Screen::Settings ==> app.after_key(
            KeyEvent { code: KeyCode::Char(' '), modifiers },
            clock,
        ) == app.after_key(KeyEvent { code: KeyCode::Enter, modifiers }, clock),
        app.screen == Screen::Settings ==> app.after_key(
            KeyEvent { code: KeyCode::Enter, modifiers },
            clock,
        ) == app.after_key(KeyEvent { code: KeyCode::Right, modifiers }, clock),
{
}

/// Opening shows what was chosen: a project with its tasks from the first that
/// is shown on, and a task from its first line on.
pub proof fn law_opening_shows_the_choice(app: AppView, clock: Clock, modifiers: KeyModifiers)
    requires
        app.wf(),
        app.mode is Normal,
    ensures
        ({
            let after = app.after_key(KeyEvent { code: KeyCode::Enter, modifiers }, clock).0;
            &&& app.screen == Screen::Projects && app.projects.len() > 0 ==> after.screen
                == Screen::ProjectDetail && after.current_project() == app.current_project()
                && after.detail_scroll == 0 && (after.visible(clock.utc).len() > 0
                ==> after.task_index == after.visible(clock.utc)[0])
            &&& app.screen == Screen::ProjectDetail && app.current_task(clock.utc) is Some
                ==> after.screen == Screen::TaskDetail && after.current_task(clock.utc)
                == app.current_task(clock.utc) && after.detail_scroll == 0
            &&& app.screen != Screen::Settings ==> after.projects == app.projects
        }),
{
    lemma_selected(app, clock.utc);
    let now = clock.utc;
    if app.screen == Screen::Projects && app.projects.len() > 0 {
        let first = AppView {
            screen: Screen::ProjectDetail,
            task_index: 0,
            detail_scroll: 0,
            ..app
        };
        let shown = first.visible(now);
        law_visible_indices(first.tasks(), first.show_hidden_tasks, now);
        assert(first.normalized(now).tasks() == first.tasks());
        if shown.len() > 0 && shown.contains(0) {
            let p = choose|p: int| 0 <= p < shown.len() && shown[p] == 0;
            if p > 0 {
                assert(shown[0] < shown[p]);
            }
        }
    }
    if app.screen == Screen::ProjectDetail {
        let after = app.opened(now);
        assert(after.tasks() == app.tasks());
    }
}

/// A project that is read again takes the place of what it was; the others, and
/// the name of its file, stay as they are.
pub proof fn law_reload_replaces_one_project(app: AppView, project: ProjectView, clock: Clock)
    requires
        app.wf(),
        app.current_project() is Some,
    ensures
        app.reloaded(project, clock).projects.len() == app.projects.len(),
        app.reloaded(project, clock).project_index == app.project_index,
        app.reloaded(project, clock).projects[app.project_index].project == project,
        app.reloaded(project, clock).projects[app.project_index].file_stem
            == app.projects[app.project_index].file_stem,
        forall|i: int|
            0 <= i < app.projects.len() && i != app.project_index ==> #[trigger] app.reloaded(
                project,
                clock,
            ).projects[i] == app.projects[i],
        app.reloaded(project, clock).settings == app.settings,
        app.reloaded(project, clock).mode == app.mode,
{
}

/// Changing a setting changes that setting and no other, and nothing else but
/// where a text is to be typed.
pub proof fn law_one_setting_changes(app: AppView, direction: int)
    requires
        app.wf(),
    ensures
        ({
            let after = app.setting_changed(direction).0;
            let field = settings_fields()[app.settings_index];
            let old = app.settings;
            let new = after.settings;
            &&& after.projects == app.projects && after.screen == app.screen
                && after.settings_index == app.settings_index
            &&& field != SettingsField::SyntaxTheme ==> new.syntax_theme == old.syntax_theme
            &&& new.syntax_theme_folder == old.syntax_theme_folder
            &&& new.statusline_message_timeout_ms == old.statusline_message_timeout_ms
            &&& new.use_theme_app_background == (if field == SettingsField::AppBackground {
                !old.use_theme_app_background
            } else {
                old.use_theme_app_background
            })
            &&& new.use_theme_modal_background == (if field == SettingsField::ModalBackground {
                !old.use_theme_modal_background
            } else {
                old.use_theme_modal_background
            })
            &&& new.codex_fast_mode == (if field == SettingsField::CodexFastMode {
                !old.codex_fast_mode
            } else {
                old.codex_fast_mode
            })
            &&& new.llm_backend == old.llm_backend <==> field != SettingsField::LlmBackend
            &&& field != SettingsField::TaskContentWrapCols ==> new.task_content_wrap_cols
                == old.task_content_wrap_cols
            &&& field == SettingsField::TaskContentWrapCols && direction < 0
                && old.task_content_wrap_cols >= 30 ==> new.task_content_wrap_cols + 10
                == old.task_content_wrap_cols
            &&& field != SettingsField::CodexReasoningEffort ==> new.codex_reasoning_effort
                == old.codex_reasoning_effort
            &&& new.llm_base_url == old.llm_base_url && new.llm_model == old.llm_model
            &&& field == SettingsField::LlmBaseUrl || field == SettingsField::LlmModel
                ==> new == old && (after.mode matches ModeView::EditingSetting(form)
                && form.field == field)
            &&& field != SettingsField::LlmBaseUrl && field != SettingsField::LlmModel
                ==> after.mode == app.mode
        }),
{
}

/// The next theme is the one behind the present one in the list, and the first
/// behind the last; the other way round backwards. A theme is loaded before the
/// settings are saved.
pub proof fn law_next_theme(app: AppView, i: int)
    requires
        0 <= i < app.theme_options.len(),
        app.theme_options.no_duplicates(),
        app.settings.syntax_theme == app.theme_options[i],
    ensures
        app.theme_changed(1).0.settings.syntax_theme == app.theme_options[if i + 1
            < app.theme_options.len() {
            i + 1
        } else {
            0
        }],
        app.theme_changed(-1).0.settings.syntax_theme == app.theme_options[if i > 0 {
            i - 1
        } else {
            app.theme_options.len() - 1
        }],
        app.theme_changed(1).1 == (EffectView::LoadTheme { previous: app.theme_options[i] }),
{
    let options = app.theme_options;
    let n = options.len() as int;
    assert(options.contains(options[i]));
    options.index_of_first_ensures(options[i]);
    assert(options.index_of_first(options[i]) == Some(i));
    if i + 1 < n {
        lemma_small_mod((i + 1) as nat, n as nat);
    } else {
        lemma_mod_self_0(n);
    }
    if i > 0 {
        lemma_small_mod((i - 1) as nat, n as nat);
    } else {
        lemma_mod_add_multiples_vanish(-1, n);
        lemma_small_mod((n - 1) as nat, n as nat);
    }
}

/// A deletion is asked about first: the key that asks deletes nothing, a refusal
/// leaves everything as it was, and a confirmation takes the chosen task away and
/// has the project saved.
pub proof fn law_deletion_is_confirmed(app: AppView, modifiers: KeyModifiers, clock: Clock, i: int)
    requires
        app.wf(),
        app.mode is Normal,
        app.screen == Screen::ProjectDetail || app.screen == Screen::TaskDetail,
        app.selected_task_index(clock.utc) == Some(i),
    ensures
        ({
            let asked = app.after_key(KeyEvent { code: KeyCode::Char('d'), modifiers }, clock).0;
            let refused = asked.after_key(KeyEvent { code: KeyCode::Char('n'), modifiers }, clock);
            let confirmed = asked.after_key(
                KeyEvent { code: KeyCode::Char('y'), modifiers },
                clock,
            );
            &&& asked.projects == app.projects && asked.mode is ConfirmDelete
            &&& refused == (app, EffectView::Done)
            &&& confirmed.0.tasks() == app.tasks().subrange(0, i) + app.tasks().subrange(
                i + 1,
                app.tasks().len() as int,
            )
            &&& confirmed.1 == EffectView::SaveProject(ProjectChange::Deleted)
        }),
{
    lemma_selected(app, clock.utc);
    let asked = app.after_key(KeyEvent { code: KeyCode::Char('d'), modifiers }, clock).0;
    assert(asked.tasks() == app.tasks());
    assert(asked.selected_task_index(clock.utc) == Some(i)) by {
        assert(asked.visible(clock.utc) == app.visible(clock.utc));
    }
    lemma_selected(asked, clock.utc);
    assert(app.tasks().remove(i) =~= app.tasks().subrange(0, i) + app.tasks().subrange(
        i + 1,
        app.tasks().len() as int,
    ));
}

/// What is saved is what is shown: a save that succeeds changes no project, says
/// what was done, and closes the form that was saved.
pub proof fn law_saved_project_is_as_shown(app: AppView, change: ProjectChange, clock: Clock)
    ensures
        ({
            let after = app.after_effect(
                EffectView::SaveProject(change),
                OutcomeView::Succeeded,
                clock,
            );
            &&& after.1 == EffectView::Done
            &&& after.0.projects == app.projects
            &&& after.0.settings == app.settings
            &&& !(change is Toggled) ==> after.0.mode is Normal
            &&& after.0.status_message matches Some(message) && message.text == (match change {
                ProjectChange::Toggled { task_index, completed } => if completed {
                    "task completed"@
                } else {
                    "task reopened"@
                },
                ProjectChange::Added => "task added"@,
                ProjectChange::Edited => "task saved"@,
                ProjectChange::Deleted => "task deleted"@,
            })
        }),
{
}

/// A prompt that is handed in is what was typed, without blanks around it; a
/// blank one is refused. The key of the service is read where that is asked.
pub proof fn law_prompt_is_what_was_typed(app: AppView, clock: Clock, modifiers: KeyModifiers)
    requires
        app.wf(),
        app.mode is Chat,
        !app.mode->Chat_0.pending,
        !app.llm_pending,
        app.current_project() is Some,
    ensures
        ({
            let typed = app.mode->Chat_0.input.value;
            let (after, effect) = app.after_key(
                KeyEvent { code: KeyCode::Enter, modifiers },
                clock,
            );
            &&& trimmed(typed).len() > 0 ==> effect == (EffectView::ReadLlmInputs {
                prompt: trimmed(typed),
                with_api_key: app.settings.llm_backend == LlmBackend::Api,
            }) && after == app
            &&& trimmed(typed).len() == 0 ==> effect == EffectView::Done && after
                == app.reporting(TodoErrorView::EmptyPrompt.message(), clock)
        }),
{
    let form = app.mode->Chat_0;
    assert(app.in_mode(ModeView::Chat(form)) == app);
}

/// An answer that fails is logged word for word, closes the chat bar, and is
/// reported; a draft that does is logged as what is said of its fault.
pub proof fn law_failed_answer_is_logged(
    app: AppView,
    text: Seq<char>,
    draft: LlmTodoDraftView,
    clock: Clock,
    id: Seq<char>,
)
    requires
        app.llm_pending,
        app.mode is Chat,
    ensures
        app.answered(Err(text), clock, id).1 == Some(text),
        app.answered(Err(text), clock, id).0.mode is Normal,
        app.answered(Err(text), clock, id).0 == (AppView {
            llm_pending: false,
            mode: ModeView::Normal,
            ..app
        }).reporting(text, clock),
        draft_task(draft, clock.utc, id) matches Err(error) ==> app.answered(Ok(draft), clock, id)
            == app.answered(Err(error.message()), clock, id),
        draft_task(draft, clock.utc, id) is Ok ==> app.answered(Ok(draft), clock, id).1 is None,
{
}

/// The file of the chosen project is watched while it is open, and none else.
pub proof fn law_open_project_is_watched(app: AppView)
    ensures
        app.screen == Screen::Projects || app.screen == Screen::Settings ==> app.watched_file()
            is None,
        app.screen == Screen::ProjectDetail || app.screen == Screen::TaskDetail ==> (
        app.watched_file() is Some <==> 0 <= app.project_index < app.projects.len()),
        app.watched_file() matches Some(name) ==> name
            == app.projects[app.project_index].file_stem + ".json"@,
{
}

/// Keys that mean nothing on a screen leave everything as it is.
pub proof fn law_other_keys_do_nothing(app: AppView, key: KeyEvent, clock: Clock)
    requires
        app.mode is Normal,
        key.code is F || key.code is PageUp || key.code is PageDown || key.code is Tab || key.code
            is BackTab || key.code is Backspace || key.code is Delete || key.code is End
            || key.code is Other,
    ensures
        app.after_key(key, clock) == (app, EffectView::Done),
{
}

/// On the settings a step goes to the neighbouring line, as far as there is one.
pub proof fn law_settings_moves(app: AppView, modifiers: KeyModifiers, clock: Clock)
    requires
        app.wf(),
        app.mode is Normal,
        app.screen == Screen::Settings,
    ensures
        app.after_key(KeyEvent { code: KeyCode::Down, modifiers }, clock).0.settings_index == (
        if app.settings_index < 8 {
            app.settings_index + 1
        } else {
            app.settings_index
        }),
        app.after_key(KeyEvent { code: KeyCode::Up, modifiers }, clock).0.settings_index == (
        if app.settings_index > 0 {
            app.settings_index - 1
        } else {
            app.settings_index
        }),
        app.after_key(KeyEvent { code: KeyCode::Right, modifiers }, clock)
            == app.setting_changed(1),
        app.after_key(KeyEvent { code: KeyCode::Left, modifiers }, clock) == app.setting_changed(
            -1,
        ),
{
}

/// What the letters of a screen open: the chat bar with nothing typed, where a
/// project is chosen; the chosen task in its form; the settings.
pub proof fn law_letters_open(app: AppView, modifiers: KeyModifiers, clock: Clock)
    requires
        app.wf(),
        app.mode is Normal,
        app.screen != Screen::Settings,
    ensures
        app.current_project() is Some ==> (app.after_key(
            KeyEvent { code: KeyCode::Char('c'), modifiers },
            clock,
        ).0.mode matches ModeView::Chat(form) && form.input.value.len() == 0 && !form.pending),
        app.current_project() is None ==> app.after_key(
            KeyEvent { code: KeyCode::Char('c'), modifiers },
            clock,
        ).0 == app.reporting(TodoErrorView::NoProjectSelected.message(), clock),
        app.current_task(clock.utc) matches Some(task) ==> (app.after_key(
            KeyEvent { code: KeyCode::Char('e'), modifiers },
            clock,
        ).0.mode matches ModeView::Editing(form) && form.new_task is None && form.active == 0
            && form.fields[0].value == task.title && form.fields[1].value == task.content),
        app.current_task(clock.utc) is None ==> app.after_key(
            KeyEvent { code: KeyCode::Char('e'), modifiers },
            clock,
        ).0 == app.reporting(TodoErrorView::NoTaskSelected.message(), clock),
        app.after_key(KeyEvent { code: KeyCode::Char('s'), modifiers }, clock) == (
            app,
            EffectView::LoadThemeOptions,
        ),
        app.after_key(KeyEvent { code: KeyCode::Home, modifiers }, clock).0.task_index == 0,
        app.after_key(KeyEvent { code: KeyCode::Home, modifiers }, clock).0.detail_scroll == 0,
{
}

/// While a draft is awaited the chat bar takes no more keys but to cancel, the
/// answer is waited for, and the message says who is asked.
pub proof fn law_awaiting_a_draft(app: AppView, clock: Clock)
    requires
        app.mode is Chat,
    ensures
        app.awaiting_draft(clock).llm_pending,
        app.awaiting_draft(clock).mode matches ModeView::Chat(form) && form.pending && form.input
            == app.mode->Chat_0.input,
        app.awaiting_draft(clock).projects == app.projects,
        app.awaiting_draft(clock).settings == app.settings,
        app.awaiting_draft(clock).status_message matches Some(message) && message.text == (
        if app.settings.llm_backend == LlmBackend::CodexExec {
            "asking codex"@
        } else {
            "asking llm"@
        }),
{
}

/// A task that was completed or opened with a key stays chosen when its project
/// has been saved, as long as it is shown.
pub proof fn law_toggled_task_stays_chosen(
    app: AppView,
    task_index: usize,
    completed: bool,
    clock: Clock,
)
    requires
        app.visible(clock.utc).contains(task_index as int),
    ensures
        app.project_saved(
            ProjectChange::Toggled { task_index, completed },
            clock,
        ).task_index == task_index,
        app.project_saved(ProjectChange::Toggled { task_index, completed }, clock).screen
            == app.screen,
{
    let chosen = AppView { task_index: task_index as int, ..app };
    assert(chosen.visible(clock.utc) == app.visible(clock.utc));
}

/// A confirmation or a refusal can be given by either of two keys, and any other
/// leaves the question open. On the list of projects it is about the project.
pub proof fn law_question_before_a_deletion(
    app: AppView,
    target: DeleteTarget,
    key: KeyEvent,
    modifiers: KeyModifiers,
    clock: Clock,
)
    requires
        app.wf(),
    ensures
        app.confirm_key(KeyEvent { code: KeyCode::Enter, modifiers }, target, clock.utc)
            == app.confirm_key(
            KeyEvent { code: KeyCode::Char('y'), modifiers },
            target,
            clock.utc,
        ),
        app.confirm_key(KeyEvent { code: KeyCode::Esc, modifiers }, target, clock.utc)
            == app.confirm_key(
            KeyEvent { code: KeyCode::Char('n'), modifiers },
            target,
            clock.utc,
        ),
        key.code != KeyCode::Enter && key.code != KeyCode::Esc && key.code != KeyCode::Char('y')
            && key.code != KeyCode::Char('n') ==> app.confirm_key(key, target, clock.utc) == (
            app,
            Ok::<_, TodoErrorView>(EffectView::Done),
        ),
        app.mode is Normal && app.screen == Screen::Projects && app.projects.len() > 0
            ==> app.after_key(
            KeyEvent { code: KeyCode::Char('d'), modifiers },
            clock,
        ).0.mode == ModeView::ConfirmDelete(DeleteTarget::Project),
        app.mode is Normal && app.screen == Screen::Settings ==> app.after_key(
            KeyEvent { code: KeyCode::Char('d'), modifiers },
            clock,
        ) == (app, EffectView::Done),
{
}

/// When a project is gone, the one that follows it is chosen, or the last one
/// where none does.
pub proof fn law_choice_after_a_deletion(app: AppView, clock: Clock)
    requires
        app.wf(),
        app.current_project() is Some,
    ensures
        app.project_index + 1 < app.projects.len() ==> app.project_deleted(clock).current_project()
            == Some(app.projects[app.project_index + 1]),
        app.project_index + 1 == app.projects.len() && app.projects.len() > 1
            ==> app.project_deleted(clock).current_project() == Some(
            app.projects[app.project_index - 1],
        ),
        app.projects.len() == 1 ==> app.project_deleted(clock).current_project() is None,
        app.project_deleted(clock).task_index == 0,
        app.project_deleted(clock).mode is Normal,
        app.project_deleted(clock).settings == app.settings,
{
}

/// When the chosen task is gone after a reload, the task in its place is chosen,
/// or the last one, as far as that is shown; a place that is no longer what it was
/// is shown from its beginning.
pub proof fn law_reload_without_the_task(app: AppView, project: ProjectView, clock: Clock)
    requires
        app.wf(),
        app.current_project() is Some,
        app.current_task(clock.utc) is Some,
        task_place(project.tasks, app.current_task(clock.utc)->0.id) is None,
        project.tasks.len() > 0,
    ensures
        ({
            let after = app.reloaded(project, clock);
            let place = if app.task_index < project.tasks.len() {
                app.task_index
            } else {
                project.tasks.len() - 1
            };
            let shown = app.show_hidden_tasks || !project.tasks[place].hidden(clock.utc);
            &&& shown ==> after.task_index == place && after.detail_scroll == app.detail_scroll
            &&& !shown && after.visible(clock.utc).len() > 0 ==> after.task_index
                == after.visible(clock.utc)[0] && after.detail_scroll == 0
        }),
{
    let now = clock.utc;
    law_visible_indices(project.tasks, app.show_hidden_tasks, now);
    let after = app.reloaded(project, clock);
    assert(after.tasks() == project.tasks);
    let place = if app.task_index < project.tasks.len() {
        app.task_index
    } else {
        project.tasks.len() - 1
    };
    let file = app.projects[app.project_index];
    let placed = AppView {
        projects: app.projects.update(
            app.project_index,
            ProjectFileView { file_stem: file.file_stem, project },
        ),
        task_index: place,
        ..app
    };
    assert(placed.tasks() == project.tasks);
    assert(placed.visible(now).contains(place) == (app.show_hidden_tasks || !project.tasks[
        place
    ].hidden(now)));
}

/// Saved settings are said to be saved; the form that changed them closes then,
/// and not before. A theme that was loaded is saved next.
pub proof fn law_settings_are_saved(
    app: AppView,
    closes_form: bool,
    previous: Seq<char>,
    clock: Clock,
)
    ensures
        ({
            let saved = app.after_effect(
                EffectView::SaveSettings { closes_form },
                OutcomeView::Succeeded,
                clock,
            );
            &&& saved.1 == EffectView::Done
            &&& saved.0.settings == app.settings && saved.0.projects == app.projects
            &&& closes_form ==> saved.0.mode is Normal
            &&& !closes_form ==> saved.0.mode == app.mode
            &&& saved.0.status_message matches Some(message) && message.text == "settings saved"@
        }),
        app.after_effect(EffectView::LoadTheme { previous }, OutcomeView::Succeeded, clock) == (
            app,
            (EffectView::SaveSettings { closes_form: false }),
        ),
{
}

/// The settings open on the line that was chosen last, and hidden tasks are shown
/// or hidden with a message that says which.
pub proof fn law_settings_open_where_they_were(
    app: AppView,
    options: Seq<Seq<char>>,
    clock: Clock,
)
    requires
        app.wf(),
    ensures
        app.settings_opened(options).settings_index == app.settings_index,
        app.settings_opened(options).theme_options == options,
        app.settings_opened(options).task_index == app.task_index,
        app.screen == Screen::ProjectDetail ==> (app.hidden_toggled(
            clock,
        ).status_message matches Some(message) && message.text == (if app.show_hidden_tasks {
            "hiding hidden"@
        } else {
            "showing hidden"@
        })),
        app.screen != Screen::ProjectDetail ==> app.hidden_toggled(clock) == app,
        app.hidden_toggled(clock).projects == app.projects,
{
}

/// When a task has been deleted, the one in its place is chosen, or the last one
/// where it was that, as far as it is shown; its own screen is left.
pub proof fn law_choice_after_a_deleted_task(app: AppView, clock: Clock)
    requires
        app.wf(),
        app.tasks().len() > 0,
    ensures
        ({
            let after = app.project_saved(ProjectChange::Deleted, clock);
            let place = if app.task_index < app.tasks().len() {
                app.task_index
            } else {
                app.tasks().len() - 1
            };
            &&& app.visible(clock.utc).contains(place) ==> after.task_index == place
            &&& after.detail_scroll == 0
            &&& after.screen != Screen::TaskDetail
            &&& app.screen != Screen::TaskDetail ==> after.screen == app.screen
            &&& app.screen == Screen::TaskDetail ==> after.screen == Screen::ProjectDetail
        }),
{
    let place = if app.task_index < app.tasks().len() {
        app.task_index
    } else {
        app.tasks().len() - 1
    };
    let placed = AppView {
        task_index: place,
        detail_scroll: 0,
        screen: if app.screen == Screen::TaskDetail {
            Screen::ProjectDetail
        } else {
            app.screen
        },
        ..app
    };
    assert(placed.visible(clock.utc) == app.visible(clock.utc));
}

/// A text is taken for a setting unless it is blank, and for the address of the
/// service only where that is an address of the web.
pub proof fn law_settings_are_checked(app: AppView, form: SettingTextFormView)
    requires
        form.field == SettingsField::LlmBaseUrl || form.field == SettingsField::LlmModel,
    ensures
        ({
            let text = trimmed(form.input.value);
            let scheme = url_scheme(base_of(text) + "/chat/completions"@);
            let taken = app.setting_saved(form).1;
            &&& text.len() == 0 ==> taken == Err::<EffectView, _>(TodoErrorView::EmptySetting)
            &&& form.field == SettingsField::LlmModel && text.len() > 0 ==> taken is Ok
            &&& form.field == SettingsField::LlmBaseUrl && text.len() > 0 ==> (taken is Ok <==> (
            scheme == Some("http"@) || scheme == Some("https"@)))
            &&& taken is Err ==> app.setting_saved(form).0 == app
            &&& taken matches Ok(effect) ==> effect == (EffectView::SaveSettings {
                closes_form: true,
            })
        }),
{
}

} // verus!
