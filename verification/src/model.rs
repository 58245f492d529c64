//! Projects and their tasks.
use vstd::prelude::*;

use crate::order::{
    in_order, ints, is_sort_order, key_views, law_sort_order_has_all, sorted_order, text_before,
    SortKey, SortKeyView,
};
use crate::text::{
    clone_text_opt, clone_texts, lowercase, text_opt, texts, to_lowercase,
};
use crate::time::{
    current_instant, is_long_done, law_long_done_after_two_weeks, long_done, parse_rfc3339, rfc3339,
    timestamp, utc_second_of, UtcInstant, SECOND_NANOS,
};

verus! {

/// A task as mathematics sees it.
pub struct TaskView {
    pub id: Seq<char>,
    pub title: Seq<char>,
    pub content: Seq<char>,
    pub labels: Seq<Seq<char>>,
    pub branch: Option<Seq<char>>,
    pub created_at: Seq<char>,
    pub updated_at: Option<Seq<char>>,
    pub completed_at: Option<Seq<char>>,
    pub due_at: Option<Seq<char>>,
}

/// A task.
#[derive(Debug, PartialEq, Eq)]
pub struct Task {
    pub id: String,
    pub title: String,
    pub content: String,
    pub labels: Vec<String>,
    pub branch: Option<String>,
    pub created_at: String,
    pub updated_at: Option<String>,
    pub completed_at: Option<String>,
    pub due_at: Option<String>,
}

impl View for Task {
    type V = TaskView;

    open spec fn view(&self) -> TaskView {
        TaskView {
            id: self.id@,
            title: self.title@,
            content: self.content@,
            labels: texts(self.labels@),
            branch: text_opt(self.branch),
            created_at: self.created_at@,
            updated_at: text_opt(self.updated_at),
            completed_at: text_opt(self.completed_at),
            due_at: text_opt(self.due_at),
        }
    }
}

impl Clone for Task {
    fn clone(&self) -> (r: Self)
        ensures
            r@ == self@,
    {
        Task {
            id: self.id.clone(),
            title: self.title.clone(),
            content: self.content.clone(),
            labels: clone_texts(&self.labels),
            branch: clone_text_opt(&self.branch),
            created_at: self.created_at.clone(),
            updated_at: clone_text_opt(&self.updated_at),
            completed_at: clone_text_opt(&self.completed_at),
            due_at: clone_text_opt(&self.due_at),
        }
    }
}

/// The views of several tasks.
pub open spec fn task_views(v: Seq<Task>) -> Seq<TaskView> {
    v.map_values(|t: Task| t@)
}

/// A project as mathematics sees it.
pub struct ProjectView {
    pub title: Seq<char>,
    pub description: Seq<char>,
    pub labels: Seq<Seq<char>>,
    pub tasks: Seq<TaskView>,
}

/// A project.
#[derive(Debug, PartialEq, Eq)]
pub struct Project {
    pub title: String,
    pub description: String,
    pub labels: Vec<String>,
    pub tasks: Vec<Task>,
}

impl View for Project {
    type V = ProjectView;

    open spec fn view(&self) -> ProjectView {
        ProjectView {
            title: self.title@,
            description: self.description@,
            labels: texts(self.labels@),
            tasks: task_views(self.tasks@),
        }
    }
}

/// Copies tasks.
pub fn clone_tasks(v: &Vec<Task>) -> (r: Vec<Task>)
    ensures
        task_views(r@) == task_views(v@),
{
    let mut out: Vec<Task> = Vec::new();
    let mut i: usize = 0;
    while i < v.len()
        invariant
            i <= v@.len(),
            out@.len() == i,
            forall|k: int| 0 <= k < i ==> (#[trigger] out@[k])@ == v@[k]@,
        decreases v@.len() - i,
    {
        out.push(v[i].clone());
        i = i + 1;
    }
    assert(task_views(out@) =~= task_views(v@));
    out
}

impl Clone for Project {
    fn clone(&self) -> (r: Self)
        ensures
            r@ == self@,
    {
        Project {
            title: self.title.clone(),
            description: self.description.clone(),
            labels: clone_texts(&self.labels),
            tasks: clone_tasks(&self.tasks),
        }
    }
}

/// A project and the name of its file, as mathematics sees them.
pub struct ProjectFileView {
    pub file_stem: Seq<char>,
    pub project: ProjectView,
}

/// A project and the name of its file, without its extension.
#[derive(Debug, PartialEq, Eq)]
pub struct ProjectFile {
    pub file_stem: String,
    pub project: Project,
}

impl View for ProjectFile {
    type V = ProjectFileView;

    open spec fn view(&self) -> ProjectFileView {
        ProjectFileView { file_stem: self.file_stem@, project: self.project@ }
    }
}

impl Clone for ProjectFile {
    fn clone(&self) -> (r: Self)
        ensures
            r@ == self@,
    {
        ProjectFile { file_stem: self.file_stem.clone(), project: self.project.clone() }
    }
}

/// The name of a project file.
pub open spec fn project_file_name(file_stem: Seq<char>) -> Seq<char> {
    file_stem + ".json"@
}

impl ProjectFile {
    /// The name of the file.
    pub fn file_name(&self) -> (r: String)
        ensures
            r@ == project_file_name(self@.file_stem),
    {
        let mut name = self.file_stem.clone();
        name.append(".json");
        name
    }
}

/// The views of several project files.
pub open spec fn project_views(v: Seq<ProjectFile>) -> Seq<ProjectFileView> {
    v.map_values(|p: ProjectFile| p@)
}

/// What projects are sorted by: their titles in lower case, and their files.
pub open spec fn project_keys(projects: Seq<ProjectFileView>) -> Seq<SortKeyView> {
    projects.map_values(
        |p: ProjectFileView| SortKeyView { first: lowercase(p.project.title), second: p.file_stem },
    )
}

/// Whether `sorted` lists projects by title without regard to case, and by
/// file where titles are equal.
pub open spec fn are_sorted_projects(
    projects: Seq<ProjectFileView>,
    sorted: Seq<ProjectFileView>,
) -> bool {
    exists|order: Seq<int>| #[trigger]
        is_sort_order(project_keys(projects), order) && sorted == order.map_values(
            |i: int| projects[i],
        )
}

/// Lists projects by title without regard to case, and by file where titles are equal.
pub fn sort_projects(projects: Vec<ProjectFile>) -> (r: Vec<ProjectFile>)
    ensures
        are_sorted_projects(project_views(projects@), project_views(r@)),
{
    let ghost views = project_views(projects@);
    let mut keys: Vec<SortKey> = Vec::new();
    let mut i: usize = 0;
    while i < projects.len()
        invariant
            i <= projects@.len(),
            views == project_views(projects@),
            keys@.len() == i,
            forall|k: int| 0 <= k < i ==> (#[trigger] keys@[k])@ == project_keys(views)[k],
        decreases projects@.len() - i,
    {
        assert(views[i as int] == projects@[i as int]@);
        keys.push(
            SortKey {
                first: to_lowercase(projects[i].project.title.as_str()),
                second: projects[i].file_stem.clone(),
            },
        );
        i = i + 1;
    }
    assert(key_views(keys@) =~= project_keys(views));
    let order = sorted_order(&keys);
    let mut out: Vec<ProjectFile> = Vec::new();
    let mut m: usize = 0;
    while m < order.len()
        invariant
            m <= order@.len(),
            views == project_views(projects@),
            is_sort_order(project_keys(views), ints(order@)),
            out@.len() == m,
            forall|k: int| 0 <= k < m ==> (#[trigger] out@[k])@ == views[ints(order@)[k]],
        decreases order@.len() - m,
    {
        assert(0 <= ints(order@)[m as int] < views.len());
        assert(views[order@[m as int] as int] == projects@[order@[m as int] as int]@);
        out.push(projects[order[m]].clone());
        m = m + 1;
    }
    assert(project_views(out@) =~= ints(order@).map_values(|i: int| views[i]));
    out
}

/// A change to a task, as mathematics sees it.
pub struct TaskUpdateView {
    pub title: Seq<char>,
    pub content: Seq<char>,
    pub labels: Seq<Seq<char>>,
    pub branch: Option<Seq<char>>,
    pub completed_at: Option<Seq<char>>,
    pub due_at: Option<Seq<char>>,
}

/// A change to a task.
#[derive(Debug, PartialEq, Eq)]
pub struct TaskUpdate {
    pub title: String,
    pub content: String,
    pub labels: Vec<String>,
    pub branch: Option<String>,
    pub completed_at: Option<String>,
    pub due_at: Option<String>,
}

impl View for TaskUpdate {
    type V = TaskUpdateView;

    open spec fn view(&self) -> TaskUpdateView {
        TaskUpdateView {
            title: self.title@,
            content: self.content@,
            labels: texts(self.labels@),
            branch: text_opt(self.branch),
            completed_at: text_opt(self.completed_at),
            due_at: text_opt(self.due_at),
        }
    }
}

/// The text that is stored for an instant.
pub open spec fn stamp(now: UtcInstant) -> Seq<char> {
    utc_second_of(now.secs as int, now.nanos as int)
}

impl TaskView {
    /// The task after a change; where that counts as an update, it is marked
    /// as made at `now`.
    pub open spec fn updated(self, update: TaskUpdateView, touch: bool, now: UtcInstant) -> TaskView {
        TaskView {
            id: self.id,
            title: update.title,
            content: update.content,
            labels: update.labels,
            branch: update.branch,
            created_at: self.created_at,
            updated_at: if touch {
                Some(stamp(now))
            } else {
                self.updated_at
            },
            completed_at: update.completed_at,
            due_at: update.due_at,
        }
    }

    /// The task completed at `now`, or open again where it was completed.
    pub open spec fn toggled(self, now: UtcInstant) -> TaskView {
        TaskView {
            updated_at: Some(stamp(now)),
            completed_at: if self.completed_at is None {
                Some(stamp(now))
            } else {
                None
            },
            ..self
        }
    }

    /// Whether the task is hidden: completed more than two weeks before `now`.
    pub open spec fn hidden(self, now: UtcInstant) -> bool {
        match self.completed_at {
            Some(text) => long_done(rfc3339(text), now),
            None => false,
        }
    }
}

/// A change keeps what identifies a task, and when it was created.
pub proof fn law_update_keeps_identity(
    task: TaskView,
    update: TaskUpdateView,
    touch: bool,
    now: UtcInstant,
)
    ensures
        task.updated(update, touch, now).id == task.id,
        task.updated(update, touch, now).created_at == task.created_at,
        !touch ==> task.updated(update, touch, now).updated_at == task.updated_at,
{
}

/// A change takes effect: the task has what the change says, and a change that
/// counts as an update is marked as one.
pub proof fn law_update_takes_effect(
    task: TaskView,
    update: TaskUpdateView,
    touch: bool,
    now: UtcInstant,
)
    ensures
        task.updated(update, touch, now).title == update.title,
        task.updated(update, touch, now).content == update.content,
        task.updated(update, touch, now).labels == update.labels,
        task.updated(update, touch, now).branch == update.branch,
        task.updated(update, touch, now).completed_at == update.completed_at,
        task.updated(update, touch, now).due_at == update.due_at,
        touch ==> task.updated(update, touch, now).updated_at == Some(stamp(now)),
{
}

/// Of two changes the later one counts, and the same change twice is one.
pub proof fn law_later_update_counts(
    task: TaskView,
    first: TaskUpdateView,
    second: TaskUpdateView,
    touch: bool,
    now: UtcInstant,
)
    ensures
        task.updated(first, touch, now).updated(second, touch, now) == task.updated(
            second,
            touch,
            now,
        ),
        task.updated(first, false, now).updated(
            TaskUpdateView {
                title: task.title,
                content: task.content,
                labels: task.labels,
                branch: task.branch,
                completed_at: task.completed_at,
                due_at: task.due_at,
            },
            false,
            now,
        ) == task,
{
}

/// Completing a task and opening it again changes nothing but its update.
pub proof fn law_toggle_twice(task: TaskView, now: UtcInstant, later: UtcInstant)
    requires
        task.completed_at is None,
    ensures
        task.toggled(now).completed_at == Some(stamp(now)),
        task.toggled(now).updated_at == Some(stamp(now)),
        task.toggled(now).toggled(later) == (TaskView { updated_at: Some(stamp(later)), ..task }),
{
}

/// Completing a task or opening it again changes nothing else it says.
pub proof fn law_toggle_keeps_the_rest(task: TaskView, now: UtcInstant)
    ensures
        task.toggled(now).id == task.id,
        task.toggled(now).title == task.title,
        task.toggled(now).content == task.content,
        task.toggled(now).labels == task.labels,
        task.toggled(now).branch == task.branch,
        task.toggled(now).created_at == task.created_at,
        task.toggled(now).due_at == task.due_at,
        task.toggled(now).updated_at == Some(stamp(now)),
        task.toggled(now).completed_at is Some <==> task.completed_at is None,
        task.toggled(now).completed_at is Some ==> task.toggled(now).completed_at == Some(
            stamp(now),
        ),
{
}

/// Only a completed task is hidden, and one that was completed within two weeks,
/// to the second, or at no instant that can be read is not.
pub proof fn law_hidden_tasks(task: TaskView, now: UtcInstant)
    requires
        now.has_cutoff(),
        now.nanos < SECOND_NANOS,
    ensures
        task.hidden(now) ==> task.completed_at is Some,
        task.completed_at matches Some(text) ==> {
            &&& rfc3339(text) is None ==> !task.hidden(now)
            &&& rfc3339(text) matches Some(done) ==> done.wf() ==> {
                &&& now.secs - done.secs < 14 * 24 * 60 * 60 ==> !task.hidden(now)
                &&& now.secs - done.secs > 14 * 24 * 60 * 60 ==> task.hidden(now)
            }
        },
        marker(task, now) == if task.hidden(now) {
            "[hidden]"@
        } else if task.completed_at is None {
            "[ ]"@
        } else {
            "[x]"@
        },
{
    if let Some(text) = task.completed_at {
        if rfc3339(text) is Some && rfc3339(text)->0.wf() {
            law_long_done_after_two_weeks(rfc3339(text)->0, now);
        }
    }
}

/// Applies a change to a task at `now`.
pub fn apply_task_update_at(
    task: &mut Task,
    update: TaskUpdate,
    touch_updated_at: bool,
    now: UtcInstant,
)
    requires
        now.wf(),
    ensures
        final(task)@ == old(task)@.updated(update@, touch_updated_at, now),
{
    task.title = update.title;
    task.content = update.content;
    task.labels = update.labels;
    task.branch = update.branch;
    task.completed_at = update.completed_at;
    task.due_at = update.due_at;
    if touch_updated_at {
        task.updated_at = Some(timestamp(now));
    }
}

/// Applies a change to a task, at present.
pub fn apply_task_update(task: &mut Task, update: TaskUpdate, touch_updated_at: bool)
    ensures
        exists|now: UtcInstant|
            #![trigger now.wf()]
            now.wf() && 0 <= now.secs && now.nanos < SECOND_NANOS && final(task)@ == old(
                task,
            )@.updated(update@, touch_updated_at, now),
{
    let now = current_instant();
    apply_task_update_at(task, update, touch_updated_at, now);
    assert(now.wf());
}

/// Completes a task at `now`, or opens it again; whether it is completed then.
pub fn toggle_completion(task: &mut Task, now: UtcInstant) -> (r: bool)
    requires
        now.wf(),
    ensures
        final(task)@ == old(task)@.toggled(now),
        r == (old(task)@.completed_at is None),
{
    let completed = task.completed_at.is_none();
    task.completed_at = if completed {
        Some(timestamp(now))
    } else {
        None
    };
    task.updated_at = Some(timestamp(now));
    completed
}

/// Whether a task is hidden: completed more than two weeks before `now`.
pub fn task_is_hidden(task: &Task, now: UtcInstant) -> (r: bool)
    requires
        now.has_cutoff(),
    ensures
        r == task@.hidden(now),
{
    match &task.completed_at {
        Some(completed_at) => is_long_done(parse_rfc3339(completed_at.as_str()), now),
        None => false,
    }
}

/// What stands before a task in a list.
pub open spec fn marker(task: TaskView, now: UtcInstant) -> Seq<char> {
    if task.hidden(now) {
        "[hidden]"@
    } else if task.completed_at is Some {
        "[x]"@
    } else {
        "[ ]"@
    }
}

/// What stands before a task in a list.
pub fn task_list_marker(task: &Task, now: UtcInstant) -> (r: &'static str)
    requires
        now.has_cutoff(),
    ensures
        r@ == marker(task@, now),
{
    if task_is_hidden(task, now) {
        "[hidden]"
    } else if task.completed_at.is_some() {
        "[x]"
    } else {
        "[ ]"
    }
}

/// The tasks that a list shows, by their places: all of them, or those that are not hidden.
pub open spec fn visible_indices(
    tasks: Seq<TaskView>,
    show_hidden: bool,
    now: UtcInstant,
) -> Seq<int>
    decreases tasks.len(),
{
    if tasks.len() == 0 {
        Seq::empty()
    } else {
        let before = visible_indices(tasks.drop_last(), show_hidden, now);
        if show_hidden || !tasks.last().hidden(now) {
            before.push(tasks.len() - 1)
        } else {
            before
        }
    }
}

proof fn lemma_visible_order(tasks: Seq<TaskView>, show_hidden: bool, now: UtcInstant)
    ensures
        forall|p: int|
            0 <= p < visible_indices(tasks, show_hidden, now).len() ==> 0
                <= #[trigger] visible_indices(tasks, show_hidden, now)[p] < tasks.len(),
        forall|p: int, q: int|
            0 <= p < q < visible_indices(tasks, show_hidden, now).len()
                ==> #[trigger] visible_indices(tasks, show_hidden, now)[p]
                < #[trigger] visible_indices(tasks, show_hidden, now)[q],
    decreases tasks.len(),
{
    if tasks.len() > 0 {
        let before = visible_indices(tasks.drop_last(), show_hidden, now);
        let all = visible_indices(tasks, show_hidden, now);
        lemma_visible_order(tasks.drop_last(), show_hidden, now);
        assert forall|p: int| 0 <= p < all.len() implies 0 <= #[trigger] all[p] < tasks.len() by {
            if p < before.len() {
                assert(all[p] == before[p]);
            }
        }
        assert forall|p: int, q: int| 0 <= p < q < all.len() implies #[trigger] all[p]
            < #[trigger] all[q] by {
            assert(all[p] == before[p]);
            if q < before.len() {
                assert(all[q] == before[q]);
            }
        }
    }
}

proof fn lemma_visible_choice(tasks: Seq<TaskView>, show_hidden: bool, now: UtcInstant, i: int)
    requires
        0 <= i < tasks.len(),
    ensures
        visible_indices(tasks, show_hidden, now).contains(i) == (show_hidden || !tasks[i].hidden(
            now,
        )),
    decreases tasks.len(),
{
    let rest = tasks.drop_last();
    let before = visible_indices(rest, show_hidden, now);
    let all = visible_indices(tasks, show_hidden, now);
    lemma_visible_order(rest, show_hidden, now);
    if i < rest.len() {
        lemma_visible_choice(rest, show_hidden, now, i);
        assert(rest[i] == tasks[i]);
        if before.contains(i) {
            let p = choose|p: int| 0 <= p < before.len() && before[p] == i;
            assert(all[p] == i);
        }
        if all.contains(i) {
            let p = choose|p: int| 0 <= p < all.len() && all[p] == i;
            if p < before.len() {
                assert(before[p] == i);
            }
        }
    } else {
        assert(tasks[i] == tasks.last());
        if show_hidden || !tasks[i].hidden(now) {
            assert(all[before.len() as int] == i);
        } else if all.contains(i) {
            let p = choose|p: int| 0 <= p < all.len() && all[p] == i;
            assert(before[p] == i);
        }
    }
}

/// A list shows tasks in their order, each once, and just those that it should.
pub proof fn law_visible_indices(tasks: Seq<TaskView>, show_hidden: bool, now: UtcInstant)
    ensures
        forall|p: int|
            0 <= p < visible_indices(tasks, show_hidden, now).len() ==> 0
                <= #[trigger] visible_indices(tasks, show_hidden, now)[p] < tasks.len(),
        forall|p: int, q: int|
            0 <= p < q < visible_indices(tasks, show_hidden, now).len()
                ==> #[trigger] visible_indices(tasks, show_hidden, now)[p]
                < #[trigger] visible_indices(tasks, show_hidden, now)[q],
        forall|i: int|
            0 <= i < tasks.len() ==> #[trigger] visible_indices(tasks, show_hidden, now).contains(i)
                == (show_hidden || !tasks[i].hidden(now)),
{
    lemma_visible_order(tasks, show_hidden, now);
    assert forall|i: int| 0 <= i < tasks.len() implies #[trigger] visible_indices(
        tasks,
        show_hidden,
        now,
    ).contains(i) == (show_hidden || !tasks[i].hidden(now)) by {
        lemma_visible_choice(tasks, show_hidden, now, i);
    }
}

/// A list that shows hidden tasks shows all.
pub proof fn law_all_tasks_visible(tasks: Seq<TaskView>, now: UtcInstant)
    ensures
        visible_indices(tasks, true, now) == Seq::new(tasks.len(), |i: int| i),
    decreases tasks.len(),
{
    if tasks.len() > 0 {
        law_all_tasks_visible(tasks.drop_last(), now);
    }
    assert(visible_indices(tasks, true, now) =~= Seq::new(tasks.len(), |i: int| i));
}

/// The tasks that a list shows at `now`.
pub fn visible_task_indices_at(tasks: &Vec<Task>, show_hidden: bool, now: UtcInstant) -> (r: Vec<
    usize,
>)
    requires
        now.has_cutoff(),
    ensures
        ints(r@) == visible_indices(task_views(tasks@), show_hidden, now),
{
    let ghost views = task_views(tasks@);
    let mut out: Vec<usize> = Vec::new();
    let mut i: usize = 0;
    assert(views.take(0) =~= Seq::empty());
    assert(ints(out@) =~= Seq::empty());
    while i < tasks.len()
        invariant
            i <= tasks@.len(),
            now.has_cutoff(),
            views == task_views(tasks@),
            ints(out@) == visible_indices(views.take(i as int), show_hidden, now),
        decreases tasks@.len() - i,
    {
        assert(views.take(i + 1).drop_last() =~= views.take(i as int));
        assert(views[i as int] == tasks@[i as int]@);
        if show_hidden || !task_is_hidden(&tasks[i], now) {
            let ghost before = ints(out@);
            out.push(i);
            assert(ints(out@) =~= before.push(i as int));
        }
        i = i + 1;
    }
    assert(views.take(tasks@.len() as int) =~= views);
    out
}

/// The tasks that a list shows, at present.
pub fn visible_task_indices(tasks: &Vec<Task>, show_hidden: bool) -> (r: Vec<usize>)
    ensures
        exists|now: UtcInstant|
            #![trigger now.has_cutoff()]
            now.has_cutoff() && 0 <= now.secs && now.nanos < SECOND_NANOS && ints(r@)
                == visible_indices(task_views(tasks@), show_hidden, now),
{
    let now = current_instant();
    let r = visible_task_indices_at(tasks, show_hidden, now);
    assert(now.has_cutoff());
    r
}

/// Sorted projects are the same projects, in the order of their titles without
/// regard to case, and of their files where the titles are equal.
pub proof fn law_sorted_projects(
    projects: Seq<ProjectFileView>,
    sorted: Seq<ProjectFileView>,
    i: int,
    p: int,
    q: int,
)
    requires
        are_sorted_projects(projects, sorted),
        0 <= i < projects.len(),
        0 <= p < q < sorted.len(),
    ensures
        sorted.len() == projects.len(),
        sorted.contains(projects[i]),
        projects.contains(sorted[p]),
        ({
            let a = sorted[p];
            let b = sorted[q];
            let first = lowercase(a.project.title);
            let second = lowercase(b.project.title);
            text_before(first, second) || (first == second && (text_before(
                a.file_stem,
                b.file_stem,
            ) || a.file_stem == b.file_stem))
        }),
{
    let keys = project_keys(projects);
    let order = choose|order: Seq<int>| #[trigger]
        is_sort_order(keys, order) && sorted == order.map_values(|i: int| projects[i]);
    law_sort_order_has_all(keys, order, i);
    let place = choose|k: int| 0 <= k < order.len() && order[k] == i;
    assert(sorted[place] == projects[i]);
    assert(0 <= order[p] < keys.len() && 0 <= order[q] < keys.len());
    assert(sorted[p] == projects[order[p]]);
    assert(sorted[q] == projects[order[q]]);
    assert(in_order(keys, order[p], order[q]));
    assert(keys[order[p]].second == sorted[p].file_stem);
    assert(keys[order[q]].second == sorted[q].file_stem);
}

} // verus!
