//! Forms: editing a task, asking for a draft, changing a setting.
use vstd::prelude::*;

use crate::errors::{TodoError, TodoErrorView};
use crate::field::{law_cursor_stays_in_bounds, EditableField, FieldView};
use crate::key::{KeyCode, KeyEvent, KeyModifiers};
use crate::model::{Task, TaskUpdate, TaskUpdateView, TaskView};
use crate::settings::SettingsField;
use crate::text::{
    is_trimmed, join, join_texts, lemma_split, lemma_trimmed_by, lemma_trimmed_fixed, law_split_join,
    split, split_text, texts, trim, trimmed, CharClass,
};
use crate::time::{format_rfc3339, parse_rfc3339, rfc3339, rfc3339_of, OffsetInstant};

verus! {

/// The labels that a text lists: what stands between commas, trimmed, blanks left out.
pub open spec fn labels_in(parts: Seq<Seq<char>>) -> Seq<Seq<char>>
    decreases parts.len(),
{
    if parts.len() == 0 {
        Seq::empty()
    } else {
        let before = labels_in(parts.drop_last());
        let label = trimmed(parts.last());
        if label.len() > 0 {
            before.push(label)
        } else {
            before
        }
    }
}

/// The labels that are not blank, trimmed.
pub fn kept_labels(parts: &Vec<String>) -> (r: Vec<String>)
    ensures
        texts(r@) == labels_in(texts(parts@)),
{
    let ghost all = texts(parts@);
    let mut labels: Vec<String> = Vec::new();
    let mut i: usize = 0;
    assert(all.take(0) =~= Seq::empty());
    assert(texts(labels@) =~= Seq::empty());
    while i < parts.len()
        invariant
            i <= parts@.len(),
            all == texts(parts@),
            texts(labels@) == labels_in(all.take(i as int)),
        decreases parts@.len() - i,
    {
        assert(all.take(i + 1).drop_last() =~= all.take(i as int));
        assert(all[i as int] == parts@[i as int]@);
        let label = trim(parts[i].as_str());
        if label.as_str().unicode_len() > 0 {
            let ghost before = texts(labels@);
            let ghost text = label@;
            labels.push(label);
            assert(texts(labels@) =~= before.push(text));
        }
        i = i + 1;
    }
    assert(all.take(parts@.len() as int) =~= all);
    labels
}

/// Labels that are trimmed and not blank are all kept, in their order.
pub proof fn law_clean_labels_are_kept(parts: Seq<Seq<char>>)
    requires
        forall|i: int|
            0 <= i < parts.len() ==> (#[trigger] parts[i]).len() > 0 && is_trimmed(parts[i]),
    ensures
        labels_in(parts) == parts,
    decreases parts.len(),
{
    if parts.len() > 0 {
        let front = parts.drop_last();
        assert forall|i: int| 0 <= i < front.len() implies (#[trigger] front[i]).len() > 0
            && is_trimmed(front[i]) by {
            assert(parts[i] == front[i]);
        }
        law_clean_labels_are_kept(front);
        assert(parts[parts.len() - 1] == parts.last());
        lemma_trimmed_fixed(parts.last(), CharClass::Whitespace);
        assert(front.push(parts.last()) =~= parts);
    } else {
        assert(parts =~= Seq::empty());
    }
}

/// The labels of two lists together are those of the first and then those of
/// the second.
pub proof fn law_labels_of_both(a: Seq<Seq<char>>, b: Seq<Seq<char>>)
    ensures
        labels_in(a + b) == labels_in(a) + labels_in(b),
    decreases b.len(),
{
    if b.len() == 0 {
        assert(a + b =~= a);
        assert(labels_in(a) + labels_in(b) =~= labels_in(a));
    } else {
        assert((a + b).drop_last() =~= a + b.drop_last());
        law_labels_of_both(a, b.drop_last());
        assert(labels_in(a + b) =~= labels_in(a) + labels_in(b));
    }
}

/// A text is a label just where it is not blank and one of the parts is it,
/// blanks around that aside.
pub proof fn law_labels_are_the_parts(parts: Seq<Seq<char>>, label: Seq<char>)
    ensures
        labels_in(parts).contains(label) <==> label.len() > 0 && exists|i: int|
            0 <= i < parts.len() && trimmed(#[trigger] parts[i]) == label,
    decreases parts.len(),
{
    if parts.len() > 0 {
        let front = parts.drop_last();
        let before = labels_in(front);
        let last = trimmed(parts.last());
        law_labels_are_the_parts(front, label);
        if labels_in(parts).contains(label) {
            let k = choose|k: int|
                0 <= k < labels_in(parts).len() && labels_in(parts)[k] == label;
            if k < before.len() {
                assert(before[k] == label);
                let i = choose|i: int| 0 <= i < front.len() && trimmed(#[trigger] front[i]) == label;
                assert(trimmed(parts[i]) == label);
            } else {
                assert(trimmed(parts[parts.len() - 1]) == label);
            }
        }
        if label.len() > 0 && exists|i: int|
            0 <= i < parts.len() && trimmed(#[trigger] parts[i]) == label {
            let i = choose|i: int| 0 <= i < parts.len() && trimmed(#[trigger] parts[i]) == label;
            if i < front.len() {
                assert(trimmed(front[i]) == label);
                let k = choose|k: int| 0 <= k < before.len() && before[k] == label;
                assert(labels_in(parts)[k] == label);
            } else {
                assert(labels_in(parts)[before.len() as int] == label);
            }
        }
    }
}

/// The labels that a text lists.
pub fn parse_labels(input: &str) -> (r: Vec<String>)
    ensures
        texts(r@) == labels_in(split(input@, ',')),
{
    let parts = split_text(input, ',');
    kept_labels(&parts)
}

/// What a text holds: nothing where it is blank.
pub open spec fn nullable_text(input: Seq<char>) -> Option<Seq<char>> {
    if trimmed(input).len() == 0 {
        None
    } else {
        Some(trimmed(input))
    }
}

/// What a text holds: nothing where it is blank.
pub fn parse_nullable_text(input: &str) -> (r: Option<String>)
    ensures
        match r {
            Some(text) => nullable_text(input@) == Some(text@),
            None => nullable_text(input@) is None,
        },
{
    let text = trim(input);
    if text.as_str().unicode_len() == 0 {
        None
    } else {
        Some(text)
    }
}

/// What a text holds that should be blank or state an instant: nothing, the
/// instant in its normal form, or neither.
pub open spec fn nullable_datetime(input: Seq<char>) -> Result<Option<Seq<char>>, ()> {
    if trimmed(input).len() == 0 {
        Ok(None)
    } else {
        match rfc3339(trimmed(input)) {
            Some(instant) => Ok(Some(instant_form(instant))),
            None => Err(()),
        }
    }
}

/// The text that states an instant.
pub open spec fn instant_form(instant: OffsetInstant) -> Seq<char> {
    rfc3339_of(instant.secs as int, instant.nanos as int, instant.offset as int)
}

/// What a field of a form holds, given what its text states: the instant in
/// its normal form, or an error that names the field.
pub fn stated_datetime(stated: Option<OffsetInstant>, field: &str) -> (r: Result<
    Option<String>,
    TodoError,
>)
    requires
        stated matches Some(instant) ==> instant.wf(),
    ensures
        match stated {
            Some(instant) => r matches Ok(Some(text)) && text@ == instant_form(instant) && rfc3339(
                text@,
            ) == Some(instant) && text@.len() > 0 && is_trimmed(text@),
            None => r matches Err(e) && e@ == (TodoErrorView::InvalidDateTime { field: field@ }),
        },
{
    match stated {
        Some(instant) => Ok(Some(format_rfc3339(instant))),
        None => Err(TodoError::InvalidDateTime { field: field.to_owned() }),
    }
}

/// What a text holds that should be blank or state an instant. A text that
/// states one comes back in a form that reads as the same instant, and that
/// would come back as it is.
pub fn parse_nullable_datetime(input: &str, field: &str) -> (r: Result<Option<String>, TodoError>)
    ensures
        match nullable_datetime(input@) {
            Ok(None) => r matches Ok(None),
            Ok(Some(form)) => r matches Ok(Some(text)) && text@ == form && rfc3339(text@)
                == rfc3339(trimmed(input@)) && nullable_datetime(text@) == nullable_datetime(input@),
            Err(()) => r matches Err(e) && e@ == (TodoErrorView::InvalidDateTime { field: field@ }),
        },
{
    let text = trim(input);
    if text.as_str().unicode_len() == 0 {
        return Ok(None);
    }
    let r = stated_datetime(parse_rfc3339(text.as_str()), field);
    proof {
        if r is Ok && r->Ok_0 is Some {
            lemma_trimmed_fixed(r->Ok_0->0@, CharClass::Whitespace);
        }
    }
    r
}

/// What a text holds is unchanged by blanks around it.
pub proof fn law_blanks_do_not_matter(input: Seq<char>)
    ensures
        nullable_text(trimmed(input)) == nullable_text(input),
        nullable_datetime(trimmed(input)) == nullable_datetime(input),
{
    lemma_trimmed_by(input, CharClass::Whitespace);
    lemma_trimmed_fixed(trimmed(input), CharClass::Whitespace);
}

/// Whether a label can be listed: not blank, trimmed, and without a comma.
pub open spec fn is_label(label: Seq<char>) -> bool {
    label.len() > 0 && is_trimmed(label) && !label.contains(',')
}

proof fn lemma_labels_in_spaced(labels: Seq<Seq<char>>, spaced: Seq<Seq<char>>)
    requires
        forall|i: int| 0 <= i < labels.len() ==> is_label(#[trigger] labels[i]),
        spaced.len() == labels.len(),
        forall|i: int| 0 <= i < labels.len() ==> trimmed(#[trigger] spaced[i]) == labels[i],
    ensures
        labels_in(spaced) == labels,
    decreases labels.len(),
{
    if labels.len() > 0 {
        lemma_labels_in_spaced(labels.drop_last(), spaced.drop_last());
        assert(is_label(labels[labels.len() - 1]));
        assert(trimmed(spaced[spaced.len() - 1]) == labels[labels.len() - 1]);
    }
    assert(labels_in(spaced) =~= labels);
}

/// Labels as a list of parts, each but the first with a blank before it.
spec fn spaced_labels(labels: Seq<Seq<char>>) -> Seq<Seq<char>> {
    Seq::new(
        labels.len(),
        |i: int|
            if i == 0 {
                labels[0]
            } else {
                seq![' '] + labels[i]
            },
    )
}

proof fn lemma_join_spaced(labels: Seq<Seq<char>>)
    ensures
        join(labels, seq![',', ' ']) == join(spaced_labels(labels), seq![',']),
    decreases labels.len(),
{
    let spaced = spaced_labels(labels);
    if labels.len() > 1 {
        lemma_join_spaced(labels.drop_last());
        assert(spaced_labels(labels.drop_last()) =~= spaced.drop_last());
        let before = join(labels.drop_last(), seq![',', ' ']);
        assert(before + seq![',', ' '] + labels.last() =~= before + seq![','] + spaced.last());
    } else if labels.len() == 1 {
        assert(spaced =~= labels);
    } else {
        assert(spaced =~= labels);
    }
}

/// Labels written with commas between them are read as the same labels.
pub proof fn law_labels_round_trip(labels: Seq<Seq<char>>)
    requires
        labels.len() > 0,
        forall|i: int| 0 <= i < labels.len() ==> is_label(#[trigger] labels[i]),
    ensures
        labels_in(split(join(labels, ", "@), ',')) == labels,
{
    reveal_strlit(", ");
    assert(", "@ =~= seq![',', ' ']);
    let spaced = spaced_labels(labels);
    lemma_join_spaced(labels);
    assert forall|i: int| 0 <= i < spaced.len() implies !(#[trigger] spaced[i]).contains(',') by {
        assert(is_label(labels[i]));
        if spaced[i].contains(',') {
            let k = choose|k: int| 0 <= k < spaced[i].len() && spaced[i][k] == ',';
            if i > 0 {
                assert(labels[i][k - 1] == ',');
            }
            assert(labels[i].contains(','));
        }
    }
    assert forall|i: int| 0 <= i < spaced.len() implies trimmed(#[trigger] spaced[i])
        == labels[i] by {
        assert(is_label(labels[i]));
        lemma_trimmed_fixed(labels[i], CharClass::Whitespace);
        if i > 0 {
            assert(spaced[i].drop_first() =~= labels[i]);
            assert(spaced[i][0] == ' ');
        }
    }
    law_split_join(spaced, ',');
    lemma_labels_in_spaced(labels, spaced);
}

/// What the typing of keys does to the text of one line.
pub open spec fn line_after(f: FieldView, key: KeyEvent) -> FieldView {
    match key.typed_spec() {
        Some(c) => f.inserted(c),
        None => match key.code {
            KeyCode::Backspace => f.backspaced(),
            KeyCode::Delete => f.deleted(),
            KeyCode::Left => f.left(),
            KeyCode::Right => f.right(),
            KeyCode::Home => f.at_home(),
            KeyCode::End => f.at_end(),
            _ => f,
        },
    }
}

/// What the typing of keys does to a text.
pub open spec fn text_after(f: FieldView, key: KeyEvent) -> FieldView {
    match key.code {
        KeyCode::Up => f.line_up(),
        KeyCode::Down => f.line_down(),
        KeyCode::PageUp => f.page_up(),
        KeyCode::PageDown => f.page_down(),
        _ => line_after(f, key),
    }
}

/// Types a key into a text of one line.
pub fn handle_single_line_input(field: &mut EditableField, key: KeyEvent)
    requires
        old(field)@.in_bounds(),
    ensures
        final(field)@ == line_after(old(field)@, key),
{
    match key.typed() {
        Some(c) => field.insert_char(c),
        None => match key.code {
            KeyCode::Backspace => field.backspace(),
            KeyCode::Delete => field.delete(),
            KeyCode::Left => field.move_left(),
            KeyCode::Right => field.move_right(),
            KeyCode::Home => field.home(),
            KeyCode::End => field.end(),
            _ => {},
        },
    }
}

/// Types a key into a text.
fn handle_text_input(field: &mut EditableField, key: KeyEvent)
    requires
        old(field)@.in_bounds(),
    ensures
        final(field)@ == text_after(old(field)@, key),
{
    match key.code {
        KeyCode::Up => field.move_line_up(),
        KeyCode::Down => field.move_line_down(),
        KeyCode::PageUp => field.move_page_up(),
        KeyCode::PageDown => field.move_page_down(),
        _ => handle_single_line_input(field, key),
    }
}

/// A text of one line, with the cursor behind it.
pub open spec fn line_field(label: Seq<char>, value: Seq<char>) -> FieldView {
    FieldView {
        label,
        value,
        cursor: value.len() as int,
        scroll_top: 0,
        viewport_height: 1,
        multiline: false,
    }
}

/// A text of several lines, with the cursor behind it.
pub open spec fn lines_field(label: Seq<char>, value: Seq<char>) -> FieldView {
    FieldView { multiline: true, ..line_field(label, value) }
}

/// The views of several fields.
pub open spec fn field_views(v: Seq<EditableField>) -> Seq<FieldView> {
    v.map_values(|f: EditableField| f@)
}

/// How many fields the form of a task has.
pub const TASK_FIELD_COUNT: usize = 6;

/// What a form answers a key with.
#[derive(Debug, Clone, Copy, PartialEq, Eq, Structural)]
pub enum EditAction {
    Stay,
    Save,
    Cancel,
}

/// The form of a task as mathematics sees it.
pub struct EditFormView {
    pub fields: Seq<FieldView>,
    pub active: int,
    pub new_task: Option<TaskView>,
}

/// The form of a task: its texts, the one that is typed into, and the task
/// where it is a new one.
#[derive(Debug)]
pub struct EditForm {
    pub fields: Vec<EditableField>,
    pub active: usize,
    pub new_task: Option<Task>,
}

/// A new task as mathematics sees it.
pub open spec fn task_opt(v: Option<Task>) -> Option<TaskView> {
    match v {
        Some(task) => Some(task@),
        None => None,
    }
}

impl View for EditForm {
    type V = EditFormView;

    open spec fn view(&self) -> EditFormView {
        EditFormView {
            fields: field_views(self.fields@),
            active: self.active as int,
            new_task: task_opt(self.new_task),
        }
    }
}

/// An optional text; empty where there is none.
pub open spec fn text_or_empty(v: Option<Seq<char>>) -> Seq<char> {
    match v {
        Some(text) => text,
        None => Seq::empty(),
    }
}

/// The texts of a task's form.
pub open spec fn task_fields(task: TaskView) -> Seq<FieldView> {
    seq![
        line_field("Title"@, task.title),
        lines_field("Content"@, task.content),
        line_field("Labels"@, join(task.labels, ", "@)),
        line_field("Branch"@, text_or_empty(task.branch)),
        line_field("Completed at"@, text_or_empty(task.completed_at)),
        line_field("Due at"@, text_or_empty(task.due_at)),
    ]
}

impl EditFormView {
    /// Whether the form has the texts of a task, one of them to type into, and
    /// every cursor within its text.
    pub open spec fn wf(self) -> bool {
        &&& self.fields.len() == TASK_FIELD_COUNT
        &&& 0 <= self.active < self.fields.len()
        &&& forall|i: int| 0 <= i < self.fields.len() ==> (#[trigger] self.fields[i]).in_bounds()
    }

    /// The next text is typed into.
    pub open spec fn next(self) -> EditFormView {
        EditFormView { active: (self.active + 1) % self.fields.len() as int, ..self }
    }

    /// The previous text is typed into.
    pub open spec fn previous(self) -> EditFormView {
        EditFormView {
            active: if self.active == 0 {
                self.fields.len() - 1
            } else {
                self.active - 1
            },
            ..self
        }
    }

    /// The text that is typed into is another.
    pub open spec fn with_active(self, field: FieldView) -> EditFormView {
        EditFormView { fields: self.fields.update(self.active, field), ..self }
    }

    /// The form after a key, and its answer.
    pub open spec fn after_key(self, key: KeyEvent) -> (EditFormView, EditAction) {
        let field = self.fields[self.active];
        match key.code {
            KeyCode::Esc => (self, EditAction::Cancel),
            KeyCode::Tab => (self.next(), EditAction::Stay),
            KeyCode::BackTab => (self.previous(), EditAction::Stay),
            KeyCode::Enter => if field.multiline {
                (self.with_active(field.inserted('\n')), EditAction::Stay)
            } else {
                (self.next(), EditAction::Stay)
            },
            _ => if key.saves_spec() {
                (self, EditAction::Save)
            } else {
                (self.with_active(text_after(field, key)), EditAction::Stay)
            },
        }
    }

    /// The change that the form asks for: no title, a text that states no
    /// instant where one should, or the change.
    pub open spec fn update(self) -> Result<TaskUpdateView, TodoErrorView> {
        let completed_at = nullable_datetime(self.fields[4].value);
        let due_at = nullable_datetime(self.fields[5].value);
        if trimmed(self.fields[0].value).len() == 0 {
            Err(TodoErrorView::EmptyTitle)
        } else if completed_at is Err {
            Err(TodoErrorView::InvalidDateTime { field: "completed_at"@ })
        } else if due_at is Err {
            Err(TodoErrorView::InvalidDateTime { field: "due_at"@ })
        } else {
            Ok(
                TaskUpdateView {
                    title: trimmed(self.fields[0].value),
                    content: self.fields[1].value,
                    labels: labels_in(split(self.fields[2].value, ',')),
                    branch: nullable_text(self.fields[3].value),
                    completed_at: completed_at->Ok_0,
                    due_at: due_at->Ok_0,
                },
            )
        }
    }
}

fn text_or_blank(v: &Option<String>) -> (r: String)
    ensures
        r@ == text_or_empty(crate::text::text_opt(*v)),
{
    match v {
        Some(text) => text.clone(),
        None => {
            let none = String::new();
            assert(none@ =~= Seq::empty());
            none
        },
    }
}

proof fn lemma_form_after_key(form: EditFormView, key: KeyEvent)
    requires
        form.wf(),
    ensures
        form.after_key(key).0.wf(),
        form.after_key(key).0.new_task == form.new_task,
{
    let field = form.fields[form.active];
    let c = key.typed_spec();
    law_cursor_stays_in_bounds(field, '\n');
    if c is Some {
        law_cursor_stays_in_bounds(field, c->0);
    }
    let after = form.after_key(key).0;
    assert forall|i: int| 0 <= i < after.fields.len() implies (
    #[trigger] after.fields[i]).in_bounds() by {
        assert(form.fields[i].in_bounds());
    }
}

/// Keys leave a form sound, and what makes a task new.
pub proof fn law_form_stays_sound(form: EditFormView, key: KeyEvent)
    requires
        form.wf(),
    ensures
        form.after_key(key).0.wf(),
        form.after_key(key).0.new_task == form.new_task,
{
    lemma_form_after_key(form, key);
}

/// The next text and then the previous one is the same, and as many texts on
/// as there are is the same too.
pub proof fn law_tab_round_trip(form: EditFormView)
    requires
        form.wf(),
    ensures
        form.next().previous() == form,
        form.previous().next() == form,
        form.next().next().next().next().next().next() == form,
{
    let a = form.next();
    let b = a.next();
    let c = b.next();
    let d = c.next();
    let e = d.next();
    assert(forall|i: int| 0 <= i < 6 ==> #[trigger] ((i + 1) % 6) == (if i == 5 {
        0
    } else {
        i + 1
    }));
    assert(e.next().active == (e.active + 1) % 6);
    assert(e.next().active == form.active);
}

impl EditForm {
    /// The form of a task.
    pub fn from_task(task: &Task) -> (r: Self)
        ensures
            r@ == (EditFormView { fields: task_fields(task@), active: 0, new_task: None }),
            r@.wf(),
    {
        let mut fields: Vec<EditableField> = Vec::new();
        fields.push(EditableField::single_line("Title", task.title.clone()));
        fields.push(EditableField::multi_line("Content", task.content.clone()));
        fields.push(
            EditableField::single_line("Labels", join_texts(task.labels.as_slice(), ", ")),
        );
        fields.push(EditableField::single_line("Branch", text_or_blank(&task.branch)));
        fields.push(EditableField::single_line("Completed at", text_or_blank(&task.completed_at)));
        fields.push(EditableField::single_line("Due at", text_or_blank(&task.due_at)));
        assert(field_views(fields@) =~= task_fields(task@));
        EditForm { fields, active: 0, new_task: None }
    }

    /// The form of a task that is new.
    pub fn from_new_task(task: &Task) -> (r: Self)
        ensures
            r@ == (EditFormView {
                fields: task_fields(task@),
                active: 0,
                new_task: Some(task@),
            }),
            r@.wf(),
    {
        let mut form = EditForm::from_task(task);
        form.new_task = Some(task.clone());
        form
    }

    /// Types a key into the form.
    pub fn handle_key(&mut self, key: KeyEvent) -> (r: EditAction)
        requires
            old(self)@.wf(),
        ensures
            (final(self)@, r) == old(self)@.after_key(key),
            final(self)@.wf(),
            final(self)@.new_task == old(self)@.new_task,
    {
        let ghost before = self@;
        let i: usize = self.active;
        let count: usize = self.fields.len();
        assert(before.fields[i as int] == self.fields@[i as int]@);
        assert(before.fields[i as int].in_bounds());
        proof {
            lemma_form_after_key(before, key);
        }
        match key.code {
            KeyCode::Esc => EditAction::Cancel,
            KeyCode::Tab => {
                self.active = (i + 1) % count;
                EditAction::Stay
            },
            KeyCode::BackTab => {
                self.active = if i == 0 {
                    count - 1
                } else {
                    i - 1
                };
                EditAction::Stay
            },
            KeyCode::Enter => {
                if self.fields[i].multiline {
                    self.fields[i].insert_char('\n');
                    assert(self@.fields =~= before.with_active(
                        before.fields[i as int].inserted('\n'),
                    ).fields);
                } else {
                    self.active = (i + 1) % count;
                }
                EditAction::Stay
            },
            _ => {
                if key.saves() {
                    EditAction::Save
                } else {
                    handle_text_input(&mut self.fields[i], key);
                    assert(self@.fields =~= before.with_active(
                        text_after(before.fields[i as int], key),
                    ).fields);
                    EditAction::Stay
                }
            },
        }
    }

    /// The change that the form asks for.
    pub fn to_update(&self) -> (r: Result<TaskUpdate, TodoError>)
        requires
            self@.fields.len() == TASK_FIELD_COUNT,
        ensures
            match self@.update() {
                Ok(update) => r matches Ok(u) && u@ == update,
                Err(error) => r matches Err(e) && e@ == error,
            },
    {
        assert(forall|i: int|
            0 <= i < self.fields@.len() ==> self@.fields[i].value == (
            #[trigger] self.fields@[i]).value@);
        let title = trim(self.fields[0].value.as_str());
        if title.as_str().unicode_len() == 0 {
            return Err(TodoError::EmptyTitle);
        }
        let completed_at = match parse_nullable_datetime(
            self.fields[4].value.as_str(),
            "completed_at",
        ) {
            Ok(v) => v,
            Err(e) => return Err(e),
        };
        let due_at = match parse_nullable_datetime(self.fields[5].value.as_str(), "due_at") {
            Ok(v) => v,
            Err(e) => return Err(e),
        };
        Ok(
            TaskUpdate {
                title,
                content: self.fields[1].value.clone(),
                labels: parse_labels(self.fields[2].value.as_str()),
                branch: parse_nullable_text(self.fields[3].value.as_str()),
                completed_at,
                due_at,
            },
        )
    }
}

/// Whether a task is one that its form can state: a trimmed title, labels that
/// can be listed, a trimmed branch, and instants in their normal form.
pub open spec fn is_formable(task: TaskView) -> bool {
    &&& task.title.len() > 0 && is_trimmed(task.title)
    &&& forall|i: int| 0 <= i < task.labels.len() ==> is_label(#[trigger] task.labels[i])
    &&& nullable_text(text_or_empty(task.branch)) == task.branch
    &&& nullable_datetime(text_or_empty(task.completed_at)) == Ok::<_, ()>(task.completed_at)
    &&& nullable_datetime(text_or_empty(task.due_at)) == Ok::<_, ()>(task.due_at)
}

/// Saving the form of a task unchanged leaves the task as it was.
pub proof fn law_untouched_form_changes_nothing(task: TaskView)
    requires
        is_formable(task),
    ensures
        (EditFormView { fields: task_fields(task), active: 0, new_task: None }).update() == Ok::<
            _,
            TodoErrorView,
        >(
            TaskUpdateView {
                title: task.title,
                content: task.content,
                labels: task.labels,
                branch: task.branch,
                completed_at: task.completed_at,
                due_at: task.due_at,
            },
        ),
{
    lemma_trimmed_fixed(task.title, CharClass::Whitespace);
    if task.labels.len() > 0 {
        law_labels_round_trip(task.labels);
    } else {
        let none = join(task.labels, ", "@);
        assert(none =~= Seq::empty());
        lemma_split(none, ',');
        assert(split(none, ',') =~= seq![Seq::<char>::empty()]);
        reveal_with_fuel(labels_in, 2);
        assert(seq![Seq::<char>::empty()].drop_last() =~= Seq::empty());
        assert(labels_in(split(none, ',')) =~= task.labels);
    }
}

/// The change that a form asks for is what its texts say: the title without
/// blanks around it, the content as it was typed, the labels between commas, a
/// branch unless that is blank, and the instants that are stated.
pub proof fn law_update_is_what_was_typed(form: EditFormView)
    requires
        form.fields.len() == TASK_FIELD_COUNT,
        form.update() is Ok,
    ensures
        ({
            let update = form.update()->Ok_0;
            &&& trimmed(form.fields[0].value).len() > 0
            &&& update.title == trimmed(form.fields[0].value)
            &&& update.content == form.fields[1].value
            &&& lists(update.labels, form.fields[2].value)
            &&& update.branch == if trimmed(form.fields[3].value).len() == 0 {
                None
            } else {
                Some(trimmed(form.fields[3].value))
            }
            &&& states(update.completed_at, form.fields[4].value)
            &&& states(update.due_at, form.fields[5].value)
        }),
{
    let parts = split(form.fields[2].value, ',');
    assert forall|label: Seq<char>| #[trigger]
        form.update()->Ok_0.labels.contains(label) <==> label.len() > 0 && exists|i: int|
            0 <= i < parts.len() && trimmed(#[trigger] parts[i]) == label by {
        law_labels_are_the_parts(parts, label);
    }
}

/// Whether labels are what stands between the commas of a text, blanks aside.
pub open spec fn lists(labels: Seq<Seq<char>>, typed: Seq<char>) -> bool {
    forall|label: Seq<char>| #[trigger]
        labels.contains(label) <==> label.len() > 0 && exists|i: int|
            0 <= i < split(typed, ',').len() && trimmed(#[trigger] split(typed, ',')[i]) == label
}

/// Whether a text that should be blank or state an instant is kept as nothing,
/// or as that instant.
pub open spec fn states(kept: Option<Seq<char>>, typed: Seq<char>) -> bool {
    match kept {
        None => trimmed(typed).len() == 0,
        Some(text) => trimmed(typed).len() > 0 && (rfc3339(trimmed(typed)) matches Some(instant)
            && text == rfc3339_of(
            instant.secs as int,
            instant.nanos as int,
            instant.offset as int,
        )),
    }
}

/// A form is refused just where it has no title, or a text that is neither
/// blank nor states an instant where one should.
pub proof fn law_form_is_refused(form: EditFormView)
    requires
        form.fields.len() == TASK_FIELD_COUNT,
    ensures
        ({
            let bad = |i: int|
                trimmed(form.fields[i].value).len() > 0 && rfc3339(trimmed(form.fields[i].value))
                    is None;
            form.update() is Err <==> trimmed(form.fields[0].value).len() == 0 || bad(4) || bad(5)
        }),
{
}

/// The form of a task shows the task, each text under its label.
pub proof fn law_form_shows_the_task(task: TaskView)
    ensures
        task_fields(task).len() == TASK_FIELD_COUNT,
        task_fields(task)[0].label == "Title"@ && task_fields(task)[0].value == task.title,
        task_fields(task)[1].label == "Content"@ && task_fields(task)[1].value == task.content,
        task_fields(task)[1].multiline,
        task_fields(task)[2].label == "Labels"@,
        task.labels.len() == 1 ==> task_fields(task)[2].value == task.labels[0],
        task_fields(task)[3].label == "Branch"@,
        task.branch matches Some(text) ==> task_fields(task)[3].value == text,
        task_fields(task)[4].label == "Completed at"@,
        task.completed_at matches Some(text) ==> task_fields(task)[4].value == text,
        task_fields(task)[5].label == "Due at"@,
        task.due_at matches Some(text) ==> task_fields(task)[5].value == text,
        task.branch is None ==> task_fields(task)[3].value.len() == 0,
        task.completed_at is None ==> task_fields(task)[4].value.len() == 0,
        task.due_at is None ==> task_fields(task)[5].value.len() == 0,
        forall|i: int|
            0 <= i < TASK_FIELD_COUNT ==> (#[trigger] task_fields(task)[i]).cursor == task_fields(
                task,
            )[i].value.len(),
{
}

/// What the chat bar answers a key with.
#[derive(Debug, PartialEq, Eq)]
pub enum ChatAction {
    Stay,
    Submit(String),
    Cancel,
}

/// What the chat bar answers a key with, as mathematics sees it.
pub enum ChatActionView {
    Stay,
    Submit(Seq<char>),
    Cancel,
}

impl View for ChatAction {
    type V = ChatActionView;

    open spec fn view(&self) -> ChatActionView {
        match self {
            ChatAction::Stay => ChatActionView::Stay,
            ChatAction::Submit(text) => ChatActionView::Submit(text@),
            ChatAction::Cancel => ChatActionView::Cancel,
        }
    }
}

/// The chat bar as mathematics sees it.
pub struct ChatFormView {
    pub input: FieldView,
    pub pending: bool,
}

/// The chat bar: a prompt, and whether its answer is awaited.
#[derive(Debug)]
pub struct ChatForm {
    pub input: EditableField,
    pub pending: bool,
}

impl View for ChatForm {
    type V = ChatFormView;

    open spec fn view(&self) -> ChatFormView {
        ChatFormView { input: self.input@, pending: self.pending }
    }
}

impl ChatFormView {
    pub open spec fn initial() -> ChatFormView {
        ChatFormView { input: line_field("Prompt"@, Seq::empty()), pending: false }
    }

    pub open spec fn wf(self) -> bool {
        self.input.in_bounds()
    }

    /// The chat bar after a key, and its answer. While an answer is awaited it
    /// can only be cancelled.
    pub open spec fn after_key(self, key: KeyEvent) -> (ChatFormView, ChatActionView) {
        if key.code == KeyCode::Esc {
            (self, ChatActionView::Cancel)
        } else if self.pending {
            (self, ChatActionView::Stay)
        } else if key.code == KeyCode::Enter {
            (self, ChatActionView::Submit(self.input.value))
        } else {
            (ChatFormView { input: line_after(self.input, key), ..self }, ChatActionView::Stay)
        }
    }
}

pub proof fn lemma_line_after(f: FieldView, key: KeyEvent)
    requires
        f.in_bounds(),
    ensures
        line_after(f, key).in_bounds(),
{
    law_cursor_stays_in_bounds(f, '\n');
    if key.typed_spec() is Some {
        law_cursor_stays_in_bounds(f, key.typed_spec()->0);
    }
}

impl ChatForm {
    /// An empty chat bar.
    pub fn new() -> (r: Self)
        ensures
            r@ == ChatFormView::initial(),
            r@.wf(),
    {
        let none = String::new();
        assert(none@ =~= Seq::empty());
        ChatForm { input: EditableField::single_line("Prompt", none), pending: false }
    }

    /// Types a key into the chat bar.
    pub fn handle_key(&mut self, key: KeyEvent) -> (r: ChatAction)
        requires
            old(self)@.wf(),
        ensures
            (final(self)@, r@) == old(self)@.after_key(key),
            final(self)@.wf(),
    {
        proof {
            lemma_line_after(self@.input, key);
        }
        if key.code == KeyCode::Esc {
            return ChatAction::Cancel;
        }
        if self.pending {
            return ChatAction::Stay;
        }
        if key.code == KeyCode::Enter {
            return ChatAction::Submit(self.input.value.clone());
        }
        handle_single_line_input(&mut self.input, key);
        ChatAction::Stay
    }
}

/// What the form of a setting answers a key with.
#[derive(Debug, Clone, Copy, PartialEq, Eq, Structural)]
pub enum SettingTextAction {
    Stay,
    Save,
    Cancel,
}

/// The form of a setting as mathematics sees it.
pub struct SettingTextFormView {
    pub field: SettingsField,
    pub input: FieldView,
}

/// The form of a setting that is a text.
#[derive(Debug)]
pub struct SettingTextForm {
    pub field: SettingsField,
    pub input: EditableField,
}

impl View for SettingTextForm {
    type V = SettingTextFormView;

    open spec fn view(&self) -> SettingTextFormView {
        SettingTextFormView { field: self.field, input: self.input@ }
    }
}

impl SettingTextFormView {
    /// The form at first.
    pub open spec fn initial(field: SettingsField, value: Seq<char>) -> SettingTextFormView {
        SettingTextFormView { field, input: line_field(field.label_spec(), value) }
    }

    pub open spec fn wf(self) -> bool {
        self.input.in_bounds()
    }

    /// The form after a key, and its answer.
    pub open spec fn after_key(self, key: KeyEvent) -> (SettingTextFormView, SettingTextAction) {
        if key.code == KeyCode::Esc {
            (self, SettingTextAction::Cancel)
        } else if key.code == KeyCode::Enter || key.saves_spec() {
            (self, SettingTextAction::Save)
        } else {
            (
                SettingTextFormView { input: line_after(self.input, key), ..self },
                SettingTextAction::Stay,
            )
        }
    }
}

impl SettingTextForm {
    /// The form of a setting with its present value.
    pub fn new(field: SettingsField, value: String) -> (r: Self)
        ensures
            r@ == SettingTextFormView::initial(field, value@),
            r@.wf(),
    {
        SettingTextForm { field, input: EditableField::single_line(field.label(), value) }
    }

    /// Types a key into the form.
    pub fn handle_key(&mut self, key: KeyEvent) -> (r: SettingTextAction)
        requires
            old(self)@.wf(),
        ensures
            (final(self)@, r) == old(self)@.after_key(key),
            final(self)@.wf(),
    {
        proof {
            lemma_line_after(self@.input, key);
        }
        if key.code == KeyCode::Esc {
            return SettingTextAction::Cancel;
        }
        if key.code == KeyCode::Enter || key.saves() {
            return SettingTextAction::Save;
        }
        handle_single_line_input(&mut self.input, key);
        SettingTextAction::Stay
    }

    /// The new value, which must not be blank.
    pub fn value(&self) -> (r: Result<String, TodoError>)
        ensures
            match nullable_text(self@.input.value) {
                Some(text) => r matches Ok(value) && value@ == text,
                None => r matches Err(e) && e@ == TodoErrorView::EmptySetting,
            },
    {
        let value = trim(self.input.value.as_str());
        if value.as_str().unicode_len() == 0 {
            Err(TodoError::EmptySetting)
        } else {
            Ok(value)
        }
    }
}

/// Keys change a text where the cursor stands, and nowhere else: a character
/// goes in before the cursor, and one goes out before or behind it. Moves leave the
/// text as it is, and a character that is held with control types nothing.
pub proof fn law_keys_change_the_text_at_the_cursor(f: FieldView, key: KeyEvent)
    requires
        f.in_bounds(),
    ensures
        ({
            let after = line_after(f, key);
            let before = f.value.take(f.cursor);
            let behind = f.value.skip(f.cursor);
            &&& key.code matches KeyCode::Char(c) ==> c != '\n' && (key.modifiers
                == KeyModifiers::Plain || key.modifiers == KeyModifiers::Shift) ==> after.value
                == before.push(c) + behind && after.cursor == f.cursor + 1
            &&& key.code is Char && key.modifiers == KeyModifiers::Control ==> after == f
            &&& key.code == KeyCode::Backspace && f.cursor > 0 ==> after.value
                == before.drop_last() + behind && after.cursor == f.cursor - 1
            &&& key.code == KeyCode::Delete && f.cursor < f.value.len() ==> after.value == before
                + behind.drop_first() && after.cursor == f.cursor
            &&& key.code == KeyCode::Left && f.cursor > 0 ==> after.value == f.value
                && after.cursor == f.cursor - 1
            &&& key.code == KeyCode::Right && f.cursor < f.value.len() ==> after.value == f.value
                && after.cursor == f.cursor + 1
            &&& !(key.code is Char) && key.code != KeyCode::Backspace && key.code
                != KeyCode::Delete ==> after.value == f.value
        }),
{
    let after = line_after(f, key);
    let before = f.value.take(f.cursor);
    let behind = f.value.skip(f.cursor);
    if let KeyCode::Char(c) = key.code {
        if c != '\n' && key.typed_spec() is Some {
            assert(after.value =~= before.push(c) + behind);
        }
    }
    if key.code == KeyCode::Backspace && f.cursor > 0 {
        assert(after.value =~= before.drop_last() + behind);
    }
    if key.code == KeyCode::Delete && f.cursor < f.value.len() {
        assert(after.value =~= before + behind.drop_first());
    }
}

/// A key in the form of a task reaches the text that is typed into and no other.
/// A line ends in the content alone; elsewhere the next text comes. Only what
/// cancels and what saves leaves the form, and neither changes it.
pub proof fn law_keys_reach_one_text(form: EditFormView, key: KeyEvent)
    requires
        form.wf(),
    ensures
        ({
            let (after, action) = form.after_key(key);
            let text = form.fields[form.active];
            &&& after.fields.len() == form.fields.len()
            &&& forall|i: int|
                0 <= i < form.fields.len() && i != form.active ==> #[trigger] after.fields[i]
                    == form.fields[i]
            &&& action == EditAction::Cancel <==> key.code == KeyCode::Esc
            &&& action == EditAction::Save <==> key.code == KeyCode::F(2) || (key.code
                == KeyCode::Char('s') && key.modifiers == KeyModifiers::Control)
            &&& action != EditAction::Stay ==> after == form
            &&& key.code == KeyCode::Enter && text.multiline ==> after.active == form.active
                && after.fields[form.active].value == text.value.take(text.cursor).push('\n')
                + text.value.skip(text.cursor)
            &&& key.code == KeyCode::Tab || (key.code == KeyCode::Enter && !text.multiline)
                ==> after.fields == form.fields && after.active == (if form.active
                == form.fields.len() - 1 {
                0
            } else {
                form.active + 1
            })
            &&& key.code == KeyCode::BackTab ==> after.fields == form.fields && after.active == (
            if form.active == 0 {
                form.fields.len() - 1
            } else {
                form.active - 1
            })
            &&& key.code is Char && action == EditAction::Stay ==> after.active == form.active
                && after.fields[form.active] == line_after(text, key)
        }),
{
    let text = form.fields[form.active];
    assert(text.in_bounds());
    let after = form.after_key(key).0;
    if key.code == KeyCode::Enter && text.multiline {
        assert(after.fields[form.active].value =~= text.value.take(text.cursor).push('\n')
            + text.value.skip(text.cursor));
    }
    let n = form.fields.len() as int;
    assert((form.active + 1) % n == (if form.active == n - 1 {
        0
    } else {
        form.active + 1
    }));
}

/// The chat bar hands out what was typed into it, and while an answer is awaited
/// nothing but to cancel it.
pub proof fn law_chat_bar_keys(form: ChatFormView, key: KeyEvent)
    ensures
        key.code == KeyCode::Esc ==> form.after_key(key).1 is Cancel,
        key.code != KeyCode::Esc && form.pending ==> form.after_key(key) == (
            form,
            ChatActionView::Stay,
        ),
        key.code == KeyCode::Enter && !form.pending ==> form.after_key(key).1
            == ChatActionView::Submit(form.input.value),
        key.code != KeyCode::Esc && key.code != KeyCode::Enter && !form.pending ==> form.after_key(
            key,
        ).0.input == line_after(form.input, key) && form.after_key(key).1 is Stay,
        form.after_key(key).0.pending == form.pending,
{
}

} // verus!
