//! What can go wrong, and what is said of it.
use vstd::prelude::*;

use crate::llm::lemma_has_middle;
use crate::text::{concat_text, contains_text, has_part};

verus! {

/// The variable of the environment that holds the key of the model's service.
pub const LLM_API_KEY_ENV: &'static str = "TODUI_LLM_API_KEY";

/// What went wrong, as mathematics sees it.
pub enum TodoErrorView {
    EmptyTitle,
    InvalidDateTime { field: Seq<char> },
    NoTaskSelected,
    NoProjectSelected,
    EmptyPrompt,
    EmptySetting,
    InvalidBaseUrl { base_url: Seq<char> },
    UnsupportedScheme,
    ApiKeyNotSet,
    ApiKeyEmpty,
    EmptyDraftTitle,
    EmptyDraftContent,
    InvalidResponse,
    MissingTodoJson,
    InvalidCodexEvent,
    NoFinalMessage,
    EmptyCodexStream,
    CodexFailed { command: Seq<char>, stderr: Seq<char> },
    ApiStatus { status: Seq<char>, body: Seq<char> },
}

/// What went wrong.
#[derive(Debug, PartialEq, Eq)]
pub enum TodoError {
    EmptyTitle,
    InvalidDateTime { field: String },
    NoTaskSelected,
    NoProjectSelected,
    EmptyPrompt,
    EmptySetting,
    InvalidBaseUrl { base_url: String },
    UnsupportedScheme,
    ApiKeyNotSet,
    ApiKeyEmpty,
    EmptyDraftTitle,
    EmptyDraftContent,
    InvalidResponse,
    MissingTodoJson,
    InvalidCodexEvent,
    NoFinalMessage,
    EmptyCodexStream,
    CodexFailed { command: String, stderr: String },
    ApiStatus { status: String, body: String },
}

impl View for TodoError {
    type V = TodoErrorView;

    open spec fn view(&self) -> TodoErrorView {
        match self {
            TodoError::EmptyTitle => TodoErrorView::EmptyTitle,
            TodoError::InvalidDateTime { field } => TodoErrorView::InvalidDateTime {
                field: field@,
            },
            TodoError::NoTaskSelected => TodoErrorView::NoTaskSelected,
            TodoError::NoProjectSelected => TodoErrorView::NoProjectSelected,
            TodoError::EmptyPrompt => TodoErrorView::EmptyPrompt,
            TodoError::EmptySetting => TodoErrorView::EmptySetting,
            TodoError::InvalidBaseUrl { base_url } => TodoErrorView::InvalidBaseUrl {
                base_url: base_url@,
            },
            TodoError::UnsupportedScheme => TodoErrorView::UnsupportedScheme,
            TodoError::ApiKeyNotSet => TodoErrorView::ApiKeyNotSet,
            TodoError::ApiKeyEmpty => TodoErrorView::ApiKeyEmpty,
            TodoError::EmptyDraftTitle => TodoErrorView::EmptyDraftTitle,
            TodoError::EmptyDraftContent => TodoErrorView::EmptyDraftContent,
            TodoError::InvalidResponse => TodoErrorView::InvalidResponse,
            TodoError::MissingTodoJson => TodoErrorView::MissingTodoJson,
            TodoError::InvalidCodexEvent => TodoErrorView::InvalidCodexEvent,
            TodoError::NoFinalMessage => TodoErrorView::NoFinalMessage,
            TodoError::EmptyCodexStream => TodoErrorView::EmptyCodexStream,
            TodoError::CodexFailed { command, stderr } => TodoErrorView::CodexFailed {
                command: command@,
                stderr: stderr@,
            },
            TodoError::ApiStatus { status, body } => TodoErrorView::ApiStatus {
                status: status@,
                body: body@,
            },
        }
    }
}

impl TodoErrorView {
    /// What is said of the error.
    pub open spec fn message(self) -> Seq<char> {
        match self {
            TodoErrorView::EmptyTitle => "title cannot be empty"@,
            TodoErrorView::InvalidDateTime { field } => field
                + " must be an RFC3339 datetime or empty"@,
            TodoErrorView::NoTaskSelected => "no task selected"@,
            TodoErrorView::NoProjectSelected => "no project selected"@,
            TodoErrorView::EmptyPrompt => "empty prompt"@,
            TodoErrorView::EmptySetting => "setting cannot be empty"@,
            TodoErrorView::InvalidBaseUrl { base_url } => "invalid llm base url "@ + base_url,
            TodoErrorView::UnsupportedScheme => "llm base url must use http or https"@,
            TodoErrorView::ApiKeyNotSet => LLM_API_KEY_ENV@ + " is not set"@,
            TodoErrorView::ApiKeyEmpty => LLM_API_KEY_ENV@ + " is empty"@,
            TodoErrorView::EmptyDraftTitle => "draft title cannot be empty"@,
            TodoErrorView::EmptyDraftContent => "draft content cannot be empty"@,
            TodoErrorView::InvalidResponse => "parse llm response"@,
            TodoErrorView::MissingTodoJson => "llm response missing todo json"@,
            TodoErrorView::InvalidCodexEvent => "parse codex json event"@,
            TodoErrorView::NoFinalMessage => "codex final message missing"@,
            TodoErrorView::EmptyCodexStream => "codex exec returned empty json stream"@,
            TodoErrorView::CodexFailed { command, stderr } => "codex exec failed\ncommand: codex "@
                + command + "\nstderr:\n"@ + stderr,
            TodoErrorView::ApiStatus { status, body } => "llm api returned "@ + status + ": "@
                + body,
        }
    }
}

impl TodoError {
    /// What is said of the error.
    pub fn message(&self) -> (r: String)
        ensures
            r@ == self@.message(),
    {
        match self {
            TodoError::EmptyTitle => "title cannot be empty".to_owned(),
            TodoError::InvalidDateTime { field } => concat_text(
                field.as_str(),
                " must be an RFC3339 datetime or empty",
            ),
            TodoError::NoTaskSelected => "no task selected".to_owned(),
            TodoError::NoProjectSelected => "no project selected".to_owned(),
            TodoError::EmptyPrompt => "empty prompt".to_owned(),
            TodoError::EmptySetting => "setting cannot be empty".to_owned(),
            TodoError::InvalidBaseUrl { base_url } => concat_text(
                "invalid llm base url ",
                base_url.as_str(),
            ),
            TodoError::UnsupportedScheme => "llm base url must use http or https".to_owned(),
            TodoError::ApiKeyNotSet => concat_text(LLM_API_KEY_ENV, " is not set"),
            TodoError::ApiKeyEmpty => concat_text(LLM_API_KEY_ENV, " is empty"),
            TodoError::EmptyDraftTitle => "draft title cannot be empty".to_owned(),
            TodoError::EmptyDraftContent => "draft content cannot be empty".to_owned(),
            TodoError::InvalidResponse => "parse llm response".to_owned(),
            TodoError::MissingTodoJson => "llm response missing todo json".to_owned(),
            TodoError::InvalidCodexEvent => "parse codex json event".to_owned(),
            TodoError::NoFinalMessage => "codex final message missing".to_owned(),
            TodoError::EmptyCodexStream => "codex exec returned empty json stream".to_owned(),
            TodoError::CodexFailed { command, stderr } => {
                let mut text = concat_text("codex exec failed\ncommand: codex ", command.as_str());
                text.append("\nstderr:\n");
                text.append(stderr.as_str());
                text
            },
            TodoError::ApiStatus { status, body } => {
                let mut text = concat_text("llm api returned ", status.as_str());
                text.append(": ");
                text.append(body.as_str());
                text
            },
        }
    }
}

/// The short message for an error, by the first of these parts that is in its text.
pub open spec fn short_message(text: Seq<char>) -> Seq<char> {
    if has_part(text, "title cannot be empty"@) {
        "empty title"@
    } else if has_part(text, "completed_at"@) {
        "invalid completed_at"@
    } else if has_part(text, "due_at"@) {
        "invalid due_at"@
    } else if has_part(text, "no task selected"@) {
        "no task selected"@
    } else if has_part(text, "no project selected"@) {
        "no project selected"@
    } else if has_part(text, "empty prompt"@) {
        "empty prompt"@
    } else if has_part(text, LLM_API_KEY_ENV@) {
        "missing api key"@
    } else if has_part(text, "codex"@) {
        "codex failed; see log"@
    } else if has_part(text, "llm"@) {
        "llm failed"@
    } else if has_part(text, "draft"@) || has_part(text, "todo json"@) {
        "invalid llm json"@
    } else if has_part(text, "watch"@) {
        "watch failed"@
    } else if has_part(text, "parse"@) || has_part(text, "read"@) {
        "reload failed"@
    } else if has_part(text, "write"@) || has_part(text, "serialize"@) {
        "save failed"@
    } else if has_part(text, "delete"@) {
        "delete failed"@
    } else {
        "action failed"@
    }
}

/// The short message for an error.
pub fn short_error_message(text: &str) -> (r: &'static str)
    ensures
        r@ == short_message(text@),
{
    if contains_text(text, "title cannot be empty") {
        "empty title"
    } else if contains_text(text, "completed_at") {
        "invalid completed_at"
    } else if contains_text(text, "due_at") {
        "invalid due_at"
    } else if contains_text(text, "no task selected") {
        "no task selected"
    } else if contains_text(text, "no project selected") {
        "no project selected"
    } else if contains_text(text, "empty prompt") {
        "empty prompt"
    } else if contains_text(text, LLM_API_KEY_ENV) {
        "missing api key"
    } else if contains_text(text, "codex") {
        "codex failed; see log"
    } else if contains_text(text, "llm") {
        "llm failed"
    } else if contains_text(text, "draft") || contains_text(text, "todo json") {
        "invalid llm json"
    } else if contains_text(text, "watch") {
        "watch failed"
    } else if contains_text(text, "parse") || contains_text(text, "read") {
        "reload failed"
    } else if contains_text(text, "write") || contains_text(text, "serialize") {
        "save failed"
    } else if contains_text(text, "delete") {
        "delete failed"
    } else {
        "action failed"
    }
}

/// What is said of an error names what it is about.
pub proof fn law_message_names_the_cause(e: TodoErrorView)
    ensures
        e matches TodoErrorView::InvalidDateTime { field } ==> has_part(e.message(), field),
        e matches TodoErrorView::InvalidBaseUrl { base_url } ==> has_part(e.message(), base_url),
        e matches TodoErrorView::CodexFailed { command, stderr } ==> has_part(
            e.message(),
            command,
        ) && has_part(e.message(), stderr),
        e matches TodoErrorView::ApiStatus { status, body } ==> has_part(e.message(), status)
            && has_part(e.message(), body),
        e is ApiKeyNotSet || e is ApiKeyEmpty ==> has_part(e.message(), LLM_API_KEY_ENV@),
{
    let none = Seq::<char>::empty();
    let text = e.message();
    match e {
        TodoErrorView::InvalidDateTime { field } => {
            lemma_has_middle(none, field, " must be an RFC3339 datetime or empty"@);
            assert(none + field + " must be an RFC3339 datetime or empty"@ =~= text);
        },
        TodoErrorView::InvalidBaseUrl { base_url } => {
            lemma_has_middle("invalid llm base url "@, base_url, none);
            assert("invalid llm base url "@ + base_url + none =~= text);
        },
        TodoErrorView::CodexFailed { command, stderr } => {
            let start = "codex exec failed\ncommand: codex "@;
            lemma_has_middle(start, command, "\nstderr:\n"@ + stderr);
            assert(start + command + ("\nstderr:\n"@ + stderr) =~= text);
            lemma_has_middle(start + command + "\nstderr:\n"@, stderr, none);
            assert(start + command + "\nstderr:\n"@ + stderr + none =~= text);
        },
        TodoErrorView::ApiStatus { status, body } => {
            lemma_has_middle("llm api returned "@, status, ": "@ + body);
            assert("llm api returned "@ + status + (": "@ + body) =~= text);
            lemma_has_middle("llm api returned "@ + status + ": "@, body, none);
            assert("llm api returned "@ + status + ": "@ + body + none =~= text);
        },
        TodoErrorView::ApiKeyNotSet => {
            lemma_has_middle(none, LLM_API_KEY_ENV@, " is not set"@);
            assert(none + LLM_API_KEY_ENV@ + " is not set"@ =~= text);
        },
        TodoErrorView::ApiKeyEmpty => {
            lemma_has_middle(none, LLM_API_KEY_ENV@, " is empty"@);
            assert(none + LLM_API_KEY_ENV@ + " is empty"@ =~= text);
        },
        _ => {},
    }
}

/// What is looked for in the text of an error, in this order, and what is said
/// where it is found.
pub open spec fn known_parts() -> Seq<(Seq<char>, Seq<char>)> {
    seq![
        ("title cannot be empty"@, "empty title"@),
        ("completed_at"@, "invalid completed_at"@),
        ("due_at"@, "invalid due_at"@),
        ("no task selected"@, "no task selected"@),
        ("no project selected"@, "no project selected"@),
        ("empty prompt"@, "empty prompt"@),
        (LLM_API_KEY_ENV@, "missing api key"@),
        ("codex"@, "codex failed; see log"@),
        ("llm"@, "llm failed"@),
        ("draft"@, "invalid llm json"@),
        ("todo json"@, "invalid llm json"@),
        ("watch"@, "watch failed"@),
        ("parse"@, "reload failed"@),
        ("read"@, "reload failed"@),
        ("write"@, "save failed"@),
        ("serialize"@, "save failed"@),
        ("delete"@, "delete failed"@),
    ]
}

/// The first known part of an error decides what is said of it, and an error
/// without any is an action that failed.
pub proof fn law_first_known_part_decides(text: Seq<char>, i: int)
    requires
        0 <= i <= known_parts().len(),
        forall|k: int| 0 <= k < i ==> !has_part(text, (#[trigger] known_parts()[k]).0),
    ensures
        i < known_parts().len() && has_part(text, known_parts()[i].0) ==> short_message(text)
            == known_parts()[i].1,
        i == known_parts().len() ==> short_message(text) == "action failed"@,
{
    let parts = known_parts();
    assert(parts.len() == 17);
    assert(i > 0 ==> !has_part(text, parts[0].0));
    assert(i > 1 ==> !has_part(text, parts[1].0));
    assert(i > 2 ==> !has_part(text, parts[2].0));
    assert(i > 3 ==> !has_part(text, parts[3].0));
    assert(i > 4 ==> !has_part(text, parts[4].0));
    assert(i > 5 ==> !has_part(text, parts[5].0));
    assert(i > 6 ==> !has_part(text, parts[6].0));
    assert(i > 7 ==> !has_part(text, parts[7].0));
    assert(i > 8 ==> !has_part(text, parts[8].0));
    assert(i > 9 ==> !has_part(text, parts[9].0));
    assert(i > 10 ==> !has_part(text, parts[10].0));
    assert(i > 11 ==> !has_part(text, parts[11].0));
    assert(i > 12 ==> !has_part(text, parts[12].0));
    assert(i > 13 ==> !has_part(text, parts[13].0));
    assert(i > 14 ==> !has_part(text, parts[14].0));
    assert(i > 15 ==> !has_part(text, parts[15].0));
    assert(i > 16 ==> !has_part(text, parts[16].0));
}

} // verus!
