//! Drafts of tasks: what is asked of a model, and what is made of its answer.
use vstd::prelude::*;

use crate::content::{
    content_excerpt, excerpt, format_labels, labels_text, law_excerpt_is_a_beginning,
};
use crate::errors::{law_message_names_the_cause, TodoError, TodoErrorView};
use crate::forms::{
    kept_labels, labels_in, law_clean_labels_are_kept, law_labels_are_the_parts,
    law_labels_of_both, nullable_datetime, nullable_text, parse_nullable_datetime,
    parse_nullable_text, states,
};
use crate::model::{stamp, task_views, Project, ProjectView, Task, TaskView};
use crate::settings::{CodexReasoningEffort, LlmBackend};
use crate::text::{
    clone_text_opt, has_part, is_trimmed, join, join_texts, lemma_trimmed_by, lines, lines_of,
    occurs_at, same_text, text_opt, texts, trim, trim_end_by, trimmed, trimmed_end, CharClass,
};
use crate::time::{rfc3339, timestamp, UtcInstant};

verus! {

/// Where the shape of a draft is described.
pub const CHAT_BAR_OUTPUT_SCHEMA_FILE: &'static str = "schemas/chat-bar-todo.schema.json";

/// How long an answer of the service is waited for, in seconds.
pub const LLM_REQUEST_TIMEOUT_SECS: u64 = 60;

/// What every prompt begins with.
pub const CHAT_BAR_JSON_HARNESS: &'static str =
    r#"You are the todui chat bar JSON harness.
Convert the user's call, meeting, or conversation notes into one new todo draft.

Output contract:
- Return only one valid JSON object.
- Do not include Markdown, code fences, comments, explanations, or surrounding text.
- The first non-whitespace character must be `{` and the last non-whitespace character must be `}`.
- Required keys: "title", "content", "labels", "branch", "due_at".
- Do not include "id", "created_at", "updated_at", or "completed_at".
- Use null for "branch" or "due_at" when absent."#;

/// A request for a draft, as mathematics sees it.
pub struct LlmTodoRequestView {
    pub backend: LlmBackend,
    pub base_url: Seq<char>,
    pub model: Seq<char>,
    pub api_key: Option<Seq<char>>,
    pub instructions: Seq<char>,
    pub project: ProjectView,
    pub user_prompt: Seq<char>,
    pub requested_at: Seq<char>,
    pub codex_reasoning_effort: Option<CodexReasoningEffort>,
    pub codex_fast_mode: bool,
}

/// A request for a draft.
#[derive(Debug, PartialEq, Eq)]
pub struct LlmTodoRequest {
    pub backend: LlmBackend,
    pub base_url: String,
    pub model: String,
    pub api_key: Option<String>,
    pub instructions: String,
    pub project: Project,
    pub user_prompt: String,
    pub requested_at: String,
    pub codex_reasoning_effort: Option<CodexReasoningEffort>,
    pub codex_fast_mode: bool,
}

impl View for LlmTodoRequest {
    type V = LlmTodoRequestView;

    open spec fn view(&self) -> LlmTodoRequestView {
        LlmTodoRequestView {
            backend: self.backend,
            base_url: self.base_url@,
            model: self.model@,
            api_key: text_opt(self.api_key),
            instructions: self.instructions@,
            project: self.project@,
            user_prompt: self.user_prompt@,
            requested_at: self.requested_at@,
            codex_reasoning_effort: self.codex_reasoning_effort,
            codex_fast_mode: self.codex_fast_mode,
        }
    }
}

/// A draft as mathematics sees it.
pub struct LlmTodoDraftView {
    pub title: Seq<char>,
    pub content: Seq<char>,
    pub labels: Seq<Seq<char>>,
    pub branch: Option<Seq<char>>,
    pub due_at: Option<Seq<char>>,
}

/// A draft of a task.
#[derive(Debug, PartialEq, Eq)]
pub struct LlmTodoDraft {
    pub title: String,
    pub content: String,
    pub labels: Vec<String>,
    pub branch: Option<String>,
    pub due_at: Option<String>,
}

impl View for LlmTodoDraft {
    type V = LlmTodoDraftView;

    open spec fn view(&self) -> LlmTodoDraftView {
        LlmTodoDraftView {
            title: self.title@,
            content: self.content@,
            labels: texts(self.labels@),
            branch: text_opt(self.branch),
            due_at: text_opt(self.due_at),
        }
    }
}

/// The arguments of `codex`: a passing session that may read only, with the
/// effort and the tier that were chosen, an answer of the right shape as
/// events, and a prompt from standard input.
pub open spec fn codex_args(
    effort: Option<CodexReasoningEffort>,
    fast: bool,
) -> Seq<Seq<char>> {
    seq!["exec"@, "--ephemeral"@, "-s"@, "read-only"@] + (match effort {
        Some(effort) => seq!["-c"@, "model_reasoning_effort="@ + effort.label_spec()],
        None => Seq::empty(),
    }) + (if fast {
        seq!["-c"@, "service_tier=\"fast\""@]
    } else {
        Seq::empty()
    }) + seq!["--output-schema"@, CHAT_BAR_OUTPUT_SCHEMA_FILE@, "--json"@, "-"@]
}

fn push_text(v: &mut Vec<String>, text: String)
    ensures
        texts(final(v)@) == texts(old(v)@).push(text@),
{
    v.push(text);
    assert(texts(v@) =~= texts(old(v)@).push(text@));
}

/// The arguments of `codex`.
pub fn codex_exec_args(request: &LlmTodoRequest) -> (r: Vec<String>)
    ensures
        texts(r@) == codex_args(request@.codex_reasoning_effort, request@.codex_fast_mode),
{
    let mut args: Vec<String> = Vec::new();
    assert(texts(args@) =~= Seq::empty());
    push_text(&mut args, "exec".to_owned());
    push_text(&mut args, "--ephemeral".to_owned());
    push_text(&mut args, "-s".to_owned());
    push_text(&mut args, "read-only".to_owned());
    if let Some(effort) = request.codex_reasoning_effort {
        push_text(&mut args, "-c".to_owned());
        let mut option = "model_reasoning_effort=".to_owned();
        option.append(effort.label());
        push_text(&mut args, option);
    }
    if request.codex_fast_mode {
        push_text(&mut args, "-c".to_owned());
        push_text(&mut args, "service_tier=\"fast\"".to_owned());
    }
    push_text(&mut args, "--output-schema".to_owned());
    push_text(&mut args, CHAT_BAR_OUTPUT_SCHEMA_FILE.to_owned());
    push_text(&mut args, "--json".to_owned());
    push_text(&mut args, "-".to_owned());
    assert(texts(args@) =~= codex_args(request@.codex_reasoning_effort, request@.codex_fast_mode));
    args
}

/// Whatever was chosen, `codex` runs a passing session, may read only, answers
/// in the right shape as events, and takes the prompt from standard input.
pub proof fn law_codex_args(effort: Option<CodexReasoningEffort>, fast: bool)
    ensures
        codex_args(effort, fast).take(4) == seq!["exec"@, "--ephemeral"@, "-s"@, "read-only"@],
        codex_args(effort, fast).skip(codex_args(effort, fast).len() - 4) == seq![
            "--output-schema"@,
            CHAT_BAR_OUTPUT_SCHEMA_FILE@,
            "--json"@,
            "-"@,
        ],
        codex_args(effort, fast).len() == 8 + (if effort is Some {
            2int
        } else {
            0
        }) + (if fast {
            2int
        } else {
            0
        }),
{
    assert(codex_args(effort, fast).take(4) =~= seq![
        "exec"@,
        "--ephemeral"@,
        "-s"@,
        "read-only"@,
    ]);
    assert(codex_args(effort, fast).skip(codex_args(effort, fast).len() - 4) =~= seq![
        "--output-schema"@,
        CHAT_BAR_OUTPUT_SCHEMA_FILE@,
        "--json"@,
        "-"@,
    ]);
}

/// The scheme of the address that `reqwest::Url::parse` reads in a text, if it
/// reads one.
pub uninterp spec fn url_scheme(text: Seq<char>) -> Option<Seq<char>>;

/// Calls `reqwest::Url::parse` and `Url::scheme`: the scheme of the address
/// that a text states, which is named `url_scheme`.
#[verifier::external_body]
fn parse_url_scheme(text: &str) -> (r: Option<String>)
    ensures
        text_opt(r) == url_scheme(text@),
{
    reqwest::Url::parse(text).ok().map(|url| url.scheme().to_string())
}

/// A base address without blanks around it and slashes behind it.
pub open spec fn base_of(base_url: Seq<char>) -> Seq<char> {
    trimmed_end(trimmed(base_url), CharClass::Only('/'))
}

/// A base address is the text up to the slashes at its end, blanks aside.
pub proof fn law_base_address(base_url: Seq<char>)
    ensures
        base_of(base_url).is_prefix_of(trimmed(base_url)),
        base_of(base_url).len() > 0 ==> base_of(base_url).last() != '/',
        forall|i: int|
            base_of(base_url).len() <= i < trimmed(base_url).len() ==> #[trigger] trimmed(
                base_url,
            )[i] == '/',
{
    lemma_base_address(trimmed(base_url));
}

proof fn lemma_base_address(s: Seq<char>)
    ensures
        ({
            let base = trimmed_end(s, CharClass::Only('/'));
            &&& base.is_prefix_of(s)
            &&& base.len() > 0 ==> base.last() != '/'
            &&& forall|i: int| base.len() <= i < s.len() ==> #[trigger] s[i] == '/'
        }),
    decreases s.len(),
{
    if s.len() > 0 && s.last() == '/' {
        lemma_base_address(s.drop_last());
        let base = trimmed_end(s, CharClass::Only('/'));
        assert(base =~= s.subrange(0, base.len() as int));
        assert forall|i: int| base.len() <= i < s.len() implies #[trigger] s[i] == '/' by {
            if i < s.len() - 1 {
                assert(s.drop_last()[i] == '/');
            }
        }
    } else {
        assert(s =~= s.subrange(0, s.len() as int));
    }
}

/// Where the service takes requests.
pub open spec fn completions_url(base_url: Seq<char>) -> Seq<char> {
    base_of(base_url) + "/chat/completions"@
}

/// Where the service takes requests, which must be an address.
pub fn chat_completions_url(base_url: &str) -> (r: Result<String, TodoError>)
    ensures
        match url_scheme(completions_url(base_url@)) {
            Some(scheme) => r matches Ok(url) && url@ == completions_url(base_url@),
            None => r matches Err(e) && e@ == (TodoErrorView::InvalidBaseUrl {
                base_url: base_of(base_url@),
            }),
        },
{
    let inside = trim(base_url);
    let base = trim_end_by(inside.as_str(), CharClass::Only('/'));
    let mut url = base.clone();
    url.append("/chat/completions");
    match parse_url_scheme(url.as_str()) {
        Some(_) => Ok(url),
        None => Err(TodoError::InvalidBaseUrl { base_url: base }),
    }
}

/// Whether a base address will do, given its scheme: it must be an address of
/// the web.
pub open spec fn base_url_check(
    base_url: Seq<char>,
    scheme: Option<Seq<char>>,
) -> Result<(), TodoErrorView> {
    match scheme {
        Some(scheme) => if scheme == "http"@ || scheme == "https"@ {
            Ok(())
        } else {
            Err(TodoErrorView::UnsupportedScheme)
        },
        None => Err(TodoErrorView::InvalidBaseUrl { base_url: base_of(base_url) }),
    }
}

/// Whether a base address will do, given its scheme.
pub fn check_base_url(base_url: &str, scheme: Option<String>) -> (r: Result<(), TodoError>)
    ensures
        match base_url_check(base_url@, text_opt(scheme)) {
            Ok(()) => r is Ok,
            Err(error) => r matches Err(e) && e@ == error,
        },
{
    match scheme {
        Some(scheme) => if same_text(scheme.as_str(), "http") || same_text(
            scheme.as_str(),
            "https",
        ) {
            Ok(())
        } else {
            Err(TodoError::UnsupportedScheme)
        },
        None => {
            let inside = trim(base_url);
            Err(
                TodoError::InvalidBaseUrl {
                    base_url: trim_end_by(inside.as_str(), CharClass::Only('/')),
                },
            )
        },
    }
}

/// Whether a base address will do.
pub fn validate_llm_base_url(base_url: &str) -> (r: Result<(), TodoError>)
    ensures
        match base_url_check(base_url@, url_scheme(completions_url(base_url@))) {
            Ok(()) => r is Ok,
            Err(error) => r matches Err(e) && e@ == error,
        },
{
    match chat_completions_url(base_url) {
        Ok(url) => check_base_url(base_url, parse_url_scheme(url.as_str())),
        Err(e) => Err(e),
    }
}

/// The titles of tasks, one to a line.
pub open spec fn task_titles(tasks: Seq<TaskView>) -> Seq<Seq<char>> {
    tasks.map_values(|t: TaskView| "- "@ + t.title)
}

/// What a prompt says of a project.
pub open spec fn project_context(project: ProjectView) -> Seq<char> {
    "Title: "@ + project.title + "\nDescription: "@ + project.description + "\nLabels: "@
        + labels_text(project.labels) + "\nExisting todos:\n"@ + (if project.tasks.len() == 0 {
        "- none"@
    } else {
        join(task_titles(project.tasks), "\n"@)
    })
}

/// What a prompt says of a project.
pub fn llm_project_context(project: &Project) -> (r: String)
    ensures
        r@ == project_context(project@),
{
    let ghost views = project@.tasks;
    let mut titles: Vec<String> = Vec::new();
    let mut i: usize = 0;
    while i < project.tasks.len()
        invariant
            i <= project.tasks@.len(),
            views == task_views(project.tasks@),
            titles@.len() == i,
            forall|k: int| 0 <= k < i ==> (#[trigger] titles@[k])@ == "- "@ + views[k].title,
        decreases project.tasks@.len() - i,
    {
        assert(views[i as int] == project.tasks@[i as int]@);
        let mut title = "- ".to_owned();
        title.append(project.tasks[i].title.as_str());
        titles.push(title);
        i = i + 1;
    }
    assert(texts(titles@) =~= task_titles(views));
    let mut text = "Title: ".to_owned();
    text.append(project.title.as_str());
    text.append("\nDescription: ");
    text.append(project.description.as_str());
    text.append("\nLabels: ");
    let labels = format_labels(project.labels.as_slice());
    text.append(labels.as_str());
    text.append("\nExisting todos:\n");
    if titles.len() == 0 {
        text.append("- none");
    } else {
        let list = join_texts(titles.as_slice(), "\n");
        text.append(list.as_str());
    }
    text
}

/// The fixed part of a prompt, the user's instructions, the time, and the project.
pub open spec fn system_prompt(request: LlmTodoRequestView) -> Seq<char> {
    CHAT_BAR_JSON_HARNESS@ + "\n\nTODO data instructions:\n"@ + trimmed(request.instructions)
        + "\n\nCurrent time: "@ + request.requested_at + "\n\nSelected project:\n"@
        + project_context(request.project)
}

/// The whole prompt, with what the user wrote at its end.
pub open spec fn todo_prompt(request: LlmTodoRequestView) -> Seq<char> {
    system_prompt(request) + "\n\nUser prompt:\n"@ + trimmed(request.user_prompt)
}

/// The fixed part of a prompt, the user's instructions, the time, and the project.
pub fn chat_bar_system_prompt(request: &LlmTodoRequest) -> (r: String)
    ensures
        r@ == system_prompt(request@),
{
    let mut text = CHAT_BAR_JSON_HARNESS.to_owned();
    text.append("\n\nTODO data instructions:\n");
    let instructions = trim(request.instructions.as_str());
    text.append(instructions.as_str());
    text.append("\n\nCurrent time: ");
    text.append(request.requested_at.as_str());
    text.append("\n\nSelected project:\n");
    let context = llm_project_context(&request.project);
    text.append(context.as_str());
    text
}

/// The whole prompt.
pub fn chat_bar_todo_prompt(request: &LlmTodoRequest) -> (r: String)
    ensures
        r@ == todo_prompt(request@),
{
    let mut text = chat_bar_system_prompt(request);
    text.append("\n\nUser prompt:\n");
    let prompt = trim(request.user_prompt.as_str());
    text.append(prompt.as_str());
    text
}

/// What stands between two texts is a part of the whole.
pub proof fn lemma_has_middle(a: Seq<char>, b: Seq<char>, c: Seq<char>)
    ensures
        has_part(a + b + c, b),
{
    assert((a + b + c).subrange(a.len() as int, a.len() as int + b.len()) =~= b);
    assert(occurs_at(a + b + c, b, a.len() as int));
}

/// A prompt begins with the fixed part, ends with what the user wrote, and
/// holds the instructions, the time and the project.
pub proof fn law_prompt_parts(request: LlmTodoRequestView)
    ensures
        CHAT_BAR_JSON_HARNESS@.is_prefix_of(todo_prompt(request)),
        system_prompt(request).is_prefix_of(todo_prompt(request)),
        trimmed(request.user_prompt).is_suffix_of(todo_prompt(request)),
        has_part(system_prompt(request), trimmed(request.instructions)),
        has_part(system_prompt(request), request.requested_at),
        project_context(request.project).is_suffix_of(system_prompt(request)),
{
    let a = CHAT_BAR_JSON_HARNESS@ + "\n\nTODO data instructions:\n"@;
    let b = trimmed(request.instructions);
    let c = "\n\nCurrent time: "@ + request.requested_at + "\n\nSelected project:\n"@
        + project_context(request.project);
    lemma_has_middle(a, b, c);
    assert(a + b + c =~= system_prompt(request));
    let d = a + b + "\n\nCurrent time: "@;
    let e = "\n\nSelected project:\n"@ + project_context(request.project);
    lemma_has_middle(d, request.requested_at, e);
    assert(d + request.requested_at + e =~= system_prompt(request));
}

/// A prompt tells of the project: its title, what it is about, its labels, and
/// the title of each of its tasks on a line of its own.
pub proof fn law_prompt_tells_of_the_project(project: ProjectView, i: int)
    ensures
        "Title: "@.is_prefix_of(project_context(project)),
        has_part(project_context(project), project.title),
        has_part(project_context(project), project.description),
        has_part(project_context(project), labels_text(project.labels)),
        0 <= i < project.tasks.len() ==> has_part(
            project_context(project),
            "- "@ + project.tasks[i].title,
        ),
        project.tasks.len() == 0 ==> "- none"@.is_suffix_of(project_context(project)),
{
    let tasks = if project.tasks.len() == 0 {
        "- none"@
    } else {
        join(task_titles(project.tasks), "\n"@)
    };
    let whole = project_context(project);
    let a = "Title: "@;
    let b = a + project.title + "\nDescription: "@;
    let c = b + project.description + "\nLabels: "@;
    let d = c + labels_text(project.labels) + "\nExisting todos:\n"@;
    assert(whole =~= d + tasks);
    let after_title = "\nDescription: "@ + project.description + "\nLabels: "@ + labels_text(
        project.labels,
    ) + "\nExisting todos:\n"@ + tasks;
    lemma_has_middle(a, project.title, after_title);
    assert(a + project.title + after_title =~= whole);
    let after_description = "\nLabels: "@ + labels_text(project.labels) + "\nExisting todos:\n"@
        + tasks;
    lemma_has_middle(b, project.description, after_description);
    assert(b + project.description + after_description =~= whole);
    let after_labels = "\nExisting todos:\n"@ + tasks;
    lemma_has_middle(c, labels_text(project.labels), after_labels);
    assert(c + labels_text(project.labels) + after_labels =~= whole);
    if 0 <= i < project.tasks.len() {
        let titles = task_titles(project.tasks);
        let (x, y) = lemma_join_holds(titles, "\n"@, i);
        lemma_has_middle(d + x, titles[i], y);
        assert((d + x) + titles[i] + y =~= whole);
    }
}

proof fn lemma_join_holds(parts: Seq<Seq<char>>, sep: Seq<char>, i: int) -> (r: (
    Seq<char>,
    Seq<char>,
))
    requires
        0 <= i < parts.len(),
    ensures
        join(parts, sep) == r.0 + parts[i] + r.1,
    decreases parts.len(),
{
    if parts.len() == 1 {
        assert(Seq::<char>::empty() + parts[0] + Seq::<char>::empty() =~= parts[0]);
        (Seq::empty(), Seq::empty())
    } else if i < parts.len() - 1 {
        let r = lemma_join_holds(parts.drop_last(), sep, i);
        let more = r.1 + sep + parts.last();
        assert(join(parts, sep) =~= r.0 + parts[i] + more);
        (r.0, more)
    } else {
        let before = join(parts.drop_last(), sep) + sep;
        assert(join(parts, sep) =~= before + parts[i] + Seq::<char>::empty());
        (before, Seq::empty())
    }
}

/// What is done about a request.
#[derive(Debug, PartialEq, Eq)]
pub enum LlmCall {
    /// `codex` is run with these arguments and this input.
    Codex { args: Vec<String>, input: String },
    /// The service is asked.
    Api {
        url: String,
        api_key: String,
        model: String,
        system_prompt: String,
        user_prompt: String,
    },
}

/// What is done about a request, as mathematics sees it.
pub enum LlmCallView {
    Codex { args: Seq<Seq<char>>, input: Seq<char> },
    Api {
        url: Seq<char>,
        api_key: Seq<char>,
        model: Seq<char>,
        system_prompt: Seq<char>,
        user_prompt: Seq<char>,
    },
}

impl View for LlmCall {
    type V = LlmCallView;

    open spec fn view(&self) -> LlmCallView {
        match self {
            LlmCall::Codex { args, input } => LlmCallView::Codex {
                args: texts(args@),
                input: input@,
            },
            LlmCall::Api { url, api_key, model, system_prompt, user_prompt } => LlmCallView::Api {
                url: url@,
                api_key: api_key@,
                model: model@,
                system_prompt: system_prompt@,
                user_prompt: user_prompt@,
            },
        }
    }
}

/// What is done about a request, by its backend; the service needs an address
/// and a key.
pub open spec fn call_for(request: LlmTodoRequestView) -> Result<LlmCallView, TodoErrorView> {
    match request.backend {
        LlmBackend::CodexExec => Ok(
            LlmCallView::Codex {
                args: codex_args(request.codex_reasoning_effort, request.codex_fast_mode),
                input: todo_prompt(request),
            },
        ),
        LlmBackend::Api => if url_scheme(completions_url(request.base_url)) is None {
            Err(TodoErrorView::InvalidBaseUrl { base_url: base_of(request.base_url) })
        } else {
            match request.api_key {
                None => Err(TodoErrorView::ApiKeyNotSet),
                Some(key) => Ok(
                    LlmCallView::Api {
                        url: completions_url(request.base_url),
                        api_key: trimmed(key),
                        model: request.model,
                        system_prompt: system_prompt(request),
                        user_prompt: request.user_prompt,
                    },
                ),
            }
        },
    }
}

/// What is done about a request.
pub fn request_llm_todo(request: &LlmTodoRequest) -> (r: Result<LlmCall, TodoError>)
    ensures
        match call_for(request@) {
            Ok(call) => r matches Ok(c) && c@ == call,
            Err(error) => r matches Err(e) && e@ == error,
        },
{
    match request.backend {
        LlmBackend::CodexExec => Ok(request_codex_exec_todo(request)),
        LlmBackend::Api => request_api_todo(request),
    }
}

fn request_codex_exec_todo(request: &LlmTodoRequest) -> (r: LlmCall)
    ensures
        r@ == (LlmCallView::Codex {
            args: codex_args(request@.codex_reasoning_effort, request@.codex_fast_mode),
            input: todo_prompt(request@),
        }),
{
    LlmCall::Codex { args: codex_exec_args(request), input: chat_bar_todo_prompt(request) }
}

fn request_api_todo(request: &LlmTodoRequest) -> (r: Result<LlmCall, TodoError>)
    requires
        request@.backend == LlmBackend::Api,
    ensures
        match call_for(request@) {
            Ok(call) => r matches Ok(c) && c@ == call,
            Err(error) => r matches Err(e) && e@ == error,
        },
{
    let url = match chat_completions_url(request.base_url.as_str()) {
        Ok(url) => url,
        Err(e) => return Err(e),
    };
    match &request.api_key {
        None => Err(TodoError::ApiKeyNotSet),
        Some(key) => Ok(
            LlmCall::Api {
                url,
                api_key: trim(key.as_str()),
                model: request.model.clone(),
                system_prompt: chat_bar_system_prompt(request),
                user_prompt: request.user_prompt.clone(),
            },
        ),
    }
}

/// Whether `serde_json` reads a text as JSON.
pub uninterp spec fn is_json(text: Seq<char>) -> bool;

/// The string that stands in a JSON text where a pointer leads, if one does.
pub uninterp spec fn json_string(text: Seq<char>, pointer: Seq<char>) -> Option<Seq<char>>;

/// What is found in a JSON text.
#[derive(Debug, PartialEq, Eq)]
pub enum JsonText {
    /// The text is no JSON.
    Invalid,
    /// There is no string.
    Missing,
    /// There is this string.
    Found(String),
}

/// Calls `serde_json::from_str` for a `Value`, and `Value::pointer` and
/// `Value::as_str` on that: whether the text is JSON, which is named `is_json`,
/// and the string that the pointer leads to, which is named `json_string`.
#[verifier::external_body]
fn json_string_at(text: &str, pointer: &str) -> (r: JsonText)
    ensures
        match r {
            JsonText::Invalid => !is_json(text@),
            JsonText::Missing => is_json(text@) && json_string(text@, pointer@) is None,
            JsonText::Found(found) => is_json(text@) && json_string(text@, pointer@) == Some(
                found@,
            ),
        },
{
    match serde_json::from_str::<serde_json::Value>(text) {
        Ok(value) => match value.pointer(pointer).and_then(serde_json::Value::as_str) {
            Some(found) => JsonText::Found(found.to_string()),
            None => JsonText::Missing,
        },
        Err(_) => JsonText::Invalid,
    }
}

/// The draft in an answer of the service, given what stands where it should:
/// the text of the draft, without blanks around it.
pub fn completion_draft(found: JsonText) -> (r: Result<String, TodoError>)
    ensures
        match found {
            JsonText::Invalid => r matches Err(e) && e@ == TodoErrorView::InvalidResponse,
            JsonText::Missing => r matches Err(e) && e@ == TodoErrorView::MissingTodoJson,
            JsonText::Found(text) => r matches Ok(draft) && draft@ == trimmed(text@),
        },
{
    match found {
        JsonText::Invalid => Err(TodoError::InvalidResponse),
        JsonText::Missing => Err(TodoError::MissingTodoJson),
        JsonText::Found(text) => Ok(trim(text.as_str())),
    }
}

/// The draft in an answer of the service: the content of its first choice.
pub open spec fn draft_in_completion(body: Seq<char>) -> Result<Seq<char>, TodoErrorView> {
    if !is_json(body) {
        Err(TodoErrorView::InvalidResponse)
    } else {
        match json_string(body, "/choices/0/message/content"@) {
            Some(text) => Ok(trimmed(text)),
            None => Err(TodoErrorView::MissingTodoJson),
        }
    }
}

/// The draft in an answer of the service.
pub fn parse_chat_completion_draft(body: &str) -> (r: Result<String, TodoError>)
    ensures
        match draft_in_completion(body@) {
            Ok(draft) => r matches Ok(d) && d@ == draft,
            Err(error) => r matches Err(e) && e@ == error,
        },
{
    completion_draft(json_string_at(body, "/choices/0/message/content"))
}

/// The draft in a reply of the service, which must be one of success.
pub open spec fn draft_in_reply(
    success: bool,
    status: Seq<char>,
    body: Seq<char>,
) -> Result<Seq<char>, TodoErrorView> {
    if success {
        draft_in_completion(body)
    } else {
        Err(TodoErrorView::ApiStatus { status, body: excerpt(body, 160) })
    }
}

/// The draft in a reply of the service.
pub fn api_reply_draft(success: bool, status: &str, body: &str) -> (r: Result<String, TodoError>)
    ensures
        match draft_in_reply(success, status@, body@) {
            Ok(draft) => r matches Ok(d) && d@ == draft,
            Err(error) => r matches Err(e) && e@ == error,
        },
{
    if !success {
        return Err(
            TodoError::ApiStatus { status: status.to_owned(), body: content_excerpt(body, 160) },
        );
    }
    parse_chat_completion_draft(body)
}

/// An event of `codex`, as mathematics sees it.
pub struct CodexEventView {
    pub kind: Option<Seq<char>>,
    pub item_kind: Option<Seq<char>>,
    pub text: Option<Seq<char>>,
}

/// An event of `codex`: what happened, to what kind of item, and its text.
#[derive(Debug, PartialEq, Eq)]
pub struct CodexEvent {
    pub kind: Option<String>,
    pub item_kind: Option<String>,
    pub text: Option<String>,
}

impl View for CodexEvent {
    type V = CodexEventView;

    open spec fn view(&self) -> CodexEventView {
        CodexEventView {
            kind: text_opt(self.kind),
            item_kind: text_opt(self.item_kind),
            text: text_opt(self.text),
        }
    }
}

/// An event, where a line holds one.
pub open spec fn event_view(event: Option<CodexEvent>) -> Option<CodexEventView> {
    match event {
        Some(event) => Some(event@),
        None => None,
    }
}

/// The views of several events.
pub open spec fn event_views(v: Seq<Option<CodexEvent>>) -> Seq<Option<CodexEventView>> {
    v.map_values(|e: Option<CodexEvent>| event_view(e))
}

/// The message that an event completes, if it completes one.
pub open spec fn message_in(event: CodexEventView) -> Option<Seq<char>> {
    if event.kind == Some("item.completed"@) && event.item_kind == Some("agent_message"@) {
        event.text
    } else {
        None
    }
}

/// The last message that events complete, if they complete one.
pub open spec fn last_message(events: Seq<Option<CodexEventView>>) -> Option<Seq<char>>
    decreases events.len(),
{
    if events.len() == 0 {
        None
    } else if events.last() is Some && message_in(events.last()->0) is Some {
        message_in(events.last()->0)
    } else {
        last_message(events.drop_last())
    }
}

/// The draft in events: the last message, without blanks around it. A line
/// that is no event, or no message at all, is an error.
pub open spec fn draft_in_events(
    events: Seq<Option<CodexEventView>>,
) -> Result<Seq<char>, TodoErrorView> {
    if events.contains(None) {
        Err(TodoErrorView::InvalidCodexEvent)
    } else {
        match last_message(events) {
            Some(text) => Ok(trimmed(text)),
            None => Err(TodoErrorView::NoFinalMessage),
        }
    }
}

/// Of the messages of some events and of others behind them, the last counts.
pub proof fn law_last_message_counts(
    events: Seq<Option<CodexEventView>>,
    more: Seq<Option<CodexEventView>>,
)
    ensures
        last_message(events + more) == if last_message(more) is Some {
            last_message(more)
        } else {
            last_message(events)
        },
    decreases more.len(),
{
    if more.len() == 0 {
        assert(events + more =~= events);
    } else {
        assert((events + more).drop_last() =~= events + more.drop_last());
        law_last_message_counts(events, more.drop_last());
    }
}

/// The draft in events is the text of the last event that completes a message
/// of the agent, blanks aside, whatever comes before it and whatever else behind
/// it; a line that is no event spoils all.
pub proof fn law_draft_is_the_last_message(
    before: Seq<Option<CodexEventView>>,
    text: Seq<char>,
    after: Seq<Option<CodexEventView>>,
)
    requires
        !before.contains(None),
        forall|i: int|
            0 <= i < after.len() ==> (#[trigger] after[i] matches Some(event) && (event.kind != Some(
                "item.completed"@,
            ) || event.item_kind != Some("agent_message"@) || event.text is None)),
    ensures
        ({
            let event = CodexEventView {
                kind: Some("item.completed"@),
                item_kind: Some("agent_message"@),
                text: Some(text),
            };
            &&& draft_in_events(before.push(Some(event)) + after) == Ok::<_, TodoErrorView>(
                trimmed(text),
            )
            &&& draft_in_events(before.push(Some(event)).push(None) + after) == Err::<
                Seq<char>,
                _,
            >(TodoErrorView::InvalidCodexEvent)
        }),
{
    let event = CodexEventView {
        kind: Some("item.completed"@),
        item_kind: Some("agent_message"@),
        text: Some(text),
    };
    let first = before.push(Some(event));
    let all = first + after;
    lemma_no_message(after);
    law_last_message_counts(first, after);
    assert(last_message(first) == Some(text));
    assert forall|i: int| 0 <= i < all.len() implies all[i] != None::<CodexEventView> by {
        if i < before.len() {
            assert(before.contains(before[i]));
            assert(all[i] == before[i]);
        } else if i > before.len() {
            assert(all[i] == after[i - first.len()]);
        }
    }
    let spoilt = first.push(None) + after;
    assert(spoilt[first.len() as int] == None::<CodexEventView>);
    assert(spoilt.contains(None));
}

proof fn lemma_no_message(events: Seq<Option<CodexEventView>>)
    requires
        forall|i: int|
            0 <= i < events.len() ==> (#[trigger] events[i] matches Some(event) && (event.kind
                != Some("item.completed"@) || event.item_kind != Some("agent_message"@)
                || event.text is None)),
    ensures
        last_message(events) is None,
    decreases events.len(),
{
    if events.len() > 0 {
        assert(events[events.len() - 1] is Some);
        assert forall|i: int| 0 <= i < events.drop_last().len() implies (
        #[trigger] events.drop_last()[i] matches Some(event) && (event.kind != Some(
            "item.completed"@,
        ) || event.item_kind != Some("agent_message"@) || event.text is None)) by {
            assert(events[i] is Some);
        }
        lemma_no_message(events.drop_last());
    }
}

fn is_text(v: &Option<String>, wanted: &str) -> (r: bool)
    ensures
        r == (text_opt(*v) == Some(wanted@)),
{
    match v {
        Some(text) => same_text(text.as_str(), wanted),
        None => false,
    }
}

/// The draft in events.
pub fn final_message(events: &Vec<Option<CodexEvent>>) -> (r: Result<String, TodoError>)
    ensures
        match draft_in_events(event_views(events@)) {
            Ok(draft) => r matches Ok(d) && d@ == draft,
            Err(error) => r matches Err(e) && e@ == error,
        },
{
    let ghost views = event_views(events@);
    let mut message: Option<String> = None;
    let mut i: usize = 0;
    assert(views.take(0) =~= Seq::empty());
    while i < events.len()
        invariant
            i <= events@.len(),
            views == event_views(events@),
            forall|k: int| 0 <= k < i ==> #[trigger] views[k] is Some,
            text_opt(message) == last_message(views.take(i as int)),
        decreases events@.len() - i,
    {
        assert(views.take(i + 1).drop_last() =~= views.take(i as int));
        assert(views[i as int] == event_view(events@[i as int]));
        match &events[i] {
            Some(event) => {
                if is_text(&event.kind, "item.completed") && is_text(
                    &event.item_kind,
                    "agent_message",
                ) && event.text.is_some() {
                    message = clone_text_opt(&event.text);
                }
            },
            None => {
                assert(views.contains(None));
                return Err(TodoError::InvalidCodexEvent);
            },
        }
        i = i + 1;
    }
    assert(views.take(events@.len() as int) =~= views);
    assert(!views.contains(None)) by {
        assert forall|k: int| 0 <= k < views.len() implies views[k] != None::<CodexEventView> by {
            assert(views[k] is Some);
        }
    }
    match message {
        Some(text) => Ok(trim(text.as_str())),
        None => Err(TodoError::NoFinalMessage),
    }
}

/// The event that a line holds, if it holds one.
pub open spec fn event_in(line: Seq<char>) -> Option<CodexEventView> {
    if is_json(line) {
        Some(
            CodexEventView {
                kind: json_string(line, "/type"@),
                item_kind: json_string(line, "/item/type"@),
                text: json_string(line, "/item/text"@),
            },
        )
    } else {
        None
    }
}

fn found_text(found: JsonText) -> (r: Option<String>)
    ensures
        match found {
            JsonText::Found(text) => r == Some(text),
            _ => r is None,
        },
{
    match found {
        JsonText::Found(text) => Some(text),
        _ => None,
    }
}

fn read_event(line: &str) -> (r: Option<CodexEvent>)
    ensures
        event_view(r) == event_in(line@),
{
    let kind = match json_string_at(line, "/type") {
        JsonText::Invalid => return None,
        found => found_text(found),
    };
    let item_kind = found_text(json_string_at(line, "/item/type"));
    let text = found_text(json_string_at(line, "/item/text"));
    Some(CodexEvent { kind, item_kind, text })
}

/// The events of several lines; blank ones hold none.
pub open spec fn events_in(all: Seq<Seq<char>>) -> Seq<Option<CodexEventView>>
    decreases all.len(),
{
    if all.len() == 0 {
        Seq::empty()
    } else {
        let before = events_in(all.drop_last());
        if trimmed(all.last()).len() > 0 {
            before.push(event_in(all.last()))
        } else {
            before
        }
    }
}

/// Lines are read one by one: the events of some lines and of others behind them
/// are those of the first and then those of the others; a blank line holds none,
/// and any other line one.
pub proof fn law_events_one_by_one(a: Seq<Seq<char>>, b: Seq<Seq<char>>)
    ensures
        events_in(a + b) == events_in(a) + events_in(b),
        b.len() == 1 && trimmed(b[0]).len() == 0 ==> events_in(b).len() == 0,
        b.len() == 1 && trimmed(b[0]).len() > 0 ==> events_in(b).len() == 1 && events_in(b)[0]
            == event_in(b[0]),
    decreases b.len(),
{
    if b.len() == 0 {
        assert(a + b =~= a);
        assert(events_in(a) + events_in(b) =~= events_in(a));
    } else {
        assert((a + b).drop_last() =~= a + b.drop_last());
        law_events_one_by_one(a, b.drop_last());
        assert(events_in(a + b) =~= events_in(a) + events_in(b));
        if b.len() == 1 {
            assert(b.drop_last() =~= Seq::empty());
            assert(events_in(b.drop_last()) =~= Seq::empty());
        }
    }
}

/// The draft in what `codex` printed.
pub fn parse_codex_json_final_message(stdout: &str) -> (r: Result<String, TodoError>)
    ensures
        match draft_in_events(events_in(lines(stdout@))) {
            Ok(draft) => r matches Ok(d) && d@ == draft,
            Err(error) => r matches Err(e) && e@ == error,
        },
{
    let parts = lines_of(stdout);
    let ghost all = lines(stdout@);
    let mut events: Vec<Option<CodexEvent>> = Vec::new();
    let mut i: usize = 0;
    assert(all.take(0) =~= Seq::empty());
    assert(event_views(events@) =~= Seq::empty());
    while i < parts.len()
        invariant
            i <= parts@.len(),
            texts(parts@) == all,
            event_views(events@) == events_in(all.take(i as int)),
        decreases parts@.len() - i,
    {
        assert(all.take(i + 1).drop_last() =~= all.take(i as int));
        assert(all[i as int] == parts@[i as int]@);
        let inside = trim(parts[i].as_str());
        if inside.as_str().unicode_len() > 0 {
            let ghost before = event_views(events@);
            let event = read_event(parts[i].as_str());
            let ghost view = event_view(event);
            events.push(event);
            assert(event_views(events@) =~= before.push(view));
        }
        i = i + 1;
    }
    assert(all.len() == parts@.len());
    assert(all.take(parts@.len() as int) =~= all);
    final_message(&events)
}

/// What is said of an answer of `codex` that holds no draft.
pub open spec fn codex_context_spec(stdout: Seq<char>) -> Seq<char> {
    "codex stdout: "@ + excerpt(trimmed(stdout), 240)
}

/// What is said of an answer of `codex` that holds no draft.
pub fn codex_context(stdout: &str) -> (r: String)
    ensures
        r@ == codex_context_spec(stdout@),
{
    let inside = trim(stdout);
    let shown = content_excerpt(inside.as_str(), 240);
    let mut text = "codex stdout: ".to_owned();
    text.append(shown.as_str());
    text
}

/// The draft in what `codex` gave back, or what is said of its failure.
pub open spec fn codex_answer(
    args: Seq<Seq<char>>,
    success: bool,
    stdout: Seq<char>,
    stderr: Seq<char>,
) -> Result<Seq<char>, Seq<char>> {
    if !success {
        Err(
            (TodoErrorView::CodexFailed {
                command: join(args, " "@),
                stderr: trimmed(stderr),
            }).message(),
        )
    } else if trimmed(stdout).len() == 0 {
        Err(TodoErrorView::EmptyCodexStream.message())
    } else {
        match draft_in_events(events_in(lines(trimmed(stdout)))) {
            Ok(draft) => Ok(draft),
            Err(error) => Err(codex_context_spec(stdout)),
        }
    }
}

/// The draft in what `codex` gave back, or what is said of its failure.
pub fn codex_reply_draft(args: &Vec<String>, success: bool, stdout: &str, stderr: &str) -> (r:
    Result<String, String>)
    ensures
        match codex_answer(texts(args@), success, stdout@, stderr@) {
            Ok(draft) => r matches Ok(d) && d@ == draft,
            Err(text) => r matches Err(t) && t@ == text,
        },
{
    if !success {
        let error = TodoError::CodexFailed {
            command: join_texts(args.as_slice(), " "),
            stderr: trim(stderr),
        };
        return Err(error.message());
    }
    let inside = trim(stdout);
    if inside.as_str().unicode_len() == 0 {
        return Err(TodoError::EmptyCodexStream.message());
    }
    match parse_codex_json_final_message(inside.as_str()) {
        Ok(draft) => Ok(draft),
        Err(_) => Err(codex_context(stdout)),
    }
}

/// An entry of the log of failed drafts.
pub fn log_entry(timestamp: &str, error: &str) -> (r: String)
    ensures
        r@ == "["@ + timestamp@ + "] "@ + error@ + "\n\n"@,
{
    let mut text = "[".to_owned();
    text.append(timestamp);
    text.append("] ");
    text.append(error);
    text.append("\n\n");
    text
}

pub open spec fn is_lower_hex(c: char) -> bool {
    '0' <= c <= '9' || 'a' <= c <= 'f'
}

/// Whether a text is an identifier of version seven: groups of hexadecimal
/// digits with hyphens between them, version and variant in their places.
pub open spec fn is_uuid_v7(text: Seq<char>) -> bool {
    &&& text.len() == 36
    &&& forall|i: int|
        0 <= i < 36 ==> if i == 8 || i == 13 || i == 18 || i == 23 {
            #[trigger] text[i] == '-'
        } else {
            is_lower_hex(text[i])
        }
    &&& text[14] == '7'
    &&& text[19] == '8' || text[19] == '9' || text[19] == 'a' || text[19] == 'b'
}

/// Calls `Uuid::now_v7` of `uuid` and writes the identifier out: one of
/// version seven. It rests on the time and on chance, so no more is said.
#[verifier::external_body]
pub(crate) fn new_uuid() -> (r: String)
    ensures
        is_uuid_v7(r@),
{
    uuid::Uuid::now_v7().to_string()
}

/// The task that a draft becomes, created at `now`: it needs a title and a
/// content, and its due date must be one.
pub open spec fn draft_task(
    draft: LlmTodoDraftView,
    now: UtcInstant,
    id: Seq<char>,
) -> Result<TaskView, TodoErrorView> {
    let due_at = match draft.due_at {
        Some(text) => nullable_datetime(text),
        None => Ok(None),
    };
    if trimmed(draft.title).len() == 0 {
        Err(TodoErrorView::EmptyDraftTitle)
    } else if trimmed(draft.content).len() == 0 {
        Err(TodoErrorView::EmptyDraftContent)
    } else if due_at is Err {
        Err(TodoErrorView::InvalidDateTime { field: "due_at"@ })
    } else {
        Ok(
            TaskView {
                id,
                title: trimmed(draft.title),
                content: trimmed(draft.content),
                labels: labels_in(draft.labels),
                branch: match draft.branch {
                    Some(text) => nullable_text(text),
                    None => None,
                },
                created_at: stamp(now),
                updated_at: None,
                completed_at: None,
                due_at: due_at->Ok_0,
            },
        )
    }
}

/// The task that a draft becomes, under an identifier.
pub fn draft_to_task(draft: LlmTodoDraft, now: UtcInstant, id: String) -> (r: Result<
    Task,
    TodoError,
>)
    requires
        now.wf(),
    ensures
        match draft_task(draft@, now, id@) {
            Ok(task) => r matches Ok(t) && t@ == task,
            Err(error) => r matches Err(e) && e@ == error,
        },
{
    let title = trim(draft.title.as_str());
    if title.as_str().unicode_len() == 0 {
        return Err(TodoError::EmptyDraftTitle);
    }
    let content = trim(draft.content.as_str());
    if content.as_str().unicode_len() == 0 {
        return Err(TodoError::EmptyDraftContent);
    }
    let due_at = match &draft.due_at {
        Some(text) => match parse_nullable_datetime(text.as_str(), "due_at") {
            Ok(v) => v,
            Err(e) => return Err(e),
        },
        None => None,
    };
    let branch = match &draft.branch {
        Some(text) => parse_nullable_text(text.as_str()),
        None => None,
    };
    Ok(
        Task {
            id,
            title,
            content,
            labels: kept_labels(&draft.labels),
            branch,
            created_at: timestamp(now),
            updated_at: None,
            completed_at: None,
            due_at,
        },
    )
}

/// The task that a draft becomes, under a new identifier.
pub fn llm_draft_to_task(draft: LlmTodoDraft, now: UtcInstant) -> (r: Result<Task, TodoError>)
    requires
        now.wf(),
    ensures
        exists|id: Seq<char>| #[trigger]
            is_uuid_v7(id) && (match draft_task(draft@, now, id) {
                Ok(task) => r matches Ok(t) && t@ == task,
                Err(error) => r matches Err(e) && e@ == error,
            }),
{
    let id = new_uuid();
    let ghost text = id@;
    let r = draft_to_task(draft, now, id);
    assert(is_uuid_v7(text));
    r
}

/// A draft becomes a task that is open and was never updated; its title and
/// its content are neither blank nor have blanks around them.
pub proof fn law_draft_becomes_open_task(draft: LlmTodoDraftView, now: UtcInstant, id: Seq<char>)
    requires
        draft_task(draft, now, id) is Ok,
    ensures
        draft_task(draft, now, id)->Ok_0.id == id,
        draft_task(draft, now, id)->Ok_0.created_at == stamp(now),
        draft_task(draft, now, id)->Ok_0.updated_at is None,
        draft_task(draft, now, id)->Ok_0.completed_at is None,
        draft_task(draft, now, id)->Ok_0.title.len() > 0,
        is_trimmed(draft_task(draft, now, id)->Ok_0.title),
        draft_task(draft, now, id)->Ok_0.content.len() > 0,
        is_trimmed(draft_task(draft, now, id)->Ok_0.content),
{
    crate::text::lemma_trimmed_by(draft.title, CharClass::Whitespace);
    crate::text::lemma_trimmed_by(draft.content, CharClass::Whitespace);
}

/// A draft becomes a task just where its title and its content are not blank
/// and its due date is missing, blank or an instant; the task has what the draft
/// says, blanks aside.
pub proof fn law_task_says_what_the_draft_says(
    draft: LlmTodoDraftView,
    now: UtcInstant,
    id: Seq<char>,
)
    ensures
        draft_task(draft, now, id) is Ok <==> trimmed(draft.title).len() > 0 && trimmed(
            draft.content,
        ).len() > 0 && (draft.due_at matches Some(text) ==> trimmed(text).len() == 0 || rfc3339(
            trimmed(text),
        ) is Some),
        draft_task(draft, now, id) matches Ok(task) ==> {
            &&& task.title == trimmed(draft.title)
            &&& task.content == trimmed(draft.content)
            &&& task.branch is None <==> (draft.branch matches Some(text) ==> trimmed(text).len()
                == 0)
            &&& task.branch matches Some(branch) ==> draft.branch matches Some(text) && branch
                == trimmed(text)
            &&& draft.due_at is None ==> task.due_at is None
            &&& draft.due_at matches Some(text) ==> states(task.due_at, text)
        },
{
}

/// A task has all the labels of its draft, in their order: those of a draft
/// whose labels are trimmed and not blank are its own, and in general a label
/// that is not blank is the task's just where it is the draft's, blanks around
/// it aside.
pub proof fn law_task_has_the_labels_of_its_draft(
    draft: LlmTodoDraftView,
    now: UtcInstant,
    id: Seq<char>,
)
    requires
        draft_task(draft, now, id) is Ok,
    ensures
        (forall|i: int|
            0 <= i < draft.labels.len() ==> (#[trigger] draft.labels[i]).len() > 0 && is_trimmed(
                draft.labels[i],
            )) ==> draft_task(draft, now, id)->Ok_0.labels == draft.labels,
        forall|label: Seq<char>| #[trigger]
            draft_task(draft, now, id)->Ok_0.labels.contains(label) <==> label.len() > 0
                && exists|i: int|
                0 <= i < draft.labels.len() && trimmed(#[trigger] draft.labels[i]) == label,
{
    if forall|i: int|
        0 <= i < draft.labels.len() ==> (#[trigger] draft.labels[i]).len() > 0 && is_trimmed(
            draft.labels[i],
        ) {
        law_clean_labels_are_kept(draft.labels);
    }
    assert forall|label: Seq<char>| #[trigger]
        draft_task(draft, now, id)->Ok_0.labels.contains(label) <==> label.len() > 0
            && exists|i: int|
            0 <= i < draft.labels.len() && trimmed(#[trigger] draft.labels[i]) == label by {
        law_labels_are_the_parts(draft.labels, label);
    }
}

/// The labels of a draft are read one by one: those of a list and of another
/// behind it are the labels of the first and then those of the second.
pub proof fn law_draft_labels_one_by_one(
    draft: LlmTodoDraftView,
    more: Seq<Seq<char>>,
    now: UtcInstant,
    id: Seq<char>,
)
    requires
        draft_task(draft, now, id) is Ok,
    ensures
        ({
            let longer = LlmTodoDraftView { labels: draft.labels + more, ..draft };
            let other = LlmTodoDraftView { labels: more, ..draft };
            &&& draft_task(longer, now, id) is Ok && draft_task(other, now, id) is Ok
            &&& draft_task(longer, now, id)->Ok_0.labels == draft_task(
                draft,
                now,
                id,
            )->Ok_0.labels + draft_task(other, now, id)->Ok_0.labels
        }),
{
    law_labels_of_both(draft.labels, more);
}

/// The draft of a reply is what the first choice of the service says, without
/// blanks around it. A reply that is none of success is an error that names its
/// status and holds the beginning of its body.
pub proof fn law_reply(success: bool, status: Seq<char>, body: Seq<char>)
    ensures
        !success ==> (draft_in_reply(success, status, body) matches Err(
            TodoErrorView::ApiStatus { status: named, body: shown },
        ) && named == status && 1 <= shown.len() <= 160),
        success && !is_json(body) ==> draft_in_reply(success, status, body) is Err,
        success && is_json(body) ==> (draft_in_reply(success, status, body) is Ok <==> json_string(
            body,
            "/choices/0/message/content"@,
        ) is Some),
        draft_in_reply(success, status, body) matches Ok(draft) ==> success && is_trimmed(draft)
            && draft == trimmed(json_string(body, "/choices/0/message/content"@)->0),
{
    law_excerpt_is_a_beginning(body, 160, body.len() as int);
    if let Ok(draft) = draft_in_reply(success, status, body) {
        lemma_trimmed_by(
            json_string(body, "/choices/0/message/content"@)->0,
            CharClass::Whitespace,
        );
    }
}

/// What `codex` printed counts only where it succeeded: else the error names what
/// was run and what it said of its failure. Of what it printed the last message of
/// the agent is the draft.
pub proof fn law_codex_answer(
    args: Seq<Seq<char>>,
    stdout: Seq<char>,
    stderr: Seq<char>,
    before: Seq<Option<CodexEventView>>,
    text: Seq<char>,
    after: Seq<Option<CodexEventView>>,
)
    requires
        trimmed(stdout).len() > 0,
        events_in(lines(trimmed(stdout))) == before.push(
            Some(
                (CodexEventView {
                    kind: Some("item.completed"@),
                    item_kind: Some("agent_message"@),
                    text: Some(text),
                }),
            ),
        ) + after,
        !before.contains(None),
        forall|i: int|
            0 <= i < after.len() ==> (#[trigger] after[i] matches Some(event) && (event.kind
                != Some("item.completed"@) || event.item_kind != Some("agent_message"@)
                || event.text is None)),
    ensures
        codex_answer(args, true, stdout, stderr) == Ok::<_, Seq<char>>(trimmed(text)),
        codex_answer(args, false, stdout, stderr) matches Err(said) && has_part(
            said,
            join(args, " "@),
        ) && has_part(said, trimmed(stderr)),
{
    law_draft_is_the_last_message(before, text, after);
    law_message_names_the_cause(
        TodoErrorView::CodexFailed { command: join(args, " "@), stderr: trimmed(stderr) },
    );
}

/// An event says what stands in its line under the names of its parts, and a line
/// that is no JSON holds none.
pub proof fn law_event_is_read(line: Seq<char>)
    ensures
        event_in(line) is Some <==> is_json(line),
        event_in(line) matches Some(event) ==> {
            &&& event.kind == json_string(line, "/type"@)
            &&& event.item_kind == json_string(line, "/item/type"@)
            &&& event.text == json_string(line, "/item/text"@)
        },
{
}

} // verus!
