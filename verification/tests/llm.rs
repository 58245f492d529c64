//! Drafts.
use todui::errors::TodoError;
use todui::llm::{
    api_reply_draft, chat_bar_system_prompt, chat_bar_todo_prompt, chat_completions_url,
    check_base_url, codex_context, codex_exec_args, codex_reply_draft, completion_draft,
    draft_to_task, final_message, llm_draft_to_task, llm_project_context, log_entry,
    parse_chat_completion_draft, parse_codex_json_final_message, request_llm_todo,
    validate_llm_base_url, CodexEvent, JsonText, LlmCall, LlmTodoDraft, LlmTodoRequest,
    CHAT_BAR_JSON_HARNESS,
};
use todui::model::{Project, Task};
use todui::settings::{
    CodexReasoningEffort, LlmBackend, DEFAULT_LLM_BASE_URL, DEFAULT_LLM_MODEL,
};
use todui::time::UtcInstant;

// 2026-06-25T08:00:00Z
const NOW: UtcInstant = UtcInstant { secs: 1_782_374_400, nanos: 0 };

fn sample_project() -> Project {
    Project {
        title: "Example".to_string(),
        description: "Project description".to_string(),
        labels: vec!["project".to_string()],
        tasks: vec![Task {
            id: "0197f27f-83b0-7000-8000-000000000001".to_string(),
            title: "Do the thing".to_string(),
            content: "Content with **bold**, _italic_, and `code`.".to_string(),
            labels: vec!["task".to_string()],
            branch: None,
            created_at: "2026-06-25T10:10:06+02:00".to_string(),
            updated_at: None,
            completed_at: None,
            due_at: None,
        }],
    }
}

fn sample_llm_request() -> LlmTodoRequest {
    LlmTodoRequest {
        backend: LlmBackend::CodexExec,
        base_url: DEFAULT_LLM_BASE_URL.to_string(),
        model: DEFAULT_LLM_MODEL.to_string(),
        api_key: None,
        instructions: "Write useful todos.".to_string(),
        project: sample_project(),
        user_prompt: "Customer asked for follow-up during the call.".to_string(),
        requested_at: "2026-06-25T10:00:00Z".to_string(),
        codex_reasoning_effort: None,
        codex_fast_mode: false,
    }
}

#[test]
fn validates_llm_base_url() {
    assert!(validate_llm_base_url("https://api.openai.com/v1").is_ok());
    assert!(validate_llm_base_url("file:///tmp/nope").is_err());
}

#[test]
fn base_urls_need_a_scheme_of_the_web() {
    assert!(validate_llm_base_url(" http://localhost:8080/ ").is_ok());
    assert_eq!(
        validate_llm_base_url("file:///tmp/nope"),
        Err(TodoError::UnsupportedScheme)
    );
    assert_eq!(
        validate_llm_base_url("nonsense/"),
        Err(TodoError::InvalidBaseUrl { base_url: "nonsense".to_string() })
    );
    assert_eq!(
        chat_completions_url(" https://api.openai.com/v1// "),
        Ok("https://api.openai.com/v1/chat/completions".to_string())
    );
    assert_eq!(
        chat_completions_url(" x/ "),
        Err(TodoError::InvalidBaseUrl { base_url: "x".to_string() })
    );
    assert_eq!(check_base_url("a", Some("http".to_string())), Ok(()));
    assert_eq!(check_base_url("a", Some("https".to_string())), Ok(()));
    assert_eq!(check_base_url("a", Some("ftp".to_string())), Err(TodoError::UnsupportedScheme));
    assert_eq!(
        check_base_url(" a/", None),
        Err(TodoError::InvalidBaseUrl { base_url: "a".to_string() })
    );
}

#[test]
fn chat_bar_todo_prompt_includes_harness_context_and_user_prompt() {
    let prompt = chat_bar_todo_prompt(&sample_llm_request());

    assert!(prompt.contains("chat bar JSON harness"));
    assert!(prompt.contains("Return only one valid JSON object."));
    assert!(prompt.contains("Do not include Markdown"));
    assert!(prompt.contains("Write useful todos."));
    assert!(prompt.contains("Selected project:"));
    assert!(prompt.contains("Title: Example"));
    assert!(prompt.contains("Customer asked for follow-up"));
}

#[test]
fn prompts_are_put_together_from_their_parts() {
    let mut request = sample_llm_request();
    request.instructions = " Be brief. \n".to_string();
    request.user_prompt = " Call them. ".to_string();
    let context = "Title: Example\nDescription: Project description\nLabels: project\n\
                   Existing todos:\n- Do the thing";
    assert_eq!(llm_project_context(&request.project), context);
    let system = format!(
        "{CHAT_BAR_JSON_HARNESS}\n\nTODO data instructions:\nBe brief.\n\n\
         Current time: 2026-06-25T10:00:00Z\n\nSelected project:\n{context}"
    );
    assert_eq!(chat_bar_system_prompt(&request), system);
    assert_eq!(
        chat_bar_todo_prompt(&request),
        format!("{system}\n\nUser prompt:\nCall them.")
    );
    request.project.tasks.clear();
    request.project.labels.clear();
    assert_eq!(
        llm_project_context(&request.project),
        "Title: Example\nDescription: Project description\nLabels: -\nExisting todos:\n- none"
    );
    assert!(CHAT_BAR_JSON_HARNESS.starts_with("You are the todui chat bar JSON harness.\n"));
    assert!(CHAT_BAR_JSON_HARNESS.ends_with("\"due_at\" when absent."));
}

#[test]
fn codex_exec_args_are_ephemeral_schema_backed_and_jsonl() {
    let args = codex_exec_args(&sample_llm_request());

    assert_eq!(args[0], "exec");
    assert!(args.contains(&"--ephemeral".to_string()));
    assert!(args.windows(2).any(|pair| pair[0] == "-s" && pair[1] == "read-only"));
    assert!(!args.iter().any(|arg| arg.contains("model_reasoning_effort")));
    assert!(!args.iter().any(|arg| arg.contains("service_tier")));
    assert!(args.windows(2).any(|pair| {
        pair[0] == "--output-schema" && pair[1] == "schemas/chat-bar-todo.schema.json"
    }));
    assert!(args.contains(&"--json".to_string()));
    assert_eq!(args.last().map(String::as_str), Some("-"));
}

#[test]
fn codex_exec_args_include_reasoning_and_fast_overrides() {
    let mut request = sample_llm_request();
    request.codex_reasoning_effort = Some(CodexReasoningEffort::High);
    request.codex_fast_mode = true;

    let args = codex_exec_args(&request);

    assert!(args.contains(&"model_reasoning_effort=high".to_string()));
    assert!(args.contains(&"service_tier=\"fast\"".to_string()));
}

#[test]
fn requests_go_to_their_backend() {
    let request = sample_llm_request();
    assert_eq!(
        request_llm_todo(&request),
        Ok(LlmCall::Codex {
            args: codex_exec_args(&request),
            input: chat_bar_todo_prompt(&request),
        })
    );
    let mut api = sample_llm_request();
    api.backend = LlmBackend::Api;
    assert_eq!(request_llm_todo(&api), Err(TodoError::ApiKeyNotSet));
    api.api_key = Some(" key ".to_string());
    assert_eq!(
        request_llm_todo(&api),
        Ok(LlmCall::Api {
            url: "https://api.openai.com/v1/chat/completions".to_string(),
            api_key: "key".to_string(),
            model: DEFAULT_LLM_MODEL.to_string(),
            system_prompt: chat_bar_system_prompt(&api),
            user_prompt: api.user_prompt.clone(),
        })
    );
    api.base_url = "nowhere".to_string();
    api.api_key = None;
    assert_eq!(
        request_llm_todo(&api),
        Err(TodoError::InvalidBaseUrl { base_url: "nowhere".to_string() })
    );
}

#[test]
fn parses_chat_completion_todo_draft() {
    let response = r#"{"choices":[{"message":{"content":"{\"title\":\"Call customer\",\"content\":\"Ask for the missing invoice number.\",\"labels\":[\"call\",\"billing\"],\"branch\":null,\"due_at\":null}"}}]}"#;

    let draft = parse_chat_completion_draft(response).unwrap();
    let draft = draft.parse::<serde_json::Value>().unwrap();

    assert_eq!(draft["title"], "Call customer");
    assert_eq!(draft["labels"][0], "call");
    assert_eq!(draft["labels"][1], "billing");
    assert!(draft["branch"].is_null());
}

#[test]
fn replies_without_a_draft_are_errors() {
    assert_eq!(parse_chat_completion_draft("{ nope"), Err(TodoError::InvalidResponse));
    assert_eq!(parse_chat_completion_draft("{}"), Err(TodoError::MissingTodoJson));
    assert_eq!(
        parse_chat_completion_draft(r#"{"choices":[{"message":{"content":7}}]}"#),
        Err(TodoError::MissingTodoJson)
    );
    assert_eq!(completion_draft(JsonText::Found(" x ".to_string())), Ok("x".to_string()));
    assert_eq!(completion_draft(JsonText::Missing), Err(TodoError::MissingTodoJson));
    assert_eq!(completion_draft(JsonText::Invalid), Err(TodoError::InvalidResponse));
    assert_eq!(
        api_reply_draft(false, "500 Internal Server Error", "**bad**"),
        Err(TodoError::ApiStatus {
            status: "500 Internal Server Error".to_string(),
            body: "bad".to_string(),
        })
    );
    assert_eq!(
        api_reply_draft(true, "200 OK", r#"{"choices":[{"message":{"content":" {} "}}]}"#),
        Ok("{}".to_string())
    );
}

#[test]
fn parses_codex_jsonl_final_agent_message() {
    let stdout = r#"{"type":"thread.started","thread_id":"1"}
{"type":"item.completed","item":{"type":"agent_message","text":"{\"title\":\"Codex\",\"content\":\"JSONL final message.\",\"labels\":[],\"branch\":null,\"due_at\":null}"}}
{"type":"turn.completed"}"#;

    let draft = parse_codex_json_final_message(stdout).unwrap();
    let draft = draft.parse::<serde_json::Value>().unwrap();

    assert_eq!(draft["title"], "Codex");
}

fn event(kind: &str, item_kind: Option<&str>, text: Option<&str>) -> Option<CodexEvent> {
    Some(CodexEvent {
        kind: Some(kind.to_string()),
        item_kind: item_kind.map(str::to_string),
        text: text.map(str::to_string),
    })
}

#[test]
fn the_last_message_counts() {
    let events = vec![
        event("item.completed", Some("agent_message"), Some("first")),
        event("item.completed", Some("agent_message"), Some(" last ")),
        event("item.completed", Some("reasoning"), Some("thought")),
        event("item.started", Some("agent_message"), Some("later")),
        event("item.completed", Some("agent_message"), None),
    ];
    assert_eq!(final_message(&events), Ok("last".to_string()));
    assert_eq!(final_message(&Vec::new()), Err(TodoError::NoFinalMessage));
    assert_eq!(
        final_message(&vec![event("item.completed", Some("agent_message"), Some("x")), None]),
        Err(TodoError::InvalidCodexEvent)
    );
    assert_eq!(
        parse_codex_json_final_message("{\"type\":\"turn.completed\"}\n\n"),
        Err(TodoError::NoFinalMessage)
    );
    assert_eq!(parse_codex_json_final_message("oops"), Err(TodoError::InvalidCodexEvent));
}

#[test]
fn what_codex_gives_back_is_judged() {
    let args = vec!["exec".to_string(), "-".to_string()];
    assert_eq!(
        codex_reply_draft(&args, false, "out", " err \n"),
        Err("codex exec failed\ncommand: codex exec -\nstderr:\nerr".to_string())
    );
    assert_eq!(
        codex_reply_draft(&args, true, " \n", ""),
        Err("codex exec returned empty json stream".to_string())
    );
    assert_eq!(
        codex_reply_draft(&args, true, " oops ", ""),
        Err("codex stdout: oops".to_string())
    );
    assert_eq!(codex_context(" oops "), "codex stdout: oops");
    let line = r#"{"type":"item.completed","item":{"type":"agent_message","text":"{}"}}"#;
    assert_eq!(codex_reply_draft(&args, true, line, ""), Ok("{}".to_string()));
}

#[test]
fn converts_llm_draft_to_new_task_with_app_owned_fields() {
    let task = llm_draft_to_task(
        LlmTodoDraft {
            title: "  Follow up ".to_string(),
            content: " Capture the decision. ".to_string(),
            labels: vec![" meeting ".to_string(), "".to_string()],
            branch: Some(" ".to_string()),
            due_at: Some("2026-06-26T09:00:00+02:00".to_string()),
        },
        NOW,
    )
    .unwrap();

    assert_eq!(uuid::Uuid::parse_str(&task.id).unwrap().get_version_num(), 7);
    assert_eq!(task.title, "Follow up");
    assert_eq!(task.content, "Capture the decision.");
    assert_eq!(task.labels, vec!["meeting"]);
    assert_eq!(task.branch, None);
    assert_eq!(task.created_at, "2026-06-25T08:00:00Z");
    assert_eq!(task.updated_at, None);
    assert_eq!(task.completed_at, None);
    assert_eq!(task.due_at.as_deref(), Some("2026-06-26T09:00:00+02:00"));
}

#[test]
fn drafts_need_a_title_and_a_content() {
    let draft = |title: &str, content: &str, due_at: Option<&str>| LlmTodoDraft {
        title: title.to_string(),
        content: content.to_string(),
        labels: Vec::new(),
        branch: Some(" b ".to_string()),
        due_at: due_at.map(str::to_string),
    };
    let id = || "id".to_string();
    assert_eq!(draft_to_task(draft(" ", "", None), NOW, id()), Err(TodoError::EmptyDraftTitle));
    assert_eq!(
        draft_to_task(draft("t", " ", Some("x")), NOW, id()),
        Err(TodoError::EmptyDraftContent)
    );
    assert_eq!(
        draft_to_task(draft("t", "c", Some("x")), NOW, id()),
        Err(TodoError::InvalidDateTime { field: "due_at".to_string() })
    );
    let task = draft_to_task(draft("t", "c", Some(" ")), NOW, id()).unwrap();
    assert_eq!(task.id, "id");
    assert_eq!(task.due_at, None);
    assert_eq!(task.branch.as_deref(), Some("b"));
}

#[test]
fn failures_are_logged_with_their_time() {
    assert_eq!(
        log_entry("2026-06-25T08:00:00Z", "codex exec failed\nstderr:\nnope"),
        "[2026-06-25T08:00:00Z] codex exec failed\nstderr:\nnope\n\n"
    );
}
