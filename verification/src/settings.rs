//! Settings.
use vstd::prelude::*;

verus! {

pub const DEFAULT_TASK_CONTENT_WRAP_COLS: usize = 120;

pub const MIN_TASK_CONTENT_WRAP_COLS: usize = 20;

pub const TASK_CONTENT_WRAP_COL_STEP: usize = 10;

pub const DEFAULT_LLM_BASE_URL: &'static str = "https://api.openai.com/v1";

pub const DEFAULT_LLM_MODEL: &'static str = "gpt-5.5";

/// Who turns a prompt into a draft.
#[derive(Debug, Clone, Copy, PartialEq, Eq, Structural)]
pub enum LlmBackend {
    CodexExec,
    Api,
}

impl Default for LlmBackend {
    fn default() -> (r: Self)
        ensures
            r == LlmBackend::CodexExec,
    {
        LlmBackend::CodexExec
    }
}

impl LlmBackend {
    pub open spec fn label_spec(self) -> Seq<char> {
        match self {
            LlmBackend::CodexExec => "codex_exec"@,
            LlmBackend::Api => "api"@,
        }
    }

    pub open spec fn other(self) -> LlmBackend {
        match self {
            LlmBackend::CodexExec => LlmBackend::Api,
            LlmBackend::Api => LlmBackend::CodexExec,
        }
    }

    pub fn label(self) -> (r: &'static str)
        ensures
            r@ == self.label_spec(),
    {
        match self {
            LlmBackend::CodexExec => "codex_exec",
            LlmBackend::Api => "api",
        }
    }

    /// The other backend, in whichever direction.
    pub fn cycle(self, _direction: isize) -> (r: Self)
        ensures
            r == self.other(),
    {
        match self {
            LlmBackend::CodexExec => LlmBackend::Api,
            LlmBackend::Api => LlmBackend::CodexExec,
        }
    }
}

/// Changing the backend twice changes nothing.
pub proof fn law_backend_cycle(backend: LlmBackend)
    ensures
        backend.other() != backend,
        backend.other().other() == backend,
{
}

/// How much thought a draft gets.
#[derive(Debug, Clone, Copy, PartialEq, Eq, Structural)]
pub enum CodexReasoningEffort {
    Minimal,
    Low,
    Medium,
    High,
    Xhigh,
}

impl CodexReasoningEffort {
    pub open spec fn label_spec(self) -> Seq<char> {
        match self {
            CodexReasoningEffort::Minimal => "minimal"@,
            CodexReasoningEffort::Low => "low"@,
            CodexReasoningEffort::Medium => "medium"@,
            CodexReasoningEffort::High => "high"@,
            CodexReasoningEffort::Xhigh => "xhigh"@,
        }
    }

    pub fn label(self) -> (r: &'static str)
        ensures
            r@ == self.label_spec(),
    {
        match self {
            CodexReasoningEffort::Minimal => "minimal",
            CodexReasoningEffort::Low => "low",
            CodexReasoningEffort::Medium => "medium",
            CodexReasoningEffort::High => "high",
            CodexReasoningEffort::Xhigh => "xhigh",
        }
    }
}

/// The choices of effort, none first.
pub open spec fn efforts() -> Seq<Option<CodexReasoningEffort>> {
    seq![
        None,
        Some(CodexReasoningEffort::Minimal),
        Some(CodexReasoningEffort::Low),
        Some(CodexReasoningEffort::Medium),
        Some(CodexReasoningEffort::High),
        Some(CodexReasoningEffort::Xhigh),
    ]
}

/// Where a choice stands among the choices of effort.
pub open spec fn effort_index(effort: Option<CodexReasoningEffort>) -> int {
    match effort {
        None => 0,
        Some(CodexReasoningEffort::Minimal) => 1,
        Some(CodexReasoningEffort::Low) => 2,
        Some(CodexReasoningEffort::Medium) => 3,
        Some(CodexReasoningEffort::High) => 4,
        Some(CodexReasoningEffort::Xhigh) => 5,
    }
}

/// The choice `direction` steps on, round and round.
pub open spec fn effort_after(
    effort: Option<CodexReasoningEffort>,
    direction: int,
) -> Option<CodexReasoningEffort> {
    efforts()[(effort_index(effort) + direction) % 6]
}

/// The choice of effort `direction` steps on, round and round.
pub fn cycle_codex_reasoning_effort(
    effort: Option<CodexReasoningEffort>,
    direction: isize,
) -> (r: Option<CodexReasoningEffort>)
    requires
        effort_index(effort) + direction <= isize::MAX,
    ensures
        r == effort_after(effort, direction as int),
{
    let current: isize = match effort {
        None => 0,
        Some(CodexReasoningEffort::Minimal) => 1,
        Some(CodexReasoningEffort::Low) => 2,
        Some(CodexReasoningEffort::Medium) => 3,
        Some(CodexReasoningEffort::High) => 4,
        Some(CodexReasoningEffort::Xhigh) => 5,
    };
    match (current + direction).checked_rem_euclid(6) {
        Some(1) => Some(CodexReasoningEffort::Minimal),
        Some(2) => Some(CodexReasoningEffort::Low),
        Some(3) => Some(CodexReasoningEffort::Medium),
        Some(4) => Some(CodexReasoningEffort::High),
        Some(5) => Some(CodexReasoningEffort::Xhigh),
        _ => None,
    }
}

/// A step on and a step back leave the effort as it was, and so do six steps on.
pub proof fn law_effort_cycle(effort: Option<CodexReasoningEffort>, direction: int)
    ensures
        effort_after(effort_after(effort, direction), -direction) == effort,
        effort_after(effort, 6) == effort,
        effort_after(effort, 1) != effort,
{
    assert(forall|i: int| 0 <= i < 6 ==> effort_index(#[trigger] efforts()[i]) == i);
    let i = effort_index(effort);
    assert(efforts()[i] == effort);
    let j = (i + direction) % 6;
    assert((j - direction) % 6 == i);
}

/// Settings as mathematics sees them.
pub struct SettingsView {
    pub statusline_message_timeout_ms: nat,
    pub syntax_theme: Seq<char>,
    pub syntax_theme_folder: Seq<char>,
    pub use_theme_app_background: bool,
    pub use_theme_modal_background: bool,
    pub task_content_wrap_cols: nat,
    pub llm_backend: LlmBackend,
    pub codex_reasoning_effort: Option<CodexReasoningEffort>,
    pub codex_fast_mode: bool,
    pub llm_base_url: Seq<char>,
    pub llm_model: Seq<char>,
}

/// Settings.
#[derive(Debug, PartialEq, Eq)]
pub struct Settings {
    pub statusline_message_timeout_ms: u64,
    pub syntax_theme: String,
    pub syntax_theme_folder: String,
    pub use_theme_app_background: bool,
    pub use_theme_modal_background: bool,
    pub task_content_wrap_cols: usize,
    pub llm_backend: LlmBackend,
    pub codex_reasoning_effort: Option<CodexReasoningEffort>,
    pub codex_fast_mode: bool,
    pub llm_base_url: String,
    pub llm_model: String,
}

impl View for Settings {
    type V = SettingsView;

    open spec fn view(&self) -> SettingsView {
        SettingsView {
            statusline_message_timeout_ms: self.statusline_message_timeout_ms as nat,
            syntax_theme: self.syntax_theme@,
            syntax_theme_folder: self.syntax_theme_folder@,
            use_theme_app_background: self.use_theme_app_background,
            use_theme_modal_background: self.use_theme_modal_background,
            task_content_wrap_cols: self.task_content_wrap_cols as nat,
            llm_backend: self.llm_backend,
            codex_reasoning_effort: self.codex_reasoning_effort,
            codex_fast_mode: self.codex_fast_mode,
            llm_base_url: self.llm_base_url@,
            llm_model: self.llm_model@,
        }
    }
}

impl SettingsView {
    /// The settings at first.
    pub open spec fn initial() -> SettingsView {
        SettingsView {
            statusline_message_timeout_ms: 3000,
            syntax_theme: "base16-ocean.dark"@,
            syntax_theme_folder: "themes"@,
            use_theme_app_background: true,
            use_theme_modal_background: true,
            task_content_wrap_cols: 120,
            llm_backend: LlmBackend::CodexExec,
            codex_reasoning_effort: None,
            codex_fast_mode: false,
            llm_base_url: "https://api.openai.com/v1"@,
            llm_model: "gpt-5.5"@,
        }
    }
}

impl Default for Settings {
    fn default() -> (r: Self)
        ensures
            r@ == SettingsView::initial(),
    {
        Settings {
            statusline_message_timeout_ms: 3000,
            syntax_theme: "base16-ocean.dark".to_owned(),
            syntax_theme_folder: "themes".to_owned(),
            use_theme_app_background: true,
            use_theme_modal_background: true,
            task_content_wrap_cols: DEFAULT_TASK_CONTENT_WRAP_COLS,
            llm_backend: LlmBackend::CodexExec,
            codex_reasoning_effort: None,
            codex_fast_mode: false,
            llm_base_url: DEFAULT_LLM_BASE_URL.to_owned(),
            llm_model: DEFAULT_LLM_MODEL.to_owned(),
        }
    }
}

impl Settings {
    /// How long a message stays, in milliseconds.
    pub fn statusline_message_timeout(&self) -> (r: u64)
        ensures
            r == self@.statusline_message_timeout_ms,
    {
        self.statusline_message_timeout_ms
    }
}

/// The columns that content wraps at after a change: a step fewer, but not
/// under the least, or a step more, as far as numbers go.
pub open spec fn wrap_cols_after(cols: nat, direction: int) -> nat {
    if direction < 0 {
        if cols >= MIN_TASK_CONTENT_WRAP_COLS + TASK_CONTENT_WRAP_COL_STEP {
            (cols - TASK_CONTENT_WRAP_COL_STEP) as nat
        } else {
            MIN_TASK_CONTENT_WRAP_COLS as nat
        }
    } else if cols + TASK_CONTENT_WRAP_COL_STEP <= usize::MAX {
        cols + TASK_CONTENT_WRAP_COL_STEP as nat
    } else {
        usize::MAX as nat
    }
}

/// The columns that content wraps at after a change.
pub fn changed_wrap_cols(cols: usize, direction: isize) -> (r: usize)
    ensures
        r == wrap_cols_after(cols as nat, direction as int),
{
    if direction < 0 {
        if cols >= MIN_TASK_CONTENT_WRAP_COLS + TASK_CONTENT_WRAP_COL_STEP {
            cols - TASK_CONTENT_WRAP_COL_STEP
        } else {
            MIN_TASK_CONTENT_WRAP_COLS
        }
    } else {
        cols.saturating_add(TASK_CONTENT_WRAP_COL_STEP)
    }
}

/// Wrapping is never set below the least; a step more and a step fewer leave
/// it as it was, from the least on and as far as numbers go.
pub proof fn law_wrap_cols(cols: nat)
    requires
        cols <= usize::MAX,
    ensures
        wrap_cols_after(cols, -1) >= MIN_TASK_CONTENT_WRAP_COLS,
        MIN_TASK_CONTENT_WRAP_COLS <= cols && cols + TASK_CONTENT_WRAP_COL_STEP <= usize::MAX
            ==> wrap_cols_after(wrap_cols_after(cols, 1), -1) == cols,
{
}

/// A line of the settings screen.
#[derive(Debug, Clone, Copy, PartialEq, Eq, Structural)]
pub enum SettingsField {
    SyntaxTheme,
    AppBackground,
    ModalBackground,
    TaskContentWrapCols,
    LlmBackend,
    CodexReasoningEffort,
    CodexFastMode,
    LlmBaseUrl,
    LlmModel,
}

/// How many lines the settings screen has.
pub const SETTINGS_FIELD_COUNT: usize = 9;

/// The lines of the settings screen.
pub open spec fn settings_fields() -> Seq<SettingsField> {
    seq![
        SettingsField::SyntaxTheme,
        SettingsField::AppBackground,
        SettingsField::ModalBackground,
        SettingsField::TaskContentWrapCols,
        SettingsField::LlmBackend,
        SettingsField::CodexReasoningEffort,
        SettingsField::CodexFastMode,
        SettingsField::LlmBaseUrl,
        SettingsField::LlmModel,
    ]
}

/// A line of the settings screen.
pub fn settings_field(index: usize) -> (r: SettingsField)
    requires
        index < SETTINGS_FIELD_COUNT,
    ensures
        r == settings_fields()[index as int],
{
    match index {
        0 => SettingsField::SyntaxTheme,
        1 => SettingsField::AppBackground,
        2 => SettingsField::ModalBackground,
        3 => SettingsField::TaskContentWrapCols,
        4 => SettingsField::LlmBackend,
        5 => SettingsField::CodexReasoningEffort,
        6 => SettingsField::CodexFastMode,
        7 => SettingsField::LlmBaseUrl,
        _ => SettingsField::LlmModel,
    }
}

impl SettingsField {
    pub open spec fn label_spec(self) -> Seq<char> {
        match self {
            SettingsField::SyntaxTheme => "Theme"@,
            SettingsField::AppBackground => "App background"@,
            SettingsField::ModalBackground => "Modal background"@,
            SettingsField::TaskContentWrapCols => "Content wrap cols"@,
            SettingsField::LlmBackend => "LLM backend"@,
            SettingsField::CodexReasoningEffort => "Codex reasoning"@,
            SettingsField::CodexFastMode => "Codex fast"@,
            SettingsField::LlmBaseUrl => "LLM base URL"@,
            SettingsField::LlmModel => "LLM model"@,
        }
    }

    pub fn label(self) -> (r: &'static str)
        ensures
            r@ == self.label_spec(),
    {
        match self {
            SettingsField::SyntaxTheme => "Theme",
            SettingsField::AppBackground => "App background",
            SettingsField::ModalBackground => "Modal background",
            SettingsField::TaskContentWrapCols => "Content wrap cols",
            SettingsField::LlmBackend => "LLM backend",
            SettingsField::CodexReasoningEffort => "Codex reasoning",
            SettingsField::CodexFastMode => "Codex fast",
            SettingsField::LlmBaseUrl => "LLM base URL",
            SettingsField::LlmModel => "LLM model",
        }
    }
}

} // verus!
