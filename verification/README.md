# todui

`todui` is a terminal TODO app backed by local JSON project files. Its logic is
a library that [Verus](https://github.com/verus-lang/verus) verifies; the
program around it reads keys, files and answers, and draws.

## Layout

- `src/` is the verified library.
  - `app`: screens, modes and keys. A key changes the state and may ask for an
    effect, such as saving a project; what came of it is handed back.
  - `laws`: what holds of the application as a whole.
  - `model`, `settings`, `files`, `watch`, `time`, `order`: projects, tasks and
    settings, where they are kept, and when they are reloaded or hidden.
  - `field`, `forms`, `key`: editing text.
  - `content`, `inline`, `table`, `syntax`, `render`, `style`: how the content of
    a task is shown.
  - `view`, `geometry`: what stands on the screens, and where.
  - `llm`, `errors`: asking for drafts, reading answers, and what is said of
    failures.
  - `text`: texts.
- `app/` is the terminal program.
- `tests/` runs the library.

## Files

On Linux everything is kept in `$XDG_CONFIG_HOME/todui`, or `~/.config/todui`; on
macOS in `~/Library/Application Support/todui`:

- `settings.json`
- `data/*.json`, one file per project
- `data/INSTRUCTIONS.md`
- `themes/*.tmTheme`
- `schemas/chat-bar-todo.schema.json`, which the program manages

## Drafts

The chat bar asks `codex exec`, or an API that speaks the chat completions
protocol, whose key stands in `TODUI_LLM_API_KEY`.
