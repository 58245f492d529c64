//! Where files are, and the files of a folder.
use vstd::prelude::*;

use crate::text::{concat_text, same_text, text_opt, texts};

verus! {

/// A file name, cut before its extension.
#[derive(Debug, PartialEq, Eq)]
pub struct FileEntry {
    pub stem: String,
    pub extension: Option<String>,
}

/// The stems of the files with an extension, as they come.
pub open spec fn stems_with(entries: Seq<FileEntry>, extension: Seq<char>) -> Seq<Seq<char>>
    decreases entries.len(),
{
    if entries.len() == 0 {
        Seq::empty()
    } else {
        let before = stems_with(entries.drop_last(), extension);
        if text_opt(entries.last().extension) == Some(extension) {
            before.push(entries.last().stem@)
        } else {
            before
        }
    }
}

/// The stems of the files with an extension, as they come.
pub fn stems_of(entries: &Vec<FileEntry>, extension: &str) -> (r: Vec<String>)
    ensures
        texts(r@) == stems_with(entries@, extension@),
{
    let mut found: Vec<String> = Vec::new();
    let mut i: usize = 0;
    assert(entries@.take(0) =~= Seq::empty());
    assert(texts(found@) =~= Seq::empty());
    while i < entries.len()
        invariant
            i <= entries@.len(),
            texts(found@) == stems_with(entries@.take(i as int), extension@),
        decreases entries@.len() - i,
    {
        assert(entries@.take(i + 1).drop_last() =~= entries@.take(i as int));
        let wanted = match &entries[i].extension {
            Some(own) => same_text(own.as_str(), extension),
            None => false,
        };
        if wanted {
            let ghost before = texts(found@);
            found.push(entries[i].stem.clone());
            assert(texts(found@) =~= before.push(entries@[i as int].stem@));
        }
        i = i + 1;
    }
    assert(entries@.take(entries@.len() as int) =~= entries@);
    found
}

/// The folder of the projects.
pub const DATA_DIR: &'static str = "data";

/// The file of the settings.
pub const SETTINGS_FILE: &'static str = "settings.json";

/// The instructions for drafts, in the folder of the projects.
pub const TODO_INSTRUCTIONS_FILE: &'static str = "INSTRUCTIONS.md";

/// The log of failed drafts, in the folder of the projects.
pub const CHAT_BAR_ERROR_LOG_FILE: &'static str = "chat-bar-error.log";

/// A system, as far as folders go.
#[derive(Debug, Clone, Copy, PartialEq, Eq, Structural)]
pub enum Platform {
    Linux,
    MacOs,
}

/// Whether a variable of the environment is set to something.
pub open spec fn is_set(variable: Option<Seq<char>>) -> bool {
    variable matches Some(text) && text.len() > 0
}

/// The folder that everything is kept in: under the user's folder for
/// configuration where the system has a variable for it, else under the home
/// folder; none where neither is set.
pub open spec fn config_dir_of(
    platform: Platform,
    xdg_config_home: Option<Seq<char>>,
    home: Option<Seq<char>>,
) -> Option<Seq<char>> {
    if platform == Platform::Linux && is_set(xdg_config_home) {
        Some(xdg_config_home->0 + "/todui"@)
    } else if is_set(home) {
        match platform {
            Platform::Linux => Some(home->0 + "/.config/todui"@),
            Platform::MacOs => Some(home->0 + "/Library/Application Support/todui"@),
        }
    } else {
        None
    }
}

fn set_text(variable: &Option<String>) -> (r: bool)
    ensures
        r == is_set(text_opt(*variable)),
{
    match variable {
        Some(text) => text.as_str().unicode_len() > 0,
        None => false,
    }
}

/// The folder that everything is kept in.
pub fn config_dir(
    platform: Platform,
    xdg_config_home: Option<String>,
    home: Option<String>,
) -> (r: Option<String>)
    ensures
        text_opt(r) == config_dir_of(platform, text_opt(xdg_config_home), text_opt(home)),
{
    if platform == Platform::Linux && set_text(&xdg_config_home) {
        if let Some(folder) = &xdg_config_home {
            return Some(concat_text(folder.as_str(), "/todui"));
        }
    }
    if set_text(&home) {
        if let Some(folder) = &home {
            return match platform {
                Platform::Linux => Some(concat_text(folder.as_str(), "/.config/todui")),
                Platform::MacOs => Some(
                    concat_text(folder.as_str(), "/Library/Application Support/todui"),
                ),
            };
        }
    }
    None
}

/// A file that is there from the first run on.
#[derive(Debug, Clone, Copy, PartialEq, Eq, Structural)]
pub enum DefaultFile {
    Settings,
    Instructions,
    ThemesReadme,
    /// The shape of drafts, which is the application's own.
    DraftSchema,
}

impl DefaultFile {
    /// Where the file stands in the folder that everything is kept in.
    pub open spec fn path_spec(self) -> Seq<char> {
        match self {
            DefaultFile::Settings => "settings.json"@,
            DefaultFile::Instructions => "data/INSTRUCTIONS.md"@,
            DefaultFile::ThemesReadme => "themes/README.md"@,
            DefaultFile::DraftSchema => "schemas/chat-bar-todo.schema.json"@,
        }
    }

    /// Where the file stands in the folder that everything is kept in.
    pub fn path(self) -> (r: &'static str)
        ensures
            r@ == self.path_spec(),
    {
        match self {
            DefaultFile::Settings => "settings.json",
            DefaultFile::Instructions => "data/INSTRUCTIONS.md",
            DefaultFile::ThemesReadme => "themes/README.md",
            DefaultFile::DraftSchema => "schemas/chat-bar-todo.schema.json",
        }
    }

    /// Whether the file is written at a start: where it is missing, and always
    /// where it is the application's own.
    pub fn is_written(self, exists_already: bool) -> (r: bool)
        ensures
            r == (!exists_already || self == DefaultFile::DraftSchema),
    {
        !exists_already || self == DefaultFile::DraftSchema
    }
}

/// The files of a folder are looked at one by one: those of the first half come
/// before those of the second, and a file is taken for its extension alone.
pub proof fn law_stems_one_by_one(a: Seq<FileEntry>, b: Seq<FileEntry>, extension: Seq<char>)
    ensures
        stems_with(a + b, extension) == stems_with(a, extension) + stems_with(b, extension),
        b.len() == 1 ==> stems_with(b, extension) == if text_opt(b[0].extension) == Some(
            extension,
        ) {
            seq![b[0].stem@]
        } else {
            Seq::empty()
        },
    decreases b.len(),
{
    if b.len() == 0 {
        assert(a + b =~= a);
        assert(stems_with(a, extension) + stems_with(b, extension) =~= stems_with(a, extension));
    } else {
        assert((a + b).drop_last() =~= a + b.drop_last());
        law_stems_one_by_one(a, b.drop_last(), extension);
        assert(stems_with(a + b, extension) =~= stems_with(a, extension) + stems_with(
            b,
            extension,
        ));
        if b.len() == 1 {
            assert(b.drop_last() =~= Seq::empty());
            assert(stems_with(b.drop_last(), extension) =~= Seq::empty());
            assert(b.last() == b[0]);
        }
    }
}

/// Whether a folder stands under another.
pub open spec fn is_under(folder: Option<Seq<char>>, outer: Option<Seq<char>>) -> bool {
    &&& folder is Some && outer is Some
    &&& outer->0.is_prefix_of(folder->0) && outer->0.len() < folder->0.len()
    &&& folder->0[outer->0.len() as int] == '/'
}

/// The folder that everything is kept in stands under one of the two folders of
/// the user that are asked for, and there is one where either is set; the folder
/// for configuration counts on one system alone, and there before the other.
pub proof fn law_config_dir(xdg: Option<Seq<char>>, home: Option<Seq<char>>)
    ensures
        is_set(xdg) ==> is_under(config_dir_of(Platform::Linux, xdg, home), xdg),
        !is_set(xdg) && is_set(home) ==> is_under(config_dir_of(Platform::Linux, xdg, home), home),
        is_set(home) ==> is_under(config_dir_of(Platform::MacOs, xdg, home), home),
        config_dir_of(Platform::MacOs, xdg, home) == config_dir_of(Platform::MacOs, None, home),
        is_set(xdg) ==> config_dir_of(Platform::Linux, xdg, home) == config_dir_of(
            Platform::Linux,
            xdg,
            None,
        ),
        !is_set(home) ==> config_dir_of(Platform::MacOs, xdg, home) is None,
        !is_set(xdg) && !is_set(home) ==> config_dir_of(Platform::Linux, xdg, home) is None,
{
    reveal_strlit("/todui");
    reveal_strlit("/.config/todui");
    reveal_strlit("/Library/Application Support/todui");
}

} // verus!
