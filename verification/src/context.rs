//! Where the application keeps its own files: the application directory, the
//! configuration file and the index database inside it.
use vstd::prelude::*;
use crate::index::{abs_note_path, path_join};
use crate::config::opt_str_view;

verus! {

broadcast use vstd::string::group_string_axioms;

/// Why the application's own paths or settings could not be had.
#[derive(Debug, Clone, Copy, PartialEq, Eq, Structural)]
pub enum ContextError {
    /// Neither a configuration directory nor a home directory is known.
    NoConfigDir,
    /// The configuration file sets no `notes_dir`.
    MissingNotesDir,
}

impl ContextError {
    pub fn message(&self) -> (r: String)
        ensures
            r@ == context_message(*self),
    {
        match self {
            ContextError::NoConfigDir => String::from_str("No config/home\ndirectory"),
            ContextError::MissingNotesDir => String::from_str("missing notes_dir"),
        }
    }
}

pub open spec fn context_message(e: ContextError) -> Seq<char> {
    match e {
        ContextError::NoConfigDir => "No config/home\ndirectory"@,
        ContextError::MissingNotesDir => "missing notes_dir"@,
    }
}

/// `dirs::config_dir`, as a string. What it returns depends on the
/// environment and the platform; nothing is claimed of it.
#[verifier::external_body]
fn config_dir_path() -> (r: Option<String>) {
    dirs::config_dir().map(|p| p.to_string_lossy().into_owned())
}

/// `dirs::home_dir`, as a string. What it returns depends on the
/// environment; nothing is claimed of it.
#[verifier::external_body]
pub(crate) fn home_dir_path() -> (r: Option<String>) {
    dirs::home_dir().map(|p| p.to_string_lossy().into_owned())
}

pub open spec fn app_dir_name() -> Seq<char> {
    "monux"@
}

/// The application directory under the platform's configuration directory,
/// or under the home directory when there is none.
pub open spec fn app_root(config_dir: Option<Seq<char>>, home_dir: Option<Seq<char>>) -> Option<Seq<char>> {
    match config_dir {
        Some(c) => Some(path_join(c, app_dir_name())),
        None => match home_dir {
            Some(h) => Some(path_join(h, app_dir_name())),
            None => None,
        },
    }
}

/// The directory that holds the configuration and the index.
pub struct AppDir {
    root: String,
}

impl AppDir {
    pub closed spec fn root_view(&self) -> Seq<char> {
        self.root@
    }

    /// The application directory for the given configuration and home
    /// directories.
    pub fn from_dirs(config_dir: Option<String>, home_dir: Option<String>) -> (r: Result<AppDir, ContextError>)
        ensures
            match app_root(opt_str_view(config_dir), opt_str_view(home_dir)) {
                Some(root) => r is Ok && r->Ok_0.root_view() == root,
                None => r == Err::<AppDir, ContextError>(ContextError::NoConfigDir),
            },
    {
        let base = match config_dir {
            Some(c) => c,
            None => match home_dir {
                Some(h) => h,
                None => {
                    return Err(ContextError::NoConfigDir);
                },
            },
        };
        Ok(AppDir { root: abs_note_path(base.as_str(), "monux") })
    }

    /// The application directory of this user, from `dirs`.
    pub fn new() -> (r: Result<AppDir, ContextError>)
        ensures
            r is Ok ==> exists|base: Seq<char>| r->Ok_0.root_view() == path_join(base, app_dir_name()),
            r matches Err(e) ==> e == ContextError::NoConfigDir,
    {
        let config_dir = config_dir_path();
        let home_dir = home_dir_path();
        let r = AppDir::from_dirs(config_dir, home_dir);
        proof {
            if r is Ok {
                match opt_str_view(config_dir) {
                    Some(c) => {
                        assert(r->Ok_0.root_view() == path_join(c, app_dir_name()));
                    },
                    None => {
                        let h = opt_str_view(home_dir)->Some_0;
                        assert(r->Ok_0.root_view() == path_join(h, app_dir_name()));
                    },
                }
            }
        }
        r
    }

    /// The directory itself.
    pub fn root(&self) -> (r: &str)
        ensures
            r@ == self.root_view(),
    {
        self.root.as_str()
    }

    pub fn config_path(&self) -> (r: String)
        ensures
            r@ == path_join(self.root_view(), "config.toml"@),
    {
        abs_note_path(self.root.as_str(), "config.toml")
    }

    pub fn index_path(&self) -> (r: String)
        ensures
            r@ == path_join(self.root_view(), "notes.redb"@),
    {
        abs_note_path(self.root.as_str(), "notes.redb")
    }
}

/// The application's paths, as the commands and the browser use them.
pub struct StorageContext {
    app_dir: AppDir,
}

impl StorageContext {
    pub closed spec fn root_view(&self) -> Seq<char> {
        self.app_dir.root_view()
    }

    pub fn new() -> (r: Result<StorageContext, ContextError>)
        ensures
            r is Ok ==> exists|base: Seq<char>| r->Ok_0.root_view() == path_join(base, app_dir_name()),
            r matches Err(e) ==> e == ContextError::NoConfigDir,
    {
        match AppDir::new() {
            Ok(app_dir) => Ok(StorageContext { app_dir }),
            Err(e) => Err(e),
        }
    }

    pub fn with_app_dir(app_dir: AppDir) -> (r: StorageContext)
        ensures
            r.root_view() == app_dir.root_view(),
    {
        StorageContext { app_dir }
    }

    /// The directory that `init_app_dir` creates.
    pub fn app_dir(&self) -> (r: &AppDir)
        ensures
            r.root_view() == self.root_view(),
    {
        &self.app_dir
    }

    pub fn config_path(&self) -> (r: String)
        ensures
            r@ == path_join(self.root_view(), "config.toml"@),
    {
        self.app_dir.config_path()
    }

    pub fn index_path(&self) -> (r: String)
        ensures
            r@ == path_join(self.root_view(), "notes.redb"@),
    {
        self.app_dir.index_path()
    }
}

/// The context that each command of the command-line program runs in.
pub struct CommandContext {
    storage: StorageContext,
}

impl CommandContext {
    pub closed spec fn root_view(&self) -> Seq<char> {
        self.storage.root_view()
    }

    pub fn new() -> (r: Result<CommandContext, ContextError>)
        ensures
            r is Ok ==> exists|base: Seq<char>| r->Ok_0.root_view() == path_join(base, app_dir_name()),
            r matches Err(e) ==> e == ContextError::NoConfigDir,
    {
        match StorageContext::new() {
            Ok(storage) => Ok(CommandContext { storage }),
            Err(e) => Err(e),
        }
    }

    pub fn storage(&self) -> (r: &StorageContext)
        ensures
            r.root_view() == self.root_view(),
    {
        &self.storage
    }

    pub fn config_path(&self) -> (r: String)
        ensures
            r@ == path_join(self.root_view(), "config.toml"@),
    {
        self.storage.config_path()
    }
}

/// `dirs::document_dir`, as a string. What it returns depends on the
/// environment and the platform; nothing is claimed of it.
#[verifier::external_body]
fn document_dir_path() -> (r: Option<String>) {
    dirs::document_dir().map(|p| p.to_string_lossy().into_owned())
}

/// The notes directory that `init` proposes: `notes` under the documents
/// directory, or under the home directory when there is none.
pub open spec fn notes_dir_default(documents: Option<Seq<char>>, home: Seq<char>) -> Seq<char> {
    match documents {
        Some(d) => path_join(d, "notes"@),
        None => path_join(home, "notes"@),
    }
}

pub fn notes_dir_for(documents: Option<String>, home: &str) -> (r: String)
    ensures
        r@ == notes_dir_default(opt_str_view(documents), home@),
{
    match documents {
        Some(d) => abs_note_path(d.as_str(), "notes"),
        None => abs_note_path(home, "notes"),
    }
}

/// The default notes directory of this user.
pub fn default_notes_dir(home: &str) -> (r: String)
    ensures
        exists|documents: Option<Seq<char>>| r@ == notes_dir_default(documents, home@),
{
    let documents = document_dir_path();
    let r = notes_dir_for(documents, home);
    assert(r@ == notes_dir_default(opt_str_view(documents), home@));
    r
}

/// The configuration file that `init` writes.
pub open spec fn default_config(notes_dir: Seq<char>) -> Seq<char> {
    "notes_dir = \""@ + notes_dir + "\"\ndaily_notes_dir = \"daily\"\nautosave\n= true\n"@
}

pub fn default_config_text(notes_dir: &str) -> (r: String)
    ensures
        r@ == default_config(notes_dir@),
{
    let mut s = String::from_str("notes_dir = \"");
    s.append(notes_dir);
    s.append("\"\ndaily_notes_dir = \"daily\"\nautosave\n= true\n");
    s
}

} // verus!
