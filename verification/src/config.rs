//! Where the viewer opens: at the file or folder it was started with, or in
//! the folder that it showed last; and where that folder is remembered.
//!
//! What the environment, the command line and the disk hold is found out by
//! the caller. The rules are here.

use crate::paths::{join, parent, path_join, path_parent, text_of};
use vstd::prelude::*;
use vstd::string::*;

pub use crate::models::{AppConfig, StartupInfo};

verus! {

/// What stands at a path.
#[derive(Clone, Copy, Debug, PartialEq, Eq, Structural)]
pub enum PathKind {
    /// A regular file.
    File,
    /// A directory.
    Directory,
    /// Neither, or nothing at all.
    Other,
}

/// Which of its sources decides where the viewer opens.
pub enum StartupSource {
    /// The file named by the `TEST_FILE_PATH` variable.
    TestFile(String),
    /// The path given as the first argument.
    Argument(String),
    /// The folder remembered from the last run.
    LastFolder,
}

/// What was found out of the source that decides.
pub enum StartupFacts {
    /// The file named by the `TEST_FILE_PATH` variable.
    TestFile(String),
    /// The path given as the first argument, and what stands there.
    Argument { path: String, kind: PathKind },
    /// What is remembered from the last run, or why it could not be had.
    Saved(Result<AppConfig, String>),
}

/// Where to open, as a value.
pub ghost struct Opening {
    pub folder: Seq<char>,
    pub file: Option<Seq<char>>,
}

impl View for StartupInfo {
    type V = Opening;

    open spec fn view(&self) -> Opening {
        Opening { folder: self.folder@, file: text_of(self.file) }
    }
}

/// A decision or the message that explains why there is none, as a value.
pub open spec fn decision_of(res: Result<StartupInfo, String>) -> Result<Opening, Seq<char>> {
    match res {
        Ok(info) => Ok(info@),
        Err(message) => Err(message@),
    }
}

/// The source that decides: the test variable where it is set; else the first
/// argument after the program's name where there is one; else the folder of
/// the last run.
pub fn startup_source(test_file: Option<String>, args: &Vec<String>) -> (source: StartupSource)
    ensures
        match test_file {
            Some(path) => source == StartupSource::TestFile(path),
            None => if args@.len() > 1 {
                source matches StartupSource::Argument(path) && path@ == args@[1]@
            } else {
                source is LastFolder
            },
        },
{
    match test_file {
        Some(path) => StartupSource::TestFile(path),
        None => if args.len() > 1 {
            StartupSource::Argument(args[1].clone())
        } else {
            StartupSource::LastFolder
        },
    }
}

/// Opening at a file: its folder is opened and the file is shown. A path
/// without a parent opens nothing.
pub open spec fn opening_at_file(path: Seq<char>) -> Result<Opening, Seq<char>> {
    match path_parent(path) {
        Some(folder) => Ok(Opening { folder, file: Some(path) }),
        None => Err("Invalid file path"@),
    }
}

/// Where the viewer opens, given what was found out.
/// - A test file: at that file.
/// - An argument: at the file if it is one; in the folder if it is one, with
///   no file shown; else nowhere.
/// - The last run: in the folder remembered, or in `.` where none is; a
///   failure to recall it is handed on as it is.
pub open spec fn opening_for(facts: StartupFacts) -> Result<Opening, Seq<char>> {
    match facts {
        StartupFacts::TestFile(path) => opening_at_file(path@),
        StartupFacts::Argument { path, kind } => match kind {
            PathKind::File => opening_at_file(path@),
            PathKind::Directory => Ok(Opening { folder: path@, file: None }),
            PathKind::Other => Err("Invalid path"@),
        },
        StartupFacts::Saved(saved) => match saved {
            Ok(config) => Ok(
                Opening {
                    folder: match config.last_folder {
                        Some(folder) => folder@,
                        None => "."@,
                    },
                    file: None,
                },
            ),
            Err(message) => Err(message@),
        },
    }
}

/// Opening at a file.
fn open_at_file(path: String) -> (res: Result<StartupInfo, String>)
    ensures
        decision_of(res) == opening_at_file(path@),
{
    match parent(path.as_str()) {
        Some(folder) => Ok(StartupInfo { folder, file: Some(path) }),
        None => Err(String::from_str("Invalid file path")),
    }
}

/// Decides where the viewer opens.
pub fn get_startup_info(facts: StartupFacts) -> (res: Result<StartupInfo, String>)
    ensures
        decision_of(res) == opening_for(facts),
{
    match facts {
        StartupFacts::TestFile(path) => open_at_file(path),
        StartupFacts::Argument { path, kind } => match kind {
            PathKind::File => open_at_file(path),
            PathKind::Directory => Ok(StartupInfo { folder: path, file: None }),
            PathKind::Other => Err(String::from_str("Invalid path")),
        },
        StartupFacts::Saved(saved) => match saved {
            Ok(config) => Ok(
                StartupInfo {
                    folder: match config.last_folder {
                        Some(folder) => folder,
                        None => String::from_str("."),
                    },
                    file: None,
                },
            ),
            Err(message) => Err(message),
        },
    }
}

/// The name of the variable that holds the base of the configuration
/// directory: `APPDATA` on Windows, `HOME` elsewhere.
pub fn config_base_variable(windows: bool) -> (name: &'static str)
    ensures
        name@ == (if windows {
            "APPDATA"@
        } else {
            "HOME"@
        }),
{
    if windows {
        "APPDATA"
    } else {
        "HOME"
    }
}

/// The file in which the last folder is remembered: on Windows directly
/// under the base, elsewhere in `.config` under it.
pub open spec fn config_path_of(windows: bool, base: Seq<char>) -> Seq<char> {
    path_join(
        if windows {
            base
        } else {
            path_join(base, ".config"@)
        },
        "image_viewer_config.json"@,
    )
}

/// The directory that holds the configuration file.
pub fn config_dir(windows: bool, base: &str) -> (dir: String)
    ensures
        dir@ == (if windows {
            base@
        } else {
            path_join(base@, ".config"@)
        }),
{
    if windows {
        base.to_owned()
    } else {
        join(base, ".config")
    }
}

/// The path of the configuration file.
pub fn config_path(windows: bool, base: &str) -> (path: String)
    ensures
        path@ == config_path_of(windows, base@),
{
    let dir = config_dir(windows, base);
    join(dir.as_str(), "image_viewer_config.json")
}

/// What is remembered from the last run. `stored` is what the configuration
/// file held, `None` where there is no such file: then nothing is
/// remembered. A file that could not be read or understood is a failure.
pub fn load_config(stored: Option<Result<AppConfig, String>>) -> (res: Result<AppConfig, String>)
    ensures
        match stored {
            Some(held) => res == held,
            None => res matches Ok(config) && config.last_folder is None,
        },
{
    match stored {
        Some(held) => held,
        None => Ok(AppConfig { last_folder: None }),
    }
}

/// What to remember once `folder` has been shown.
pub fn save_last_folder(folder: String) -> (config: AppConfig)
    ensures
        config.last_folder == Some(folder),
{
    AppConfig { last_folder: Some(folder) }
}

} // verus!
