//! Where the data file lives: the path configured by the user, or a
//! default file under the user's configuration directory. The caller reads
//! the environment and hands the values in.

use vstd::prelude::*;
use vstd::string::*;

verus! {

/// Name of the environment variable that configures the data file path.
pub const PATH_ENV: &'static str = "GUARAKAPA_FILE_PATH";

/// Name of the data file when none is configured.
pub const DEFAULT_FILENAME: &'static str = "gk.dat";

/// Directory under the home directory that holds the configuration.
pub const CONFIG_DIR: &'static str = ".config";

/// Directory of this program under the configuration directory.
pub const PROGRAM_DIR: &'static str = "guarakapa";

/// What `std::path::Path::parent` gives for a path.
pub uninterp spec fn parent_of(path: Seq<char>) -> Option<Seq<char>>;

/// What `std::path::Path::file_name` gives for a path.
pub uninterp spec fn file_name_of(path: Seq<char>) -> Option<Seq<char>>;

/// What `std::path::Path::join` gives for a base and a further component.
pub uninterp spec fn joined(base: Seq<char>, rest: Seq<char>) -> Seq<char>;

/// Relies on std::path::Path::parent: the path without its last component,
/// if it has one.
#[verifier::external_body]
fn path_parent(path: &str) -> (r: Option<String>)
    ensures
        r matches Some(s) ==> parent_of(path@) == Some(s@),
        r is None ==> parent_of(path@) is None,
{
    std::path::Path::new(path).parent().map(|p| p.to_string_lossy().into_owned())
}

/// Relies on std::path::Path::file_name: the last component of the path,
/// if it is a file name.
#[verifier::external_body]
fn path_file_name(path: &str) -> (r: Option<String>)
    ensures
        r matches Some(s) ==> file_name_of(path@) == Some(s@),
        r is None ==> file_name_of(path@) is None,
{
    std::path::Path::new(path).file_name().map(|f| f.to_string_lossy().into_owned())
}

/// Relies on std::path::Path::join: `rest` appended to `base` as a
/// further component.
#[verifier::external_body]
fn path_join(base: &str, rest: &str) -> (r: String)
    ensures
        r@ == joined(base@, rest@),
{
    std::path::Path::new(base).join(rest).to_string_lossy().into_owned()
}

/// The directory of the data file: the parent of the configured path (the
/// current directory when it has none), else the program's directory under
/// the home directory's configuration directory.
pub open spec fn data_dir_of(configured: Option<Seq<char>>, home: Seq<char>) -> Seq<char> {
    match configured {
        Some(p) => match parent_of(p) {
            Some(d) => d,
            None => seq!['.'],
        },
        None => joined(joined(home, CONFIG_DIR@), PROGRAM_DIR@),
    }
}

/// The name of the data file: the last component of the configured path,
/// else the default name.
pub open spec fn filename_of(configured: Option<Seq<char>>) -> Seq<char> {
    match configured {
        Some(p) => match file_name_of(p) {
            Some(f) => f,
            None => DEFAULT_FILENAME@,
        },
        None => DEFAULT_FILENAME@,
    }
}

/// The full path of the data file.
pub open spec fn full_path_of(configured: Option<Seq<char>>, home: Seq<char>) -> Seq<char> {
    joined(data_dir_of(configured, home), filename_of(configured))
}

/// The characters of an optional string.
pub open spec fn opt_chars(s: Option<String>) -> Option<Seq<char>> {
    match s {
        Some(v) => Some(v@),
        None => None,
    }
}

/// The directory that holds the data file, given the configured path (the
/// value of `PATH_ENV`, if set) and the home directory.
pub fn data_dir(configured: &Option<String>, home: &str) -> (r: String)
    ensures
        r@ == data_dir_of(opt_chars(*configured), home@),
{
    match configured {
        Some(p) => match path_parent(p.as_str()) {
            Some(d) => d,
            None => {
                proof {
                    reveal_strlit(".");
                }
                String::from_str(".")
            },
        },
        None => {
            let config = path_join(home, CONFIG_DIR);
            path_join(config.as_str(), PROGRAM_DIR)
        },
    }
}

/// The name of the data file, given the configured path.
pub fn get_filename(configured: &Option<String>) -> (r: String)
    ensures
        r@ == filename_of(opt_chars(*configured)),
{
    match configured {
        Some(p) => match path_file_name(p.as_str()) {
            Some(f) => f,
            None => String::from_str(DEFAULT_FILENAME),
        },
        None => String::from_str(DEFAULT_FILENAME),
    }
}

/// The full path of the data file, given the configured path and the home
/// directory.
pub fn file_path(configured: Option<String>, home: String) -> (r: String)
    ensures
        r@ == full_path_of(opt_chars(configured), home@),
{
    let dir = data_dir(&configured, home.as_str());
    let name = get_filename(&configured);
    path_join(dir.as_str(), name.as_str())
}

} // verus!
