//! Where messages go.
use crate::startup::{is_directory_of, is_named_in, optional_text, parent_of, parent_path};
use crate::text::same_text;
use std::path::Path;
use vstd::prelude::*;

verus! {

/// How log files are named, unless their name is given.
pub const DEFAULT_LOG_PREFIX: &'static str = "tf.log";

/// How many log files are kept.
pub const MAX_LOG_FILES: usize = 7;

/// Whether messages are switched off, by a text from the environment.
pub fn log_switched_off(value: Option<&str>) -> (off: bool)
    ensures
        off == (match value {
            Some(s) => s@ == "off"@ || s@ == "0"@ || s@ == "false"@,
            None => false,
        }),
{
    match value {
        Some(s) => same_text(s, "off") || same_text(s, "0") || same_text(s, "false"),
        None => false,
    }
}

/// The last part of a path, where it has one that is a name.
pub uninterp spec fn last_part(s: Seq<char>) -> Option<Seq<char>>;

/// Whatever directory and plain name a path is made of, this is the name.
pub open spec fn is_name_in(r: Option<Seq<char>>, path: Seq<char>) -> bool {
    forall|directory: Seq<char>, name: Seq<char>| #[trigger]
        is_named_in(path, directory, name) ==> r == Some(name)
}

/// Trusted: `std::path::Path::file_name` returns the last part of a path, or `None` where
/// that is no name; this depends on the path alone. Of a directory and a plain name in it,
/// it returns the name.
#[verifier::external_body]
fn file_name_of(path: &str) -> (r: Option<String>)
    ensures
        optional_text(r) == last_part(path@),
        is_name_in(optional_text(r), path@),
{
    Path::new(path).file_name().and_then(|f| f.to_str()).map(|f| f.to_string())
}

/// Where messages go.
pub enum LogTarget {
    /// To the standard output stream.
    Stdout,
    /// To files in a directory, a new one every day, whose names begin with a prefix.
    Files(String, String),
}

/// Where messages go, given a path, whether it is a directory, and its parts. A directory
/// gets files of the default name; of a file's path, the directory and the name are used,
/// as far as there are any.
pub fn target_from(
    path: &str,
    is_dir: bool,
    parent: Option<String>,
    name: Option<String>,
) -> (t: LogTarget)
    ensures
        t is Files,
        t->Files_0@ == (if is_dir {
            path@
        } else {
            match parent {
                Some(p) => if p@.len() > 0 {
                    p@
                } else {
                    "."@
                },
                None => "."@,
            }
        }),
        t->Files_1@ == (if is_dir {
            DEFAULT_LOG_PREFIX@
        } else {
            match name {
                Some(n) => n@,
                None => DEFAULT_LOG_PREFIX@,
            }
        }),
        is_dir || name is None ==> t->Files_1@ == "tf.log"@,
{
    if is_dir {
        return LogTarget::Files(path.to_string(), DEFAULT_LOG_PREFIX.to_string());
    }
    let directory = match parent {
        Some(p) => if p.as_str().unicode_len() > 0 {
            p
        } else {
            ".".to_string()
        },
        None => ".".to_string(),
    };
    let prefix = match name {
        Some(n) => n,
        None => DEFAULT_LOG_PREFIX.to_string(),
    };
    LogTarget::Files(directory, prefix)
}

/// Where messages go: to files at a path, or to the standard output stream.
pub fn log_target(path: Option<&str>, is_dir: bool) -> (t: LogTarget)
    ensures
        match path {
            None => t is Stdout,
            Some(path) => {
                &&& t is Files
                &&& t->Files_0@ == (if is_dir {
                    path@
                } else {
                    match parent_path(path@) {
                        Some(p) => if p.len() > 0 {
                            p
                        } else {
                            "."@
                        },
                        None => "."@,
                    }
                })
                &&& t->Files_1@ == (if is_dir {
                    DEFAULT_LOG_PREFIX@
                } else {
                    match last_part(path@) {
                        Some(n) => n,
                        None => DEFAULT_LOG_PREFIX@,
                    }
                })
                &&& is_directory_of(parent_path(path@), path@)
                &&& is_name_in(last_part(path@), path@)
            },
        },
        path is Some && is_dir ==> t->Files_0@ == path->0@ && t->Files_1@ == "tf.log"@,
        path is Some && !is_dir && last_part(path->0@) is None ==> t->Files_1@ == "tf.log"@,
        path is Some && !is_dir && last_part(path->0@) is Some ==> t->Files_1@ == last_part(
            path->0@,
        )->0,
{
    match path {
        None => LogTarget::Stdout,
        Some(path) => {
            let parent = parent_of(path);
            let name = file_name_of(path);
            target_from(path, is_dir, parent, name)
        },
    }
}

} // verus!
