//! Which of the paths under a project's source directory are source files to
//! analyse. Walking the directory is the caller's part; what to skip and what
//! to keep is decided here, on what the caller reads of each path.

use crate::text::{compare, contains, has_prefix, has_suffix, occurs_in, Relation};
use vstd::prelude::*;

verus! {

/// Why a directory cannot be scanned.
#[derive(Clone, Copy, Debug, PartialEq, Eq, Structural)]
pub enum ScanError {
    /// The directory holds no manifest.
    NoManifest,
    /// The directory holds no source directory.
    NoSourceDirectory,
}

/// The name of the manifest file, looked for directly under the project root.
pub const MANIFEST_NAME: &'static str = "Cargo.toml";

/// The name of the source directory, looked for directly under the project
/// root.
pub const SOURCE_DIR: &'static str = "src";

impl ScanError {
    /// The error in words, as characters.
    pub open spec fn spec_message(self) -> Seq<char> {
        match self {
            ScanError::NoManifest => "Not a Cargo project: no Cargo.toml found"@,
            ScanError::NoSourceDirectory => "No src directory found"@,
        }
    }

    /// The error in words.
    pub fn message(&self) -> (text: &'static str)
        ensures
            text@ == self.spec_message(),
    {
        match self {
            ScanError::NoManifest => "Not a Cargo project: no Cargo.toml found",
            ScanError::NoSourceDirectory => "No src directory found",
        }
    }
}

/// Whether a project root can be scanned: it needs a manifest, and then a
/// source directory.
pub fn check_layout(has_manifest: bool, has_source_dir: bool) -> (r: Result<(), ScanError>)
    ensures
        r == if !has_manifest {
            Err::<(), ScanError>(ScanError::NoManifest)
        } else if !has_source_dir {
            Err::<(), ScanError>(ScanError::NoSourceDirectory)
        } else {
            Ok::<(), ScanError>(())
        },
{
    if !has_manifest {
        Err(ScanError::NoManifest)
    } else if !has_source_dir {
        Err(ScanError::NoSourceDirectory)
    } else {
        Ok(())
    }
}

/// The path lies under a build-output directory.
pub open spec fn in_build_output(path: Seq<char>) -> bool {
    occurs_in("/target/"@, path)
}

/// A hidden path: its last component begins with a dot, or it lies under a
/// build-output directory.
pub open spec fn hidden(file_name: Option<Seq<char>>, path: Seq<char>) -> bool {
    (file_name matches Some(name) && "."@.is_prefix_of(name)) || in_build_output(path)
}

/// A test file: a directory on its path is called `tests`, or its name ends
/// in `_test.rs`. Directories are told apart by `/`, so a directory is called
/// `tests` where the path begins with `tests/` or holds `/tests/`.
pub open spec fn test_file(path: Seq<char>) -> bool {
    "tests/"@.is_prefix_of(path) || occurs_in("/tests/"@, path) || "_test.rs"@.is_suffix_of(path)
}

/// A source file to analyse: a regular file with the extension `rs` that is
/// neither build output nor a test file.
pub open spec fn rust_source(is_file: bool, extension: Option<Seq<char>>, path: Seq<char>) -> bool {
    &&& is_file
    &&& extension == Some("rs"@)
    &&& !in_build_output(path)
    &&& !test_file(path)
}

/// What a string that may be missing stands for.
pub open spec fn text_of(s: Option<&str>) -> Option<Seq<char>> {
    match s {
        Some(s) => Some(s@),
        None => None,
    }
}

/// Whether a walk skips this path, and with it all that lies under it.
/// `file_name` is the last component of the path, where it has one that is
/// text.
pub fn is_hidden(file_name: Option<&str>, path: &str) -> (r: bool)
    ensures
        r == hidden(text_of(file_name), path@),
{
    let dotted = match file_name {
        Some(name) => has_prefix(name, "."),
        None => false,
    };
    dotted || contains(path, "/target/")
}

/// Whether this path is that of a test file.
pub fn is_test_file(path: &str) -> (r: bool)
    ensures
        r == test_file(path@),
{
    has_prefix(path, "tests/") || contains(path, "/tests/") || has_suffix(path, "_test.rs")
}

/// Whether this path is that of a source file to analyse. `is_file` says
/// whether it leads to a regular file, `extension` is the extension of its
/// last component, where it has one that is text.
pub fn is_rust_source(is_file: bool, extension: Option<&str>, path: &str) -> (r: bool)
    ensures
        r == rust_source(is_file, text_of(extension), path@),
{
    if !is_file {
        return false;
    }
    let has_extension = match extension {
        Some(extension) => match compare(extension, "rs") {
            Relation::Same => true,
            _ => false,
        },
        None => false,
    };
    has_extension && !contains(path, "/target/") && !is_test_file(path)
}

} // verus!
