//! The command line of `c3pg`, as plain data: what each subcommand takes.
//! Reading it from the actual arguments is the program's business.

use vstd::prelude::*;
use crate::cmake::{BuildType, CppStandard, Sanitizers};

verus! {

/// Subcommands of `c3pg test`.
#[derive(Debug)]
pub enum TestOnlySubcmds {
    /// Add a new test by name.
    Add { name: String },
}

/// The arguments of `c3pg test`: without a subcommand the tests are built
/// and run.
#[derive(Debug)]
pub struct TestArgs {
    /// Expression to match test cases to run.
    pub filter: Option<String>,
    /// Number of parallel jobs.
    pub jobs: Option<u8>,
    pub sanitizers: Sanitizers,
    /// Other test-related subcommands.
    pub command: Option<TestOnlySubcmds>,
}

/// The subcommands of `c3pg`.
#[derive(Debug)]
pub enum Commands {
    /// Create a new sandbox directory with the given name.
    New { sandbox_name: String, no_git: bool, standard: Option<CppStandard>, print_path: bool },
    /// Create a throwaway project in a temporary directory.
    Scratch { standard: Option<CppStandard>, print_path: bool },
    /// Initialize c3pg in the current directory.
    Init { no_git: bool, standard: Option<CppStandard> },
    /// Add a Conan dependency to the current project.
    Add { dependency: String },
    /// Remove a Conan dependency from the current project.
    Remove { dependency: String },
    /// Build the current project.
    Build { release: bool, sanitizers: Sanitizers },
    /// Run the current project (building it first).
    Run { release: bool, target: Option<String>, sanitizers: Sanitizers },
    /// Format C/C++ source files with clang-format.
    Fmt { check: bool },
    /// Lint C/C++ source files with clang-tidy.
    Lint { fix: bool },
    /// Testing.
    Test(TestArgs),
    /// Remove the artifacts c3pg generated.
    Clean,
}

/// The build type of `--release`: release, otherwise debug.
pub fn build_type(release: bool) -> (r: BuildType)
    ensures
        r == if release {
            BuildType::Release
        } else {
            BuildType::Debug
        },
{
    if release {
        BuildType::Release
    } else {
        BuildType::Debug
    }
}

} // verus!
