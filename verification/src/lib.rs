//! Library behind the `c3pg` command-line tool: the project model read from
//! `c3pg.toml`, the generated `CMakeLists.txt` and `conanfile.py`, and the
//! argument lists handed to `cmake`, `conan`, `ctest` and the clang tools.

pub mod text;
pub mod lines;
pub mod cmake_core;
pub mod dependency;
pub mod config;
pub mod config_text;
pub mod command_runner;
pub mod cmake;
pub mod cmake_gen;
pub mod conan;
pub mod diagnostics;
pub mod format;
pub mod testing;
pub mod commands;
pub mod test_utils;
pub mod cli;
