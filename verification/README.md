# c3pg

The library behind `c3pg`, a command-line tool that creates and drives small
C++ projects with CMake and Conan, verified with Verus.

- `src/` is the verified library: the project model of `c3pg.toml`
  (`config`, `dependency`, `config_text`), the CMake syntax tree and its
  rendering (`cmake_core`), the generated `CMakeLists.txt` (`cmake_gen`),
  Conan's `conanfile.py`, version picking and command lines (`conan`), the
  CMake, CTest and clang tool invocations (`cmake`, `testing`, `format`,
  `diagnostics`, `commands`), and the record of every program run through a
  `CommandRunner` (`command_runner`, with a scripted runner in `test_utils`),
  on top of text helpers and facts about lines and trimming (`text`, `lines`).
- `app/` is the command-line program: argument parsing, reading and writing
  files, the runner that starts real processes, and terminal output.
- `tests/` runs the library against the scripted runner.
