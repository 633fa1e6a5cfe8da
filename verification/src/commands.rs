//! The steps of the `c3pg` commands that talk to Conan, CMake and the
//! built program. Reading and writing the project's files is left to the
//! caller.

use vstd::prelude::*;
use crate::cmake::{spec_build_args, spec_configure_args, BuildType, CMake, Sanitizers};
use crate::command_runner::{
    one_more, Answer, binary_stream_mode, pairs_view, spec_binary_stream_mode, spec_tool_stream_mode, CommandCall,
    CommandError, CommandRunner, Runner, LogLevel, StreamMode,
};
use crate::conan::{remote_listing, latest_choice, lock_create_args, locked_install_args, remote_list_call, search_candidates, Conan, ConanError};
use crate::config::{value_of, Config, EffectiveTarget, TargetType};
use crate::dependency::{parse_reference, Dependency};
use crate::text::{join_seq, join_strings, owned, push_str, str_eq, strings_view};

verus! {

/// The calls made to add a dependency: the remote lookup (when no remote
/// is configured), then, when a remote was found and `expr` reads as a
/// reference, `conan search` for its package on that remote (the
/// configured one, if any).
pub open spec fn searched(before: Seq<CommandCall>, after: Seq<CommandCall>, config: Config, expr: Seq<char>) -> bool {
    let looked = before + remote_lookup(config);
    after == looked || (parse_reference(expr) matches Some(d) && exists|remote: Seq<char>|
        after == looked.push(
            CommandCall {
                cmd: config.conan.bin@,
                args: seq!["search"@, "-r"@, remote, d.name],
                mode: StreamMode::Buffer,
                env: seq![],
            },
        ) && (config.conan.remote matches Some(x) ==> remote == x@))
}

/// The answers to adding the dependency `expr`: the remote lookup (when no
/// remote is configured) must name a remote; then `expr` must read as a
/// reference, and the search for its package must succeed; what it finds
/// decides between the latest matching version and "not found".
pub open spec fn add_answered(
    config: Config,
    expr: Seq<char>,
    before: Seq<Answer>,
    after: Seq<Answer>,
    r: Result<Dependency, ConanError>,
) -> bool {
    let n = before.len() as int;
    let rl = remote_lookup(config).len() as int;
    let remote_ok = config.conan.remote is Some || (after[n] matches Answer::Ran { stdout, .. }
        && remote_listing(stdout) is Named);
    &&& after.take(n) == before
    &&& (!remote_ok ==> after.len() == n + 1 && r is Err)
    &&& (remote_ok && parse_reference(expr) is None ==> after.len() == n + rl && (r matches Err(
        ConanError::BadReference(x),
    ) && x@ == expr))
    &&& (remote_ok && parse_reference(expr) is Some ==> after.len() == n + rl + 1)
    &&& (remote_ok && parse_reference(expr) is Some && !after.last().succeeded() ==> r matches Err(
        ConanError::Command(_),
    ))
    &&& (remote_ok && after.last().succeeded() ==> match (parse_reference(expr), after.last()) {
        (Some(w), Answer::Ran { stdout, .. }) => match r {
            Ok(d) => latest_choice(search_candidates(stdout, w), Some(d@)),
            Err(ConanError::NotFound(x)) => x@ == expr && latest_choice(search_candidates(stdout, w), None),
            _ => false,
        },
        _ => true,
    })
}

/// Finds the latest version of the package `expr` names on the remote and
/// adds it to the dependencies of `config`. Nothing changes when none is
/// found ("Could not find dependency EXPR in remotes") or Conan fails.
pub fn find_and_add_dependency<R: CommandRunner>(runner: &mut Runner<R>, expr: &str, config: &mut Config) -> (r: Result<
    Dependency,
    ConanError,
>)
    ensures
        r is Err ==> *final(config) == *old(config),
        r matches Ok(d) ==> final(config).dependencies.view() == old(config).dependencies.view().insert(
            d@.name,
            value_of(d@),
        ),
        r matches Ok(d) ==> final(config).project == old(config).project,
        r is Ok ==> parse_reference(expr@) is Some,
        parse_reference(expr@) is None ==> r is Err,
        parse_reference(expr@) is None && old(config).conan.remote is Some ==> (r matches Err(
            ConanError::BadReference(x),
        ) && x@ == expr@),
        searched(old(runner).calls(), final(runner).calls(), *old(config), expr@),
        add_answered(*old(config), expr@, old(runner).answers(), final(runner).answers(), r),
{
    let ghost start = runner.calls();
    let ghost a0 = runner.answers();
    let conan = match Conan::from_config(runner, config) {
        Ok(c) => c,
        Err(e) => {
            assert(runner.calls() =~= start + remote_lookup(*config));
            assert(runner.answers().take(a0.len() as int) =~= a0);
            return Err(e);
        },
    };
    assert(runner.calls() =~= start + remote_lookup(*config));
    let ghost a1 = runner.answers();
    assert(a1.take(a0.len() as int) =~= a0);
    let found = conan.get_latest_matching_dependency(runner, expr);
    proof {
        let a = runner.answers();
        assert(a.take(a1.len() as int) =~= a1);
        assert(a.take(a0.len() as int) =~= a0);
        if config.conan.remote is None {
            assert(a[a0.len() as int] == a1[a0.len() as int]);
        }
    }
    match found {
        Ok(Some(d)) => {
            config.add_dependency(&d);
            Ok(d)
        },
        Ok(None) => Err(ConanError::NotFound(owned(expr))),
        Err(e) => Err(e),
    }
}

/// Why a build or run failed.
#[derive(Debug)]
pub enum BuildError {
    /// Conan failed.
    Conan(ConanError),
    /// CMake, or the built program, failed.
    Command(CommandError),
}

impl BuildError {
    /// The error message.
    pub open spec fn message(&self) -> Seq<char> {
        match self {
            BuildError::Conan(e) => e.message(),
            BuildError::Command(e) => e.message@,
        }
    }
}

/// The message of a failed run, if it failed.
pub open spec fn failure_of(r: Result<(), BuildError>) -> Seq<char> {
    match r {
        Ok(()) => seq![],
        Err(e) => e.message(),
    }
}

/// A chain of `steps` calls, each made only when the one before passed,
/// answered by `after` past `before`: every answer but the last passed; the
/// chain stopped early only because the last one did not; it succeeded
/// exactly when all `steps` calls were made and the last one passed; and
/// otherwise its error is the failure of the last step made.
pub open spec fn chain_answered(
    before: Seq<Answer>,
    after: Seq<Answer>,
    steps: int,
    passes: spec_fn(int, Answer) -> bool,
    fails: spec_fn(int, Answer) -> Seq<char>,
    ok: bool,
    message: Seq<char>,
) -> bool {
    let k = after.len() - before.len();
    &&& 1 <= k <= steps
    &&& after.take(before.len() as int) == before
    &&& forall|i: int| 0 <= i < k - 1 ==> #[trigger] passes(i, after[before.len() + i])
    &&& (k < steps ==> !passes(k - 1, after.last()))
    &&& (ok <==> (k == steps && passes(k - 1, after.last())))
    &&& (!ok ==> message == fails(k - 1, after.last()))
}

/// Whether a build goes on after the answer `a` to its step `i`: the
/// remote lookup must name a remote; every other step must succeed.
pub open spec fn build_passes(config: Config) -> spec_fn(int, Answer) -> bool {
    |i: int, a: Answer|
        if config.conan.remote is None && i == 0 {
            a matches Answer::Ran { stdout, .. } && remote_listing(stdout) is Named
        } else {
            a.succeeded()
        }
}

/// The error of step `i` of a build (and of the run of `binary_path` after
/// it) that failed with the answer `a`.
pub open spec fn build_fails(config: Config, has_lockfile: bool, binary_path: Seq<char>) -> spec_fn(
    int,
    Answer,
) -> Seq<char> {
    |i: int, a: Answer|
        {
            let rl = remote_lookup(config).len() as int;
            let lk: int = if has_lockfile {
                0
            } else {
                1
            };
            if i < rl {
                match a {
                    Answer::NotRun { message } => message,
                    Answer::Ran { stdout, .. } => if remote_listing(stdout) is Empty {
                        "no Conan remotes configured -- run `conan remote add` first"@
                    } else {
                        "unexpected Conan remote list format"@
                    },
                }
            } else if i < rl + lk {
                a.failure("Conan lock create failed"@)
            } else if i == rl + lk {
                a.failure("Conan install failed"@)
            } else if i == rl + lk + 1 {
                a.failure("Failed to configure with cmake"@)
            } else if i == rl + lk + 2 {
                a.failure("Failed to build with cmake"@)
            } else {
                a.command_failure("Could not run binary "@ + binary_path)
            }
        }
}

/// The calls of a successful build: `conan lock create` when the project
/// has no lockfile yet, `conan install` through the lockfile into the cache
/// directory, then CMake's configure and build steps there.
pub open spec fn build_calls(
    config: Config,
    build_type: BuildType,
    lvl: LogLevel,
    toolchain: Seq<char>,
    build_env: Seq<(String, String)>,
    sanitizers: Sanitizers,
    has_lockfile: bool,
) -> Seq<CommandCall> {
    let dir = config.project.cache_dir@;
    let lock: Seq<CommandCall> = if has_lockfile {
        seq![]
    } else {
        seq![
            CommandCall {
                cmd: config.conan.bin@,
                args: lock_create_args(dir, build_type, lvl),
                mode: spec_tool_stream_mode(lvl),
                env: seq![],
            },
        ]
    };
    lock + seq![
        CommandCall {
            cmd: config.conan.bin@,
            args: locked_install_args(dir, dir, build_type, lvl),
            mode: spec_tool_stream_mode(lvl),
            env: seq![],
        },
        CommandCall {
            cmd: "cmake"@,
            args: spec_configure_args(dir, dir, toolchain, build_type, sanitizers, lvl),
            mode: spec_tool_stream_mode(lvl),
            env: pairs_view(build_env),
        },
        CommandCall {
            cmd: "cmake"@,
            args: spec_build_args(dir, lvl),
            mode: spec_tool_stream_mode(lvl),
            env: pairs_view(build_env),
        },
    ]
}

/// The remote lookup made first when no remote is configured.
pub open spec fn remote_lookup(config: Config) -> Seq<CommandCall> {
    if config.conan.remote is None {
        seq![remote_list_call()]
    } else {
        seq![]
    }
}

/// The calls made run the first `k` calls of `plan`, for some `k`, and
/// nothing else.
pub open spec fn ran_prefix(before: Seq<CommandCall>, after: Seq<CommandCall>, plan: Seq<CommandCall>) -> bool {
    exists|k: int| 0 <= k <= plan.len() && after == before + plan.take(k)
}

/// Every call of a build, in order: the remote lookup (when no remote is
/// configured), then [`build_calls`].
pub open spec fn build_plan(
    config: Config,
    build_type: BuildType,
    lvl: LogLevel,
    toolchain: Seq<char>,
    build_env: Seq<(String, String)>,
    sanitizers: Sanitizers,
    has_lockfile: bool,
) -> Seq<CommandCall> {
    remote_lookup(config) + build_calls(config, build_type, lvl, toolchain, build_env, sanitizers, has_lockfile)
}

/// Builds the project: without a lockfile (`has_lockfile`), first
/// `conan lock create` to write one; then `conan install` through it into
/// the cache directory, and CMake's configure and build steps with the
/// Conan toolchain file `toolchain`, the compiler environment `build_env`
/// and the sanitizers. Each step runs only when the one before succeeded:
/// whatever happens, the calls made are the first ones of
/// [`build_plan`], and all of them on success.
#[verifier::spinoff_prover]
#[verifier::rlimit(50)]
pub fn cmd_build<R: CommandRunner>(
    runner: &mut Runner<R>,
    config: &Config,
    build_type: BuildType,
    lvl: LogLevel,
    toolchain: &str,
    build_env: &[(String, String)],
    sanitizers: &Sanitizers,
    has_lockfile: bool,
) -> (r: Result<(), BuildError>)
    ensures
        ran_prefix(
            old(runner).calls(),
            final(runner).calls(),
            build_plan(*config, build_type, lvl, toolchain@, build_env@, *sanitizers, has_lockfile),
        ),
        r is Ok ==> final(runner).calls() == old(runner).calls() + build_plan(
            *config,
            build_type,
            lvl,
            toolchain@,
            build_env@,
            *sanitizers,
            has_lockfile,
        ),
        final(runner).calls().len() - old(runner).calls().len() == final(runner).answers().len() - old(
            runner).answers().len(),
        chain_answered(
            old(runner).answers(),
            final(runner).answers(),
            build_plan(*config, build_type, lvl, toolchain@, build_env@, *sanitizers, has_lockfile).len() as int,
            build_passes(*config),
            build_fails(*config, has_lockfile, seq![]),
            r is Ok,
            failure_of(r),
        ),
{
    let ghost start = runner.calls();
    let ghost a0 = runner.answers();
    let ghost n0 = a0.len() as int;
    let ghost plan = build_plan(*config, build_type, lvl, toolchain@, build_env@, *sanitizers, has_lockfile);
    let ghost rl = remote_lookup(*config).len() as int;
    let ghost lk: int = if has_lockfile {
        0
    } else {
        1
    };
    let ghost passes = build_passes(*config);
    let ghost fails = build_fails(*config, has_lockfile, seq![]);
    assert(plan.len() == rl + lk + 3);
    let conan = match Conan::from_config(runner, config) {
        Ok(c) => c,
        Err(e) => {
            assert(runner.calls() =~= start + plan.take(rl));
            proof {
                let a = runner.answers();
                assert(a.take(n0) =~= a0);
                assert(rl == 1);
                assert(!passes(0, a.last()));
            }
            return Err(BuildError::Conan(e));
        },
    };
    let ghost after_remote = runner.calls();
    assert(after_remote =~= start + plan.take(rl));
    let ghost a1 = runner.answers();
    proof {
        assert(a1.len() == n0 + rl);
        assert(a1.take(n0) =~= a0);
        if rl == 1 {
            assert(a1[n0] == a1.last());
            assert(passes(0, a1[n0]));
        }
    }
    let dir = config.project.cache_dir.as_str();
    if !has_lockfile {
        match conan.lock_create(runner, dir, build_type, lvl) {
            Ok(()) => {},
            Err(e) => {
                assert(runner.calls() =~= start + plan.take(rl + 1));
                proof {
                    let a = runner.answers();
                    assert(a.take(n0) =~= a0);
                    assert forall|i: int| 0 <= i < rl implies #[trigger] passes(i, a[n0 + i]) by {
                        assert(a[n0 + i] == a1[n0 + i]);
                    }
                    assert(a.last() == a[n0 + rl]);
                }
                return Err(BuildError::Conan(e));
            },
        }
    }
    let ghost a2 = runner.answers();
    proof {
        assert(a2.len() == n0 + rl + lk);
        assert(a2.take(n0) =~= a0);
        assert forall|i: int| 0 <= i < rl + lk implies #[trigger] passes(i, a2[n0 + i]) by {
            if i < rl {
                assert(a2[n0 + i] == a1[n0 + i]);
            } else {
                assert(a2[n0 + i] == a2.last());
            }
        }
    }
    assert(runner.calls() =~= start + plan.take(rl + lk));
    match conan.install_locked(runner, dir, dir, build_type, lvl) {
        Ok(()) => {},
        Err(e) => {
            assert(runner.calls() =~= start + plan.take(rl + lk + 1));
            proof {
                let a = runner.answers();
                assert(a.take(n0) =~= a0);
                assert forall|i: int| 0 <= i < rl + lk implies #[trigger] passes(i, a[n0 + i]) by {
                    assert(a[n0 + i] == a2[n0 + i]);
                }
            }
            return Err(BuildError::Conan(e));
        },
    }
    let ghost after_install = runner.calls();
    let ghost a3 = runner.answers();
    proof {
        assert(a3.len() == n0 + rl + lk + 1);
        assert(a3.take(n0) =~= a0);
        assert forall|i: int| 0 <= i < rl + lk + 1 implies #[trigger] passes(i, a3[n0 + i]) by {
            if i < rl + lk {
                assert(a3[n0 + i] == a2[n0 + i]);
            } else {
                assert(a3[n0 + i] == a3.last());
            }
        }
    }
    assert(after_install =~= start + plan.take(rl + lk + 1));
    let built = CMake::build(runner, build_type, dir, dir, toolchain, lvl, build_env, sanitizers);
    proof {
        let calls = runner.calls();
        let a = runner.answers();
        let n = after_install.len();
        assert(calls.take(n as int) == after_install);
        assert(a.take(a3.len() as int) == a3);
        assert(a.take(n0) =~= a0);
        assert forall|i: int| 0 <= i < rl + lk + 1 implies #[trigger] passes(i, a[n0 + i]) by {
            assert(a[n0 + i] == a.take(a3.len() as int)[n0 + i]);
        }
        if calls.len() == n + 1 {
            assert(calls =~= after_install + seq![calls[n as int]]);
            assert(calls =~= start + plan.take(rl + lk + 2));
            assert(a.last() == a[a3.len() as int]);
        } else {
            assert(calls =~= after_install + seq![calls[n as int], calls[n + 1int]]);
            assert(calls =~= start + plan.take(rl + lk + 3));
            assert(plan.take(rl + lk + 3) =~= plan);
            assert(passes(rl + lk + 1, a[n0 + rl + lk + 1]));
            assert forall|i: int| 0 <= i < rl + lk + 2 implies #[trigger] passes(i, a[n0 + i]) by {
                if i == rl + lk + 1 {
                } else {
                }
            }
        }
    }
    match built {
        Ok(()) => Ok(()),
        Err(e) => Err(BuildError::Command(e)),
    }
}

/// The name of the project's executable: the project name, with `.exe` on
/// Windows.
pub fn binary_name(project_name: &str, windows: bool) -> (r: String)
    ensures
        r@ == project_name@ + if windows {
            ".exe"@
        } else {
            seq![]
        },
{
    let mut r = owned(project_name);
    if windows {
        push_str(&mut r, ".exe");
    }
    r
}

/// The call that runs the built program.
pub open spec fn run_call(binary_path: Seq<char>, lvl: LogLevel) -> CommandCall {
    CommandCall { cmd: binary_path, args: seq![], mode: spec_binary_stream_mode(lvl), env: seq![] }
}

/// Runs the built program and returns its output. Fails when it cannot run
/// or exits with failure ("Command `Could not run binary PATH` failed: ...").
pub fn run_binary<R: CommandRunner>(runner: &mut Runner<R>, binary_path: &str, lvl: LogLevel) -> (r: Result<
    String,
    CommandError,
>)
    ensures
        final(runner).calls() == old(runner).calls().push(run_call(binary_path@, lvl)),
        one_more(old(runner).answers(), final(runner).answers()),
        r is Ok <==> final(runner).answers().last().succeeded(),
        r matches Ok(out) ==> final(runner).answers().last() matches Answer::Ran { stdout, .. } && out@
            == stdout,
        r matches Err(e) ==> e.message@ == final(runner).answers().last().command_failure(
            "Could not run binary "@ + binary_path@,
        ),
{
    let b = runner.command(binary_path).stream_mode(binary_stream_mode(lvl));
    proof {
        assert(crate::text::strings_view(b.args@) =~= Seq::<Seq<char>>::empty());
        assert(pairs_view(b.env@) =~= Seq::<(Seq<char>, Seq<char>)>::empty());
    }
    let mut what = owned("Could not run binary ");
    push_str(&mut what, binary_path);
    match b.run(runner) {
        Ok(res) => res.expect_success_with_stdout(what.as_str()),
        Err(e) => Err(e),
    }
}

/// Builds the project (see [`cmd_build`]) and then runs the program at
/// `binary_path`, only when the build succeeded.
pub fn cmd_run<R: CommandRunner>(
    runner: &mut Runner<R>,
    config: &Config,
    build_type: BuildType,
    lvl: LogLevel,
    toolchain: &str,
    build_env: &[(String, String)],
    sanitizers: &Sanitizers,
    has_lockfile: bool,
    binary_path: &str,
) -> (r: Result<(), BuildError>)
    ensures
        ran_prefix(
            old(runner).calls(),
            final(runner).calls(),
            build_plan(*config, build_type, lvl, toolchain@, build_env@, *sanitizers, has_lockfile).push(
                run_call(binary_path@, lvl),
            ),
        ),
        r is Ok ==> final(runner).calls() == old(runner).calls() + build_plan(
            *config,
            build_type,
            lvl,
            toolchain@,
            build_env@,
            *sanitizers,
            has_lockfile,
        ).push(run_call(binary_path@, lvl)),
        final(runner).calls().len() - old(runner).calls().len() == final(runner).answers().len() - old(
            runner).answers().len(),
        chain_answered(
            old(runner).answers(),
            final(runner).answers(),
            build_plan(*config, build_type, lvl, toolchain@, build_env@, *sanitizers, has_lockfile).len() + 1int,
            build_passes(*config),
            build_fails(*config, has_lockfile, binary_path@),
            r is Ok,
            failure_of(r),
        ),
{
    let ghost start = runner.calls();
    let ghost a0 = runner.answers();
    let ghost n0 = a0.len() as int;
    let ghost plan = build_plan(*config, build_type, lvl, toolchain@, build_env@, *sanitizers, has_lockfile);
    let ghost full = plan.push(run_call(binary_path@, lvl));
    let ghost passes = build_passes(*config);
    let ghost fails_build = build_fails(*config, has_lockfile, seq![]);
    let ghost fails_run = build_fails(*config, has_lockfile, binary_path@);
    let ghost m = plan.len() as int;
    assert(m == remote_lookup(*config).len() + (if has_lockfile { 0int } else { 1int }) + 3);
    match cmd_build(runner, config, build_type, lvl, toolchain, build_env, sanitizers, has_lockfile) {
        Ok(()) => {},
        Err(e) => {
            proof {
                let k = choose|k: int| 0 <= k <= plan.len() && runner.calls() == start + plan.take(k);
                assert(plan.take(k) =~= full.take(k));
                let a = runner.answers();
                let j = a.len() - n0 - 1;
                assert(fails_build(j, a.last()) == fails_run(j, a.last()));
            }
            return Err(e);
        },
    }
    let ghost built = runner.calls();
    let ghost a1 = runner.answers();
    assert(full.take(plan.len() as int) =~= plan);
    let ran = run_binary(runner, binary_path, lvl);
    assert(runner.calls() =~= start + full.take(full.len() as int));
    proof {
        let a = runner.answers();
        assert(a.take(a1.len() as int) == a1);
        assert(a.take(n0) =~= a0);
        assert(a1.len() == n0 + m);
        assert forall|i: int| 0 <= i < m implies #[trigger] passes(i, a[n0 + i]) by {
            assert(a[n0 + i] == a1[n0 + i]);
            if i < m - 1 {
            } else {
                assert(a1[n0 + i] == a1.last());
            }
        }
        assert(passes(m, a.last()) == a.last().succeeded());
        assert(fails_run(m, a.last()) == a.last().command_failure("Could not run binary "@ + binary_path@));
    }
    match ran {
        Ok(_) => Ok(()),
        Err(e) => Err(BuildError::Command(e)),
    }
}

/// The executable targets among `ts`, in order.
pub open spec fn executable_names(ts: Seq<EffectiveTarget>) -> Seq<Seq<char>>
    decreases ts.len(),
{
    if ts.len() == 0 {
        seq![]
    } else if ts.last().target_type == TargetType::Executable {
        executable_names(ts.drop_last()).push(ts.last().name@)
    } else {
        executable_names(ts.drop_last())
    }
}

/// Why no executable could be picked to run.
#[derive(Debug)]
pub enum RunTargetError {
    /// The project has no executable target.
    NoExecutable,
    /// Several executables exist and none was named (their names, joined).
    Ambiguous(String),
    /// The named target is not an executable of the project.
    Unknown(String),
}

impl RunTargetError {
    pub open spec fn message(&self) -> Seq<char> {
        match self {
            RunTargetError::NoExecutable => "the project has no executable target"@,
            RunTargetError::Ambiguous(names) => "multiple executable targets ("@ + names@
                + "); pick one with --target"@,
            RunTargetError::Unknown(name) => "no executable target named '"@ + name@ + "'"@,
        }
    }

    /// The error message.
    pub fn to_string(&self) -> (r: String)
        ensures
            r@ == self.message(),
    {
        match self {
            RunTargetError::NoExecutable => owned("the project has no executable target"),
            RunTargetError::Ambiguous(names) => {
                let mut m = owned("multiple executable targets (");
                push_str(&mut m, names.as_str());
                push_str(&mut m, "); pick one with --target");
                m
            },
            RunTargetError::Unknown(name) => {
                let mut m = owned("no executable target named '");
                push_str(&mut m, name.as_str());
                push_str(&mut m, "'");
                m
            },
        }
    }
}

/// The executable to run: the one named by `--target`, which must be one of
/// the project's executables; without a name, the only executable.
pub fn run_target(ts: &Vec<EffectiveTarget>, requested: Option<&str>) -> (r: Result<String, RunTargetError>)
    ensures
        match requested {
            Some(n) => if executable_names(ts@).contains(n@) {
                r matches Ok(x) && x@ == n@
            } else {
                r matches Err(RunTargetError::Unknown(x)) && x@ == n@
            },
            None => if executable_names(ts@).len() == 1 {
                r matches Ok(x) && x@ == executable_names(ts@)[0]
            } else if executable_names(ts@).len() == 0 {
                r matches Err(RunTargetError::NoExecutable)
            } else {
                r matches Err(RunTargetError::Ambiguous(x)) && x@ == join_seq(executable_names(ts@), ", "@)
            },
        },
{
    let mut names: Vec<String> = Vec::new();
    let mut i: usize = 0;
    while i < ts.len()
        invariant
            i <= ts@.len(),
            strings_view(names@) == executable_names(ts@.take(i as int)),
        decreases ts@.len() - i,
    {
        assert(ts@.take(i + 1).drop_last() =~= ts@.take(i as int));
        match ts[i].target_type {
            TargetType::Executable => {
                names.push(ts[i].name.clone());
                assert(strings_view(names@) =~= executable_names(ts@.take(i as int)).push(ts@[i as int].name@));
            },
            TargetType::StaticLibrary => {},
        }
        i += 1;
    }
    assert(ts@.take(ts@.len() as int) =~= ts@);
    let ghost ev = executable_names(ts@);
    match requested {
        Some(n) => {
            let mut k: usize = 0;
            while k < names.len()
                invariant
                    strings_view(names@) == ev,
                    ev == executable_names(ts@),
                    requested == Some(n),
                    k <= names@.len(),
                    forall|j: int| 0 <= j < k ==> ev[j] != n@,
                decreases names@.len() - k,
            {
                if str_eq(names[k].as_str(), n) {
                    assert(ev[k as int] == n@);
                    assert(ev.contains(n@));
                    return Ok(owned(n));
                }
                k += 1;
            }
            Err(RunTargetError::Unknown(owned(n)))
        },
        None => {
            if names.len() == 1 {
                Ok(names[0].clone())
            } else if names.len() == 0 {
                Err(RunTargetError::NoExecutable)
            } else {
                Err(RunTargetError::Ambiguous(join_strings(&names, ", ")))
            }
        },
    }
}

} // verus!
