//! Running external programs: what is asked of a runner, and what is done
//! with its answer.

use vstd::prelude::*;
use crate::text::{owned, push_str, strings_view};

verus! {

/// The verbosity the user asked for (`-q` ... `-vv`).
#[derive(Debug, Clone, Copy, PartialEq, Eq)]
pub enum LogLevel {
    Off,
    Error,
    Warn,
    Info,
    Debug,
    Trace,
}

/// How the output of a child process is shown while it runs.
#[derive(Debug, Clone, Copy, PartialEq, Eq)]
pub enum StreamMode {
    /// Buffer stdout/stderr; no live output.
    Buffer,
    /// Stream selectively; everything is still buffered for the result.
    Stream {
        stream_stdout: bool,
        stream_stderr: bool,
        /// Prefix live lines with `cmd:`.
        prefix: bool,
    },
}

/// For external tools (cmake, conan): errors and warnings only at the
/// default level, everything from `-v` on, with a prefix at `-vv`.
pub open spec fn spec_tool_stream_mode(level: LogLevel) -> StreamMode {
    match level {
        LogLevel::Off | LogLevel::Error | LogLevel::Warn | LogLevel::Info => StreamMode::Stream {
            stream_stdout: false,
            stream_stderr: true,
            prefix: false,
        },
        LogLevel::Debug => StreamMode::Stream {
            stream_stdout: true,
            stream_stderr: true,
            prefix: false,
        },
        LogLevel::Trace => StreamMode::Stream { stream_stdout: true, stream_stderr: true, prefix: true },
    }
}

/// For the user's own program: everything live, except when quiet.
pub open spec fn spec_binary_stream_mode(level: LogLevel) -> StreamMode {
    match level {
        LogLevel::Off | LogLevel::Error | LogLevel::Warn => StreamMode::Buffer,
        _ => StreamMode::Stream { stream_stdout: true, stream_stderr: true, prefix: false },
    }
}

/// See [`spec_tool_stream_mode`].
pub fn tool_stream_mode(level: LogLevel) -> (r: StreamMode)
    ensures
        r == spec_tool_stream_mode(level),
{
    match level {
        LogLevel::Off | LogLevel::Error | LogLevel::Warn | LogLevel::Info => StreamMode::Stream {
            stream_stdout: false,
            stream_stderr: true,
            prefix: false,
        },
        LogLevel::Debug => StreamMode::Stream {
            stream_stdout: true,
            stream_stderr: true,
            prefix: false,
        },
        LogLevel::Trace => StreamMode::Stream { stream_stdout: true, stream_stderr: true, prefix: true },
    }
}

/// See [`spec_binary_stream_mode`].
pub fn binary_stream_mode(level: LogLevel) -> (r: StreamMode)
    ensures
        r == spec_binary_stream_mode(level),
{
    match level {
        LogLevel::Off | LogLevel::Error | LogLevel::Warn => StreamMode::Buffer,
        _ => StreamMode::Stream { stream_stdout: true, stream_stderr: true, prefix: false },
    }
}

/// Under `mode`: whether standard output is shown live, whether standard
/// error is, and whether live lines carry the program's name.
pub open spec fn spec_live_streams(mode: StreamMode) -> (bool, bool, bool) {
    match mode {
        StreamMode::Buffer => (false, false, false),
        StreamMode::Stream { stream_stdout, stream_stderr, prefix } => (stream_stdout, stream_stderr, prefix),
    }
}

/// See [`spec_live_streams`].
pub fn live_streams(mode: StreamMode) -> (r: (bool, bool, bool))
    ensures
        r == spec_live_streams(mode),
{
    match mode {
        StreamMode::Buffer => (false, false, false),
        StreamMode::Stream { stream_stdout, stream_stderr, prefix } => (stream_stdout, stream_stderr, prefix),
    }
}

/// What goes before each live line of `cmd`: `cmd: ` when `prefix`.
pub fn live_prefix(cmd: &str, prefix: bool) -> (r: Option<String>)
    ensures
        prefix ==> (r matches Some(p) && p@ == cmd@ + ": "@),
        !prefix ==> r is None,
{
    if prefix {
        let mut p = owned(cmd);
        push_str(&mut p, ": ");
        Some(p)
    } else {
        None
    }
}

/// What a finished child process left behind.
#[derive(Debug)]
pub struct CommandResult {
    pub stdout: String,
    pub stderr: String,
    pub success: bool,
}

/// A failure to run a program, or a program that reported failure.
#[derive(Debug)]
pub struct CommandError {
    pub message: String,
}

impl CommandError {
    /// The error message.
    pub fn to_string(&self) -> (r: String)
        ensures
            r@ == self.message@,
    {
        self.message.clone()
    }
}

impl Clone for CommandResult {
    fn clone(&self) -> (r: Self)
        ensures
            r.stdout@ == self.stdout@,
            r.stderr@ == self.stderr@,
            r.success == self.success,
    {
        CommandResult { stdout: self.stdout.clone(), stderr: self.stderr.clone(), success: self.success }
    }
}

impl Default for CommandResult {
    fn default() -> (r: Self)
        ensures
            r.stdout@.len() == 0,
            r.stderr@.len() == 0,
            !r.success,
    {
        CommandResult { stdout: String::new(), stderr: String::new(), success: false }
    }
}

impl CommandResult {
    /// The standard output of a successful run; otherwise the error
    /// "Command `cmd` failed: stderr".
    pub fn expect_success_with_stdout(self, cmd: &str) -> (r: Result<String, CommandError>)
        ensures
            self.success ==> (r matches Ok(out) && out@ == self.stdout@),
            !self.success ==> (r matches Err(e) && e.message@ == "Command `"@ + cmd@ + "` failed: "@
                + self.stderr@),
    {
        if self.success {
            Ok(self.stdout)
        } else {
            let mut m = owned("Command `");
            push_str(&mut m, cmd);
            push_str(&mut m, "` failed: ");
            push_str(&mut m, self.stderr.as_str());
            Err(CommandError { message: m })
        }
    }

    /// Nothing when the run succeeded; otherwise the error
    /// "error_msg: stderr".
    pub fn expect_success(self, error_msg: &str) -> (r: Result<(), CommandError>)
        ensures
            self.success ==> r is Ok,
            !self.success ==> (r matches Err(e) && e.message@ == error_msg@ + ": "@ + self.stderr@),
    {
        if self.success {
            Ok(())
        } else {
            let mut m = owned(error_msg);
            push_str(&mut m, ": ");
            push_str(&mut m, self.stderr.as_str());
            Err(CommandError { message: m })
        }
    }
}

/// The text of a list of key/value pairs.
pub open spec fn pairs_view(v: Seq<(String, String)>) -> Seq<(Seq<char>, Seq<char>)> {
    v.map_values(|p: (String, String)| (p.0@, p.1@))
}

/// One request made of a runner.
pub struct CommandCall {
    pub cmd: Seq<char>,
    pub args: Seq<Seq<char>>,
    pub mode: StreamMode,
    pub env: Seq<(Seq<char>, Seq<char>)>,
}

/// The call `execute(cmd, args, mode, env)` makes.
pub open spec fn call_of(cmd: Seq<char>, args: Seq<String>, mode: StreamMode, env: Seq<(String, String)>) -> CommandCall {
    CommandCall { cmd: cmd, args: strings_view(args), mode: mode, env: pairs_view(env) }
}

/// Something that runs programs: the system, or a stand-in in tests.
pub trait CommandRunner {
    /// Runs `cmd` with the given arguments, streaming mode and extra
    /// environment, and reports its output and exit status.
    fn execute(
        &mut self,
        cmd: &str,
        args: &[String],
        mode: StreamMode,
        env: &[(String, String)],
    ) -> Result<CommandResult, CommandError>;

    /// A request to run `cmd` with nothing else set.
    fn command(&self, cmd: &str) -> (r: CommandBuilder)
        ensures
            r.cmd@ == cmd@,
            r.args@.len() == 0,
            r.mode == StreamMode::Buffer,
            r.env@.len() == 0,
    {
        CommandBuilder::new(cmd)
    }
}

/// What a runner answered to one call: the output and exit status of a
/// program that ran, or why it could not be run.
pub enum Answer {
    Ran { stdout: Seq<char>, stderr: Seq<char>, success: bool },
    NotRun { message: Seq<char> },
}

impl Answer {
    /// The program ran and reported success.
    pub open spec fn succeeded(self) -> bool {
        self matches Answer::Ran { success, .. } && success
    }

    /// The error [`CommandResult::expect_success`] gives for this answer
    /// when it is not a success: "what: stderr", or why it could not run.
    pub open spec fn failure(self, what: Seq<char>) -> Seq<char> {
        match self {
            Answer::Ran { stderr, .. } => what + ": "@ + stderr,
            Answer::NotRun { message } => message,
        }
    }

    /// The error [`CommandResult::expect_success_with_stdout`] gives for this
    /// answer when it is not a success.
    pub open spec fn command_failure(self, cmd: Seq<char>) -> Seq<char> {
        match self {
            Answer::Ran { stderr, .. } => "Command `"@ + cmd + "` failed: "@ + stderr,
            Answer::NotRun { message } => message,
        }
    }
}

/// The answer a runner's result stands for.
pub open spec fn answer_of(r: Result<CommandResult, CommandError>) -> Answer {
    match r {
        Ok(res) => Answer::Ran { stdout: res.stdout@, stderr: res.stderr@, success: res.success },
        Err(e) => Answer::NotRun { message: e.message@ },
    }
}

/// `after` is `before` with one more answer.
pub open spec fn one_more(before: Seq<Answer>, after: Seq<Answer>) -> bool {
    after.len() == before.len() + 1 && after.drop_last() == before
}

/// A runner together with the record of every call made through it and of
/// every answer it gave.
pub struct Runner<R: CommandRunner> {
    pub inner: R,
    log: Ghost<Seq<CommandCall>>,
    answered: Ghost<Seq<Answer>>,
}

impl<R: CommandRunner> Runner<R> {
    /// Every call made through this runner so far, oldest first.
    pub closed spec fn calls(&self) -> Seq<CommandCall> {
        self.log@
    }

    /// The answer to every call made so far, oldest first.
    pub closed spec fn answers(&self) -> Seq<Answer> {
        self.answered@
    }

    /// `inner`, with no call made yet.
    pub fn new(inner: R) -> (r: Self)
        ensures
            r.calls().len() == 0,
            r.answers().len() == 0,
    {
        Runner { inner, log: Ghost(Seq::empty()), answered: Ghost(Seq::empty()) }
    }

    /// Runs a program through the inner runner, records the call and the
    /// answer, and returns that answer unchanged.
    pub fn execute(
        &mut self,
        cmd: &str,
        args: &[String],
        mode: StreamMode,
        env: &[(String, String)],
    ) -> (r: Result<CommandResult, CommandError>)
        ensures
            final(self).calls() == old(self).calls().push(call_of(cmd@, args@, mode, env@)),
            final(self).answers() == old(self).answers().push(answer_of(r)),
    {
        let r = self.inner.execute(cmd, args, mode, env);
        self.log = Ghost(self.log@.push(call_of(cmd@, args@, mode, env@)));
        self.answered = Ghost(self.answered@.push(answer_of(r)));
        r
    }

    /// A request to run `cmd` with nothing else set.
    pub fn command(&self, cmd: &str) -> (r: CommandBuilder)
        ensures
            r.cmd@ == cmd@,
            r.args@.len() == 0,
            r.mode == StreamMode::Buffer,
            r.env@.len() == 0,
    {
        CommandBuilder::new(cmd)
    }
}

/// A request being put together: program, arguments, streaming mode and
/// environment.
#[derive(Debug)]
pub struct CommandBuilder {
    pub cmd: String,
    pub args: Vec<String>,
    pub mode: StreamMode,
    pub env: Vec<(String, String)>,
}

impl CommandBuilder {
    /// The call this request makes.
    pub open spec fn call(self) -> CommandCall {
        CommandCall {
            cmd: self.cmd@,
            args: strings_view(self.args@),
            mode: self.mode,
            env: pairs_view(self.env@),
        }
    }

    pub fn new(cmd: &str) -> (r: Self)
        ensures
            r.cmd@ == cmd@,
            r.args@.len() == 0,
            r.mode == StreamMode::Buffer,
            r.env@.len() == 0,
    {
        CommandBuilder { cmd: owned(cmd), args: Vec::new(), mode: StreamMode::Buffer, env: Vec::new() }
    }

    /// Adds arguments, in order.
    pub fn args(self, args: &[&str]) -> (r: Self)
        ensures
            r.cmd == self.cmd,
            r.mode == self.mode,
            r.env == self.env,
            r.args@.len() == self.args@.len() + args@.len(),
            forall|i: int| 0 <= i < self.args@.len() ==> #[trigger] r.args@[i] == self.args@[i],
            forall|i: int|
                0 <= i < args@.len() ==> #[trigger] r.args@[self.args@.len() + i]@ == args@[i]@,
    {
        let mut b = self;
        let ghost before = b.args@;
        let mut i: usize = 0;
        while i < args.len()
            invariant
                i <= args@.len(),
                b.args@.len() == before.len() + i,
                forall|k: int| 0 <= k < before.len() ==> #[trigger] b.args@[k] == before[k],
                forall|k: int| 0 <= k < i ==> #[trigger] b.args@[before.len() + k]@ == args@[k]@,
                b.cmd == self.cmd,
                b.mode == self.mode,
                b.env == self.env,
            decreases args@.len() - i,
        {
            b.args.push(owned(args[i]));
            i += 1;
        }
        b
    }

    /// Adds arguments, in order.
    pub fn args_owned(self, args: Vec<String>) -> (r: Self)
        ensures
            r.cmd == self.cmd,
            r.mode == self.mode,
            r.env == self.env,
            r.args@ == self.args@ + args@,
    {
        let mut b = self;
        let mut a = args;
        b.args.append(&mut a);
        b
    }

    pub fn stream_mode(self, mode: StreamMode) -> (r: Self)
        ensures
            r.cmd == self.cmd,
            r.args == self.args,
            r.env == self.env,
            r.mode == mode,
    {
        let mut b = self;
        b.mode = mode;
        b
    }

    /// Sets one environment variable for the child process.
    pub fn env(self, key: &str, val: &str) -> (r: Self)
        ensures
            r.cmd == self.cmd,
            r.args == self.args,
            r.mode == self.mode,
            pairs_view(r.env@) == pairs_view(self.env@).push((key@, val@)),
    {
        let mut b = self;
        let ghost before = b.env@;
        b.env.push((owned(key), owned(val)));
        assert(pairs_view(b.env@) =~= pairs_view(before).push((key@, val@)));
        b
    }

    /// Sets several environment variables for the child process.
    pub fn envs(self, vars: &[(String, String)]) -> (r: Self)
        ensures
            r.cmd == self.cmd,
            r.args == self.args,
            r.mode == self.mode,
            pairs_view(r.env@) == pairs_view(self.env@) + pairs_view(vars@),
    {
        let mut b = self;
        let ghost before = b.env@;
        let mut i: usize = 0;
        while i < vars.len()
            invariant
                i <= vars@.len(),
                pairs_view(b.env@) == pairs_view(before) + pairs_view(vars@.take(i as int)),
                b.cmd == self.cmd,
                b.args == self.args,
                b.mode == self.mode,
            decreases vars@.len() - i,
        {
            let ghost prev = b.env@;
            b.env.push((vars[i].0.clone(), vars[i].1.clone()));
            assert(pairs_view(b.env@) =~= pairs_view(prev).push((vars@[i as int].0@, vars@[i as int].1@)));
            assert(pairs_view(vars@.take(i + 1)) =~= pairs_view(vars@.take(i as int)).push((vars@[i as int].0@, vars@[i as int].1@)));
            i += 1;
        }
        assert(vars@.take(vars@.len() as int) =~= vars@);
        b
    }

    /// Hands the request to `runner` and returns its answer unchanged.
    pub fn run<R: CommandRunner>(self, runner: &mut Runner<R>) -> (r: Result<CommandResult, CommandError>)
        ensures
            final(runner).calls() == old(runner).calls().push(self.call()),
            final(runner).answers() == old(runner).answers().push(answer_of(r)),
            one_more(old(runner).answers(), final(runner).answers()),
    {
        let r = runner.execute(self.cmd.as_str(), self.args.as_slice(), self.mode, self.env.as_slice());
        assert(runner.answers().drop_last() =~= old(runner).answers());
        r
    }
}

} // verus!
