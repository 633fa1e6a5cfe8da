//! A runner for tests: it records every call and answers from a list of
//! canned responses.

use vstd::prelude::*;
use crate::command_runner::{CommandError, CommandResult, CommandRunner, StreamMode};
use crate::text::{clone_strings, owned, str_eq, strings_view};

verus! {

/// A canned answer: given for a call of `cmd` whose arguments include all
/// of `args_contain`.
#[derive(Debug)]
pub struct MockResponse {
    pub cmd: String,
    pub args_contain: Vec<String>,
    pub result: CommandResult,
}

/// What a command result says: its output, its errors, and whether it
/// succeeded.
pub open spec fn result_view(r: CommandResult) -> (Seq<char>, Seq<char>, bool) {
    (r.stdout@, r.stderr@, r.success)
}

/// Whether a response answers a call of `cmd` with `args`.
pub open spec fn answers(resp: MockResponse, cmd: Seq<char>, args: Seq<Seq<char>>) -> bool {
    resp.cmd@ == cmd && forall|i: int| 0 <= i < resp.args_contain@.len() ==> args.contains(#[trigger] resp.args_contain@[i]@)
}

/// The first response from `k` on that answers the call, or the number of
/// responses.
pub open spec fn first_answer(rs: Seq<MockResponse>, cmd: Seq<char>, args: Seq<Seq<char>>, k: int) -> int
    decreases rs.len() - k,
{
    if k < 0 || k >= rs.len() {
        rs.len() as int
    } else if answers(rs[k], cmd, args) {
        k
    } else {
        first_answer(rs, cmd, args, k + 1)
    }
}

/// A runner that records calls and answers them from canned responses.
pub struct MockCommandRunner {
    pub responses: Vec<MockResponse>,
    pub executed: Vec<(String, Vec<String>)>,
    pub default_result: CommandResult,
}

impl MockCommandRunner {
    /// The answer to a call of `cmd` with `args`: the first response that
    /// answers it, or the default.
    pub open spec fn answer(self, cmd: Seq<char>, args: Seq<Seq<char>>) -> (Seq<char>, Seq<char>, bool) {
        let k = first_answer(self.responses@, cmd, args, 0);
        if k < self.responses@.len() {
            result_view(self.responses@[k].result)
        } else {
            result_view(self.default_result)
        }
    }

    /// A runner with no responses whose default answer is success with
    /// `output` as standard output, or, for `None`, failure with the error
    /// output "Error".
    pub fn new(output: Option<String>) -> (r: Self)
        ensures
            r.responses@.len() == 0,
            r.executed@.len() == 0,
            match output {
                Some(o) => result_view(r.default_result) == (o@, Seq::<char>::empty(), true),
                None => result_view(r.default_result) == (Seq::<char>::empty(), "Error"@, false),
            },
    {
        let default_result = match output {
            Some(o) => CommandResult { stdout: o, stderr: String::new(), success: true },
            None => CommandResult { stdout: String::new(), stderr: owned("Error"), success: false },
        };
        MockCommandRunner {
            responses: Vec::new(),
            executed: Vec::new(),
            default_result,
        }
    }

    /// Adds a response, tried after those added before.
    pub fn on(&mut self, cmd: &str, args_contain: &[&str], result: CommandResult)
        ensures
            final(self).responses@.len() == old(self).responses@.len() + 1,
            forall|i: int|
                0 <= i < old(self).responses@.len() ==> #[trigger] final(self).responses@[i] == old(
                    self,
                ).responses@[i],
            final(self).responses@.last().cmd@ == cmd@,
            strings_view(final(self).responses@.last().args_contain@) == args_contain@.map_values(|a: &str| a@),
            final(self).responses@.last().result == result,
            final(self).executed == old(self).executed,
            final(self).default_result == old(self).default_result,
    {
        let mut needles: Vec<String> = Vec::new();
        let mut i: usize = 0;
        while i < args_contain.len()
            invariant
                i <= args_contain@.len(),
                strings_view(needles@) == args_contain@.take(i as int).map_values(|a: &str| a@),
            decreases args_contain@.len() - i,
        {
            let ghost before = strings_view(needles@);
            needles.push(owned(args_contain[i]));
            assert(args_contain@.take(i + 1).map_values(|a: &str| a@) =~= args_contain@.take(i as int).map_values(
                |a: &str| a@,
            ).push(args_contain@[i as int]@));
            assert(strings_view(needles@) =~= before.push(args_contain@[i as int]@));
            i += 1;
        }
        assert(args_contain@.take(args_contain@.len() as int) =~= args_contain@);
        self.responses.push(MockResponse { cmd: owned(cmd), args_contain: needles, result });
    }

    /// Adds a successful response with the given standard output.
    pub fn on_success(&mut self, cmd: &str, args_contain: &[&str], stdout: &str)
        ensures
            final(self).responses@.len() == old(self).responses@.len() + 1,
            forall|i: int|
                0 <= i < old(self).responses@.len() ==> #[trigger] final(self).responses@[i] == old(
                    self,
                ).responses@[i],
            final(self).responses@.last().cmd@ == cmd@,
            strings_view(final(self).responses@.last().args_contain@) == args_contain@.map_values(|a: &str| a@),
            result_view(final(self).responses@.last().result) == (stdout@, Seq::<char>::empty(), true),
            final(self).executed == old(self).executed,
            final(self).default_result == old(self).default_result,
    {
        self.on(cmd, args_contain, CommandResult { stdout: owned(stdout), stderr: String::new(), success: true });
    }

    /// The calls made so far, oldest first, as (program, arguments).
    pub fn executed_commands(&self) -> (r: Vec<(String, Vec<String>)>)
        ensures
            r@.len() == self.executed@.len(),
            forall|i: int|
                0 <= i < r@.len() ==> (#[trigger] r@[i]).0@ == self.executed@[i].0@ && strings_view(r@[i].1@)
                    == strings_view(self.executed@[i].1@),
    {
        let mut r: Vec<(String, Vec<String>)> = Vec::new();
        let mut i: usize = 0;
        while i < self.executed.len()
            invariant
                i <= self.executed@.len(),
                r@.len() == i,
                forall|k: int|
                    0 <= k < i ==> (#[trigger] r@[k]).0@ == self.executed@[k].0@ && strings_view(r@[k].1@)
                        == strings_view(self.executed@[k].1@),
            decreases self.executed@.len() - i,
        {
            r.push((self.executed[i].0.clone(), clone_strings(&self.executed[i].1)));
            i += 1;
        }
        r
    }

    /// Whether some call ran `cmd` with arguments that include all of
    /// `args_contain`.
    pub fn has_run(&self, cmd: &str, args_contain: &[&str]) -> (r: bool)
        ensures
            r == exists|i: int|
                0 <= i < self.executed@.len() && (#[trigger] self.executed@[i]).0@ == cmd@ && forall|j: int|
                    0 <= j < args_contain@.len() ==> strings_view(self.executed@[i].1@).contains(
                        #[trigger] args_contain@[j]@,
                    ),
    {
        let mut i: usize = 0;
        while i < self.executed.len()
            invariant
                i <= self.executed@.len(),
                forall|k: int|
                    0 <= k < i ==> !((#[trigger] self.executed@[k]).0@ == cmd@ && forall|j: int|
                        0 <= j < args_contain@.len() ==> strings_view(self.executed@[k].1@).contains(
                            #[trigger] args_contain@[j]@,
                        )),
            decreases self.executed@.len() - i,
        {
            if str_eq(self.executed[i].0.as_str(), cmd) && contains_all(self.executed[i].1.as_slice(), args_contain) {
                return true;
            }
            i += 1;
        }
        false
    }

    /// Whether no call ran `cmd`.
    pub fn has_not_run(&self, cmd: &str) -> (r: bool)
        ensures
            r == forall|i: int| 0 <= i < self.executed@.len() ==> (#[trigger] self.executed@[i]).0@ != cmd@,
    {
        let mut i: usize = 0;
        while i < self.executed.len()
            invariant
                i <= self.executed@.len(),
                forall|k: int| 0 <= k < i ==> (#[trigger] self.executed@[k]).0@ != cmd@,
            decreases self.executed@.len() - i,
        {
            if str_eq(self.executed[i].0.as_str(), cmd) {
                return false;
            }
            i += 1;
        }
        true
    }
}

/// Whether `args` holds every one of `needles`.
fn contains_all(args: &[String], needles: &[&str]) -> (r: bool)
    ensures
        r == forall|j: int| 0 <= j < needles@.len() ==> strings_view(args@).contains(#[trigger] needles@[j]@),
{
    let mut j: usize = 0;
    while j < needles.len()
        invariant
            j <= needles@.len(),
            forall|t: int| 0 <= t < j ==> strings_view(args@).contains(#[trigger] needles@[t]@),
        decreases needles@.len() - j,
    {
        if !holds(args, needles[j]) {
            return false;
        }
        j += 1;
    }
    true
}

/// Whether `args` holds every one of `needles` (as strings).
fn contains_all_strings(args: &[String], needles: &Vec<String>) -> (r: bool)
    ensures
        r == forall|j: int| 0 <= j < needles@.len() ==> strings_view(args@).contains(#[trigger] needles@[j]@),
{
    let mut j: usize = 0;
    while j < needles.len()
        invariant
            j <= needles@.len(),
            forall|t: int| 0 <= t < j ==> strings_view(args@).contains(#[trigger] needles@[t]@),
        decreases needles@.len() - j,
    {
        if !holds(args, needles[j].as_str()) {
            return false;
        }
        j += 1;
    }
    true
}

/// Whether `args` holds `needle`.
fn holds(args: &[String], needle: &str) -> (r: bool)
    ensures
        r == strings_view(args@).contains(needle@),
{
    let mut i: usize = 0;
    while i < args.len()
        invariant
            i <= args@.len(),
            forall|k: int| 0 <= k < i ==> args@[k]@ != needle@,
        decreases args@.len() - i,
    {
        if str_eq(args[i].as_str(), needle) {
            assert(strings_view(args@)[i as int] == needle@);
            return true;
        }
        i += 1;
    }
    assert forall|k: int| 0 <= k < args@.len() implies strings_view(args@)[k] != needle@ by {}
    false
}

/// A copy of a slice of strings.
fn copy_strings(args: &[String]) -> (r: Vec<String>)
    ensures
        strings_view(r@) == strings_view(args@),
{
    let mut r: Vec<String> = Vec::new();
    let mut i: usize = 0;
    while i < args.len()
        invariant
            i <= args@.len(),
            strings_view(r@) == strings_view(args@.take(i as int)),
        decreases args@.len() - i,
    {
        let a = args[i].clone();
        r.push(a);
        assert(strings_view(args@.take(i + 1)) =~= strings_view(args@.take(i as int)).push(args@[i as int]@));
        assert(strings_view(r@) =~= strings_view(args@.take(i as int)).push(args@[i as int]@));
        i += 1;
    }
    assert(args@.take(args@.len() as int) =~= args@);
    r
}

impl Default for MockCommandRunner {
    /// A runner whose default answer is success with no output.
    fn default() -> (r: Self)
        ensures
            r.responses@.len() == 0,
            r.executed@.len() == 0,
            result_view(r.default_result) == (Seq::<char>::empty(), Seq::<char>::empty(), true),
    {
        Self::new(Some(String::new()))
    }
}

fn clone_result(r: &CommandResult) -> (c: CommandResult)
    ensures
        result_view(c) == result_view(*r),
{
    CommandResult { stdout: r.stdout.clone(), stderr: r.stderr.clone(), success: r.success }
}

impl CommandRunner for MockCommandRunner {
    /// Records the call and answers it (see [`MockCommandRunner::answer`]).
    fn execute(
        &mut self,
        cmd: &str,
        args: &[String],
        mode: StreamMode,
        env: &[(String, String)],
    ) -> (r: Result<CommandResult, CommandError>)
        ensures
            r matches Ok(res) && result_view(res) == old(self).answer(cmd@, strings_view(args@)),
            final(self).responses == old(self).responses,
            final(self).default_result == old(self).default_result,
            final(self).executed@.len() == old(self).executed@.len() + 1,
            forall|i: int|
                0 <= i < old(self).executed@.len() ==> #[trigger] final(self).executed@[i] == old(self).executed@[i],
            final(self).executed@.last().0@ == cmd@,
            strings_view(final(self).executed@.last().1@) == strings_view(args@),
    {
        let res = self.lookup(cmd, args);
        let owned_args = copy_strings(args);
        self.executed.push((owned(cmd), owned_args));
        Ok(res)
    }
}

impl MockCommandRunner {
    /// The answer to a call (see [`MockCommandRunner::answer`]).
    fn lookup(&self, cmd: &str, args: &[String]) -> (r: CommandResult)
        ensures
            result_view(r) == self.answer(cmd@, strings_view(args@)),
    {
        let mut k: usize = 0;
        while k < self.responses.len()
            invariant
                k <= self.responses@.len(),
                first_answer(self.responses@, cmd@, strings_view(args@), 0) == first_answer(
                    self.responses@,
                    cmd@,
                    strings_view(args@),
                    k as int,
                ),
            decreases self.responses@.len() - k,
        {
            let resp = &self.responses[k];
            if str_eq(resp.cmd.as_str(), cmd) && contains_all_strings(args, &resp.args_contain) {
                return clone_result(&resp.result);
            }
            k += 1;
        }
        clone_result(&self.default_result)
    }
}

} // verus!
