//! Conan: the remote to search, `conan install` and `conan search`, picking
//! the latest version of a package, the `conanfile.py` of a project, and
//! the compiler settings of Conan's build-environment scripts.

use vstd::prelude::*;
use crate::cmake::{build_type_name, BuildType};
use crate::command_runner::{
    answer_of, one_more, Answer, pairs_view, spec_tool_stream_mode, tool_stream_mode, CommandBuilder, CommandCall, CommandError,
    CommandResult, CommandRunner, Runner, LogLevel, StreamMode,
};
use crate::config::{dependency_of, Config};
use crate::dependency::{parse_reference, reference_text, spec_matches, Dependency, DependencyView};
use crate::lines::{
    lemma_pieces_append, lemma_pieces_push_line_feed, lemma_pieces_shape, lemma_pieces_single,
    no_line_feed,
};
use crate::text::{
    content, occurs_at, owned, pieces, push_str, scan_to, split_pieces, starts_with_chars, std_line, std_line_of,
    str_chars, string_from_chars, strings_view, sub_chars, trim, trim_chars,
};

verus! {

// ---------------------------------------------------------------------------
// Versions
// ---------------------------------------------------------------------------

/// Whether `semver::Version::parse` accepts `s`.
pub uninterp spec fn semver_valid(s: Seq<char>) -> bool;

/// Whether the version `a` orders before the version `b` (`semver::Version`'s
/// `Ord`), for texts that parse.
pub uninterp spec fn semver_lt(a: Seq<char>, b: Seq<char>) -> bool;

/// Whether the version `s` has no pre-release part.
pub uninterp spec fn semver_stable(s: Seq<char>) -> bool;

/// `semver::Version::parse(s).is_ok()`.
#[verifier::external_body]
fn version_parses(s: &str) -> (r: bool)
    ensures
        r == semver_valid(s@),
{
    semver::Version::parse(s).is_ok()
}

/// `a < b` on the parsed versions. `Version` derives `Ord` (a total order),
/// so the order is asymmetric and transitive.
#[verifier::external_body]
fn version_precedes(a: &str, b: &str) -> (r: bool)
    requires
        semver_valid(a@),
        semver_valid(b@),
    ensures
        r == semver_lt(a@, b@),
        r ==> !semver_lt(b@, a@),
        r ==> forall|c: Seq<char>| semver_valid(c) && semver_lt(b@, c) ==> semver_lt(a@, c),
{
    match (semver::Version::parse(a), semver::Version::parse(b)) {
        (Ok(x), Ok(y)) => x < y,
        _ => false,
    }
}

/// Whether the parsed version's pre-release part is empty.
#[verifier::external_body]
fn version_is_stable(s: &str) -> (r: bool)
    requires
        semver_valid(s@),
    ensures
        r == semver_stable(s@),
{
    match semver::Version::parse(s) {
        Ok(v) => v.pre.is_empty(),
        Err(_) => false,
    }
}

// ---------------------------------------------------------------------------
// Errors
// ---------------------------------------------------------------------------

/// What can go wrong when talking to Conan.
#[derive(Debug)]
pub enum ConanError {
    /// Running `conan` failed, or it reported failure.
    Command(CommandError),
    /// `conan remote list` listed no remote.
    NoRemote,
    /// The first remote listed has no `name:` form.
    RemoteListFormat,
    /// The expression does not read as a package reference.
    BadReference(String),
    /// No version of the package was found on the remote.
    NotFound(String),
}

impl ConanError {
    pub open spec fn message(&self) -> Seq<char> {
        match self {
            ConanError::Command(e) => e.message@,
            ConanError::NoRemote => "no Conan remotes configured -- run `conan remote add` first"@,
            ConanError::RemoteListFormat => "unexpected Conan remote list format"@,
            ConanError::BadReference(expr) => "Could not parse "@ + expr@ + ": Did not match"@,
            ConanError::NotFound(expr) => "Could not find dependency "@ + expr@ + " in remotes"@,
        }
    }

    /// The error message.
    pub fn to_string(&self) -> (r: String)
        ensures
            r@ == self.message(),
    {
        match self {
            ConanError::Command(e) => e.message.clone(),
            ConanError::NoRemote => owned("no Conan remotes configured -- run `conan remote add` first"),
            ConanError::RemoteListFormat => owned("unexpected Conan remote list format"),
            ConanError::BadReference(expr) => {
                let mut m = owned("Could not parse ");
                push_str(&mut m, expr.as_str());
                push_str(&mut m, ": Did not match");
                m
            },
            ConanError::NotFound(expr) => {
                let mut m = owned("Could not find dependency ");
                push_str(&mut m, expr.as_str());
                push_str(&mut m, " in remotes");
                m
            },
        }
    }
}

// ---------------------------------------------------------------------------
// Remotes
// ---------------------------------------------------------------------------

/// What the output of `conan remote list` says of the first remote.
pub enum RemoteListing {
    /// No line with anything but whitespace.
    Empty,
    /// The first such line has no `:`.
    Malformed,
    /// The first such line starts with `name:`.
    Named(Seq<char>),
}

/// The first line from `k` on (as `str::lines` gives it) that is not blank.
pub open spec fn first_filled_line(ps: Seq<Seq<char>>, k: int) -> int
    decreases ps.len() - k,
{
    if k < 0 || k >= ps.len() {
        ps.len() as int
    } else if trim(std_line(ps[k])).len() > 0 {
        k
    } else {
        first_filled_line(ps, k + 1)
    }
}

pub open spec fn is_colon() -> spec_fn(char) -> bool {
    |c: char| c == ':'
}

/// The first remote in the output of `conan remote list`: the text before
/// the first `:` of the first non-blank line, trimmed.
pub open spec fn remote_listing(out: Seq<char>) -> RemoteListing {
    let ps = pieces(out);
    let k = first_filled_line(ps, 0);
    if k >= ps.len() {
        RemoteListing::Empty
    } else {
        let l = std_line(ps[k]);
        let c = scan_to(l, 0, is_colon());
        if c >= l.len() {
            RemoteListing::Malformed
        } else {
            RemoteListing::Named(trim(l.take(c)))
        }
    }
}

fn colon_index(l: &Vec<char>) -> (r: usize)
    ensures
        r == scan_to(l@, 0, is_colon()),
        r <= l@.len(),
{
    let mut c: usize = 0;
    while c < l.len() && l[c] != ':'
        invariant
            c <= l@.len(),
            scan_to(l@, 0, is_colon()) == scan_to(l@, c as int, is_colon()),
        decreases l@.len() - c,
    {
        c += 1;
    }
    c
}

/// The first remote listed by `conan remote list` (see [`remote_listing`]).
pub fn first_remote(out: &str) -> (r: Result<String, ConanError>)
    ensures
        match remote_listing(out@) {
            RemoteListing::Empty => r matches Err(ConanError::NoRemote),
            RemoteListing::Malformed => r matches Err(ConanError::RemoteListFormat),
            RemoteListing::Named(n) => r matches Ok(s) && s@ == n,
        },
{
    let cs = str_chars(out);
    let ps = split_pieces(&cs);
    let ghost psv = pieces(out@);
    let mut k: usize = 0;
    while k < ps.len()
        invariant
            crate::text::char_views(ps@) == psv,
            psv == pieces(out@),
            k <= psv.len(),
            first_filled_line(psv, 0) == first_filled_line(psv, k as int),
        decreases psv.len() - k,
    {
        let l = std_line_of(&ps[k]);
        let t = trim_chars(&l);
        assert(psv[k as int] == ps@[k as int]@);
        assert(l@ == std_line(psv[k as int]));
        if t.len() > 0 {
            assert(first_filled_line(psv, k as int) == k);
            let c = colon_index(&l);
            if c >= l.len() {
                assert(remote_listing(out@) is Malformed);
                return Err(ConanError::RemoteListFormat);
            }
            let name = sub_chars(&l, 0, c);
            assert(name@ =~= l@.take(c as int));
            let name = trim_chars(&name);
            assert(remote_listing(out@) == RemoteListing::Named(name@));
            return Ok(string_from_chars(&name));
        }
        k += 1;
    }
    Err(ConanError::NoRemote)
}

/// What comes of the answer to `conan remote list`: the first remote it
/// names (see [`remote_listing`]), or the error of an empty or malformed
/// listing, or of a run that failed to start.
pub open spec fn listed_remote(a: Answer, r: Result<Conan, ConanError>) -> bool {
    match a {
        Answer::NotRun { message } => r matches Err(ConanError::Command(e)) && e.message@ == message,
        Answer::Ran { stdout, .. } => match remote_listing(stdout) {
            RemoteListing::Empty => r matches Err(ConanError::NoRemote),
            RemoteListing::Malformed => r matches Err(ConanError::RemoteListFormat),
            RemoteListing::Named(n) => r matches Ok(c) && c.remote@ == n,
        },
    }
}

/// The call that lists the configured remotes.
pub open spec fn remote_list_call() -> CommandCall {
    CommandCall { cmd: "conan"@, args: seq!["remote"@, "list"@], mode: StreamMode::Buffer, env: seq![] }
}

// ---------------------------------------------------------------------------
// Candidates and the latest one
// ---------------------------------------------------------------------------

/// The version text of a reference that has one.
pub open spec fn version_of(d: DependencyView) -> Seq<char> {
    match d.version {
        Some(v) => v,
        None => seq![],
    }
}

/// The reference a search result line stands for, when it reads as one,
/// matches `wanted` and has a version that parses.
pub open spec fn candidate_of(line: Seq<char>, wanted: DependencyView) -> Option<DependencyView> {
    match parse_reference(line) {
        Some(d) => if spec_matches(d, wanted) && d.version is Some && semver_valid(version_of(d)) {
            Some(d)
        } else {
            None
        },
        None => None,
    }
}

/// The candidates among lines (as `str::lines` gives them), in order.
pub open spec fn candidates_in(ps: Seq<Seq<char>>, wanted: DependencyView) -> Seq<DependencyView>
    decreases ps.len(),
{
    if ps.len() == 0 {
        seq![]
    } else {
        candidates_in(ps.drop_last(), wanted) + match candidate_of(std_line(ps.last()), wanted) {
            Some(d) => seq![d],
            None => seq![],
        }
    }
}

/// The candidates in the output of `conan search`.
pub open spec fn search_candidates(out: Seq<char>, wanted: DependencyView) -> Seq<DependencyView> {
    candidates_in(pieces(out), wanted)
}

/// Some candidate has a stable version.
pub open spec fn has_stable(cs: Seq<DependencyView>) -> bool {
    exists|i: int| 0 <= i < cs.len() && #[trigger] eligible(version_of(cs[i]), true)
}

/// `d` is one of `cs` (a stable one when `stable_only`), and no such
/// candidate with another version orders after it.
pub open spec fn latest_among(d: DependencyView, cs: Seq<DependencyView>, stable_only: bool) -> bool {
    &&& cs.contains(d)
    &&& eligible(version_of(d), stable_only)
    &&& forall|i: int|
        0 <= i < cs.len() && #[trigger] eligible(version_of(cs[i]), stable_only) && version_of(cs[i]) != version_of(d)
            ==> !semver_lt(version_of(d), version_of(cs[i]))
}

/// The choice among candidates: nothing when there are none; otherwise the
/// latest stable one, or the latest one when none is stable. Among
/// candidates of the same version any may be chosen.
pub open spec fn latest_choice(cs: Seq<DependencyView>, r: Option<DependencyView>) -> bool {
    match r {
        None => cs.len() == 0,
        Some(d) => latest_among(d, cs, has_stable(cs)),
    }
}

pub open spec fn opt_dependency_view(o: Option<Dependency>) -> Option<DependencyView> {
    match o {
        Some(d) => Some(d@),
        None => None,
    }
}

/// A candidate version taken into account: a stable one, or any one.
pub open spec fn eligible(v: Seq<char>, stable_only: bool) -> bool {
    stable_only ==> semver_stable(v)
}

/// The index of the latest candidate (the latest stable one when
/// `stable_only`), if there is one.
fn latest_index(cands: &Vec<Dependency>, stable_only: bool) -> (r: Option<usize>)
    requires
        forall|i: int| 0 <= i < cands@.len() ==> (#[trigger] cands@[i])@.version is Some && semver_valid(version_of(cands@[i]@)),
    ensures
        r is Some <==> (exists|i: int| 0 <= i < cands@.len() && #[trigger] eligible(version_of(cands@[i]@), stable_only)),
        r matches Some(b) ==> b < cands@.len() && eligible(version_of(cands@[b as int]@), stable_only),
        r matches Some(b) ==> forall|i: int|
            0 <= i < cands@.len() && #[trigger] eligible(version_of(cands@[i]@), stable_only) && version_of(cands@[i]@)
                != version_of(cands@[b as int]@) ==> !semver_lt(version_of(cands@[b as int]@), version_of(cands@[i]@)),
{
    let mut found = false;
    let mut best: usize = 0;
    let mut k: usize = 0;
    while k < cands.len()
        invariant
            k <= cands@.len(),
            forall|i: int| 0 <= i < cands@.len() ==> (#[trigger] cands@[i])@.version is Some && semver_valid(version_of(cands@[i]@)),
            found == (exists|i: int| 0 <= i < k && #[trigger] eligible(version_of(cands@[i]@), stable_only)),
            found ==> best < k && eligible(version_of(cands@[best as int]@), stable_only),
            found ==> forall|i: int|
                0 <= i < k && #[trigger] eligible(version_of(cands@[i]@), stable_only) && version_of(cands@[i]@)
                    != version_of(cands@[best as int]@) ==> !semver_lt(version_of(cands@[best as int]@), version_of(cands@[i]@)),
        decreases cands@.len() - k,
    {
        assert(cands@[k as int]@.version is Some);
        if let Some(v) = &cands[k].version {
            let ok = !stable_only || version_is_stable(v.as_str());
            assert(ok == eligible(version_of(cands@[k as int]@), stable_only));
            if ok {
                if !found {
                    found = true;
                    best = k;
                } else if let Some(bv) = &cands[best].version {
                    if version_precedes(bv.as_str(), v.as_str()) {
                        best = k;
                    }
                }
            }
        }
        k += 1;
    }
    if found {
        Some(best)
    } else {
        None
    }
}

/// The latest matching package in the output of `conan search` (see
/// [`latest_choice`]).
pub fn select_latest(out: &str, wanted: &Dependency) -> (r: Option<Dependency>)
    ensures
        latest_choice(search_candidates(out@, wanted@), opt_dependency_view(r)),
{
    let cs = str_chars(out);
    let ps = split_pieces(&cs);
    let ghost psv = pieces(out@);
    let mut cands: Vec<Dependency> = Vec::new();
    let mut i: usize = 0;
    while i < ps.len()
        invariant
            crate::text::char_views(ps@) == psv,
            psv == pieces(out@),
            i <= psv.len(),
            cands@.len() == candidates_in(psv.take(i as int), wanted@).len(),
            forall|k: int| 0 <= k < cands@.len() ==> (#[trigger] cands@[k])@ == candidates_in(psv.take(i as int), wanted@)[k],
            forall|k: int| 0 <= k < cands@.len() ==> (#[trigger] cands@[k])@.version is Some && semver_valid(version_of(cands@[k]@)),
        decreases psv.len() - i,
    {
        let ghost before = candidates_in(psv.take(i as int), wanted@);
        assert(psv.take(i + 1).drop_last() =~= psv.take(i as int));
        let line = std_line_of(&ps[i]);
        let text = string_from_chars(&line);
        match Dependency::from_str(text.as_str()) {
            Ok(d) => {
                if d.matches(wanted) {
                    let ok = match &d.version {
                        Some(v) => version_parses(v.as_str()),
                        None => false,
                    };
                    if ok {
                        cands.push(d);
                    }
                }
            },
            Err(_) => {},
        }
        assert(candidates_in(psv.take(i + 1), wanted@) == before + match candidate_of(std_line(psv[i as int]), wanted@) {
            Some(d) => seq![d],
            None => seq![],
        });
        i += 1;
    }
    let ghost all = search_candidates(out@, wanted@);
    assert(psv.take(psv.len() as int) =~= psv);
    assert forall|k: int| 0 <= k < cands@.len() implies (#[trigger] cands@[k])@ == all[k] by {}
    let stable = latest_index(&cands, true);
    let ghost hs = has_stable(all);
    proof {
        if stable is Some {
            let w = choose|w: int| 0 <= w < cands@.len() && #[trigger] eligible(version_of(cands@[w]@), true);
            assert(all[w] == cands@[w]@);
            assert(eligible(version_of(all[w]), true));
        } else if hs {
            let w = choose|w: int| 0 <= w < all.len() && #[trigger] eligible(version_of(all[w]), true);
            assert(all[w] == cands@[w]@);
            assert(eligible(version_of(cands@[w]@), true));
        }
    }
    let pick = match stable {
        Some(b) => Some(b),
        None => latest_index(&cands, false),
    };
    proof {
        if let Some(b) = pick {
            assert(all[b as int] == cands@[b as int]@);
            assert(all.contains(cands@[b as int]@));
            assert forall|i: int|
                0 <= i < all.len() && #[trigger] eligible(version_of(all[i]), hs) && version_of(all[i])
                    != version_of(cands@[b as int]@) implies !semver_lt(version_of(cands@[b as int]@), version_of(all[i])) by {
                assert(all[i] == cands@[i]@);
                assert(eligible(version_of(cands@[i]@), hs));
            }
            assert(latest_among(cands@[b as int]@, all, hs));
        } else {
            if all.len() > 0 {
                assert(all[0] == cands@[0]@);
                assert(eligible(version_of(cands@[0]@), false));
            }
        }
    }
    match pick {
        Some(b) => Some(cands[b].clone()),
        None => None,
    }
}

// ---------------------------------------------------------------------------
// The Conan front end of a project
// ---------------------------------------------------------------------------

/// `conan` as configured for one project.
#[derive(Debug)]
pub struct Conan {
    pub bin: String,
    pub remote: String,
    pub project_name: String,
    pub requirements: Vec<Dependency>,
}

/// The verbosity flag handed to Conan for a log level.
pub open spec fn conan_verbosity(lvl: LogLevel) -> Seq<Seq<char>> {
    match lvl {
        LogLevel::Off | LogLevel::Error => seq!["-vquiet"@],
        LogLevel::Warn => seq!["-verror"@],
        LogLevel::Info => seq!["-vwarning"@],
        LogLevel::Debug => seq!["-vstatus"@],
        LogLevel::Trace => seq!["-v"@],
    }
}

/// See [`conan_verbosity`].
pub fn conan_verbosity_args(lvl: LogLevel) -> (r: Vec<String>)
    ensures
        strings_view(r@) == conan_verbosity(lvl),
{
    let flag = match lvl {
        LogLevel::Off | LogLevel::Error => owned("-vquiet"),
        LogLevel::Warn => owned("-verror"),
        LogLevel::Info => owned("-vwarning"),
        LogLevel::Debug => owned("-vstatus"),
        LogLevel::Trace => owned("-v"),
    };
    let mut r: Vec<String> = Vec::new();
    r.push(flag);
    assert(strings_view(r@) =~= conan_verbosity(lvl));
    r
}

/// The arguments of `conan install`: build what is missing, for the build
/// type, writing into `out_dir`, for the recipe in `dir`.
pub open spec fn install_args(dir: Seq<char>, out_dir: Seq<char>, build_type: BuildType, lvl: LogLevel) -> Seq<Seq<char>> {
    seq![
        "install"@,
        "--build=missing"@,
        "-s"@,
        "build_type="@ + build_type_name(build_type),
        "--output-folder"@,
        out_dir,
        dir,
    ] + conan_verbosity(lvl)
}

/// The lockfile that pins what Conan resolved, next to `c3pg.toml`.
pub const LOCKFILE: &'static str = "c3pg.lock";

/// [`install_args`], resolving through the project's lockfile.
pub open spec fn locked_install_args(dir: Seq<char>, out_dir: Seq<char>, build_type: BuildType, lvl: LogLevel) -> Seq<
    Seq<char>,
> {
    install_args(dir, out_dir, build_type, lvl).push("--lockfile=c3pg.lock"@)
}

/// The arguments of `conan lock create`: resolve the recipe in `dir` for
/// the build type and write the result to the project's lockfile.
pub open spec fn lock_create_args(dir: Seq<char>, build_type: BuildType, lvl: LogLevel) -> Seq<Seq<char>> {
    seq![
        "lock"@,
        "create"@,
        dir,
        "-s"@,
        "build_type="@ + build_type_name(build_type),
        "--lockfile-out=c3pg.lock"@,
    ] + conan_verbosity(lvl)
}

/// Conan's answer to `conan install` or `conan lock create`: nothing when
/// the run succeeded, otherwise the error ("what: stderr", or the failure
/// to run).
pub fn conan_step_result(answer: Result<CommandResult, CommandError>, what: &str) -> (r: Result<(), ConanError>)
    ensures
        r is Ok <==> (answer matches Ok(res) && res.success),
        answer matches Err(e) ==> (r matches Err(ConanError::Command(x)) && x == e),
        answer matches Ok(res) ==> (!res.success ==> (r matches Err(ConanError::Command(x))
            && x.message@ == what@ + ": "@ + res.stderr@)),
        r is Ok <==> answer_of(answer).succeeded(),
        r is Err ==> (r matches Err(ConanError::Command(x)) && x.message@ == answer_of(answer).failure(what@)),
{
    match answer {
        Ok(res) => match res.expect_success(what) {
            Ok(()) => Ok(()),
            Err(e) => Err(ConanError::Command(e)),
        },
        Err(e) => Err(ConanError::Command(e)),
    }
}

impl Conan {
    /// The requirements of `config`, one per declared dependency.
    pub open spec fn requirements_of(config: Config, reqs: Seq<Dependency>) -> bool {
        &&& reqs.len() == config.dependencies.len_spec()
        &&& forall|i: int|
            0 <= i < reqs.len() ==> (#[trigger] reqs[i])@ == dependency_of(
                config.dependencies.value_at(i),
                config.dependencies.key(i),
            )
    }

    /// Conan for the project of `config`. The remote is the configured one;
    /// without one, the first remote that `conan remote list` reports.
    pub fn from_config<R: CommandRunner>(runner: &mut Runner<R>, config: &Config) -> (r: Result<Conan, ConanError>)
        ensures
            config.conan.remote is Some ==> final(runner).calls() == old(runner).calls() && r is Ok,
            config.conan.remote is None ==> final(runner).calls() == old(runner).calls().push(remote_list_call()),
            r matches Ok(c) ==> {
                &&& c.bin@ == config.conan.bin@
                &&& c.project_name@ == config.project.name@
                &&& Self::requirements_of(*config, c.requirements@)
                &&& config.conan.remote matches Some(x) ==> c.remote@ == x@
            },
            config.conan.remote is Some ==> final(runner).answers() == old(runner).answers(),
            config.conan.remote is None ==> one_more(old(runner).answers(), final(runner).answers()),
            config.conan.remote is None ==> listed_remote(final(runner).answers().last(), r),
    {
        let remote = match &config.conan.remote {
            Some(x) => x.clone(),
            None => {
                let mut list_args: Vec<String> = Vec::new();
                list_args.push(owned("remote"));
                list_args.push(owned("list"));
                let b = runner.command("conan").args_owned(list_args);
                proof {
                    assert(strings_view(b.args@) =~= seq!["remote"@, "list"@]);
                    assert(pairs_view(b.env@) =~= Seq::<(Seq<char>, Seq<char>)>::empty());
                    assert(b.call() == remote_list_call());
                }
                let listed = b.run(runner);
                match listed {
                    Ok(res) => match first_remote(res.stdout.as_str()) {
                        Ok(name) => name,
                        Err(e) => {
                            return Err(e);
                        },
                    },
                    Err(e) => {
                        return Err(ConanError::Command(e));
                    },
                }
            },
        };
        Ok(
            Conan {
                bin: config.conan.bin.clone(),
                remote,
                project_name: config.project.name.clone(),
                requirements: config.dependency_vec(),
            },
        )
    }

    /// The call of `conan install` (see [`install_args`]).
    pub open spec fn install_call(self, dir: Seq<char>, out_dir: Seq<char>, build_type: BuildType, lvl: LogLevel) -> CommandCall {
        CommandCall {
            cmd: self.bin@,
            args: install_args(dir, out_dir, build_type, lvl),
            mode: spec_tool_stream_mode(lvl),
            env: seq![],
        }
    }

    /// The call of `conan install` through the lockfile (see
    /// [`locked_install_args`]).
    pub open spec fn locked_install_call(self, dir: Seq<char>, out_dir: Seq<char>, build_type: BuildType, lvl: LogLevel) -> CommandCall {
        CommandCall {
            cmd: self.bin@,
            args: locked_install_args(dir, out_dir, build_type, lvl),
            mode: spec_tool_stream_mode(lvl),
            env: seq![],
        }
    }

    /// The call of `conan lock create` (see [`lock_create_args`]).
    pub open spec fn lock_create_call(self, dir: Seq<char>, build_type: BuildType, lvl: LogLevel) -> CommandCall {
        CommandCall {
            cmd: self.bin@,
            args: lock_create_args(dir, build_type, lvl),
            mode: spec_tool_stream_mode(lvl),
            env: seq![],
        }
    }

    /// Runs `conan install` for the recipe in `dir`, writing into `out_dir`.
    /// Fails when the run fails or Conan reports failure ("Conan install
    /// failed: ...").
    pub fn install<R: CommandRunner>(
        &self,
        runner: &mut Runner<R>,
        dir: &str,
        out_dir: &str,
        build_type: BuildType,
        lvl: LogLevel,
    ) -> (r: Result<(), ConanError>)
        ensures
            final(runner).calls() == old(runner).calls().push(self.install_call(dir@, out_dir@, build_type, lvl)),
            one_more(old(runner).answers(), final(runner).answers()),
            r is Ok <==> final(runner).answers().last().succeeded(),
            r is Err ==> (r matches Err(ConanError::Command(x)) && x.message@ == final(runner).answers().last().failure(
                "Conan install failed"@,
            )),
    {
        let b = self.install_command(runner, dir, out_dir, build_type, lvl);
        conan_step_result(b.run(runner), "Conan install failed")
    }

    /// Runs `conan install` like [`Conan::install`], resolving through the
    /// project's lockfile.
    pub fn install_locked<R: CommandRunner>(
        &self,
        runner: &mut Runner<R>,
        dir: &str,
        out_dir: &str,
        build_type: BuildType,
        lvl: LogLevel,
    ) -> (r: Result<(), ConanError>)
        ensures
            final(runner).calls() == old(runner).calls().push(
                self.locked_install_call(dir@, out_dir@, build_type, lvl),
            ),
            one_more(old(runner).answers(), final(runner).answers()),
            r is Ok <==> final(runner).answers().last().succeeded(),
            r is Err ==> (r matches Err(ConanError::Command(x)) && x.message@ == final(runner).answers().last().failure(
                "Conan install failed"@,
            )),
    {
        let mut extra: Vec<String> = Vec::new();
        extra.push(owned("--lockfile=c3pg.lock"));
        let b = self.install_command(runner, dir, out_dir, build_type, lvl).args_owned(extra);
        proof {
            reveal_strlit("--lockfile=c3pg.lock");
            assert(strings_view(b.args@) =~= locked_install_args(dir@, out_dir@, build_type, lvl));
            assert(b.call() == self.locked_install_call(dir@, out_dir@, build_type, lvl));
        }
        conan_step_result(b.run(runner), "Conan install failed")
    }

    /// Runs `conan lock create` for the recipe in `dir`, writing the
    /// project's lockfile. Fails when the run fails or Conan reports failure
    /// ("Conan lock create failed: ...").
    pub fn lock_create<R: CommandRunner>(&self, runner: &mut Runner<R>, dir: &str, build_type: BuildType, lvl: LogLevel) -> (r:
        Result<(), ConanError>)
        ensures
            final(runner).calls() == old(runner).calls().push(self.lock_create_call(dir@, build_type, lvl)),
            one_more(old(runner).answers(), final(runner).answers()),
            r is Ok <==> final(runner).answers().last().succeeded(),
            r is Err ==> (r matches Err(ConanError::Command(x)) && x.message@ == final(runner).answers().last().failure(
                "Conan lock create failed"@,
            )),
    {
        let mut bt = owned("build_type=");
        let name = build_type.to_string();
        push_str(&mut bt, name.as_str());
        let mut args: Vec<String> = Vec::new();
        args.push(owned("lock"));
        args.push(owned("create"));
        args.push(owned(dir));
        args.push(owned("-s"));
        args.push(bt);
        args.push(owned("--lockfile-out=c3pg.lock"));
        let mut v = conan_verbosity_args(lvl);
        args.append(&mut v);
        let b = runner.command(self.bin.as_str()).args_owned(args).stream_mode(tool_stream_mode(lvl));
        proof {
            assert(strings_view(b.args@) =~= lock_create_args(dir@, build_type, lvl));
            assert(pairs_view(b.env@) =~= Seq::<(Seq<char>, Seq<char>)>::empty());
            assert(b.call() == self.lock_create_call(dir@, build_type, lvl));
        }
        conan_step_result(b.run(runner), "Conan lock create failed")
    }

    /// The request of `conan install` (see [`install_args`]).
    fn install_command<R: CommandRunner>(
        &self,
        runner: &Runner<R>,
        dir: &str,
        out_dir: &str,
        build_type: BuildType,
        lvl: LogLevel,
    ) -> (b: CommandBuilder)
        ensures
            b.call() == self.install_call(dir@, out_dir@, build_type, lvl),
    {
        let mut bt = owned("build_type=");
        let name = build_type.to_string();
        push_str(&mut bt, name.as_str());
        let mut args: Vec<String> = Vec::new();
        args.push(owned("install"));
        args.push(owned("--build=missing"));
        args.push(owned("-s"));
        args.push(bt);
        args.push(owned("--output-folder"));
        args.push(owned(out_dir));
        args.push(owned(dir));
        let mut v = conan_verbosity_args(lvl);
        args.append(&mut v);
        let b = runner.command(self.bin.as_str()).args_owned(args).stream_mode(tool_stream_mode(lvl));
        proof {
            assert(strings_view(b.args@) =~= install_args(dir@, out_dir@, build_type, lvl));
            assert(pairs_view(b.env@) =~= Seq::<(Seq<char>, Seq<char>)>::empty());
            assert(b.call() == self.install_call(dir@, out_dir@, build_type, lvl));
        }
        b
    }

    /// The call of `conan search -r <remote> <expr>`.
    pub open spec fn search_call(self, expr: Seq<char>) -> CommandCall {
        CommandCall {
            cmd: self.bin@,
            args: seq!["search"@, "-r"@, self.remote@, expr],
            mode: StreamMode::Buffer,
            env: seq![],
        }
    }

    /// Searches the remote for `expr` and returns what Conan printed. Fails
    /// when the run fails or Conan reports failure.
    pub fn search<R: CommandRunner>(&self, runner: &mut Runner<R>, expr: &str) -> (r: Result<String, ConanError>)
        ensures
            final(runner).calls() == old(runner).calls().push(self.search_call(expr@)),
            one_more(old(runner).answers(), final(runner).answers()),
            r is Ok <==> final(runner).answers().last().succeeded(),
            r matches Ok(out) ==> final(runner).answers().last() matches Answer::Ran { stdout, .. } && out@
                == stdout,
            r is Err ==> (r matches Err(ConanError::Command(e)) && e.message@ == final(runner).answers().last().command_failure("Could not search in remote "@ + self.remote@)),
    {
        let mut args: Vec<String> = Vec::new();
        args.push(owned("search"));
        args.push(owned("-r"));
        args.push(self.remote.clone());
        args.push(owned(expr));
        let b = runner.command(self.bin.as_str()).args_owned(args);
        proof {
            assert(strings_view(b.args@) =~= seq!["search"@, "-r"@, self.remote@, expr@]);
            assert(pairs_view(b.env@) =~= Seq::<(Seq<char>, Seq<char>)>::empty());
            assert(b.call() == self.search_call(expr@));
        }
        let mut what = owned("Could not search in remote ");
        push_str(&mut what, self.remote.as_str());
        match b.run(runner) {
            Ok(res) => match res.expect_success_with_stdout(what.as_str()) {
                Ok(out) => Ok(out),
                Err(e) => Err(ConanError::Command(e)),
            },
            Err(e) => Err(ConanError::Command(e)),
        }
    }

    /// Searches the remote for the package of `dependency` and picks the
    /// latest matching version (see [`select_latest`]).
    pub fn find_dependency<R: CommandRunner>(&self, runner: &mut Runner<R>, dependency: &Dependency) -> (r: Result<
        Option<Dependency>,
        ConanError,
    >)
        ensures
            final(runner).calls() == old(runner).calls().push(self.search_call(dependency.name@)),
            one_more(old(runner).answers(), final(runner).answers()),
            r is Ok <==> final(runner).answers().last().succeeded(),
            r matches Ok(x) ==> final(runner).answers().last() matches Answer::Ran { stdout, .. }
                && latest_choice(search_candidates(stdout, dependency@), opt_dependency_view(x)),
            r is Err ==> (r matches Err(ConanError::Command(e)) && e.message@ == final(runner).answers().last().command_failure("Could not search in remote "@ + self.remote@)),
    {
        let out = match self.search(runner, dependency.name.as_str()) {
            Ok(out) => out,
            Err(e) => {
                return Err(e);
            },
        };
        Ok(select_latest(out.as_str(), dependency))
    }

    /// Reads `expr` as a package reference and finds its latest matching
    /// version on the remote. An expression that does not read as a
    /// reference gives `BadReference` and runs nothing.
    pub fn get_latest_matching_dependency<R: CommandRunner>(&self, runner: &mut Runner<R>, expr: &str) -> (r: Result<
        Option<Dependency>,
        ConanError,
    >)
        ensures
            parse_reference(expr@) is None ==> final(runner).calls() == old(runner).calls() && (r matches Err(
                ConanError::BadReference(x),
            ) && x@ == expr@),
            parse_reference(expr@) matches Some(d) ==> final(runner).calls() == old(runner).calls().push(
                self.search_call(d.name),
            ),
            parse_reference(expr@) is None ==> final(runner).answers() == old(runner).answers(),
            parse_reference(expr@) is Some ==> one_more(old(runner).answers(), final(runner).answers()),
            parse_reference(expr@) is Some ==> (r is Ok <==> final(runner).answers().last().succeeded()),
            parse_reference(expr@) matches Some(d) ==> (r matches Ok(x) ==> final(runner).answers().last() matches Answer::Ran { stdout, .. } && latest_choice(
                search_candidates(stdout, d),
                opt_dependency_view(x),
            )),
            parse_reference(expr@) is Some ==> (r is Err ==> (r matches Err(ConanError::Command(e))
                && e.message@ == final(runner).answers().last().command_failure(
                "Could not search in remote "@ + self.remote@,
            ))),
    {
        match Dependency::from_str(expr) {
            Ok(d) => self.find_dependency(runner, &d),
            Err(_) => Err(ConanError::BadReference(owned(expr))),
        }
    }

    /// The `conanfile.py` of the project: its class is named after the
    /// project in PascalCase (see [`conanfile`]).
    pub fn to_string(&self) -> (r: String)
        ensures
            r@ == conanfile_text(pascal_case_of(self.project_name@), self.project_name@, dependency_views(self.requirements@)),
    {
        let class_name = pascal_case(self.project_name.as_str());
        conanfile(class_name.as_str(), self.project_name.as_str(), &self.requirements)
    }

}

// ---------------------------------------------------------------------------
// conanfile.py
// ---------------------------------------------------------------------------

/// What `heck::ToPascalCase` makes of `s`.
pub uninterp spec fn pascal_case_of(s: Seq<char>) -> Seq<char>;

/// `s` in PascalCase (`heck::ToPascalCase::to_pascal_case`).
#[verifier::external_body]
fn pascal_case(s: &str) -> (r: String)
    ensures
        r@ == pascal_case_of(s@),
{
    heck::ToPascalCase::to_pascal_case(s)
}

pub open spec fn dependency_views(ds: Seq<Dependency>) -> Seq<DependencyView> {
    ds.map_values(|d: Dependency| d@)
}

/// `        self.requires("<reference>")`
pub open spec fn requires_line(d: DependencyView) -> Seq<char> {
    "        self.requires(\""@ + reference_text(d) + "\")"@
}

/// The requirement lines, joined by line feeds.
pub open spec fn requires_lines(ds: Seq<DependencyView>) -> Seq<char>
    decreases ds.len(),
{
    if ds.len() == 0 {
        seq![]
    } else if ds.len() == 1 {
        requires_line(ds[0])
    } else {
        requires_lines(ds.drop_last()) + "\n"@ + requires_line(ds.last())
    }
}

/// A requirement line is one line ending with `)`.
proof fn lemma_requires_line_shape(d: DependencyView)
    requires
        no_line_feed(reference_text(d)),
    ensures
        no_line_feed(requires_line(d)),
        requires_line(d).len() > 0,
        requires_line(d).last() == ')',
{
    reveal_strlit("        self.requires(\"");
    reveal_strlit("\")");
    let a = "        self.requires(\""@;
    let r = reference_text(d);
    let b = "\")"@;
    let l = requires_line(d);
    assert(l == a + r + b);
    assert forall|j: int| 0 <= j < l.len() implies #[trigger] l[j] != '\n' by {
        if j < a.len() {
            assert(l[j] == a[j]);
        } else if j < a.len() + r.len() {
            assert(l[j] == r[j - a.len()]);
        } else {
            assert(l[j] == b[j - a.len() - r.len()]);
        }
    }
}

/// The requirements are written one per line: with `n` requirements whose
/// references hold no line feed, the text has `n` lines, line `i` being
/// eight spaces and `self.requires("<reference i>")`.
pub proof fn lemma_requires_one_per_line(ds: Seq<DependencyView>)
    requires
        ds.len() >= 1,
        forall|i: int| 0 <= i < ds.len() ==> no_line_feed(reference_text(#[trigger] ds[i])),
    ensures
        pieces(requires_lines(ds)).len() == ds.len(),
        forall|i: int|
            0 <= i < ds.len() ==> content(#[trigger] pieces(requires_lines(ds))[i]) == "        self.requires(\""@
                + reference_text(ds[i]) + "\")"@,
        requires_lines(ds).len() > 0,
        requires_lines(ds).last() == ')',
    decreases ds.len(),
{
    let n = ds.len() as int;
    let l = requires_line(ds[n - 1]);
    lemma_requires_line_shape(ds[n - 1]);
    if n == 1 {
        lemma_pieces_single(l);
        assert(requires_lines(ds) == l);
        assert(content(l) == l);
    } else {
        let es = ds.drop_last();
        assert forall|i: int| 0 <= i < es.len() implies no_line_feed(reference_text(#[trigger] es[i])) by {
            assert(es[i] == ds[i]);
        }
        lemma_requires_one_per_line(es);
        let r = requires_lines(es);
        let rn = r.push('\n');
        reveal_strlit("\n");
        assert(requires_lines(ds) == r + "\n"@ + l);
        assert(requires_lines(ds) =~= rn + l);
        lemma_pieces_shape(r);
        lemma_pieces_push_line_feed(r);
        lemma_pieces_append(rn, l);
        lemma_pieces_single(l);
        let p = pieces(r);
        let q = pieces(requires_lines(ds));
        assert(q == p.update(p.len() - 1, p.last().push('\n')) + seq![l]);
        assert forall|i: int|
            0 <= i < n implies content(#[trigger] q[i]) == "        self.requires(\""@ + reference_text(ds[i])
                + "\")"@ by {
            if i == n - 1 {
                assert(q[i] == l);
                assert(content(l) == l);
            } else if i == n - 2 {
                assert(q[i] == p.last().push('\n'));
                assert(p.last().last() == ')');
                assert(content(p.last().push('\n')) =~= p.last());
                assert(content(p[i]) == p[i]);
                assert(es[i] == ds[i]);
            } else {
                assert(q[i] == p[i]);
                assert(es[i] == ds[i]);
            }
        }
    }
}

/// The body of `requirements(self)`: one `self.requires(..)` per
/// requirement, or `pass` when there is none.
pub open spec fn requirements_body(ds: Seq<DependencyView>) -> Seq<char> {
    if ds.len() == 0 {
        "        pass"@
    } else {
        requires_lines(ds)
    }
}

/// The text of a `conanfile.py`.
pub open spec fn conanfile_text(class_name: Seq<char>, project_name: Seq<char>, ds: Seq<DependencyView>) -> Seq<char> {
    "from conan import ConanFile\n\n\nclass "@ + class_name + "(ConanFile):\n    name = \""@ + project_name
        + "\"\n    version = \"0.1\"\n    settings = \"os\", \"compiler\", \"build_type\", \"arch\"\n    generators = \"CMakeDeps\", \"CMakeToolchain\"\n\n    def requirements(self):\n"@
        + requirements_body(ds) + "\n"@
}

/// The `conanfile.py` of a project (see [`conanfile_text`]).
pub fn conanfile(class_name: &str, project_name: &str, requirements: &Vec<Dependency>) -> (r: String)
    ensures
        r@ == conanfile_text(class_name@, project_name@, dependency_views(requirements@)),
{
    let ghost ds = dependency_views(requirements@);
    let mut body = String::new();
    if requirements.len() == 0 {
        push_str(&mut body, "        pass");
    } else {
        let mut i: usize = 0;
        while i < requirements.len()
            invariant
                ds == dependency_views(requirements@),
                i <= requirements@.len(),
                requirements@.len() > 0,
                body@ == requires_lines(ds.take(i as int)),
            decreases requirements@.len() - i,
        {
            let ghost before = body@;
            if i > 0 {
                push_str(&mut body, "\n");
            }
            push_str(&mut body, "        self.requires(\"");
            let text = requirements[i].to_string();
            push_str(&mut body, text.as_str());
            push_str(&mut body, "\")");
            proof {
                assert(ds.take(i + 1).drop_last() =~= ds.take(i as int));
                assert(ds.take(i + 1).last() == requirements@[i as int]@);
                if i == 0 {
                    assert(ds.take(1).len() == 1);
                    assert(body@ =~= requires_line(ds.take(1)[0]));
                } else {
                    assert(body@ =~= before + "\n"@ + requires_line(requirements@[i as int]@));
                }
            }
            i += 1;
        }
        assert(ds.take(requirements@.len() as int) =~= ds);
    }
    let mut r = owned("from conan import ConanFile\n\n\nclass ");
    push_str(&mut r, class_name);
    push_str(&mut r, "(ConanFile):\n    name = \"");
    push_str(&mut r, project_name);
    push_str(
        &mut r,
        "\"\n    version = \"0.1\"\n    settings = \"os\", \"compiler\", \"build_type\", \"arch\"\n    generators = \"CMakeDeps\", \"CMakeToolchain\"\n\n    def requirements(self):\n",
    );
    push_str(&mut r, body.as_str());
    push_str(&mut r, "\n");
    assert(r@ =~= conanfile_text(class_name@, project_name@, ds));
    r
}

// ---------------------------------------------------------------------------
// Build environment scripts
// ---------------------------------------------------------------------------

/// Whether `s` ends with `p`.
pub open spec fn ends_with(s: Seq<char>, p: Seq<char>) -> bool {
    s.len() >= p.len() && s.subrange(s.len() - p.len(), s.len() as int) == p
}

/// The file name of a Conan build-environment script:
/// `conanbuildenv-*.sh`, or `conanbuildenv-*.bat` on Windows.
pub open spec fn is_build_env_script_name(name: Seq<char>, windows: bool) -> bool {
    occurs_at(name, "conanbuildenv-"@, 0) && ends_with(
        name,
        if windows {
            ".bat"@
        } else {
            ".sh"@
        },
    )
}

fn ends_with_chars(s: &Vec<char>, p: &Vec<char>) -> (r: bool)
    ensures
        r == ends_with(s@, p@),
{
    if p.len() > s.len() {
        return false;
    }
    let tail = sub_chars(s, s.len() - p.len(), s.len());
    let mut i: usize = 0;
    while i < p.len()
        invariant
            tail@ == s@.subrange(s.len() - p.len(), s.len() as int),
            tail@.len() == p@.len(),
            i <= p.len(),
            forall|k: int| 0 <= k < i ==> tail@[k] == p@[k],
        decreases p.len() - i,
    {
        if tail[i] != p[i] {
            return false;
        }
        i += 1;
    }
    assert(tail@ =~= p@);
    true
}

/// See [`is_build_env_script_name`].
pub fn is_build_env_script(name: &str, windows: bool) -> (r: bool)
    ensures
        r == is_build_env_script_name(name@, windows),
{
    let n = str_chars(name);
    let prefix = str_chars("conanbuildenv-");
    let suffix = if windows {
        str_chars(".bat")
    } else {
        str_chars(".sh")
    };
    starts_with_chars(&n, &prefix) && ends_with_chars(&n, &suffix)
}

pub open spec fn is_equals() -> spec_fn(char) -> bool {
    |c: char| c == '='
}

pub open spec fn other_than(c: char) -> spec_fn(char) -> bool {
    |x: char| x != c
}

/// Where the leading run of `c` ends.
pub open spec fn lead_end(s: Seq<char>, c: char) -> int {
    scan_to(s, 0, other_than(c))
}

/// One past the last character among the first `j` that is not `c`.
pub open spec fn trail_end(s: Seq<char>, c: char, j: int) -> int
    decreases j,
{
    if j <= 0 {
        0
    } else if s[j - 1] != c {
        j
    } else {
        trail_end(s, c, j - 1)
    }
}

/// `s` without the `c`s that lead or end it (`str::trim_matches`).
pub open spec fn trim_matches(s: Seq<char>, c: char) -> Seq<char> {
    let a = lead_end(s, c);
    let b = trail_end(s, c, s.len() as int);
    if a >= b {
        seq![]
    } else {
        s.subrange(a, b)
    }
}

/// The variable a line of a build-environment script sets, if any. On
/// Windows a line `set "KEY=VALUE"`; elsewhere a line `export KEY=VALUE`,
/// whose value loses surrounding double and then single quotes. Lines are
/// read without surrounding whitespace, and split at the first `=`.
pub open spec fn env_assignment(line: Seq<char>, windows: bool) -> Option<(Seq<char>, Seq<char>)> {
    let l = trim(line);
    if windows {
        if occurs_at(l, "set \""@, 0) {
            let rest = l.skip(5);
            if rest.len() > 0 && rest.last() == '"' {
                let body = rest.drop_last();
                let e = scan_to(body, 0, is_equals());
                if e < body.len() {
                    Some((body.take(e), body.skip(e + 1)))
                } else {
                    None
                }
            } else {
                None
            }
        } else {
            None
        }
    } else {
        if occurs_at(l, "export "@, 0) {
            let rest = l.skip(7);
            let e = scan_to(rest, 0, is_equals());
            if e < rest.len() {
                Some((rest.take(e), trim_matches(trim_matches(rest.skip(e + 1), '"'), '\'')))
            } else {
                None
            }
        } else {
            None
        }
    }
}

/// The variables set by the lines, in order.
pub open spec fn env_assignments(ps: Seq<Seq<char>>, windows: bool) -> Seq<(Seq<char>, Seq<char>)>
    decreases ps.len(),
{
    if ps.len() == 0 {
        seq![]
    } else {
        env_assignments(ps.drop_last(), windows) + match env_assignment(std_line(ps.last()), windows) {
            Some(kv) => seq![kv],
            None => seq![],
        }
    }
}

fn index_of_equals(l: &Vec<char>) -> (r: usize)
    ensures
        r == scan_to(l@, 0, is_equals()),
        r <= l@.len(),
{
    let mut c: usize = 0;
    while c < l.len() && l[c] != '='
        invariant
            c <= l@.len(),
            scan_to(l@, 0, is_equals()) == scan_to(l@, c as int, is_equals()),
        decreases l@.len() - c,
    {
        c += 1;
    }
    c
}

fn trim_matches_chars(s: &Vec<char>, c: char) -> (r: Vec<char>)
    ensures
        r@ == trim_matches(s@, c),
{
    let mut a: usize = 0;
    while a < s.len() && s[a] == c
        invariant
            a <= s@.len(),
            lead_end(s@, c) == scan_to(s@, a as int, other_than(c)),
        decreases s@.len() - a,
    {
        a += 1;
    }
    let mut b: usize = s.len();
    while b > 0 && s[b - 1] == c
        invariant
            b <= s@.len(),
            trail_end(s@, c, s@.len() as int) == trail_end(s@, c, b as int),
        decreases b,
    {
        b -= 1;
    }
    if a >= b {
        Vec::new()
    } else {
        sub_chars(s, a, b)
    }
}

/// The variable one line sets (see [`env_assignment`]).
fn line_assignment(line: &Vec<char>, windows: bool) -> (r: Option<(String, String)>)
    ensures
        match env_assignment(line@, windows) {
            Some(kv) => r matches Some(p) && p.0@ == kv.0 && p.1@ == kv.1,
            None => r is None,
        },
{
    let l = trim_chars(line);
    if windows {
        let p = str_chars("set \"");
        proof {
            reveal_strlit("set \"");
        }
        if !starts_with_chars(&l, &p) {
            return None;
        }
        let rest = sub_chars(&l, 5, l.len());
        assert(rest@ =~= l@.skip(5));
        if rest.len() == 0 || rest[rest.len() - 1] != '"' {
            return None;
        }
        let body = sub_chars(&rest, 0, rest.len() - 1);
        assert(body@ =~= rest@.drop_last());
        let e = index_of_equals(&body);
        if e >= body.len() {
            return None;
        }
        let key = sub_chars(&body, 0, e);
        let val = sub_chars(&body, e + 1, body.len());
        assert(key@ =~= body@.take(e as int));
        assert(val@ =~= body@.skip(e + 1));
        Some((string_from_chars(&key), string_from_chars(&val)))
    } else {
        let p = str_chars("export ");
        proof {
            reveal_strlit("export ");
        }
        if !starts_with_chars(&l, &p) {
            return None;
        }
        let rest = sub_chars(&l, 7, l.len());
        assert(rest@ =~= l@.skip(7));
        let e = index_of_equals(&rest);
        if e >= rest.len() {
            return None;
        }
        let key = sub_chars(&rest, 0, e);
        let val = sub_chars(&rest, e + 1, rest.len());
        assert(key@ =~= rest@.take(e as int));
        assert(val@ =~= rest@.skip(e + 1));
        let val = trim_matches_chars(&val, '"');
        let val = trim_matches_chars(&val, '\'');
        Some((string_from_chars(&key), string_from_chars(&val)))
    }
}

/// The compiler settings (`CC`, `CXX`, ...) a Conan build-environment script
/// exports, in order (see [`env_assignment`]); `windows` selects the `.bat`
/// syntax.
pub fn parse_build_env_script(contents: &str, windows: bool) -> (r: Vec<(String, String)>)
    ensures
        pairs_view(r@) == env_assignments(pieces(contents@), windows),
{
    let cs = str_chars(contents);
    let ps = split_pieces(&cs);
    let ghost psv = pieces(contents@);
    let mut r: Vec<(String, String)> = Vec::new();
    let mut i: usize = 0;
    while i < ps.len()
        invariant
            crate::text::char_views(ps@) == psv,
            psv == pieces(contents@),
            i <= psv.len(),
            pairs_view(r@) == env_assignments(psv.take(i as int), windows),
        decreases psv.len() - i,
    {
        assert(psv.take(i + 1).drop_last() =~= psv.take(i as int));
        assert(psv[i as int] == ps@[i as int]@);
        let line = std_line_of(&ps[i]);
        let ghost before = r@;
        match line_assignment(&line, windows) {
            Some(kv) => {
                r.push(kv);
                assert(pairs_view(r@) =~= pairs_view(before).push((r@.last().0@, r@.last().1@)));
            },
            None => {},
        }
        assert(pairs_view(r@) =~= env_assignments(psv.take(i + 1), windows));
        i += 1;
    }
    assert(psv.take(psv.len() as int) =~= psv);
    r
}

} // verus!
