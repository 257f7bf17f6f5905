//! Finding a runtime for the toolchain, the environment it runs in, and the
//! classification of what it printed.

use std::path::Path;
use vstd::prelude::*;
use crate::session::Candidate;
use crate::text::{has_prefix, is_prefix, join_path, joined, opt_text, parent_dir, parent_of, texts};
use crate::version::{parsed_below, parse_u64, strip_v, split_dots};

verus! {

/// Wall-clock limit for one toolchain run, in seconds.
pub const TOOLCHAIN_TIMEOUT_SECS: u64 = 120;

/// What the toolchain prints first when it reports an application error.
pub const STRUCTURED_ERROR_PREFIX: &'static str = "{\"error\":true";

/// The oldest runtime major version the toolchain supports.
pub const MIN_RUNTIME_MAJOR: u32 = 18;

/// The outcome of one toolchain run, as handed to the display surface.
#[derive(Debug, Clone, PartialEq, Eq)]
pub enum InvocationResult {
    /// The transformed artifact.
    Success(String),
    /// A machine-readable error report printed by the toolchain.
    StructuredError(String),
    /// The toolchain failed otherwise; its error output, or why it could not start.
    ProcessError(String),
    /// The run exceeded `TOOLCHAIN_TIMEOUT_SECS`.
    Timeout,
    /// The toolchain could not be started; why.
    LaunchFailed(String),
}

/// What happened to the toolchain process.
#[derive(Debug, Clone, PartialEq, Eq)]
pub enum ProcessOutcome {
    /// It ran to the end with this exit status and output.
    Finished { success: bool, stdout: String, stderr: String },
    /// It was stopped at the timeout.
    TimedOut,
    /// It could not be started.
    LaunchFailed(String),
}

/// No runtime was found anywhere; the user has to install one.
#[derive(Debug, Clone, Copy, PartialEq, Eq)]
pub enum LocateError {
    RuntimeNotFound,
}

impl LocateError {
    /// The text shown to the user, with where to get a runtime.
    pub fn message(&self) -> (r: String)
        ensures
            r@ == "Node.js not found. Install it from https://nodejs.org"@,
    {
        String::from_str("Node.js not found. Install it from https://nodejs.org")
    }
}

/// The exact classification of a finished run: a structured error when the
/// output starts with the sentinel, or when the run failed and the output
/// starts with `{`; a process error when it failed otherwise; else success.
pub open spec fn classified_kind(success: bool, stdout: Seq<char>) -> int {
    if is_prefix(STRUCTURED_ERROR_PREFIX@, stdout) || (!success && is_prefix(seq!['{'], stdout)) {
        1
    } else if !success {
        2
    } else {
        0
    }
}

/// Classifies a finished run; the payload is stdout for success and
/// structured errors and stderr for process errors.
pub fn classify_output(success: bool, stdout: String, stderr: String) -> (r: InvocationResult)
    ensures
        match r {
            InvocationResult::Success(p) => classified_kind(success, stdout@) == 0 && p@ == stdout@,
            InvocationResult::StructuredError(p) => classified_kind(success, stdout@) == 1 && p@
                == stdout@,
            InvocationResult::ProcessError(m) => classified_kind(success, stdout@) == 2 && m@
                == stderr@,
            InvocationResult::Timeout => false,
            InvocationResult::LaunchFailed(_) => false,
        },
{
    let sentinel = has_prefix(stdout.as_str(), STRUCTURED_ERROR_PREFIX);
    let brace = has_prefix(stdout.as_str(), "{");
    proof {
        reveal_strlit("{");
        assert("{"@ =~= seq!['{']);
    }
    if sentinel || (!success && brace) {
        InvocationResult::StructuredError(stdout)
    } else if !success {
        InvocationResult::ProcessError(stderr)
    } else {
        InvocationResult::Success(stdout)
    }
}

/// Turns whatever happened to the process into the result delivered.
pub fn classify_outcome(outcome: ProcessOutcome) -> (r: InvocationResult)
    ensures
        match outcome {
            ProcessOutcome::Finished { success, stdout, stderr } => match r {
                InvocationResult::Success(p) => classified_kind(success, stdout@) == 0 && p@
                    == stdout@,
                InvocationResult::StructuredError(p) => classified_kind(success, stdout@) == 1
                    && p@ == stdout@,
                InvocationResult::ProcessError(m) => classified_kind(success, stdout@) == 2 && m@
                    == stderr@,
                InvocationResult::Timeout => false,
                InvocationResult::LaunchFailed(_) => false,
            },
            ProcessOutcome::TimedOut => r is Timeout,
            ProcessOutcome::LaunchFailed(e) => r matches InvocationResult::LaunchFailed(m) && m@
                == e@,
        },
{
    match outcome {
        ProcessOutcome::Finished { success, stdout, stderr } => classify_output(
            success,
            stdout,
            stderr,
        ),
        ProcessOutcome::TimedOut => InvocationResult::Timeout,
        ProcessOutcome::LaunchFailed(e) => InvocationResult::LaunchFailed(e),
    }
}

impl InvocationResult {
    /// The result as the text the display surface receives: the artifact,
    /// or the error text to show.
    pub fn into_text(self) -> (r: Result<String, String>)
        ensures
            match self {
                InvocationResult::Success(p) => r matches Ok(t) && t@ == p@,
                InvocationResult::StructuredError(p) => r matches Err(t) && t@ == p@,
                InvocationResult::ProcessError(m) => r matches Err(t) && t@ == "Bundler failed:\n"@
                    + m@,
                InvocationResult::Timeout => r matches Err(t) && t@
                    == "Bundler timed out after 120 seconds"@,
                InvocationResult::LaunchFailed(e) => r matches Err(t) && t@
                    == "Failed to run bundler: "@ + e@,
            },
    {
        match self {
            InvocationResult::Success(p) => Ok(p),
            InvocationResult::StructuredError(p) => Err(p),
            InvocationResult::ProcessError(m) => {
                let mut t = String::from_str("Bundler failed:\n");
                t.append(m.as_str());
                Err(t)
            },
            InvocationResult::Timeout => Err(String::from_str("Bundler timed out after 120 seconds")),
            InvocationResult::LaunchFailed(e) => {
                let mut t = String::from_str("Failed to run bundler: ");
                t.append(e.as_str());
                Err(t)
            },
        }
    }
}

/// The first candidate, from position `i` on, that exists.
pub open spec fn first_existing_from(c: Seq<Candidate>, i: int) -> Option<Seq<char>>
    decreases c.len() - i,
{
    if i < 0 || i >= c.len() {
        None
    } else if c[i].exists {
        Some(c[i].path@)
    } else {
        first_existing_from(c, i + 1)
    }
}

/// The first entry, from position `i` on, that holds a path.
pub open spec fn first_found_from(m: Seq<Option<String>>, i: int) -> Option<Seq<char>>
    decreases m.len() - i,
{
    if i < 0 || i >= m.len() {
        None
    } else if m[i] is Some {
        Some(m[i]->0@)
    } else {
        first_found_from(m, i + 1)
    }
}

/// The runtime in fixed precedence: the first well-known location that
/// exists, else the newest install of the first version manager that has
/// one, else what the login shell resolved.
pub open spec fn chosen_runtime(
    direct: Seq<Candidate>,
    managed: Seq<Option<String>>,
    shell: Option<Seq<char>>,
) -> Option<Seq<char>> {
    match first_existing_from(direct, 0) {
        Some(p) => Some(p),
        None => match first_found_from(managed, 0) {
            Some(p) => Some(p),
            None => shell,
        },
    }
}

/// Chooses the runtime to use (see `chosen_runtime`).
pub fn choose_runtime(
    direct: &Vec<Candidate>,
    managed: &Vec<Option<String>>,
    shell: Option<String>,
) -> (r: Result<String, LocateError>)
    ensures
        match r {
            Ok(p) => chosen_runtime(direct@, managed@, opt_text(shell)) == Some(p@),
            Err(_) => chosen_runtime(direct@, managed@, opt_text(shell)) is None,
        },
{
    let mut i: usize = 0;
    while i < direct.len()
        invariant
            i <= direct@.len(),
            first_existing_from(direct@, 0) == first_existing_from(direct@, i as int),
        decreases direct@.len() - i,
    {
        if direct[i].exists {
            return Ok(direct[i].path.clone());
        }
        i = i + 1;
    }
    let mut j: usize = 0;
    while j < managed.len()
        invariant
            j <= managed@.len(),
            first_existing_from(direct@, 0) is None,
            first_found_from(managed@, 0) == first_found_from(managed@, j as int),
        decreases managed@.len() - j,
    {
        match &managed[j] {
            Some(p) => {
                return Ok(p.clone());
            },
            None => {},
        }
        j = j + 1;
    }
    match shell {
        Some(p) => Ok(p),
        None => Err(LocateError::RuntimeNotFound),
    }
}

/// The well-known locations of a runtime binary, in the order they are tried.
pub open spec fn direct_locations(home: Seq<char>) -> Seq<Seq<char>> {
    seq![
        "/opt/homebrew/bin/node"@,
        "/usr/local/bin/node"@,
        joined(home, ".volta/bin/node"@),
    ]
}

/// Exec counterpart of `direct_locations`.
pub fn direct_candidates(home: &str) -> (r: Vec<String>)
    ensures
        texts(r@) == direct_locations(home@),
{
    let mut r: Vec<String> = Vec::new();
    r.push(String::from_str("/opt/homebrew/bin/node"));
    r.push(String::from_str("/usr/local/bin/node"));
    r.push(join_path(home, ".volta/bin/node"));
    assert(texts(r@) =~= direct_locations(home@));
    r
}

/// The roots under which version managers keep installed versions, in the
/// order they are tried.
pub open spec fn manager_roots(home: Seq<char>) -> Seq<Seq<char>> {
    seq![
        joined(home, ".nvm/versions/node"@),
        joined(home, "Library/Application Support/fnm/node-versions"@),
        joined(home, ".asdf/installs/nodejs"@),
    ]
}

/// Exec counterpart of `manager_roots`.
pub fn version_roots(home: &str) -> (r: Vec<String>)
    ensures
        texts(r@) == manager_roots(home@),
{
    let mut r: Vec<String> = Vec::new();
    r.push(join_path(home, ".nvm/versions/node"));
    r.push(join_path(home, "Library/Application Support/fnm/node-versions"));
    r.push(join_path(home, ".asdf/installs/nodejs"));
    assert(texts(r@) =~= manager_roots(home@));
    r
}

/// Where the runtime binary of an installed version lies.
pub fn runtime_in(root: &str, version: &str) -> (r: String)
    ensures
        r@ == joined(joined(root@, version@), "bin/node"@),
{
    let dir = join_path(root, version);
    join_path(dir.as_str(), "bin/node")
}

/// The search path the toolchain runs with: the runtime's directory first,
/// then the inherited search path, or the system directories when there is
/// none.
pub open spec fn search_path_for(runtime: Seq<char>, inherited: Option<Seq<char>>) -> Seq<char> {
    match inherited {
        Some(p) => parent_of(runtime) + seq![':'] + p,
        None => parent_of(runtime) + ":/usr/bin:/bin"@,
    }
}

/// Exec counterpart of `search_path_for`.
pub fn search_path_with(runtime: &str, inherited: Option<String>) -> (r: String)
    ensures
        r@ == search_path_for(runtime@, opt_text(inherited)),
{
    let mut r = parent_dir(runtime);
    match inherited {
        Some(p) => {
            r.append(":");
            r.append(p.as_str());
            proof {
                reveal_strlit(":");
            }
            assert(r@ =~= search_path_for(runtime@, opt_text(Some(p))));
        },
        None => {
            r.append(":/usr/bin:/bin");
        },
    }
    r
}

/// Characters with the Unicode `White_Space` property, which
/// `char::is_whitespace` tests.
pub open spec fn is_white_space(c: char) -> bool {
    ||| '\u{9}' <= c <= '\u{d}'
    ||| c == ' '
    ||| c == '\u{85}'
    ||| c == '\u{a0}'
    ||| c == '\u{1680}'
    ||| '\u{2000}' <= c <= '\u{200a}'
    ||| c == '\u{2028}'
    ||| c == '\u{2029}'
    ||| c == '\u{202f}'
    ||| c == '\u{205f}'
    ||| c == '\u{3000}'
}

/// `s` without its leading white space.
pub open spec fn trim_start_of(s: Seq<char>) -> Seq<char>
    decreases s.len(),
{
    if s.len() > 0 && is_white_space(s[0]) {
        trim_start_of(s.drop_first())
    } else {
        s
    }
}

/// `s` without its trailing white space.
pub open spec fn trim_end_of(s: Seq<char>) -> Seq<char>
    decreases s.len(),
{
    if s.len() > 0 && is_white_space(s.last()) {
        trim_end_of(s.drop_last())
    } else {
        s
    }
}

/// `s` without leading and trailing white space.
pub open spec fn trimmed(s: Seq<char>) -> Seq<char> {
    trim_end_of(trim_start_of(s))
}

/// Relies on `str::trim`: the text without the leading and trailing
/// characters for which `char::is_whitespace` holds.
#[verifier::external_body]
fn trim_text(s: &str) -> (r: String)
    ensures
        r@ == trimmed(s@),
{
    s.trim().to_string()
}

/// The path a login shell printed for the runtime, once trimmed: kept when
/// the lookup succeeded and printed something.
pub fn shell_path_from(success: bool, printed: String) -> (r: Option<String>)
    ensures
        match r {
            Some(p) => success && printed@.len() > 0 && p@ == printed@,
            None => !success || printed@.len() == 0,
        },
{
    if success && printed.as_str().unicode_len() > 0 {
        Some(printed)
    } else {
        None
    }
}

/// The runtime path resolved through the login shell's `which`, from its
/// exit status and output.
pub fn shell_lookup_result(success: bool, stdout: &str) -> (r: Option<String>)
    ensures
        match r {
            Some(p) => success && trimmed(stdout@).len() > 0 && p@ == trimmed(stdout@),
            None => !success || trimmed(stdout@).len() == 0,
        },
{
    let t = trim_text(stdout);
    shell_path_from(success, t)
}

/// The application's cache directory for a home directory (`/tmp` when
/// there is none).
pub open spec fn cache_dir_for(home: Option<Seq<char>>) -> Seq<char> {
    match home {
        Some(h) => joined(h, ".terrarium"@),
        None => joined("/tmp"@, ".terrarium"@),
    }
}

/// Exec counterpart of `cache_dir_for`.
pub fn cache_dir_in(home: Option<&str>) -> (r: String)
    ensures
        r@ == cache_dir_for(match home {
            Some(h) => Some(h@),
            None => None,
        }),
{
    match home {
        Some(h) => join_path(h, ".terrarium"),
        None => join_path("/tmp", ".terrarium"),
    }
}

/// Relies on `dirs::home_dir`: the user's home directory, read from the
/// environment, so nothing is stated of it.
#[verifier::external_body]
pub(crate) fn home_directory() -> (r: Option<String>) {
    dirs::home_dir().map(|p| p.to_string_lossy().into_owned())
}

/// The cache directory under the current user's home.
pub fn cache_dir() -> (r: String)
    ensures
        exists|h: Option<Seq<char>>| r@ == #[trigger] cache_dir_for(h),
{
    let home = home_directory();
    match home {
        Some(h) => {
            let r = cache_dir_in(Some(h.as_str()));
            assert(r@ == cache_dir_for(Some(h@)));
            r
        },
        None => {
            let r = cache_dir_in(None);
            assert(r@ == cache_dir_for(None));
            r
        },
    }
}

/// Relies on `Path::exists`: whether something is at `p` on disk, which
/// nothing here can know beforehand.
#[verifier::external_body]
pub(crate) fn path_exists(p: &str) -> (r: bool) {
    Path::new(p).exists()
}

/// The dependency whose absence means first-time setup is still to run.
pub fn install_marker(cache: &str) -> (r: String)
    ensures
        r@ == joined(joined(cache@, "node_modules"@), "react"@),
{
    let m = join_path(cache, "node_modules");
    join_path(m.as_str(), "react")
}

/// Whether the toolchain still has to install its dependencies.
pub fn needs_install() -> bool {
    let cache = cache_dir();
    !path_exists(install_marker(cache.as_str()).as_str())
}

/// The empty file whose presence records that the first run is over.
pub fn first_run_marker(cache: &str) -> (r: String)
    ensures
        r@ == joined(cache@, "first-run-complete"@),
{
    join_path(cache, "first-run-complete")
}

/// Whether the first-run marker is still absent.
pub fn is_first_run() -> bool {
    let cache = cache_dir();
    !path_exists(first_run_marker(cache.as_str()).as_str())
}

/// The major number of a runtime's version text (`v20.11.1` gives 20), or 0
/// when its first component is not a 32-bit number.
pub open spec fn major_of(version: Seq<char>) -> nat {
    match parsed_below(split_dots(strip_v(version))[0], u32::MAX as nat) {
        Some(v) => v,
        None => 0,
    }
}

/// Exec counterpart of `major_of`.
pub fn runtime_major(version: &str) -> (r: u32)
    ensures
        r == major_of(version@),
{
    let n = version.unicode_len();
    let mut i: usize = 0;
    while i < n && version.get_char(i) == 'v'
        invariant
            n == version@.len(),
            i <= n,
            strip_v(version@) == crate::version::strip_v_from(version@, i as int),
        decreases n - i,
    {
        i = i + 1;
    }
    let t = version.substring_char(i, n);
    assert(t@ =~= strip_v(version@));
    let mut k: usize = 0;
    let m = t.unicode_len();
    while k < m && t.get_char(k) != '.'
        invariant
            m == t@.len(),
            k <= m,
            forall|q: int| 0 <= q < k ==> t@[q] != '.',
        decreases m - k,
    {
        k = k + 1;
    }
    let first = t.substring_char(0, k);
    proof {
        crate::version::lemma_first_piece(t@, k as int);
    }
    match parse_u64(first) {
        Some(v) => if v <= u32::MAX as u64 {
            v as u32
        } else {
            0
        },
        None => 0,
    }
}

/// Whether a runtime with this major version can run the toolchain.
pub fn is_supported_major(major: u32) -> (r: bool)
    ensures
        r == (major >= MIN_RUNTIME_MAJOR),
{
    major >= MIN_RUNTIME_MAJOR
}

} // verus!
