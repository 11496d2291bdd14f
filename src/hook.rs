//! Decisions of the editor hook: which files it looks at, which candidates
//! it keeps, and the result it reports.
use vstd::prelude::*;
use crate::text::{to_chars, from_chars, slice_chars, str_eq, last_segment, last_segment_chars};

verus! {

/// The lower-case form of a string (Unicode case mapping).
pub uninterp spec fn lower_of(s: Seq<char>) -> Seq<char>;

/// Relies on `str::to_lowercase`: the result depends on the chars alone.
#[verifier::external_body]
pub(crate) fn to_lowercase(s: &str) -> (r: String)
    ensures
        r@ == lower_of(s@),
{
    s.to_lowercase()
}

/// The language of each recognized lower-case extension (without its dot).
pub open spec fn language_of_extension(ext: Seq<char>) -> Option<Seq<char>> {
    if ext == "rs"@ {
        Some("rust"@)
    } else if ext == "swift"@ {
        Some("swift"@)
    } else if ext == "py"@ {
        Some("python"@)
    } else if ext == "ts"@ || ext == "tsx"@ {
        Some("typescript"@)
    } else if ext == "js"@ || ext == "jsx"@ {
        Some("javascript"@)
    } else if ext == "go"@ {
        Some("go"@)
    } else {
        None
    }
}

/// The index of the last occurrence of `c` in `s[..end]`.
pub open spec fn last_index_of(s: Seq<char>, c: char, end: int) -> Option<int>
    decreases end,
{
    if end <= 0 || end > s.len() {
        None
    } else if s[end - 1] == c {
        Some(end - 1)
    } else {
        last_index_of(s, c, end - 1)
    }
}

/// `s` without the `/` chars that end it.
pub open spec fn trim_trailing_slashes(s: Seq<char>) -> Seq<char>
    decreases s.len(),
{
    if s.len() > 0 && s.last() == '/' {
        trim_trailing_slashes(s.drop_last())
    } else {
        s
    }
}

/// The last component of a path (after its last `/`, trailing `/`
/// ignored).
pub open spec fn file_name_of(path: Seq<char>) -> Seq<char> {
    let t = trim_trailing_slashes(path);
    match last_index_of(t, '/', t.len() as int) {
        Some(k) => t.subrange(k + 1, t.len() as int),
        None => t,
    }
}

/// The extension of a path: what follows the last `.` of its last
/// component, when that `.` is not the component's first char.
pub open spec fn extension_of(path: Seq<char>) -> Option<Seq<char>> {
    let name = file_name_of(path);
    match last_index_of(name, '.', name.len() as int) {
        Some(k) => if k > 0 {
            Some(name.subrange(k + 1, name.len() as int))
        } else {
            None
        },
        None => None,
    }
}

/// The language of a path's lower-cased extension, if recognized.
pub open spec fn language_of_path(path: Seq<char>) -> Option<Seq<char>> {
    match extension_of(path) {
        Some(e) => language_of_extension(lower_of(e)),
        None => None,
    }
}

pub(crate) fn last_index_exec(s: &Vec<char>, c: char, end: usize) -> (r: Option<usize>)
    requires
        end <= s.len(),
    ensures
        r matches Some(k) ==> last_index_of(s@, c, end as int) == Some(k as int) && k < end,
        r is None ==> last_index_of(s@, c, end as int) is None,
{
    let mut e: usize = end;
    while e > 0
        invariant
            e <= end <= s.len(),
            last_index_of(s@, c, e as int) == last_index_of(s@, c, end as int),
        decreases e,
    {
        if s[e - 1] == c {
            return Some(e - 1);
        }
        e = e - 1;
    }
    None
}

pub(crate) fn trim_trailing_slashes_exec(s: &Vec<char>) -> (r: Vec<char>)
    ensures
        r@ == trim_trailing_slashes(s@),
{
    let mut n: usize = s.len();
    assert(s@.subrange(0, n as int) =~= s@);
    while n > 0 && s[n - 1] == '/'
        invariant
            n <= s.len(),
            trim_trailing_slashes(s@.subrange(0, n as int)) == trim_trailing_slashes(s@),
        decreases n,
    {
        assert(s@.subrange(0, n as int).drop_last() =~= s@.subrange(0, n - 1));
        n = n - 1;
    }
    let r = slice_chars(s, 0, n);
    r
}

/// The extension of `path` (see `extension_of`).
pub fn path_extension(path: &str) -> (r: Option<String>)
    ensures
        r matches Some(e) ==> extension_of(path@) == Some(e@),
        r is None ==> extension_of(path@) is None,
{
    let p = to_chars(path);
    proof {
        assert(p@.subrange(0, p@.len() as int) =~= p@);
    }
    let t = trim_trailing_slashes_exec(&p);
    let name = match last_index_exec(&t, '/', t.len()) {
        Some(k) => slice_chars(&t, k + 1, t.len()),
        None => t,
    };
    match last_index_exec(&name, '.', name.len()) {
        Some(k) => {
            if k > 0 {
                let e = slice_chars(&name, k + 1, name.len());
                Some(from_chars(&e))
            } else {
                None
            }
        },
        None => None,
    }
}

/// The language of a lower-case extension (without its dot), if it is one
/// of `rs`, `swift`, `py`, `ts`, `tsx`, `js`, `jsx`, `go`.
pub fn language_for_extension(ext: &str) -> (r: Option<&'static str>)
    ensures
        r matches Some(l) ==> language_of_extension(ext@) == Some(l@),
        r is None ==> language_of_extension(ext@) is None,
{
    if str_eq(ext, "rs") {
        Some("rust")
    } else if str_eq(ext, "swift") {
        Some("swift")
    } else if str_eq(ext, "py") {
        Some("python")
    } else if str_eq(ext, "ts") || str_eq(ext, "tsx") {
        Some("typescript")
    } else if str_eq(ext, "js") || str_eq(ext, "jsx") {
        Some("javascript")
    } else if str_eq(ext, "go") {
        Some("go")
    } else {
        None
    }
}

/// The language of a file, from its extension taken case-insensitively.
pub fn get_language(file_path: &str) -> (r: Option<&'static str>)
    ensures
        r matches Some(l) ==> language_of_path(file_path@) == Some(l@),
        r is None ==> language_of_path(file_path@) is None,
{
    match path_extension(file_path) {
        Some(e) => {
            let lower = to_lowercase(e.as_str());
            language_for_extension(lower.as_str())
        },
        None => None,
    }
}

/// Whether the file is source code the hook looks at.
pub fn is_code_file(file_path: &str) -> (r: bool)
    ensures
        r == language_of_path(file_path@) is Some,
{
    get_language(file_path).is_some()
}

/// Which stored code the hook compares against.
#[derive(Debug, Clone, Copy, PartialEq, Eq, Structural)]
pub enum HookScope {
    /// All indexed code.
    All,
    /// Only the current project.
    Project,
    /// Only other projects.
    CrossOnly,
}

/// How a finding is reported.
#[derive(Debug, Clone, Copy, PartialEq, Eq, Structural)]
pub enum NotifyMode {
    /// Block the edit with a reason.
    Block,
    /// Only show a message to the user.
    User,
}

/// The scope named by a setting: `project`, `cross`, anything else `All`.
pub fn scope_from_setting(v: &str) -> (r: HookScope)
    ensures
        r == (if v@ == "project"@ {
            HookScope::Project
        } else if v@ == "cross"@ {
            HookScope::CrossOnly
        } else {
            HookScope::All
        }),
{
    if str_eq(v, "project") {
        HookScope::Project
    } else if str_eq(v, "cross") {
        HookScope::CrossOnly
    } else {
        HookScope::All
    }
}

/// The notify mode named by a setting: `user`, anything else `Block`.
pub fn notify_from_setting(v: &str) -> (r: NotifyMode)
    ensures
        r == (if v@ == "user"@ {
            NotifyMode::User
        } else {
            NotifyMode::Block
        }),
{
    if str_eq(v, "user") {
        NotifyMode::User
    } else {
        NotifyMode::Block
    }
}

/// A candidate of project `candidate` passes the scope: with a known current
/// project, `Project` keeps only that project and `CrossOnly` only others.
pub open spec fn in_scope(scope: HookScope, current: Option<i64>, candidate: i64) -> bool {
    match (scope, current) {
        (HookScope::Project, Some(p)) => candidate == p,
        (HookScope::CrossOnly, Some(p)) => candidate != p,
        _ => true,
    }
}

/// Whether a candidate of project `candidate` passes the scope.
pub fn scope_allows(scope: HookScope, current: Option<i64>, candidate: i64) -> (r: bool)
    ensures
        r == in_scope(scope, current, candidate),
{
    match (scope, current) {
        (HookScope::Project, Some(p)) => candidate == p,
        (HookScope::CrossOnly, Some(p)) => candidate != p,
        _ => true,
    }
}

/// Whether a match lies in another project: always when the current
/// project is unknown.
pub fn is_cross_project(current: Option<i64>, candidate: i64) -> (r: bool)
    ensures
        r == (match current {
            Some(p) => candidate != p,
            None => true,
        }),
{
    match current {
        Some(p) => candidate != p,
        None => true,
    }
}

/// How many neighbours the hook asks the index for: three times the
/// results it reports, at least 50 (saturating at the largest `usize`).
pub fn hook_search_k(max_results: usize) -> (r: usize)
    ensures
        r as int == vstd::math::max(
            vstd::math::min(3 * max_results as int, usize::MAX as int),
            50,
        ),
{
    let k: usize = if max_results <= usize::MAX / 3 {
        max_results * 3
    } else {
        usize::MAX
    };
    if k > 50 {
        k
    } else {
        50
    }
}

/// The positions among the first `k` candidates (their projects in `ps`)
/// that the hook reports: those in scope, in order, at most `max`.
pub open spec fn reported_positions(
    scope: HookScope,
    current: Option<i64>,
    ps: Seq<i64>,
    max: nat,
    k: int,
) -> Seq<int>
    decreases k,
{
    if k <= 0 || k > ps.len() {
        Seq::empty()
    } else {
        let prev = reported_positions(scope, current, ps, max, k - 1);
        if prev.len() < max && in_scope(scope, current, ps[k - 1]) {
            prev.push(k - 1)
        } else {
            prev
        }
    }
}

/// The positions of the candidates (in similarity order, their projects in
/// `candidate_projects`) that the hook reports: those in scope, in order,
/// at most `max_results`.
pub fn select_matches(
    scope: HookScope,
    current: Option<i64>,
    candidate_projects: &Vec<i64>,
    max_results: usize,
) -> (r: Vec<usize>)
    ensures
        r@.len() == reported_positions(
            scope,
            current,
            candidate_projects@,
            max_results as nat,
            candidate_projects@.len() as int,
        ).len(),
        forall|i: int|
            0 <= i < r@.len() ==> #[trigger] r@[i] as int == reported_positions(
                scope,
                current,
                candidate_projects@,
                max_results as nat,
                candidate_projects@.len() as int,
            )[i],
{
    let mut r: Vec<usize> = Vec::new();
    let mut k: usize = 0;
    while k < candidate_projects.len()
        invariant
            k <= candidate_projects.len(),
            r@.len() == reported_positions(scope, current, candidate_projects@, max_results as nat, k as int).len(),
            forall|i: int|
                0 <= i < r@.len() ==> #[trigger] r@[i] as int == reported_positions(
                    scope,
                    current,
                    candidate_projects@,
                    max_results as nat,
                    k as int,
                )[i],
        decreases candidate_projects.len() - k,
    {
        if r.len() < max_results && scope_allows(scope, current, candidate_projects[k]) {
            r.push(k);
        }
        k = k + 1;
    }
    r
}

/// The pair `(a, b)` has been marked ignored, in either order.
pub open spec fn is_ignored(ignored: Seq<(String, String)>, a: Seq<char>, b: Seq<char>) -> bool {
    exists|i: int|
        0 <= i < ignored.len() && ((ignored[i].0@ == a && ignored[i].1@ == b) || (ignored[i].0@
            == b && ignored[i].1@ == a))
}

/// Whether a stored unit named `candidate` may be reported for the unit
/// `current`: not the unit itself, nor a pair marked ignored.
pub fn candidate_allowed(current: &str, candidate: &str, ignored: &Vec<(String, String)>) -> (r:
    bool)
    ensures
        r == (candidate@ != current@ && !is_ignored(ignored@, current@, candidate@)),
{
    if str_eq(candidate, current) {
        return false;
    }
    let mut i: usize = 0;
    while i < ignored.len()
        invariant
            i <= ignored.len(),
            forall|j: int|
                0 <= j < i ==> !((#[trigger] ignored@[j]).0@ == current@ && ignored@[j].1@
                    == candidate@ || ignored@[j].0@ == candidate@ && ignored@[j].1@ == current@),
        decreases ignored.len() - i,
    {
        let a = ignored[i].0.as_str();
        let b = ignored[i].1.as_str();
        if (str_eq(a, current) && str_eq(b, candidate)) || (str_eq(a, candidate) && str_eq(
            b,
            current,
        )) {
            return false;
        }
        i = i + 1;
    }
    true
}

/// The answer the hook gives the editor; all fields absent means no action.
#[derive(Debug, Clone)]
pub struct HookResult {
    pub decision: Option<String>,
    pub reason: Option<String>,
    pub system_message: Option<String>,
}

impl HookResult {
    /// No action.
    pub fn empty() -> (r: HookResult)
        ensures
            r.decision is None,
            r.reason is None,
            r.system_message is None,
    {
        HookResult { decision: None, reason: None, system_message: None }
    }

    /// Block the edit, giving `reason`.
    pub fn block(reason: String) -> (r: HookResult)
        ensures
            r.decision matches Some(d) && d@ == "block"@,
            r.reason == Some(reason),
            r.system_message is None,
    {
        HookResult {
            decision: Some(from_chars(&to_chars("block"))),
            reason: Some(reason),
            system_message: None,
        }
    }

    /// Only show `message` to the user.
    pub fn notify(message: String) -> (r: HookResult)
        ensures
            r.decision is None,
            r.reason is None,
            r.system_message == Some(message),
    {
        HookResult { decision: None, reason: None, system_message: Some(message) }
    }

    /// The result for a message in the given mode: blocking or notifying.
    pub fn for_mode(mode: NotifyMode, message: String) -> (r: HookResult)
        ensures
            mode == NotifyMode::Block ==> (r.decision matches Some(d) && d@ == "block"@),
            mode == NotifyMode::Block ==> r.reason == Some(message) && r.system_message is None,
            mode == NotifyMode::User ==> r.decision is None && r.reason is None
                && r.system_message == Some(message),
    {
        match mode {
            NotifyMode::Block => HookResult::block(message),
            NotifyMode::User => HookResult::notify(message),
        }
    }
}

/// The event the editor reports.
#[derive(Debug, Clone)]
pub struct HookInput {
    pub hook_event_name: Option<String>,
    pub tool_name: Option<String>,
    pub tool_input: Option<ToolInput>,
    pub cwd: Option<String>,
}

/// The edited file and its new content.
#[derive(Debug, Clone)]
pub struct ToolInput {
    pub file_path: Option<String>,
    pub content: Option<String>,
}

/// The file the hook should examine: a `PostToolUse` event with a path and
/// content whose path is a recognized code file.
pub open spec fn examined_file(input: HookInput) -> Option<(Seq<char>, Seq<char>)> {
    let event_ok = match input.hook_event_name {
        Some(e) => e@ == "PostToolUse"@,
        None => false,
    };
    match input.tool_input {
        Some(t) => match (t.file_path, t.content) {
            (Some(p), Some(c)) => if event_ok && language_of_path(p@) is Some {
                Some((p@, c@))
            } else {
                None
            },
            _ => None,
        },
        None => None,
    }
}

/// The path and content the hook examines, or `None` when the event needs
/// no answer.
pub fn file_to_examine(input: &HookInput) -> (r: Option<(String, String)>)
    ensures
        r matches Some(pc) ==> examined_file(*input) == Some((pc.0@, pc.1@)),
        r is None ==> examined_file(*input) is None,
{
    let event_ok = match &input.hook_event_name {
        Some(e) => str_eq(e.as_str(), "PostToolUse"),
        None => false,
    };
    match &input.tool_input {
        Some(t) => match (&t.file_path, &t.content) {
            (Some(p), Some(c)) => {
                if event_ok && is_code_file(p.as_str()) {
                    Some((p.clone(), c.clone()))
                } else {
                    None
                }
            },
            _ => None,
        },
        None => None,
    }
}

/// The last `::` segment of a qualified name.
pub fn short_name(name: &str) -> (r: String)
    ensures
        r@ == last_segment(name@),
{
    let v = to_chars(name);
    let s = last_segment_chars(&v);
    from_chars(&s)
}

} // verus!
