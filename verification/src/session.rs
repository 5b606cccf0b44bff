use vstd::prelude::*;
use crate::errors::{AgtError, ErrorKind};
use crate::pathutil::{path_is_within, spec_component_prefix, spec_path_components};
use crate::strutil::{
    chars_of, parse_u64_chars, spec_all_digits, spec_dec_value, spec_trim, spec_u64_string,
    str_concat, string_from_chars, trim_chars, u64_to_dec_chars,
};

verus! {

// ---------------------------------------------------------------------------
// Session store and lifecycle decisions: naming, metadata, watermarks, and
// the resolution rules for user branch and session discovery.
// ---------------------------------------------------------------------------

/// What is recorded about a session: its id, shadow branch, sandbox path,
/// fork origin, the user branch whose head becomes the second parent of
/// every shadow commit, the creation time, and advisory tags.
pub struct SessionMetadata {
    pub session_id: String,
    pub branch: String,
    pub sandbox: String,
    pub from_commit: String,
    pub from_spec: Option<String>,
    pub user_branch: String,
    pub created_at: u64,
    pub profile: Option<String>,
    pub isolation: Option<String>,
}

/// The shadow branch name of a session: prefix followed by the id.
pub fn branch_name_for(prefix: &str, session_id: &str) -> (r: String)
    ensures
        r@ == prefix@ + session_id@,
{
    str_concat(prefix, session_id)
}

/// The fully qualified ref of a branch name.
pub fn branch_ref_for(branch_name: &str) -> (r: String)
    ensures
        r@ == "refs/heads/"@ + branch_name@,
{
    str_concat("refs/heads/", branch_name)
}

/// How the repository's HEAD stands: on a branch, detached, or unborn.
pub enum HeadState {
    Branch(String),
    Detached,
    Unborn,
}

/// Resolve the user branch of a new session, exactly in this order: a
/// session named by `from` passes its own user branch on; a `from` naming
/// an existing ref (qualified with `refs/heads/` unless it already starts
/// with `refs/`) is taken as is; otherwise the current HEAD's branch is
/// used, and a detached or unborn HEAD is refused.
pub fn resolve_user_branch(
    from: Option<&String>,
    inherited: Option<String>,
    candidate_exists: bool,
    head: &HeadState,
) -> (r: Result<String, AgtError>)
    ensures
        ({
            match (from, inherited) {
                (Some(_), Some(u)) => r matches Ok(v) && v@ == u@,
                (Some(f), None) => {
                    if candidate_exists {
                        r matches Ok(v) && v@ == (if spec_starts_with_refs(f@) {
                            f@
                        } else {
                            "refs/heads/"@ + f@
                        })
                    } else {
                        spec_head_resolution(head, r)
                    }
                },
                (None, _) => spec_head_resolution(head, r),
            }
        }),
{
    match from {
        Some(f) => {
            match inherited {
                Some(u) => Ok(u),
                None => {
                    if candidate_exists {
                        Ok(qualify_branch_ref(f.as_str()))
                    } else {
                        head_branch_or_error(head)
                    }
                },
            }
        },
        None => head_branch_or_error(head),
    }
}

/// Whether the spec text is already a fully qualified ref.
pub open spec fn spec_starts_with_refs(s: Seq<char>) -> bool {
    crate::filter::spec_starts_with(s, "refs/"@)
}

/// What resolving against HEAD yields: the branch name, or a precondition
/// error for a detached or unborn HEAD.
pub open spec fn spec_head_resolution(head: &HeadState, r: Result<String, AgtError>) -> bool {
    match head {
        HeadState::Branch(name) => r matches Ok(v) && v@ == name@,
        HeadState::Unborn => r matches Err(e) && e.kind == ErrorKind::Precondition && e.message@
            == "Unborn HEAD is not supported for session creation"@,
        HeadState::Detached => r matches Err(e) && e.kind == ErrorKind::Precondition && e.message@
            == "Detached HEAD is not supported for session creation"@,
    }
}

/// Qualify a branch spec: put `refs/heads/` before it unless it already
/// starts with `refs/`.
pub fn qualify_branch_ref(spec_text: &str) -> (r: String)
    ensures
        r@ == (if spec_starts_with_refs(spec_text@) {
            spec_text@
        } else {
            "refs/heads/"@ + spec_text@
        }),
{
    let sv = chars_of(spec_text);
    let pat = chars_of("refs/");
    if crate::strutil::starts_with_chars(&sv, &pat) {
        string_from_chars(&sv)
    } else {
        str_concat("refs/heads/", spec_text)
    }
}

fn head_branch_or_error(head: &HeadState) -> (r: Result<String, AgtError>)
    ensures
        spec_head_resolution(head, r),
{
    match head {
        HeadState::Branch(name) => Ok(name.clone()),
        HeadState::Unborn => Err(
            AgtError::precondition(
                string_from_chars(&chars_of("Unborn HEAD is not supported for session creation")),
            ),
        ),
        HeadState::Detached => Err(
            AgtError::precondition(
                string_from_chars(&chars_of("Detached HEAD is not supported for session creation")),
            ),
        ),
    }
}

// ---------------------------------------------------------------------------
// Watermarks: one decimal Unix-seconds value per session.
// ---------------------------------------------------------------------------

/// Read a watermark file's text: the decimal value, with surrounding
/// whitespace tolerated. `None` when the text is not a plain decimal
/// number that fits.
pub fn parse_watermark(content: &str) -> (r: Option<u64>)
    ensures
        ({
            let t = spec_trim(content@);
            match r {
                Some(n) => spec_all_digits(t) && spec_dec_value(t) == n as int,
                None => !spec_all_digits(t) || spec_dec_value(t) > u64::MAX as int,
            }
        }),
{
    let cv = chars_of(content);
    let t = trim_chars(&cv);
    parse_u64_chars(&t)
}

/// The watermark to scan with: a missing file counts as zero, unreadable
/// text is a configuration error naming no value.
pub fn watermark_value(content: Option<&String>) -> (r: Result<u64, AgtError>)
    ensures
        ({
            match content {
                None => r == Ok::<u64, AgtError>(0u64),
                Some(s) => {
                    let t = spec_trim(s@);
                    if spec_all_digits(t) && spec_dec_value(t) <= u64::MAX as int {
                        r matches Ok(n) && spec_dec_value(t) == n as int
                    } else {
                        r matches Err(e) && e.kind == ErrorKind::Config
                    }
                },
            }
        }),
{
    match content {
        None => Ok(0),
        Some(s) => {
            match parse_watermark(s.as_str()) {
                Some(n) => Ok(n),
                None => Err(
                    AgtError::config(string_from_chars(&chars_of("Malformed watermark file contents"))),
                ),
            }
        },
    }
}

/// Render a watermark: the decimal seconds.
pub fn format_watermark(secs: u64) -> (r: String)
    ensures
        r@ == spec_u64_string(secs as int),
{
    let v = u64_to_dec_chars(secs);
    string_from_chars(&v)
}

/// The scan threshold of one autocommit: an override must name a
/// non-negative time, otherwise the stored watermark is used.
pub fn select_scan_timestamp(last: u64, override_t: Option<i64>) -> (r: Result<u64, AgtError>)
    ensures
        match override_t {
            None => r == Ok::<u64, AgtError>(last),
            Some(t) => {
                if t < 0 {
                    r matches Err(e) && e.kind == ErrorKind::Precondition && e.message@
                        == "timestamp override must be >= 0"@
                } else {
                    r matches Ok(n) && n as int == t as int
                }
            },
        },
{
    match override_t {
        None => Ok(last),
        Some(t) => {
            if t < 0 {
                Err(AgtError::precondition(string_from_chars(&chars_of("timestamp override must be >= 0"))))
            } else {
                Ok(t as u64)
            }
        },
    }
}

// ---------------------------------------------------------------------------
// Session discovery and naming.
// ---------------------------------------------------------------------------

/// Whether `cwd` is the sandbox itself or lies below it, whole path
/// components compared.
pub open spec fn spec_cwd_matches(cwd: Seq<char>, sandbox: Seq<char>) -> bool {
    spec_component_prefix(spec_path_components(sandbox), spec_path_components(cwd))
}

/// Find the session the current directory belongs to: the first listed
/// session whose sandbox path is the directory itself or one of its
/// ancestors. `sessions` pairs each session id with its sandbox path.
pub fn match_session_for_cwd(cwd: &str, sessions: &Vec<(String, String)>) -> (r: Option<usize>)
    ensures
        match r {
            Some(i) => i < sessions@.len() && spec_cwd_matches(cwd@, sessions@[i as int].1@)
                && forall|j: int| 0 <= j < i ==> !spec_cwd_matches(cwd@, sessions@[j].1@),
            None => forall|j: int|
                0 <= j < sessions@.len() ==> !spec_cwd_matches(cwd@, sessions@[j].1@),
        },
{
    let mut i: usize = 0;
    while i < sessions.len()
        invariant
            i <= sessions@.len(),
            forall|j: int| 0 <= j < i ==> !spec_cwd_matches(cwd@, sessions@[j].1@),
        decreases sessions@.len() - i,
    {
        if path_is_within(cwd, sessions[i].1.as_str()) {
            return Some(i);
        }
        i = i + 1;
    }
    None
}

/// The generated id of an unnamed session: `session-YYYYMMDD-HHMMSS` from
/// the given UTC calendar time, each part zero-padded.
pub fn format_session_id(
    year: u64,
    month: u64,
    day: u64,
    hour: u64,
    minute: u64,
    second: u64,
) -> (r: String)
    ensures
        r@ == "session-"@ + spec_padded(year as int, 4) + spec_padded(month as int, 2)
            + spec_padded(day as int, 2) + "-"@ + spec_padded(hour as int, 2) + spec_padded(
            minute as int,
            2,
        ) + spec_padded(second as int, 2),
{
    let y = pad_dec(year, 4);
    let mo = pad_dec(month, 2);
    let d = pad_dec(day, 2);
    let h = pad_dec(hour, 2);
    let mi = pad_dec(minute, 2);
    let s = pad_dec(second, 2);
    let r1 = str_concat("session-", y.as_str());
    let r2 = str_concat(r1.as_str(), mo.as_str());
    let r3 = str_concat(r2.as_str(), d.as_str());
    let r4 = str_concat(r3.as_str(), "-");
    let r5 = str_concat(r4.as_str(), h.as_str());
    let r6 = str_concat(r5.as_str(), mi.as_str());
    let r7 = str_concat(r6.as_str(), s.as_str());
    r7
}

/// The decimal text of `n`, left-padded with zeros to at least `width`
/// digits.
pub open spec fn spec_padded(n: int, width: int) -> Seq<char>
    decreases width,
{
    if width <= 0 {
        spec_u64_string(n)
    } else if n < spec_pow10(width - 1) {
        seq!['0'] + spec_padded(n, width - 1)
    } else {
        spec_u64_string(n)
    }
}

/// Ten to the `w`.
pub open spec fn spec_pow10(w: int) -> int
    decreases w,
{
    if w <= 0 {
        1
    } else {
        10 * spec_pow10(w - 1)
    }
}

/// Render `n` zero-padded to at least `width` digits.
fn pad_dec(n: u64, width: usize) -> (r: String)
    requires
        width <= 4,
    ensures
        r@ == spec_padded(n as int, width as int),
    decreases width,
{
    let limit: u64 = if width == 0 {
        1
    } else if width == 1 {
        1
    } else if width == 2 {
        10
    } else if width == 3 {
        100
    } else {
        1000
    };
    proof {
        assert(spec_pow10(0) == 1);
        assert(spec_pow10(1) == 10);
        assert(spec_pow10(2) == 100);
        assert(spec_pow10(3) == 1000);
    }
    if width == 0 {
        format_watermark(n)
    } else if n < limit {
        let rest = pad_dec(n, width - 1);
        let r = str_concat("0", rest.as_str());
        proof {
            reveal_strlit("0");
            assert(r@ =~= seq!['0'] + spec_padded(n as int, width as int - 1));
        }
        r
    } else {
        format_watermark(n)
    }
}

// ---------------------------------------------------------------------------
// The on-disk artifacts of one session, and the guarantee that removal
// covers exactly what creation lays down.
// ---------------------------------------------------------------------------

/// Every path and ref a session occupies: the shadow ref, the worktree
/// admin dir, the session folder with its sandbox and agent-state
/// subfolders, the watermark file and the metadata file.
pub struct SessionArtifacts {
    pub branch_ref: String,
    pub admin_dir: String,
    pub session_dir: String,
    pub sandbox_dir: String,
    pub config_dir: String,
    pub xdg_dir: String,
    pub watermark_file: String,
    pub metadata_file: String,
}

/// Name every artifact of a session from the project root, the bare
/// repository's common dir, the branch prefix and the session id.
pub fn session_artifacts(
    repo_root: &str,
    common_dir: &str,
    prefix: &str,
    session_id: &str,
) -> (r: SessionArtifacts)
    ensures
        r.branch_ref@ == "refs/heads/"@ + prefix@ + session_id@,
        r.admin_dir@ == common_dir@ + "/worktrees/"@ + session_id@,
        r.session_dir@ == repo_root@ + "/sessions/"@ + session_id@,
        r.sandbox_dir@ == repo_root@ + "/sessions/"@ + session_id@ + "/sandbox"@,
        r.config_dir@ == repo_root@ + "/sessions/"@ + session_id@ + "/config"@,
        r.xdg_dir@ == repo_root@ + "/sessions/"@ + session_id@ + "/xdg"@,
        r.watermark_file@ == common_dir@ + "/agt/timestamps/"@ + session_id@,
        r.metadata_file@ == common_dir@ + "/agt/sessions/"@ + session_id@ + ".json"@,
{
    let branch_name = branch_name_for(prefix, session_id);
    let branch_ref = branch_ref_for(branch_name.as_str());
    proof {
        assert(branch_ref@ =~= "refs/heads/"@ + prefix@ + session_id@);
    }
    let admin_dir = str_concat(str_concat(common_dir, "/worktrees/").as_str(), session_id);
    proof {
        assert(admin_dir@ =~= common_dir@ + "/worktrees/"@ + session_id@);
    }
    let session_dir = str_concat(str_concat(repo_root, "/sessions/").as_str(), session_id);
    proof {
        assert(session_dir@ =~= repo_root@ + "/sessions/"@ + session_id@);
    }
    let sandbox_dir = str_concat(session_dir.as_str(), "/sandbox");
    let config_dir = str_concat(session_dir.as_str(), "/config");
    let xdg_dir = str_concat(session_dir.as_str(), "/xdg");
    let watermark_file = str_concat(str_concat(common_dir, "/agt/timestamps/").as_str(), session_id);
    proof {
        assert(watermark_file@ =~= common_dir@ + "/agt/timestamps/"@ + session_id@);
    }
    let metadata_file = str_concat(
        str_concat(str_concat(common_dir, "/agt/sessions/").as_str(), session_id).as_str(),
        ".json",
    );
    proof {
        assert(metadata_file@ =~= common_dir@ + "/agt/sessions/"@ + session_id@ + ".json"@);
        assert(sandbox_dir@ =~= repo_root@ + "/sessions/"@ + session_id@ + "/sandbox"@);
        assert(config_dir@ =~= repo_root@ + "/sessions/"@ + session_id@ + "/config"@);
        assert(xdg_dir@ =~= repo_root@ + "/sessions/"@ + session_id@ + "/xdg"@);
    }
    SessionArtifacts {
        branch_ref,
        admin_dir,
        session_dir,
        sandbox_dir,
        config_dir,
        xdg_dir,
        watermark_file,
        metadata_file,
    }
}

/// The filesystem paths a session creation lays down.
pub open spec fn spec_created_paths(a: &SessionArtifacts) -> Set<Seq<char>> {
    set![
        a.admin_dir@,
        a.session_dir@,
        a.sandbox_dir@,
        a.config_dir@,
        a.xdg_dir@,
        a.watermark_file@,
        a.metadata_file@,
    ]
}

/// The filesystem paths a session removal targets directly: the worktree
/// admin dir, the session folder (removed recursively), the watermark
/// file and the metadata file.
pub open spec fn spec_removal_targets(a: &SessionArtifacts) -> Set<Seq<char>> {
    set![a.admin_dir@, a.session_dir@, a.watermark_file@, a.metadata_file@]
}

/// Removal covers creation: every path `session new` lays down is either
/// targeted directly by `session remove`, or lies under the session
/// folder and goes with its recursive removal; the shadow ref is the one
/// artifact left unless the branch flag asks for it too.
pub proof fn lemma_remove_undoes_new(a: &SessionArtifacts, repo_root: Seq<char>, session_id: Seq<char>)
    requires
        a.session_dir@ == repo_root + "/sessions/"@ + session_id,
        a.sandbox_dir@ == a.session_dir@ + "/sandbox"@,
        a.config_dir@ == a.session_dir@ + "/config"@,
        a.xdg_dir@ == a.session_dir@ + "/xdg"@,
    ensures
        forall|p: Seq<char>|
            #[trigger] spec_created_paths(a).contains(p) ==> spec_removal_targets(a).contains(p)
                || crate::filter::spec_starts_with(p, a.session_dir@ + seq!['/']),
{
    assert forall|p: Seq<char>|
        #[trigger] spec_created_paths(a).contains(p) implies spec_removal_targets(a).contains(p)
        || crate::filter::spec_starts_with(p, a.session_dir@ + seq!['/']) by {
        reveal_strlit("/sandbox");
        reveal_strlit("/config");
        reveal_strlit("/xdg");
        let d = a.session_dir@;
        if p == a.sandbox_dir@ {
            assert(p.subrange(0, d.len() as int + 1) =~= d + seq!['/']) by {
                assert("/sandbox"@[0] == '/');
            }
        } else if p == a.config_dir@ {
            assert(p.subrange(0, d.len() as int + 1) =~= d + seq!['/']) by {
                assert("/config"@[0] == '/');
            }
        } else if p == a.xdg_dir@ {
            assert(p.subrange(0, d.len() as int + 1) =~= d + seq!['/']) by {
                assert("/xdg"@[0] == '/');
            }
        }
    }
}

} // verus!
