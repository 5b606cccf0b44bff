use vstd::prelude::*;
use crate::errors::AgtError;
use crate::strutil::str_concat;

verus! {

// ---------------------------------------------------------------------------
// Session isolation level and the folder layout of one session.
// ---------------------------------------------------------------------------

/// How strongly the agent's environment is separated from the user's.
/// Advisory: the level is recorded with the session but not enforced here.
#[derive(Debug, Clone, Copy, PartialEq, Eq, Structural)]
pub enum IsolationMode {
    Off,
    Xdg,
    Chroot,
}

/// The ASCII code of `c` with an upper-case letter folded to lower case.
pub open spec fn spec_lower_code(c: char) -> int {
    if 65 <= c as u32 && c as u32 <= 90 {
        c as u32 + 32
    } else {
        c as u32 as int
    }
}

/// Case-insensitive equality of two texts, folding ASCII letters only.
pub open spec fn spec_ci_equal(a: Seq<char>, b: Seq<char>) -> bool {
    a.len() == b.len() && forall|i: int|
        0 <= i < a.len() ==> spec_lower_code(a[i]) == spec_lower_code(#[trigger] b[i])
}

/// Case-insensitive comparison of two texts, ASCII letters only.
fn ci_equal(a: &Vec<char>, b: &Vec<char>) -> (r: bool)
    ensures
        r == spec_ci_equal(a@, b@),
{
    if a.len() != b.len() {
        return false;
    }
    let mut i: usize = 0;
    while i < a.len()
        invariant
            a@.len() == b@.len(),
            i <= a@.len(),
            forall|j: int|
                0 <= j < i ==> spec_lower_code(a@[j]) == spec_lower_code(#[trigger] b@[j]),
        decreases a@.len() - i,
    {
        let ca = a[i] as u32;
        let cb = b[i] as u32;
        let la = if ca >= 65 && ca <= 90 {
            ca + 32
        } else {
            ca
        };
        let lb = if cb >= 65 && cb <= 90 {
            cb + 32
        } else {
            cb
        };
        proof {
            assert(la as int == spec_lower_code(a@[i as int]));
            assert(lb as int == spec_lower_code(b@[i as int]));
        }
        if la != lb {
            return false;
        }
        i = i + 1;
    }
    true
}

impl IsolationMode {
    /// Read an isolation level from text, ignoring ASCII case: `none`,
    /// `xdg` or `chroot`. Anything else is rejected with a precondition
    /// error naming the input.
    pub fn parse(s: &str) -> (r: Result<IsolationMode, AgtError>)
        ensures
            spec_ci_equal(s@, "none"@) ==> r == Ok::<IsolationMode, AgtError>(IsolationMode::Off),
            spec_ci_equal(s@, "xdg"@) ==> r == Ok::<IsolationMode, AgtError>(IsolationMode::Xdg),
            spec_ci_equal(s@, "chroot"@) ==> r == Ok::<IsolationMode, AgtError>(
                IsolationMode::Chroot,
            ),
            !(spec_ci_equal(s@, "none"@) || spec_ci_equal(s@, "xdg"@) || spec_ci_equal(
                s@,
                "chroot"@,
            )) ==> (r matches Err(e) && e.kind == crate::errors::ErrorKind::Precondition
                && e.message@ == "Invalid isolation mode: "@ + s@),
    {
        proof {
            reveal_strlit("none");
            reveal_strlit("xdg");
            reveal_strlit("chroot");
        }
        let sv = crate::strutil::chars_of(s);
        if ci_equal(&sv, &crate::strutil::chars_of("none")) {
            Ok(IsolationMode::Off)
        } else if ci_equal(&sv, &crate::strutil::chars_of("xdg")) {
            Ok(IsolationMode::Xdg)
        } else if ci_equal(&sv, &crate::strutil::chars_of("chroot")) {
            Ok(IsolationMode::Chroot)
        } else {
            Err(AgtError::precondition(str_concat("Invalid isolation mode: ", s)))
        }
    }
}

impl core::str::FromStr for IsolationMode {
    type Err = AgtError;

    fn from_str(s: &str) -> Result<IsolationMode, AgtError> {
        IsolationMode::parse(s)
    }
}

/// The folders of one session: the session root, the sandbox worktree in
/// it, and the freely written agent-state folders beside the sandbox.
pub struct SessionPaths {
    pub root: String,
    pub sandbox: String,
    pub xdg_data: String,
    pub xdg_config: String,
}

impl SessionPaths {
    /// Lay a session out under its root folder: `sandbox/`, `xdg/` and
    /// `config/` beside each other.
    pub fn new(session_root: String) -> (r: SessionPaths)
        ensures
            r.root@ == session_root@,
            r.sandbox@ == session_root@ + "/sandbox"@,
            r.xdg_data@ == session_root@ + "/xdg"@,
            r.xdg_config@ == session_root@ + "/config"@,
    {
        let sandbox = str_concat(session_root.as_str(), "/sandbox");
        let xdg_data = str_concat(session_root.as_str(), "/xdg");
        let xdg_config = str_concat(session_root.as_str(), "/config");
        SessionPaths { root: session_root, sandbox, xdg_data, xdg_config }
    }
}

} // verus!
