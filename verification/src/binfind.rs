use vstd::prelude::*;
use crate::errors::{AgtError, ErrorKind};
use crate::strutil::str_concat;

verus! {

// ---------------------------------------------------------------------------
// Locating helper binaries. The choice is a pure function of what the
// caller observed: an environment override, and which candidate paths
// exist on disk.
// ---------------------------------------------------------------------------

/// The candidate locations of a helper binary named `bin_name` (name plus
/// platform suffix): next to the running executable if its directory is
/// known, and the build and distribution folders under `base`.
pub fn candidate_binary_paths(bin_name: &str, exe_dir: Option<&String>, base: &str) -> (r: Vec<
    String,
>)
    ensures
        ({
            let fixed = seq![
                base@ + "/target/release/"@ + bin_name@,
                base@ + "/target/debug/"@ + bin_name@,
                base@ + "/dist/"@ + bin_name@,
            ];
            match exe_dir {
                Some(d) => r@.map_values(|s: String| s@) == seq![d@ + "/"@ + bin_name@] + fixed,
                None => r@.map_values(|s: String| s@) == fixed,
            }
        }),
{
    let mut r: Vec<String> = Vec::new();
    match exe_dir {
        Some(d) => {
            let p = str_concat(str_concat(d.as_str(), "/").as_str(), bin_name);
            proof {
                assert(p@ =~= d@ + "/"@ + bin_name@);
            }
            r.push(p);
        },
        None => {},
    }
    let p1 = str_concat(str_concat(base, "/target/release/").as_str(), bin_name);
    let p2 = str_concat(str_concat(base, "/target/debug/").as_str(), bin_name);
    let p3 = str_concat(str_concat(base, "/dist/").as_str(), bin_name);
    proof {
        assert(p1@ =~= base@ + "/target/release/"@ + bin_name@);
        assert(p2@ =~= base@ + "/target/debug/"@ + bin_name@);
        assert(p3@ =~= base@ + "/dist/"@ + bin_name@);
    }
    r.push(p1);
    r.push(p2);
    r.push(p3);
    proof {
        let fixed = seq![
            base@ + "/target/release/"@ + bin_name@,
            base@ + "/target/debug/"@ + bin_name@,
            base@ + "/dist/"@ + bin_name@,
        ];
        match exe_dir {
            Some(d) => {
                assert(r@.map_values(|s: String| s@) =~= seq![d@ + "/"@ + bin_name@] + fixed);
            },
            None => {
                assert(r@.map_values(|s: String| s@) =~= fixed);
            },
        }
    }
    r
}

/// Pick a helper binary: an environment override wins unconditionally,
/// otherwise the first candidate that exists; with none, an error telling
/// the user to set the variable or build the helper. `exists` reports, for
/// each candidate, whether a file is there.
pub fn find_named_binary(
    name: &str,
    env_var: &str,
    env_value: Option<String>,
    candidates: &Vec<String>,
    exists: &Vec<bool>,
) -> (r: Result<String, AgtError>)
    requires
        candidates@.len() == exists@.len(),
    ensures
        ({
            match env_value {
                Some(v) => r matches Ok(p) && p@ == v@,
                None => {
                    if exists@.contains(true) {
                        r matches Ok(p) && exists@.contains(true) && ({
                            exists|i: int|
                                0 <= i < exists@.len() && exists@[i] && p@ == candidates@[i]@
                                    && forall|j: int| 0 <= j < i ==> !exists@[j]
                        })
                    } else {
                        r matches Err(e) && e.kind == ErrorKind::Config && e.message@ == name@
                            + " binary not found; set "@ + env_var@ + " or build it"@
                    }
                },
            }
        }),
{
    match env_value {
        Some(v) => Ok(v),
        None => {
            let mut i: usize = 0;
            while i < candidates.len()
                invariant
                    env_value is None,
                    candidates@.len() == exists@.len(),
                    i <= exists@.len(),
                    forall|j: int| 0 <= j < i ==> !exists@[j],
                decreases candidates@.len() - i,
            {
                if exists[i] {
                    proof {
                        assert(exists@[i as int]);
                    }
                    return Ok(candidates[i].clone());
                }
                i = i + 1;
            }
            proof {
                if exists@.contains(true) {
                    let w = choose|w: int| 0 <= w < exists@.len() && exists@[w] == true;
                    assert(!exists@[w]);
                }
            }
            let msg = str_concat(
                str_concat(str_concat(name, " binary not found; set ").as_str(), env_var).as_str(),
                " or build it",
            );
            proof {
                assert(msg@ =~= name@ + " binary not found; set "@ + env_var@ + " or build it"@);
            }
            Err(AgtError::config(msg))
        },
    }
}

/// Find the worktree helper binary, by its environment override or the
/// usual build locations.
pub fn find_worktree_binary(
    env_value: Option<String>,
    candidates: &Vec<String>,
    exists: &Vec<bool>,
) -> (r: Result<String, AgtError>)
    requires
        candidates@.len() == exists@.len(),
    ensures
        ({
            match env_value {
                Some(v) => r matches Ok(p) && p@ == v@,
                None => {
                    if exists@.contains(true) {
                        r is Ok
                    } else {
                        r matches Err(e) && e.kind == ErrorKind::Config
                    }
                },
            }
        }),
{
    find_named_binary("agt-worktree", "AGT_WORKTREE_PATH", env_value, candidates, exists)
}

} // verus!
