use vstd::prelude::*;
use crate::errors::{AgtError, ErrorKind};
use crate::pathutil::{path_is_within, spec_component_prefix, spec_path_components};
use crate::strutil::{chars_of, str_concat, string_from_chars};

verus! {

// ---------------------------------------------------------------------------
// Linked-worktree primitive: path validation for add/remove, and the exact
// contents of the five metadata files a linked worktree consists of.
// ---------------------------------------------------------------------------

/// Check the preconditions of adding a linked worktree: the name must be
/// non-empty, the worktree must lie outside the bare repository, and a
/// pre-existing worktree directory must be empty. The caller reports
/// whether the path exists and whether it has entries.
pub fn validate_add_paths(
    git_dir: &str,
    worktree: &str,
    name: &str,
    worktree_exists: bool,
    worktree_nonempty: bool,
) -> (r: Result<(), AgtError>)
    ensures
        ({
            if name@.len() == 0 {
                r matches Err(e) && e.kind == ErrorKind::Precondition && e.message@
                    == "Worktree name cannot be empty"@
            } else if spec_component_prefix(
                spec_path_components(git_dir@),
                spec_path_components(worktree@),
            ) {
                r matches Err(e) && e.kind == ErrorKind::Precondition && e.message@
                    == "Worktree must not be inside the bare repository"@
            } else if worktree_exists && worktree_nonempty {
                r matches Err(e) && e.kind == ErrorKind::Precondition && e.message@
                    == "Worktree path must be empty"@
            } else {
                r is Ok
            }
        }),
{
    if name.unicode_len() == 0 {
        return Err(
            AgtError::precondition(string_from_chars(&chars_of("Worktree name cannot be empty"))),
        );
    }
    if path_is_within(worktree, git_dir) {
        return Err(
            AgtError::precondition(
                string_from_chars(&chars_of("Worktree must not be inside the bare repository")),
            ),
        );
    }
    if worktree_exists && worktree_nonempty {
        return Err(
            AgtError::precondition(string_from_chars(&chars_of("Worktree path must be empty"))),
        );
    }
    Ok(())
}

/// Check the preconditions of removing a linked worktree: same as adding,
/// except that the worktree directory need not be empty.
pub fn validate_remove_paths(git_dir: &str, worktree: &str, name: &str) -> (r: Result<
    (),
    AgtError,
>)
    ensures
        ({
            if name@.len() == 0 {
                r matches Err(e) && e.kind == ErrorKind::Precondition && e.message@
                    == "Worktree name cannot be empty"@
            } else if spec_component_prefix(
                spec_path_components(git_dir@),
                spec_path_components(worktree@),
            ) {
                r matches Err(e) && e.kind == ErrorKind::Precondition && e.message@
                    == "Worktree must not be inside the bare repository"@
            } else {
                r is Ok
            }
        }),
{
    if name.unicode_len() == 0 {
        return Err(
            AgtError::precondition(string_from_chars(&chars_of("Worktree name cannot be empty"))),
        );
    }
    if path_is_within(worktree, git_dir) {
        return Err(
            AgtError::precondition(
                string_from_chars(&chars_of("Worktree must not be inside the bare repository")),
            ),
        );
    }
    Ok(())
}

/// One file of the linked-worktree metadata: where it goes and what it
/// holds, byte for byte.
pub struct MetadataFile {
    pub path: String,
    pub contents: String,
}

/// The five files that make a linked worktree, with their exact contents:
/// the worktree's `.git` pointer, and the admin dir's `gitdir`,
/// `commondir`, `HEAD` and `ORIG_HEAD`. Absolute paths are resolved by the
/// caller and taken as given.
pub fn worktree_metadata_files(
    worktree: &str,
    admin_dir: &str,
    admin_dir_abs: &str,
    worktree_git_abs: &str,
    branch: &str,
    head_id_hex: &str,
) -> (r: Vec<MetadataFile>)
    ensures
        r@.len() == 5,
        r@[0].path@ == worktree@ + "/.git"@,
        r@[0].contents@ == "gitdir: "@ + admin_dir_abs@ + "\n"@,
        r@[1].path@ == admin_dir@ + "/gitdir"@,
        r@[1].contents@ == worktree_git_abs@ + "\n"@,
        r@[2].path@ == admin_dir@ + "/commondir"@,
        r@[2].contents@ == "../..\n"@,
        r@[3].path@ == admin_dir@ + "/HEAD"@,
        r@[3].contents@ == "ref: "@ + branch@ + "\n"@,
        r@[4].path@ == admin_dir@ + "/ORIG_HEAD"@,
        r@[4].contents@ == head_id_hex@ + "\n"@,
{
    let mut r: Vec<MetadataFile> = Vec::new();
    r.push(
        MetadataFile {
            path: str_concat(worktree, "/.git"),
            contents: str_concat(str_concat("gitdir: ", admin_dir_abs).as_str(), "\n"),
        },
    );
    r.push(
        MetadataFile {
            path: str_concat(admin_dir, "/gitdir"),
            contents: str_concat(worktree_git_abs, "\n"),
        },
    );
    r.push(
        MetadataFile {
            path: str_concat(admin_dir, "/commondir"),
            contents: string_from_chars(&chars_of("../..\n")),
        },
    );
    r.push(
        MetadataFile {
            path: str_concat(admin_dir, "/HEAD"),
            contents: str_concat(str_concat("ref: ", branch).as_str(), "\n"),
        },
    );
    r.push(
        MetadataFile {
            path: str_concat(admin_dir, "/ORIG_HEAD"),
            contents: str_concat(head_id_hex, "\n"),
        },
    );
    proof {
        assert(r@[0].contents@ =~= "gitdir: "@ + admin_dir_abs@ + "\n"@);
        assert(r@[3].contents@ =~= "ref: "@ + branch@ + "\n"@);
    }
    r
}

} // verus!
