use vstd::prelude::*;
use crate::errors::{AgtError, ErrorKind};
use crate::scan::spec_path_views;
use crate::strutil::{chars_of, str_concat, string_from_chars, str_eq, subvec};

verus! {

// ---------------------------------------------------------------------------
// The argument grammar of the small add/commit porcelain, and repository
// naming for clone and init.
// ---------------------------------------------------------------------------

/// What `add` was asked to do: stage everything, restage tracked files,
/// or stage the listed paths.
#[derive(Debug)]
pub struct AddArgs {
    pub all: bool,
    pub update: bool,
    pub paths: Vec<String>,
}

/// Fold over the arguments after the subcommand: `-A`/`--all` and
/// `-u`/`--update` set their flags, `--` switches to literal paths, any
/// other flag is rejected (the error carries the flag), and everything
/// else is a path.
pub open spec fn spec_add_fold(
    rest: Seq<Seq<char>>,
    all: bool,
    update: bool,
    paths: Seq<Seq<char>>,
    after_dd: bool,
) -> Result<(bool, bool, Seq<Seq<char>>), Seq<char>>
    decreases rest.len(),
{
    if rest.len() == 0 {
        Ok((all, update, paths))
    } else {
        let a = rest[0];
        let rr = rest.drop_first();
        if after_dd {
            spec_add_fold(rr, all, update, paths.push(a), true)
        } else if a == "-A"@ || a == "--all"@ {
            spec_add_fold(rr, true, update, paths, false)
        } else if a == "-u"@ || a == "--update"@ {
            spec_add_fold(rr, all, true, paths, false)
        } else if a == "--"@ {
            spec_add_fold(rr, all, update, paths, true)
        } else if a.len() > 0 && a[0] == '-' {
            Err(a)
        } else {
            spec_add_fold(rr, all, update, paths.push(a), false)
        }
    }
}

/// The arguments after the leading subcommand word.
pub open spec fn spec_args_tail(views: Seq<Seq<char>>) -> Seq<Seq<char>> {
    if views.len() == 0 {
        views
    } else {
        views.drop_first()
    }
}

/// Parse the arguments of the `add` porcelain. An unknown flag and a call
/// with nothing to stage are both precondition errors.
pub fn parse_add_args(args: &Vec<String>) -> (r: Result<AddArgs, AgtError>)
    ensures
        ({
            let tail = spec_args_tail(spec_path_views(args@));
            match spec_add_fold(tail, false, false, seq![], false) {
                Err(flag) => r matches Err(e) && e.kind == ErrorKind::Precondition && e.message@
                    == "Unsupported git add flag: "@ + flag,
                Ok((all, update, paths)) => {
                    if !all && !update && paths.len() == 0 {
                        r matches Err(e) && e.kind == ErrorKind::Precondition && e.message@
                            == "git add requires paths or -A/-u"@
                    } else {
                        r matches Ok(a) && a.all == all && a.update == update && spec_path_views(
                            a.paths@,
                        ) == paths
                    }
                },
            }
        }),
{
    let ghost views = spec_path_views(args@);
    let ghost tail = spec_args_tail(views);
    let mut all = false;
    let mut update = false;
    let mut paths: Vec<String> = Vec::new();
    let mut after_dd = false;
    let mut i: usize = 1;
    proof {
        if args@.len() == 0 {
            assert(tail.len() == 0);
        } else {
            assert(tail =~= views.subrange(1, views.len() as int));
        }
        assert(spec_path_views(paths@) =~= Seq::<Seq<char>>::empty());
        if args@.len() > 0 {
            assert(views.subrange(1, views.len() as int) =~= tail);
        }
    }
    while i < args.len()
        invariant
            views == spec_path_views(args@),
            tail == spec_args_tail(views),
            1 <= i,
            i <= args@.len() || i == 1,
            args@.len() > 0 ==> i <= args@.len(),
            spec_add_fold(
                views.subrange(
                    (if i as int <= views.len() {
                        i as int
                    } else {
                        views.len() as int
                    }),
                    views.len() as int,
                ),
                all,
                update,
                spec_path_views(paths@),
                after_dd,
            ) == spec_add_fold(tail, false, false, seq![], false),
        decreases args@.len() - i,
    {
        let ghost remaining = views.subrange(i as int, views.len() as int);
        proof {
            assert(remaining[0] == views[i as int]);
            assert(views[i as int] == args@[i as int]@);
            assert(remaining.drop_first() =~= views.subrange(i as int + 1, views.len() as int));
        }
        let a = &args[i];
        if after_dd {
            let ghost pv = paths@;
            paths.push(a.clone());
            proof {
                crate::scan::lemma_path_views_push(pv, args@[i as int]);
                assert(spec_path_views(paths@) == spec_path_views(pv).push(views[i as int]));
            }
        } else if str_eq(a.as_str(), "-A") || str_eq(a.as_str(), "--all") {
            all = true;
        } else if str_eq(a.as_str(), "-u") || str_eq(a.as_str(), "--update") {
            update = true;
        } else if str_eq(a.as_str(), "--") {
            after_dd = true;
        } else {
            let av = chars_of(a.as_str());
            if av.len() > 0 && av[0] == '-' {
                let msg = str_concat("Unsupported git add flag: ", a.as_str());
                return Err(AgtError::precondition(msg));
            }
            let ghost pv = paths@;
            paths.push(a.clone());
            proof {
                crate::scan::lemma_path_views_push(pv, args@[i as int]);
                assert(spec_path_views(paths@) == spec_path_views(pv).push(views[i as int]));
            }
        }
        i = i + 1;
    }
    proof {
        if args@.len() > 0 {
            assert(views.subrange(views.len() as int, views.len() as int)
                =~= Seq::<Seq<char>>::empty());
        }
    }
    if !all && !update && paths.len() == 0 {
        return Err(
            AgtError::precondition(string_from_chars(&chars_of("git add requires paths or -A/-u"))),
        );
    }
    Ok(AddArgs { all, update, paths })
}

/// Fold over the arguments of `commit`: each `-m`/`--message` takes the
/// following argument as one message paragraph; a `-m` at the end or any
/// other flag is an error, carried as its message text.
pub open spec fn spec_msg_fold(rest: Seq<Seq<char>>, msgs: Seq<Seq<char>>) -> Result<
    Seq<Seq<char>>,
    Seq<char>,
>
    decreases rest.len(),
{
    if rest.len() == 0 {
        Ok(msgs)
    } else {
        let a = rest[0];
        if a == "-m"@ || a == "--message"@ {
            if rest.len() == 1 {
                Err("Expected message after "@ + a)
            } else {
                spec_msg_fold(rest.subrange(2, rest.len() as int), msgs.push(rest[1]))
            }
        } else if a.len() > 0 && a[0] == '-' {
            Err("Unsupported git commit flag: "@ + a)
        } else {
            spec_msg_fold(rest.drop_first(), msgs)
        }
    }
}

/// Message paragraphs joined with blank lines, as one commit message.
pub open spec fn spec_join_paragraphs(parts: Seq<Seq<char>>) -> Seq<char>
    decreases parts.len(),
{
    if parts.len() == 0 {
        seq![]
    } else if parts.len() == 1 {
        parts[0]
    } else {
        parts[0] + "\n\n"@ + spec_join_paragraphs(parts.drop_first())
    }
}

/// Joining one more paragraph appends a blank line and the paragraph.
proof fn lemma_join_paragraphs_snoc(parts: Seq<Seq<char>>)
    requires
        parts.len() >= 2,
    ensures
        spec_join_paragraphs(parts) == spec_join_paragraphs(parts.drop_last()) + "\n\n"@
            + parts.last(),
    decreases parts.len(),
{
    if parts.len() == 2 {
        assert(parts.drop_first().len() == 1);
        assert(parts.drop_first()[0] == parts[1]);
        assert(parts.drop_last().len() == 1);
        assert(parts.drop_last()[0] == parts[0]);
        assert(spec_join_paragraphs(parts.drop_first()) == parts[1]);
        assert(spec_join_paragraphs(parts.drop_last()) == parts[0]);
        assert(spec_join_paragraphs(parts) =~= spec_join_paragraphs(parts.drop_last()) + "\n\n"@
            + parts.last());
    } else {
        lemma_join_paragraphs_snoc(parts.drop_first());
        assert(parts.drop_first().drop_last() =~= parts.drop_last().drop_first());
        assert(parts.drop_first().last() == parts.last());
        assert(parts.drop_last()[0] == parts[0]);
        assert(parts.drop_last().len() >= 2);
        assert(spec_join_paragraphs(parts.drop_last()) == parts[0] + "\n\n"@
            + spec_join_paragraphs(parts.drop_last().drop_first()));
        assert(spec_join_paragraphs(parts) =~= spec_join_paragraphs(parts.drop_last()) + "\n\n"@
            + parts.last());
    }
}

/// Parse the arguments of the `commit` porcelain into the commit message.
pub fn parse_commit_message(args: &Vec<String>) -> (r: Result<String, AgtError>)
    ensures
        ({
            let tail = spec_args_tail(spec_path_views(args@));
            match spec_msg_fold(tail, seq![]) {
                Err(m) => r matches Err(e) && e.kind == ErrorKind::Precondition && e.message@ == m,
                Ok(msgs) => {
                    if msgs.len() == 0 {
                        r matches Err(e) && e.kind == ErrorKind::Precondition && e.message@
                            == "git commit requires -m/--message"@
                    } else {
                        r matches Ok(m) && m@ == spec_join_paragraphs(msgs)
                    }
                },
            }
        }),
{
    let ghost views = spec_path_views(args@);
    let ghost tail = spec_args_tail(views);
    let mut msgs: Vec<String> = Vec::new();
    let mut i: usize = 1;
    proof {
        if args@.len() == 0 {
            assert(tail.len() == 0);
        } else {
            assert(tail =~= views.subrange(1, views.len() as int));
        }
        assert(spec_path_views(msgs@) =~= Seq::<Seq<char>>::empty());
    }
    while i < args.len()
        invariant
            views == spec_path_views(args@),
            tail == spec_args_tail(views),
            1 <= i,
            args@.len() > 0 ==> i <= args@.len(),
            spec_msg_fold(
                views.subrange(
                    (if i as int <= views.len() {
                        i as int
                    } else {
                        views.len() as int
                    }),
                    views.len() as int,
                ),
                spec_path_views(msgs@),
            ) == spec_msg_fold(tail, seq![]),
        decreases args@.len() - i,
    {
        let ghost remaining = views.subrange(i as int, views.len() as int);
        proof {
            assert(remaining[0] == views[i as int]);
            assert(views[i as int] == args@[i as int]@);
            assert(remaining.drop_first() =~= views.subrange(i as int + 1, views.len() as int));
        }
        let a = &args[i];
        if str_eq(a.as_str(), "-m") || str_eq(a.as_str(), "--message") {
            if i + 1 >= args.len() {
                let msg = str_concat("Expected message after ", a.as_str());
                return Err(AgtError::precondition(msg));
            }
            proof {
                assert(remaining.len() >= 2);
                assert(remaining[1] == views[i as int + 1]);
                assert(views[i as int + 1] == args@[i as int + 1]@);
                assert(remaining.subrange(2, remaining.len() as int) =~= views.subrange(
                    i as int + 2,
                    views.len() as int,
                ));
            }
            let ghost mv = msgs@;
            msgs.push(args[i + 1].clone());
            proof {
                crate::scan::lemma_path_views_push(mv, args@[i as int + 1]);
                assert(spec_path_views(msgs@) == spec_path_views(mv).push(views[i as int + 1]));
            }
            i = i + 2;
        } else {
            let av = chars_of(a.as_str());
            if av.len() > 0 && av[0] == '-' {
                let msg = str_concat("Unsupported git commit flag: ", a.as_str());
                return Err(AgtError::precondition(msg));
            }
            i = i + 1;
        }
    }
    proof {
        if args@.len() > 0 {
            assert(views.subrange(views.len() as int, views.len() as int)
                =~= Seq::<Seq<char>>::empty());
        }
    }
    if msgs.len() == 0 {
        return Err(
            AgtError::precondition(
                string_from_chars(&chars_of("git commit requires -m/--message")),
            ),
        );
    }
    let ghost msg_views = spec_path_views(msgs@);
    let mut joined = string_from_chars(&chars_of(msgs[0].as_str()));
    let mut k: usize = 1;
    proof {
        assert(msg_views.subrange(0, 1).len() == 1);
        assert(msg_views.subrange(0, 1)[0] == msg_views[0]);
        assert(joined@ == spec_join_paragraphs(msg_views.subrange(0, 1)));
    }
    while k < msgs.len()
        invariant
            msg_views == spec_path_views(msgs@),
            1 <= k <= msgs@.len(),
            joined@ == spec_join_paragraphs(msg_views.subrange(0, k as int)),
        decreases msgs@.len() - k,
    {
        let with_sep = str_concat(joined.as_str(), "\n\n");
        joined = str_concat(with_sep.as_str(), msgs[k].as_str());
        k = k + 1;
        proof {
            let sub_new = msg_views.subrange(0, k as int);
            assert(sub_new.len() >= 2);
            assert(sub_new.drop_last() =~= msg_views.subrange(0, k as int - 1));
            assert(sub_new.last() == msg_views[k as int - 1]);
            assert(msg_views[k as int - 1] == msgs@[k as int - 1]@);
            lemma_join_paragraphs_snoc(sub_new);
        }
    }
    proof {
        assert(msg_views.subrange(0, msg_views.len() as int) =~= msg_views);
    }
    Ok(joined)
}

// ---------------------------------------------------------------------------
// Repository naming from a remote URL.
// ---------------------------------------------------------------------------

/// Trailing repetitions of `.git` removed.
pub open spec fn spec_strip_dotgit(s: Seq<char>) -> Seq<char>
    decreases s.len(),
{
    if s.len() >= 4 && s.subrange(s.len() - 4, s.len() as int) == ".git"@ {
        spec_strip_dotgit(s.subrange(0, s.len() - 4))
    } else {
        s
    }
}

/// Trailing slashes removed.
pub open spec fn spec_strip_trailing_slashes(s: Seq<char>) -> Seq<char>
    decreases s.len(),
{
    if s.len() > 0 && s[s.len() - 1] == '/' {
        spec_strip_trailing_slashes(s.drop_last())
    } else {
        s
    }
}

/// The repository name a URL denotes: the last `/`-separated component
/// after a trailing `.git` is removed, trailing slashes dropped.
pub open spec fn spec_repo_name(url: Seq<char>) -> Seq<char> {
    spec_strip_trailing_slashes(
        crate::pathutil::spec_path_components(spec_strip_dotgit(url)).last(),
    )
}

/// Extract the repository name from a remote URL; an empty result is
/// rejected.
pub fn extract_repo_name(url: &str) -> (r: Result<String, AgtError>)
    ensures
        ({
            if spec_repo_name(url@).len() == 0 {
                r matches Err(e) && e.kind == ErrorKind::Precondition && e.message@
                    == "Invalid repository URL"@
            } else {
                r matches Ok(n) && n@ == spec_repo_name(url@)
            }
        }),
{
    let uv = chars_of(url);
    proof {
        reveal_strlit(".git");
    }
    let mut sv = subvec(&uv, 0, uv.len());
    proof {
        assert(uv@.subrange(0, uv@.len() as int) =~= uv@);
    }
    let dotgit = chars_of(".git");
    loop
        invariant
            dotgit@ == ".git"@,
            spec_strip_dotgit(url@) == spec_strip_dotgit(sv@),
        ensures
            sv@ == spec_strip_dotgit(url@),
        decreases sv@.len(),
    {
        let n: usize = sv.len();
        if n >= 4 {
            let suffix = subvec(&sv, n - 4, n);
            if crate::strutil::chars_eq(&suffix, &dotgit) {
                proof {
                    assert(sv@.subrange(sv@.len() - 4, sv@.len() as int) == ".git"@);
                }
                sv = subvec(&sv, 0, n - 4);
                continue ;
            }
        }
        proof {
            assert(spec_strip_dotgit(sv@) == sv@);
        }
        break ;
    }
    let comps = crate::pathutil::split_all_chars(&sv, '/');
    proof {
        assert(comps@.map_values(|l: Vec<char>| l@).len() == comps@.len());
        assert(comps@.len() > 0) by {
            assert(crate::pathutil::spec_split_all(sv@, '/').len() > 0) by {
                crate::strutil::lemma_spec_find_props(sv@, '/');
            }
        }
    }
    let last_idx: usize = comps.len() - 1;
    let last_comp = &comps[last_idx];
    proof {
        assert(comps@[last_idx as int]@ == crate::pathutil::spec_path_components(sv@).last());
    }
    let mut name = subvec(last_comp, 0, last_comp.len());
    proof {
        assert(last_comp@.subrange(0, last_comp@.len() as int) =~= last_comp@);
    }
    let ghost name0 = name@;
    loop
        invariant
            spec_strip_trailing_slashes(name0) == spec_strip_trailing_slashes(name@),
        ensures
            name@ == spec_strip_trailing_slashes(name0),
        decreases name@.len(),
    {
        let n: usize = name.len();
        if n > 0 && name[n - 1] == '/' {
            proof {
                assert(name@.drop_last() =~= name@.subrange(0, name@.len() - 1));
            }
            name = subvec(&name, 0, n - 1);
            continue ;
        }
        proof {
            assert(spec_strip_trailing_slashes(name@) == name@);
        }
        break ;
    }
    if name.len() == 0 {
        return Err(AgtError::precondition(string_from_chars(&chars_of("Invalid repository URL"))));
    }
    Ok(string_from_chars(&name))
}

} // verus!
