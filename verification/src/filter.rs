use vstd::prelude::*;
use crate::config::AgtConfig;
use crate::strutil::{
    chars_of, contains_chars, spec_contains_seq, spec_join_sep, spec_lines, spec_trim_start,
    split_lines, starts_with_chars, string_from_chars, subvec,
};

verus! {

// ---------------------------------------------------------------------------
// Output filtering for git passthrough mode: shadow branches and
// agent-authored commits are hidden from branch, tag and log listings.
// ---------------------------------------------------------------------------

/// Whether `s` starts with `p`.
pub open spec fn spec_starts_with(s: Seq<char>, p: Seq<char>) -> bool {
    s.len() >= p.len() && s.subrange(0, p.len() as int) == p
}

/// Leading `*` and `+` markers of a branch listing removed.
pub open spec fn spec_drop_marks(s: Seq<char>) -> Seq<char>
    decreases s.len(),
{
    if s.len() > 0 && (s[0] == '*' || s[0] == '+') {
        spec_drop_marks(s.drop_first())
    } else {
        s
    }
}

/// The part of a listing line that names the ref: leading whitespace and
/// current/linked markers stripped.
pub open spec fn spec_line_core(line: Seq<char>) -> Seq<char> {
    spec_trim_start(spec_drop_marks(spec_trim_start(line)))
}

/// Whether a listing line names a shadow ref: its core starts with the
/// shadow-branch prefix, or holds `/` followed by the prefix.
pub open spec fn spec_has_branch_prefix(line: Seq<char>, prefix: Seq<char>) -> bool {
    spec_starts_with(spec_line_core(line), prefix) || spec_contains_seq(
        spec_line_core(line),
        seq!['/'] + prefix,
    )
}

/// `v` with leading whitespace removed.
fn drop_leading_spaces(v: &Vec<char>) -> (r: Vec<char>)
    ensures
        r@ == spec_trim_start(v@),
{
    let n: usize = v.len();
    proof {
        assert(v@.subrange(0, n as int) =~= v@);
    }
    let mut start: usize = 0;
    while start < n && crate::strutil::is_space_exec(v[start])
        invariant
            n == v@.len(),
            start <= n,
            spec_trim_start(v@) == spec_trim_start(v@.subrange(start as int, n as int)),
        decreases n - start,
    {
        proof {
            let s = v@.subrange(start as int, n as int);
            assert(s.len() > 0);
            assert(s[0] == v@[start as int]);
            assert(s.drop_first() =~= v@.subrange(start as int + 1, n as int));
        }
        start = start + 1;
    }
    proof {
        let s = v@.subrange(start as int, n as int);
        if s.len() > 0 {
            assert(s[0] == v@[start as int]);
        }
        assert(spec_trim_start(s) == s);
    }
    subvec(v, start, n)
}

/// `v` with leading `*` and `+` markers removed.
fn drop_marks(v: &Vec<char>) -> (r: Vec<char>)
    ensures
        r@ == spec_drop_marks(v@),
{
    let n: usize = v.len();
    proof {
        assert(v@.subrange(0, n as int) =~= v@);
    }
    let mut start: usize = 0;
    while start < n && (v[start] == '*' || v[start] == '+')
        invariant
            n == v@.len(),
            start <= n,
            spec_drop_marks(v@) == spec_drop_marks(v@.subrange(start as int, n as int)),
        decreases n - start,
    {
        proof {
            let s = v@.subrange(start as int, n as int);
            assert(s.len() > 0);
            assert(s[0] == v@[start as int]);
            assert(s.drop_first() =~= v@.subrange(start as int + 1, n as int));
        }
        start = start + 1;
    }
    proof {
        let s = v@.subrange(start as int, n as int);
        if s.len() > 0 {
            assert(s[0] == v@[start as int]);
        }
        assert(spec_drop_marks(s) == s);
    }
    subvec(v, start, n)
}

/// Whether a branch/tag listing line names something under the shadow
/// prefix, after the usual listing decorations are stripped.
pub fn has_branch_prefix(line: &str, prefix: &str) -> (r: bool)
    ensures
        r == spec_has_branch_prefix(line@, prefix@),
{
    let lv = chars_of(line);
    let pv = chars_of(prefix);
    let step1 = drop_leading_spaces(&lv);
    let step2 = drop_marks(&step1);
    let core = drop_leading_spaces(&step2);
    if starts_with_chars(&core, &pv) {
        return true;
    }
    let mut slash_prefix: Vec<char> = Vec::new();
    slash_prefix.push('/');
    let mut i: usize = 0;
    while i < pv.len()
        invariant
            pv@ == prefix@,
            i <= pv@.len(),
            slash_prefix@ == seq!['/'] + pv@.subrange(0, i as int),
        decreases pv@.len() - i,
    {
        slash_prefix.push(pv[i]);
        i = i + 1;
        proof {
            assert(slash_prefix@ =~= seq!['/'] + pv@.subrange(0, i as int));
        }
    }
    proof {
        assert(pv@.subrange(0, pv@.len() as int) =~= pv@);
    }
    contains_chars(&core, &slash_prefix)
}

/// Whether a reference is one of the tool's own and should be hidden from
/// the user's listings: its name holds the shadow-branch prefix.
pub fn should_hide_ref(ref_name: &str, config: &AgtConfig) -> (r: bool)
    ensures
        r == spec_contains_seq(ref_name@, config.branch_prefix@),
{
    let rv = chars_of(ref_name);
    let pv = chars_of(config.branch_prefix.as_str());
    contains_chars(&rv, &pv)
}

/// Whether a commit was authored by the agent identity and should be
/// hidden from the user's log: its author email equals the configured
/// agent email.
pub fn should_hide_commit(author_email: &str, config: &AgtConfig) -> (r: bool)
    ensures
        r == (author_email@ == config.agent_email@),
{
    crate::strutil::str_eq(author_email, config.agent_email.as_str())
}

/// Rewrite passthrough arguments for the underlying git binary: `branch`
/// and `tag` without an explicit subcommand get `list` inserted, anything
/// else passes unchanged.
pub fn map_args_for_gix(args: &Vec<String>) -> (r: Vec<String>)
    ensures
        ({
            let views = crate::scan::spec_path_views(args@);
            if args@.len() > 0 && (views[0] == "branch"@ || views[0] == "tag"@) && !(args@.len()
                > 1 && views[1] == "list"@) {
                crate::scan::spec_path_views(r@) == views.insert(1, "list"@)
            } else {
                crate::scan::spec_path_views(r@) == views
            }
        }),
{
    let mut mapped: Vec<String> = Vec::new();
    let mut i: usize = 0;
    while i < args.len()
        invariant
            i <= args@.len(),
            mapped@.len() == i,
            forall|j: int| 0 <= j < i ==> #[trigger] mapped@[j]@ == args@[j]@,
        decreases args@.len() - i,
    {
        mapped.push(args[i].clone());
        i = i + 1;
    }
    let ghost views = crate::scan::spec_path_views(args@);
    proof {
        assert forall|j: int| 0 <= j < args@.len() implies #[trigger] views[j] == args@[j]@ by {}
        assert(crate::scan::spec_path_views(mapped@) =~= views);
    }
    let needs_list = if mapped.len() > 0 {
        let is_branch = crate::strutil::str_eq(mapped[0].as_str(), "branch");
        let is_tag = crate::strutil::str_eq(mapped[0].as_str(), "tag");
        if is_branch || is_tag {
            if mapped.len() > 1 {
                !crate::strutil::str_eq(mapped[1].as_str(), "list")
            } else {
                true
            }
        } else {
            false
        }
    } else {
        false
    };
    if needs_list {
        let ghost before = mapped@;
        let list_value = string_from_chars(&chars_of("list"));
        mapped.insert(1, list_value);
        proof {
                        let new_views = crate::scan::spec_path_views(mapped@);
            assert forall|j: int| 0 <= j < new_views.len() implies #[trigger] new_views[j]
                == views.insert(1, "list"@)[j] by {
                assert(new_views[j] == mapped@[j]@);
                if j == 0 {
                    assert(mapped@[0] == before[0]);
                } else if j == 1 {
                } else {
                    assert(mapped@[j] == before[j - 1]);
                }
            }
            assert(new_views =~= views.insert(1, "list"@));
        }
    }
    mapped
}

/// Drop the lines of a branch or tag listing that name shadow refs, and
/// join what is left with newlines.
pub open spec fn spec_filter_listing(out: Seq<char>, prefix: Seq<char>) -> Seq<char> {
    spec_join_sep(
        spec_lines(out).filter(|l: Seq<char>| !spec_has_branch_prefix(l, prefix)),
        '\n',
    )
}

/// Filter a `git branch` listing: lines naming shadow branches are hidden.
pub fn filter_branch_output(output: &str, config: &AgtConfig) -> (r: String)
    ensures
        r@ == spec_filter_listing(output@, config.branch_prefix@),
{
    let ov = chars_of(output);
    let lines = split_lines(&ov);
    let ghost line_views = lines@.map_values(|l: Vec<char>| l@);
    let ghost pred = |l: Seq<char>| !spec_has_branch_prefix(l, config.branch_prefix@);
    let mut kept: Vec<Vec<char>> = Vec::new();
    let mut i: usize = 0;
    proof {
        reveal(Seq::filter);
        assert(line_views.subrange(0, 0) =~= Seq::<Seq<char>>::empty());
        assert(kept@.map_values(|l: Vec<char>| l@) =~= line_views.subrange(0, 0).filter(pred));
    }
    while i < lines.len()
        invariant
            line_views == spec_lines(output@),
            lines@.map_values(|l: Vec<char>| l@) == line_views,
            pred == (|l: Seq<char>| !spec_has_branch_prefix(l, config.branch_prefix@)),
            i <= lines@.len(),
            kept@.map_values(|l: Vec<char>| l@) == line_views.subrange(0, i as int).filter(pred),
        decreases lines@.len() - i,
    {
        let ghost kept_before = kept@;
        let line_str = string_from_chars(&lines[i]);
        if !has_branch_prefix(line_str.as_str(), config.branch_prefix.as_str()) {
            let copy = subvec(&lines[i], 0, lines[i].len());
            proof {
                assert(lines@[i as int]@.subrange(0, lines@[i as int]@.len() as int)
                    =~= lines@[i as int]@);
            }
            kept.push(copy);
        }
        proof {
            reveal(Seq::filter);
            let sub_new = line_views.subrange(0, i as int + 1);
            assert(sub_new.drop_last() =~= line_views.subrange(0, i as int));
            assert(sub_new.last() == line_views[i as int]);
            assert(line_views[i as int] == lines@[i as int]@);
            if pred(line_views[i as int]) {
                assert(kept@ == kept_before.push(kept@.last()));
                assert(kept@.map_values(|l: Vec<char>| l@) =~= sub_new.filter(pred));
            } else {
                assert(kept@.map_values(|l: Vec<char>| l@) =~= sub_new.filter(pred));
            }
        }
        i = i + 1;
    }
    proof {
        assert(line_views.subrange(0, line_views.len() as int) =~= line_views);
    }
    let joined = crate::strutil::join_with_sep(&kept, '\n');
    string_from_chars(&joined)
}

/// Filter a `git tag` listing the same way as a branch listing.
pub fn filter_tag_output(output: &str, config: &AgtConfig) -> (r: String)
    ensures
        r@ == spec_filter_listing(output@, config.branch_prefix@),
{
    filter_branch_output(output, config)
}

// ---------------------------------------------------------------------------
// Log filtering: the default `git log` output is cut into commit blocks,
// and blocks authored by the agent identity are dropped whole.
// ---------------------------------------------------------------------------

/// Group log lines into blocks: a line starting `commit ` opens a new
/// block (except at the very start); `current` is the block being built
/// and `done` the finished ones.
pub open spec fn spec_blocks_fold(
    lines: Seq<Seq<char>>,
    current: Seq<Seq<char>>,
    done: Seq<Seq<Seq<char>>>,
) -> Seq<Seq<Seq<char>>>
    decreases lines.len(),
{
    if lines.len() == 0 {
        if current.len() > 0 {
            done.push(current)
        } else {
            done
        }
    } else {
        let l = lines[0];
        let rest = lines.drop_first();
        if spec_starts_with(l, "commit "@) && current.len() > 0 {
            spec_blocks_fold(rest, seq![l], done.push(current))
        } else {
            spec_blocks_fold(rest, current.push(l), done)
        }
    }
}

/// Whether a block belongs to the agent: some line starts `Author:` and
/// holds the agent email.
pub open spec fn spec_block_hidden(block: Seq<Seq<char>>, email: Seq<char>) -> bool {
    exists|i: int|
        0 <= i < block.len() && spec_starts_with(#[trigger] block[i], "Author:"@)
            && spec_contains_seq(block[i], email)
}

/// What log filtering produces: output without an `Author:` anywhere is
/// passed through untouched; otherwise agent-authored blocks are dropped
/// and the rest joined back with newlines.
pub open spec fn spec_filter_log(out: Seq<char>, email: Seq<char>) -> Seq<char> {
    if !spec_contains_seq(out, "Author:"@) {
        out
    } else {
        spec_join_sep(
            spec_blocks_fold(spec_lines(out), seq![], seq![]).filter(
                |b: Seq<Seq<char>>| !spec_block_hidden(b, email),
            ).map_values(|b: Seq<Seq<char>>| spec_join_sep(b, '\n')),
            '\n',
        )
    }
}

/// Whether this block's author is the agent identity.
fn block_hidden(block: &Vec<Vec<char>>, email: &Vec<char>) -> (r: bool)
    ensures
        r == spec_block_hidden(block@.map_values(|l: Vec<char>| l@), email@),
{
    let ghost views = block@.map_values(|l: Vec<char>| l@);
    let author_pat = chars_of("Author:");
    let mut i: usize = 0;
    while i < block.len()
        invariant
            views == block@.map_values(|l: Vec<char>| l@),
            author_pat@ == "Author:"@,
            i <= block@.len(),
            forall|j: int|
                0 <= j < i ==> !(spec_starts_with(#[trigger] views[j], "Author:"@)
                    && spec_contains_seq(views[j], email@)),
        decreases block@.len() - i,
    {
        proof {
            assert(views[i as int] == block@[i as int]@);
        }
        if starts_with_chars(&block[i], &author_pat) && contains_chars(&block[i], email) {
            return true;
        }
        i = i + 1;
    }
    proof {
        if spec_block_hidden(views, email@) {
            let w = choose|w: int|
                0 <= w < views.len() && spec_starts_with(#[trigger] views[w], "Author:"@)
                    && spec_contains_seq(views[w], email@);
        }
    }
    false
}

/// Filter the default `git log` output: commit blocks whose author line
/// carries the agent email are removed. Output without author lines is not
/// parseable this way and is passed through unchanged.
pub fn filter_log_output(output: &str, config: &AgtConfig) -> (r: String)
    ensures
        r@ == spec_filter_log(output@, config.agent_email@),
{
    let ov = chars_of(output);
    let author_pat = chars_of("Author:");
    if !contains_chars(&ov, &author_pat) {
        let r = string_from_chars(&ov);
        return r;
    }
    let lines = split_lines(&ov);
    let ghost line_views = lines@.map_values(|l: Vec<char>| l@);
    let commit_pat = chars_of("commit ");
    let mut blocks: Vec<Vec<Vec<char>>> = Vec::new();
    let mut current: Vec<Vec<char>> = Vec::new();
    let mut i: usize = 0;
    proof {
        assert(line_views.subrange(0, line_views.len() as int) =~= line_views);
        assert(current@.map_values(|l: Vec<char>| l@) =~= Seq::<Seq<char>>::empty());
        assert(blocks@.map_values(|b: Vec<Vec<char>>| b@.map_values(|l: Vec<char>| l@))
            =~= Seq::<Seq<Seq<char>>>::empty());
    }
    while i < lines.len()
        invariant
            line_views == spec_lines(output@),
            lines@.map_values(|l: Vec<char>| l@) == line_views,
            commit_pat@ == "commit "@,
            i <= lines@.len(),
            spec_blocks_fold(
                line_views.subrange(i as int, line_views.len() as int),
                current@.map_values(|l: Vec<char>| l@),
                blocks@.map_values(|b: Vec<Vec<char>>| b@.map_values(|l: Vec<char>| l@)),
            ) == spec_blocks_fold(line_views, seq![], seq![]),
        decreases lines@.len() - i,
    {
        let ghost remaining = line_views.subrange(i as int, line_views.len() as int);
        let ghost cur_views = current@.map_values(|l: Vec<char>| l@);
        let ghost done_views = blocks@.map_values(
            |b: Vec<Vec<char>>| b@.map_values(|l: Vec<char>| l@),
        );
        proof {
            assert(remaining[0] == line_views[i as int]);
            assert(line_views[i as int] == lines@[i as int]@);
            assert(remaining.drop_first() =~= line_views.subrange(
                i as int + 1,
                line_views.len() as int,
            ));
        }
        let is_commit_start = starts_with_chars(&lines[i], &commit_pat);
        let line_copy = subvec(&lines[i], 0, lines[i].len());
        proof {
            assert(lines@[i as int]@.subrange(0, lines@[i as int]@.len() as int)
                =~= lines@[i as int]@);
        }
        if is_commit_start && current.len() > 0 {
            let ghost cur_snap = current@;
            blocks.push(current);
            current = Vec::new();
            current.push(line_copy);
            proof {
                assert(blocks@.last()@ == cur_snap);
                let new_done = blocks@.map_values(
                    |b: Vec<Vec<char>>| b@.map_values(|l: Vec<char>| l@),
                );
                assert forall|j: int| 0 <= j < new_done.len() implies #[trigger] new_done[j]
                    == done_views.push(cur_views)[j] by {
                    if j < done_views.len() {
                        assert(blocks@[j] == blocks@.drop_last()[j]);
                        assert(done_views[j] == blocks@.drop_last()[j]@.map_values(
                            |l: Vec<char>| l@,
                        ));
                    } else {
                        assert(blocks@[j]@ == cur_snap);
                    }
                }
                assert(new_done =~= done_views.push(cur_views));
                assert(current@.map_values(|l: Vec<char>| l@) =~= seq![line_views[i as int]]);
            }
        } else {
            let ghost cur_snap = current@;
            current.push(line_copy);
            proof {
                assert(current@ == cur_snap.push(current@.last()));
                assert(current@.map_values(|l: Vec<char>| l@) =~= cur_views.push(
                    line_views[i as int],
                ));
            }
        }
        i = i + 1;
    }
    proof {
        assert(line_views.subrange(line_views.len() as int, line_views.len() as int)
            =~= Seq::<Seq<char>>::empty());
    }
    if current.len() > 0 {
        let ghost done_views = blocks@.map_values(
            |b: Vec<Vec<char>>| b@.map_values(|l: Vec<char>| l@),
        );
        let ghost cur_views = current@.map_values(|l: Vec<char>| l@);
        let ghost cur_snap = current@;
        blocks.push(current);
        proof {
            assert(blocks@.last()@ == cur_snap);
            let new_done = blocks@.map_values(
                |b: Vec<Vec<char>>| b@.map_values(|l: Vec<char>| l@),
            );
            assert forall|j: int| 0 <= j < new_done.len() implies #[trigger] new_done[j]
                == done_views.push(cur_views)[j] by {
                if j < done_views.len() {
                    assert(blocks@[j] == blocks@.drop_last()[j]);
                    assert(done_views[j] == blocks@.drop_last()[j]@.map_values(
                        |l: Vec<char>| l@,
                    ));
                } else {
                    assert(blocks@[j]@ == cur_snap);
                }
            }
            assert(new_done =~= done_views.push(cur_views));
        }
    }
    let ghost all_blocks = spec_blocks_fold(line_views, seq![], seq![]);
    proof {
        assert(blocks@.map_values(|b: Vec<Vec<char>>| b@.map_values(|l: Vec<char>| l@))
            == all_blocks);
    }
    let email = chars_of(config.agent_email.as_str());
    let ghost keep_pred = |b: Seq<Seq<char>>| !spec_block_hidden(b, config.agent_email@);
    let mut kept_joined: Vec<Vec<char>> = Vec::new();
    let mut k: usize = 0;
    proof {
        reveal(Seq::filter);
        assert(all_blocks.subrange(0, 0) =~= Seq::<Seq<Seq<char>>>::empty());
        assert(kept_joined@.map_values(|l: Vec<char>| l@) =~= all_blocks.subrange(0, 0).filter(
            keep_pred,
        ).map_values(|b: Seq<Seq<char>>| spec_join_sep(b, '\n')));
    }
    while k < blocks.len()
        invariant
            email@ == config.agent_email@,
            keep_pred == (|b: Seq<Seq<char>>| !spec_block_hidden(b, config.agent_email@)),
            blocks@.map_values(|b: Vec<Vec<char>>| b@.map_values(|l: Vec<char>| l@))
                == all_blocks,
            k <= blocks@.len(),
            kept_joined@.map_values(|l: Vec<char>| l@) == all_blocks.subrange(0, k as int).filter(
                keep_pred,
            ).map_values(|b: Seq<Seq<char>>| spec_join_sep(b, '\n')),
        decreases blocks@.len() - k,
    {
        let ghost kept_before = kept_joined@;
        proof {
            assert(all_blocks[k as int] == blocks@[k as int]@.map_values(|l: Vec<char>| l@));
        }
        let hidden = block_hidden(&blocks[k], &email);
        if !hidden {
            let joined_block = crate::strutil::join_with_sep(&blocks[k], '\n');
            kept_joined.push(joined_block);
        }
        proof {
            reveal(Seq::filter);
            let sub_new = all_blocks.subrange(0, k as int + 1);
            assert(sub_new.drop_last() =~= all_blocks.subrange(0, k as int));
            assert(sub_new.last() == all_blocks[k as int]);
            if keep_pred(all_blocks[k as int]) {
                assert(kept_joined@ == kept_before.push(kept_joined@.last()));
                assert(kept_joined@.last()@ == spec_join_sep(all_blocks[k as int], '\n'));
                let filter_old = all_blocks.subrange(0, k as int).filter(keep_pred);
                let filter_new = sub_new.filter(keep_pred);
                assert(filter_new == filter_old.push(all_blocks[k as int]));
                let lhs = kept_joined@.map_values(|l: Vec<char>| l@);
                let rhs = filter_new.map_values(|b: Seq<Seq<char>>| spec_join_sep(b, '\n'));
                assert(kept_before.map_values(|l: Vec<char>| l@).len() == kept_before.len());
                assert(filter_old.map_values(
                    |b: Seq<Seq<char>>| spec_join_sep(b, '\n'),
                ).len() == filter_old.len());
                assert(lhs.len() == rhs.len());
                assert forall|j: int| 0 <= j < lhs.len() implies #[trigger] lhs[j] == rhs[j] by {
                    assert(lhs[j] == kept_joined@[j]@);
                    assert(rhs[j] == spec_join_sep(filter_new[j], '\n'));
                    if j < kept_before.len() {
                        assert(kept_joined@[j] == kept_before[j]);
                        assert(kept_before.map_values(|l: Vec<char>| l@)[j] == kept_before[j]@);
                        assert(filter_new[j] == filter_old[j]);
                        assert(filter_old.map_values(
                            |b: Seq<Seq<char>>| spec_join_sep(b, '\n'),
                        )[j] == spec_join_sep(filter_old[j], '\n'));
                    } else {
                        assert(kept_joined@[j] == kept_joined@.last());
                        assert(filter_new[j] == all_blocks[k as int]);
                    }
                }
                assert(lhs =~= rhs);
            } else {
                assert(kept_joined@.map_values(|l: Vec<char>| l@) =~= sub_new.filter(
                    keep_pred,
                ).map_values(|b: Seq<Seq<char>>| spec_join_sep(b, '\n')));
            }
        }
        k = k + 1;
    }
    proof {
        assert(all_blocks.subrange(0, all_blocks.len() as int) =~= all_blocks);
    }
    let joined = crate::strutil::join_with_sep(&kept_joined, '\n');
    string_from_chars(&joined)
}

/// Route output filtering by the git subcommand that produced it; other
/// commands pass through unfiltered.
pub fn filter_output(output: &str, args: &Vec<String>, config: &AgtConfig) -> (r: String)
    ensures
        ({
            let views = crate::scan::spec_path_views(args@);
            if views.len() > 0 && views[0] == "branch"@ {
                r@ == spec_filter_listing(output@, config.branch_prefix@)
            } else if views.len() > 0 && views[0] == "tag"@ {
                r@ == spec_filter_listing(output@, config.branch_prefix@)
            } else if views.len() > 0 && views[0] == "log"@ {
                r@ == spec_filter_log(output@, config.agent_email@)
            } else {
                r@ == output@
            }
        }),
{
    proof {
        if args@.len() > 0 {
            assert(crate::scan::spec_path_views(args@)[0] == args@[0]@);
        }
    }
    if args.len() > 0 {
        if crate::strutil::str_eq(args[0].as_str(), "branch") {
            return filter_branch_output(output, config);
        }
        if crate::strutil::str_eq(args[0].as_str(), "tag") {
            return filter_tag_output(output, config);
        }
        if crate::strutil::str_eq(args[0].as_str(), "log") {
            return filter_log_output(output, config);
        }
    }
    let ov = chars_of(output);
    string_from_chars(&ov)
}

} // verus!
