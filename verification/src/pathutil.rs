use vstd::prelude::*;
use crate::strutil::{
    chars_of, chars_eq, find_char, lemma_spec_find_props, spec_find, spec_join_sep,
    string_from_chars, subvec,
};

verus! {

// ---------------------------------------------------------------------------
// Tree paths: slash-separated relative paths used as keys in git trees.
// Filesystem paths are modelled as their component lists; the join below is
// the single place where a separator is introduced, and it is always `/`.
// ---------------------------------------------------------------------------

/// The components of a path as character sequences.
pub open spec fn spec_views_of(parts: Seq<String>) -> Seq<Seq<char>> {
    parts.map_values(|p: String| p@)
}

/// Convert a relative filesystem path, given by its components, to the
/// tree-path string: components joined by `/`, no leading slash.
pub fn path_for_tree(components: &Vec<String>) -> (r: String)
    ensures
        r@ == spec_join_sep(spec_views_of(components@), '/'),
{
    let mut parts: Vec<Vec<char>> = Vec::new();
    let mut i: usize = 0;
    proof {
        assert(parts@.map_values(|l: Vec<char>| l@) =~= spec_views_of(components@).subrange(
            0,
            0,
        ));
    }
    while i < components.len()
        invariant
            i <= components@.len(),
            parts@.map_values(|l: Vec<char>| l@) == spec_views_of(components@).subrange(
                0,
                i as int,
            ),
        decreases components@.len() - i,
    {
        let ghost before = parts@;
        let cs = chars_of(components[i].as_str());
        parts.push(cs);
        proof {
            assert(parts@ == before.push(cs));
            let m_new = parts@.map_values(|l: Vec<char>| l@);
            let m_old = before.map_values(|l: Vec<char>| l@);
            assert(m_old.len() == before.len());
            assert(before.len() == i as int);
            assert(m_new.len() == before.len() + 1);
            assert forall|j: int| 0 <= j < m_new.len() implies #[trigger] m_new[j]
                == spec_views_of(components@).subrange(0, i as int + 1)[j] by {
                if j < i as int {
                    assert(before.push(cs)[j] == before[j]);
                    assert(m_new[j] == before[j]@);
                    assert(m_old[j] == before[j]@);
                    assert(m_old[j] == spec_views_of(components@).subrange(0, i as int)[j]);
                } else {
                    assert(before.push(cs)[j] == cs);
                    assert(parts@[j] == cs);
                }
            }
            assert(m_new =~= spec_views_of(components@).subrange(0, i as int + 1));
        }
        i = i + 1;
    }
    proof {
        assert(spec_views_of(components@).subrange(0, components@.len() as int) =~= spec_views_of(
            components@,
        ));
    }
    let joined = crate::strutil::join_with_sep(&parts, '/');
    string_from_chars(&joined)
}

/// The segments of `s` around every occurrence of `sep`; an empty text has
/// one empty segment, as `str::split` reports it.
pub open spec fn spec_split_all(s: Seq<char>, sep: char) -> Seq<Seq<char>>
    decreases s.len(),
    via spec_split_all_dec
{
    match spec_find(s, sep) {
        Some(i) => seq![s.subrange(0, i)] + spec_split_all(s.subrange(i + 1, s.len() as int), sep),
        None => seq![s],
    }
}

#[via_fn]
proof fn spec_split_all_dec(s: Seq<char>, sep: char) {
    lemma_spec_find_props(s, sep);
}

/// The `/`-separated components of a tree path.
pub open spec fn spec_path_components(s: Seq<char>) -> Seq<Seq<char>> {
    spec_split_all(s, '/')
}

/// Split `v` at every occurrence of `sep`.
pub fn split_all_chars(v: &Vec<char>, sep: char) -> (r: Vec<Vec<char>>)
    ensures
        r@.map_values(|l: Vec<char>| l@) == spec_split_all(v@, sep),
    decreases v@.len(),
{
    proof {
        lemma_spec_find_props(v@, sep);
    }
    match find_char(v, sep) {
        Some(i) => {
            let n: usize = v.len();
            proof {
                assert(spec_find(v@, sep) == Some(i as int));
                assert((i as int) < v@.len());
            }
            let first = subvec(v, 0, i);
            let rest = subvec(v, i + 1, n);
            let mut r = split_all_chars(&rest, sep);
            let ghost tail_snapshot = r@;
            r.insert(0, first);
            proof {
                let i_s = i as int;
                let rest_s = v@.subrange(i_s + 1, v@.len() as int);
                let split_v = spec_split_all(v@, sep);
                let split_r = spec_split_all(rest_s, sep);
                assert(split_v == seq![v@.subrange(0, i_s)] + split_r);
                assert(r@ == tail_snapshot.insert(0, first));
                assert(rest@ == rest_s);
                assert(tail_snapshot.map_values(|l: Vec<char>| l@) == split_r);
                assert(tail_snapshot.len() == split_r.len());
                let mapped = r@.map_values(|l: Vec<char>| l@);
                assert forall|j: int| 0 <= j < r@.len() implies #[trigger] mapped[j] == split_v[j]
                    by {
                    if j == 0 {
                        assert(r@[0]@ == v@.subrange(0, i_s));
                    } else {
                        assert(r@[j] == tail_snapshot[j - 1]);
                        assert(tail_snapshot.map_values(|l: Vec<char>| l@)[j - 1] == split_r[j
                            - 1]);
                    }
                }
                assert(mapped =~= split_v);
            }
            r
        },
        None => {
            let only = subvec(v, 0, v.len());
            let mut r: Vec<Vec<char>> = Vec::new();
            r.push(only);
            proof {
                assert(v@.subrange(0, v@.len() as int) =~= v@);
                assert(r@.map_values(|l: Vec<char>| l@) =~= spec_split_all(v@, sep));
            }
            r
        },
    }
}

/// The `.git` directory name, as a character sequence.
pub open spec fn spec_dotgit() -> Seq<char> {
    seq!['.', 'g', 'i', 't']
}

/// Whether any `/`-separated component of the path equals `.git`.
pub open spec fn spec_has_dotgit_component(p: Seq<char>) -> bool {
    exists|i: int|
        0 <= i < spec_path_components(p).len() && #[trigger] spec_path_components(p)[i]
            == spec_dotgit()
}

/// Whether some component of the relative path names a `.git` directory;
/// such entries are never part of a snapshot.
pub fn has_dotgit_component(path: &str) -> (r: bool)
    ensures
        r == spec_has_dotgit_component(path@),
{
    let v = chars_of(path);
    let comps = split_all_chars(&v, '/');
    let mut dotgit: Vec<char> = Vec::new();
    dotgit.push('.');
    dotgit.push('g');
    dotgit.push('i');
    dotgit.push('t');
    proof {
        assert(dotgit@ =~= spec_dotgit());
    }
    let mut i: usize = 0;
    while i < comps.len()
        invariant
            dotgit@ == spec_dotgit(),
            comps@.map_values(|l: Vec<char>| l@) == spec_path_components(path@),
            i <= comps@.len(),
            forall|j: int|
                0 <= j < i ==> #[trigger] spec_path_components(path@)[j] != spec_dotgit(),
        decreases comps@.len() - i,
    {
        if chars_eq(&comps[i], &dotgit) {
            proof {
                assert(spec_path_components(path@)[i as int] == comps@[i as int]@);
            }
            return true;
        }
        proof {
            assert(spec_path_components(path@)[i as int] == comps@[i as int]@);
        }
        i = i + 1;
    }
    false
}

/// Whether the component list `child` extends (or equals) `parent`; used
/// to test whether a directory lies at or below another.
pub open spec fn spec_component_prefix(parent: Seq<Seq<char>>, child: Seq<Seq<char>>) -> bool {
    parent.len() <= child.len() && child.subrange(0, parent.len() as int) == parent
}

/// Whether the path `child` equals `parent` or lies below it, comparing
/// whole `/`-separated components.
pub fn path_is_within(child: &str, parent: &str) -> (r: bool)
    ensures
        r == spec_component_prefix(
            spec_path_components(parent@),
            spec_path_components(child@),
        ),
{
    let cv = chars_of(child);
    let pv = chars_of(parent);
    let cc = split_all_chars(&cv, '/');
    let pc = split_all_chars(&pv, '/');
    let ghost cs = spec_path_components(child@);
    let ghost ps = spec_path_components(parent@);
    if pc.len() > cc.len() {
        proof {
            assert(pc@.map_values(|l: Vec<char>| l@).len() == pc@.len());
            assert(cc@.map_values(|l: Vec<char>| l@).len() == cc@.len());
        }
        return false;
    }
    proof {
        assert(pc@.map_values(|l: Vec<char>| l@).len() == pc@.len());
        assert(cc@.map_values(|l: Vec<char>| l@).len() == cc@.len());
    }
    let mut i: usize = 0;
    while i < pc.len()
        invariant
            cs == spec_path_components(child@),
            ps == spec_path_components(parent@),
            cc@.map_values(|l: Vec<char>| l@) == cs,
            pc@.map_values(|l: Vec<char>| l@) == ps,
            ps.len() <= cs.len(),
            i <= ps.len(),
            forall|j: int| 0 <= j < i ==> cs[j] == ps[j],
        decreases pc@.len() - i,
    {
        if !chars_eq(&cc[i], &pc[i]) {
            proof {
                assert(cs[i as int] == cc@[i as int]@);
                assert(ps[i as int] == pc@[i as int]@);
                assert(cs[i as int] != ps[i as int]);
                assert(!spec_component_prefix(ps, cs)) by {
                    if spec_component_prefix(ps, cs) {
                        assert(cs.subrange(0, ps.len() as int)[i as int] == ps[i as int]);
                        assert(cs.subrange(0, ps.len() as int)[i as int] == cs[i as int]);
                    }
                }
            }
            return false;
        }
        proof {
            assert(cs[i as int] == cc@[i as int]@);
            assert(ps[i as int] == pc@[i as int]@);
        }
        i = i + 1;
    }
    proof {
        assert(cs.subrange(0, ps.len() as int) =~= ps);
    }
    true
}

/// Tree paths never pick up a backslash from the join: if no component
/// holds one, the joined path holds none.
pub proof fn lemma_join_introduces_no_backslash(parts: Seq<Seq<char>>)
    requires
        forall|i: int| 0 <= i < parts.len() ==> !#[trigger] parts[i].contains('\\'),
    ensures
        !spec_join_sep(parts, '/').contains('\\'),
    decreases parts.len(),
{
    if parts.len() == 0 {
    } else if parts.len() == 1 {
        assert(!parts[0].contains('\\'));
    } else {
        assert forall|i: int| 0 <= i < parts.drop_first().len() implies !#[trigger] parts.drop_first()[i].contains('\\') by {
            assert(parts.drop_first()[i] == parts[i + 1]);
        }
        lemma_join_introduces_no_backslash(parts.drop_first());
        let joined = spec_join_sep(parts, '/');
        let tail = spec_join_sep(parts.drop_first(), '/');
        assert(joined == parts[0] + seq!['/'] + tail);
        assert forall|k: int| 0 <= k < joined.len() implies joined[k] != '\\' by {
            if k < parts[0].len() {
                assert(joined[k] == parts[0][k]);
                assert(!parts[0].contains('\\'));
            } else if k == parts[0].len() {
                assert(joined[k] == '/');
            } else {
                assert(joined[k] == tail[k - parts[0].len() - 1]);
                assert(!tail.contains('\\'));
            }
        }
        if joined.contains('\\') {
            let w = choose|k: int| 0 <= k < joined.len() && joined[k] == '\\';
            assert(joined[w] != '\\');
        }
    }
}

} // verus!
