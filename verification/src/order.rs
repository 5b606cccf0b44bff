use vstd::prelude::*;
use crate::scan::{spec_path_views, spec_unique, lemma_path_views_push};
use crate::strutil::chars_of;

verus! {

// ---------------------------------------------------------------------------
// Ordering of paths: strict lexicographic order by character code, and an
// insertion sort that pins listing order exactly.
// ---------------------------------------------------------------------------

/// Strict lexicographic order on character sequences, by code point.
pub open spec fn spec_lex_lt(a: Seq<char>, b: Seq<char>) -> bool
    decreases a.len(),
{
    if b.len() == 0 {
        false
    } else if a.len() == 0 {
        true
    } else if (a[0] as u32) < (b[0] as u32) {
        true
    } else if (a[0] as u32) > (b[0] as u32) {
        false
    } else {
        spec_lex_lt(a.drop_first(), b.drop_first())
    }
}

/// Two sequences neither of which precedes the other are equal.
pub proof fn lemma_lex_trichotomy(a: Seq<char>, b: Seq<char>)
    requires
        !spec_lex_lt(a, b),
        !spec_lex_lt(b, a),
    ensures
        a == b,
    decreases a.len(),
{
    if b.len() == 0 {
        if a.len() > 0 {
            assert(spec_lex_lt(b, a));
        }
        assert(a =~= b);
    } else if a.len() == 0 {
        assert(spec_lex_lt(a, b));
    } else {
        assert((a[0] as u32) == (b[0] as u32));
        vstd::utf8::char_u32_cast(a[0], a[0] as u32);
        vstd::utf8::char_u32_cast(b[0], b[0] as u32);
        assert(a[0] == b[0]);
        lemma_lex_trichotomy(a.drop_first(), b.drop_first());
        assert(a =~= seq![a[0]] + a.drop_first());
        assert(b =~= seq![b[0]] + b.drop_first());
    }
}

/// Executable comparison: whether `a` precedes `b`.
pub fn lex_lt_chars(a: &Vec<char>, b: &Vec<char>) -> (r: bool)
    ensures
        r == spec_lex_lt(a@, b@),
{
    let mut i: usize = 0;
    let an: usize = a.len();
    let bn: usize = b.len();
    proof {
        assert(a@.subrange(0, an as int) =~= a@);
        assert(b@.subrange(0, bn as int) =~= b@);
    }
    while i < an && i < bn
        invariant
            an == a@.len(),
            bn == b@.len(),
            i <= an,
            i <= bn,
            spec_lex_lt(a@, b@) == spec_lex_lt(
                a@.subrange(i as int, an as int),
                b@.subrange(i as int, bn as int),
            ),
        decreases an - i,
    {
        proof {
            let sa = a@.subrange(i as int, an as int);
            let sb = b@.subrange(i as int, bn as int);
            assert(sa[0] == a@[i as int]);
            assert(sb[0] == b@[i as int]);
            assert(sa.drop_first() =~= a@.subrange(i as int + 1, an as int));
            assert(sb.drop_first() =~= b@.subrange(i as int + 1, bn as int));
        }
        let ca = a[i] as u32;
        let cb = b[i] as u32;
        if ca < cb {
            return true;
        }
        if ca > cb {
            return false;
        }
        i = i + 1;
    }
    proof {
        let sa = a@.subrange(i as int, an as int);
        let sb = b@.subrange(i as int, bn as int);
        if i < an {
            assert(sb.len() == 0);
            assert(!spec_lex_lt(sa, sb));
        } else if i < bn {
            assert(sa.len() == 0);
            assert(sb.len() > 0);
            assert(spec_lex_lt(sa, sb));
        } else {
            assert(sa.len() == 0 && sb.len() == 0);
            assert(!spec_lex_lt(sa, sb));
        }
    }
    i < bn
}

/// Whether the string `a` precedes the string `b`.
pub fn lex_lt_str(a: &str, b: &str) -> (r: bool)
    ensures
        r == spec_lex_lt(a@, b@),
{
    let av = chars_of(a);
    let bv = chars_of(b);
    lex_lt_chars(&av, &bv)
}

/// Strictly ascending in lexicographic order, adjacent elements compared.
pub open spec fn spec_sorted(s: Seq<Seq<char>>) -> bool {
    forall|i: int| 0 <= i < s.len() - 1 ==> spec_lex_lt(#[trigger] s[i], s[i + 1])
}

/// Sort pairwise-distinct paths into strictly ascending order. The result
/// holds exactly the input's paths: same length, same membership, strictly
/// sorted — which pins the output uniquely.
pub fn sort_path_strings(v: &Vec<String>) -> (r: Vec<String>)
    requires
        spec_unique(spec_path_views(v@)),
    ensures
        r@.len() == v@.len(),
        spec_unique(spec_path_views(r@)),
        spec_sorted(spec_path_views(r@)),
        forall|p: Seq<char>|
            #[trigger] spec_path_views(r@).contains(p) <==> spec_path_views(v@).contains(p),
{
    let mut r: Vec<String> = Vec::new();
    let mut i: usize = 0;
    proof {
        assert(spec_path_views(r@).len() == 0);
    }
    while i < v.len()
        invariant
            spec_unique(spec_path_views(v@)),
            i <= v@.len(),
            r@.len() == i,
            spec_unique(spec_path_views(r@)),
            spec_sorted(spec_path_views(r@)),
            forall|p: Seq<char>|
                #[trigger] spec_path_views(r@).contains(p) <==> spec_path_views(
                    v@.subrange(0, i as int),
                ).contains(p),
        decreases v@.len() - i,
    {
        let s = v[i].clone();
        let ghost sv = v@[i as int]@;
        let ghost old_r = r@;
        let ghost old_views = spec_path_views(r@);
        proof {
            assert(spec_path_views(v@)[i as int] == v@[i as int]@);
            assert(!spec_path_views(v@.subrange(0, i as int)).contains(sv)) by {
                if spec_path_views(v@.subrange(0, i as int)).contains(sv) {
                    let w = choose|w: int|
                        0 <= w < i && spec_path_views(v@.subrange(0, i as int))[w] == sv;
                    assert(spec_path_views(v@.subrange(0, i as int))[w] == v@.subrange(
                        0,
                        i as int,
                    )[w]@);
                    assert(spec_path_views(v@)[w] == v@[w]@);
                    assert(spec_path_views(v@)[w] == spec_path_views(v@)[i as int]);
                }
            }
            assert(!old_views.contains(sv));
        }
        let mut k: usize = 0;
        while k < r.len() && lex_lt_str(r[k].as_str(), s.as_str())
            invariant
                old_views == spec_path_views(r@),
                r@ == old_r,
                sv == s@,
                k <= r@.len(),
                forall|j: int| 0 <= j < k ==> spec_lex_lt(#[trigger] old_views[j], sv),
            decreases r@.len() - k,
        {
            proof {
                assert(old_views[k as int] == r@[k as int]@);
            }
            k = k + 1;
        }
        proof {
            if k < r@.len() {
                assert(old_views[k as int] == r@[k as int]@);
                assert(!spec_lex_lt(old_views[k as int], sv));
                if old_views[k as int] == sv {
                    assert(old_views.contains(sv));
                    assert(false);
                }
                lemma_lex_trichotomy_neg(old_views[k as int], sv);
            }
        }
        r.insert(k, s);
        proof {
            assert(r@ == old_r.insert(k as int, r@[k as int]));
            let new_views = spec_path_views(r@);
            assert(new_views.len() == old_views.len() + 1);
            assert forall|j: int| 0 <= j < new_views.len() implies #[trigger] new_views[j] == (
            if j < k as int {
                old_views[j]
            } else if j == k as int {
                sv
            } else {
                old_views[j - 1]
            }) by {
                assert(new_views[j] == r@[j]@);
                if j < k as int {
                    assert(r@[j] == old_r[j]);
                    assert(old_views[j] == old_r[j]@);
                } else if j > k as int {
                    assert(r@[j] == old_r[j - 1]);
                    assert(old_views[j - 1] == old_r[j - 1]@);
                } else {
                    assert(r@[j]@ == sv);
                }
            }
            // membership
            assert forall|p: Seq<char>| #[trigger] new_views.contains(p) implies (old_views.contains(
                p,
            ) || p == sv) by {
                let w = choose|w: int| 0 <= w < new_views.len() && new_views[w] == p;
                if w < k as int {
                    assert(old_views[w] == p);
                } else if w > k as int {
                    assert(old_views[w - 1] == p);
                }
            }
            assert forall|p: Seq<char>| (old_views.contains(p) || p == sv) implies #[trigger] new_views.contains(
                p,
            ) by {
                if old_views.contains(p) {
                    let w = choose|w: int| 0 <= w < old_views.len() && old_views[w] == p;
                    if w < k as int {
                        assert(new_views[w] == p);
                    } else {
                        assert(new_views[w + 1] == p);
                    }
                } else {
                    assert(new_views[k as int] == sv);
                }
            }
            // uniqueness
            assert forall|x: int, y: int|
                0 <= x < y < new_views.len() implies new_views[x] != new_views[y] by {
                if x != k as int && y != k as int {
                    let xx = if x < k as int {
                        x
                    } else {
                        x - 1
                    };
                    let yy = if y < k as int {
                        y
                    } else {
                        y - 1
                    };
                    assert(new_views[x] == old_views[xx]);
                    assert(new_views[y] == old_views[yy]);
                } else if x == k as int {
                    assert(new_views[x] == sv);
                    assert(new_views[y] == old_views[y - 1]);
                    if new_views[y] == sv {
                        assert(old_views.contains(sv));
                    }
                } else {
                    assert(new_views[y] == sv);
                    assert(new_views[x] == old_views[x]);
                    if new_views[x] == sv {
                        assert(old_views.contains(sv));
                    }
                }
            }
            // sortedness
            assert forall|j: int|
                0 <= j < new_views.len() - 1 implies spec_lex_lt(
                #[trigger] new_views[j],
                new_views[j + 1],
            ) by {
                if j + 1 < k as int {
                    assert(new_views[j] == old_views[j]);
                    assert(new_views[j + 1] == old_views[j + 1]);
                    assert(spec_lex_lt(old_views[j], old_views[j + 1]));
                } else if j + 1 == k as int {
                    assert(new_views[j] == old_views[j]);
                    assert(new_views[j + 1] == sv);
                    assert(spec_lex_lt(old_views[j], sv));
                } else if j == k as int {
                    assert(new_views[j] == sv);
                    assert(new_views[j + 1] == old_views[j]);
                    assert(spec_lex_lt(sv, old_views[j]));
                } else {
                    assert(new_views[j] == old_views[j - 1]);
                    assert(new_views[j + 1] == old_views[j]);
                    assert(spec_lex_lt(old_views[j - 1], old_views[j]));
                }
            }
            // tie the membership to the widened input prefix
            let sub_new = spec_path_views(v@.subrange(0, i as int + 1));
            assert(v@.subrange(0, i as int + 1).drop_last() =~= v@.subrange(0, i as int));
            assert forall|p: Seq<char>| #[trigger] sub_new.contains(p) implies (spec_path_views(
                v@.subrange(0, i as int),
            ).contains(p) || p == sv) by {
                let w = choose|w: int| 0 <= w < sub_new.len() && sub_new[w] == p;
                assert(sub_new[w] == v@.subrange(0, i as int + 1)[w]@);
                if w < i as int {
                    assert(v@.subrange(0, i as int + 1)[w] == v@[w]);
                    assert(spec_path_views(v@.subrange(0, i as int))[w] == v@.subrange(
                        0,
                        i as int,
                    )[w]@);
                } else {
                    assert(v@.subrange(0, i as int + 1)[w] == v@[i as int]);
                }
            }
            assert forall|p: Seq<char>|
                (spec_path_views(v@.subrange(0, i as int)).contains(p) || p == sv)
                    implies #[trigger] sub_new.contains(p) by {
                if spec_path_views(v@.subrange(0, i as int)).contains(p) {
                    let w = choose|w: int|
                        0 <= w < i && spec_path_views(v@.subrange(0, i as int))[w] == p;
                    assert(spec_path_views(v@.subrange(0, i as int))[w] == v@.subrange(
                        0,
                        i as int,
                    )[w]@);
                    assert(sub_new[w] == v@.subrange(0, i as int + 1)[w]@);
                    assert(v@.subrange(0, i as int + 1)[w] == v@[w]);
                    assert(v@.subrange(0, i as int)[w] == v@[w]);
                } else {
                    assert(sub_new[i as int] == v@.subrange(0, i as int + 1)[i as int]@);
                    assert(v@.subrange(0, i as int + 1)[i as int] == v@[i as int]);
                }
            }
        }
        i = i + 1;
    }
    proof {
        assert(v@.subrange(0, v@.len() as int) =~= v@);
    }
    r
}

/// Of two distinct sequences, one precedes the other.
proof fn lemma_lex_trichotomy_neg(a: Seq<char>, b: Seq<char>)
    requires
        !spec_lex_lt(a, b),
        a != b,
    ensures
        spec_lex_lt(b, a),
{
    if !spec_lex_lt(b, a) {
        lemma_lex_trichotomy(a, b);
    }
}

} // verus!
