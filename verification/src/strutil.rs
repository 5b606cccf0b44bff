use vstd::prelude::*;

verus! {

// ---------------------------------------------------------------------------
// Spec-level string helpers. Executable text handling in this crate works on
// `Vec<char>`, whose view lines up with the `Seq<char>` view of `str`.
// ---------------------------------------------------------------------------

/// Whitespace recognised when a configuration line is trimmed.
pub open spec fn is_space_char(c: char) -> bool {
    c == ' ' || c == '\t' || c == '\r' || c == '\n'
}

pub open spec fn spec_trim_start(s: Seq<char>) -> Seq<char>
    decreases s.len(),
{
    if s.len() > 0 && is_space_char(s[0]) {
        spec_trim_start(s.drop_first())
    } else {
        s
    }
}

pub open spec fn spec_trim_end(s: Seq<char>) -> Seq<char>
    decreases s.len(),
{
    if s.len() > 0 && is_space_char(s[s.len() - 1]) {
        spec_trim_end(s.drop_last())
    } else {
        s
    }
}

/// Leading and trailing whitespace removed.
pub open spec fn spec_trim(s: Seq<char>) -> Seq<char> {
    spec_trim_end(spec_trim_start(s))
}

/// Index of the first occurrence of `c` in `s`, if any.
pub open spec fn spec_find(s: Seq<char>, c: char) -> Option<int>
    decreases s.len(),
{
    if s.len() == 0 {
        None
    } else if s[0] == c {
        Some(0int)
    } else {
        match spec_find(s.drop_first(), c) {
            Some(i) => Some(i + 1),
            None => None,
        }
    }
}

/// `pat` occurs as a contiguous subsequence of `s`.
pub open spec fn spec_contains_seq(s: Seq<char>, pat: Seq<char>) -> bool {
    exists|i: int|
        0 <= i && i + pat.len() <= s.len() && #[trigger] s.subrange(i, i + pat.len() as int)
            == pat
}

pub proof fn lemma_spec_find_props(s: Seq<char>, c: char)
    ensures
        match spec_find(s, c) {
            Some(i) => 0 <= i < s.len() && s[i] == c && forall|j: int| 0 <= j < i ==> s[j] != c,
            None => forall|j: int| 0 <= j < s.len() ==> s[j] != c,
        },
    decreases s.len(),
{
    if s.len() > 0 && s[0] != c {
        lemma_spec_find_props(s.drop_first(), c);
        match spec_find(s.drop_first(), c) {
            Some(i) => {
                assert(s.drop_first()[i] == s[i + 1]);
                assert forall|j: int| 0 <= j < i + 1 implies s[j] != c by {
                    if j > 0 {
                        assert(s.drop_first()[j - 1] == s[j]);
                    }
                }
            },
            None => {
                assert forall|j: int| 0 <= j < s.len() implies s[j] != c by {
                    if j > 0 {
                        assert(s.drop_first()[j - 1] == s[j]);
                    }
                }
            },
        }
    }
}

// ---------------------------------------------------------------------------
// Conversions between `str`/`String` and `Vec<char>`.
// ---------------------------------------------------------------------------

/// Relies on `String::push`: appends exactly the one character.
#[verifier::external_body]
pub fn push_char(s: &mut String, c: char)
    ensures
        final(s)@ == old(s)@.push(c),
{
    s.push(c);
}

/// The characters of `s`, in order.
pub fn chars_of(s: &str) -> (r: Vec<char>)
    ensures
        r@ == s@,
{
    let n: usize = s.unicode_len();
    let mut r: Vec<char> = Vec::new();
    let mut i: usize = 0;
    while i < n
        invariant
            n == s@.len(),
            i <= n,
            r@ == s@.subrange(0, i as int),
        decreases n - i,
    {
        let c = s.get_char(i);
        r.push(c);
        i = i + 1;
        proof {
            assert(r@ =~= s@.subrange(0, i as int));
        }
    }
    proof {
        assert(r@ =~= s@);
    }
    r
}

/// A `String` with exactly the characters of `v`.
pub fn string_from_chars(v: &Vec<char>) -> (r: String)
    ensures
        r@ == v@,
{
    let mut r = String::new();
    let mut i: usize = 0;
    while i < v.len()
        invariant
            i <= v@.len(),
            r@ == v@.subrange(0, i as int),
        decreases v@.len() - i,
    {
        push_char(&mut r, v[i]);
        i = i + 1;
        proof {
            assert(r@ =~= v@.subrange(0, i as int));
        }
    }
    proof {
        assert(r@ =~= v@);
    }
    r
}

// ---------------------------------------------------------------------------
// Executable helpers over `Vec<char>`, each tied to its spec counterpart.
// ---------------------------------------------------------------------------

/// The two strings joined.
pub fn str_concat(a: &str, b: &str) -> (r: String)
    ensures
        r@ == a@ + b@,
{
    let mut r = string_from_chars(&chars_of(a));
    let bv = chars_of(b);
    let mut i: usize = 0;
    proof {
        assert(r@ =~= a@ + bv@.subrange(0, 0));
    }
    while i < bv.len()
        invariant
            bv@ == b@,
            i <= bv@.len(),
            r@ == a@ + bv@.subrange(0, i as int),
        decreases bv@.len() - i,
    {
        push_char(&mut r, bv[i]);
        i = i + 1;
        proof {
            assert(r@ =~= a@ + bv@.subrange(0, i as int));
        }
    }
    proof {
        assert(bv@.subrange(0, bv@.len() as int) =~= bv@);
    }
    r
}

/// A copy of `v[from..to]`.
pub fn subvec(v: &Vec<char>, from: usize, to: usize) -> (r: Vec<char>)
    requires
        from <= to <= v@.len(),
    ensures
        r@ == v@.subrange(from as int, to as int),
{
    let mut r: Vec<char> = Vec::new();
    let mut i: usize = from;
    while i < to
        invariant
            from <= i <= to <= v@.len(),
            r@ == v@.subrange(from as int, i as int),
        decreases to - i,
    {
        r.push(v[i]);
        i = i + 1;
        proof {
            assert(r@ =~= v@.subrange(from as int, i as int));
        }
    }
    r
}

/// Whether the character sequences are equal.
pub fn chars_eq(a: &Vec<char>, b: &Vec<char>) -> (r: bool)
    ensures
        r == (a@ == b@),
{
    if a.len() != b.len() {
        return false;
    }
    let mut i: usize = 0;
    while i < a.len()
        invariant
            a@.len() == b@.len(),
            i <= a@.len(),
            forall|j: int| 0 <= j < i ==> a@[j] == b@[j],
        decreases a@.len() - i,
    {
        if a[i] != b[i] {
            return false;
        }
        i = i + 1;
    }
    proof {
        assert(a@ =~= b@);
    }
    true
}

/// Whether `v` and the string `s` hold the same characters.
pub fn chars_eq_str(v: &Vec<char>, s: &str) -> (r: bool)
    ensures
        r == (v@ == s@),
{
    let w = chars_of(s);
    chars_eq(v, &w)
}

/// Whether the strings are equal as character sequences.
pub fn str_eq(a: &str, b: &str) -> (r: bool)
    ensures
        r == (a@ == b@),
{
    let va = chars_of(a);
    chars_eq_str(&va, b)
}

/// First occurrence of `c` in `v`.
pub fn find_char(v: &Vec<char>, c: char) -> (r: Option<usize>)
    ensures
        match r {
            Some(i) => spec_find(v@, c) == Some(i as int),
            None => spec_find(v@, c) == None::<int>,
        },
{
    let mut i: usize = 0;
    while i < v.len()
        invariant
            i <= v@.len(),
            forall|j: int| 0 <= j < i ==> v@[j] != c,
        decreases v@.len() - i,
    {
        if v[i] == c {
            proof {
                lemma_find_from_witness(v@, c, i as int);
            }
            return Some(i);
        }
        i = i + 1;
    }
    proof {
        lemma_spec_find_props(v@, c);
        if spec_find(v@, c) is Some {
            let w = spec_find(v@, c)->Some_0;
            assert(v@[w] == c);
        }
    }
    None
}

proof fn lemma_find_from_witness(s: Seq<char>, c: char, i: int)
    requires
        0 <= i < s.len(),
        s[i] == c,
        forall|j: int| 0 <= j < i ==> s[j] != c,
    ensures
        spec_find(s, c) == Some(i),
    decreases s.len(),
{
    if i > 0 {
        assert forall|j: int| 0 <= j < i - 1 implies s.drop_first()[j] != c by {
            assert(s.drop_first()[j] == s[j + 1]);
        }
        assert(s.drop_first()[i - 1] == c);
        lemma_find_from_witness(s.drop_first(), c, i - 1);
    }
}

/// Whether `v` starts with `p`.
pub fn starts_with_chars(v: &Vec<char>, p: &Vec<char>) -> (r: bool)
    ensures
        r == (v@.len() >= p@.len() && v@.subrange(0, p@.len() as int) == p@),
{
    if v.len() < p.len() {
        return false;
    }
    let head = subvec(v, 0, p.len());
    chars_eq(&head, p)
}

/// Whether `pat` occurs anywhere in `v`.
pub fn contains_chars(v: &Vec<char>, pat: &Vec<char>) -> (r: bool)
    ensures
        r == spec_contains_seq(v@, pat@),
{
    if pat.len() > v.len() {
        proof {
            assert(!spec_contains_seq(v@, pat@));
        }
        return false;
    }
    if pat.len() == 0 {
        proof {
            assert(spec_contains_seq(v@, pat@)) by {
                assert(v@.subrange(0, 0 + pat@.len() as int) =~= pat@);
            }
        }
        return true;
    }
    let mut i: usize = 0;
    let n: usize = v.len();
    let pl: usize = pat.len();
    let last: usize = n - pl;
    while i <= last
        invariant
            1 <= pat@.len() <= v@.len(),
            n == v@.len(),
            pl == pat@.len(),
            last == v@.len() - pat@.len(),
            i <= last + 1,
            forall|k: int|
                0 <= k < i ==> #[trigger] v@.subrange(k, k + pat@.len() as int) != pat@,
        decreases last + 1 - i,
    {
        let window = subvec(v, i, i + pl);
        if chars_eq(&window, pat) {
            return true;
        }
        i = i + 1;
    }
    proof {
        assert forall|k: int| 0 <= k && k + pat@.len() <= v@.len() implies #[trigger] v@.subrange(
            k,
            k + pat@.len() as int,
        ) != pat@ by {
            assert(k < i);
        }
    }
    false
}

/// `v` with leading and trailing whitespace removed.
pub fn trim_chars(v: &Vec<char>) -> (r: Vec<char>)
    ensures
        r@ == spec_trim(v@),
{
    let n: usize = v.len();
    proof {
        assert(v@.subrange(0, n as int) =~= v@);
    }
    let mut start: usize = 0;
    while start < n && is_space_exec(v[start])
        invariant
            n == v@.len(),
            start <= n,
            spec_trim_start(v@) == spec_trim_start(v@.subrange(start as int, n as int)),
        decreases n - start,
    {
        proof {
            let s = v@.subrange(start as int, n as int);
            assert(s.len() > 0);
            assert(s[0] == v@[start as int]);
            assert(s.drop_first() =~= v@.subrange(start as int + 1, n as int));
        }
        start = start + 1;
    }
    proof {
        let s = v@.subrange(start as int, n as int);
        if s.len() > 0 {
            assert(s[0] == v@[start as int]);
        }
        assert(spec_trim_start(s) == s);
        assert(spec_trim_start(v@) == v@.subrange(start as int, n as int));
    }
    let mut stop: usize = n;
    while stop > start && is_space_exec(v[stop - 1])
        invariant
            n == v@.len(),
            start <= stop <= n,
            spec_trim_start(v@) == v@.subrange(start as int, n as int),
            spec_trim_end(v@.subrange(start as int, n as int)) == spec_trim_end(
                v@.subrange(start as int, stop as int),
            ),
        decreases stop,
    {
        proof {
            let s = v@.subrange(start as int, stop as int);
            assert(s[s.len() - 1] == v@[stop as int - 1]);
            assert(s.drop_last() =~= v@.subrange(start as int, stop as int - 1));
        }
        stop = stop - 1;
    }
    proof {
        let s = v@.subrange(start as int, stop as int);
        if s.len() > 0 {
            assert(s[s.len() - 1] == v@[stop as int - 1]);
        }
        assert(spec_trim_end(s) == s);
        assert(spec_trim(v@) == v@.subrange(start as int, stop as int));
    }
    subvec(v, start, stop)
}

/// Executable counterpart of `is_space_char`.
pub fn is_space_exec(c: char) -> (r: bool)
    ensures
        r == is_space_char(c),
{
    c == ' ' || c == '\t' || c == '\r' || c == '\n'
}

// ---------------------------------------------------------------------------
// Splitting into lines and joining again, as `str::lines` and a `'\n'` join.
// ---------------------------------------------------------------------------

/// One trailing carriage return removed, as `str::lines` does per line.
pub open spec fn spec_strip_cr(l: Seq<char>) -> Seq<char> {
    if l.len() > 0 && l[l.len() - 1] == '\r' {
        l.drop_last()
    } else {
        l
    }
}

/// The segments of `s` between newline characters; a final empty segment
/// (after a trailing newline, or of an empty text) is not reported.
pub open spec fn spec_split_nl(s: Seq<char>) -> Seq<Seq<char>>
    decreases s.len(),
    via spec_split_nl_dec
{
    match spec_find(s, '\n') {
        Some(i) => seq![s.subrange(0, i)] + spec_split_nl(
            s.subrange(i + 1, s.len() as int),
        ),
        None => if s.len() == 0 {
            seq![]
        } else {
            seq![s]
        },
    }
}

#[via_fn]
proof fn spec_split_nl_dec(s: Seq<char>) {
    lemma_spec_find_props(s, '\n');
}

/// The lines of `s`, with per-line carriage returns stripped.
pub open spec fn spec_lines(s: Seq<char>) -> Seq<Seq<char>> {
    spec_split_nl(s).map_values(|l: Seq<char>| spec_strip_cr(l))
}

/// The sequences of `parts` joined with the separator `sep`.
pub open spec fn spec_join_sep(parts: Seq<Seq<char>>, sep: char) -> Seq<char>
    decreases parts.len(),
{
    if parts.len() == 0 {
        seq![]
    } else if parts.len() == 1 {
        parts[0]
    } else {
        parts[0] + seq![sep] + spec_join_sep(parts.drop_first(), sep)
    }
}

/// Split `v` at newlines, as `str::lines` would.
pub fn split_lines(v: &Vec<char>) -> (r: Vec<Vec<char>>)
    ensures
        r@.map_values(|l: Vec<char>| l@) == spec_lines(v@),
    decreases v@.len(),
{
    proof {
        lemma_spec_find_props(v@, '\n');
    }
    match find_char(v, '\n') {
        Some(i) => {
            let n: usize = v.len();
            proof {
                assert(spec_find(v@, '\n') == Some(i as int));
                assert((i as int) < v@.len());
            }
            let first_raw = subvec(v, 0, i);
            let first = strip_cr(&first_raw);
            let rest = subvec(v, i + 1, n);
            let mut r = split_lines(&rest);
            let ghost tail_snapshot = r@;
            r.insert(0, first);
            proof {
                assert(r@ == tail_snapshot.insert(0, first));
                assert forall|j: int| 1 <= j < r@.len() implies r@[j] == tail_snapshot[j - 1] by {
                }
                let i_s = i as int;
                let rest_s = v@.subrange(i_s + 1, v@.len() as int);
                let split_v = spec_split_nl(v@);
                let split_r = spec_split_nl(rest_s);
                assert(split_v == seq![v@.subrange(0, i_s)] + split_r);
                assert(split_v.len() == 1 + split_r.len());
                assert(rest@ == rest_s);
                assert(tail_snapshot.map_values(|l: Vec<char>| l@) == spec_lines(rest_s));
                assert(tail_snapshot.len() == spec_lines(rest_s).len());
                assert(spec_lines(rest_s).len() == split_r.len());
                assert(r@.len() == tail_snapshot.len() + 1);
                assert(r@.len() == split_v.len());
                let mapped = r@.map_values(|l: Vec<char>| l@);
                assert forall|j: int| 0 <= j < r@.len() implies #[trigger] mapped[j] == spec_lines(
                    v@,
                )[j] by {
                    assert(spec_lines(v@)[j] == spec_strip_cr(split_v[j]));
                    if j == 0 {
                        assert(r@[0]@ == spec_strip_cr(v@.subrange(0, i_s)));
                        assert(split_v[0] == v@.subrange(0, i_s));
                    } else {
                        assert(r@[j] == tail_snapshot[j - 1]);
                        assert(tail_snapshot.map_values(|l: Vec<char>| l@)[j - 1] == spec_lines(
                            rest_s,
                        )[j - 1]);
                        assert(split_v[j] == split_r[j - 1]);
                        assert(spec_lines(rest_s)[j - 1] == spec_strip_cr(split_r[j - 1]));
                    }
                }
                assert(mapped =~= spec_lines(v@));
            }
            r
        },
        None => {
            if v.len() == 0 {
                let r: Vec<Vec<char>> = Vec::new();
                proof {
                    assert(r@.map_values(|l: Vec<char>| l@) =~= spec_lines(v@));
                }
                r
            } else {
                let line = strip_cr(v);
                let mut r: Vec<Vec<char>> = Vec::new();
                r.push(line);
                proof {
                    assert(r@.map_values(|l: Vec<char>| l@) =~= spec_lines(v@));
                }
                r
            }
        },
    }
}

/// A copy of line `k` of `lines`.
fn copy_line(lines: &Vec<Vec<char>>, k: usize) -> (r: Vec<char>)
    requires
        k < lines@.len(),
    ensures
        r@ == lines@[k as int]@,
{
    let mut r: Vec<char> = Vec::new();
    let line = &lines[k];
    let mut i: usize = 0;
    while i < line.len()
        invariant
            line@ == lines@[k as int]@,
            i <= line@.len(),
            r@ == line@.subrange(0, i as int),
        decreases line@.len() - i,
    {
        r.push(line[i]);
        i = i + 1;
        proof {
            assert(r@ =~= line@.subrange(0, i as int));
        }
    }
    proof {
        assert(r@ =~= line@);
    }
    r
}

/// `l` with one trailing carriage return removed.
fn strip_cr(l: &Vec<char>) -> (r: Vec<char>)
    ensures
        r@ == spec_strip_cr(l@),
{
    if l.len() > 0 && l[l.len() - 1] == '\r' {
        let r = subvec(l, 0, l.len() - 1);
        proof {
            assert(l@.drop_last() =~= l@.subrange(0, l@.len() - 1));
        }
        r
    } else {
        let r = subvec(l, 0, l.len());
        proof {
            assert(l@.subrange(0, l@.len() as int) =~= l@);
        }
        r
    }
}

/// Join `parts` with the separator `sep`.
pub fn join_with_sep(parts: &Vec<Vec<char>>, sep: char) -> (r: Vec<char>)
    ensures
        r@ == spec_join_sep(parts@.map_values(|l: Vec<char>| l@), sep),
    decreases parts@.len(),
{
    if parts.len() == 0 {
        let r: Vec<char> = Vec::new();
        proof {
            assert(r@ =~= spec_join_sep(parts@.map_values(|l: Vec<char>| l@), sep));
        }
        r
    } else {
        let mut r = copy_line(parts, 0);
        let mut k: usize = 1;
        while k < parts.len()
            invariant
                1 <= k <= parts@.len(),
                r@ == spec_join_sep(
                    parts@.subrange(0, k as int).map_values(|l: Vec<char>| l@),
                    sep,
                ),
            decreases parts@.len() - k,
        {
            r.push(sep);
            let line = copy_line(parts, k);
            let mut i: usize = 0;
            while i < line.len()
                invariant
                    line@ == parts@[k as int]@,
                    i <= line@.len(),
                    r@ == spec_join_sep(
                        parts@.subrange(0, k as int).map_values(|l: Vec<char>| l@),
                        sep,
                    ) + seq![sep] + line@.subrange(0, i as int),
                decreases line@.len() - i,
            {
                r.push(line[i]);
                i = i + 1;
                proof {
                    assert(r@ =~= spec_join_sep(
                        parts@.subrange(0, k as int).map_values(|l: Vec<char>| l@),
                        sep,
                    ) + seq![sep] + line@.subrange(0, i as int));
                }
            }
            k = k + 1;
            proof {
                assert(line@.subrange(0, line@.len() as int) =~= line@);
                lemma_join_snoc(parts@.subrange(0, k as int).map_values(|l: Vec<char>| l@), sep);
                assert(parts@.subrange(0, k as int).map_values(|l: Vec<char>| l@).drop_last()
                    =~= parts@.subrange(0, k as int - 1).map_values(|l: Vec<char>| l@));
                assert(parts@.subrange(0, k as int).map_values(|l: Vec<char>| l@).last() == parts@[k
                    as int - 1]@);
            }
        }
        proof {
            assert(parts@.subrange(0, parts@.len() as int) =~= parts@);
        }
        r
    }
}

/// Joining `parts.push(last)` appends a separator and `last` (when `parts`
/// is non-empty).
proof fn lemma_join_snoc(parts: Seq<Seq<char>>, sep: char)
    requires
        parts.len() >= 2,
    ensures
        spec_join_sep(parts, sep) == spec_join_sep(parts.drop_last(), sep) + seq![sep]
            + parts.last(),
    decreases parts.len(),
{
    if parts.len() == 2 {
        assert(parts.drop_first().len() == 1);
        assert(parts.drop_first()[0] == parts[1]);
        assert(parts.drop_last().len() == 1);
        assert(parts.drop_last()[0] == parts[0]);
        assert(spec_join_sep(parts.drop_first(), sep) == parts[1]);
        assert(spec_join_sep(parts.drop_last(), sep) == parts[0]);
        assert(spec_join_sep(parts, sep) =~= spec_join_sep(parts.drop_last(), sep) + seq![sep]
            + parts.last());
    } else {
        lemma_join_snoc(parts.drop_first(), sep);
        assert(parts.drop_first().drop_last() =~= parts.drop_last().drop_first());
        assert(parts.drop_first().last() == parts.last());
        assert(parts.drop_last()[0] == parts[0]);
        assert(parts.drop_last().len() >= 2);
        assert(spec_join_sep(parts.drop_last(), sep) == parts[0] + seq![sep] + spec_join_sep(
            parts.drop_last().drop_first(),
            sep,
        ));
        assert(spec_join_sep(parts, sep) =~= spec_join_sep(parts.drop_last(), sep) + seq![sep]
            + parts.last());
    }
}

// ---------------------------------------------------------------------------
// Decimal rendering and parsing of unsigned integers.
// ---------------------------------------------------------------------------

/// The decimal digit character for a value below ten.
pub open spec fn spec_digit_char(d: int) -> char {
    if d == 0 {
        '0'
    } else if d == 1 {
        '1'
    } else if d == 2 {
        '2'
    } else if d == 3 {
        '3'
    } else if d == 4 {
        '4'
    } else if d == 5 {
        '5'
    } else if d == 6 {
        '6'
    } else if d == 7 {
        '7'
    } else if d == 8 {
        '8'
    } else {
        '9'
    }
}

/// The decimal rendering of `n`, most significant digit first.
pub open spec fn spec_u64_dec(n: int) -> Seq<char>
    decreases n,
{
    if n <= 0 {
        seq![]
    } else {
        spec_u64_dec(n / 10) + seq![spec_digit_char(n % 10)]
    }
}

/// The decimal text of `n`: its digits, or `"0"` for zero.
pub open spec fn spec_u64_string(n: int) -> Seq<char> {
    if n == 0 {
        seq!['0']
    } else {
        spec_u64_dec(n)
    }
}

fn digit_char(d: u64) -> (r: char)
    requires
        d < 10,
    ensures
        r == spec_digit_char(d as int),
{
    if d == 0 {
        '0'
    } else if d == 1 {
        '1'
    } else if d == 2 {
        '2'
    } else if d == 3 {
        '3'
    } else if d == 4 {
        '4'
    } else if d == 5 {
        '5'
    } else if d == 6 {
        '6'
    } else if d == 7 {
        '7'
    } else if d == 8 {
        '8'
    } else {
        '9'
    }
}

/// Render `n` in decimal.
pub fn u64_to_dec_chars(n: u64) -> (r: Vec<char>)
    ensures
        r@ == spec_u64_string(n as int),
{
    if n == 0 {
        let mut r: Vec<char> = Vec::new();
        r.push('0');
        proof {
            assert(r@ =~= spec_u64_string(0));
        }
        return r;
    }
    let mut digits_rev: Vec<char> = Vec::new();
    let mut m: u64 = n;
    proof {
        assert(spec_u64_dec(n as int) =~= spec_u64_dec(n as int) + digits_rev@.reverse());
    }
    while m > 0
        invariant
            spec_u64_dec(n as int) == spec_u64_dec(m as int) + digits_rev@.reverse(),
        decreases m,
    {
        let ghost old_m = m as int;
        let ghost old_digits = digits_rev@;
        let d = m % 10;
        digits_rev.push(digit_char(d));
        m = m / 10;
        proof {
            assert(digits_rev@.reverse() =~= seq![spec_digit_char(old_m % 10)]
                + old_digits.reverse());
            assert(spec_u64_dec(old_m) == spec_u64_dec(old_m / 10) + seq![
                spec_digit_char(old_m % 10),
            ]);
            assert(spec_u64_dec(n as int) =~= spec_u64_dec(m as int) + digits_rev@.reverse());
        }
    }
    proof {
        assert(spec_u64_dec(0) =~= Seq::<char>::empty());
        assert(spec_u64_dec(n as int) =~= digits_rev@.reverse());
    }
    let mut r: Vec<char> = Vec::new();
    let mut i: usize = digits_rev.len();
    proof {
        assert(r@ =~= digits_rev@.subrange(i as int, digits_rev@.len() as int).reverse());
    }
    while i > 0
        invariant
            i <= digits_rev@.len(),
            r@ == digits_rev@.subrange(i as int, digits_rev@.len() as int).reverse(),
        decreases i,
    {
        i = i - 1;
        r.push(digits_rev[i]);
        proof {
            assert(r@ =~= digits_rev@.subrange(i as int, digits_rev@.len() as int).reverse());
        }
    }
    proof {
        assert(digits_rev@.subrange(0, digits_rev@.len() as int) =~= digits_rev@);
        assert(r@ =~= spec_u64_string(n as int));
    }
    r
}

/// The numeric value of a decimal digit character, if it is one.
pub open spec fn spec_digit_val(c: char) -> Option<int> {
    if c == '0' {
        Some(0int)
    } else if c == '1' {
        Some(1int)
    } else if c == '2' {
        Some(2int)
    } else if c == '3' {
        Some(3int)
    } else if c == '4' {
        Some(4int)
    } else if c == '5' {
        Some(5int)
    } else if c == '6' {
        Some(6int)
    } else if c == '7' {
        Some(7int)
    } else if c == '8' {
        Some(8int)
    } else if c == '9' {
        Some(9int)
    } else {
        None
    }
}

/// Whether every character of `s` is a decimal digit and `s` is non-empty.
pub open spec fn spec_all_digits(s: Seq<char>) -> bool {
    s.len() > 0 && forall|i: int| 0 <= i < s.len() ==> spec_digit_val(s[i]) is Some
}

/// The digit value of `c`, or zero for a non-digit.
pub open spec fn spec_digit_or_zero(c: char) -> int {
    match spec_digit_val(c) {
        Some(d) => d,
        None => 0,
    }
}

/// The value of the digit string `s`, most significant digit first.
pub open spec fn spec_dec_value(s: Seq<char>) -> int
    decreases s.len(),
{
    if s.len() == 0 {
        0
    } else {
        spec_dec_value(s.drop_last()) * 10 + spec_digit_or_zero(s.last())
    }
}

/// Decimal values are never negative.
pub proof fn lemma_dec_value_nonneg(s: Seq<char>)
    ensures
        spec_dec_value(s) >= 0,
    decreases s.len(),
{
    if s.len() > 0 {
        lemma_dec_value_nonneg(s.drop_last());
    }
}

fn digit_val(c: char) -> (r: Option<u64>)
    ensures
        match r {
            Some(d) => spec_digit_val(c) == Some(d as int) && d < 10,
            None => spec_digit_val(c) is None,
        },
{
    if c == '0' {
        Some(0)
    } else if c == '1' {
        Some(1)
    } else if c == '2' {
        Some(2)
    } else if c == '3' {
        Some(3)
    } else if c == '4' {
        Some(4)
    } else if c == '5' {
        Some(5)
    } else if c == '6' {
        Some(6)
    } else if c == '7' {
        Some(7)
    } else if c == '8' {
        Some(8)
    } else if c == '9' {
        Some(9)
    } else {
        None
    }
}

/// Parse a non-empty all-digit sequence as a `u64`; `None` on any other
/// text or on overflow.
pub fn parse_u64_chars(v: &Vec<char>) -> (r: Option<u64>)
    ensures
        match r {
            Some(n) => spec_all_digits(v@) && spec_dec_value(v@) == n as int,
            None => !spec_all_digits(v@) || spec_dec_value(v@) > u64::MAX as int,
        },
{
    if v.len() == 0 {
        return None;
    }
    let mut acc: u64 = 0;
    let mut i: usize = 0;
    while i < v.len()
        invariant
            v@.len() > 0,
            i <= v@.len(),
            forall|j: int| 0 <= j < i ==> spec_digit_val(v@[j]) is Some,
            spec_dec_value(v@.subrange(0, i as int)) == acc as int,
        decreases v@.len() - i,
    {
        match digit_val(v[i]) {
            Some(d) => {
                proof {
                    assert(v@.subrange(0, i as int + 1).drop_last() =~= v@.subrange(0, i as int));
                    assert(v@.subrange(0, i as int + 1).last() == v@[i as int]);
                    assert(spec_dec_value(v@.subrange(0, i as int + 1)) == acc as int * 10
                        + d as int);
                }
                if acc > (u64::MAX - d) / 10 {
                    proof {
                        assert(u64::MAX as int - d as int == (u64::MAX as int - d as int) / 10 * 10
                            + (u64::MAX as int - d as int) % 10);
                        assert((u64::MAX as int - d as int) % 10 < 10);
                        assert(acc as int * 10 + d as int > u64::MAX as int);
                        lemma_dec_value_monotone(v@, i as int + 1);
                    }
                    return None;
                }
                acc = acc * 10 + d;
                i = i + 1;
            },
            None => {
                return None;
            },
        }
    }
    proof {
        assert(v@.subrange(0, v@.len() as int) =~= v@);
    }
    Some(acc)
}

/// A digit string's value is at least the value of any of its prefixes.
proof fn lemma_dec_value_monotone(s: Seq<char>, k: int)
    requires
        0 <= k <= s.len(),
    ensures
        spec_dec_value(s) >= spec_dec_value(s.subrange(0, k)),
    decreases s.len() - k,
{
    if k < s.len() {
        lemma_dec_value_monotone(s, k + 1);
        assert(s.subrange(0, k + 1).drop_last() =~= s.subrange(0, k));
        lemma_dec_value_nonneg(s.subrange(0, k));
        assert(spec_digit_or_zero(s.subrange(0, k + 1).last()) >= 0);
        assert(spec_dec_value(s.subrange(0, k + 1)) == spec_dec_value(s.subrange(0, k)) * 10
            + spec_digit_or_zero(s.subrange(0, k + 1).last()));
        assert(spec_dec_value(s.subrange(0, k)) * 10 >= spec_dec_value(s.subrange(0, k)));
        assert(spec_dec_value(s.subrange(0, k + 1)) >= spec_dec_value(s.subrange(0, k)));
    } else {
        assert(s.subrange(0, k) =~= s);
    }
}

} // verus!
