use vstd::prelude::*;
use crate::strutil::{
    chars_of, find_char, lemma_spec_find_props, spec_find, spec_lines, spec_trim, split_lines,
    string_from_chars, str_eq, subvec, trim_chars,
};

verus! {

// ---------------------------------------------------------------------------
// Configuration: the `[agt]` section of an INI-style file, in git-config
// syntax. Parsing is a fold over the lines: comments and blanks are
// skipped, `[section]` switches the current section, and `key = value`
// records `section.key = value`. Later values win.
// ---------------------------------------------------------------------------

/// The settings the tool reads: where the external git binary lives, the
/// identity shadow commits are authored with, the shadow-branch prefix,
/// and an optional reporting identity.
pub struct AgtConfig {
    pub git_path: String,
    pub agent_email: String,
    pub branch_prefix: String,
    pub user_email: Option<String>,
}

impl Default for AgtConfig {
    /// The built-in defaults, used before any configuration file is read.
    fn default() -> (r: AgtConfig)
        ensures
            r.git_path@ == "/usr/bin/git"@,
            r.agent_email@ == "agt@local"@,
            r.branch_prefix@ == "agtsessions/"@,
            r.user_email is None,
    {
        AgtConfig {
            git_path: "/usr/bin/git".to_owned(),
            agent_email: "agt@local".to_owned(),
            branch_prefix: "agtsessions/".to_owned(),
            user_email: None,
        }
    }
}

/// Key/value pairs in the order the file gave them; a later pair with the
/// same key shadows an earlier one.
pub struct Settings {
    kvs: Vec<(String, String)>,
}

/// The pairs of an entry list, as character sequences.
pub open spec fn spec_pairs_of(kvs: Seq<(String, String)>) -> Seq<(Seq<char>, Seq<char>)> {
    kvs.map_values(|p: (String, String)| (p.0@, p.1@))
}

impl View for Settings {
    type V = Seq<(Seq<char>, Seq<char>)>;

    closed spec fn view(&self) -> Seq<(Seq<char>, Seq<char>)> {
        spec_pairs_of(self.kvs@)
    }
}

/// The value of the last pair whose key is `key`, if any.
pub open spec fn spec_lookup(pairs: Seq<(Seq<char>, Seq<char>)>, key: Seq<char>) -> Option<
    Seq<char>,
>
    decreases pairs.len(),
{
    if pairs.len() == 0 {
        None
    } else if pairs.last().0 == key {
        Some(pairs.last().1)
    } else {
        spec_lookup(pairs.drop_last(), key)
    }
}

impl Settings {
    /// An empty settings table.
    pub fn new() -> (r: Settings)
        ensures
            r@ == Seq::<(Seq<char>, Seq<char>)>::empty(),
    {
        let r = Settings { kvs: Vec::new() };
        proof {
            assert(r@ =~= Seq::<(Seq<char>, Seq<char>)>::empty());
        }
        r
    }

    /// Record `key = value`; it shadows any earlier value of the key.
    pub fn set(&mut self, key: String, value: String)
        ensures
            final(self)@ == old(self)@.push((key@, value@)),
    {
        let ghost before = self.kvs@;
        let ghost key_v = key@;
        let ghost value_v = value@;
        self.kvs.push((key, value));
        proof {
            assert(self.kvs@ == before.push((self.kvs@.last().0, self.kvs@.last().1)));
            assert(self@ =~= spec_pairs_of(before).push((key_v, value_v)));
        }
    }

    /// Look the key up; the latest value wins.
    pub fn get(&self, key: &str) -> (r: Option<String>)
        ensures
            match r {
                Some(v) => spec_lookup(self@, key@) == Some(v@),
                None => spec_lookup(self@, key@) is None,
            },
    {
        let mut i: usize = self.kvs.len();
        proof {
            assert(self@.subrange(0, self@.len() as int) =~= self@);
            assert(self@.len() == self.kvs@.len());
        }
        while i > 0
            invariant
                i <= self.kvs@.len(),
                self@ == spec_pairs_of(self.kvs@),
                spec_lookup(self@, key@) == spec_lookup(
                    self@.subrange(0, i as int),
                    key@,
                ),
            decreases i,
        {
            i = i - 1;
            proof {
                let sub_now = self@.subrange(0, i as int + 1);
                assert(sub_now.last() == self@[i as int]);
                assert(self@[i as int] == (self.kvs@[i as int].0@, self.kvs@[i as int].1@));
                assert(sub_now.drop_last() =~= self@.subrange(0, i as int));
            }
            if str_eq(self.kvs[i].0.as_str(), key) {
                return Some(self.kvs[i].1.clone());
            }
        }
        proof {
            assert(self@.subrange(0, 0) =~= Seq::<(Seq<char>, Seq<char>)>::empty());
        }
        None
    }

    /// The number of recorded pairs.
    pub fn len(&self) -> (r: usize)
        ensures
            r == self@.len(),
    {
        proof {
            assert(self@.len() == self.kvs@.len());
        }
        self.kvs.len()
    }
}

/// One step of the parse: what the pairs become after reading the lines
/// that remain, starting in `section` with `acc` already recorded.
pub open spec fn spec_ini_fold(
    lines: Seq<Seq<char>>,
    section: Seq<char>,
    acc: Seq<(Seq<char>, Seq<char>)>,
) -> Seq<(Seq<char>, Seq<char>)>
    decreases lines.len(),
{
    if lines.len() == 0 {
        acc
    } else {
        let t = spec_trim(lines[0]);
        let rest = lines.drop_first();
        if t.len() == 0 || t[0] == '#' || t[0] == ';' {
            spec_ini_fold(rest, section, acc)
        } else if t[0] == '[' && t[t.len() - 1] == ']' {
            spec_ini_fold(rest, t.subrange(1, t.len() - 1), acc)
        } else {
            match spec_find(t, '=') {
                Some(i) => {
                    let key = spec_trim(t.subrange(0, i));
                    let value = spec_trim(t.subrange(i + 1, t.len() as int));
                    let full_key = if section.len() == 0 {
                        key
                    } else {
                        section + seq!['.'] + key
                    };
                    spec_ini_fold(rest, section, acc.push((full_key, value)))
                },
                None => spec_ini_fold(rest, section, acc),
            }
        }
    }
}

/// The settings an INI text denotes: a fold over its lines, starting
/// outside any section.
pub open spec fn spec_parse_ini(content: Seq<char>) -> Seq<(Seq<char>, Seq<char>)> {
    spec_ini_fold(spec_lines(content), seq![], seq![])
}

/// Concatenation of two character vectors.
fn concat_chars(a: &Vec<char>, b: &Vec<char>) -> (r: Vec<char>)
    ensures
        r@ == a@ + b@,
{
    let mut r = subvec(a, 0, a.len());
    proof {
        assert(a@.subrange(0, a@.len() as int) =~= a@);
    }
    let mut i: usize = 0;
    while i < b.len()
        invariant
            i <= b@.len(),
            r@ == a@ + b@.subrange(0, i as int),
        decreases b@.len() - i,
    {
        r.push(b[i]);
        i = i + 1;
        proof {
            assert(r@ =~= a@ + b@.subrange(0, i as int));
        }
    }
    proof {
        assert(b@.subrange(0, b@.len() as int) =~= b@);
    }
    r
}

/// Parse INI-style text: `#` and `;` start comments, `[section]` opens a
/// section, and `key = value` records `section.key = value` with key and
/// value trimmed. Lines without `=` are ignored.
pub fn parse_ini(content: &str) -> (r: Settings)
    ensures
        r@ == spec_parse_ini(content@),
{
    let cv = chars_of(content);
    let lines = split_lines(&cv);
    let ghost line_views = lines@.map_values(|l: Vec<char>| l@);
    let mut section: Vec<char> = Vec::new();
    let mut settings = Settings::new();
    let mut i: usize = 0;
    proof {
        assert(line_views.subrange(0, line_views.len() as int) =~= line_views);
        assert(section@ =~= Seq::<char>::empty());
    }
    while i < lines.len()
        invariant
            line_views == spec_lines(content@),
            lines@.map_values(|l: Vec<char>| l@) == line_views,
            i <= lines@.len(),
            spec_ini_fold(
                line_views.subrange(i as int, line_views.len() as int),
                section@,
                settings@,
            ) == spec_parse_ini(content@),
        decreases lines@.len() - i,
    {
        let ghost remaining = line_views.subrange(i as int, line_views.len() as int);
        proof {
            assert(remaining.len() > 0);
            assert(remaining[0] == line_views[i as int]);
            assert(line_views[i as int] == lines@[i as int]@);
            assert(remaining.drop_first() =~= line_views.subrange(
                i as int + 1,
                line_views.len() as int,
            ));
        }
        let line = &lines[i];
        let t = trim_chars(line);
        proof {
            assert(t@ == spec_trim(remaining[0]));
            lemma_spec_find_props(t@, '=');
        }
        if t.len() == 0 || t[0] == '#' || t[0] == ';' {
            // comment or blank: nothing changes
        } else if t[0] == '[' && t[t.len() - 1] == ']' {
            let new_section = subvec(&t, 1, t.len() - 1);
            section = new_section;
        } else {
            match find_char(&t, '=') {
                Some(eq_pos) => {
                    proof {
                        assert(spec_find(t@, '=') == Some(eq_pos as int));
                        assert((eq_pos as int) < t@.len());
                    }
                    let tl: usize = t.len();
                    let key_raw = subvec(&t, 0, eq_pos);
                    let key = trim_chars(&key_raw);
                    let value_raw = subvec(&t, eq_pos + 1, tl);
                    let value = trim_chars(&value_raw);
                    let full_key: Vec<char> = if section.len() == 0 {
                        key
                    } else {
                        let mut dot: Vec<char> = Vec::new();
                        dot.push('.');
                        let head = concat_chars(&section, &dot);
                        let joined = concat_chars(&head, &key);
                        proof {
                            assert(joined@ =~= section@ + seq!['.'] + key@);
                        }
                        joined
                    };
                    let ks = string_from_chars(&full_key);
                    let vs = string_from_chars(&value);
                    settings.set(ks, vs);
                },
                None => {
                    // no assignment on this line: ignored
                },
            }
        }
        i = i + 1;
    }
    proof {
        assert(line_views.subrange(line_views.len() as int, line_views.len() as int)
            =~= Seq::<Seq<char>>::empty());
    }
    settings
}

/// Carry recognised settings into the configuration: `agt.gitPath`,
/// `agt.agentEmail`, `agt.branchPrefix` and `agt.userEmail`; anything else
/// is left alone.
pub fn apply_settings(config: &mut AgtConfig, settings: &Settings)
    ensures
        final(config).git_path@ == (match spec_lookup(settings@, "agt.gitPath"@) {
            Some(v) => v,
            None => old(config).git_path@,
        }),
        final(config).agent_email@ == (match spec_lookup(settings@, "agt.agentEmail"@) {
            Some(v) => v,
            None => old(config).agent_email@,
        }),
        final(config).branch_prefix@ == (match spec_lookup(settings@, "agt.branchPrefix"@) {
            Some(v) => v,
            None => old(config).branch_prefix@,
        }),
        match spec_lookup(settings@, "agt.userEmail"@) {
            Some(v) => final(config).user_email matches Some(u) && u@ == v,
            None => final(config).user_email == old(config).user_email,
        },
{
    match settings.get("agt.gitPath") {
        Some(v) => {
            config.git_path = v;
        },
        None => {},
    }
    match settings.get("agt.agentEmail") {
        Some(v) => {
            config.agent_email = v;
        },
        None => {},
    }
    match settings.get("agt.branchPrefix") {
        Some(v) => {
            config.branch_prefix = v;
        },
        None => {},
    }
    match settings.get("agt.userEmail") {
        Some(v) => {
            config.user_email = Some(v);
        },
        None => {},
    }
}

} // verus!
