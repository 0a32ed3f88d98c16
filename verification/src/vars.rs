//! Environment variables: `.env` parsing and `{{name}}` substitution.
use crate::text::{
    chars_of, eq_chars, find, find_from_exec, lemma_find_from_bounds, lemma_find_shift,
    lines, lines_exec, slice_vec, split_once, split_once_char, string_of, trim, trim_vec,
};
use crate::model::{entries_view, is_insert_pos, keys_sorted, map_insert, seq_lt, HeaderMap};
use vstd::prelude::*;

verus! {

/// Variables by name, each name once (the role `HashMap<String, String>`
/// plays); a later insert of a name replaces its value.
pub struct EnvVars {
    entries: Vec<(String, String)>,
}

pub open spec fn pairs_view(v: Seq<(String, String)>) -> Seq<(Seq<char>, Seq<char>)> {
    v.map_values(|e: (String, String)| (e.0@, e.1@))
}

pub open spec fn keys_unique(s: Seq<(Seq<char>, Seq<char>)>) -> bool {
    forall|i: int, j: int| 0 <= i < j < s.len() ==> #[trigger] s[i].0 != #[trigger] s[j].0
}

/// The value under `k`.
pub open spec fn env_get(s: Seq<(Seq<char>, Seq<char>)>, k: Seq<char>) -> Option<Seq<char>>
    decreases s.len(),
{
    if s.len() == 0 {
        None
    } else if s.last().0 == k {
        Some(s.last().1)
    } else {
        env_get(s.drop_last(), k)
    }
}

/// The entries after setting `k` to `v`.
pub open spec fn env_insert(s: Seq<(Seq<char>, Seq<char>)>, k: Seq<char>, v: Seq<char>) -> Seq<
    (Seq<char>, Seq<char>),
> {
    if exists|j: int| 0 <= j < s.len() && s[j].0 == k {
        s.update(choose|j: int| 0 <= j < s.len() && s[j].0 == k, (k, v))
    } else {
        s.push((k, v))
    }
}

proof fn lemma_env_get_found(s: Seq<(Seq<char>, Seq<char>)>, k: Seq<char>, j: int)
    requires
        keys_unique(s),
        0 <= j < s.len(),
        s[j].0 == k,
    ensures
        env_get(s, k) == Some(s[j].1),
    decreases s.len(),
{
    if j != s.len() - 1 {
        assert(s[j].0 != s[s.len() - 1].0);
        let init = s.drop_last();
        assert(keys_unique(init)) by {
            assert forall|a: int, b: int| 0 <= a < b < init.len() implies #[trigger] init[a].0
                != #[trigger] init[b].0 by {
                assert(init[a] == s[a] && init[b] == s[b]);
            }
        }
        assert(init[j] == s[j]);
        lemma_env_get_found(init, k, j);
    }
}

proof fn lemma_env_get_absent(s: Seq<(Seq<char>, Seq<char>)>, k: Seq<char>)
    requires
        forall|j: int| 0 <= j < s.len() ==> s[j].0 != k,
    ensures
        env_get(s, k) is None,
    decreases s.len(),
{
    if s.len() > 0 {
        let init = s.drop_last();
        assert forall|j: int| 0 <= j < init.len() implies init[j].0 != k by {
            assert(init[j] == s[j]);
        }
        lemma_env_get_absent(init, k);
    }
}

/// What a read of the variables gives after a write: the value written
/// under its name, and the earlier value under every other name.
pub proof fn law_env_read_after_write(
    s: Seq<(Seq<char>, Seq<char>)>,
    k: Seq<char>,
    v: Seq<char>,
    other: Seq<char>,
)
    requires
        keys_unique(s),
    ensures
        env_get(env_insert(s, k, v), k) == Some(v),
        other != k ==> env_get(env_insert(s, k, v), other) == env_get(s, other),
{
    let t = env_insert(s, k, v);
    if exists|j: int| 0 <= j < s.len() && s[j].0 == k {
        let j = choose|j: int| 0 <= j < s.len() && s[j].0 == k;
        assert(keys_unique(t)) by {
            assert forall|a: int, b: int| 0 <= a < b < t.len() implies #[trigger] t[a].0
                != #[trigger] t[b].0 by {
                if a == j {
                    assert(t[b] == s[b]);
                } else if b == j {
                    assert(t[a] == s[a]);
                } else {
                    assert(t[a] == s[a] && t[b] == s[b]);
                }
            }
        }
        lemma_env_get_found(t, k, j);
        if other != k {
            if exists|i: int| 0 <= i < s.len() && s[i].0 == other {
                let i = choose|i: int| 0 <= i < s.len() && s[i].0 == other;
                lemma_env_get_found(s, other, i);
                assert(t[i] == s[i]);
                lemma_env_get_found(t, other, i);
            } else {
                lemma_env_get_absent(s, other);
                assert forall|i: int| 0 <= i < t.len() implies t[i].0 != other by {
                    if i != j {
                        assert(t[i] == s[i]);
                    }
                }
                lemma_env_get_absent(t, other);
            }
        }
    } else {
        assert(t == s.push((k, v)));
        assert(t.drop_last() =~= s);
    }
}

impl View for EnvVars {
    type V = Seq<(Seq<char>, Seq<char>)>;

    closed spec fn view(&self) -> Seq<(Seq<char>, Seq<char>)> {
        pairs_view(self.entries@)
    }
}

proof fn lemma_env_get_index(s: Seq<(Seq<char>, Seq<char>)>, k: Seq<char>, j: int)
    requires
        keys_unique(s),
        0 <= j < s.len(),
        s[j].0 == k,
    ensures
        env_get(s, k) == Some(s[j].1),
    decreases s.len(),
{
    if j < s.len() - 1 {
        assert(s.last().0 != k) by {
            assert(s[j].0 != s[s.len() - 1].0);
        }
        assert(s.drop_last()[j] == s[j]);
        lemma_env_get_index(s.drop_last(), k, j);
    }
}

proof fn lemma_env_get_none(s: Seq<(Seq<char>, Seq<char>)>, k: Seq<char>)
    requires
        forall|j: int| 0 <= j < s.len() ==> #[trigger] s[j].0 != k,
    ensures
        env_get(s, k) is None,
    decreases s.len(),
{
    if s.len() > 0 {
        assert(s.last().0 != k) by {
            assert(s[s.len() - 1].0 != k);
        }
        assert forall|j: int| 0 <= j < s.drop_last().len() implies #[trigger] s.drop_last()[j].0
            != k by {
            assert(s.drop_last()[j] == s[j]);
        }
        lemma_env_get_none(s.drop_last(), k);
    }
}

impl EnvVars {
    #[verifier::type_invariant]
    closed spec fn unique(self) -> bool {
        keys_unique(pairs_view(self.entries@))
    }

    pub fn new() -> (r: EnvVars)
        ensures
            r@ == Seq::<(Seq<char>, Seq<char>)>::empty(),
    {
        let r = EnvVars { entries: Vec::new() };
        assert(pairs_view(r.entries@) =~= Seq::<(Seq<char>, Seq<char>)>::empty());
        r
    }

    pub fn len(&self) -> (r: usize)
        ensures
            r == self@.len(),
    {
        self.entries.len()
    }

    pub fn is_empty(&self) -> (r: bool)
        ensures
            r == (self@.len() == 0),
    {
        self.entries.len() == 0
    }

    /// The variables in the order they were first set.
    pub fn entries(&self) -> (r: &[(String, String)])
        ensures
            pairs_view(r@) == self@,
            keys_unique(self@),
    {
        proof {
            use_type_invariant(self);
        }
        self.entries.as_slice()
    }

    fn index_of(&self, key: &[char]) -> (r: Option<usize>)
        ensures
            r matches Some(j) ==> j < self@.len() && self@[j as int].0 == key@,
            r is None ==> forall|j: int| 0 <= j < self@.len() ==> #[trigger] self@[j].0 != key@,
    {
        let mut i: usize = 0;
        while i < self.entries.len()
            invariant
                i <= self@.len(),
                self@ == pairs_view(self.entries@),
                forall|j: int| 0 <= j < i ==> #[trigger] self@[j].0 != key@,
            decreases self@.len() - i,
        {
            let ec = chars_of(self.entries[i].0.as_str());
            if eq_chars(&ec, key) {
                return Some(i);
            }
            i += 1;
        }
        None
    }

    /// Set `key` to `value`, replacing an earlier value.
    pub fn insert(&mut self, key: String, value: String)
        ensures
            final(self)@ == env_insert(old(self)@, key@, value@),
    {
        proof {
            use_type_invariant(&*self);
        }
        let ghost s = self@;
        let kc = chars_of(key.as_str());
        let idx = self.index_of(&kc);
        let mut v: Vec<(String, String)> = Vec::new();
        std::mem::swap(&mut v, &mut self.entries);
        match idx {
            Some(j) => {
                proof {
                    let c = choose|c: int| 0 <= c < s.len() && s[c].0 == key@;
                    if c != j {
                        if c < j {
                            assert(s[c].0 != s[j as int].0);
                        } else {
                            assert(s[j as int].0 != s[c].0);
                        }
                    }
                }
                v.set(j, (key, value));
                assert(pairs_view(v@) =~= env_insert(s, key@, value@));
            },
            None => {
                v.push((key, value));
                assert(pairs_view(v@) =~= env_insert(s, key@, value@));
            },
        }
        self.entries = v;
    }

    /// The value under `key`.
    pub fn get(&self, key: &str) -> (r: Option<&String>)
        ensures
            r matches Some(v) ==> env_get(self@, key@) == Some(v@),
            r is None ==> env_get(self@, key@) is None,
    {
        proof {
            use_type_invariant(self);
        }
        let kc = chars_of(key);
        match self.index_of(&kc) {
            Some(j) => {
                proof {
                    lemma_env_get_index(self@, key@, j as int);
                }
                Some(&self.entries[j].1)
            },
            None => {
                proof {
                    lemma_env_get_none(self@, key@);
                }
                None
            },
        }
    }

    fn get_chars(&self, key: &[char]) -> (r: Option<&String>)
        ensures
            r matches Some(v) ==> env_get(self@, key@) == Some(v@),
            r is None ==> env_get(self@, key@) is None,
    {
        proof {
            use_type_invariant(self);
        }
        match self.index_of(key) {
            Some(j) => {
                proof {
                    lemma_env_get_index(self@, key@, j as int);
                }
                Some(&self.entries[j].1)
            },
            None => {
                proof {
                    lemma_env_get_none(self@, key@);
                }
                None
            },
        }
    }
}

// ---------------------------------------------------------------------------
// .env files
// ---------------------------------------------------------------------------

/// Matching quotes around a value are removed.
pub open spec fn unquote(v: Seq<char>) -> Seq<char> {
    if v.len() >= 2 && ((v[0] == '"' && v.last() == '"') || (v[0] == '\'' && v.last() == '\'')) {
        v.subrange(1, v.len() - 1)
    } else {
        v
    }
}

/// The `KEY=VALUE` assignments of the lines, in order.
pub open spec fn env_pairs(ls: Seq<Seq<char>>) -> Seq<(Seq<char>, Seq<char>)>
    decreases ls.len(),
{
    if ls.len() == 0 {
        Seq::empty()
    } else {
        let rest = env_pairs(ls.drop_last());
        let l = trim(ls.last());
        if l.len() == 0 || l[0] == '#' {
            rest
        } else {
            match split_once(l, seq!['=']) {
                Some((k, v)) => rest.push((trim(k), unquote(trim(v)))),
                None => rest,
            }
        }
    }
}

/// The variables after setting each pair in order.
pub open spec fn env_of_pairs(ps: Seq<(Seq<char>, Seq<char>)>) -> Seq<(Seq<char>, Seq<char>)>
    decreases ps.len(),
{
    if ps.len() == 0 {
        Seq::empty()
    } else {
        env_insert(env_of_pairs(ps.drop_last()), ps.last().0, ps.last().1)
    }
}

pub open spec fn parse_env_spec(content: Seq<char>) -> Seq<(Seq<char>, Seq<char>)> {
    env_of_pairs(env_pairs(lines(content)))
}

pub fn unquote_exec(v: &[char]) -> (r: Vec<char>)
    ensures
        r@ == unquote(v@),
{
    let n = v.len();
    if n >= 2 && ((v[0] == '"' && v[n - 1] == '"') || (v[0] == '\'' && v[n - 1] == '\'')) {
        slice_vec(v, 1, n - 1)
    } else {
        slice_vec(v, 0, n)
    }
}

proof fn lemma_env_insert_unique(s: Seq<(Seq<char>, Seq<char>)>, k: Seq<char>, v: Seq<char>)
    requires
        keys_unique(s),
    ensures
        keys_unique(env_insert(s, k, v)),
{
    let t = env_insert(s, k, v);
    if exists|j: int| 0 <= j < s.len() && s[j].0 == k {
        let j = choose|j: int| 0 <= j < s.len() && s[j].0 == k;
        assert forall|a: int, b: int| 0 <= a < b < t.len() implies #[trigger] t[a].0
            != #[trigger] t[b].0 by {
            if a == j {
                assert(t[b] == s[b]);
            } else if b == j {
                assert(t[a] == s[a]);
            } else {
                assert(t[a] == s[a] && t[b] == s[b]);
            }
        }
    } else {
        assert forall|a: int, b: int| 0 <= a < b < t.len() implies #[trigger] t[a].0
            != #[trigger] t[b].0 by {
            if b == s.len() {
                assert(t[a] == s[a]);
            } else {
                assert(t[a] == s[a] && t[b] == s[b]);
            }
        }
    }
}

proof fn lemma_env_of_pairs_unique(ps: Seq<(Seq<char>, Seq<char>)>)
    ensures
        keys_unique(env_of_pairs(ps)),
    decreases ps.len(),
{
    if ps.len() > 0 {
        lemma_env_of_pairs_unique(ps.drop_last());
        lemma_env_insert_unique(env_of_pairs(ps.drop_last()), ps.last().0, ps.last().1);
    }
}

/// The value of the last pair named `k`.
pub open spec fn last_value(ps: Seq<(Seq<char>, Seq<char>)>, k: Seq<char>) -> Option<Seq<char>>
    decreases ps.len(),
{
    if ps.len() == 0 {
        None
    } else if ps.last().0 == k {
        Some(ps.last().1)
    } else {
        last_value(ps.drop_last(), k)
    }
}

proof fn lemma_env_of_pairs_get(ps: Seq<(Seq<char>, Seq<char>)>, k: Seq<char>)
    ensures
        env_get(env_of_pairs(ps), k) == last_value(ps, k),
    decreases ps.len(),
{
    if ps.len() == 0 {
    } else {
        lemma_env_of_pairs_get(ps.drop_last(), k);
        lemma_env_of_pairs_unique(ps.drop_last());
        law_env_read_after_write(env_of_pairs(ps.drop_last()), ps.last().0, ps.last().1, k);
    }
}

/// Reading a `.env` file: a name maps to the value of its last assignment
/// line (a trimmed line, not empty and not starting with `#`, split at its
/// first `=`; the name trimmed, the value trimmed and stripped of one pair
/// of matching quotes), and names no line assigns are absent.
pub proof fn law_parse_env_last_assignment_wins(content: Seq<char>, k: Seq<char>)
    ensures
        env_get(parse_env_spec(content), k) == last_value(env_pairs(lines(content)), k),
{
    lemma_env_of_pairs_get(env_pairs(lines(content)), k);
}

/// Parse dotenv content: `KEY=VALUE` lines, `#` comments, matching quotes
/// stripped.
pub fn parse_env(content: &str) -> (r: EnvVars)
    ensures
        r@ == parse_env_spec(content@),
{
    let tc = chars_of(content);
    let ls = lines_exec(&tc);
    let ghost lsv = lines(content@);
    let mut vars = EnvVars::new();
    let mut i: usize = 0;
    assert(lsv.take(0) =~= Seq::<Seq<char>>::empty());
    while i < ls.len()
        invariant
            i <= ls@.len(),
            ls@.len() == lsv.len(),
            forall|k: int| 0 <= k < ls@.len() ==> #[trigger] ls@[k]@ == lsv[k],
            vars@ == env_of_pairs(env_pairs(lsv.take(i as int))),
        decreases ls@.len() - i,
    {
        proof {
            assert(lsv.take(i + 1).drop_last() =~= lsv.take(i as int));
            assert(lsv.take(i + 1).last() == lsv[i as int]);
        }
        let l = trim_vec(&ls[i]);
        if l.len() > 0 && l[0] != '#' {
            match split_once_char(&l, '=') {
                Some((k, v)) => {
                    let kt = trim_vec(&k);
                    let vt = trim_vec(&v);
                    let vu = unquote_exec(&vt);
                    vars.insert(string_of(&kt), string_of(&vu));
                    proof {
                        let ps = env_pairs(lsv.take(i + 1));
                        assert(ps == env_pairs(lsv.take(i as int)).push((kt@, vu@)));
                        assert(ps.drop_last() =~= env_pairs(lsv.take(i as int)));
                    }
                },
                None => {},
            }
        }
        i += 1;
    }
    assert(lsv.take(ls@.len() as int) =~= lsv);
    vars
}

// ---------------------------------------------------------------------------
// {{name}} substitution
// ---------------------------------------------------------------------------

/// The first `{{...}}` in `t`: where it starts, and where its name ends
/// (the closing `}}` starts there).
pub open spec fn next_var(t: Seq<char>) -> Option<(int, int)> {
    match find(t, seq!['{', '{']) {
        None => None,
        Some(st) => match find(t.skip(st + 2), seq!['}', '}']) {
            None => None,
            Some(len) => Some((st, st + 2 + len)),
        },
    }
}

pub proof fn lemma_next_var_bounds(t: Seq<char>)
    ensures
        next_var(t) matches Some((st, ne)) ==> 0 <= st && st + 2 <= ne && ne + 2 <= t.len(),
{
    lemma_find_from_bounds(t, seq!['{', '{'], 0);
    if let Some(st) = find(t, seq!['{', '{']) {
        lemma_find_from_bounds(t.skip(st + 2), seq!['}', '}'], 0);
    }
}

/// Replace each `{{name}}` (name trimmed) that has a value; keep the others.
pub open spec fn subst(t: Seq<char>, vars: Seq<(Seq<char>, Seq<char>)>) -> Seq<char>
    decreases t.len(),
{
    match next_var(t) {
        None => t,
        Some((st, ne)) => {
            proof {
                lemma_next_var_bounds(t);
            }
            let name = trim(t.subrange(st + 2, ne));
            match env_get(vars, name) {
                Some(v) => t.take(st) + v + subst(t.skip(ne + 2), vars),
                None => t.take(ne + 2) + subst(t.skip(ne + 2), vars),
            }
        },
    }
}

/// The names of all `{{variables}}`, in order (may repeat); empty names are
/// skipped.
pub open spec fn var_names(t: Seq<char>) -> Seq<Seq<char>>
    decreases t.len(),
{
    match next_var(t) {
        None => Seq::empty(),
        Some((st, ne)) => {
            proof {
                lemma_next_var_bounds(t);
            }
            let name = trim(t.subrange(st + 2, ne));
            if name.len() > 0 {
                seq![name] + var_names(t.skip(ne + 2))
            } else {
                var_names(t.skip(ne + 2))
            }
        },
    }
}

/// The next `{{...}}` at or after `pos`, as `(start, name end)` positions.
fn next_var_exec(t: &[char], pos: usize) -> (r: Option<(usize, usize)>)
    requires
        pos <= t@.len(),
    ensures
        r is None <==> next_var(t@.skip(pos as int)) is None,
        r matches Some((a, b)) ==> next_var(t@.skip(pos as int)) == Some(
            ((a - pos) as int, (b - pos) as int),
        ) && pos <= a && a + 2 <= b && b + 2 <= t@.len(),
{
    let open = vec!['{', '{'];
    let close = vec!['}', '}'];
    assert(open@ =~= seq!['{', '{']);
    assert(close@ =~= seq!['}', '}']);
    let ghost rest = t@.skip(pos as int);
    proof {
        lemma_find_shift(t@, seq!['{', '{'], pos as int, pos as int);
        lemma_next_var_bounds(rest);
    }
    match find_from_exec(t, &open, pos) {
        None => None,
        Some(st) => {
            let n = t.len();
            proof {
                lemma_find_from_bounds(t@, seq!['{', '{'], pos as int);
                lemma_find_shift(t@, seq!['}', '}'], st + 2, st + 2);
                assert(rest.skip(st - pos + 2) =~= t@.skip(st + 2));
                lemma_find_shift(t@, seq!['}', '}'], st + 2, st + 2);
            }
            assert(st + 2 <= n);
            match find_from_exec(t, &close, st + 2) {
                None => None,
                Some(ne) => {
                    proof {
                        lemma_find_from_bounds(t@, seq!['}', '}'], st + 2);
                    }
                    Some((st, ne))
                },
            }
        },
    }
}

/// Replace `{{name}}` with its value; unknown variables are left untouched.
pub fn substitute(text: &str, vars: &EnvVars) -> (r: String)
    ensures
        r@ == subst(text@, vars@),
{
    let t = chars_of(text);
    let mut out: Vec<char> = Vec::new();
    let mut pos: usize = 0;
    assert(t@.skip(0) =~= t@);
    assert(out@ + subst(t@, vars@) =~= subst(t@, vars@));
    loop
        invariant
            pos <= t@.len(),
            t@ == text@,
            subst(text@, vars@) == out@ + subst(t@.skip(pos as int), vars@),
        decreases t@.len() - pos,
    {
        let ghost rest = t@.skip(pos as int);
        let ghost before = out@;
        match next_var_exec(&t, pos) {
            None => {
                let tail = slice_vec(&t, pos, t.len());
                assert(tail@ =~= rest);
                crate::text::append(&mut out, &tail);
                return string_of(&out);
            },
            Some((st, ne)) => {
                let n = t.len();
                assert(ne + 2 <= n);
                let raw = slice_vec(&t, st + 2, ne);
                let name = trim_vec(&raw);
                proof {
                    assert(raw@ =~= rest.subrange(st - pos + 2, ne - pos));
                    assert(rest.skip(ne - pos + 2) =~= t@.skip(ne + 2));
                }
                match vars.get_chars(&name) {
                    Some(v) => {
                        let head = slice_vec(&t, pos, st);
                        crate::text::append(&mut out, &head);
                        crate::text::append(&mut out, &chars_of(v.as_str()));
                        proof {
                            assert(head@ =~= rest.take(st - pos));
                            assert(before + head@ + v@ + subst(t@.skip(ne + 2), vars@) =~= before
                                + (rest.take(st - pos) + v@ + subst(rest.skip(ne - pos + 2), vars@)));
                        }
                    },
                    None => {
                        let head = slice_vec(&t, pos, ne + 2);
                        crate::text::append(&mut out, &head);
                        proof {
                            assert(head@ =~= rest.take(ne - pos + 2));
                            assert(before + head@ + subst(t@.skip(ne + 2), vars@) =~= before + (
                            rest.take(ne - pos + 2) + subst(rest.skip(ne - pos + 2), vars@)));
                        }
                    },
                }
                pos = ne + 2;
            },
        }
    }
}

/// Names of all `{{variables}}` in `text`, in order (may repeat).
pub fn extract(text: &str) -> (r: Vec<String>)
    ensures
        r@.map_values(|s: String| s@) == var_names(text@),
{
    let t = chars_of(text);
    let mut names: Vec<String> = Vec::new();
    let mut pos: usize = 0;
    assert(t@.skip(0) =~= t@);
    assert(names@.map_values(|s: String| s@) + var_names(t@) =~= var_names(t@));
    loop
        invariant
            pos <= t@.len(),
            t@ == text@,
            var_names(text@) == names@.map_values(|s: String| s@) + var_names(t@.skip(pos as int)),
        decreases t@.len() - pos,
    {
        let ghost rest = t@.skip(pos as int);
        let ghost before = names@.map_values(|s: String| s@);
        match next_var_exec(&t, pos) {
            None => {
                assert(before + var_names(rest) =~= before);
                return names;
            },
            Some((st, ne)) => {
                let n = t.len();
                assert(ne + 2 <= n);
                let raw = slice_vec(&t, st + 2, ne);
                let name = trim_vec(&raw);
                proof {
                    assert(raw@ =~= rest.subrange(st - pos + 2, ne - pos));
                    assert(rest.skip(ne - pos + 2) =~= t@.skip(ne + 2));
                }
                if name.len() > 0 {
                    let ghost nv = name@;
                    names.push(string_of(&name));
                    assert(names@.map_values(|s: String| s@) =~= before.push(nv));
                    assert(before.push(nv) + var_names(t@.skip(ne + 2)) =~= before + (seq![nv]
                        + var_names(t@.skip(ne + 2))));
                }
                pos = ne + 2;
            },
        }
    }
}

// ---------------------------------------------------------------------------
// Undefined variables
// ---------------------------------------------------------------------------

/// `k` is a key of the entries.
pub open spec fn has_key(s: Seq<(Seq<char>, Seq<char>)>, k: Seq<char>) -> bool {
    exists|j: int| 0 <= j < s.len() && #[trigger] s[j].0 == k
}

/// A name used in the URL, the headers or the body that the variables lack.
pub open spec fn is_undefined(
    url: Seq<char>,
    headers: Seq<char>,
    body: Seq<char>,
    vars: Seq<(Seq<char>, Seq<char>)>,
    n: Seq<char>,
) -> bool {
    (var_names(url) + var_names(headers) + var_names(body)).contains(n) && env_get(vars, n) is None
}

proof fn lemma_map_insert_keys(
    s: Seq<(Seq<char>, Seq<char>)>,
    k: Seq<char>,
    v: Seq<char>,
    p: int,
    n: Seq<char>,
)
    requires
        is_insert_pos(s, k, p),
    ensures
        has_key(map_insert(s, k, v, p), n) <==> (has_key(s, n) || n == k),
{
    let t = map_insert(s, k, v, p);
    if p < s.len() && s[p].0 == k {
        if has_key(s, n) {
            let j = choose|j: int| 0 <= j < s.len() && #[trigger] s[j].0 == n;
            assert(t[j].0 == n);
        }
        if has_key(t, n) {
            let j = choose|j: int| 0 <= j < t.len() && #[trigger] t[j].0 == n;
            assert(s[j].0 == n);
        }
        if n == k {
            assert(t[p].0 == n);
        }
    } else {
        if has_key(s, n) {
            let j = choose|j: int| 0 <= j < s.len() && #[trigger] s[j].0 == n;
            if j < p {
                assert(t[j] == s[j]);
            } else {
                assert(t[j + 1] == s[j]);
            }
        }
        if has_key(t, n) {
            let j = choose|j: int| 0 <= j < t.len() && #[trigger] t[j].0 == n;
            if j < p {
                assert(t[j] == s[j]);
            } else if j > p {
                assert(t[j] == s[j - 1]);
            }
        }
        if n == k {
            assert(t[p].0 == n);
        }
    }
}

/// The variables used anywhere in the request that `vars` lacks, each once,
/// in sorted order.
pub fn undefined_vars(url: &str, headers: &str, body: &str, vars: &EnvVars) -> (r: Vec<String>)
    ensures
        forall|i: int, j: int|
            0 <= i < j < r@.len() ==> seq_lt(#[trigger] r@[i]@, #[trigger] r@[j]@),
        forall|n: Seq<char>|
            r@.map_values(|s: String| s@).contains(n) <==> is_undefined(
                url@,
                headers@,
                body@,
                vars@,
                n,
            ),
{
    let mut names = extract(url);
    let mut more = extract(headers);
    let mut last = extract(body);
    let ghost all = var_names(url@) + var_names(headers@) + var_names(body@);
    names.append(&mut more);
    names.append(&mut last);
    assert(names@.map_values(|s: String| s@) =~= all);
    let mut set = HeaderMap::new();
    let mut i: usize = 0;
    while i < names.len()
        invariant
            i <= names@.len(),
            names@.map_values(|s: String| s@) == all,
            forall|n: Seq<char>|
                has_key(set@, n) <==> (all.take(i as int).contains(n) && env_get(vars@, n) is None),
        decreases names@.len() - i,
    {
        let ghost s0 = set@;
        let nm = &names[i];
        assert(all[i as int] == nm@);
        let missing = vars.get(nm.as_str()).is_none();
        if missing {
            set.insert(nm.clone(), String::new());
        }
        proof {
            assert forall|n: Seq<char>|
                has_key(set@, n) <==> (all.take(i + 1).contains(n) && env_get(vars@, n) is None) by {
                assert(all.take(i + 1) =~= all.take(i as int).push(nm@));
                if all.take(i + 1).contains(n) && !all.take(i as int).contains(n) {
                    assert(n == nm@);
                }
                if all.take(i as int).contains(n) {
                    let w = choose|w: int| 0 <= w < all.take(i as int).len() && all.take(i as int)[w] == n;
                    assert(all.take(i + 1)[w] == n);
                }
                if n == nm@ {
                    assert(all.take(i + 1)[i as int] == n);
                }
                if missing {
                    let p = choose|p: int|
                        is_insert_pos(s0, nm@, p) && set@ == map_insert(s0, nm@, Seq::empty(), p);
                    lemma_map_insert_keys(s0, nm@, Seq::empty(), p, n);
                }
            }
        }
        i += 1;
    }
    assert(all.take(i as int) =~= all);
    let es = set.entries();
    let mut out: Vec<String> = Vec::new();
    let mut j: usize = 0;
    while j < es.len()
        invariant
            j <= es@.len(),
            entries_view(es@) == set@,
            keys_sorted(set@),
            out@.len() == j,
            forall|k: int| 0 <= k < j ==> #[trigger] out@[k]@ == set@[k].0,
        decreases es@.len() - j,
    {
        out.push(es[j].0.clone());
        j += 1;
    }
    proof {
        assert forall|n: Seq<char>|
            out@.map_values(|s: String| s@).contains(n) <==> has_key(set@, n) by {
            if has_key(set@, n) {
                let k = choose|k: int| 0 <= k < set@.len() && #[trigger] set@[k].0 == n;
                assert(out@.map_values(|s: String| s@)[k] == n);
            }
            let ov = out@.map_values(|s: String| s@);
            if ov.contains(n) {
                let k = choose|k: int| 0 <= k < ov.len() && #[trigger] ov[k] == n;
                assert(set@[k].0 == n);
            }
        }
        assert forall|n: Seq<char>|
            out@.map_values(|s: String| s@).contains(n) <==> is_undefined(
                url@,
                headers@,
                body@,
                vars@,
                n,
            ) by {
            assert(has_key(set@, n) <==> (all.take(names@.len() as int).contains(n) && env_get(
                vars@,
                n,
            ) is None));
        }
    }
    out
}

// ---------------------------------------------------------------------------
// Substitution is local to each {{name}}
// ---------------------------------------------------------------------------

/// Text before the first `{` is copied as it is, and what follows is
/// substituted on its own.
pub proof fn law_subst_plain_prefix(a: Seq<char>, q: Seq<char>, vars: Seq<(Seq<char>, Seq<char>)>)
    requires
        crate::text::lacks(a, '{'),
    ensures
        subst(a + q, vars) == a + subst(q, vars),
{
    let s = a + q;
    let open = seq!['{', '{'];
    let close = seq!['}', '}'];
    let n = a.len() as int;
    assert forall|j: int| 0 <= j < n implies !crate::text::matches_at(s, open, j) by {
        if crate::text::matches_at(s, open, j) {
            assert(s.subrange(j, j + 2)[0] == s[j]);
            assert(s[j] == a[j]);
        }
    }
    crate::text::lemma_find_from_skip(s, open, 0, n);
    lemma_find_shift(s, open, n, n);
    assert(s.skip(n) =~= q);
    lemma_next_var_bounds(q);
    lemma_next_var_bounds(s);
    match find(q, open) {
        None => {
            assert(next_var(s) is None);
            assert(next_var(q) is None);
        },
        Some(st) => {
            lemma_find_from_bounds(q, open, 0);
            assert(find(s, open) == Some(n + st));
            assert(s.skip(n + st + 2) =~= q.skip(st + 2));
            match next_var(q) {
                None => {
                    assert(next_var(s) is None);
                },
                Some((st2, ne)) => {
                    assert(next_var(s) == Some((n + st, n + ne)));
                    assert(s.subrange(n + st + 2, n + ne) =~= q.subrange(st + 2, ne));
                    assert(s.skip(n + ne + 2) =~= q.skip(ne + 2));
                    assert(s.take(n + st) =~= a + q.take(st));
                    assert(s.take(n + ne + 2) =~= a + q.take(ne + 2));
                },
            }
        },
    }
}

/// A complete `{{name}}` block at the front becomes the value of its trimmed
/// name when it has one and stays as it is otherwise; the text after it is
/// substituted on its own either way. (The block ends at the first `}}`
/// after its `{{`.)
pub proof fn law_subst_block_then_rest(
    n: Seq<char>,
    q: Seq<char>,
    vars: Seq<(Seq<char>, Seq<char>)>,
)
    requires
        find(n + seq!['}', '}'], seq!['}', '}']) == Some(n.len() as int),
    ensures
        subst(seq!['{', '{'] + n + seq!['}', '}'] + q, vars) == match env_get(vars, trim(n)) {
            Some(v) => v,
            None => seq!['{', '{'] + n + seq!['}', '}'],
        } + subst(q, vars),
{
    let open = seq!['{', '{'];
    let close = seq!['}', '}'];
    let block = open + n + close;
    let s = block + q;
    lemma_find_from_bounds(s, open, 0);
    assert(s.subrange(0, 2) =~= open);
    assert(find(s, open) == Some(0int));
    assert(s.skip(2) =~= (n + close) + q);
    crate::text::lemma_find_extend(n + close, close, q, n.len() as int);
    let ne: int = 2 + n.len() as int;
    assert(next_var(s) == Some((0int, ne)));
    assert(s.subrange(2, ne) =~= n);
    assert(s.skip(ne + 2) =~= q);
    assert(s.take(0) =~= Seq::<char>::empty());
    assert(s.take(ne + 2) =~= block);
}

/// A `{{name}}` on its own becomes the value of its trimmed name.
pub proof fn law_subst_known_variable(n: Seq<char>, v: Seq<char>, vars: Seq<(Seq<char>, Seq<char>)>)
    requires
        find(n + seq!['}', '}'], seq!['}', '}']) == Some(n.len() as int),
        env_get(vars, trim(n)) == Some(v),
    ensures
        subst(seq!['{', '{'] + n + seq!['}', '}'], vars) == v,
{
    law_subst_block_then_rest(n, seq![], vars);
    assert(seq!['{', '{'] + n + seq!['}', '}'] + Seq::<char>::empty() =~= seq!['{', '{'] + n
        + seq!['}', '}']);
    lemma_next_var_bounds(Seq::<char>::empty());
    lemma_find_from_bounds(Seq::<char>::empty(), seq!['{', '{'], 0);
    assert(subst(Seq::<char>::empty(), vars) == Seq::<char>::empty());
    assert(v + Seq::<char>::empty() =~= v);
}

} // verus!
