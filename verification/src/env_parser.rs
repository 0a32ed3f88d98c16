//! `.env` files read with warnings for the lines they skip or repeat, and
//! plain `{{key}}` replacement.
use crate::text::{
    append, append_str, chars_of, decimal, find, find_from_exec, lemma_find_from_bounds,
    lemma_find_shift, lines, matches_at, lines_exec, push_decimal, slice_vec, split_once, split_once_char,
    string_of, trim, trim_vec,
};
use crate::vars::{env_get, env_of_pairs, env_pairs, unquote_exec, EnvVars};
use vstd::prelude::*;

verus! {

/// The variables of an environment file and the warnings met reading it.
pub struct EnvParseResult {
    pub vars: EnvVars,
    pub warnings: Vec<String>,
}

pub open spec fn duplicate_warning(n: nat, key: Seq<char>) -> Seq<char> {
    "Line "@ + decimal(n) + ": duplicate key '"@ + key + "'"@
}

pub open spec fn skipped_warning(n: nat) -> Seq<char> {
    "Line "@ + decimal(n) + ": skipped (no '=' found)"@
}

/// One warning per line that has no `=`, and per assignment to a key that an
/// earlier line set; lines are numbered from 1.
pub open spec fn env_warnings(ls: Seq<Seq<char>>) -> Seq<Seq<char>>
    decreases ls.len(),
{
    if ls.len() == 0 {
        seq![]
    } else {
        let rest = env_warnings(ls.drop_last());
        let l = trim(ls.last());
        if l.len() == 0 || l[0] == '#' {
            rest
        } else {
            match split_once(l, seq!['=']) {
                Some((k, v)) => if env_get(env_of_pairs(env_pairs(ls.drop_last())), trim(k)) is Some {
                    rest.push(duplicate_warning(ls.len(), trim(k)))
                } else {
                    rest
                },
                None => rest.push(skipped_warning(ls.len())),
            }
        }
    }
}

pub open spec fn strings_view(v: Seq<String>) -> Seq<Seq<char>> {
    v.map_values(|s: String| s@)
}

/// Parse environment-file content: the variables as `vars::parse_env` reads
/// them, and the warnings for skipped and repeated lines.
pub fn parse_env_content(content: &str) -> (r: EnvParseResult)
    ensures
        r.vars@ == env_of_pairs(env_pairs(lines(content@))),
        strings_view(r.warnings@) == env_warnings(lines(content@)),
{
    let tc = chars_of(content);
    let ls = lines_exec(&tc);
    let ghost lsv = lines(content@);
    let mut vars = EnvVars::new();
    let mut warnings: Vec<String> = Vec::new();
    let mut i: usize = 0;
    assert(lsv.take(0) =~= Seq::<Seq<char>>::empty());
    assert(strings_view(warnings@) =~= Seq::<Seq<char>>::empty());
    while i < ls.len()
        invariant
            i <= ls@.len(),
            ls@.len() == lsv.len(),
            forall|k: int| 0 <= k < ls@.len() ==> #[trigger] ls@[k]@ == lsv[k],
            vars@ == env_of_pairs(env_pairs(lsv.take(i as int))),
            strings_view(warnings@) == env_warnings(lsv.take(i as int)),
        decreases ls@.len() - i,
    {
        proof {
            assert(lsv.take(i + 1).drop_last() =~= lsv.take(i as int));
            assert(lsv.take(i + 1).last() == lsv[i as int]);
        }
        let l = trim_vec(&ls[i]);
        let ghost w0 = strings_view(warnings@);
        if l.len() > 0 && l[0] != '#' {
            match split_once_char(&l, '=') {
                Some((k, v)) => {
                    let kt = trim_vec(&k);
                    let vt = trim_vec(&v);
                    let vu = unquote_exec(&vt);
                    let key = string_of(&kt);
                    if vars.get(key.as_str()).is_some() {
                        let mut msg = chars_of("Line ");
                        push_decimal(&mut msg, (i as u128) + 1);
                        append_str(&mut msg, ": duplicate key '");
                        append(&mut msg, &kt);
                        append_str(&mut msg, "'");
                        let ghost m = msg@;
                        warnings.push(string_of(&msg));
                        assert(strings_view(warnings@) =~= w0.push(m));
                    }
                    vars.insert(key, string_of(&vu));
                    proof {
                        let ps = env_pairs(lsv.take(i + 1));
                        assert(ps == env_pairs(lsv.take(i as int)).push((kt@, vu@)));
                        assert(ps.drop_last() =~= env_pairs(lsv.take(i as int)));
                    }
                },
                None => {
                    let mut msg = chars_of("Line ");
                    push_decimal(&mut msg, (i as u128) + 1);
                    append_str(&mut msg, ": skipped (no '=' found)");
                    let ghost m = msg@;
                    warnings.push(string_of(&msg));
                    assert(strings_view(warnings@) =~= w0.push(m));
                },
            }
        }
        i += 1;
    }
    assert(lsv.take(ls@.len() as int) =~= lsv);
    EnvParseResult { vars, warnings }
}

// ---------------------------------------------------------------------------
// Replacement
// ---------------------------------------------------------------------------

/// `str::replace`: every non-overlapping occurrence of `p`, from the left,
/// replaced by `v`.
pub open spec fn replace_all(s: Seq<char>, p: Seq<char>, v: Seq<char>) -> Seq<char>
    decreases s.len(),
{
    if p.len() == 0 {
        s
    } else {
        match find(s, p) {
            None => s,
            Some(i) => {
                proof {
                    lemma_find_from_bounds(s, p, 0);
                }
                s.take(i) + v + replace_all(s.skip(i + p.len()), p, v)
            },
        }
    }
}

/// `text.replace(p, v)` for a non-empty pattern.
pub fn replace_exec(s: &[char], p: &[char], v: &[char]) -> (r: Vec<char>)
    requires
        p@.len() > 0,
    ensures
        r@ == replace_all(s@, p@, v@),
{
    let mut out: Vec<char> = Vec::new();
    let mut pos: usize = 0;
    assert(s@.skip(0) =~= s@);
    loop
        invariant
            pos <= s@.len(),
            p@.len() > 0,
            replace_all(s@, p@, v@) == out@ + replace_all(s@.skip(pos as int), p@, v@),
        decreases s@.len() - pos,
    {
        let ghost rest = s@.skip(pos as int);
        proof {
            lemma_find_shift(s@, p@, pos as int, pos as int);
            lemma_find_from_bounds(s@, p@, pos as int);
        }
        match find_from_exec(s, p, pos) {
            None => {
                let tail = slice_vec(s, pos, s.len());
                assert(tail@ =~= rest);
                append(&mut out, &tail);
                return out;
            },
            Some(i) => {
                assert(crate::text::matches_at(s@, p@, i as int));
                let n = s.len();
                assert(i + p@.len() <= n);
                let head = slice_vec(s, pos, i);
                let ghost before = out@;
                append(&mut out, &head);
                append(&mut out, v);
                proof {
                    assert(head@ =~= rest.take(i - pos));
                    assert(rest.skip(i - pos + p@.len()) =~= s@.skip(i + p@.len()));
                    assert(before + head@ + v@ + replace_all(s@.skip(i + p@.len()), p@, v@)
                        =~= before + (rest.take(i - pos) + v@ + replace_all(
                        rest.skip(i - pos + p@.len()),
                        p@,
                        v@,
                    )));
                }
                pos = i + p.len();
            },
        }
    }
}

/// The placeholder written for a variable.
pub open spec fn placeholder(key: Seq<char>) -> Seq<char> {
    "{{"@ + key + "}}"@
}

/// Each variable's placeholder replaced by its value, one variable after the
/// other in the order of `vars`.
pub open spec fn substitute_all(text: Seq<char>, vars: Seq<(Seq<char>, Seq<char>)>) -> Seq<char>
    decreases vars.len(),
{
    if vars.len() == 0 {
        text
    } else {
        let t = substitute_all(text, vars.drop_last());
        replace_all(t, placeholder(vars.last().0), vars.last().1)
    }
}

/// Replace every `{{key}}` with its value, variable by variable.
pub fn substitute_variables(text: &str, variables: &EnvVars) -> (r: String)
    ensures
        r@ == substitute_all(text@, variables@),
{
    let entries = variables.entries();
    let mut result = chars_of(text);
    let mut i: usize = 0;
    let ghost vs = variables@;
    assert(vs.take(0) =~= Seq::<(Seq<char>, Seq<char>)>::empty());
    while i < entries.len()
        invariant
            i <= entries@.len(),
            crate::vars::pairs_view(entries@) == vs,
            result@ == substitute_all(text@, vs.take(i as int)),
        decreases entries@.len() - i,
    {
        let mut pattern = chars_of("{{");
        append_str(&mut pattern, entries[i].0.as_str());
        append_str(&mut pattern, "}}");
        proof {
            reveal_strlit("{{");
            assert(vs.take(i + 1).drop_last() =~= vs.take(i as int));
            assert(vs.take(i + 1).last() == vs[i as int]);
            assert(pattern@ == placeholder(vs[i as int].0));
        }
        let value = chars_of(entries[i].1.as_str());
        result = replace_exec(&result, &pattern, &value);
        i += 1;
    }
    assert(vs.take(vs.len() as int) =~= vs);
    string_of(&result)
}

} // verus!
