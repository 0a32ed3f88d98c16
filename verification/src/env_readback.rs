//! An imported environment file reads back as the variables that were
//! imported, under their cleaned names.
use crate::import::{env_content_spec, env_key_spec, env_line, env_value_spec, escape_quotes, key_char, needs_quotes};
use crate::text::{
    find, is_trimmed, is_ws, lacks, lemma_find_char_after, lemma_find_from_bounds,
    lemma_find_from_skip, lemma_trim_trimmed, lines, matches_at, split_once, trim,
};
use crate::vars::{env_of_pairs, env_pairs, parse_env_spec, unquote};
use vstd::prelude::*;

verus! {

/// A value that the environment file gives back unchanged: on one line and
/// without `"` (which the file escapes and reading does not unescape); one
/// written without quotes must also have no whitespace at its ends and not
/// be wrapped in a pair of `'`.
pub open spec fn value_reads_back(v: Seq<char>) -> bool {
    &&& lacks(v, '\n')
    &&& lacks(v, '"')
    &&& (!(exists|i: int| 0 <= i < v.len() && needs_quotes(#[trigger] v[i])) ==> trim(v) == v
        && unquote(v) == v)
}

/// The variables with their names cleaned as the file writes them.
pub open spec fn cleaned_pairs(vars: Seq<(Seq<char>, Seq<char>)>) -> Seq<(Seq<char>, Seq<char>)>
    decreases vars.len(),
{
    if vars.len() == 0 {
        Seq::empty()
    } else {
        cleaned_pairs(vars.drop_last()).push((env_key_spec(vars.last().0), vars.last().1))
    }
}

/// `lines` of a text that ends with a newline (or is empty), one more line
/// and a newline.
proof fn lemma_lines_append(s: Seq<char>, a: Seq<char>)
    requires
        s.len() == 0 || s.last() == '\n',
        lacks(a, '\n'),
    ensures
        lines(s + a + seq!['\n']) == lines(s).push(crate::kv::strip_cr(a)),
    decreases s.len(),
{
    if s.len() == 0 {
        assert(s + a + seq!['\n'] =~= a + seq!['\n'] + Seq::<char>::empty());
        crate::kv::lemma_lines_front(a, Seq::<char>::empty());
        assert(lines(Seq::<char>::empty()) =~= Seq::<Seq<char>>::empty());
        assert(lines(s) =~= Seq::<Seq<char>>::empty());
        assert(seq![crate::kv::strip_cr(a)] + Seq::<Seq<char>>::empty() =~= lines(s).push(
            crate::kv::strip_cr(a),
        ));
    } else {
        let t = s + a + seq!['\n'];
        let nl = seq!['\n'];
        lemma_find_from_bounds(s, nl, 0);
        assert(matches_at(s, nl, s.len() - 1)) by {
            assert(s.subrange(s.len() - 1, s.len() as int) =~= nl);
        }
        let i = find(s, nl)->0;
        assert forall|j: int| 0 <= j < i implies !matches_at(t, nl, j) by {
            assert(t.subrange(j, j + 1) =~= s.subrange(j, j + 1));
            assert(!matches_at(s, nl, j));
        }
        assert(matches_at(t, nl, i)) by {
            assert(t.subrange(i, i + 1) =~= s.subrange(i, i + 1));
        }
        lemma_find_from_skip(t, nl, 0, i);
        assert(find(t, nl) == Some(i));
        assert(t.take(i) =~= s.take(i));
        let rest = s.skip(i + 1);
        assert(t.skip(i + 1) =~= rest + a + nl);
        if rest.len() > 0 {
            assert(rest.last() == s.last());
        }
        lemma_lines_append(rest, a);
        assert(lines(s) == seq![lines(s)[0]] + lines(rest));
        assert(lines(t) =~= lines(s).push(crate::kv::strip_cr(a)));
    }
}

proof fn lemma_content_ends_with_newline(vars: Seq<(Seq<char>, Seq<char>)>)
    ensures
        env_content_spec(vars).len() == 0 || env_content_spec(vars).last() == '\n',
{
    if vars.len() > 0 {
        let l = env_line(vars.last());
        assert(l.last() == '\n');
        assert(env_content_spec(vars) == env_content_spec(vars.drop_last()) + l);
    }
}

proof fn lemma_key_chars(k: Seq<char>)
    ensures
        forall|i: int|
            0 <= i < env_key_spec(k).len() ==> {
                let c = #[trigger] env_key_spec(k)[i];
                c != '=' && c != '\n' && c != '#' && !is_ws(c)
            },
{
    let m = k.map_values(|c: char| key_char(c));
    assert forall|i: int| 0 <= i < m.len() implies {
        let c = #[trigger] m[i];
        c != '=' && c != '\n' && c != '#' && !is_ws(c)
    } by {
        assert(m[i] == key_char(k[i]));
    }
    if m.len() > 0 && '0' <= m[0] && m[0] <= '9' {
        let e = seq!['_'] + m;
        assert forall|i: int| 0 <= i < e.len() implies {
            let c = #[trigger] e[i];
            c != '=' && c != '\n' && c != '#' && !is_ws(c)
        } by {
            if i > 0 {
                assert(e[i] == m[i - 1]);
            }
        }
    }
}

proof fn lemma_escape_quotes_plain(v: Seq<char>)
    requires
        lacks(v, '"'),
    ensures
        escape_quotes(v) == v,
    decreases v.len(),
{
    if v.len() > 0 {
        assert(lacks(v.drop_last(), '"')) by {
            assert forall|i: int| 0 <= i < v.drop_last().len() implies v.drop_last()[i] != '"' by {
                assert(v.drop_last()[i] == v[i]);
            }
        }
        lemma_escape_quotes_plain(v.drop_last());
        assert(v.last() != '"');
        assert(v.drop_last() + seq![v.last()] =~= v);
    }
}

/// One line of the file reads back as the cleaned pair.
proof fn lemma_line_reads_back(k: Seq<char>, v: Seq<char>)
    requires
        value_reads_back(v),
    ensures
        lacks(env_key_spec(k) + seq!['='] + env_value_spec(v), '\n'),
        env_pairs(seq![env_key_spec(k) + seq!['='] + env_value_spec(v)]) == seq![(env_key_spec(k), v)],
        crate::kv::strip_cr(env_key_spec(k) + seq!['='] + env_value_spec(v)) == env_key_spec(k)
            + seq!['='] + env_value_spec(v),
        ({
            let a = env_key_spec(k) + seq!['='] + env_value_spec(v);
            &&& trim(a) == a
            &&& a.len() > 0
            &&& a[0] != '#'
            &&& split_once(a, seq!['=']) == Some((env_key_spec(k), env_value_spec(v)))
            &&& trim(env_key_spec(k)) == env_key_spec(k)
            &&& unquote(trim(env_value_spec(v))) == v
        }),
{
    let key = env_key_spec(k);
    let val = env_value_spec(v);
    let a = key + seq!['='] + val;
    lemma_key_chars(k);
    let quoted = exists|i: int| 0 <= i < v.len() && needs_quotes(#[trigger] v[i]);
    if quoted {
        lemma_escape_quotes_plain(v);
        assert(val =~= seq!['"'] + v + seq!['"']);
    } else {
        assert(val == v);
    }
    assert(lacks(val, '\n')) by {
        assert forall|i: int| 0 <= i < val.len() implies val[i] != '\n' by {
            if quoted && i > 0 && i < val.len() - 1 {
                assert(val[i] == v[i - 1]);
            }
        }
    }
    assert(lacks(a, '\n')) by {
        assert forall|i: int| 0 <= i < a.len() implies a[i] != '\n' by {
            if i < key.len() {
                assert(a[i] == key[i]);
            } else if i > key.len() {
                assert(a[i] == val[i - key.len() - 1]);
            }
        }
    }
    assert(is_trimmed(val)) by {
        if !quoted && val.len() > 0 {
            crate::text::lemma_trim_start_shape(v);
            crate::text::lemma_trim_end_shape(crate::text::trim_start(v));
        }
    }
    assert(a.last() != '\r' && !is_ws(a.last())) by {
        if val.len() > 0 {
            assert(a.last() == val.last());
        }
    }
    assert(is_trimmed(a)) by {
        if key.len() > 0 {
            assert(a[0] == key[0]);
        }
    }
    lemma_trim_trimmed(a);
    assert(lacks(key, '=')) by {
        assert forall|i: int| 0 <= i < key.len() implies key[i] != '=' by {}
    }
    lemma_find_char_after(key, '=', val);
    assert(a.take(key.len() as int) =~= key);
    assert(a.skip(key.len() + 1int) =~= val);
    assert(split_once(a, seq!['=']) == Some((key, val)));
    assert(is_trimmed(key)) by {
        if key.len() > 0 {
            assert(!is_ws(key[0]) && !is_ws(key.last()));
        }
    }
    lemma_trim_trimmed(key);
    lemma_trim_trimmed(val);
    assert(unquote(val) == v) by {
        if quoted {
            assert(val.subrange(1, val.len() - 1) =~= v);
        }
    }
    assert(a.len() > 0 && a[0] != '#') by {
        if key.len() > 0 {
            assert(a[0] == key[0]);
        } else {
            assert(a[0] == '=');
        }
    }
    let one = seq![a];
    assert(one.drop_last() =~= Seq::<Seq<char>>::empty());
    assert(env_pairs(one) == env_pairs(Seq::<Seq<char>>::empty()).push((key, v)));
    assert(env_pairs(Seq::<Seq<char>>::empty()) =~= Seq::<(Seq<char>, Seq<char>)>::empty());
}

proof fn lemma_pairs_read_back(vars: Seq<(Seq<char>, Seq<char>)>)
    requires
        forall|i: int| 0 <= i < vars.len() ==> value_reads_back(#[trigger] vars[i].1),
    ensures
        env_pairs(lines(env_content_spec(vars))) == cleaned_pairs(vars),
    decreases vars.len(),
{
    if vars.len() == 0 {
        assert(lines(Seq::<char>::empty()) =~= Seq::<Seq<char>>::empty());
    } else {
        let init = vars.drop_last();
        assert forall|i: int| 0 <= i < init.len() implies value_reads_back(#[trigger] init[i].1) by {
            assert(init[i] == vars[i]);
        }
        lemma_pairs_read_back(init);
        let (k, v) = vars.last();
        assert(value_reads_back(vars[vars.len() - 1].1));
        lemma_line_reads_back(k, v);
        let a = env_key_spec(k) + seq!['='] + env_value_spec(v);
        let c0 = env_content_spec(init);
        lemma_content_ends_with_newline(init);
        assert(env_content_spec(vars) =~= c0 + a + seq!['\n']);
        lemma_lines_append(c0, a);
        let ls = lines(c0).push(a);
        assert(ls.drop_last() =~= lines(c0));
        assert(ls.last() == a);
        assert(env_pairs(ls) == env_pairs(lines(c0)).push((env_key_spec(k), v)));
        assert(cleaned_pairs(vars) == cleaned_pairs(init).push((env_key_spec(k), v)));
    }
}

/// The environment file an import writes reads back as the imported
/// variables under their cleaned names, set in order (a later variable with
/// the same cleaned name wins), for values that `value_reads_back`.
pub proof fn law_env_file_reads_back(vars: Seq<(Seq<char>, Seq<char>)>)
    requires
        forall|i: int| 0 <= i < vars.len() ==> value_reads_back(#[trigger] vars[i].1),
    ensures
        parse_env_spec(env_content_spec(vars)) == env_of_pairs(cleaned_pairs(vars)),
{
    lemma_pairs_read_back(vars);
}

/// One `KEY=value` line as an importer writes it, with or without the
/// newline after it, reads back as that variable under its cleaned name.
pub proof fn law_env_line_reads_back(k: Seq<char>, v: Seq<char>)
    requires
        value_reads_back(v),
    ensures
        parse_env_spec(env_key_spec(k) + seq!['='] + env_value_spec(v)) == seq![(env_key_spec(k), v)],
        parse_env_spec(env_key_spec(k) + seq!['='] + env_value_spec(v) + seq!['\n']) == seq![
            (env_key_spec(k), v),
        ],
{
    let a = env_key_spec(k) + seq!['='] + env_value_spec(v);
    lemma_line_reads_back(k, v);
    crate::kv::lemma_lines_single(a);
    assert(lines(a) == seq![a]);
    let one = seq![(env_key_spec(k), v)];
    assert(one.drop_last() =~= Seq::<(Seq<char>, Seq<char>)>::empty());
    assert(env_of_pairs(Seq::<(Seq<char>, Seq<char>)>::empty()) =~= Seq::<(Seq<char>, Seq<char>)>::empty());
    assert(env_of_pairs(one) =~= one);
    law_env_file_reads_back(seq![(k, v)]);
    let vars = seq![(k, v)];
    assert(vars.drop_last() =~= Seq::<(Seq<char>, Seq<char>)>::empty());
    assert(vars.last() == (k, v));
    assert(env_content_spec(Seq::<(Seq<char>, Seq<char>)>::empty()) == Seq::<char>::empty());
    assert(env_line((k, v)) == a + seq!['\n']);
    assert(env_content_spec(vars) == Seq::<char>::empty() + env_line((k, v)));
    assert(env_content_spec(vars) =~= a + seq!['\n']);
    assert(cleaned_pairs(Seq::<(Seq<char>, Seq<char>)>::empty()) == Seq::<(Seq<char>, Seq<char>)>::empty());
    assert(cleaned_pairs(vars) == Seq::<(Seq<char>, Seq<char>)>::empty().push((env_key_spec(k), v)));
    assert(cleaned_pairs(vars) =~= one);
}

} // verus!
