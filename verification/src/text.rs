//! Character-sequence primitives shared by every parser of the crate.
//!
//! Text is handled as a sequence of `char`s (`Seq<char>` in specifications,
//! `Vec<char>` / `&[char]` in code). The spec functions here restate the
//! behaviour of the `str` methods the parsers rely on (`trim`, `find`,
//! `split_once`, `lines`, ...), so every contract of the crate is written over
//! plain sequences.
use vstd::prelude::*;
use vstd::utf8::{decode_utf8, valid_utf8};

verus! {

// ---------------------------------------------------------------------------
// Whitespace and trimming
// ---------------------------------------------------------------------------

/// The Unicode `White_Space` property, which is what `char::is_whitespace`
/// tests.
pub open spec fn is_ws(c: char) -> bool {
    ||| c == ' '
    ||| ('\t' <= c && c <= '\r')
    ||| c == '\u{85}'
    ||| c == '\u{a0}'
    ||| c == '\u{1680}'
    ||| ('\u{2000}' <= c && c <= '\u{200a}')
    ||| c == '\u{2028}'
    ||| c == '\u{2029}'
    ||| c == '\u{202f}'
    ||| c == '\u{205f}'
    ||| c == '\u{3000}'
}

pub fn is_whitespace(c: char) -> (r: bool)
    ensures
        r == is_ws(c),
{
    c == ' ' || ('\t' <= c && c <= '\r') || c == '\u{85}' || c == '\u{a0}' || c == '\u{1680}'
        || ('\u{2000}' <= c && c <= '\u{200a}') || c == '\u{2028}' || c == '\u{2029}' || c
        == '\u{202f}' || c == '\u{205f}' || c == '\u{3000}'
}

/// `str::trim_start`.
pub open spec fn trim_start(s: Seq<char>) -> Seq<char>
    decreases s.len(),
{
    if s.len() > 0 && is_ws(s[0]) {
        trim_start(s.drop_first())
    } else {
        s
    }
}

/// `str::trim_end`.
pub open spec fn trim_end(s: Seq<char>) -> Seq<char>
    decreases s.len(),
{
    if s.len() > 0 && is_ws(s.last()) {
        trim_end(s.drop_last())
    } else {
        s
    }
}

/// `str::trim`.
pub open spec fn trim(s: Seq<char>) -> Seq<char> {
    trim_end(trim_start(s))
}

/// `s` has no whitespace at either end.
pub open spec fn is_trimmed(s: Seq<char>) -> bool {
    s.len() > 0 ==> (!is_ws(s[0]) && !is_ws(s.last()))
}

// ---------------------------------------------------------------------------
// Prefixes, suffixes, search
// ---------------------------------------------------------------------------

pub open spec fn starts_with(s: Seq<char>, p: Seq<char>) -> bool {
    p.len() <= s.len() && s.take(p.len() as int) == p
}

pub open spec fn ends_with(s: Seq<char>, p: Seq<char>) -> bool {
    p.len() <= s.len() && s.skip(s.len() - p.len()) == p
}

pub open spec fn matches_at(s: Seq<char>, p: Seq<char>, i: int) -> bool {
    0 <= i && i + p.len() <= s.len() && s.subrange(i, i + p.len()) == p
}

/// First occurrence of `p` in `s` at or after `i`.
pub open spec fn find_from(s: Seq<char>, p: Seq<char>, i: int) -> Option<int>
    decreases s.len() + 1 - i,
{
    if i < 0 || i + p.len() > s.len() {
        None
    } else if s.subrange(i, i + p.len()) == p {
        Some(i)
    } else {
        find_from(s, p, i + 1)
    }
}

/// `str::find`.
pub open spec fn find(s: Seq<char>, p: Seq<char>) -> Option<int> {
    find_from(s, p, 0)
}

/// `str::contains`.
pub open spec fn contains(s: Seq<char>, p: Seq<char>) -> bool {
    find(s, p) is Some
}

/// `str::split_once`.
pub open spec fn split_once(s: Seq<char>, p: Seq<char>) -> Option<(Seq<char>, Seq<char>)> {
    match find(s, p) {
        Some(i) => Some((s.take(i), s.skip(i + p.len()))),
        None => None,
    }
}

/// `str::strip_prefix`.
pub open spec fn strip_prefix(s: Seq<char>, p: Seq<char>) -> Option<Seq<char>> {
    if starts_with(s, p) {
        Some(s.skip(p.len() as int))
    } else {
        None
    }
}

/// `str::lines`: split at `\n`, drop a `\r` right before it, and no empty
/// last line after a final `\n`.
pub open spec fn lines(s: Seq<char>) -> Seq<Seq<char>>
    decreases s.len(),
{
    if s.len() == 0 {
        Seq::empty()
    } else {
        match find(s, seq!['\n']) {
            None => seq![s],
            Some(i) => {
                proof {
                    lemma_find_from_bounds(s, seq!['\n'], 0);
                }
                let line = s.take(i);
                let line = if line.len() > 0 && line.last() == '\r' {
                    line.drop_last()
                } else {
                    line
                };
                seq![line] + lines(s.skip(i + 1))
            },
        }
    }
}

// ---------------------------------------------------------------------------
// Lemmas
// ---------------------------------------------------------------------------

pub proof fn lemma_find_from_bounds(s: Seq<char>, p: Seq<char>, i: int)
    requires
        0 <= i,
    ensures
        find_from(s, p, i) matches Some(k) ==> (i <= k && matches_at(s, p, k) && forall|j: int|
            i <= j < k ==> !matches_at(s, p, j)),
        find_from(s, p, i) is None ==> forall|j: int| i <= j ==> !matches_at(s, p, j),
    decreases s.len() + 1 - i,
{
    if i + p.len() > s.len() {
    } else if s.subrange(i, i + p.len()) == p {
    } else {
        lemma_find_from_bounds(s, p, i + 1);
        assert(!matches_at(s, p, i));
    }
}

/// A loop that scanned `[i, j)` without a match may continue from `j`.
pub proof fn lemma_find_from_skip(s: Seq<char>, p: Seq<char>, i: int, j: int)
    requires
        0 <= i <= j,
        forall|k: int| i <= k < j ==> !matches_at(s, p, k),
    ensures
        find_from(s, p, i) == find_from(s, p, j),
    decreases j - i,
{
    if i < j {
        if i + p.len() > s.len() {
            lemma_find_from_bounds(s, p, j);
            lemma_find_from_bounds(s, p, i);
        } else {
            assert(!matches_at(s, p, i));
            lemma_find_from_skip(s, p, i + 1, j);
        }
    }
}

pub proof fn lemma_trim_start_skip(s: Seq<char>, i: int)
    requires
        0 <= i <= s.len(),
        forall|k: int| 0 <= k < i ==> is_ws(s[k]),
    ensures
        trim_start(s) == trim_start(s.skip(i)),
    decreases i,
{
    if i > 0 {
        assert(s.drop_first().skip(i - 1) =~= s.skip(i));
        lemma_trim_start_skip(s.drop_first(), i - 1);
    } else {
        assert(s.skip(0) =~= s);
    }
}

pub proof fn lemma_trim_end_take(s: Seq<char>, i: int)
    requires
        0 <= i <= s.len(),
        forall|k: int| i <= k < s.len() ==> is_ws(s[k]),
    ensures
        trim_end(s) == trim_end(s.take(i)),
    decreases s.len() - i,
{
    if i < s.len() {
        assert(s.drop_last().take(i) =~= s.take(i));
        lemma_trim_end_take(s.drop_last(), i);
    } else {
        assert(s.take(i) =~= s);
    }
}

pub proof fn lemma_trim_start_shape(s: Seq<char>)
    ensures
        exists|k: int|
            0 <= k <= s.len() && trim_start(s) == s.skip(k) && (forall|j: int|
                0 <= j < k ==> is_ws(s[j])),
        trim_start(s).len() > 0 ==> !is_ws(trim_start(s)[0]),
    decreases s.len(),
{
    if s.len() > 0 && is_ws(s[0]) {
        lemma_trim_start_shape(s.drop_first());
        let k = choose|k: int|
            0 <= k <= s.drop_first().len() && trim_start(s.drop_first()) == s.drop_first().skip(k)
                && (forall|j: int| 0 <= j < k ==> is_ws(s.drop_first()[j]));
        assert(s.drop_first().skip(k) =~= s.skip(k + 1));
        assert forall|j: int| 0 <= j < k + 1 implies is_ws(s[j]) by {
            if j > 0 {
                assert(s[j] == s.drop_first()[j - 1]);
            }
        }
    } else {
        assert(s.skip(0) =~= s);
        assert(0 <= 0 <= s.len() && trim_start(s) == s.skip(0) && (forall|j: int|
            0 <= j < 0 ==> is_ws(s[j])));
    }
}

pub proof fn lemma_trim_end_shape(s: Seq<char>)
    ensures
        exists|k: int|
            0 <= k <= s.len() && trim_end(s) == s.take(k) && (forall|j: int|
                k <= j < s.len() ==> is_ws(s[j])),
        trim_end(s).len() > 0 ==> !is_ws(trim_end(s).last()),
    decreases s.len(),
{
    if s.len() > 0 && is_ws(s.last()) {
        lemma_trim_end_shape(s.drop_last());
        let k = choose|k: int|
            0 <= k <= s.drop_last().len() && trim_end(s.drop_last()) == s.drop_last().take(k)
                && (forall|j: int| k <= j < s.drop_last().len() ==> is_ws(s.drop_last()[j]));
        assert(s.drop_last().take(k) =~= s.take(k));
        assert forall|j: int| k <= j < s.len() implies is_ws(s[j]) by {
            if j < s.len() - 1 {
                assert(s[j] == s.drop_last()[j]);
            }
        }
    } else {
        assert(s.take(s.len() as int) =~= s);
        assert(0 <= s.len() <= s.len() && trim_end(s) == s.take(s.len() as int) && (forall|j: int|
            s.len() <= j < s.len() ==> is_ws(s[j])));
    }
}

/// A string with no whitespace at its ends is its own trim.
pub proof fn lemma_trim_trimmed(s: Seq<char>)
    requires
        is_trimmed(s),
    ensures
        trim(s) == s,
        trim_start(s) == s,
        trim_end(s) == s,
{
}

// ---------------------------------------------------------------------------
// Conversions between `str` and character vectors
// ---------------------------------------------------------------------------

/// The characters of `s`, via `str::chars`.
#[verifier::external_body]
pub fn chars_of(s: &str) -> (r: Vec<char>)
    ensures
        r@ == s@,
{
    s.chars().collect()
}

/// The string made of `v`, via `FromIterator<&char> for String`.
#[verifier::external_body]
pub fn string_of(v: &[char]) -> (r: String)
    ensures
        r@ == v@,
{
    v.iter().collect()
}

// ---------------------------------------------------------------------------
// Executable operations on character slices
// ---------------------------------------------------------------------------

/// `s[lo..hi]` as a new vector.
pub fn slice_vec(s: &[char], lo: usize, hi: usize) -> (r: Vec<char>)
    requires
        lo <= hi <= s@.len(),
    ensures
        r@ == s@.subrange(lo as int, hi as int),
{
    let mut r: Vec<char> = Vec::new();
    let mut i = lo;
    while i < hi
        invariant
            lo <= i <= hi <= s@.len(),
            r@ == s@.subrange(lo as int, i as int),
        decreases hi - i,
    {
        r.push(s[i]);
        i += 1;
        assert(r@ =~= s@.subrange(lo as int, i as int));
    }
    r
}

/// Append all of `b` to `a`.
pub fn append(a: &mut Vec<char>, b: &[char])
    ensures
        final(a)@ == old(a)@ + b@,
{
    let mut i: usize = 0;
    let ghost a0 = a@;
    while i < b.len()
        invariant
            i <= b@.len(),
            a@ == a0 + b@.take(i as int),
        decreases b@.len() - i,
    {
        a.push(b[i]);
        i += 1;
        assert(a@ =~= a0 + b@.take(i as int));
    }
    assert(b@.take(b@.len() as int) =~= b@);
}

/// Append the characters of a `str` to `a`.
pub fn append_str(a: &mut Vec<char>, b: &str)
    ensures
        final(a)@ == old(a)@ + b@,
{
    let v = chars_of(b);
    append(a, &v);
}

pub fn eq_chars(a: &[char], b: &[char]) -> (r: bool)
    ensures
        r == (a@ == b@),
{
    if a.len() != b.len() {
        return false;
    }
    let mut i: usize = 0;
    while i < a.len()
        invariant
            a@.len() == b@.len(),
            i <= a@.len(),
            forall|k: int| 0 <= k < i ==> a@[k] == b@[k],
        decreases a@.len() - i,
    {
        if a[i] != b[i] {
            return false;
        }
        i += 1;
    }
    assert(a@ =~= b@);
    true
}

/// Whether `a` equals the literal text `b`.
pub fn eq_str(a: &[char], b: &str) -> (r: bool)
    ensures
        r == (a@ == b@),
{
    let v = chars_of(b);
    eq_chars(a, &v)
}

/// Whether `p` occurs in `s` at index `i`.
pub fn matches_at_exec(s: &[char], p: &[char], i: usize) -> (r: bool)
    ensures
        r == matches_at(s@, p@, i as int),
{
    if i > s.len() || p.len() > s.len() - i {
        return false;
    }
    let mut k: usize = 0;
    while k < p.len()
        invariant
            i + p@.len() <= s@.len(),
            k <= p@.len(),
            forall|j: int| 0 <= j < k ==> s@[i + j] == p@[j],
        decreases p@.len() - k,
    {
        let n = s.len();
        assert(i + k < n);
        if s[i + k] != p[k] {
            assert(s@.subrange(i as int, i + p@.len())[k as int] != p@[k as int]);
            return false;
        }
        k += 1;
    }
    assert(s@.subrange(i as int, i + p@.len()) =~= p@);
    true
}

pub fn starts_with_exec(s: &[char], p: &[char]) -> (r: bool)
    ensures
        r == starts_with(s@, p@),
{
    let r = matches_at_exec(s, p, 0);
    proof {
        if p@.len() <= s@.len() {
            assert(s@.take(p@.len() as int) =~= s@.subrange(0, p@.len() as int));
        }
    }
    r
}

pub fn starts_with_str(s: &[char], p: &str) -> (r: bool)
    ensures
        r == starts_with(s@, p@),
{
    let v = chars_of(p);
    starts_with_exec(s, &v)
}

pub fn ends_with_exec(s: &[char], p: &[char]) -> (r: bool)
    ensures
        r == ends_with(s@, p@),
{
    if p.len() > s.len() {
        return false;
    }
    let r = matches_at_exec(s, p, s.len() - p.len());
    proof {
        assert(s@.skip(s@.len() - p@.len()) =~= s@.subrange(
            s@.len() - p@.len(),
            s@.len() - p@.len() + p@.len(),
        ));
    }
    r
}

pub fn ends_with_str(s: &[char], p: &str) -> (r: bool)
    ensures
        r == ends_with(s@, p@),
{
    let v = chars_of(p);
    ends_with_exec(s, &v)
}

/// First occurrence of `p` in `s` at or after `from`.
pub fn find_from_exec(s: &[char], p: &[char], from: usize) -> (r: Option<usize>)
    ensures
        r matches Some(k) ==> find_from(s@, p@, from as int) == Some(k as int),
        r is None ==> find_from(s@, p@, from as int) is None,
{
    if p.len() == 0 {
        if from <= s.len() {
            assert(s@.subrange(from as int, from as int) =~= p@);
            return Some(from);
        }
        return None;
    }
    let mut i = from;
    while p.len() <= s.len() && i <= s.len() - p.len()
        invariant
            from <= i,
            p@.len() > 0,
            find_from(s@, p@, from as int) == find_from(s@, p@, i as int),
        decreases s@.len() + 1 - i,
    {
        if matches_at_exec(s, p, i) {
            return Some(i);
        }
        i += 1;
    }
    None
}

pub fn find_exec(s: &[char], p: &[char]) -> (r: Option<usize>)
    ensures
        r matches Some(k) ==> find(s@, p@) == Some(k as int),
        r is None ==> find(s@, p@) is None,
{
    find_from_exec(s, p, 0)
}

/// First occurrence of the character `c` in `s`.
pub fn find_char(s: &[char], c: char) -> (r: Option<usize>)
    ensures
        r matches Some(k) ==> find(s@, seq![c]) == Some(k as int),
        r is None ==> find(s@, seq![c]) is None,
{
    let p = vec![c];
    assert(p@ =~= seq![c]);
    find_exec(s, &p)
}

/// `trim_start` as an index: `s[r..]` is the trimmed text.
pub fn trim_start_index(s: &[char]) -> (r: usize)
    ensures
        r <= s@.len(),
        s@.skip(r as int) == trim_start(s@),
{
    let mut i: usize = 0;
    while i < s.len() && is_whitespace(s[i])
        invariant
            i <= s@.len(),
            forall|k: int| 0 <= k < i ==> is_ws(s@[k]),
        decreases s@.len() - i,
    {
        i += 1;
    }
    proof {
        lemma_trim_start_skip(s@, i as int);
        if i < s@.len() {
            assert(s@.skip(i as int)[0] == s@[i as int]);
        }
    }
    i
}

/// `trim_end` as an index: `s[..r]` is the trimmed text.
pub fn trim_end_index(s: &[char]) -> (r: usize)
    ensures
        r <= s@.len(),
        s@.take(r as int) == trim_end(s@),
{
    let mut i: usize = s.len();
    while i > 0 && is_whitespace(s[i - 1])
        invariant
            i <= s@.len(),
            forall|k: int| i <= k < s@.len() ==> is_ws(s@[k]),
        decreases i,
    {
        i -= 1;
    }
    proof {
        lemma_trim_end_take(s@, i as int);
        if i > 0 {
            assert(s@.take(i as int).last() == s@[i - 1]);
        }
    }
    i
}

pub fn trim_start_vec(s: &[char]) -> (r: Vec<char>)
    ensures
        r@ == trim_start(s@),
{
    let i = trim_start_index(s);
    let r = slice_vec(s, i, s.len());
    assert(r@ =~= s@.skip(i as int));
    r
}

pub fn trim_end_vec(s: &[char]) -> (r: Vec<char>)
    ensures
        r@ == trim_end(s@),
{
    let i = trim_end_index(s);
    let r = slice_vec(s, 0, i);
    assert(r@ =~= s@.take(i as int));
    r
}

pub fn trim_vec(s: &[char]) -> (r: Vec<char>)
    ensures
        r@ == trim(s@),
{
    let a = trim_start_vec(s);
    trim_end_vec(&a)
}

/// `split_once` as a pair of new vectors.
pub fn split_once_exec(s: &[char], p: &[char]) -> (r: Option<(Vec<char>, Vec<char>)>)
    ensures
        r matches Some(pair) ==> split_once(s@, p@) == Some((pair.0@, pair.1@)),
        r is None ==> split_once(s@, p@) is None,
{
    match find_exec(s, p) {
        None => None,
        Some(i) => {
            proof {
                lemma_find_from_bounds(s@, p@, 0);
            }
            let n = s.len();
            assert(i + p@.len() <= n);
            let a = slice_vec(s, 0, i);
            let b = slice_vec(s, i + p.len(), s.len());
            assert(a@ =~= s@.take(i as int));
            assert(b@ =~= s@.skip(i + p@.len()));
            Some((a, b))
        },
    }
}

pub fn split_once_char(s: &[char], c: char) -> (r: Option<(Vec<char>, Vec<char>)>)
    ensures
        r matches Some(pair) ==> split_once(s@, seq![c]) == Some((pair.0@, pair.1@)),
        r is None ==> split_once(s@, seq![c]) is None,
{
    let p = vec![c];
    assert(p@ =~= seq![c]);
    split_once_exec(s, &p)
}

/// `str::lines`.
pub fn lines_exec(s: &[char]) -> (r: Vec<Vec<char>>)
    ensures
        r@.len() == lines(s@).len(),
        forall|k: int| 0 <= k < r@.len() ==> #[trigger] r@[k]@ == lines(s@)[k],
{
    let mut out: Vec<Vec<char>> = Vec::new();
    let mut pos: usize = 0;
    assert(s@.skip(0) =~= s@);
    assert(out@.map_values(|v: Vec<char>| v@) =~= Seq::<Seq<char>>::empty());
    while pos < s.len()
        invariant
            pos <= s@.len(),
            lines(s@) == out@.map_values(|v: Vec<char>| v@) + lines(s@.skip(pos as int)),
        decreases s@.len() - pos,
    {
        let ghost rest = s@.skip(pos as int);
        let ghost before = out@.map_values(|v: Vec<char>| v@);
        let mut i = pos;
        while i < s.len() && s[i] != '\n'
            invariant
                pos <= i <= s@.len(),
                forall|k: int| pos <= k < i ==> s@[k] != '\n',
            decreases s@.len() - i,
        {
            i += 1;
        }
        proof {
            assert forall|k: int| 0 <= k < i - pos implies !matches_at(rest, seq!['\n'], k) by {
                assert(rest[k] == s@[pos + k]);
                if matches_at(rest, seq!['\n'], k) {
                    assert(rest.subrange(k, k + 1)[0] == rest[k]);
                }
            }
            lemma_find_from_skip(rest, seq!['\n'], 0, i - pos);
        }
        if i < s.len() {
            let mut end = i;
            if end > pos && s[end - 1] == '\r' {
                end -= 1;
            }
            let line = slice_vec(s, pos, end);
            proof {
                assert(rest.subrange(i - pos, i - pos + 1) =~= seq!['\n']);
                assert(find(rest, seq!['\n']) == Some(i - pos));
                assert(rest.take(i - pos) =~= s@.subrange(pos as int, i as int));
                assert(rest.skip(i - pos + 1) =~= s@.skip(i + 1));
                if i > pos && s@[i - 1] == '\r' {
                    assert(rest.take(i - pos).drop_last() =~= line@);
                } else {
                    assert(rest.take(i - pos) =~= line@);
                }
                assert(lines(rest) == seq![line@] + lines(s@.skip(i + 1)));
            }
            out.push(line);
            proof {
                assert(out@.map_values(|v: Vec<char>| v@) =~= before.push(line@));
                assert(before.push(line@) + lines(s@.skip(i + 1)) =~= before + (seq![line@]
                    + lines(s@.skip(i + 1))));
            }
            pos = i + 1;
        } else {
            proof {
                lemma_find_from_bounds(rest, seq!['\n'], i - pos);
                assert(rest =~= s@.subrange(pos as int, i as int));
                assert(find(rest, seq!['\n']) is None);
                assert(lines(rest) == seq![rest]);
            }
            let whole = slice_vec(s, pos, s.len());
            out.push(whole);
            proof {
                assert(out@.map_values(|v: Vec<char>| v@) =~= before.push(rest));
                assert(s@.skip(s@.len() as int) =~= Seq::<char>::empty());
                assert(lines(s@.skip(s@.len() as int)) =~= Seq::<Seq<char>>::empty());
                assert(before.push(rest) =~= before + seq![rest] + Seq::<Seq<char>>::empty());
            }
            pos = s.len();
        }
    }
    proof {
        assert(s@.skip(s@.len() as int) =~= Seq::<char>::empty());
        assert(lines(s@.skip(pos as int)) =~= Seq::<Seq<char>>::empty());
        assert(lines(s@) =~= out@.map_values(|v: Vec<char>| v@));
    }
    out
}


// ---------------------------------------------------------------------------
// Joining and splitting
// ---------------------------------------------------------------------------

/// `[T]::join`: the parts with `sep` between consecutive ones.
pub open spec fn join(parts: Seq<Seq<char>>, sep: Seq<char>) -> Seq<char>
    decreases parts.len(),
{
    if parts.len() == 0 {
        Seq::empty()
    } else if parts.len() == 1 {
        parts[0]
    } else {
        join(parts.drop_last(), sep) + sep + parts.last()
    }
}

/// `c` does not occur in `s`.
pub open spec fn lacks(s: Seq<char>, c: char) -> bool {
    forall|i: int| 0 <= i < s.len() ==> s[i] != c
}

/// The first `c` of `a + [c] + t`, where `a` has none, is right after `a`.
pub proof fn lemma_find_char_after(a: Seq<char>, c: char, t: Seq<char>)
    requires
        lacks(a, c),
    ensures
        find(a + seq![c] + t, seq![c]) == Some(a.len() as int),
{
    let s = a + seq![c] + t;
    assert forall|k: int| 0 <= k < a.len() implies !matches_at(s, seq![c], k) by {
        if matches_at(s, seq![c], k) {
            assert(s.subrange(k, k + 1)[0] == s[k]);
        }
    }
    lemma_find_from_skip(s, seq![c], 0, a.len() as int);
    assert(s.subrange(a.len() as int, a.len() + 1 as int) =~= seq![c]);
}

/// A first match in `a` is still the first one once more text follows.
pub proof fn lemma_find_extend(a: Seq<char>, p: Seq<char>, t: Seq<char>, k: int)
    requires
        find(a, p) == Some(k),
    ensures
        find(a + t, p) == Some(k),
{
    lemma_find_from_bounds(a, p, 0);
    let s = a + t;
    assert forall|j: int| 0 <= j < k implies !matches_at(s, p, j) by {
        if matches_at(s, p, j) {
            assert(s.subrange(j, j + p.len()) =~= a.subrange(j, j + p.len()));
            assert(matches_at(a, p, j));
        }
    }
    lemma_find_from_skip(s, p, 0, k);
    assert(s.subrange(k, k + p.len()) =~= a.subrange(k, k + p.len()));
}

/// A text without `c` has no `c` to find.
pub proof fn lemma_find_char_none(a: Seq<char>, c: char)
    requires
        lacks(a, c),
    ensures
        find(a, seq![c]) is None,
{
    assert forall|k: int| 0 <= k < a.len() implies !matches_at(a, seq![c], k) by {
        if matches_at(a, seq![c], k) {
            assert(a.subrange(k, k + 1)[0] == a[k]);
        }
    }
    lemma_find_from_skip(a, seq![c], 0, a.len() as int);
}

/// `join` read from the front.
pub proof fn lemma_join_front(parts: Seq<Seq<char>>, sep: Seq<char>)
    requires
        parts.len() >= 2,
    ensures
        join(parts, sep) == parts[0] + sep + join(parts.drop_first(), sep),
    decreases parts.len(),
{
    if parts.len() > 2 {
        lemma_join_front(parts.drop_last(), sep);
        let d = parts.drop_first().drop_last();
        assert(parts.drop_last().drop_first() =~= d);
        assert(parts.drop_first().last() == parts.last());
        assert(parts.drop_last()[0] == parts[0]);
        assert(join(parts.drop_first(), sep) == join(d, sep) + sep + parts.last());
        assert(join(parts, sep) == join(parts.drop_last(), sep) + sep + parts.last());
        assert(join(parts, sep) =~= parts[0] + sep + (join(d, sep) + sep + parts.last()));
    } else {
        assert(parts.drop_first() =~= seq![parts[1]]);
        assert(parts.drop_last() =~= seq![parts[0]]);
        assert(join(parts.drop_last(), sep) == parts[0]);
        assert(join(parts.drop_first(), sep) == parts[1]);
        assert(join(parts, sep) == join(parts.drop_last(), sep) + sep + parts.last());
    }
}

/// A line `lines` gives back unchanged: not empty, no newline, and no
/// carriage return at its end.
pub open spec fn plain_line(l: Seq<char>) -> bool {
    l.len() > 0 && lacks(l, '\n') && l.last() != '\r'
}

/// `lines` splits what `join` with newlines put together.
pub proof fn lemma_lines_join(ls: Seq<Seq<char>>)
    requires
        forall|i: int| 0 <= i < ls.len() ==> plain_line(#[trigger] ls[i]),
    ensures
        lines(join(ls, seq!['\n'])) == ls,
    decreases ls.len(),
{
    if ls.len() == 0 {
        assert(lines(Seq::<char>::empty()) =~= ls);
    } else if ls.len() == 1 {
        assert(plain_line(ls[0]));
        lemma_find_char_none(ls[0], '\n');
        assert(lines(ls[0]) =~= seq![ls[0]]);
        assert(ls =~= seq![ls[0]]);
    } else {
        let rest = ls.drop_first();
        assert forall|i: int| 0 <= i < rest.len() implies plain_line(#[trigger] rest[i]) by {
            assert(rest[i] == ls[i + 1]);
        }
        lemma_lines_join(rest);
        lemma_join_front(ls, seq!['\n']);
        let t = join(rest, seq!['\n']);
        let s = ls[0] + seq!['\n'] + t;
        assert(plain_line(ls[0]));
        lemma_find_char_after(ls[0], '\n', t);
        assert(s.take(ls[0].len() as int) =~= ls[0]);
        assert(s.skip(ls[0].len() + 1 as int) =~= t);
        assert(lines(s) == seq![ls[0]] + lines(t));
        assert(ls =~= seq![ls[0]] + rest);
    }
}

/// `lines` read back with newlines between them give the text again, when
/// it holds no `\r` and does not end in a newline.
pub proof fn lemma_join_lines(t: Seq<char>)
    requires
        lacks(t, '\r'),
        t.len() == 0 || t.last() != '\n',
    ensures
        join(lines(t), seq!['\n']) == t,
        t.len() > 0 ==> lines(t).len() > 0,
    decreases t.len(),
{
    let nl = seq!['\n'];
    if t.len() > 0 {
        lemma_find_from_bounds(t, nl, 0);
        match find(t, nl) {
            None => {
                assert(lines(t) == seq![t]);
            },
            Some(i) => {
                assert(t.subrange(i, i + 1)[0] == t[i]);
                assert(t[i] == '\n');
                assert(i != t.len() - 1);
                let line = t.take(i);
                let rest = t.skip(i + 1);
                assert(rest.last() == t.last());
                assert forall|j: int| 0 <= j < rest.len() implies rest[j] != '\r' by {
                    assert(rest[j] == t[i + 1 + j]);
                }
                lemma_join_lines(rest);
                if line.len() > 0 {
                    assert(line.last() == t[i - 1]);
                }
                assert(lines(t) == seq![line] + lines(rest));
                let parts = seq![line] + lines(rest);
                lemma_join_front(parts, nl);
                assert(parts.drop_first() =~= lines(rest));
                assert(parts[0] == line);
                assert(t =~= line + nl + rest);
            },
        }
    }
}

/// `str::split` at a character: every piece, empty ones included.
pub open spec fn split_char(s: Seq<char>, c: char) -> Seq<Seq<char>>
    decreases s.len(),
{
    match find(s, seq![c]) {
        None => seq![s],
        Some(i) => {
            proof {
                lemma_find_from_bounds(s, seq![c], 0);
            }
            seq![s.take(i)] + split_char(s.skip(i + 1), c)
        },
    }
}

/// The text before the first `c` (all of it if there is none): what
/// `s.split(c).next()` gives.
pub open spec fn before_char(s: Seq<char>, c: char) -> Seq<char> {
    match find(s, seq![c]) {
        None => s,
        Some(i) => s.take(i),
    }
}

pub fn before_char_exec(s: &[char], c: char) -> (r: Vec<char>)
    ensures
        r@ == before_char(s@, c),
{
    match find_char(s, c) {
        None => {
            let r = slice_vec(s, 0, s.len());
            assert(r@ =~= s@);
            r
        },
        Some(i) => {
            proof {
                lemma_find_from_bounds(s@, seq![c], 0);
            }
            let r = slice_vec(s, 0, i);
            assert(r@ =~= s@.take(i as int));
            r
        },
    }
}

/// Join character vectors with a separator.
pub fn join_exec(parts: &Vec<Vec<char>>, sep: &[char]) -> (r: Vec<char>)
    ensures
        r@ == join(parts@.map_values(|v: Vec<char>| v@), sep@),
{
    let ghost ps = parts@.map_values(|v: Vec<char>| v@);
    let mut out: Vec<char> = Vec::new();
    let mut i: usize = 0;
    assert(ps.take(0) =~= Seq::<Seq<char>>::empty());
    while i < parts.len()
        invariant
            i <= parts@.len(),
            ps == parts@.map_values(|v: Vec<char>| v@),
            out@ == join(ps.take(i as int), sep@),
        decreases parts@.len() - i,
    {
        if i > 0 {
            append(&mut out, sep);
        }
        append(&mut out, &parts[i]);
        proof {
            let t = ps.take(i + 1);
            assert(t.drop_last() =~= ps.take(i as int));
            assert(t.last() == parts@[i as int]@);
            if i == 0 {
                assert(t.len() == 1);
                assert(out@ =~= t[0]);
            }
        }
        i += 1;
    }
    assert(ps.take(parts@.len() as int) =~= ps);
    out
}

/// `str::split` at a character.
pub fn split_char_exec(s: &[char], c: char) -> (r: Vec<Vec<char>>)
    ensures
        r@.map_values(|v: Vec<char>| v@) == split_char(s@, c),
{
    let mut out: Vec<Vec<char>> = Vec::new();
    let mut rest: Vec<char> = slice_vec(s, 0, s.len());
    assert(rest@ =~= s@);
    assert(out@.map_values(|v: Vec<char>| v@) =~= Seq::<Seq<char>>::empty());
    loop
        invariant
            split_char(s@, c) == out@.map_values(|v: Vec<char>| v@) + split_char(rest@, c),
        decreases rest@.len(),
    {
        let ghost before = out@.map_values(|v: Vec<char>| v@);
        match find_char(&rest, c) {
            None => {
                let ghost last = rest@;
                out.push(rest);
                assert(out@.map_values(|v: Vec<char>| v@) =~= before + seq![last]);
                return out;
            },
            Some(i) => {
                proof {
                    lemma_find_from_bounds(rest@, seq![c], 0);
                }
                let n = rest.len();
                assert(i < n);
                let piece = slice_vec(&rest, 0, i);
                let next = slice_vec(&rest, i + 1, n);
                assert(piece@ =~= rest@.take(i as int));
                assert(next@ =~= rest@.skip(i + 1));
                let ghost pv = piece@;
                out.push(piece);
                assert(out@.map_values(|v: Vec<char>| v@) =~= before.push(pv));
                assert(before.push(pv) + split_char(next@, c) =~= before + (seq![pv] + split_char(
                    next@,
                    c,
                )));
                rest = next;
            },
        }
    }
}


/// Searching a suffix is searching the whole from the same place.
pub proof fn lemma_find_shift(s: Seq<char>, p: Seq<char>, i: int, j: int)
    requires
        0 <= i <= j,
        i <= s.len(),
    ensures
        find_from(s.skip(i), p, j - i) == match find_from(s, p, j) {
            Some(k) => Some(k - i),
            None => None,
        },
    decreases s.len() + 1 - j,
{
    let t = s.skip(i);
    if j + p.len() > s.len() {
    } else {
        assert(t.subrange(j - i, j - i + p.len()) =~= s.subrange(j, j + p.len()));
        if s.subrange(j, j + p.len()) != p {
            lemma_find_shift(s, p, i, j + 1);
        }
    }
}


// ---------------------------------------------------------------------------
// UTF-8 lengths and decoding
// ---------------------------------------------------------------------------

/// Bytes in the UTF-8 encoding of `c`.
pub open spec fn char_utf8_len(c: char) -> nat {
    if (c as u32) < 0x80 {
        1
    } else if (c as u32) < 0x800 {
        2
    } else if (c as u32) < 0x10000 {
        3
    } else {
        4
    }
}

/// Bytes in the UTF-8 encoding of `s`.
pub open spec fn utf8_len(s: Seq<char>) -> nat
    decreases s.len(),
{
    if s.len() == 0 {
        0
    } else {
        utf8_len(s.drop_last()) + char_utf8_len(s.last())
    }
}

pub fn char_len_utf8(c: char) -> (r: usize)
    ensures
        r == char_utf8_len(c),
{
    let u = c as u32;
    if u < 0x80 {
        1
    } else if u < 0x800 {
        2
    } else if u < 0x10000 {
        3
    } else {
        4
    }
}

pub proof fn lemma_utf8_len_take(t: Seq<char>, k: int)
    requires
        0 <= k < t.len(),
    ensures
        utf8_len(t.take(k + 1)) == utf8_len(t.take(k)) + char_utf8_len(t[k]),
{
    assert(t.take(k + 1).drop_last() =~= t.take(k));
}

pub proof fn lemma_utf8_len_mono(t: Seq<char>, a: int, b: int)
    requires
        0 <= a <= b <= t.len(),
    ensures
        utf8_len(t.take(a)) <= utf8_len(t.take(b)),
        a < b ==> utf8_len(t.take(a)) < utf8_len(t.take(b)),
    decreases b - a,
{
    if a < b {
        lemma_utf8_len_mono(t, a, b - 1);
        lemma_utf8_len_take(t, b - 1);
    }
}

/// `k` leading characters of `t` fit in `n` bytes of UTF-8, and one more
/// would not.
pub open spec fn fits_utf8(t: Seq<char>, n: nat, k: int) -> bool {
    &&& 0 <= k <= t.len()
    &&& utf8_len(t.take(k)) <= n
    &&& (k == t.len() || utf8_len(t.take(k + 1)) > n)
}

/// The longest run of leading characters of `t` that fits in `n` bytes of
/// UTF-8: where byte `n` starts a character this is `&t[..n]`, and it never
/// cuts a character in two.
pub open spec fn utf8_head(t: Seq<char>, n: nat) -> Seq<char> {
    t.take(choose|k: int| fits_utf8(t, n, k))
}

pub proof fn lemma_fits_utf8_unique(t: Seq<char>, n: nat, a: int, b: int)
    requires
        fits_utf8(t, n, a),
        fits_utf8(t, n, b),
    ensures
        a == b,
{
    if a < b {
        lemma_utf8_len_mono(t, a + 1, b);
    } else if b < a {
        lemma_utf8_len_mono(t, b + 1, a);
    }
}

/// The leading characters of `t` that fit in `n` bytes of UTF-8.
pub fn utf8_head_exec(t: &[char], n: usize) -> (r: Vec<char>)
    requires
        n < usize::MAX - 4,
    ensures
        r@ == utf8_head(t@, n as nat),
{
    let mut k: usize = 0;
    let mut used: usize = 0;
    assert(t@.take(0) =~= Seq::<char>::empty());
    while k < t.len() && used + char_len_utf8(t[k]) <= n
        invariant
            k <= t@.len(),
            used == utf8_len(t@.take(k as int)),
            used <= n,
            n < usize::MAX - 4,
        decreases t@.len() - k,
    {
        proof {
            lemma_utf8_len_take(t@, k as int);
        }
        used = used + char_len_utf8(t[k]);
        k += 1;
    }
    proof {
        if k < t@.len() {
            lemma_utf8_len_take(t@, k as int);
        }
        assert(fits_utf8(t@, n as nat, k as int));
        let c = choose|j: int| fits_utf8(t@, n as nat, j);
        lemma_fits_utf8_unique(t@, n as nat, c, k as int);
    }
    slice_vec(t, 0, k)
}

/// `str::contains` with a literal pattern.
pub fn contains_str(s: &[char], p: &str) -> (r: bool)
    ensures
        r == contains(s@, p@),
{
    let v = chars_of(p);
    find_exec(s, &v).is_some()
}

/// What `String::from_utf8_lossy` makes of some bytes: the decoded text when
/// they are valid UTF-8; invalid sequences become U+FFFD.
pub uninterp spec fn utf8_lossy(b: Seq<u8>) -> Seq<char>;

/// `String::from_utf8_lossy`.
#[verifier::external_body]
pub fn from_utf8_lossy(b: &[u8]) -> (r: String)
    ensures
        r@ == utf8_lossy(b@),
        valid_utf8(b@) ==> r@ == decode_utf8(b@),
{
    String::from_utf8_lossy(b).into_owned()
}

/// `str::from_utf8`: the text when the bytes are valid UTF-8.
#[verifier::external_body]
pub fn from_utf8(b: &[u8]) -> (r: Option<String>)
    ensures
        r is Some <==> valid_utf8(b@),
        r matches Some(s) ==> s@ == decode_utf8(b@),
{
    std::str::from_utf8(b).ok().map(|s| s.to_string())
}

/// What `str::to_lowercase` makes of a text (the Unicode lowercase mapping).
pub uninterp spec fn lowercase(s: Seq<char>) -> Seq<char>;

/// `str::to_lowercase`.
#[verifier::external_body]
pub fn to_lowercase(s: &[char]) -> (r: Vec<char>)
    ensures
        r@ == lowercase(s@),
{
    let s: String = s.iter().collect();
    s.to_lowercase().chars().collect()
}


/// What `str::to_uppercase` makes of a text (the Unicode uppercase mapping,
/// under which `ß` becomes `SS` and the dotless `ı` an `I`).
pub uninterp spec fn uppercase(s: Seq<char>) -> Seq<char>;

/// `str::to_uppercase`.
#[verifier::external_body]
pub fn to_uppercase(s: &[char]) -> (r: Vec<char>)
    ensures
        r@ == uppercase(s@),
{
    let s: String = s.iter().collect();
    s.to_uppercase().chars().collect()
}

// ---------------------------------------------------------------------------
// Numbers as text
// ---------------------------------------------------------------------------

pub open spec fn digit_char(d: int) -> char {
    (('0' as int) + d) as char
}

/// The decimal digits of `n` (what `{}` formatting writes).
pub open spec fn decimal(n: nat) -> Seq<char>
    decreases n,
{
    if n < 10 {
        seq![digit_char(n as int)]
    } else {
        decimal(n / 10) + seq![digit_char((n % 10) as int)]
    }
}

pub fn push_decimal(out: &mut Vec<char>, n: u128)
    ensures
        final(out)@ == old(out)@ + decimal(n as nat),
    decreases n,
{
    if n < 10 {
        out.push(((n as u8) + 0x30) as char);
    } else {
        push_decimal(out, n / 10);
        out.push((((n % 10) as u8) + 0x30) as char);
    }
}

} // verus!
