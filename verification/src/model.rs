//! Data types shared across the crate, and the request file format.
//!
//! Everything here is stored somewhere (workspace `.json` files or app data),
//! so field names are a compatibility contract.
use crate::text::{
    chars_of, contains, eq_chars, find_exec, is_ws, lemma_trim_trimmed, lowercase, to_lowercase, trim,
    trim_vec,
};
use vstd::prelude::*;

verus! {

#[allow(clippy::upper_case_acronyms)]
#[derive(Clone, Copy, Debug, PartialEq, Eq, Structural, Hash)]
pub enum HttpMethod {
    GET,
    POST,
    PUT,
    PATCH,
    DELETE,
    HEAD,
    OPTIONS,
    CONNECT,
    TRACE,
}

/// The method's name as written on the wire.
pub open spec fn method_name(m: HttpMethod) -> Seq<char> {
    match m {
        HttpMethod::GET => "GET"@,
        HttpMethod::POST => "POST"@,
        HttpMethod::PUT => "PUT"@,
        HttpMethod::PATCH => "PATCH"@,
        HttpMethod::DELETE => "DELETE"@,
        HttpMethod::HEAD => "HEAD"@,
        HttpMethod::OPTIONS => "OPTIONS"@,
        HttpMethod::CONNECT => "CONNECT"@,
        HttpMethod::TRACE => "TRACE"@,
    }
}

/// `char::to_ascii_lowercase`.
pub open spec fn ascii_lower(c: char) -> char {
    if 'A' <= c && c <= 'Z' {
        ((c as u32) + 32) as char
    } else {
        c
    }
}

pub fn to_ascii_lower(c: char) -> (r: char)
    ensures
        r == ascii_lower(c),
{
    if 'A' <= c && c <= 'Z' {
        ((c as u8) + 32) as char
    } else {
        c
    }
}

/// `str::eq_ignore_ascii_case`.
pub open spec fn eq_ignore_ascii_case(a: Seq<char>, b: Seq<char>) -> bool {
    a.len() == b.len() && forall|i: int| 0 <= i < a.len() ==> ascii_lower(a[i]) == ascii_lower(b[i])
}

pub fn eq_ignore_ascii_case_exec(a: &[char], b: &[char]) -> (r: bool)
    ensures
        r == eq_ignore_ascii_case(a@, b@),
{
    if a.len() != b.len() {
        return false;
    }
    let mut i: usize = 0;
    while i < a.len()
        invariant
            a@.len() == b@.len(),
            i <= a@.len(),
            forall|k: int| 0 <= k < i ==> ascii_lower(a@[k]) == ascii_lower(b@[k]),
        decreases a@.len() - i,
    {
        if to_ascii_lower(a[i]) != to_ascii_lower(b[i]) {
            return false;
        }
        i += 1;
    }
    true
}

/// The first method of `HttpMethod::ALL` whose name matches the trimmed
/// text, ignoring ASCII case.
pub open spec fn parse_method(s: Seq<char>) -> Option<HttpMethod> {
    let t = trim(s);
    if eq_ignore_ascii_case("GET"@, t) {
        Some(HttpMethod::GET)
    } else if eq_ignore_ascii_case("POST"@, t) {
        Some(HttpMethod::POST)
    } else if eq_ignore_ascii_case("PUT"@, t) {
        Some(HttpMethod::PUT)
    } else if eq_ignore_ascii_case("PATCH"@, t) {
        Some(HttpMethod::PATCH)
    } else if eq_ignore_ascii_case("DELETE"@, t) {
        Some(HttpMethod::DELETE)
    } else if eq_ignore_ascii_case("HEAD"@, t) {
        Some(HttpMethod::HEAD)
    } else if eq_ignore_ascii_case("OPTIONS"@, t) {
        Some(HttpMethod::OPTIONS)
    } else if eq_ignore_ascii_case("CONNECT"@, t) {
        Some(HttpMethod::CONNECT)
    } else if eq_ignore_ascii_case("TRACE"@, t) {
        Some(HttpMethod::TRACE)
    } else {
        None
    }
}

impl Default for HttpMethod {
    fn default() -> (r: Self)
        ensures
            r == HttpMethod::GET,
    {
        HttpMethod::GET
    }
}

impl HttpMethod {
    /// Every method, in menu order.
    pub fn all() -> (r: [HttpMethod; 9])
        ensures
            r@ == seq![
                HttpMethod::GET,
                HttpMethod::POST,
                HttpMethod::PUT,
                HttpMethod::PATCH,
                HttpMethod::DELETE,
                HttpMethod::HEAD,
                HttpMethod::OPTIONS,
                HttpMethod::CONNECT,
                HttpMethod::TRACE,
            ],
    {
        let r = [
            HttpMethod::GET,
            HttpMethod::POST,
            HttpMethod::PUT,
            HttpMethod::PATCH,
            HttpMethod::DELETE,
            HttpMethod::HEAD,
            HttpMethod::OPTIONS,
            HttpMethod::CONNECT,
            HttpMethod::TRACE,
        ];
        assert(r@ =~= seq![
            HttpMethod::GET,
            HttpMethod::POST,
            HttpMethod::PUT,
            HttpMethod::PATCH,
            HttpMethod::DELETE,
            HttpMethod::HEAD,
            HttpMethod::OPTIONS,
            HttpMethod::CONNECT,
            HttpMethod::TRACE,
        ]);
        r
    }

    pub fn as_str(self) -> (r: &'static str)
        ensures
            r@ == method_name(self),
    {
        match self {
            HttpMethod::GET => "GET",
            HttpMethod::POST => "POST",
            HttpMethod::PUT => "PUT",
            HttpMethod::PATCH => "PATCH",
            HttpMethod::DELETE => "DELETE",
            HttpMethod::HEAD => "HEAD",
            HttpMethod::OPTIONS => "OPTIONS",
            HttpMethod::CONNECT => "CONNECT",
            HttpMethod::TRACE => "TRACE",
        }
    }

    /// Case-insensitive parse of the trimmed text ("post" -> POST).
    pub fn parse(s: &str) -> (r: Option<HttpMethod>)
        ensures
            r == parse_method(s@),
    {
        let chars = chars_of(s);
        let t = trim_vec(&chars);
        let all = HttpMethod::all();
        let mut i: usize = 0;
        while i < 9
            invariant
                i <= 9,
                t@ == trim(s@),
                all@ == seq![
                    HttpMethod::GET,
                    HttpMethod::POST,
                    HttpMethod::PUT,
                    HttpMethod::PATCH,
                    HttpMethod::DELETE,
                    HttpMethod::HEAD,
                    HttpMethod::OPTIONS,
                    HttpMethod::CONNECT,
                    HttpMethod::TRACE,
                ],
                forall|k: int| 0 <= k < i ==> !eq_ignore_ascii_case(method_name(all@[k]), t@),
            decreases 9 - i,
        {
            let m = all[i];
            let name = chars_of(m.as_str());
            if eq_ignore_ascii_case_exec(&name, &t) {
                return Some(m);
            }
            i += 1;
        }
        None
    }
}

/// The method name compares equal to itself and to no other method name,
/// ignoring ASCII case.
pub proof fn lemma_method_names_distinct(m: HttpMethod, n: HttpMethod)
    ensures
        eq_ignore_ascii_case(method_name(m), method_name(n)) <==> m == n,
        trim(method_name(m)) == method_name(m),
{
    reveal_strlit("GET");
    reveal_strlit("POST");
    reveal_strlit("PUT");
    reveal_strlit("PATCH");
    reveal_strlit("DELETE");
    reveal_strlit("HEAD");
    reveal_strlit("OPTIONS");
    reveal_strlit("CONNECT");
    reveal_strlit("TRACE");
    lemma_trim_trimmed(method_name(m));
    if m != n && eq_ignore_ascii_case(method_name(m), method_name(n)) {
        assert(ascii_lower(method_name(m)[0]) == ascii_lower(method_name(n)[0]));
        assert(ascii_lower(method_name(m)[1]) == ascii_lower(method_name(n)[1]));
    }
}

/// Law: parsing a method's own name, or the same name in another ASCII case,
/// gives that method back.
pub proof fn law_method_parse_roundtrip(m: HttpMethod, s: Seq<char>)
    requires
        eq_ignore_ascii_case(s, method_name(m)),
    ensures
        parse_method(s) == Some(m),
        parse_method(method_name(m)) == Some(m),
{
    reveal_strlit("GET");
    reveal_strlit("POST");
    reveal_strlit("PUT");
    reveal_strlit("PATCH");
    reveal_strlit("DELETE");
    reveal_strlit("HEAD");
    reveal_strlit("OPTIONS");
    reveal_strlit("CONNECT");
    reveal_strlit("TRACE");
    let name = method_name(m);
    assert forall|i: int| 0 <= i < name.len() implies 'A' <= #[trigger] name[i] <= 'Z' by {}
    assert forall|i: int| 0 <= i < s.len() implies !is_ws(#[trigger] s[i]) by {
        assert(ascii_lower(s[i]) == ascii_lower(name[i]));
    }
    lemma_trim_trimmed(s);
    assert forall|n: HttpMethod|
        eq_ignore_ascii_case(#[trigger] method_name(n), s) <==> eq_ignore_ascii_case(
            method_name(n),
            name,
        ) by {}
    assert forall|n: HttpMethod|
        eq_ignore_ascii_case(#[trigger] method_name(n), name) <==> n == m by {
        lemma_method_names_distinct(n, m);
    }
    lemma_method_names_distinct(m, m);
    assert(eq_ignore_ascii_case(method_name(HttpMethod::GET), s) <==> m == HttpMethod::GET);
    assert(eq_ignore_ascii_case(method_name(HttpMethod::POST), s) <==> m == HttpMethod::POST);
    assert(eq_ignore_ascii_case(method_name(HttpMethod::PUT), s) <==> m == HttpMethod::PUT);
    assert(eq_ignore_ascii_case(method_name(HttpMethod::PATCH), s) <==> m == HttpMethod::PATCH);
    assert(eq_ignore_ascii_case(method_name(HttpMethod::DELETE), s) <==> m == HttpMethod::DELETE);
    assert(eq_ignore_ascii_case(method_name(HttpMethod::HEAD), s) <==> m == HttpMethod::HEAD);
    assert(eq_ignore_ascii_case(method_name(HttpMethod::OPTIONS), s) <==> m
        == HttpMethod::OPTIONS);
    assert(eq_ignore_ascii_case(method_name(HttpMethod::CONNECT), s) <==> m
        == HttpMethod::CONNECT);
    assert(eq_ignore_ascii_case(method_name(HttpMethod::TRACE), s) <==> m == HttpMethod::TRACE);
    assert(eq_ignore_ascii_case(name, name));
}


// ---------------------------------------------------------------------------
// Text order and the sorted header map
// ---------------------------------------------------------------------------

/// The order of `str`: lexicographic by character (UTF-8 byte order and code
/// point order agree).
pub open spec fn seq_lt(a: Seq<char>, b: Seq<char>) -> bool
    decreases a.len(),
{
    if b.len() == 0 {
        false
    } else if a.len() == 0 {
        true
    } else if a[0] != b[0] {
        a[0] < b[0]
    } else {
        seq_lt(a.drop_first(), b.drop_first())
    }
}

pub proof fn lemma_seq_lt_irreflexive(a: Seq<char>)
    ensures
        !seq_lt(a, a),
    decreases a.len(),
{
    if a.len() > 0 {
        lemma_seq_lt_irreflexive(a.drop_first());
    }
}

pub proof fn lemma_seq_lt_total(a: Seq<char>, b: Seq<char>)
    ensures
        a != b ==> (seq_lt(a, b) || seq_lt(b, a)),
        !(seq_lt(a, b) && seq_lt(b, a)),
    decreases a.len(),
{
    if a.len() > 0 && b.len() > 0 && a[0] == b[0] {
        lemma_seq_lt_total(a.drop_first(), b.drop_first());
        if a != b {
            assert(a =~= seq![a[0]] + a.drop_first());
            assert(b =~= seq![b[0]] + b.drop_first());
        }
    } else if a.len() == 0 && b.len() == 0 {
        assert(a =~= b);
    }
}

pub proof fn lemma_seq_lt_transitive(a: Seq<char>, b: Seq<char>, c: Seq<char>)
    requires
        seq_lt(a, b),
        seq_lt(b, c),
    ensures
        seq_lt(a, c),
    decreases a.len(),
{
    if a.len() > 0 && a[0] == b[0] && b[0] == c[0] {
        lemma_seq_lt_transitive(a.drop_first(), b.drop_first(), c.drop_first());
    }
}

/// Three-way comparison of two texts: negative, zero or positive.
pub fn compare_chars(a: &[char], b: &[char]) -> (r: i8)
    ensures
        r < 0 <==> seq_lt(a@, b@),
        r == 0 <==> a@ == b@,
        r > 0 <==> seq_lt(b@, a@),
{
    let mut i: usize = 0;
    assert(a@.skip(0) =~= a@);
    assert(b@.skip(0) =~= b@);
    assert(a@.take(0) =~= b@.take(0));
    while i < a.len() && i < b.len()
        invariant
            i <= a@.len(),
            i <= b@.len(),
            a@.take(i as int) == b@.take(i as int),
            seq_lt(a@, b@) == seq_lt(a@.skip(i as int), b@.skip(i as int)),
            seq_lt(b@, a@) == seq_lt(b@.skip(i as int), a@.skip(i as int)),
        decreases a@.len() - i,
    {
        proof {
            assert(a@.skip(i as int).drop_first() =~= a@.skip(i + 1));
            assert(b@.skip(i as int).drop_first() =~= b@.skip(i + 1));
            assert(a@.skip(i as int)[0] == a@[i as int]);
            assert(b@.skip(i as int)[0] == b@[i as int]);
        }
        if a[i] != b[i] {
            proof {
                if a@ == b@ {
                    assert(a@[i as int] == b@[i as int]);
                }
            }
            if a[i] < b[i] {
                return -1;
            } else {
                return 1;
            }
        }
        proof {
            assert(a@.take(i + 1) =~= a@.take(i as int).push(a@[i as int]));
            assert(b@.take(i + 1) =~= b@.take(i as int).push(b@[i as int]));
        }
        i += 1;
    }
    proof {
        lemma_seq_lt_total(a@, b@);
        if a@.len() == b@.len() {
            assert(a@ =~= a@.take(i as int));
            assert(b@ =~= b@.take(i as int));
        } else {
            if a@ == b@ {
                assert(a@.len() == b@.len());
            }
        }
    }
    if a.len() < b.len() {
        -1
    } else if a.len() == b.len() {
        0
    } else {
        1
    }
}

/// The entries of a header map are sorted by strictly increasing key.
pub open spec fn keys_sorted(s: Seq<(Seq<char>, Seq<char>)>) -> bool {
    forall|i: int, j: int| 0 <= i < j < s.len() ==> seq_lt(#[trigger] s[i].0, #[trigger] s[j].0)
}

/// A map from header name to value, kept sorted by name so that files are
/// written with a stable key order (the role `BTreeMap<String, String>` plays).
#[derive(Debug)]
pub struct HeaderMap {
    entries: Vec<(String, String)>,
}

pub open spec fn entries_view(v: Seq<(String, String)>) -> Seq<(Seq<char>, Seq<char>)> {
    v.map_values(|e: (String, String)| (e.0@, e.1@))
}

impl View for HeaderMap {
    type V = Seq<(Seq<char>, Seq<char>)>;

    closed spec fn view(&self) -> Seq<(Seq<char>, Seq<char>)> {
        entries_view(self.entries@)
    }
}

/// Where key `k` belongs in the sorted entries `s`: `p` entries have a
/// smaller key, the rest do not.
pub open spec fn is_insert_pos(s: Seq<(Seq<char>, Seq<char>)>, k: Seq<char>, p: int) -> bool {
    &&& 0 <= p <= s.len()
    &&& forall|j: int| 0 <= j < p ==> seq_lt(#[trigger] s[j].0, k)
    &&& forall|j: int| p <= j < s.len() ==> !seq_lt(#[trigger] s[j].0, k)
}

/// The entries after `insert(k, v)`.
pub open spec fn map_insert(s: Seq<(Seq<char>, Seq<char>)>, k: Seq<char>, v: Seq<char>, p: int) -> Seq<
    (Seq<char>, Seq<char>),
> {
    if p < s.len() && s[p].0 == k {
        s.update(p, (k, v))
    } else {
        s.insert(p, (k, v))
    }
}

/// Value stored under `k`, if any.
pub open spec fn map_get(s: Seq<(Seq<char>, Seq<char>)>, k: Seq<char>) -> Option<Seq<char>> {
    if exists|j: int| 0 <= j < s.len() && s[j].0 == k {
        Some(s[choose|j: int| 0 <= j < s.len() && s[j].0 == k].1)
    } else {
        None
    }
}

/// Sorted keys are distinct.
pub proof fn lemma_sorted_keys_distinct(s: Seq<(Seq<char>, Seq<char>)>, i: int, j: int)
    requires
        keys_sorted(s),
        0 <= i < s.len(),
        0 <= j < s.len(),
        i != j,
    ensures
        s[i].0 != s[j].0,
{
    if i < j {
        lemma_seq_lt_irreflexive(s[i].0);
    } else {
        lemma_seq_lt_irreflexive(s[j].0);
    }
}

/// With distinct keys, the value under a key is the one at its index.
pub proof fn lemma_map_get_at(s: Seq<(Seq<char>, Seq<char>)>, k: Seq<char>, j: int)
    requires
        forall|a: int, b: int| 0 <= a < s.len() && 0 <= b < s.len() && a != b ==> s[a].0 != s[b].0,
        0 <= j < s.len(),
        s[j].0 == k,
    ensures
        map_get(s, k) == Some(s[j].1),
{
    let c = choose|i: int| 0 <= i < s.len() && s[i].0 == k;
    assert(0 <= c < s.len() && s[c].0 == k);
    if c != j {
        assert(s[c].0 != s[j].0);
    }
}

/// What a read of the map gives after a write: the value written under its
/// key, and the earlier value under every other key.
pub proof fn law_header_map_read_after_write(
    s: Seq<(Seq<char>, Seq<char>)>,
    k: Seq<char>,
    v: Seq<char>,
    p: int,
    other: Seq<char>,
)
    requires
        keys_sorted(s),
        is_insert_pos(s, k, p),
    ensures
        map_get(map_insert(s, k, v, p), k) == Some(v),
        other != k ==> map_get(map_insert(s, k, v, p), other) == map_get(s, other),
{
    let t = map_insert(s, k, v, p);
    assert forall|a: int, b: int| 0 <= a < s.len() && 0 <= b < s.len() && a != b implies s[a].0
        != s[b].0 by {
        lemma_sorted_keys_distinct(s, a, b);
    }
    if p < s.len() && s[p].0 == k {
        assert(forall|a: int, b: int|
            0 <= a < t.len() && 0 <= b < t.len() && a != b ==> #[trigger] t[a].0 != #[trigger] t[b].0);
        lemma_map_get_at(t, k, p);
        if other != k {
            if exists|j: int| 0 <= j < s.len() && s[j].0 == other {
                let j = choose|j: int| 0 <= j < s.len() && s[j].0 == other;
                lemma_map_get_at(s, other, j);
                assert(t[j] == s[j]);
                lemma_map_get_at(t, other, j);
            } else {
                assert forall|j: int| 0 <= j < t.len() implies t[j].0 != other by {
                    if j != p {
                        assert(t[j] == s[j]);
                    }
                }
            }
        }
    } else {
        assert forall|j: int| 0 <= j < s.len() implies s[j].0 != k by {
            if j < p {
                lemma_seq_lt_irreflexive(k);
            } else {
                lemma_seq_lt_total(s[p].0, k);
                if j > p {
                    lemma_seq_lt_transitive(k, s[p].0, s[j].0);
                    lemma_seq_lt_irreflexive(k);
                }
            }
        }
        assert forall|a: int, b: int|
            0 <= a < t.len() && 0 <= b < t.len() && a != b implies #[trigger] t[a].0
            != #[trigger] t[b].0 by {
            let sa = if a < p {
                a
            } else {
                a - 1
            };
            let sb = if b < p {
                b
            } else {
                b - 1
            };
            if a != p && b != p {
                assert(t[a] == s[sa]);
                assert(t[b] == s[sb]);
            } else if a == p {
                assert(t[b] == s[sb]);
            } else {
                assert(t[a] == s[sa]);
            }
        }
        lemma_map_get_at(t, k, p);
        if other != k {
            if exists|j: int| 0 <= j < s.len() && s[j].0 == other {
                let j = choose|j: int| 0 <= j < s.len() && s[j].0 == other;
                lemma_map_get_at(s, other, j);
                let tj = if j < p {
                    j
                } else {
                    j + 1
                };
                assert(t[tj] == s[j]);
                lemma_map_get_at(t, other, tj);
            } else {
                assert forall|j: int| 0 <= j < t.len() implies t[j].0 != other by {
                    if j < p {
                        assert(t[j] == s[j]);
                    } else if j > p {
                        assert(t[j] == s[j - 1]);
                    }
                }
            }
        }
    }
}

impl Clone for HeaderMap {
    fn clone(&self) -> (r: HeaderMap)
        ensures
            r@ == self@,
    {
        proof {
            use_type_invariant(self);
        }
        let mut entries: Vec<(String, String)> = Vec::new();
        let mut i: usize = 0;
        while i < self.entries.len()
            invariant
                i <= self.entries@.len(),
                entries_view(entries@) == entries_view(self.entries@).take(i as int),
            decreases self.entries@.len() - i,
        {
            let k = self.entries[i].0.clone();
            let v = self.entries[i].1.clone();
            let ghost before = entries_view(entries@);
            let ghost kv = (k@, v@);
            assert(kv == entries_view(self.entries@)[i as int]);
            entries.push((k, v));
            assert(entries_view(entries@) =~= before.push(kv));
            i += 1;
            assert(entries_view(entries@) =~= entries_view(self.entries@).take(i as int));
        }
        assert(entries_view(self.entries@).take(i as int) =~= entries_view(self.entries@));
        HeaderMap { entries }
    }
}

impl HeaderMap {
    #[verifier::type_invariant]
    closed spec fn sorted(self) -> bool {
        keys_sorted(entries_view(self.entries@))
    }

    pub fn new() -> (r: HeaderMap)
        ensures
            r@ == Seq::<(Seq<char>, Seq<char>)>::empty(),
    {
        let r = HeaderMap { entries: Vec::new() };
        assert(entries_view(r.entries@) =~= Seq::<(Seq<char>, Seq<char>)>::empty());
        r
    }

    pub fn len(&self) -> (r: usize)
        ensures
            r == self@.len(),
    {
        self.entries.len()
    }

    pub fn is_empty(&self) -> (r: bool)
        ensures
            r == (self@.len() == 0),
    {
        self.entries.len() == 0
    }

    /// The entries in key order.
    pub fn entries(&self) -> (r: &[(String, String)])
        ensures
            entries_view(r@) == self@,
            keys_sorted(self@),
    {
        proof {
            use_type_invariant(self);
        }
        self.entries.as_slice()
    }

    /// Insert or replace the value under `key`.
    pub fn insert(&mut self, key: String, value: String)
        ensures
            exists|p: int|
                is_insert_pos(old(self)@, key@, p) && final(self)@ == map_insert(
                    old(self)@,
                    key@,
                    value@,
                    p,
                ),
    {
        proof {
            use_type_invariant(&*self);
        }
        let ghost s = self@;
        let kc = chars_of(key.as_str());
        let mut i: usize = 0;
        let mut found = false;
        while i < self.entries.len()
            invariant_except_break
                i <= s.len(),
                s == entries_view(self.entries@),
                keys_sorted(s),
                kc@ == key@,
                !found,
                forall|j: int| 0 <= j < i ==> seq_lt(#[trigger] s[j].0, key@),
            ensures
                i <= s.len(),
                forall|j: int| 0 <= j < i ==> seq_lt(#[trigger] s[j].0, key@),
                found ==> i < s.len() && s[i as int].0 == key@,
                !found ==> (i == s.len() || seq_lt(key@, s[i as int].0)),
            decreases s.len() - i,
        {
            let ec = chars_of(self.entries[i].0.as_str());
            let c = compare_chars(&ec, &kc);
            if c == 0 {
                found = true;
                break;
            } else if c > 0 {
                break;
            }
            i += 1;
        }
        proof {
            assert forall|j: int| i <= j < s.len() implies !seq_lt(#[trigger] s[j].0, key@) by {
                if found {
                    if j > i {
                        lemma_seq_lt_total(s[j].0, key@);
                    } else {
                        lemma_seq_lt_irreflexive(key@);
                    }
                } else {
                    if j > i {
                        lemma_seq_lt_transitive(key@, s[i as int].0, s[j].0);
                    }
                    lemma_seq_lt_total(s[j].0, key@);
                }
            }
            assert(is_insert_pos(s, key@, i as int));
        }
        let ghost newv = map_insert(s, key@, value@, i as int);
        proof {
            if !found && i < s.len() {
                lemma_seq_lt_irreflexive(key@);
                assert(s[i as int].0 != key@);
            }
        }
        if found {
            proof {
                assert forall|a: int, b: int| 0 <= a < b < newv.len() implies seq_lt(
                    #[trigger] newv[a].0,
                    #[trigger] newv[b].0,
                ) by {}
            }
            let mut v: Vec<(String, String)> = Vec::new();
            std::mem::swap(&mut v, &mut self.entries);
            v.set(i, (key, value));
            assert(entries_view(v@) =~= newv);
            self.entries = v;
        } else {
            proof {
                assert forall|a: int, b: int| 0 <= a < b < newv.len() implies seq_lt(
                    #[trigger] newv[a].0,
                    #[trigger] newv[b].0,
                ) by {
                    if b < i {
                    } else if a < i && b == i {
                    } else if a < i && b > i {
                        assert(newv[b] == s[b - 1]);
                    } else if a == i {
                        assert(newv[b] == s[b - 1]);
                        if b - 1 > i {
                            lemma_seq_lt_transitive(key@, s[i as int].0, s[b - 1].0);
                        }
                    } else {
                        assert(newv[a] == s[a - 1]);
                        assert(newv[b] == s[b - 1]);
                    }
                }
            }
            let mut v: Vec<(String, String)> = Vec::new();
            std::mem::swap(&mut v, &mut self.entries);
            v.insert(i, (key, value));
            assert(entries_view(v@) =~= newv);
            self.entries = v;
        }
        assert(is_insert_pos(s, key@, i as int) && self@ == map_insert(s, key@, value@, i as int));
    }

    /// The value stored under `key`.
    pub fn get(&self, key: &str) -> (r: Option<&String>)
        ensures
            r matches Some(v) ==> map_get(self@, key@) == Some(v@),
            r is None ==> map_get(self@, key@) is None,
    {
        let kc = chars_of(key);
        let mut i: usize = 0;
        while i < self.entries.len()
            invariant
                i <= self@.len(),
                kc@ == key@,
                self@ == entries_view(self.entries@),
                forall|j: int| 0 <= j < i ==> #[trigger] self@[j].0 != key@,
            decreases self@.len() - i,
        {
            let ec = chars_of(self.entries[i].0.as_str());
            if eq_chars(&ec, &kc) {
                proof {
                    use_type_invariant(self);
                    assert(self@[i as int].0 == key@);
                    let j = choose|j: int| 0 <= j < self@.len() && self@[j].0 == key@;
                    lemma_seq_lt_irreflexive(key@);
                    if j < i {
                        assert(seq_lt(self@[j].0, self@[i as int].0));
                    } else if j > i {
                        assert(seq_lt(self@[i as int].0, self@[j].0));
                    }
                    assert(self@[i as int].1 == self.entries@[i as int].1@);
                }
                return Some(&self.entries[i].1);
            }
            i += 1;
        }
        None
    }

    pub fn contains_key(&self, key: &str) -> (r: bool)
        ensures
            r == map_get(self@, key@) is Some,
    {
        self.get(key).is_some()
    }
}

// ---------------------------------------------------------------------------
// Stored requests, the request form, the session and the sidebar tree
// ---------------------------------------------------------------------------

/// A request as stored in a workspace `.json` file. Headers are kept sorted
/// by name, so files are written with a stable key order.
#[derive(Clone, Debug)]
pub struct RequestFile {
    pub method: HttpMethod,
    pub url: String,
    pub headers: HeaderMap,
    pub body: String,
}

impl Default for RequestFile {
    fn default() -> (r: RequestFile)
        ensures
            r.method == HttpMethod::GET,
            r.url@ == Seq::<char>::empty(),
            r.headers@ == Seq::<(Seq<char>, Seq<char>)>::empty(),
            r.body@ == Seq::<char>::empty(),
    {
        RequestFile {
            method: HttpMethod::GET,
            url: String::new(),
            headers: HeaderMap::new(),
            body: String::new(),
        }
    }
}

/// The request form as the user sees it: headers are the editable text
/// (`Key: Value` per line, `#` disables a line).
#[derive(Clone, Debug, PartialEq)]
pub struct Request {
    pub method: HttpMethod,
    pub url: String,
    pub headers: String,
    pub body: String,
}

/// Session restored on launch.
#[derive(Clone, Debug)]
pub struct AppState {
    pub workspace_path: Option<String>,
    pub method: HttpMethod,
    pub url: String,
    pub headers_text: String,
    pub body_text: String,
    pub selected_tab: usize,
    /// Environment file name, e.g. ".env.dev".
    pub env_name: Option<String>,
}

/// Sidebar tree node. `children` is `None` until the folder is first
/// expanded.
#[derive(Debug)]
pub enum CollectionItem {
    Folder { name: String, path: String, children: Option<Vec<CollectionItem>> },
    Request { name: String, path: String, method: Option<HttpMethod> },
}

/// A search hit: the item's lower-case name contains the search text, or,
/// for a loaded folder, one of its children matches.
pub open spec fn item_matches(item: CollectionItem, search: Seq<char>) -> bool
    decreases item,
{
    match item {
        CollectionItem::Request { name, .. } => contains(lowercase(name@), search),
        CollectionItem::Folder { name, children, .. } => contains(lowercase(name@), search) || (
        match children {
            Some(cs) => any_matches(cs@, search),
            None => false,
        }),
    }
}

pub open spec fn any_matches(items: Seq<CollectionItem>, search: Seq<char>) -> bool
    decreases items,
{
    if items.len() == 0 {
        false
    } else {
        item_matches(items[0], search) || any_matches(items.drop_first(), search)
    }
}

/// Whether a lower-case name contains the search text.
pub fn name_matches(lower_name: &[char], search: &[char]) -> (r: bool)
    ensures
        r == contains(lower_name@, search@),
{
    find_exec(lower_name, search).is_some()
}

/// Whether the item or a loaded descendant matches the search text.
pub fn matches_search(item: &CollectionItem, search: &str) -> (r: bool)
    ensures
        r == item_matches(*item, search@),
    decreases item,
{
    let sc = chars_of(search);
    match item {
        CollectionItem::Request { name, .. } => {
            let lower = to_lowercase(&chars_of(name.as_str()));
            name_matches(&lower, &sc)
        },
        CollectionItem::Folder { name, children, .. } => {
            let lower = to_lowercase(&chars_of(name.as_str()));
            if name_matches(&lower, &sc) {
                return true;
            }
            match children {
                None => false,
                Some(cs) => {
                    let mut i: usize = 0;
                    assert(cs@.skip(0) =~= cs@);
                    while i < cs.len()
                        invariant
                            i <= cs@.len(),
                            *item is Folder,
                            item->Folder_children == Some(*cs),
                            any_matches(cs@, search@) == any_matches(cs@.skip(i as int), search@),
                        decreases cs@.len() - i,
                    {
                        assert(cs@.skip(i as int).drop_first() =~= cs@.skip(i + 1));
                        assert(cs@.skip(i as int)[0] == cs@[i as int]);
                        proof {
                            broadcast use vstd::std_specs::vec::axiom_vec_index_decreases;
                            assert(decreases_to!(*cs => cs[i as int]));
                            assert(decreases_to!(*item => item->Folder_children));
                            assert(decreases_to!(item->Folder_children => item->Folder_children->0));
                            assert(decreases_to!(*item => cs[i as int]));
                        }
                        if matches_search(&cs[i], search) {
                            return true;
                        }
                        i += 1;
                    }
                    false
                },
            }
        },
    }
}

} // verus!
