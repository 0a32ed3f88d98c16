//! The params table and the URL stay in sync: the parameters read back from
//! a URL that `build_url` wrote are the enabled ones that have a key.
use crate::kv::{
    build_url_spec, hex_pair, hex_upper, hex_value, is_hex_digit, pct_bytes, pct_decode,
    pct_encode_char, query_part, query_params_spec, query_parts, query_row, query_rows, unreserved,
    url_decode_spec, url_encode_spec, Row,
};
use crate::text::{
    before_char, find, join, lacks, lemma_find_char_after, lemma_find_char_none,
    lemma_find_from_bounds, lemma_join_front, matches_at, split_char, starts_with,
};
use vstd::prelude::*;
use vstd::utf8::{decode_utf8, encode_utf8};

verus! {

/// Bytes that `pct_decode` copies as they are: no `+`, and no `%` that
/// starts an escape that decodes.
pub open spec fn inert_bytes(b: Seq<u8>) -> bool {
    forall|i: int|
        0 <= i < b.len() ==> #[trigger] b[i] != 0x2b && (b[i] == 0x25 ==> i + 2 < b.len()
            && hex_pair(b[i + 1], b[i + 2]) is None)
}

/// A `{{...}}` block, which `url_encode` copies as it is, that reads back
/// the same from a query string: no `&` or `#` (which end a parameter or the
/// query), no `=` in a key (which ends the key), and bytes that decoding
/// leaves alone.
pub open spec fn block_survives(b: Seq<char>, in_key: bool) -> bool {
    &&& lacks(b, '&')
    &&& lacks(b, '#')
    &&& (in_key ==> lacks(b, '='))
    &&& inert_bytes(encode_utf8(b))
}

/// Every `{{...}}` block of `s`, as `url_encode` finds them, survives.
pub open spec fn blocks_survive(s: Seq<char>, in_key: bool) -> bool
    decreases s.len(),
{
    if s.len() == 0 {
        true
    } else if starts_with(s, seq!['{', '{']) && find(s.skip(2), seq!['}', '}']) is Some {
        let e = find(s.skip(2), seq!['}', '}'])->0;
        proof {
            lemma_find_from_bounds(s.skip(2), seq!['}', '}'], 0);
        }
        block_survives(s.take(e + 4), in_key) && blocks_survive(s.skip(e + 4), in_key)
    } else {
        blocks_survive(s.drop_first(), in_key)
    }
}

/// The rows `build_url` writes: enabled, with a key, in order.
pub open spec fn sent_rows(rows: Seq<Row>) -> Seq<Row>
    decreases rows.len(),
{
    if rows.len() == 0 {
        Seq::empty()
    } else {
        let rest = sent_rows(rows.drop_last());
        if rows.last().enabled && rows.last().key.len() > 0 {
            rest.push(rows.last())
        } else {
            rest
        }
    }
}

proof fn lemma_encode_utf8_concat(a: Seq<char>, b: Seq<char>)
    ensures
        encode_utf8(a + b) == encode_utf8(a) + encode_utf8(b),
    decreases a.len(),
{
    if a.len() == 0 {
        assert(a + b =~= b);
    } else {
        assert((a + b).drop_first() =~= a.drop_first() + b);
        assert((a + b)[0] == a[0]);
        lemma_encode_utf8_concat(a.drop_first(), b);
    }
}

proof fn lemma_encode_ascii(c: char)
    requires
        (c as u32) < 128,
    ensures
        encode_utf8(seq![c]) == seq![(c as u32) as u8],
{
    let v = c as u32;
    assert(v <= 0x7F ==> (v & 0x7F) == v) by (bit_vector);
    assert(seq![c].drop_first() =~= Seq::<char>::empty());
    assert(encode_utf8(seq![c]) == vstd::utf8::encode_scalar(v) + encode_utf8(Seq::<char>::empty()));
    assert(encode_utf8(seq![c]) =~= seq![(v & 0x7F) as u8]);
}

/// `pct_decode` copies inert bytes and goes on after them.
proof fn lemma_pct_decode_inert(b: Seq<u8>, r: Seq<u8>)
    requires
        inert_bytes(b),
    ensures
        pct_decode(b + r) == b + pct_decode(r),
    decreases b.len(),
{
    if b.len() > 0 {
        let s = b + r;
        assert(s[0] == b[0]);
        assert(b[0] != 0x2b);
        if b[0] == 0x25 {
            assert(s[1] == b[1] && s[2] == b[2]);
        }
        assert(s.skip(1) =~= b.skip(1) + r);
        let t = b.skip(1);
        assert forall|i: int| 0 <= i < t.len() implies #[trigger] t[i] != 0x2b && (t[i] == 0x25
            ==> i + 2 < t.len() && hex_pair(t[i + 1], t[i + 2]) is None) by {
            assert(t[i] == b[i + 1]);
            if t[i] == 0x25 {
                assert(b[i + 1] != 0x2b);
                assert(t[i + 1] == b[i + 2]);
                assert(t[i + 2] == b[i + 3]);
            }
        }
        lemma_pct_decode_inert(t, r);
        assert(b =~= seq![b[0]] + t);
        assert(pct_decode(s) == seq![b[0]] + pct_decode(s.skip(1)));
        assert(seq![b[0]] + (t + pct_decode(r)) =~= b + pct_decode(r));
    } else {
        assert(b + r =~= r);
    }
}

proof fn lemma_hex_upper_digit(d: int)
    requires
        0 <= d < 16,
    ensures
        (hex_upper(d) as u32) < 128,
        is_hex_digit((hex_upper(d) as u32) as u8),
        hex_value((hex_upper(d) as u32) as u8) == d,
        (hex_upper(d) as u32) as u8 != 0x2b,
        hex_upper(d) != '&' && hex_upper(d) != '#' && hex_upper(d) != '=',
{
}

/// `pct_bytes` read from the front.
proof fn lemma_pct_bytes_front(b: Seq<u8>)
    requires
        b.len() > 0,
    ensures
        pct_bytes(b) == seq!['%', hex_upper(b[0] as int / 16), hex_upper(b[0] as int % 16)]
            + pct_bytes(b.drop_first()),
    decreases b.len(),
{
    if b.len() == 1 {
        assert(b.drop_last() =~= Seq::<u8>::empty());
        assert(b.drop_first() =~= Seq::<u8>::empty());
    } else {
        lemma_pct_bytes_front(b.drop_last());
        assert(b.drop_last().drop_first() =~= b.drop_first().drop_last());
        assert(b.drop_first().last() == b.last());
        assert(b.drop_last()[0] == b[0]);
    }
}

/// The escapes `pct_bytes` writes decode to the bytes.
proof fn lemma_pct_decode_escapes(b: Seq<u8>, r: Seq<u8>)
    ensures
        pct_decode(encode_utf8(pct_bytes(b)) + r) == b + pct_decode(r),
    decreases b.len(),
{
    if b.len() == 0 {
        assert(encode_utf8(pct_bytes(b)) + r =~= r);
        assert(b + pct_decode(r) =~= pct_decode(r));
    } else {
        let x = b[0] as int;
        let hi = hex_upper(x / 16);
        let lo = hex_upper(x % 16);
        lemma_pct_bytes_front(b);
        lemma_hex_upper_digit(x / 16);
        lemma_hex_upper_digit(x % 16);
        let tail = pct_bytes(b.drop_first());
        assert(seq!['%', hi, lo] =~= seq!['%'] + seq![hi] + seq![lo]);
        lemma_encode_utf8_concat(seq!['%', hi, lo], tail);
        lemma_encode_utf8_concat(seq!['%'] + seq![hi], seq![lo]);
        lemma_encode_utf8_concat(seq!['%'], seq![hi]);
        lemma_encode_ascii('%');
        lemma_encode_ascii(hi);
        lemma_encode_ascii(lo);
        let h = (hi as u32) as u8;
        let l = (lo as u32) as u8;
        let e3 = seq![0x25u8, h, l];
        assert(encode_utf8(seq!['%', hi, lo]) =~= e3);
        let rest = encode_utf8(tail) + r;
        let s = encode_utf8(pct_bytes(b)) + r;
        assert(s =~= e3 + rest);
        assert(hex_pair(h, l) == Some(b[0]));
        assert(s.skip(3) =~= rest);
        assert(pct_decode(s) == seq![b[0]] + pct_decode(s.skip(3)));
        lemma_pct_decode_escapes(b.drop_first(), r);
        assert(seq![b[0]] + (b.drop_first() + pct_decode(r)) =~= b + pct_decode(r));
    }
}

/// Decoding what `url_encode` wrote gives back the text's bytes.
proof fn lemma_decode_encoded(x: Seq<char>, in_key: bool, r: Seq<u8>)
    requires
        blocks_survive(x, in_key),
    ensures
        pct_decode(encode_utf8(url_encode_spec(x)) + r) == encode_utf8(x) + pct_decode(r),
    decreases x.len(),
{
    if x.len() == 0 {
        assert(encode_utf8(url_encode_spec(x)) + r =~= r);
        assert(encode_utf8(x) + pct_decode(r) =~= pct_decode(r));
    } else if starts_with(x, seq!['{', '{']) && find(x.skip(2), seq!['}', '}']) is Some {
        let e = find(x.skip(2), seq!['}', '}'])->0;
        lemma_find_from_bounds(x.skip(2), seq!['}', '}'], 0);
        let blk = x.take(e + 4);
        let rest = x.skip(e + 4);
        lemma_encode_utf8_concat(blk, url_encode_spec(rest));
        lemma_encode_utf8_concat(blk, rest);
        assert(x =~= blk + rest);
        let eb = encode_utf8(blk);
        let er = encode_utf8(url_encode_spec(rest));
        assert(encode_utf8(url_encode_spec(x)) + r =~= eb + (er + r));
        lemma_pct_decode_inert(eb, er + r);
        lemma_decode_encoded(rest, in_key, r);
        assert(eb + (encode_utf8(rest) + pct_decode(r)) =~= encode_utf8(x) + pct_decode(r));
    } else {
        let c = x[0];
        let rest = x.drop_first();
        assert(x =~= seq![c] + rest);
        lemma_encode_utf8_concat(seq![c], rest);
        let p = pct_encode_char(c);
        lemma_encode_utf8_concat(p, url_encode_spec(rest));
        let ep = encode_utf8(p);
        let er = encode_utf8(url_encode_spec(rest));
        assert(encode_utf8(url_encode_spec(x)) + r =~= ep + (er + r));
        lemma_decode_encoded(rest, in_key, r);
        if unreserved(c) {
            lemma_encode_ascii(c);
            let b = seq![(c as u32) as u8];
            assert(inert_bytes(b));
            lemma_pct_decode_inert(b, er + r);
        } else {
            lemma_pct_decode_escapes(encode_utf8(seq![c]), er + r);
        }
        assert(encode_utf8(seq![c]) + (encode_utf8(rest) + pct_decode(r)) =~= encode_utf8(x)
            + pct_decode(r));
    }
}

/// `url_decode` undoes `url_encode` when the blocks survive.
pub proof fn lemma_url_decode_encode(x: Seq<char>, in_key: bool)
    requires
        blocks_survive(x, in_key),
    ensures
        url_decode_spec(url_encode_spec(x)) == x,
{
    lemma_decode_encoded(x, in_key, Seq::empty());
    assert(pct_decode(Seq::<u8>::empty()) =~= Seq::<u8>::empty());
    assert(encode_utf8(url_encode_spec(x)) + Seq::<u8>::empty() =~= encode_utf8(url_encode_spec(x)));
    assert(encode_utf8(x) + Seq::<u8>::empty() =~= encode_utf8(x));
    vstd::utf8::encode_utf8_valid_utf8(x);
    vstd::utf8::encode_utf8_decode_utf8(x);
}

/// No `%`-escape or unreserved character is `c`.
pub open spec fn not_written_alone(c: char) -> bool {
    c == '&' || c == '#' || c == '='
}

proof fn lemma_pct_bytes_lacks(b: Seq<u8>, c: char)
    requires
        not_written_alone(c),
    ensures
        lacks(pct_bytes(b), c),
    decreases b.len(),
{
    if b.len() > 0 {
        lemma_pct_bytes_lacks(b.drop_last(), c);
        let x = b.last() as int;
        lemma_hex_upper_digit(x / 16);
        lemma_hex_upper_digit(x % 16);
        let t = seq!['%', hex_upper(x / 16), hex_upper(x % 16)];
        let p = pct_bytes(b.drop_last());
        assert forall|i: int| 0 <= i < pct_bytes(b).len() implies pct_bytes(b)[i] != c by {
            if i >= p.len() {
                assert(pct_bytes(b)[i] == t[i - p.len()]);
            } else {
                assert(pct_bytes(b)[i] == p[i]);
            }
        }
    }
}

/// What `url_encode` writes holds `&`, `#` or `=` only inside copied blocks.
proof fn lemma_encoded_lacks(x: Seq<char>, in_key: bool, c: char)
    requires
        blocks_survive(x, in_key),
        c == '&' || c == '#' || (in_key && c == '='),
    ensures
        lacks(url_encode_spec(x), c),
        x.len() > 0 ==> url_encode_spec(x).len() > 0,
    decreases x.len(),
{
    if x.len() == 0 {
    } else if starts_with(x, seq!['{', '{']) && find(x.skip(2), seq!['}', '}']) is Some {
        let e = find(x.skip(2), seq!['}', '}'])->0;
        lemma_find_from_bounds(x.skip(2), seq!['}', '}'], 0);
        let blk = x.take(e + 4);
        let rest = x.skip(e + 4);
        lemma_encoded_lacks(rest, in_key, c);
        let out = url_encode_spec(x);
        assert(out == blk + url_encode_spec(rest));
        assert forall|i: int| 0 <= i < out.len() implies out[i] != c by {
            if i < blk.len() {
                assert(out[i] == blk[i]);
            } else {
                assert(out[i] == url_encode_spec(rest)[i - blk.len()]);
            }
        }
    } else {
        let rest = x.drop_first();
        lemma_encoded_lacks(rest, in_key, c);
        let p = pct_encode_char(x[0]);
        if !unreserved(x[0]) {
            lemma_pct_bytes_lacks(encode_utf8(seq![x[0]]), c);
            vstd::utf8::encode_utf8_valid_utf8(seq![x[0]]);
            assert(encode_utf8(seq![x[0]]).len() > 0) by {
                assert(seq![x[0]].drop_first() =~= Seq::<char>::empty());
            }
            lemma_pct_bytes_front(encode_utf8(seq![x[0]]));
        }
        let out = url_encode_spec(x);
        assert(out == p + url_encode_spec(rest));
        assert forall|i: int| 0 <= i < out.len() implies out[i] != c by {
            if i < p.len() {
                assert(out[i] == p[i]);
            } else {
                assert(out[i] == url_encode_spec(rest)[i - p.len()]);
            }
        }
    }
}

/// Splitting at `&` what was joined with `&` gives the pieces back.
proof fn lemma_split_join(ps: Seq<Seq<char>>)
    requires
        ps.len() > 0,
        forall|i: int| 0 <= i < ps.len() ==> lacks(#[trigger] ps[i], '&'),
    ensures
        split_char(join(ps, seq!['&']), '&') == ps,
    decreases ps.len(),
{
    if ps.len() == 1 {
        lemma_find_char_none(ps[0], '&');
        assert(ps =~= seq![ps[0]]);
    } else {
        let rest = ps.drop_first();
        assert forall|i: int| 0 <= i < rest.len() implies lacks(#[trigger] rest[i], '&') by {
            assert(rest[i] == ps[i + 1]);
        }
        lemma_split_join(rest);
        lemma_join_front(ps, seq!['&']);
        let t = join(rest, seq!['&']);
        let s = ps[0] + seq!['&'] + t;
        assert(lacks(ps[0], '&'));
        lemma_find_char_after(ps[0], '&', t);
        assert(s.take(ps[0].len() as int) =~= ps[0]);
        assert(s.skip(ps[0].len() + 1int) =~= t);
        assert(ps =~= seq![ps[0]] + rest);
    }
}

proof fn lemma_join_lacks(ps: Seq<Seq<char>>, sep: char, c: char)
    requires
        sep != c,
        forall|i: int| 0 <= i < ps.len() ==> lacks(#[trigger] ps[i], c),
    ensures
        lacks(join(ps, seq![sep]), c),
    decreases ps.len(),
{
    if ps.len() > 1 {
        let init = ps.drop_last();
        assert forall|i: int| 0 <= i < init.len() implies lacks(#[trigger] init[i], c) by {
            assert(init[i] == ps[i]);
        }
        lemma_join_lacks(init, sep, c);
        let j = join(init, seq![sep]);
        let out = join(ps, seq![sep]);
        assert(lacks(ps.last(), c));
        assert(out == j + seq![sep] + ps.last());
        assert forall|i: int| 0 <= i < out.len() implies out[i] != c by {
            if i < j.len() {
                assert(out[i] == j[i]);
            } else if i > j.len() {
                assert(out[i] == ps.last()[i - j.len() - 1]);
            }
        }
    } else if ps.len() == 1 {
        assert(lacks(ps[0], c));
    }
}

/// Each written row reads back as itself.
proof fn lemma_query_row_part(r: Row)
    requires
        r.enabled,
        r.key.len() > 0,
        blocks_survive(r.key, true),
        blocks_survive(r.value, false),
    ensures
        query_row(query_part(r)) == r,
{
    let ek = url_encode_spec(r.key);
    lemma_encoded_lacks(r.key, true, '=');
    lemma_url_decode_encode(r.key, true);
    if r.value.len() == 0 {
        lemma_find_char_none(ek, '=');
        assert(url_decode_spec(Seq::<char>::empty()) =~= Seq::<char>::empty()) by {
            assert(encode_utf8(Seq::<char>::empty()) =~= Seq::<u8>::empty());
            assert(pct_decode(Seq::<u8>::empty()) =~= Seq::<u8>::empty());
            assert(decode_utf8(Seq::<u8>::empty()) =~= Seq::<char>::empty());
        }
        assert(r.value =~= Seq::<char>::empty());
    } else {
        let ev = url_encode_spec(r.value);
        lemma_url_decode_encode(r.value, false);
        lemma_find_char_after(ek, '=', ev);
        let p = ek + seq!['='] + ev;
        assert(query_part(r) == p);
        assert(p.take(ek.len() as int) =~= ek);
        assert(p.skip(ek.len() + 1int) =~= ev);
    }
}

/// The pieces `build_url` joins read back as the rows it wrote.
proof fn lemma_parts_read_back(rows: Seq<Row>)
    requires
        forall|i: int|
            0 <= i < rows.len() && (#[trigger] rows[i]).enabled && rows[i].key.len() > 0
                ==> blocks_survive(rows[i].key, true) && blocks_survive(rows[i].value, false),
    ensures
        query_rows(query_parts(rows)) == sent_rows(rows),
        forall|i: int|
            0 <= i < query_parts(rows).len() ==> lacks(#[trigger] query_parts(rows)[i], '&') && lacks(
                query_parts(rows)[i],
                '#',
            ) && query_parts(rows)[i].len() > 0,
    decreases rows.len(),
{
    if rows.len() > 0 {
        let init = rows.drop_last();
        assert forall|i: int|
            0 <= i < init.len() && (#[trigger] init[i]).enabled && init[i].key.len() > 0 implies blocks_survive(
            init[i].key,
            true,
        ) && blocks_survive(init[i].value, false) by {
            assert(init[i] == rows[i]);
        }
        lemma_parts_read_back(init);
        let r = rows.last();
        let ps = query_parts(init);
        if r.enabled && r.key.len() > 0 {
            assert(rows[rows.len() - 1] == r);
            let p = query_part(r);
            lemma_query_row_part(r);
            lemma_encoded_lacks(r.key, true, '&');
            lemma_encoded_lacks(r.key, true, '#');
            let all = ps.push(p);
            assert(query_parts(rows) == all);
            assert(all.drop_last() =~= ps);
            assert(all.last() == p);
            if r.value.len() > 0 {
                lemma_encoded_lacks(r.value, false, '&');
                lemma_encoded_lacks(r.value, false, '#');
                let ek = url_encode_spec(r.key);
                let ev = url_encode_spec(r.value);
                assert(p == ek + seq!['='] + ev);
                assert forall|i: int| 0 <= i < p.len() implies p[i] != '&' && p[i] != '#' by {
                    if i < ek.len() {
                        assert(p[i] == ek[i]);
                    } else if i > ek.len() {
                        assert(p[i] == ev[i - ek.len() - 1]);
                    }
                }
            }
            assert forall|i: int| 0 <= i < all.len() implies lacks(#[trigger] all[i], '&') && lacks(
                all[i],
                '#',
            ) && all[i].len() > 0 by {
                if i < ps.len() {
                    assert(all[i] == ps[i]);
                }
            }
        }
    }
}

/// The text before the first `c` has no `c`.
proof fn lemma_before_char_lacks(s: Seq<char>, c: char)
    ensures
        lacks(before_char(s, c), c),
{
    lemma_find_from_bounds(s, seq![c], 0);
    let b = before_char(s, c);
    assert forall|j: int| 0 <= j < b.len() implies b[j] != c by {
        assert(b[j] == s[j]);
        if s[j] == c {
            assert(s.subrange(j, j + 1) =~= seq![c]);
            assert(matches_at(s, seq![c], j));
        }
    }
}

/// Reading the parameters back from the URL that `build_url` made gives the
/// enabled parameters that have a key, in order, when the `{{...}}` blocks
/// in their keys and values survive decoding (see `blocks_survive`).
pub proof fn law_query_params_roundtrip(url: Seq<char>, rows: Seq<Row>)
    requires
        forall|i: int|
            0 <= i < rows.len() && (#[trigger] rows[i]).enabled && rows[i].key.len() > 0
                ==> blocks_survive(rows[i].key, true) && blocks_survive(rows[i].value, false),
    ensures
        query_params_spec(build_url_spec(url, rows)) == sent_rows(rows),
{
    lemma_parts_read_back(rows);
    let base = before_char(url, '?');
    let parts = query_parts(rows);
    lemma_before_char_lacks(url, '?');
    if parts.len() == 0 {
        lemma_find_char_none(base, '?');
        assert(query_params_spec(base) =~= Seq::<Row>::empty());
    } else {
        let j = join(parts, seq!['&']);
        let s = base + seq!['?'] + j;
        assert(build_url_spec(url, rows) == s);
        lemma_find_char_after(base, '?', j);
        assert(s.skip(base.len() + 1int) =~= j);
        lemma_join_lacks(parts, '&', '#');
        lemma_find_char_none(j, '#');
        assert(before_char(j, '#') == j);
        lemma_split_join(parts);
    }
}

} // verus!
