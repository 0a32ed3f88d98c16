//! A Postman importer that writes `.http` files: collection variables
//! become `.env.<name>`, folders become folders and requests `.http` files;
//! URLs are joined from their parts without encoding.
use crate::import::strs_view;
use crate::insomnia_importer::{
    dashed, dashed_name, env_lines, env_text, http_file_text, http_text, writes_view, ExportPlan,
    ExportWrite, WriteView,
};
use crate::model::entries_view;
use crate::text::{append, append_str, chars_of, join, join_exec, string_of};
use vstd::prelude::*;

verus! {

#[derive(Debug)]
pub struct PostmanQueryParam {
    pub key: String,
    pub value: String,
    pub disabled: bool,
}

/// A request URL: a plain string, or its parts.
#[derive(Debug)]
pub enum PostmanUrl {
    String(String),
    Object {
        raw: Option<String>,
        protocol: Option<String>,
        host: Vec<String>,
        path: Vec<String>,
        query: Vec<PostmanQueryParam>,
    },
}

/// `key=value` for each enabled parameter, as written.
pub open spec fn active_params(q: Seq<PostmanQueryParam>) -> Seq<Seq<char>>
    decreases q.len(),
{
    if q.len() == 0 {
        seq![]
    } else {
        let rest = active_params(q.drop_last());
        if q.last().disabled {
            rest
        } else {
            rest.push(q.last().key@ + seq!['='] + q.last().value@)
        }
    }
}

/// The raw URL when present, else `protocol://host/path?query` from the
/// parts (`https` by default, disabled parameters dropped).
pub open spec fn reconstruct_spec(u: PostmanUrl) -> Seq<char> {
    match u {
        PostmanUrl::String(s) => s@,
        PostmanUrl::Object { raw: Some(r), .. } => r@,
        PostmanUrl::Object { protocol, host, path, query, .. } => {
            let proto = match protocol {
                Some(p) => p@,
                None => "https"@,
            };
            let p = if path.len() == 0 {
                seq![]
            } else {
                seq!['/'] + join(strs_view(path@), seq!['/'])
            };
            let qs = active_params(query@);
            let q = if qs.len() == 0 {
                seq![]
            } else {
                seq!['?'] + join(qs, seq!['&'])
            };
            proto + "://"@ + join(strs_view(host@), seq!['.']) + p + q
        },
    }
}

fn char_vecs(v: &Vec<String>) -> (r: Vec<Vec<char>>)
    ensures
        r@.map_values(|c: Vec<char>| c@) == strs_view(v@),
{
    let mut out: Vec<Vec<char>> = Vec::new();
    let mut i: usize = 0;
    while i < v.len()
        invariant
            i <= v@.len(),
            out@.map_values(|c: Vec<char>| c@) == strs_view(v@).take(i as int),
        decreases v@.len() - i,
    {
        let ghost before = out@.map_values(|c: Vec<char>| c@);
        let c = chars_of(v[i].as_str());
        out.push(c);
        assert(out@.map_values(|c: Vec<char>| c@) =~= before.push(strs_view(v@)[i as int]));
        i += 1;
        assert(out@.map_values(|c: Vec<char>| c@) =~= strs_view(v@).take(i as int));
    }
    assert(strs_view(v@).take(i as int) =~= strs_view(v@));
    out
}

/// Rebuilds a URL from Postman's format: the string or `raw` as is, else
/// from protocol, host, path and enabled query parameters.
pub fn reconstruct_url(url: &PostmanUrl) -> (r: String)
    ensures
        r@ == reconstruct_spec(*url),
{
    match url {
        PostmanUrl::String(s) => s.clone(),
        PostmanUrl::Object { raw: Some(raw), .. } => raw.clone(),
        PostmanUrl::Object { protocol, host, path, query, .. } => {
            let mut out = match protocol {
                Some(p) => chars_of(p.as_str()),
                None => chars_of("https"),
            };
            append_str(&mut out, "://");
            let dot = vec!['.'];
            assert(dot@ =~= seq!['.']);
            let h = join_exec(&char_vecs(host), &dot);
            append(&mut out, &h);
            if path.len() > 0 {
                out.push('/');
                let slash = vec!['/'];
                assert(slash@ =~= seq!['/']);
                let p = join_exec(&char_vecs(path), &slash);
                append(&mut out, &p);
            }
            let mut qs: Vec<Vec<char>> = Vec::new();
            let mut j: usize = 0;
            assert(query@.take(0) =~= Seq::<PostmanQueryParam>::empty());
            assert(qs@.map_values(|c: Vec<char>| c@) =~= Seq::<Seq<char>>::empty());
            while j < query.len()
                invariant
                    j <= query@.len(),
                    qs@.map_values(|c: Vec<char>| c@) == active_params(query@.take(j as int)),
                decreases query@.len() - j,
            {
                proof {
                    assert(query@.take(j + 1).drop_last() =~= query@.take(j as int));
                    assert(query@.take(j + 1).last() == query@[j as int]);
                }
                let q = &query[j];
                if !q.disabled {
                    let mut pair = chars_of(q.key.as_str());
                    pair.push('=');
                    append_str(&mut pair, q.value.as_str());
                    let ghost before = qs@.map_values(|c: Vec<char>| c@);
                    let ghost pv = pair@;
                    assert(pv =~= query@[j as int].key@ + seq!['='] + query@[j as int].value@);
                    qs.push(pair);
                    assert(qs@.map_values(|c: Vec<char>| c@) =~= before.push(pv));
                }
                assert(qs@.map_values(|c: Vec<char>| c@) == active_params(query@.take(j + 1)));
                j += 1;
            }
            assert(query@.take(j as int) =~= query@);
            if qs.len() > 0 {
                out.push('?');
                let amp = vec!['&'];
                assert(amp@ =~= seq!['&']);
                let joined = join_exec(&qs, &amp);
                append(&mut out, &joined);
            }
            proof {
                assert(out@ =~= reconstruct_spec(*url));
            }
            string_of(&out)
        },
    }
}

// ---------------------------------------------------------------------------
// Collections
// ---------------------------------------------------------------------------

#[derive(Debug)]
pub struct PostmanHeader {
    pub key: String,
    pub value: String,
    pub disabled: bool,
}

#[derive(Debug)]
pub struct PostmanBody {
    pub raw: Option<String>,
}

#[derive(Debug)]
pub struct PostmanRequest {
    pub method: String,
    pub header: Vec<PostmanHeader>,
    pub url: PostmanUrl,
    pub body: Option<PostmanBody>,
}

/// A request, or a folder of items.
#[derive(Debug)]
pub struct PostmanItem {
    pub name: String,
    pub item: Vec<PostmanItem>,
    pub request: Option<PostmanRequest>,
}

/// A collection: its name, items, and variables (values as text).
#[derive(Debug)]
pub struct PostmanCollection {
    pub name: String,
    pub item: Vec<PostmanItem>,
    pub variable: Vec<(String, String)>,
}

/// `(key, value)` of the enabled headers, in order.
pub open spec fn enabled_headers(h: Seq<PostmanHeader>) -> Seq<(Seq<char>, Seq<char>)>
    decreases h.len(),
{
    if h.len() == 0 {
        seq![]
    } else {
        let rest = enabled_headers(h.drop_last());
        if h.last().disabled {
            rest
        } else {
            rest.push((h.last().key@, h.last().value@))
        }
    }
}

pub open spec fn raw_body(b: Option<PostmanBody>) -> Seq<char> {
    match b {
        Some(PostmanBody { raw: Some(r) }) => r@,
        _ => seq![],
    }
}

/// An item's writes: a request becomes `<name>.http` in `dir`; a folder with
/// items becomes a sub-folder holding their writes; an empty folder writes
/// nothing.
pub open spec fn item_writes(item: PostmanItem, dir: Seq<Seq<char>>) -> Seq<WriteView>
    decreases item,
{
    match item.request {
        Some(req) => seq![
            WriteView::File(
                dir,
                dashed(item.name@) + ".http"@,
                http_text(
                    req.method@,
                    reconstruct_spec(req.url),
                    enabled_headers(req.header@),
                    raw_body(req.body),
                ),
            ),
        ],
        None => if item.item.len() == 0 {
            seq![]
        } else {
            let sub = dir.push(dashed(item.name@));
            proof {
                broadcast use vstd::std_specs::vec::axiom_vec_decreases_to_view;

                assert(decreases_to!(item => item.item));
                assert(decreases_to!(item.item => item.item@));
            }
            seq![WriteView::Folder(sub)] + items_writes(item.item@, sub)
        },
    }
}

pub open spec fn items_writes(items: Seq<PostmanItem>, dir: Seq<Seq<char>>) -> Seq<WriteView>
    decreases items,
{
    if items.len() == 0 {
        seq![]
    } else {
        proof {
            assert(decreases_to!(items => items[items.len() - 1]));
        }
        items_writes(items.subrange(0, items.len() - 1), dir) + item_writes(
            items[items.len() - 1],
            dir,
        )
    }
}

/// The requests under an item.
pub open spec fn item_requests(item: PostmanItem) -> nat
    decreases item,
{
    match item.request {
        Some(_) => 1,
        None => {
            proof {
                broadcast use vstd::std_specs::vec::axiom_vec_decreases_to_view;

                assert(decreases_to!(item => item.item));
                assert(decreases_to!(item.item => item.item@));
            }
            items_requests(item.item@)
        },
    }
}

pub open spec fn items_requests(items: Seq<PostmanItem>) -> nat
    decreases items,
{
    if items.len() == 0 {
        0
    } else {
        proof {
            assert(decreases_to!(items => items[items.len() - 1]));
        }
        items_requests(items.subrange(0, items.len() - 1)) + item_requests(items[items.len() - 1])
    }
}

/// The variables go to `.env.<name>` when there are any; then the items.
pub open spec fn collection_writes(c: PostmanCollection) -> Seq<WriteView> {
    (if c.variable.len() > 0 {
        seq![WriteView::File(seq![], ".env."@ + dashed(c.name@), env_lines(entries_view(c.variable@)))]
    } else {
        seq![]
    }) + items_writes(c.item@, seq![])
}

fn header_pairs(h: &Vec<PostmanHeader>) -> (r: Vec<(String, String)>)
    ensures
        entries_view(r@) == enabled_headers(h@),
{
    let mut out: Vec<(String, String)> = Vec::new();
    let mut i: usize = 0;
    assert(h@.take(0) =~= Seq::<PostmanHeader>::empty());
    assert(entries_view(out@) =~= Seq::<(Seq<char>, Seq<char>)>::empty());
    while i < h.len()
        invariant
            i <= h@.len(),
            entries_view(out@) == enabled_headers(h@.take(i as int)),
        decreases h@.len() - i,
    {
        proof {
            assert(h@.take(i + 1).drop_last() =~= h@.take(i as int));
            assert(h@.take(i + 1).last() == h@[i as int]);
        }
        if !h[i].disabled {
            let ghost before = entries_view(out@);
            out.push((h[i].key.clone(), h[i].value.clone()));
            assert(entries_view(out@) =~= before.push((h@[i as int].key@, h@[i as int].value@)));
        }
        i += 1;
    }
    assert(h@.take(i as int) =~= h@);
    out
}

fn copy_path(v: &Vec<String>) -> (r: Vec<String>)
    ensures
        strs_view(r@) == strs_view(v@),
{
    let mut out: Vec<String> = Vec::new();
    let mut i: usize = 0;
    while i < v.len()
        invariant
            i <= v@.len(),
            strs_view(out@) == strs_view(v@).take(i as int),
        decreases v@.len() - i,
    {
        let ghost before = strs_view(out@);
        out.push(v[i].clone());
        assert(strs_view(out@) =~= before.push(strs_view(v@)[i as int]));
        i += 1;
        assert(strs_view(out@) =~= strs_view(v@).take(i as int));
    }
    assert(strs_view(v@).take(i as int) =~= strs_view(v@));
    out
}

/// Appends the writes of `item` in `dir`; gives the number of requests.
fn export_item(item: &PostmanItem, dir: &Vec<String>, writes: &mut Vec<ExportWrite>) -> (n: usize)
    ensures
        writes_view(final(writes)@) == writes_view(old(writes)@) + item_writes(*item, strs_view(dir@)),
        n == item_requests(*item),
        n <= final(writes)@.len() - old(writes)@.len(),
    decreases item,
{
    match &item.request {
        Some(req) => {
            let headers = header_pairs(&req.header);
            let body = match &req.body {
                Some(b) => match &b.raw {
                    Some(r) => r.clone(),
                    None => String::new(),
                },
                None => String::new(),
            };
            let url = reconstruct_url(&req.url);
            let content = http_file_text(req.method.as_str(), url.as_str(), &headers, body.as_str());
            let mut file = chars_of(dashed_name(item.name.as_str()).as_str());
            append_str(&mut file, ".http");
            let ghost before = writes_view(writes@);
            writes.push(ExportWrite::File { dir: copy_path(dir), file: string_of(&file), content });
            assert(writes_view(writes@) =~= before + item_writes(*item, strs_view(dir@)));
            1
        },
        None => {
            if item.item.len() == 0 {
                assert(writes_view(writes@) =~= writes_view(old(writes)@) + item_writes(*item, strs_view(dir@)));
                return 0;
            }
            let mut sub = copy_path(dir);
            sub.push(dashed_name(item.name.as_str()));
            let ghost subv = strs_view(dir@).push(dashed(item.name@));
            assert(strs_view(sub@) =~= subv);
            let ghost before = writes_view(writes@);
            let ghost start = writes@.len();
            writes.push(ExportWrite::Folder { path: copy_path(&sub) });
            assert(writes_view(writes@) =~= before + seq![WriteView::Folder(subv)]);
            let mut total: usize = 0;
            let mut i: usize = 0;
            let ghost children = item.item@;
            assert(children.subrange(0, 0) =~= Seq::<PostmanItem>::empty());
            while i < item.item.len()
                invariant
                    i <= children.len(),
                    children == item.item@,
                    item.request is None,
                    strs_view(sub@) == subv,
                    writes_view(writes@) == before + seq![WriteView::Folder(subv)] + items_writes(
                        children.subrange(0, i as int),
                        subv,
                    ),
                    total == items_requests(children.subrange(0, i as int)),
                    writes@.len() >= start + 1,
                    total <= writes@.len() - start,
                decreases children.len() - i,
            {
                proof {
                    broadcast use vstd::std_specs::vec::axiom_vec_index_decreases;

                    assert(decreases_to!(*item => item.item));
                    assert(decreases_to!(item.item => item.item[i as int]));
                    assert(children.subrange(0, i + 1).subrange(0, i as int) =~= children.subrange(
                        0,
                        i as int,
                    ));
                    assert(children.subrange(0, i + 1)[i as int] == children[i as int]);
                }
                let n = export_item(&item.item[i], &sub, writes);
                let len_now = writes.len();
                assert(total + n <= len_now - start);
                total = total + n;
                assert(writes_view(writes@) =~= before + seq![WriteView::Folder(subv)] + items_writes(
                    children.subrange(0, i + 1),
                    subv,
                ));
                i += 1;
            }
            assert(children.subrange(0, i as int) =~= children);
            total
        },
    }
}

/// What importing a collection writes, and how many requests and
/// environment files.
pub fn plan_collection(c: &PostmanCollection) -> (r: ExportPlan)
    ensures
        writes_view(r.writes@) == collection_writes(*c),
        r.requests == items_requests(c.item@),
        r.envs == (if c.variable.len() > 0 {
            1nat
        } else {
            0nat
        }),
{
    let mut writes: Vec<ExportWrite> = Vec::new();
    let mut envs: usize = 0;
    if c.variable.len() > 0 {
        let mut file = chars_of(".env.");
        append_str(&mut file, dashed_name(c.name.as_str()).as_str());
        let content = env_text(&c.variable);
        writes.push(ExportWrite::File { dir: Vec::new(), file: string_of(&file), content });
        envs = 1;
    }
    assert(strs_view(Seq::<String>::empty()) =~= Seq::<Seq<char>>::empty());
    let ghost head = writes_view(writes@);
    let ghost start = writes@.len();
    let root: Vec<String> = Vec::new();
    let mut requests: usize = 0;
    let mut i: usize = 0;
    let ghost items = c.item@;
    assert(items.subrange(0, 0) =~= Seq::<PostmanItem>::empty());
    while i < c.item.len()
        invariant
            i <= items.len(),
            items == c.item@,
            strs_view(root@) == Seq::<Seq<char>>::empty(),
            writes_view(writes@) == head + items_writes(items.subrange(0, i as int), seq![]),
            requests == items_requests(items.subrange(0, i as int)),
            writes@.len() >= start,
            requests <= writes@.len() - start,
        decreases items.len() - i,
    {
        proof {
            assert(items.subrange(0, i + 1).subrange(0, i as int) =~= items.subrange(0, i as int));
            assert(items.subrange(0, i + 1)[i as int] == items[i as int]);
        }
        let n = export_item(&c.item[i], &root, &mut writes);
        let len_now = writes.len();
        assert(requests + n <= len_now - start);
        requests = requests + n;
        assert(writes_view(writes@) =~= head + items_writes(items.subrange(0, i + 1), seq![]));
        i += 1;
    }
    assert(items.subrange(0, i as int) =~= items);
    assert(writes_view(writes@) =~= collection_writes(*c));
    ExportPlan { writes, requests, envs }
}

} // verus!
