//! An Insomnia importer that writes `.http` files: environments become
//! `.env.<name>` files and requests `.http` files in a folder named after
//! their group.
use crate::import::{strs_view, group_pairs, insomnia_body, insomnia_headers, InsomniaResource};
use crate::kv::map_of_pairs;
use crate::model::{entries_view, map_get};
use crate::text::{append_str, chars_of, lowercase, string_of, to_lowercase};
use vstd::prelude::*;

verus! {

/// A name in lower case with each space made a dash.
pub open spec fn dashed(name: Seq<char>) -> Seq<char> {
    lowercase(name).map_values(|c: char| if c == ' ' { '-' } else { c })
}

pub fn dashed_name(name: &str) -> (r: String)
    ensures
        r@ == dashed(name@),
{
    let lower = to_lowercase(&chars_of(name));
    let mut out: Vec<char> = Vec::new();
    let mut i: usize = 0;
    while i < lower.len()
        invariant
            i <= lower@.len(),
            out@ == lower@.take(i as int).map_values(|c: char| if c == ' ' { '-' } else { c }),
        decreases lower@.len() - i,
    {
        let c = lower[i];
        out.push(if c == ' ' { '-' } else { c });
        assert(out@ =~= lower@.take(i + 1).map_values(|c: char| if c == ' ' { '-' } else { c }));
        i += 1;
    }
    assert(lower@.take(lower@.len() as int) =~= lower@);
    string_of(&out)
}

/// `key=value` lines, one per variable, in the order given.
pub open spec fn env_lines(data: Seq<(Seq<char>, Seq<char>)>) -> Seq<char>
    decreases data.len(),
{
    if data.len() == 0 {
        Seq::empty()
    } else {
        env_lines(data.drop_last()) + data.last().0 + seq!['='] + data.last().1 + seq!['\n']
    }
}

pub fn env_text(data: &Vec<(String, String)>) -> (r: String)
    ensures
        r@ == env_lines(entries_view(data@)),
{
    let ghost dv = entries_view(data@);
    let mut out: Vec<char> = Vec::new();
    let mut i: usize = 0;
    assert(dv.take(0) =~= Seq::<(Seq<char>, Seq<char>)>::empty());
    while i < data.len()
        invariant
            i <= data@.len(),
            dv == entries_view(data@),
            out@ == env_lines(dv.take(i as int)),
        decreases data@.len() - i,
    {
        append_str(&mut out, data[i].0.as_str());
        out.push('=');
        append_str(&mut out, data[i].1.as_str());
        out.push('\n');
        proof {
            assert(dv.take(i + 1).drop_last() =~= dv.take(i as int));
            assert(dv.take(i + 1).last() == dv[i as int]);
        }
        i += 1;
    }
    assert(dv.take(dv.len() as int) =~= dv);
    string_of(&out)
}

pub open spec fn header_lines(hs: Seq<(Seq<char>, Seq<char>)>) -> Seq<char>
    decreases hs.len(),
{
    if hs.len() == 0 {
        Seq::empty()
    } else {
        header_lines(hs.drop_last()) + hs.last().0 + seq![':', ' '] + hs.last().1 + seq!['\n']
    }
}

/// `METHOD URL`, the enabled headers, then a blank line and the body when
/// there is one.
pub open spec fn http_text(
    method: Seq<char>,
    url: Seq<char>,
    headers: Seq<(Seq<char>, Seq<char>)>,
    body: Seq<char>,
) -> Seq<char> {
    method + seq![' '] + url + seq!['\n'] + header_lines(headers) + if body.len() > 0 {
        seq!['\n'] + body + seq!['\n']
    } else {
        Seq::empty()
    }
}

pub fn http_file_text(method: &str, url: &str, headers: &Vec<(String, String)>, body: &str) -> (r:
    String)
    ensures
        r@ == http_text(method@, url@, entries_view(headers@), body@),
{
    let mut out = chars_of(method);
    out.push(' ');
    append_str(&mut out, url);
    out.push('\n');
    let ghost head = out@;
    let ghost hv = entries_view(headers@);
    let mut i: usize = 0;
    assert(hv.take(0) =~= Seq::<(Seq<char>, Seq<char>)>::empty());
    assert(out@ =~= head + header_lines(hv.take(0)));
    while i < headers.len()
        invariant
            i <= headers@.len(),
            hv == entries_view(headers@),
            out@ == head + header_lines(hv.take(i as int)),
        decreases headers@.len() - i,
    {
        append_str(&mut out, headers[i].0.as_str());
        out.push(':');
        out.push(' ');
        append_str(&mut out, headers[i].1.as_str());
        out.push('\n');
        proof {
            assert(hv.take(i + 1).drop_last() =~= hv.take(i as int));
            assert(hv.take(i + 1).last() == hv[i as int]);
            assert(out@ =~= head + header_lines(hv.take(i + 1)));
        }
        i += 1;
    }
    assert(hv.take(hv.len() as int) =~= hv);
    if !body.is_empty() {
        out.push('\n');
        append_str(&mut out, body);
        out.push('\n');
    }
    assert(out@ =~= http_text(method@, url@, hv, body@));
    string_of(&out)
}

/// A file system step of an import, with folders given as the names that
/// lead to them from the output folder: create a folder (and those above
/// it), or write a file.
#[derive(Debug)]
pub enum ExportWrite {
    Folder { path: Vec<String> },
    File { dir: Vec<String>, file: String, content: String },
}

pub enum WriteView {
    Folder(Seq<Seq<char>>),
    File(Seq<Seq<char>>, Seq<char>, Seq<char>),
}

pub open spec fn write_view(w: ExportWrite) -> WriteView {
    match w {
        ExportWrite::Folder { path } => WriteView::Folder(strs_view(path@)),
        ExportWrite::File { dir, file, content } => WriteView::File(strs_view(dir@), file@, content@),
    }
}

pub open spec fn writes_view(v: Seq<ExportWrite>) -> Seq<WriteView> {
    v.map_values(|w: ExportWrite| write_view(w))
}

/// An environment with variables is written to `.env.<name>`.
pub open spec fn env_writes(rs: Seq<InsomniaResource>) -> Seq<WriteView>
    decreases rs.len(),
{
    if rs.len() == 0 {
        Seq::empty()
    } else {
        env_writes(rs.drop_last()) + match rs.last() {
            InsomniaResource::Environment { name, data } => if data.len() > 0 {
                seq![
                    WriteView::File(
                        seq![],
                        ".env."@ + dashed(name@),
                        env_lines(entries_view(data@)),
                    ),
                ]
            } else {
                Seq::empty()
            },
            _ => Seq::empty(),
        }
    }
}

/// The folder of a request: its group's name dashed, or `imported`.
pub open spec fn export_folder(parent: Option<String>, groups: Seq<(Seq<char>, Seq<char>)>) -> Seq<
    char,
> {
    match parent {
        Some(p) => match map_get(groups, p@) {
            Some(g) => dashed(g),
            None => "imported"@,
        },
        None => "imported"@,
    }
}

/// Each request: its folder is created, then `<name>.http` written in it.
pub open spec fn request_writes(rs: Seq<InsomniaResource>, groups: Seq<(Seq<char>, Seq<char>)>) -> Seq<
    WriteView,
>
    decreases rs.len(),
{
    if rs.len() == 0 {
        Seq::empty()
    } else {
        request_writes(rs.drop_last(), groups) + match rs.last() {
            InsomniaResource::Request { name, method, url, headers, body, parent_id } => {
                let folder = export_folder(parent_id, groups);
                seq![
                    WriteView::Folder(seq![folder]),
                    WriteView::File(
                        seq![folder],
                        dashed(name@) + ".http"@,
                        http_text(method@, url@, insomnia_headers(headers@), insomnia_body(body)),
                    ),
                ]
            },
            _ => Seq::empty(),
        }
    }
}

/// All environment files first, then the requests, each in resource order.
pub open spec fn export_writes(rs: Seq<InsomniaResource>) -> Seq<WriteView> {
    env_writes(rs) + request_writes(rs, map_of_pairs(group_pairs(rs)))
}

pub open spec fn count_requests(rs: Seq<InsomniaResource>) -> nat
    decreases rs.len(),
{
    if rs.len() == 0 {
        0
    } else {
        count_requests(rs.drop_last()) + if rs.last() is Request {
            1nat
        } else {
            0nat
        }
    }
}

pub open spec fn count_envs(rs: Seq<InsomniaResource>) -> nat
    decreases rs.len(),
{
    if rs.len() == 0 {
        0
    } else {
        count_envs(rs.drop_last()) + match rs.last() {
            InsomniaResource::Environment { data, .. } => if data.len() > 0 {
                1nat
            } else {
                0nat
            },
            _ => 0nat,
        }
    }
}

/// What an import writes, with the number of requests and of environments.
pub struct ExportPlan {
    pub writes: Vec<ExportWrite>,
    pub requests: usize,
    pub envs: usize,
}

/// Plan the import of an Insomnia export's resources.
pub fn plan_insomnia_export(resources: &Vec<InsomniaResource>) -> (r: ExportPlan)
    ensures
        writes_view(r.writes@) == export_writes(resources@),
        r.requests == count_requests(resources@),
        r.envs == count_envs(resources@),
{
    let mut writes: Vec<ExportWrite> = Vec::new();
    let mut envs: usize = 0;
    let mut i: usize = 0;
    assert(resources@.take(0) =~= Seq::<InsomniaResource>::empty());
    assert(writes_view(writes@) =~= Seq::<WriteView>::empty());
    while i < resources.len()
        invariant
            i <= resources@.len(),
            writes_view(writes@) == env_writes(resources@.take(i as int)),
            envs == count_envs(resources@.take(i as int)),
            envs <= i,
        decreases resources@.len() - i,
    {
        proof {
            assert(resources@.take(i + 1).drop_last() =~= resources@.take(i as int));
            assert(resources@.take(i + 1).last() == resources@[i as int]);
        }
        let ghost before = writes_view(writes@);
        match &resources[i] {
            InsomniaResource::Environment { name, data } => {
                if data.len() > 0 {
                    let mut file = chars_of(".env.");
                    let d = dashed_name(name.as_str());
                    append_str(&mut file, d.as_str());
                    let content = env_text(data);
                    writes.push(ExportWrite::File { dir: Vec::new(), file: string_of(&file), content });
                    assert(strs_view(Seq::<String>::empty()) =~= Seq::<Seq<char>>::empty());
                    envs += 1;
                }
            },
            _ => {},
        }
        assert(writes_view(writes@) =~= before + match resources@[i as int] {
            InsomniaResource::Environment { name, data } => if data.len() > 0 {
                seq![
                    WriteView::File(
                        seq![],
                        ".env."@ + dashed(name@),
                        env_lines(entries_view(data@)),
                    ),
                ]
            } else {
                Seq::empty()
            },
            _ => Seq::empty(),
        });
        i += 1;
    }
    assert(resources@.take(i as int) =~= resources@);
    let groups = crate::import::group_map(resources);
    let ghost gv = groups@;
    let ghost head = writes_view(writes@);
    let mut requests: usize = 0;
    let mut j: usize = 0;
    assert(resources@.take(0) =~= Seq::<InsomniaResource>::empty());
    assert(writes_view(writes@) =~= head + request_writes(resources@.take(0), gv));
    while j < resources.len()
        invariant
            j <= resources@.len(),
            groups@ == gv,
            gv == map_of_pairs(group_pairs(resources@)),
            head == env_writes(resources@),
            writes_view(writes@) == head + request_writes(resources@.take(j as int), gv),
            requests == count_requests(resources@.take(j as int)),
            requests <= j,
        decreases resources@.len() - j,
    {
        proof {
            assert(resources@.take(j + 1).drop_last() =~= resources@.take(j as int));
            assert(resources@.take(j + 1).last() == resources@[j as int]);
        }
        let ghost before = writes_view(writes@);
        match &resources[j] {
            InsomniaResource::Request { name, method, url, headers, body, parent_id } => {
                let folder = match parent_id {
                    Some(p) => match groups.get(p.as_str()) {
                        Some(g) => dashed_name(g.as_str()),
                        None => string_of(&chars_of("imported")),
                    },
                    None => string_of(&chars_of("imported")),
                };
                let pairs = crate::import::insomnia_header_pairs(headers);
                let text = match body {
                    Some(b) => match &b.text {
                        Some(t) => t.clone(),
                        None => String::new(),
                    },
                    None => String::new(),
                };
                let mut file = chars_of(dashed_name(name.as_str()).as_str());
                append_str(&mut file, ".http");
                let content = http_file_text(method.as_str(), url.as_str(), &pairs, text.as_str());
                let ghost fv = folder@;
                let path = vec![folder.clone()];
                let dir = vec![folder];
                assert(strs_view(path@) =~= seq![fv]);
                assert(strs_view(dir@) =~= seq![fv]);
                writes.push(ExportWrite::Folder { path });
                writes.push(ExportWrite::File { dir, file: string_of(&file), content });
                requests += 1;
            },
            _ => {},
        }
        assert(writes_view(writes@) =~= before + match resources@[j as int] {
            InsomniaResource::Request { name, method, url, headers, body, parent_id } => {
                let folder = export_folder(parent_id, gv);
                seq![
                    WriteView::Folder(seq![folder]),
                    WriteView::File(
                        seq![folder],
                        dashed(name@) + ".http"@,
                        http_text(method@, url@, insomnia_headers(headers@), insomnia_body(body)),
                    ),
                ]
            },
            _ => Seq::empty(),
        });
        j += 1;
    }
    assert(resources@.take(j as int) =~= resources@);
    ExportPlan { writes, requests, envs }
}

} // verus!
