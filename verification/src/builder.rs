//! The compiler's front: its settings, and the document that it emits for
//! a text of request blocks.

use vstd::prelude::*;
use crate::emit::{extend_rows, push_row, rust_code};
use crate::models::{HttpRequest, RequestView};
use crate::parser::{
    lemma_one_request_per_block, opened, parse_http_code, parse_lines, parsed, request_views,
};
use crate::text::{
    append_str, chars_of, contains, holds, join, joined, lines_of, replace, replaced, rows,
    split_lines, string_of,
};

verus! {

/// The settings of one compilation.
#[derive(Debug, Clone)]
pub struct Builder {
    pub httpfile_path: String,
    pub http_client: String,
    pub out_dir: Option<String>,
}

/// What a builder holds, as character sequences.
pub struct BuilderView {
    pub httpfile_path: Seq<char>,
    pub http_client: Seq<char>,
    pub out_dir: Option<Seq<char>>,
}

impl View for Builder {
    type V = BuilderView;

    open spec fn view(&self) -> BuilderView {
        BuilderView {
            httpfile_path: self.httpfile_path@,
            http_client: self.http_client@,
            out_dir: match self.out_dir {
                Some(d) => Some(d@),
                None => None,
            },
        }
    }
}

impl Builder {
    /// The settings for the input `index.http`, the client `reqwest` and the
    /// given output directory.
    pub fn new(out_dir: &str) -> (b: Builder)
        ensures
            b@ == (BuilderView {
                httpfile_path: "index.http"@,
                http_client: "reqwest"@,
                out_dir: Some(out_dir@),
            }),
            b.httpfile_path@ == "index.http"@,
            b.http_client@ == "reqwest"@,
            b.out_dir is Some && b.out_dir->0@ == out_dir@,
    {
        Builder {
            httpfile_path: string_of(&chars_of("index.http")),
            http_client: string_of(&chars_of("reqwest")),
            out_dir: Some(string_of(&chars_of(out_dir))),
        }
    }

    /// The same settings with another input path.
    pub fn httpfile(self, httpfile_path: &str) -> (b: Builder)
        ensures
            b@ == (BuilderView { httpfile_path: httpfile_path@, ..self@ }),
            b.httpfile_path@ == httpfile_path@,
            b.http_client == self.http_client,
            b.out_dir == self.out_dir,
    {
        let mut b = self;
        b.httpfile_path = string_of(&chars_of(httpfile_path));
        b
    }

    /// The same settings with another output directory.
    pub fn out_dir(self, out_dir: &str) -> (b: Builder)
        ensures
            b@ == (BuilderView { out_dir: Some(out_dir@), ..self@ }),
            b.httpfile_path == self.httpfile_path,
            b.http_client == self.http_client,
            b.out_dir is Some && b.out_dir->0@ == out_dir@,
    {
        let mut b = self;
        b.out_dir = Some(string_of(&chars_of(out_dir)));
        b
    }

    /// The output directory.
    pub fn target_dir(&self) -> (d: Option<&str>)
        ensures
            self@.out_dir == match d {
                Some(s) => Some(s@),
                None => None::<Seq<char>>,
            },
    {
        match &self.out_dir {
            Some(d) => Some(d.as_str()),
            None => None,
        }
    }
}

/// The name of the emitted file for an input file named `file_name`: each
/// `.http` in it becomes `.rs`.
pub fn rust_file_name(file_name: &str) -> (r: String)
    ensures
        r@ == replaced(file_name@, ".http"@, ".rs"@),
{
    string_of(&replace(&chars_of(file_name), ".http", ".rs"))
}

/// The lines that open the document, up to the template registrations.
pub open spec fn opening() -> Seq<Seq<char>> {
    seq![
        "use std::collections::HashMap;"@,
        "use reqwest::{Client, Response, Result};"@,
        "use reqwest::header::HeaderMap;"@,
        "use handlebars::Handlebars;"@,
        ""@,
        "lazy_static::lazy_static! {"@,
        "  static ref CLIENT: Client = reqwest::Client::new();"@,
        "  static ref HANDLEBARS: Handlebars<'static> = {"@,
        "    let mut reg = Handlebars::new();"@,
    ]
}

/// The lines between the template registrations and the functions.
pub open spec fn closing() -> Seq<Seq<char>> {
    seq!["    reg"@, "    };"@, "  }"@]
}

/// Whether the body of `m` is registered as a template: it holds a
/// placeholder.
pub open spec fn registered(m: RequestView) -> bool {
    m.body is Some && holds(m.body->0, "{{"@)
}

/// The registration of the body of `m` under the request's name followed
/// by `_body`.
pub open spec fn registration(m: RequestView) -> Seq<char> {
    "    reg.register_template_string(\""@ + m.name + "_body"@ + "\", r#\""@ + m.body->0
        + "\"#).unwrap();"@
}

/// One registration for each request whose body is registered, in their
/// order.
pub open spec fn registrations(rs: Seq<RequestView>) -> Seq<Seq<char>>
    decreases rs.len(),
{
    if rs.len() == 0 {
        Seq::empty()
    } else if registered(rs.last()) {
        registrations(rs.drop_last()).push(registration(rs.last()))
    } else {
        registrations(rs.drop_last())
    }
}

/// For each request, in their order, an empty line and the function that
/// performs it.
pub open spec fn units(rs: Seq<RequestView>) -> Seq<Seq<char>>
    decreases rs.len(),
{
    if rs.len() == 0 {
        Seq::empty()
    } else {
        units(rs.drop_last()).push(Seq::empty()).push(rust_code(rs.last()))
    }
}

/// The lines of the document emitted for the requests `rs`.
pub open spec fn document_lines(rs: Seq<RequestView>) -> Seq<Seq<char>> {
    opening() + registrations(rs) + closing() + units(rs)
}

/// The document emitted for the text `text`.
pub open spec fn document(text: Seq<char>) -> Seq<char> {
    joined(document_lines(parsed(text)), "\n"@)
}

/// Whether the lines `lines` hold, for the request at offset `i` of `rs`,
/// an empty line and then its function, as their lines `2 * i` and
/// `2 * i + 1`.
pub open spec fn holds_unit(lines: Seq<Seq<char>>, rs: Seq<RequestView>, i: int) -> bool {
    lines[2 * i] == Seq::<char>::empty() && lines[2 * i + 1] == rust_code(rs[i])
}

/// The document holds one function for each request, in the order of the
/// requests, and nothing else behind its registrations.
pub proof fn lemma_one_unit_per_request(rs: Seq<RequestView>)
    ensures
        units(rs).len() == 2 * rs.len(),
        forall|i: int| 0 <= i < rs.len() ==> #[trigger] holds_unit(units(rs), rs, i),
    decreases rs.len(),
{
    if rs.len() > 0 {
        let front = rs.drop_last();
        lemma_one_unit_per_request(front);
        assert forall|i: int| 0 <= i < rs.len() implies #[trigger] holds_unit(units(rs), rs, i) by {
            if i < rs.len() - 1 {
                assert(holds_unit(units(front), front, i));
            }
        }
    }
}

/// The document of a text holds one function for each block of the text
/// in which a request line was read, and no other.
pub proof fn lemma_one_unit_per_block(text: Seq<char>)
    ensures
        units(parsed(text)).len() == 2 * opened(lines_of(text), lines_of(text).len()),
        forall|i: int|
            0 <= i < parsed(text).len() ==> #[trigger] holds_unit(
                units(parsed(text)),
                parsed(text),
                i,
            ),
{
    lemma_one_request_per_block(text);
    lemma_one_unit_per_request(parsed(text));
}

/// The registration lines for `requests`.
pub fn registrations_of(requests: &Vec<HttpRequest>) -> (out: Vec<Vec<char>>)
    ensures
        rows(out@) == registrations(request_views(requests@)),
{
    let mut out: Vec<Vec<char>> = Vec::new();
    let ghost rs = request_views(requests@);
    let mut i: usize = 0;
    assert(rows(out@) =~= registrations(rs.take(0)));
    while i < requests.len()
        invariant
            i <= requests.len(),
            rs == request_views(requests@),
            rows(out@) == registrations(rs.take(i as int)),
        decreases requests.len() - i,
    {
        assert(rs.take(i + 1).drop_last() =~= rs.take(i as int));
        assert(rs.take(i + 1).last() == requests@[i as int]@);
        match &requests[i].body {
            Some(body) => {
                if contains(&chars_of(body.as_str()), "{{") {
                    let mut line = chars_of("    reg.register_template_string(\"");
                    append_str(&mut line, requests[i].name.as_str());
                    append_str(&mut line, "_body");
                    append_str(&mut line, "\", r#\"");
                    append_str(&mut line, body.as_str());
                    append_str(&mut line, "\"#).unwrap();");
                    push_row(&mut out, line);
                }
            },
            None => {},
        }
        i += 1;
    }
    assert(rs.take(requests.len() as int) =~= rs);
    out
}

/// The functions for `requests`, each behind an empty line.
pub fn units_of(requests: &Vec<HttpRequest>) -> (out: Vec<Vec<char>>)
    ensures
        rows(out@) == units(request_views(requests@)),
{
    let mut out: Vec<Vec<char>> = Vec::new();
    let ghost rs = request_views(requests@);
    let mut i: usize = 0;
    assert(rows(out@) =~= units(rs.take(0)));
    while i < requests.len()
        invariant
            i <= requests.len(),
            rs == request_views(requests@),
            rows(out@) == units(rs.take(i as int)),
        decreases requests.len() - i,
    {
        assert(rs.take(i + 1).drop_last() =~= rs.take(i as int));
        assert(rs.take(i + 1).last() == requests@[i as int]@);
        push_row(&mut out, Vec::new());
        push_row(&mut out, chars_of(requests[i].to_rust_code().as_str()));
        i += 1;
    }
    assert(rs.take(requests.len() as int) =~= rs);
    out
}

/// The lines that open the document.
pub fn opening_lines() -> (out: Vec<Vec<char>>)
    ensures
        rows(out@) == opening(),
{
    let mut out: Vec<Vec<char>> = Vec::new();
    out.push(chars_of("use std::collections::HashMap;"));
    out.push(chars_of("use reqwest::{Client, Response, Result};"));
    out.push(chars_of("use reqwest::header::HeaderMap;"));
    out.push(chars_of("use handlebars::Handlebars;"));
    out.push(chars_of(""));
    out.push(chars_of("lazy_static::lazy_static! {"));
    out.push(chars_of("  static ref CLIENT: Client = reqwest::Client::new();"));
    out.push(chars_of("  static ref HANDLEBARS: Handlebars<'static> = {"));
    out.push(chars_of("    let mut reg = Handlebars::new();"));
    assert(rows(out@) =~= opening());
    out
}

/// The document emitted for `requests`.
pub fn generate(requests: &Vec<HttpRequest>) -> (r: String)
    ensures
        r@ == joined(document_lines(request_views(requests@)), "\n"@),
{
    let mut all = opening_lines();
    extend_rows(&mut all, &registrations_of(requests));
    push_row(&mut all, chars_of("    reg"));
    push_row(&mut all, chars_of("    };"));
    push_row(&mut all, chars_of("  }"));
    assert(rows(all@) =~= opening() + registrations(request_views(requests@)) + closing());
    extend_rows(&mut all, &units_of(requests));
    assert(rows(all@).subrange(0, all.len() as int) =~= rows(all@));
    string_of(&join(&all, 0, all.len(), "\n"))
}

/// The document emitted for the text `http_code`.
pub fn compile_text(http_code: &str) -> (r: String)
    requires
        lines_of(http_code@).len() < u32::MAX,
    ensures
        r@ == document(http_code@),
{
    let requests = parse_http_code(http_code);
    generate(&requests)
}

/// The document emitted for the text `http_code`, or none where the text
/// has too many lines to be numbered.
pub fn try_compile_text(http_code: &str) -> (r: Option<String>)
    ensures
        match r {
            Some(d) => lines_of(http_code@).len() < u32::MAX && d@ == document(http_code@),
            None => lines_of(http_code@).len() >= u32::MAX,
        },
{
    let text = chars_of(http_code);
    let lines = split_lines(&text);
    assert(rows(lines@).len() == lines.len());
    if lines.len() >= u32::MAX as usize {
        return None;
    }
    let requests = parse_lines(&lines);
    Some(generate(&requests))
}

/// What is written for an input file is fixed by the file's name and its
/// text: the same name and text give the same file name and the same
/// document.
pub proof fn lemma_output_determined(
    name_a: Seq<char>,
    text_a: Seq<char>,
    name_b: Seq<char>,
    text_b: Seq<char>,
)
    requires
        name_a == name_b,
        text_a == text_b,
    ensures
        replaced(name_a, ".http"@, ".rs"@) == replaced(name_b, ".http"@, ".rs"@),
        document(text_a) == document(text_b),
{
}

} // verus!
