//! Request definitions: the record of one request block, and its clean-up
//! once the block is closed.

use vstd::prelude::*;
use crate::text::{
    append, append_str, blank, chars_of, decimal, ends_with, equals, has_suffix, is_blank,
    is_white_space, is_whitespace, join, joined, push_decimal, replace, replaced, rows, shifted,
    slice, starts_with, string_of, texts, trimmed_start,
};

verus! {

/// One header of a request: a name and a value.
#[derive(Debug)]
pub struct HttpHeader {
    pub name: String,
    pub value: String,
}

impl View for HttpHeader {
    type V = (Seq<char>, Seq<char>);

    open spec fn view(&self) -> (Seq<char>, Seq<char>) {
        (self.name@, self.value@)
    }
}

impl HttpHeader {
    pub fn new(name: String, value: String) -> (h: HttpHeader)
        ensures
            h@ == (name@, value@),
    {
        HttpHeader { name, value }
    }
}

/// One request block of the input.
#[derive(Debug)]
pub struct HttpRequest {
    pub index: u32,
    pub comment: Option<String>,
    pub tags: Vec<String>,
    pub name: String,
    pub method: String,
    pub request_line: String,
    pub path: String,
    pub protocol: Option<String>,
    pub uri: Option<String>,
    pub body_started: bool,
    pub headers: Vec<HttpHeader>,
    pub body_lines: Vec<String>,
    pub line_numbers: Vec<u32>,
    pub body: Option<String>,
    pub js_code: Option<String>,
    pub redirect_response: Option<String>,
    pub variable_names: Vec<String>,
}

/// What a request holds, as character sequences.
pub struct RequestView {
    pub index: u32,
    pub comment: Option<Seq<char>>,
    pub tags: Seq<Seq<char>>,
    pub name: Seq<char>,
    pub method: Seq<char>,
    pub request_line: Seq<char>,
    pub path: Seq<char>,
    pub protocol: Option<Seq<char>>,
    pub uri: Option<Seq<char>>,
    pub body_started: bool,
    pub headers: Seq<(Seq<char>, Seq<char>)>,
    pub body_lines: Seq<Seq<char>>,
    pub line_numbers: Seq<u32>,
    pub body: Option<Seq<char>>,
    pub js_code: Option<Seq<char>>,
    pub redirect_response: Option<Seq<char>>,
    pub variable_names: Seq<Seq<char>>,
}

/// The view of an optional string.
pub open spec fn opt_text(o: Option<String>) -> Option<Seq<char>> {
    match o {
        Some(s) => Some(s@),
        None => None,
    }
}

/// The views of a vector of headers.
pub open spec fn header_views(v: Seq<HttpHeader>) -> Seq<(Seq<char>, Seq<char>)> {
    v.map_values(|h: HttpHeader| h@)
}

impl View for HttpRequest {
    type V = RequestView;

    open spec fn view(&self) -> RequestView {
        RequestView {
            index: self.index,
            comment: opt_text(self.comment),
            tags: texts(self.tags@),
            name: self.name@,
            method: self.method@,
            request_line: self.request_line@,
            path: self.path@,
            protocol: opt_text(self.protocol),
            uri: opt_text(self.uri),
            body_started: self.body_started,
            headers: header_views(self.headers@),
            body_lines: texts(self.body_lines@),
            line_numbers: self.line_numbers@,
            body: opt_text(self.body),
            js_code: opt_text(self.js_code),
            redirect_response: opt_text(self.redirect_response),
            variable_names: texts(self.variable_names@),
        }
    }
}

/// The empty request with ordinal `index`, named `http` followed by the
/// ordinal in decimal.
pub open spec fn fresh(index: u32) -> RequestView {
    RequestView {
        index,
        comment: None,
        tags: Seq::empty(),
        name: "http"@ + decimal(index as nat),
        method: Seq::empty(),
        request_line: Seq::empty(),
        path: Seq::empty(),
        protocol: None,
        uri: None,
        body_started: false,
        headers: Seq::empty(),
        body_lines: Seq::empty(),
        line_numbers: Seq::empty(),
        body: None,
        js_code: None,
        redirect_response: None,
        variable_names: Seq::empty(),
    }
}

/// The methods that open a request line.
pub open spec fn legal_method(m: Seq<char>) -> bool {
    m == "GET"@ || m == "POST"@ || m == "PUT"@ || m == "DELETE"@ || m == "GRAPHQL"@
}

/// The methods of HTTP itself.
pub open spec fn http_method(m: Seq<char>) -> bool {
    m == "GET"@ || m == "POST"@ || m == "PUT"@ || m == "DELETE"@ || m == "HEAD"@ || m
        == "OPTIONS"@ || m == "PATCH"@ || m == "TRACE"@
}

pub fn is_legal_method(method: &str) -> (r: bool)
    ensures
        r == legal_method(method@),
{
    let v = chars_of(method);
    equals(&v, "GET") || equals(&v, "POST") || equals(&v, "PUT") || equals(&v, "DELETE")
        || equals(&v, "GRAPHQL")
}

pub fn is_http_method(method: &str) -> (r: bool)
    ensures
        r == http_method(method@),
{
    let v = chars_of(method);
    equals(&v, "GET") || equals(&v, "POST") || equals(&v, "PUT") || equals(&v, "DELETE")
        || equals(&v, "HEAD") || equals(&v, "OPTIONS") || equals(&v, "PATCH") || equals(
        &v,
        "TRACE",
    )
}

/// The value of the first header named `name`.
pub open spec fn header_value(hs: Seq<(Seq<char>, Seq<char>)>, name: Seq<char>) -> Option<
    Seq<char>,
>
    decreases hs.len(),
{
    if hs.len() == 0 {
        None
    } else if hs[0].0 == name {
        Some(hs[0].1)
    } else {
        header_value(hs.skip(1), name)
    }
}

/// The number of characters before the first white space of `s`.
pub open spec fn token_len(s: Seq<char>) -> nat
    decreases s.len(),
{
    if s.len() > 0 && !is_white_space(s[0]) {
        1 + token_len(s.skip(1))
    } else {
        0
    }
}

/// The first run of characters of `s` that holds no white space; empty
/// where `s` is all white space.
pub open spec fn token(s: Seq<char>) -> Seq<char> {
    trimmed_start(s).take(token_len(trimmed_start(s)) as int)
}

/// What follows the first token of `s`.
pub open spec fn after_token(s: Seq<char>) -> Seq<char> {
    trimmed_start(s).skip(token_len(trimmed_start(s)) as int)
}

/// The bounds of the first token of `v` at or after `from`.
pub fn next_token(v: &Vec<char>, from: usize) -> (r: (usize, usize))
    requires
        from <= v.len(),
    ensures
        from <= r.0 <= r.1 <= v.len(),
        v@.subrange(r.0 as int, r.1 as int) == token(v@.skip(from as int)),
        v@.skip(r.1 as int) == after_token(v@.skip(from as int)),
{
    let mut a: usize = from;
    while a < v.len() && is_whitespace(v[a])
        invariant
            from <= a <= v.len(),
            trimmed_start(v@.skip(from as int)) == trimmed_start(v@.skip(a as int)),
        decreases v.len() - a,
    {
        assert(v@.skip(a as int).skip(1) =~= v@.skip(a + 1));
        a += 1;
    }
    let mut b: usize = a;
    while b < v.len() && !is_whitespace(v[b])
        invariant
            a <= b <= v.len(),
            token_len(v@.skip(a as int)) == (b - a) + token_len(v@.skip(b as int)),
        decreases v.len() - b,
    {
        assert(v@.skip(b as int).skip(1) =~= v@.skip(b + 1));
        b += 1;
    }
    assert(v@.skip(a as int).take(b - a) =~= v@.subrange(a as int, b as int));
    assert(v@.skip(a as int).skip(b - a) =~= v@.skip(b as int));
    (a, b)
}

/// The request after its request line has been read: the path is the
/// first token of the request line and the protocol the second; the target
/// is the path where that is an absolute URL, else `http://` and the `Host`
/// header for a method of HTTP, else the `URI` header.
pub open spec fn metadata_cleaned(m: RequestView) -> RequestView {
    let first = token(m.request_line);
    let second = token(after_token(m.request_line));
    let path = if first.len() > 0 {
        first
    } else {
        m.path
    };
    let direct = if first.len() > 0 && ("http://"@.is_prefix_of(path) || "https://"@.is_prefix_of(
        path,
    )) {
        Some(path)
    } else {
        m.uri
    };
    let protocol = if first.len() > 0 && second.len() > 0 {
        Some(second)
    } else {
        m.protocol
    };
    let uri = if direct is Some {
        direct
    } else if http_method(m.method) {
        match header_value(m.headers, "Host"@) {
            Some(host) => Some("http://"@ + host),
            None => None,
        }
    } else {
        header_value(m.headers, "URI"@)
    };
    RequestView { path, protocol, uri, ..m }
}

/// The kinds of body line that clean-up looks for.
#[derive(Clone, Copy, Debug)]
pub enum LineKind {
    /// A reference to an outside file: `<>` and what follows.
    Reference,
    /// A reference to a handler script: `> ` and a name ending in `.js`.
    Handler,
    /// A redirect directive: `>>` or `>>!` and what follows.
    Redirect,
    /// The line `{`, which opens the variables of a GraphQL request.
    Brace,
}

/// Whether the line `l` is of kind `k`.
pub open spec fn line_is(l: Seq<char>, k: LineKind) -> bool {
    match k {
        LineKind::Reference => "<>"@.is_prefix_of(l),
        LineKind::Handler => "> "@.is_prefix_of(l) && has_suffix(l, ".js"@),
        LineKind::Redirect => ">>"@.is_prefix_of(l),
        LineKind::Brace => l == "{"@,
    }
}

/// Whether the line `l` is of kind `k`.
pub fn has_kind(l: &Vec<char>, k: LineKind) -> (r: bool)
    ensures
        r == line_is(l@, k),
{
    match k {
        LineKind::Reference => starts_with(l, "<>"),
        LineKind::Handler => starts_with(l, "> ") && ends_with(l, ".js"),
        LineKind::Redirect => starts_with(l, ">>"),
        LineKind::Brace => equals(l, "{"),
    }
}

/// The lines of `l` that are not of kind `k`, in their order.
pub open spec fn without(l: Seq<Seq<char>>, k: LineKind) -> Seq<Seq<char>>
    decreases l.len(),
{
    if l.len() == 0 {
        Seq::empty()
    } else if line_is(l.last(), k) {
        without(l.drop_last(), k)
    } else {
        without(l.drop_last(), k).push(l.last())
    }
}

/// The offset of the first line of kind `k`.
pub open spec fn position(l: Seq<Seq<char>>, k: LineKind) -> Option<int>
    decreases l.len(),
{
    if l.len() == 0 {
        None
    } else if line_is(l[0], k) {
        Some(0int)
    } else {
        shifted(position(l.skip(1), k), 1)
    }
}

/// The script region found from line `pos` on, where `start` is the latest
/// opening line seen so far (the number of lines while none was seen): the
/// region opens at the latest line beginning with `> {%` and closes at the
/// first later line that is exactly `%}`.
pub open spec fn script_region(l: Seq<Seq<char>>, pos: int, start: int) -> Option<(int, int)>
    decreases l.len() - pos,
{
    if pos < 0 || pos >= l.len() {
        None
    } else {
        let s = if "> {%"@.is_prefix_of(l[pos]) {
            pos
        } else {
            start
        };
        if l[pos] == "%}"@ && pos > s {
            Some((s, pos))
        } else {
            script_region(l, pos + 1, s)
        }
    }
}

/// The lines without the script region and its two delimiters.
pub open spec fn script_free(l: Seq<Seq<char>>) -> Seq<Seq<char>> {
    match script_region(l, 0, l.len() as int) {
        Some((s, e)) => l.take(s) + l.skip(e + 1),
        None => l,
    }
}

/// The lines inside the script region, joined by line feeds.
pub open spec fn script_text(l: Seq<Seq<char>>) -> Option<Seq<char>> {
    match script_region(l, 0, l.len() as int) {
        Some((s, e)) => Some(joined(l.subrange(s + 1, e), "\n"@)),
        None => None,
    }
}

/// The lines without the first redirect directive.
pub open spec fn redirect_free(l: Seq<Seq<char>>) -> Seq<Seq<char>> {
    match position(l, LineKind::Redirect) {
        Some(p) => l.take(p) + l.skip(p + 1),
        None => l,
    }
}

/// The lines without the blank lines at their end: those that hold
/// nothing but white space.
pub open spec fn without_blank_tail(l: Seq<Seq<char>>) -> Seq<Seq<char>>
    decreases l.len(),
{
    if l.len() > 0 && blank(l.last()) {
        without_blank_tail(l.drop_last())
    } else {
        l
    }
}

/// What is left without the blank tail is empty or ends with a line that
/// is not blank, and it is the front of the lines, behind which only blank
/// lines were dropped.
pub proof fn lemma_blank_tail_trimmed(l: Seq<Seq<char>>)
    ensures
        without_blank_tail(l).len() == 0 || !blank(without_blank_tail(l).last()),
        without_blank_tail(l).len() <= l.len(),
        without_blank_tail(l) == l.take(without_blank_tail(l).len() as int),
        forall|i: int| without_blank_tail(l).len() <= i < l.len() ==> blank(#[trigger] l[i]),
    decreases l.len(),
{
    if l.len() > 0 && blank(l.last()) {
        lemma_blank_tail_trimmed(l.drop_last());
        let r = without_blank_tail(l);
        assert(l.drop_last().take(r.len() as int) =~= l.take(r.len() as int));
        assert forall|i: int| r.len() <= i < l.len() implies blank(#[trigger] l[i]) by {
            if i < l.len() - 1 {
                assert(blank(l.drop_last()[i]));
            }
        }
    } else {
        assert(l.take(l.len() as int) =~= l);
    }
}

/// Body lines that are all blank leave the body as it was: no body where
/// there was none.
pub proof fn lemma_blank_body(m: RequestView)
    requires
        forall|i: int| 0 <= i < m.body_lines.len() ==> blank(#[trigger] m.body_lines[i]),
    ensures
        body_cleaned(m).body == m.body,
{
    if m.body_lines.len() > 0 {
        let kept = without(m.body_lines, LineKind::Reference);
        lemma_without_blank(m.body_lines, LineKind::Reference);
        lemma_no_script(kept, 0, kept.len() as int);
        let plain = without(script_free(kept), LineKind::Handler);
        lemma_without_blank(kept, LineKind::Handler);
        lemma_no_position(plain, LineKind::Redirect);
        lemma_blank_tail_trimmed(plain);
        let rest = without_blank_tail(plain);
        if rest.len() > 0 {
            assert(rest.last() == plain[rest.len() - 1]);
        }
    }
}

/// A blank line is of no kind that clean-up looks for, and neither opens
/// nor closes a script region.
proof fn lemma_blank_of_no_kind(l: Seq<char>)
    requires
        blank(l),
    ensures
        !line_is(l, LineKind::Reference),
        !line_is(l, LineKind::Handler),
        !line_is(l, LineKind::Redirect),
        !"> {%"@.is_prefix_of(l),
        l != "%}"@,
{
    reveal_strlit("<>");
    reveal_strlit("> {%");
    reveal_strlit("%}");
    reveal_strlit("> ");
    reveal_strlit(">>");
    if l.len() > 0 {
        assert(is_white_space(l[0]));
        if "<>"@.is_prefix_of(l) {
            assert(l.subrange(0, 2)[0] == '<');
        }
        if "> "@.is_prefix_of(l) {
            assert(l.subrange(0, 2)[0] == '>');
        }
        if ">>"@.is_prefix_of(l) {
            assert(l.subrange(0, 2)[0] == '>');
        }
        if "> {%"@.is_prefix_of(l) {
            assert(l.subrange(0, 4)[0] == '>');
        }
        if l == "%}"@ {
            assert(l[0] == '%');
        }
    }
}

/// Dropping lines of kind `k` from blank lines leaves them as they are.
proof fn lemma_without_blank(l: Seq<Seq<char>>, k: LineKind)
    requires
        k is Reference || k is Handler,
        forall|i: int| 0 <= i < l.len() ==> blank(#[trigger] l[i]),
    ensures
        without(l, k) == l,
    decreases l.len(),
{
    if l.len() > 0 {
        lemma_without_blank(l.drop_last(), k);
        assert(blank(l[l.len() - 1]));
        lemma_blank_of_no_kind(l.last());
        assert(l.drop_last().push(l.last()) =~= l);
    }
}

/// Blank lines hold no script region.
proof fn lemma_no_script(l: Seq<Seq<char>>, pos: int, start: int)
    requires
        0 <= pos,
        forall|i: int| 0 <= i < l.len() ==> blank(#[trigger] l[i]),
    ensures
        script_region(l, pos, start) is None,
    decreases l.len() - pos,
{
    if pos < l.len() {
        assert(blank(l[pos]));
        lemma_blank_of_no_kind(l[pos]);
        lemma_no_script(l, pos + 1, start);
    }
}

/// Blank lines hold no redirect directive.
proof fn lemma_no_position(l: Seq<Seq<char>>, k: LineKind)
    requires
        k is Redirect,
        forall|i: int| 0 <= i < l.len() ==> blank(#[trigger] l[i]),
    ensures
        position(l, k) is None,
    decreases l.len(),
{
    if l.len() > 0 {
        assert(blank(l[0]));
        lemma_blank_of_no_kind(l[0]);
        assert forall|i: int| 0 <= i < l.skip(1).len() implies blank(#[trigger] l.skip(1)[i]) by {
            assert(blank(l[i + 1]));
        }
        lemma_no_position(l.skip(1), k);
    }
}

/// `q` as the inside of a JSON string: each `"` gets a backslash before
/// it, and each line feed becomes a backslash and `n`.
pub open spec fn escaped(q: Seq<char>) -> Seq<char> {
    replaced(replaced(q, "\""@, "\\\""@), "\n"@, "\\n"@)
}

/// The body made of the cleaned lines `l`: none where no line is left; for
/// GRAPHQL a JSON document that holds the query and, where a line `{`
/// follows the query and the last line is `}`, the variables from that line
/// on; for any other method the lines joined by line feeds.
pub open spec fn body_text(method: Seq<char>, l: Seq<Seq<char>>) -> Option<Seq<char>> {
    if l.len() == 0 {
        None
    } else if method == "GRAPHQL"@ {
        let split = match position(l, LineKind::Brace) {
            Some(p) => p,
            None => 0,
        };
        if split > 0 && l.last() == "}"@ {
            Some(
                "{\"query\": \""@ + escaped(joined(l.take(split), "\n"@)) + "\""@
                    + ",\"variables\": "@ + joined(l.skip(split), "\n"@) + "\n}"@,
            )
        } else {
            Some("{\"query\": \""@ + escaped(joined(l, "\n"@)) + "\"}"@)
        }
    } else {
        Some(joined(l, "\n"@))
    }
}

/// The request after its body lines have been cleaned. File references are
/// dropped; the script region is taken out and kept as `js_code`; handler
/// references are dropped; the first redirect directive is taken out and
/// kept as `redirect_response`; blank lines at the end are dropped; what is
/// left becomes the body. A request without body lines stays as it is.
pub open spec fn body_cleaned(m: RequestView) -> RequestView {
    if m.body_lines.len() == 0 {
        m
    } else {
        let kept = without(m.body_lines, LineKind::Reference);
        let plain = without(script_free(kept), LineKind::Handler);
        let rest = without_blank_tail(redirect_free(plain));
        RequestView {
            js_code: match script_text(kept) {
                Some(t) => Some(t),
                None => m.js_code,
            },
            redirect_response: match position(plain, LineKind::Redirect) {
                Some(p) => Some(plain[p]),
                None => m.redirect_response,
            },
            body: match body_text(m.method, rest) {
                Some(b) => Some(b),
                None => m.body,
            },
            ..m
        }
    }
}

/// The characters of each string of `v`.
pub fn char_rows(v: &Vec<String>) -> (out: Vec<Vec<char>>)
    ensures
        rows(out@) == texts(v@),
{
    let mut out: Vec<Vec<char>> = Vec::new();
    let mut i: usize = 0;
    while i < v.len()
        invariant
            i <= v.len(),
            rows(out@) == texts(v@).take(i as int),
        decreases v.len() - i,
    {
        let ghost before = rows(out@);
        let row = chars_of(v[i].as_str());
        out.push(row);
        assert(rows(out@) =~= before.push(row@));
        assert(texts(v@)[i as int] == v@[i as int]@);
        i += 1;
        assert(rows(out@) =~= texts(v@).take(i as int));
    }
    assert(texts(v@).take(v.len() as int) =~= texts(v@));
    out
}

/// Appends copies of the rows of `l` from `from` up to `to` to `out`.
pub fn copy_rows(l: &Vec<Vec<char>>, from: usize, to: usize, out: &mut Vec<Vec<char>>)
    requires
        from <= to <= l.len(),
    ensures
        rows(final(out)@) == rows(old(out)@) + rows(l@).subrange(from as int, to as int),
{
    let mut i: usize = from;
    assert(rows(out@) =~= rows(old(out)@) + rows(l@).subrange(from as int, i as int));
    while i < to
        invariant
            from <= i <= to <= l.len(),
            rows(out@) == rows(old(out)@) + rows(l@).subrange(from as int, i as int),
        decreases to - i,
    {
        let ghost before = rows(out@);
        let row = slice(&l[i], 0, l[i].len());
        assert(row@ =~= l@[i as int]@);
        out.push(row);
        i += 1;
        assert(rows(out@) =~= before.push(row@));
        assert(rows(out@) =~= rows(old(out)@) + rows(l@).subrange(from as int, i as int));
    }
}

/// The rows of `l` that are not of kind `k`.
pub fn drop_lines(l: &Vec<Vec<char>>, k: LineKind) -> (out: Vec<Vec<char>>)
    ensures
        rows(out@) == without(rows(l@), k),
{
    let mut out: Vec<Vec<char>> = Vec::new();
    let mut i: usize = 0;
    assert(rows(out@) =~= without(rows(l@).take(0), k));
    while i < l.len()
        invariant
            i <= l.len(),
            rows(out@) == without(rows(l@).take(i as int), k),
        decreases l.len() - i,
    {
        let ghost next = rows(l@).take(i + 1);
        assert(next.drop_last() =~= rows(l@).take(i as int));
        assert(next.last() == l@[i as int]@);
        if !has_kind(&l[i], k) {
            let ghost before = rows(out@);
            let row = slice(&l[i], 0, l[i].len());
            assert(row@ =~= l@[i as int]@);
            out.push(row);
            assert(rows(out@) =~= before.push(row@));
        }
        i += 1;
    }
    assert(rows(l@).take(l.len() as int) =~= rows(l@));
    out
}

/// The offset of the first row of kind `k`.
pub fn find_line(l: &Vec<Vec<char>>, k: LineKind) -> (r: Option<usize>)
    ensures
        position(rows(l@), k) == match r {
            Some(p) => Some(p as int),
            None => None::<int>,
        },
        r is Some ==> r->0 < l.len(),
{
    let mut i: usize = 0;
    assert(rows(l@).skip(0) =~= rows(l@));
    while i < l.len()
        invariant
            i <= l.len(),
            position(rows(l@), k) == shifted(position(rows(l@).skip(i as int), k), i as int),
        decreases l.len() - i,
    {
        assert(rows(l@).skip(i as int)[0] == l@[i as int]@);
        if has_kind(&l[i], k) {
            return Some(i);
        }
        assert(rows(l@).skip(i as int).skip(1) =~= rows(l@).skip(i + 1));
        i += 1;
    }
    None
}

/// The bounds of the script region.
pub fn find_script(l: &Vec<Vec<char>>) -> (r: Option<(usize, usize)>)
    ensures
        script_region(rows(l@), 0, l.len() as int) == match r {
            Some(b) => Some((b.0 as int, b.1 as int)),
            None => None::<(int, int)>,
        },
        match r {
            Some(b) => b.0 < b.1 && b.1 < l.len(),
            None => true,
        },
{
    let mut pos: usize = 0;
    let mut start: usize = l.len();
    while pos < l.len()
        invariant
            pos <= l.len(),
            start <= l.len(),
            script_region(rows(l@), 0, l.len() as int) == script_region(
                rows(l@),
                pos as int,
                start as int,
            ),
        decreases l.len() - pos,
    {
        assert(rows(l@)[pos as int] == l@[pos as int]@);
        if starts_with(&l[pos], "> {%") {
            start = pos;
        }
        if equals(&l[pos], "%}") && pos > start {
            return Some((start, pos));
        }
        pos += 1;
    }
    None
}

/// The number of rows of `l` before the blank rows at its end.
pub fn blank_tail_start(l: &Vec<Vec<char>>) -> (n: usize)
    ensures
        n <= l.len(),
        rows(l@).take(n as int) == without_blank_tail(rows(l@)),
{
    let mut n: usize = l.len();
    assert(rows(l@).take(n as int) =~= rows(l@));
    while n > 0 && is_blank(&l[n - 1])
        invariant
            n <= l.len(),
            without_blank_tail(rows(l@)) == without_blank_tail(rows(l@).take(n as int)),
        decreases n,
    {
        assert(rows(l@).take(n as int).drop_last() =~= rows(l@).take(n - 1));
        assert(rows(l@).take(n as int).last() == l@[n - 1]@);
        n -= 1;
    }
    proof {
        if n > 0 {
            assert(rows(l@).take(n as int).last() == l@[n - 1]@);
        }
    }
    n
}

/// `q` as the inside of a JSON string.
pub fn escape(q: &Vec<char>) -> (out: Vec<char>)
    ensures
        out@ == escaped(q@),
{
    let quoted = replace(q, "\"", "\\\"");
    replace(&quoted, "\n", "\\n")
}

/// The body made of the cleaned lines `l`.
pub fn body_of(method: &Vec<char>, l: &Vec<Vec<char>>) -> (r: Option<Vec<char>>)
    ensures
        body_text(method@, rows(l@)) == match r {
            Some(b) => Some(b@),
            None => None::<Seq<char>>,
        },
{
    let n: usize = l.len();
    if n == 0 {
        return None;
    }
    assert(rows(l@).subrange(0, n as int) =~= rows(l@));
    assert(rows(l@).last() == l@[n - 1]@);
    if equals(method, "GRAPHQL") {
        let split: usize = match find_line(l, LineKind::Brace) {
            Some(p) => p,
            None => 0,
        };
        let mut doc = chars_of("{\"query\": \"");
        if split > 0 && equals(&l[n - 1], "}") {
            assert(rows(l@).subrange(0, split as int) =~= rows(l@).take(split as int));
            assert(rows(l@).subrange(split as int, n as int) =~= rows(l@).skip(split as int));
            let query = join(l, 0, split, "\n");
            let variables = join(l, split, n, "\n");
            append(&mut doc, &escape(&query));
            append_str(&mut doc, "\"");
            append_str(&mut doc, ",\"variables\": ");
            append(&mut doc, &variables);
            append_str(&mut doc, "\n}");
        } else {
            let query = join(l, 0, n, "\n");
            append(&mut doc, &escape(&query));
            append_str(&mut doc, "\"}");
        }
        Some(doc)
    } else {
        Some(join(l, 0, n, "\n"))
    }
}

impl HttpRequest {
    pub fn new(index: u32) -> (r: HttpRequest)
        ensures
            r@ == fresh(index),
    {
        let mut name: Vec<char> = chars_of("http");
        push_decimal(&mut name, index);
        let r = HttpRequest {
            index,
            comment: None,
            tags: Vec::new(),
            name: string_of(&name),
            method: String::new(),
            request_line: String::new(),
            path: String::new(),
            protocol: None,
            uri: None,
            body_started: false,
            headers: Vec::new(),
            body_lines: Vec::new(),
            line_numbers: Vec::new(),
            body: None,
            js_code: None,
            redirect_response: None,
            variable_names: Vec::new(),
        };
        assert(r@.tags =~= Seq::empty());
        assert(r@.headers =~= Seq::empty());
        assert(r@.body_lines =~= Seq::empty());
        assert(r@.variable_names =~= Seq::empty());
        assert(r@.line_numbers =~= Seq::empty());
        r
    }

    /// Whether a request line has been read.
    pub fn is_filled(&self) -> (r: bool)
        ensures
            r == (self@.method.len() > 0),
    {
        let m = chars_of(self.method.as_str());
        m.len() > 0
    }

    pub fn add_line_number(&mut self, line_number: u32)
        ensures
            final(self)@ == (RequestView {
                line_numbers: old(self)@.line_numbers.push(line_number),
                ..old(self)@
            }),
    {
        self.line_numbers.push(line_number);
    }

    pub fn append_request_line(&mut self, part: &str)
        ensures
            final(self)@ == (RequestView {
                request_line: old(self)@.request_line + part@,
                ..old(self)@
            }),
    {
        let mut line = chars_of(self.request_line.as_str());
        append_str(&mut line, part);
        self.request_line = string_of(&line);
    }

    pub fn get_header_value(&self, name: &str) -> (r: Option<&str>)
        ensures
            header_value(self@.headers, name@) == match r {
                Some(s) => Some(s@),
                None => None::<Seq<char>>,
            },
    {
        let mut i: usize = 0;
        assert(self@.headers.skip(0) =~= self@.headers);
        while i < self.headers.len()
            invariant
                i <= self.headers.len(),
                header_value(self@.headers, name@) == header_value(
                    self@.headers.skip(i as int),
                    name@,
                ),
            decreases self.headers.len() - i,
        {
            let h = chars_of(self.headers[i].name.as_str());
            assert(self@.headers.skip(i as int).skip(1) =~= self@.headers.skip(i + 1));
            if equals(&h, name) {
                return Some(self.headers[i].value.as_str());
            }
            i += 1;
        }
        None
    }

    pub fn cleanup_metadata(&mut self)
        ensures
            final(self)@ == metadata_cleaned(old(self)@),
    {
        let line = chars_of(self.request_line.as_str());
        assert(line@.skip(0) =~= line@);
        let (a, b) = next_token(&line, 0);
        if a < b {
            let path = slice(&line, a, b);
            if starts_with(&path, "http://") || starts_with(&path, "https://") {
                self.uri = Some(string_of(&path));
            }
            self.path = string_of(&path);
            let (c, d) = next_token(&line, b);
            if c < d {
                self.protocol = Some(string_of(&slice(&line, c, d)));
            }
        }
        if self.uri.is_none() {
            if is_http_method(self.method.as_str()) {
                match self.get_header_value("Host") {
                    Some(host) => {
                        let mut uri = chars_of("http://");
                        append_str(&mut uri, host);
                        self.uri = Some(string_of(&uri));
                    },
                    None => {},
                }
            } else {
                match self.get_header_value("URI") {
                    Some(uri) => {
                        let u = chars_of(uri);
                        self.uri = Some(string_of(&u));
                    },
                    None => {},
                }
            }
        }
    }

    pub fn cleanup_body(&mut self)
        ensures
            final(self)@ == body_cleaned(old(self)@),
    {
        if self.body_lines.len() == 0 {
            assert(self@.body_lines.len() == 0);
            return ;
        }
        assert(self@.body_lines.len() > 0);
        let all = char_rows(&self.body_lines);
        let kept = drop_lines(&all, LineKind::Reference);
        let mut cut: Vec<Vec<char>> = Vec::new();
        assert(rows(cut@) =~= Seq::<Seq<char>>::empty());
        match find_script(&kept) {
            Some((s, e)) => {
                self.js_code = Some(string_of(&join(&kept, s + 1, e, "\n")));
                copy_rows(&kept, 0, s, &mut cut);
                copy_rows(&kept, e + 1, kept.len(), &mut cut);
                assert(rows(cut@) =~= script_free(rows(kept@)));
            },
            None => {
                copy_rows(&kept, 0, kept.len(), &mut cut);
                assert(rows(cut@) =~= script_free(rows(kept@)));
            },
        }
        let plain = drop_lines(&cut, LineKind::Handler);
        let mut tail: Vec<Vec<char>> = Vec::new();
        assert(rows(tail@) =~= Seq::<Seq<char>>::empty());
        match find_line(&plain, LineKind::Redirect) {
            Some(p) => {
                assert(rows(plain@)[p as int] == plain@[p as int]@);
                self.redirect_response = Some(string_of(&plain[p]));
                copy_rows(&plain, 0, p, &mut tail);
                copy_rows(&plain, p + 1, plain.len(), &mut tail);
                assert(rows(tail@) =~= redirect_free(rows(plain@)));
            },
            None => {
                copy_rows(&plain, 0, plain.len(), &mut tail);
                assert(rows(tail@) =~= redirect_free(rows(plain@)));
            },
        }
        let n = blank_tail_start(&tail);
        let mut rest: Vec<Vec<char>> = Vec::new();
        assert(rows(rest@) =~= Seq::<Seq<char>>::empty());
        copy_rows(&tail, 0, n, &mut rest);
        assert(rows(rest@) =~= without_blank_tail(rows(tail@)));
        let method = chars_of(self.method.as_str());
        match body_of(&method, &rest) {
            Some(b) => {
                self.body = Some(string_of(&b));
            },
            None => {},
        }
    }
}

} // verus!
