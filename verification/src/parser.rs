//! The parser: a state machine that reads the input line by line and
//! closes one request for each block that holds a request line.

use vstd::prelude::*;
use crate::models::{
    HttpHeader, HttpRequest, RequestView, body_cleaned, fresh, is_legal_method, legal_method,
    metadata_cleaned,
};
use crate::text::{
    append, chars_of, contains, equals, find, has_space, holds, index_of, lines_of, replace,
    replaced, rows, slice, spaced, split_lines, starts_with, string_of, trim, trim_range, trimmed,
};

verus! {

/// What stands before the first `sep` in `s`; all of `s` without one.
pub open spec fn before(s: Seq<char>, sep: Seq<char>) -> Seq<char> {
    match index_of(s, sep) {
        Some(i) => s.take(i),
        None => s,
    }
}

/// What stands behind the first `sep` in `s`.
pub open spec fn after(s: Seq<char>, sep: Seq<char>) -> Option<Seq<char>> {
    match index_of(s, sep) {
        Some(i) => Some(s.skip(i + sep.len())),
        None => None,
    }
}

/// `v` cut at the first `sep`.
pub fn split_once(v: &Vec<char>, sep: &str) -> (r: (Vec<char>, Option<Vec<char>>))
    ensures
        r.0@ == before(v@, sep@),
        after(v@, sep@) == match r.1 {
            Some(rest) => Some(rest@),
            None => None::<Seq<char>>,
        },
{
    let n: usize = chars_of(sep).len();
    match find(v, sep) {
        Some(i) => {
            let head = slice(v, 0, i);
            let rest = slice(v, i + n, v.len());
            assert(head@ =~= v@.take(i as int));
            assert(rest@ =~= v@.skip(i + sep@.len()));
            (head, Some(rest))
        },
        None => {
            let head = slice(v, 0, v.len());
            assert(head@ =~= v@);
            (head, None)
        },
    }
}

/// Whether `line` opens a request: a legal method, then a space.
pub open spec fn request_line(line: Seq<char>) -> bool {
    holds(line, " "@) && legal_method(before(line, " "@))
}

pub fn is_request_line(line: &str) -> (r: bool)
    ensures
        r == request_line(line@),
{
    let v = chars_of(line);
    let (method, rest) = split_once(&v, " ");
    match rest {
        Some(_) => is_legal_method(string_of(&method).as_str()),
        None => false,
    }
}

/// The state of the parser between two lines.
pub struct ParseState {
    /// The requests closed so far.
    pub done: Seq<RequestView>,
    /// The request that the next line belongs to.
    pub current: RequestView,
    /// The number of the next line.
    pub line_number: int,
}

/// The state before the first line.
pub open spec fn initial() -> ParseState {
    ParseState { done: Seq::empty(), current: fresh(1), line_number: 1 }
}

/// A request as it is closed: first its metadata is cleaned, then its body.
pub open spec fn closed(m: RequestView) -> RequestView {
    body_cleaned(metadata_cleaned(m))
}

/// `m` with line number `n` recorded.
pub open spec fn with_line(m: RequestView, n: int) -> RequestView {
    RequestView { line_numbers: m.line_numbers.push(n as u32), ..m }
}

/// `m` after a comment line with the given text. A text that begins with
/// `@` is a tag: it is cut at the first space, or at the first `=` where it
/// holds no space, and the tag `name` with a value names the request, with
/// underscores for hyphens. Any other text is the request's comment, unless
/// it has one.
pub open spec fn with_comment(m: RequestView, text: Seq<char>) -> RequestView {
    if "@"@.is_prefix_of(text) {
        let tag = trimmed(text.skip(1));
        let sep = if holds(tag, " "@) {
            " "@
        } else {
            "="@
        };
        let name = match after(tag, sep) {
            Some(rest) => if before(tag, sep) == "name"@ {
                replaced(before(rest, sep), "-"@, "_"@)
            } else {
                m.name
            },
            None => m.name,
        };
        RequestView { name, tags: m.tags.push(tag), ..m }
    } else if m.comment is None {
        RequestView { comment: Some(text), ..m }
    } else {
        m
    }
}

/// `m` after a line read before its body has begun; `line` is `raw`
/// without the white space around it, by which the line is told, while the
/// body keeps `raw`, the line as written. In turn: a comment or tag; a request
/// line; an indented continuation of the request line; a header, or, where
/// the name before the colon holds white space, the first line of the body; any
/// other line that is not empty, kept with the body lines; the empty line
/// that opens the body.
pub open spec fn with_head_line(m: RequestView, raw: Seq<char>, line: Seq<char>) -> RequestView {
    if "#"@.is_prefix_of(line) {
        with_comment(m, trimmed(line.skip(1)))
    } else if "//"@.is_prefix_of(line) {
        with_comment(m, trimmed(line.skip(2)))
    } else if request_line(line) {
        RequestView { method: before(line, " "@), request_line: after(line, " "@)->0, ..m }
    } else if "  "@.is_prefix_of(raw) || "\t"@.is_prefix_of(raw) {
        RequestView { request_line: m.request_line + line, ..m }
    } else if holds(line, ":"@) {
        let name = trimmed(before(line, ":"@));
        let value = trimmed(after(line, ":"@)->0);
        if spaced(name) {
            RequestView { body_lines: m.body_lines.push(raw), body_started: true, ..m }
        } else {
            RequestView { headers: m.headers.push((name, value)), ..m }
        }
    } else if line.len() > 0 {
        RequestView { body_lines: m.body_lines.push(raw), ..m }
    } else {
        RequestView { body_started: true, ..m }
    }
}

/// A line with a colon whose name holds white space is no header: it is
/// the first line of the body, and the headers stay as they are.
pub proof fn lemma_spaced_name_opens_body(m: RequestView, raw: Seq<char>, line: Seq<char>)
    requires
        !"#"@.is_prefix_of(line),
        !"//"@.is_prefix_of(line),
        !request_line(line),
        !"  "@.is_prefix_of(raw),
        !"\t"@.is_prefix_of(raw),
        holds(line, ":"@),
        spaced(trimmed(before(line, ":"@))),
    ensures
        with_head_line(m, raw, line).headers == m.headers,
        with_head_line(m, raw, line).body_lines == m.body_lines.push(raw),
        with_head_line(m, raw, line).body_started,
{
}

/// The state after the line `raw`; `first` says that it is the first line
/// of the input. A `#!` line at the very start is passed over. Every other
/// line has its number recorded with the request it belongs to. An empty
/// line before the request line changes nothing else. A `###` line sets the
/// comment; where the current request has a request line it is closed
/// first, and the comment belongs to the next one. A line of the body is
/// kept as written.
pub open spec fn step(st: ParseState, raw: Seq<char>, first: bool) -> ParseState {
    let line = trimmed(raw);
    let n = st.line_number;
    if first && "#!"@.is_prefix_of(line) {
        ParseState { line_number: n + 1, ..st }
    } else if st.current.method.len() == 0 && line.len() == 0 {
        ParseState { current: with_line(st.current, n), line_number: n + 1, ..st }
    } else if "###"@.is_prefix_of(line) {
        let comment = Some(line.skip(3));
        if st.current.method.len() == 0 {
            ParseState {
                current: with_line(RequestView { comment, ..st.current }, n),
                line_number: n + 1,
                ..st
            }
        } else {
            ParseState {
                done: st.done.push(closed(st.current)),
                current: with_line(
                    RequestView { comment, ..fresh((st.current.index + 1) as u32) },
                    n,
                ),
                line_number: n + 1,
            }
        }
    } else if !st.current.body_started {
        ParseState {
            current: with_line(with_head_line(st.current, raw, line), n),
            line_number: n + 1,
            ..st
        }
    } else {
        ParseState {
            current: with_line(
                RequestView { body_lines: st.current.body_lines.push(raw), ..st.current },
                n,
            ),
            line_number: n + 1,
            ..st
        }
    }
}

/// The state after the first `n` lines.
pub open spec fn state_after(lines: Seq<Seq<char>>, n: nat) -> ParseState
    decreases n,
{
    if n == 0 {
        initial()
    } else {
        step(state_after(lines, (n - 1) as nat), lines[n - 1], n == 1)
    }
}

/// The requests at the end of the input: the closed ones and, where it has
/// a request line, the current one, closed as well.
pub open spec fn finished(st: ParseState) -> Seq<RequestView> {
    if st.current.method.len() > 0 {
        st.done.push(closed(st.current))
    } else {
        st.done
    }
}

/// The requests that the text `text` defines.
pub open spec fn parsed(text: Seq<char>) -> Seq<RequestView> {
    finished(state_after(lines_of(text), lines_of(text).len()))
}

/// The views of a vector of requests.
pub open spec fn request_views(v: Seq<HttpRequest>) -> Seq<RequestView> {
    v.map_values(|r: HttpRequest| r@)
}

/// The parser between two lines.
pub struct Parser {
    pub requests: Vec<HttpRequest>,
    pub current: HttpRequest,
    pub line_number: u32,
}

impl View for Parser {
    type V = ParseState;

    open spec fn view(&self) -> ParseState {
        ParseState {
            done: request_views(self.requests@),
            current: self.current@,
            line_number: self.line_number as int,
        }
    }
}

/// `m` after a comment line with the text `text`.
pub fn read_comment(m: HttpRequest, text: &Vec<char>) -> (r: HttpRequest)
    ensures
        r@ == with_comment(m@, text@),
{
    let mut m = m;
    let ghost old_m = m@;
    if starts_with(text, "@") {
        proof {
            reveal_strlit("@");
        }
        let tag = trim_range(text, 1, text.len());
        assert(text@.subrange(1, text.len() as int) =~= text@.skip(1));
        let sep = if contains(&tag, " ") {
            " "
        } else {
            "="
        };
        let (key, rest) = split_once(&tag, sep);
        match rest {
            Some(rest) => {
                if equals(&key, "name") {
                    let value = split_once(&rest, sep).0;
                    m.name = string_of(&replace(&value, "-", "_"));
                }
            },
            None => {},
        }
        let s = string_of(&tag);
        m.tags.push(s);
        assert(m@.tags =~= old_m.tags.push(tag@));
    } else if m.comment.is_none() {
        m.comment = Some(string_of(text));
    }
    m
}

/// `m` after the line `raw` read before its body has begun.
pub fn read_head_line(m: HttpRequest, raw: &Vec<char>, line: &Vec<char>) -> (r: HttpRequest)
    ensures
        r@ == with_head_line(m@, raw@, line@),
{
    let mut m = m;
    let ghost old_m = m@;
    proof {
        reveal_strlit("#");
        reveal_strlit("//");
    }
    if starts_with(line, "#") {
        let text = trim_range(line, 1, line.len());
        assert(line@.subrange(1, line.len() as int) =~= line@.skip(1));
        return read_comment(m, &text);
    }
    if starts_with(line, "//") {
        let text = trim_range(line, 2, line.len());
        assert(line@.subrange(2, line.len() as int) =~= line@.skip(2));
        return read_comment(m, &text);
    }
    let (method, rest) = split_once(line, " ");
    let method_text = string_of(&method);
    let opens = rest.is_some() && is_legal_method(method_text.as_str());
    if opens {
        m.method = method_text;
        match rest {
            Some(rest) => {
                m.request_line = string_of(&rest);
            },
            None => {},
        }
        return m;
    }
    if starts_with(raw, "  ") || starts_with(raw, "\t") {
        let mut joined_line = chars_of(m.request_line.as_str());
        append(&mut joined_line, line);
        m.request_line = string_of(&joined_line);
        return m;
    }
    let (left, right) = split_once(line, ":");
    match right {
        Some(right) => {
            let name = trim(&left);
            let value = trim(&right);
            if has_space(&name) {
                let s = string_of(raw);
                m.body_lines.push(s);
                m.body_started = true;
                assert(m@.body_lines =~= old_m.body_lines.push(raw@));
            } else {
                let h = HttpHeader::new(string_of(&name), string_of(&value));
                m.headers.push(h);
                assert(m@.headers =~= old_m.headers.push((name@, value@)));
            }
        },
        None => {
            if line.len() > 0 {
                let s = string_of(raw);
                m.body_lines.push(s);
                assert(m@.body_lines =~= old_m.body_lines.push(raw@));
            } else {
                m.body_started = true;
            }
        },
    }
    m
}

impl Parser {
    /// The parser before the first line.
    pub fn new() -> (p: Parser)
        ensures
            p@ == initial(),
    {
        let p = Parser { requests: Vec::new(), current: HttpRequest::new(1), line_number: 1 };
        assert(p@.done =~= Seq::empty());
        p
    }

    /// The parser after the line `raw`.
    pub fn feed(self, raw: &Vec<char>, first: bool) -> (p: Parser)
        requires
            self.line_number < u32::MAX,
            self.current.index < u32::MAX,
        ensures
            p@ == step(self@, raw@, first),
            p.line_number == self.line_number + 1,
            p.current.index <= self.current.index + 1,
    {
        let Parser { requests, current, line_number } = self;
        let mut requests = requests;
        let mut current = current;
        let ghost old_current = current@;
        let ghost old_done = request_views(requests@);
        let line = trim(raw);
        proof {
            reveal_strlit("###");
        }
        if first && starts_with(&line, "#!") {
            return Parser { requests, current, line_number: line_number + 1 };
        }
        if !current.is_filled() && line.len() == 0 {
            current.add_line_number(line_number);
            return Parser { requests, current, line_number: line_number + 1 };
        }
        if starts_with(&line, "###") {
            let comment = slice(&line, 3, line.len());
            assert(comment@ =~= line@.skip(3));
            if !current.is_filled() {
                current.comment = Some(string_of(&comment));
                current.add_line_number(line_number);
                return Parser { requests, current, line_number: line_number + 1 };
            }
            let mut next = HttpRequest::new(current.index + 1);
            next.comment = Some(string_of(&comment));
            next.add_line_number(line_number);
            current.cleanup_metadata();
            current.cleanup_body();
            requests.push(current);
            assert(request_views(requests@) =~= old_done.push(closed(old_current)));
            return Parser { requests, current: next, line_number: line_number + 1 };
        }
        if !current.body_started {
            let mut read = read_head_line(current, raw, &line);
            read.add_line_number(line_number);
            return Parser { requests, current: read, line_number: line_number + 1 };
        }
        let s = string_of(raw);
        current.body_lines.push(s);
        assert(current@.body_lines =~= old_current.body_lines.push(raw@));
        current.add_line_number(line_number);
        Parser { requests, current, line_number: line_number + 1 }
    }

    /// The requests at the end of the input.
    pub fn finish(self) -> (requests: Vec<HttpRequest>)
        ensures
            request_views(requests@) == finished(self@),
    {
        let Parser { requests, current, line_number } = self;
        let mut requests = requests;
        let mut current = current;
        let ghost old_done = request_views(requests@);
        let ghost old_current = current@;
        if current.is_filled() {
            current.cleanup_metadata();
            current.cleanup_body();
            requests.push(current);
            assert(request_views(requests@) =~= old_done.push(closed(old_current)));
        }
        requests
    }
}

/// The requests that the lines `lines` define.
pub fn parse_lines(lines: &Vec<Vec<char>>) -> (requests: Vec<HttpRequest>)
    requires
        lines.len() < u32::MAX,
    ensures
        request_views(requests@) == finished(state_after(rows(lines@), lines@.len())),
{
    let mut parser = Parser::new();
    let mut i: usize = 0;
    while i < lines.len()
        invariant
            i <= lines.len() < u32::MAX,
            parser@ == state_after(rows(lines@), i as nat),
            parser.line_number == i + 1,
            parser.current.index <= i + 1,
        decreases lines.len() - i,
    {
        parser = parser.feed(&lines[i], i == 0);
        i += 1;
    }
    parser.finish()
}

/// The requests that the text `http_code` defines.
pub fn parse_http_code(http_code: &str) -> (requests: Vec<HttpRequest>)
    requires
        lines_of(http_code@).len() < u32::MAX,
    ensures
        request_views(requests@) == parsed(http_code@),
{
    let text = chars_of(http_code);
    let lines = split_lines(&text);
    parse_lines(&lines)
}

/// Whether the request at offset `i` of `rs` has the ordinal `i + 1` and
/// a legal method.
pub open spec fn numbered(rs: Seq<RequestView>, i: int) -> bool {
    rs[i].index == i + 1 && legal_method(rs[i].method)
}

/// Whether the closed requests of `st` are numbered from one in their
/// order, each with a legal method, and the current request has the next
/// ordinal and no method or a legal one.
pub open spec fn orderly(st: ParseState) -> bool {
    &&& st.current.index == st.done.len() + 1
    &&& (st.current.method.len() == 0 || legal_method(st.current.method))
    &&& forall|i: int| 0 <= i < st.done.len() ==> #[trigger] numbered(st.done, i)
}

/// A line keeps the state orderly, and closes at most one request.
pub proof fn lemma_step_orderly(st: ParseState, raw: Seq<char>, first: bool)
    requires
        orderly(st),
        st.done.len() + 2 <= u32::MAX,
    ensures
        orderly(step(st, raw, first)),
        st.done.len() <= step(st, raw, first).done.len() <= st.done.len() + 1,
{
    let next = step(st, raw, first);
    assert forall|i: int| 0 <= i < next.done.len() implies #[trigger] numbered(next.done, i) by {
        if i < st.done.len() {
            assert(numbered(st.done, i));
        }
    }
}

/// The state after any number of lines is orderly.
pub proof fn lemma_state_orderly(lines: Seq<Seq<char>>, n: nat)
    requires
        n <= lines.len(),
        n + 1 <= u32::MAX,
    ensures
        orderly(state_after(lines, n)),
        state_after(lines, n).done.len() <= n,
    decreases n,
{
    if n > 0 {
        lemma_state_orderly(lines, (n - 1) as nat);
        lemma_step_orderly(state_after(lines, (n - 1) as nat), lines[n - 1], n == 1);
    }
}

/// Every block with a request line gives one request, and no other block
/// gives any: the requests of a text carry the ordinals 1, 2, ... in their
/// order, and each has a legal method.
pub proof fn lemma_requests_numbered(text: Seq<char>)
    requires
        lines_of(text).len() < u32::MAX,
    ensures
        forall|i: int| 0 <= i < parsed(text).len() ==> #[trigger] numbered(parsed(text), i),
{
    let lines = lines_of(text);
    lemma_state_orderly(lines, lines.len());
    let st = state_after(lines, lines.len());
    assert forall|i: int| 0 <= i < parsed(text).len() implies #[trigger] numbered(
        parsed(text),
        i,
    ) by {
        if i < st.done.len() {
            assert(numbered(st.done, i));
        }
    }
}

/// Whether the line `raw` is read as the request line of a block that has
/// none yet: the current request has no method and its body has not begun,
/// and the line is no comment and no boundary but a request line.
pub open spec fn opens(st: ParseState, raw: Seq<char>, first: bool) -> bool {
    let line = trimmed(raw);
    &&& st.current.method.len() == 0
    &&& !st.current.body_started
    &&& !(first && "#!"@.is_prefix_of(line))
    &&& !"###"@.is_prefix_of(line)
    &&& !"#"@.is_prefix_of(line)
    &&& !"//"@.is_prefix_of(line)
    &&& request_line(line)
}

/// The number of blocks among the first `n` lines in which a request line
/// was read.
pub open spec fn opened(lines: Seq<Seq<char>>, n: nat) -> nat
    decreases n,
{
    if n == 0 {
        0
    } else {
        let before = opened(lines, (n - 1) as nat);
        if opens(state_after(lines, (n - 1) as nat), lines[n - 1], n == 1) {
            before + 1
        } else {
            before
        }
    }
}

/// The number of requests that `st` holds with a request line: the closed
/// ones and, where it has one, the current request.
pub open spec fn filled_count(st: ParseState) -> nat {
    if st.current.method.len() > 0 {
        st.done.len() + 1
    } else {
        st.done.len()
    }
}

/// A legal method is not empty.
pub proof fn lemma_legal_method_filled(m: Seq<char>)
    requires
        legal_method(m),
    ensures
        m.len() > 0,
{
    reveal_strlit("GET");
    reveal_strlit("POST");
    reveal_strlit("PUT");
    reveal_strlit("DELETE");
    reveal_strlit("GRAPHQL");
}

/// A line adds one request with a request line where it opens one, and
/// none otherwise; none is lost.
pub proof fn lemma_step_count(st: ParseState, raw: Seq<char>, first: bool)
    ensures
        filled_count(step(st, raw, first)) == filled_count(st) + if opens(st, raw, first) {
            1nat
        } else {
            0nat
        },
{
    reveal_strlit(" ");
    let line = trimmed(raw);
    if request_line(line) {
        lemma_legal_method_filled(before(line, " "@));
    }
    if line.len() == 0 {
        assert(!" "@.is_prefix_of(line));
        assert(index_of(line, " "@) is None);
    }
}

/// The requests held after `n` lines are as many as the blocks in which a
/// request line was read.
pub proof fn lemma_count_after(lines: Seq<Seq<char>>, n: nat)
    ensures
        filled_count(state_after(lines, n)) == opened(lines, n),
    decreases n,
{
    if n > 0 {
        lemma_count_after(lines, (n - 1) as nat);
        lemma_step_count(state_after(lines, (n - 1) as nat), lines[n - 1], n == 1);
    }
}

/// A text gives as many requests as it has blocks in which a request line
/// was read.
pub proof fn lemma_one_request_per_block(text: Seq<char>)
    ensures
        parsed(text).len() == opened(lines_of(text), lines_of(text).len()),
{
    lemma_count_after(lines_of(text), lines_of(text).len());
}

} // verus!
