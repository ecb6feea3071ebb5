//! Emission: placeholders in a text, and the source text of the function
//! that performs one request.

use vstd::prelude::*;
use crate::models::{HttpHeader, HttpRequest, RequestView, copy_rows, header_views, opt_text};
use crate::text::{
    append, append_str, chars_of, contains, equals, find, find_from, holds, index_of, join, joined,
    lemma_pair_first, replace, replaced, rows, same, slice, string_of, texts, trim_range, trimmed,
    unpaired,
};

verus! {

/// The key under which the value for a placeholder is looked up: what
/// stands between `{{` and `}}`, without the white space around it.
pub open spec fn param_key(raw: Seq<char>) -> Seq<char> {
    trimmed(raw)
}

/// The parameter named by what stands between `{{` and `}}`: the key
/// without one leading `$`, and with an underscore for each hyphen.
pub open spec fn param_name(raw: Seq<char>) -> Seq<char> {
    let t = trimmed(raw);
    let bare = if t.len() > 0 && t[0] == '$' {
        t.skip(1)
    } else {
        t
    };
    replaced(bare, "-"@, "_"@)
}

/// What extraction gives: the template, the parameter names in the order
/// of their first placeholders, no name twice, and for each name the key of
/// its first placeholder.
pub struct Extraction {
    pub template: Seq<char>,
    pub names: Seq<Seq<char>>,
    pub keys: Seq<Seq<char>>,
}

/// `e` after the placeholder that holds `raw`: the template gets `{`, the
/// parameter name and `}`; a name not seen before is noted with its key.
pub open spec fn with_param(e: Extraction, raw: Seq<char>) -> Extraction {
    let name = param_name(raw);
    let template = e.template + "{"@ + name + "}"@;
    if e.names.contains(name) {
        Extraction { template, ..e }
    } else {
        Extraction { template, names: e.names.push(name), keys: e.keys.push(param_key(raw)) }
    }
}

/// `e` after the literal text `t`.
pub open spec fn with_text(e: Extraction, t: Seq<char>) -> Extraction {
    Extraction { template: e.template + t, ..e }
}

/// Extraction from `offset` on, which stands just behind a `{{`, with what
/// was found so far. Without a closing `}}` extraction ends with what was
/// found. Otherwise the placeholder is noted and the text up to the next
/// `{{` is copied; without another `{{` the rest of the text is copied and
/// extraction ends.
pub open spec fn scan(text: Seq<char>, offset: int, e: Extraction) -> Extraction
    decreases text.len() - offset,
{
    if offset < 0 || offset >= text.len() {
        e
    } else {
        match index_of(text.skip(offset), "}}"@) {
            None => e,
            Some(t) => {
                if t < 0 || offset + t + 2 > text.len() {
                    e
                } else {
                    let found = with_param(e, text.subrange(offset, offset + t));
                    let next = offset + t + 2;
                    match index_of(text.skip(next), "{{"@) {
                        Some(v) => if v < 0 || next + v + 2 > text.len() {
                            e
                        } else {
                            scan(
                                text,
                                next + v + 2,
                                with_text(found, text.subrange(next, next + v)),
                            )
                        },
                        None => with_text(found, text.skip(next)),
                    }
                }
            },
        }
    }
}

/// The template, the parameter names and their keys for `text`: what stands
/// before the first `{{` is copied, and extraction goes on behind it.
pub open spec fn extracted(text: Seq<char>) -> Extraction {
    match index_of(text, "{{"@) {
        Some(o) => scan(
            text,
            o + 2,
            Extraction { template: text.take(o), names: Seq::empty(), keys: Seq::empty() },
        ),
        None => Extraction { template: text, names: Seq::empty(), keys: Seq::empty() },
    }
}

/// The text made of the parts `parts`, each a literal text followed by a
/// name between `{{` and `}}`, and then of `tail`.
pub open spec fn wrapped(parts: Seq<(Seq<char>, Seq<char>)>, tail: Seq<char>) -> Seq<char>
    decreases parts.len(),
{
    if parts.len() == 0 {
        tail
    } else {
        parts[0].0 + "{{"@ + (parts[0].1 + "}}"@ + wrapped(parts.skip(1), tail))
    }
}

/// The same text with each name between `{` and `}`.
pub open spec fn marked(parts: Seq<(Seq<char>, Seq<char>)>, tail: Seq<char>) -> Seq<char>
    decreases parts.len(),
{
    if parts.len() == 0 {
        tail
    } else {
        parts[0].0 + "{"@ + parts[0].1 + "}"@ + marked(parts.skip(1), tail)
    }
}

/// The names of the parts, in their order.
pub open spec fn names_of(parts: Seq<(Seq<char>, Seq<char>)>) -> Seq<Seq<char>> {
    parts.map_values(|p: (Seq<char>, Seq<char>)| p.1)
}

/// `names`, followed by each name of `more` that was not there before, in
/// the order of `more`.
pub open spec fn noted(names: Seq<Seq<char>>, more: Seq<Seq<char>>) -> Seq<Seq<char>>
    decreases more.len(),
{
    if more.len() == 0 {
        names
    } else if names.contains(more[0]) {
        noted(names, more.skip(1))
    } else {
        noted(names.push(more[0]), more.skip(1))
    }
}

/// Names of which none is there yet, and none twice, are all noted.
pub proof fn lemma_noted_distinct(names: Seq<Seq<char>>, more: Seq<Seq<char>>)
    requires
        (names + more).no_duplicates(),
    ensures
        noted(names, more) == names + more,
    decreases more.len(),
{
    let all = names + more;
    if more.len() == 0 {
        assert(all =~= names);
    } else {
        assert(!names.contains(more[0])) by {
            if names.contains(more[0]) {
                let i = choose|i: int| 0 <= i < names.len() && names[i] == more[0];
                assert(all[i] == all[names.len() as int]);
            }
        }
        assert(names.push(more[0]) + more.skip(1) =~= all);
        lemma_noted_distinct(names.push(more[0]), more.skip(1));
    }
}

/// Whether a part can be told from its neighbours: its literal text holds
/// no `{` directly before another `{` or at its end, its name no `}`
/// directly before another `}` or at its end, and the name is written as a
/// parameter name.
pub open spec fn plain_part(p: (Seq<char>, Seq<char>)) -> bool {
    unpaired(p.0, '{') && unpaired(p.1, '}') && param_name(p.1) == p.1
}

/// Where `s` is `front`, two `c` and `rest`, and `front` holds no `c`
/// directly before another `c` or at its end: the first pair of `c` in `s`
/// stands behind `front`, and `rest` behind the pair.
proof fn lemma_cut(s: Seq<char>, c: char, front: Seq<char>, rest: Seq<char>)
    requires
        s == front + seq![c, c] + rest,
        unpaired(front, c),
    ensures
        index_of(s, seq![c, c]) == Some(front.len() as int),
        s.take(front.len() as int) == front,
        s.skip(front.len() as int + 2) == rest,
        s.len() == front.len() + 2 + rest.len(),
{
    lemma_pair_first(s, c, front, rest);
    assert(s.take(front.len() as int) =~= front);
    assert(s.skip(front.len() as int + 2) =~= rest);
}

/// Parts of a text behind an offset, as parts of the text.
proof fn lemma_behind(text: Seq<char>, offset: int, n: int)
    requires
        0 <= offset,
        0 <= n,
        offset + n <= text.len(),
    ensures
        text.subrange(offset, offset + n) == text.skip(offset).take(n),
        text.skip(offset + n) == text.skip(offset).skip(n),
{
    assert(text.subrange(offset, offset + n) =~= text.skip(offset).take(n));
    assert(text.skip(offset + n) =~= text.skip(offset).skip(n));
}

#[verifier::rlimit(60)]
proof fn lemma_scan_wrapped(
    text: Seq<char>,
    offset: int,
    e: Extraction,
    name: Seq<char>,
    rest: Seq<(Seq<char>, Seq<char>)>,
    tail: Seq<char>,
)
    requires
        0 <= offset <= text.len(),
        text.skip(offset) == name + "}}"@ + wrapped(rest, tail),
        unpaired(name, '}'),
        param_name(name) == name,
        forall|i: int| 0 <= i < rest.len() ==> plain_part(#[trigger] rest[i]),
        !holds(tail, "{{"@),
    ensures
        scan(text, offset, e).template == e.template + "{"@ + name + "}"@ + marked(rest, tail),
        scan(text, offset, e).names == noted(e.names, seq![name] + names_of(rest)),
    decreases rest.len(),
{
    reveal_strlit("{{");
    reveal_strlit("}}");
    assert("}}"@ =~= seq!['}', '}']);
    assert("{{"@ =~= seq!['{', '{']);
    let s = text.skip(offset);
    let w = wrapped(rest, tail);
    let t = name.len() as int;
    lemma_cut(s, '}', name, w);
    lemma_behind(text, offset, t);
    lemma_behind(text, offset, t + 2);
    let next = offset + t + 2;
    let found = with_param(e, name);
    let more = seq![name] + names_of(rest);
    assert(noted(e.names, more) == noted(found.names, names_of(rest))) by {
        assert(more[0] == name);
        assert(more.skip(1) =~= names_of(rest));
    }
    if rest.len() == 0 {
        assert(names_of(rest) =~= Seq::<Seq<char>>::empty());
        assert(scan(text, offset, e) == with_text(found, tail));
    } else {
        let lit = rest[0].0;
        let name2 = rest[0].1;
        let inner = name2 + "}}"@ + wrapped(rest.skip(1), tail);
        assert(plain_part(rest[0]));
        assert(w =~= lit + seq!['{', '{'] + inner);
        let v = lit.len() as int;
        lemma_cut(w, '{', lit, inner);
        lemma_behind(text, next, v);
        lemma_behind(text, next, v + 2);
        assert forall|i: int| 0 <= i < rest.skip(1).len() implies plain_part(
            #[trigger] rest.skip(1)[i],
        ) by {
            assert(plain_part(rest[i + 1]));
        }
        let e2 = with_text(found, lit);
        lemma_scan_wrapped(text, next + v + 2, e2, name2, rest.skip(1), tail);
        assert(scan(text, offset, e) == scan(text, next + v + 2, e2));
        assert(e2.template + "{"@ + name2 + "}"@ + marked(rest.skip(1), tail) =~= found.template
            + marked(rest, tail));
        assert(names_of(rest) =~= seq![name2] + names_of(rest.skip(1)));
    }
}

/// Extraction and wrapping undo each other. From a text in which names
/// stand between `{{` and `}}`, extraction gives those names in the order
/// of their first placeholders, and a template that is the text with `{`
/// and `}` around each name instead: putting `{{` and `}}` back around each
/// name gives the text again. This holds where each part can be told from
/// its neighbours and the rest of the text holds no `{{`. Where no name
/// comes twice, the names are those of the parts.
pub proof fn lemma_extraction_round_trip(parts: Seq<(Seq<char>, Seq<char>)>, tail: Seq<char>)
    requires
        forall|i: int| 0 <= i < parts.len() ==> plain_part(#[trigger] parts[i]),
        !holds(tail, "{{"@),
    ensures
        extracted(wrapped(parts, tail)).template == marked(parts, tail),
        extracted(wrapped(parts, tail)).names == noted(Seq::empty(), names_of(parts)),
        names_of(parts).no_duplicates() ==> extracted(wrapped(parts, tail)).names == names_of(
            parts,
        ),
{
    if names_of(parts).no_duplicates() {
        assert(Seq::<Seq<char>>::empty() + names_of(parts) =~= names_of(parts));
        lemma_noted_distinct(Seq::empty(), names_of(parts));
    }
    reveal_strlit("{{");
    assert("{{"@ =~= seq!['{', '{']);
    let text = wrapped(parts, tail);
    if parts.len() == 0 {
        assert(names_of(parts) =~= Seq::<Seq<char>>::empty());
    } else {
        let lit = parts[0].0;
        let name = parts[0].1;
        let inner = name + "}}"@ + wrapped(parts.skip(1), tail);
        assert(plain_part(parts[0]));
        assert(text =~= lit + seq!['{', '{'] + inner);
        lemma_pair_first(text, '{', lit, inner);
        let o = lit.len() as int;
        assert(text.take(o) =~= lit);
        assert(text.skip(o + 2) =~= inner);
        assert forall|i: int| 0 <= i < parts.skip(1).len() implies plain_part(
            #[trigger] parts.skip(1)[i],
        ) by {
            assert(plain_part(parts[i + 1]));
        }
        let e = Extraction { template: lit, names: Seq::empty(), keys: Seq::empty() };
        lemma_scan_wrapped(text, o + 2, e, name, parts.skip(1), tail);
        assert(seq![name] + names_of(parts.skip(1)) =~= names_of(parts));
    }
}

/// Extraction notes one key for each name.
pub proof fn lemma_one_key_per_name(text: Seq<char>, offset: int, e: Extraction)
    requires
        e.names.len() == e.keys.len(),
    ensures
        scan(text, offset, e).names.len() == scan(text, offset, e).keys.len(),
    decreases text.len() - offset,
{
    if 0 <= offset < text.len() {
        match index_of(text.skip(offset), "}}"@) {
            None => {},
            Some(t) => {
                if !(t < 0 || offset + t + 2 > text.len()) {
                    let found = with_param(e, text.subrange(offset, offset + t));
                    let next = offset + t + 2;
                    match index_of(text.skip(next), "{{"@) {
                        Some(v) => {
                            if !(v < 0 || next + v + 2 > text.len()) {
                                lemma_one_key_per_name(
                                    text,
                                    next + v + 2,
                                    with_text(found, text.subrange(next, next + v)),
                                );
                            }
                        },
                        None => {},
                    }
                }
            },
        }
    }
}

/// Appends `row` to `out`.
pub fn push_row(out: &mut Vec<Vec<char>>, row: Vec<char>)
    ensures
        rows(final(out)@) == rows(old(out)@).push(row@),
{
    out.push(row);
    assert(rows(out@) =~= rows(old(out)@).push(row@));
}

/// Whether `row` is one of the rows of `l`.
pub fn has_row(l: &Vec<Vec<char>>, row: &Vec<char>) -> (r: bool)
    ensures
        r == rows(l@).contains(row@),
{
    let mut i: usize = 0;
    while i < l.len()
        invariant
            i <= l.len(),
            forall|j: int| 0 <= j < i ==> rows(l@)[j] != row@,
        decreases l.len() - i,
    {
        assert(rows(l@)[i as int] == l@[i as int]@);
        if same(&l[i], row) {
            return true;
        }
        i += 1;
    }
    false
}

/// The parameter named under the key `key`.
pub fn name_of(key: &Vec<char>) -> (out: Vec<char>)
    ensures
        out@ == replaced(
            if key@.len() > 0 && key@[0] == '$' {
                key@.skip(1)
            } else {
                key@
            },
            "-"@,
            "_"@,
        ),
{
    if key.len() > 0 && key[0] == '$' {
        let bare = slice(key, 1, key.len());
        assert(bare@ =~= key@.skip(1));
        replace(&bare, "-", "_")
    } else {
        replace(key, "-", "_")
    }
}

/// The template, the parameter names and their keys for `text`.
pub fn extract(text: &Vec<char>) -> (r: (Vec<char>, Vec<Vec<char>>, Vec<Vec<char>>))
    requires
        holds(text@, "{{"@),
    ensures
        r.0@ == extracted(text@).template,
        rows(r.1@) == extracted(text@).names,
        rows(r.2@) == extracted(text@).keys,
{
    proof {
        reveal_strlit("{{");
        reveal_strlit("}}");
    }
    let open = chars_of("{{");
    let close = chars_of("}}");
    let n: usize = text.len();
    let first: usize = match find(text, "{{") {
        Some(o) => o,
        None => 0,
    };
    let mut template = slice(text, 0, first);
    assert(template@ =~= text@.take(first as int));
    let mut names: Vec<Vec<char>> = Vec::new();
    let mut keys: Vec<Vec<char>> = Vec::new();
    assert(rows(names@) =~= Seq::<Seq<char>>::empty());
    assert(rows(keys@) =~= Seq::<Seq<char>>::empty());
    let mut offset: usize = first + 2;
    while offset < n
        invariant
            n == text.len(),
            offset <= n,
            open@ == "{{"@,
            close@ == "}}"@,
            open@.len() == 2,
            close@.len() == 2,
            extracted(text@) == scan(
                text@,
                offset as int,
                Extraction { template: template@, names: rows(names@), keys: rows(keys@) },
            ),
        decreases n - offset,
    {
        match find_from(text, &close, offset) {
            None => {
                return (template, names, keys);
            },
            Some(t) => {
                let key = trim_range(text, offset, offset + t);
                let name = name_of(&key);
                let next: usize = offset + t + 2;
                append_str(&mut template, "{");
                append(&mut template, &name);
                append_str(&mut template, "}");
                if !has_row(&names, &name) {
                    push_row(&mut names, name);
                    push_row(&mut keys, key);
                }
                match find_from(text, &open, next) {
                    Some(v) => {
                        let part = slice(text, next, next + v);
                        append(&mut template, &part);
                        offset = next + v + 2;
                    },
                    None => {
                        let part = slice(text, next, n);
                        assert(part@ =~= text@.skip(next as int));
                        append(&mut template, &part);
                        return (template, names, keys);
                    },
                }
            },
        }
    }
    (template, names, keys)
}

/// The expression that reads the parameter `name` from the mapping under
/// `key`, with the empty string where the mapping lacks the key.
pub open spec fn lookup(name: Seq<char>, key: Seq<char>) -> Seq<char> {
    name + " = params.get(\""@ + key + "\").unwrap_or(&\"\")"@
}

/// The lookups for the first `n` of `names`, each under its key.
pub open spec fn lookups(names: Seq<Seq<char>>, keys: Seq<Seq<char>>, n: int) -> Seq<Seq<char>> {
    Seq::new(n as nat, |i: int| lookup(names[i], keys[i]))
}

/// The formatting expression for a text with placeholders: the template of
/// the text, followed by one lookup for each of its parameter names.
pub open spec fn place_holder(text: Seq<char>) -> Seq<char> {
    let e = extracted(text);
    "format!(r#\""@ + e.template + "\"#, "@ + joined(
        lookups(e.names, e.keys, e.names.len() as int),
        ", "@,
    ) + ")"@
}

/// The formatting expression for `text`.
pub fn place_holder_of(text: &Vec<char>) -> (out: Vec<char>)
    requires
        holds(text@, "{{"@),
    ensures
        out@ == place_holder(text@),
{
    let (template, names, keys) = extract(text);
    proof {
        match index_of(text@, "{{"@) {
            Some(o) => {
                lemma_one_key_per_name(
                    text@,
                    o + 2,
                    Extraction {
                        template: text@.take(o),
                        names: Seq::empty(),
                        keys: Seq::empty(),
                    },
                );
            },
            None => {},
        }
        assert(rows(names@).len() == rows(keys@).len());
    }
    let mut reads: Vec<Vec<char>> = Vec::new();
    let mut i: usize = 0;
    assert(rows(reads@) =~= lookups(rows(names@), rows(keys@), 0));
    while i < names.len()
        invariant
            i <= names.len(),
            names.len() == keys.len(),
            rows(reads@) == lookups(rows(names@), rows(keys@), i as int),
        decreases names.len() - i,
    {
        let mut read: Vec<char> = Vec::new();
        append(&mut read, &names[i]);
        append_str(&mut read, " = params.get(\"");
        append(&mut read, &keys[i]);
        append_str(&mut read, "\").unwrap_or(&\"\")");
        assert(read@ =~= lookup(rows(names@)[i as int], rows(keys@)[i as int]));
        push_row(&mut reads, read);
        i += 1;
        assert(rows(reads@) =~= lookups(rows(names@), rows(keys@), i as int));
    }
    assert(rows(reads@).subrange(0, reads.len() as int) =~= rows(reads@));
    let mut out = chars_of("format!(r#\"");
    append(&mut out, &template);
    append_str(&mut out, "\"#, ");
    append(&mut out, &join(&reads, 0, reads.len(), ", "));
    append_str(&mut out, ")");
    out
}

/// The template and the parameter names of `text`.
pub fn replace_variables(text: &str) -> (r: (String, Vec<String>))
    requires
        holds(text@, "{{"@),
    ensures
        r.0@ == extracted(text@).template,
        texts(r.1@) == extracted(text@).names,
{
    let v = chars_of(text);
    let (template, names, _keys) = extract(&v);
    let mut out: Vec<String> = Vec::new();
    let mut i: usize = 0;
    assert(texts(out@) =~= rows(names@).take(0));
    while i < names.len()
        invariant
            i <= names.len(),
            texts(out@) == rows(names@).take(i as int),
        decreases names.len() - i,
    {
        let ghost before = texts(out@);
        let s = string_of(&names[i]);
        out.push(s);
        assert(texts(out@) =~= before.push(s@));
        i += 1;
        assert(texts(out@) =~= rows(names@).take(i as int));
    }
    assert(rows(names@).take(names.len() as int) =~= rows(names@));
    (string_of(&template), out)
}

/// The formatting expression for `text`, which holds a placeholder.
pub fn to_place_holder(text: &str) -> (r: String)
    requires
        holds(text@, "{{"@),
    ensures
        r@ == place_holder(text@),
{
    let v = chars_of(text);
    string_of(&place_holder_of(&v))
}

/// Whether the request is a GraphQL request.
pub open spec fn graphql(m: RequestView) -> bool {
    m.method == "GRAPHQL"@
}

/// Whether a body is emitted for the request's method.
pub open spec fn sends_body(m: RequestView) -> bool {
    m.method == "POST"@ || m.method == "PUT"@ || m.method == "GRAPHQL"@
}

/// Whether no assignment is emitted for header `h`: the content type of a
/// request that is not a GraphQL request.
pub open spec fn skipped(h: (Seq<char>, Seq<char>), graphql: bool) -> bool {
    !graphql && h.0 == "Content-Type"@
}

/// The binding of the target: none without a target, a formatting
/// expression where the target holds a placeholder, else a literal.
pub open spec fn url_lines(uri: Option<Seq<char>>) -> Seq<Seq<char>> {
    match uri {
        None => Seq::empty(),
        Some(u) => if holds(u, "{{"@) {
            seq!["  let url = "@ + place_holder(u) + ";"@]
        } else {
            seq!["  let url = \""@ + u + "\";"@]
        },
    }
}

/// The assignment of header `h`.
pub open spec fn header_line(h: (Seq<char>, Seq<char>)) -> Seq<char> {
    if holds(h.1, "{{"@) {
        "  headers.insert(\""@ + h.0 + "\", "@ + place_holder(h.1) + ".parse().unwrap());"@
    } else {
        "  headers.insert(\""@ + h.0 + "\", \""@ + h.1 + "\".parse().unwrap());"@
    }
}

/// One assignment for each header that is not skipped, in their order.
pub open spec fn header_lines(hs: Seq<(Seq<char>, Seq<char>)>, graphql: bool) -> Seq<Seq<char>>
    decreases hs.len(),
{
    if hs.len() == 0 {
        Seq::empty()
    } else if skipped(hs.last(), graphql) {
        header_lines(hs.drop_last(), graphql)
    } else {
        header_lines(hs.drop_last(), graphql).push(header_line(hs.last()))
    }
}

/// Whether the value of a header holds a placeholder.
pub open spec fn headers_parameterized(hs: Seq<(Seq<char>, Seq<char>)>) -> bool
    decreases hs.len(),
{
    if hs.len() == 0 {
        false
    } else {
        headers_parameterized(hs.drop_last()) || holds(hs.last().1, "{{"@)
    }
}

/// The forced content type of a GraphQL request.
pub open spec fn content_type_lines(m: RequestView) -> Seq<Seq<char>> {
    if graphql(m) {
        seq!["headers.insert(\"Content-Type\", \"application/json\".parse().unwrap());"@]
    } else {
        Seq::empty()
    }
}

/// The binding of the body: none for a method without body or a request
/// without one; the rendering of the template registered as the request's
/// name and `_body` where the body holds a placeholder; else a literal.
pub open spec fn body_binding(m: RequestView) -> Seq<Seq<char>> {
    if sends_body(m) {
        match m.body {
            Some(b) => if holds(b, "{{"@) {
                seq![
                    "  let body = HANDLEBARS.render(\""@ + m.name + "_body"@
                        + "\", &params).unwrap();"@,
                ]
            } else {
                seq!["  let body = r#\""@ + b + "\"#;"@]
            },
            None => Seq::empty(),
        }
    } else {
        Seq::empty()
    }
}

/// The call that sends the request.
pub open spec fn send_line(method: Seq<char>) -> Seq<char> {
    if method == "GET"@ {
        "  CLIENT.get(url).headers(headers).send().await"@
    } else if method == "POST"@ || method == "GRAPHQL"@ {
        "  CLIENT.post(url).headers(headers).body(body).send().await"@
    } else {
        "  CLIENT."@ + method + "(url).headers(headers).body(body).send().await"@
    }
}

/// Whether the emitted function takes parameters: the target, the value of
/// a header or the body holds a placeholder, whether or not it is emitted.
pub open spec fn parameterized(m: RequestView) -> bool {
    ||| (m.uri is Some && holds(m.uri->0, "{{"@))
    ||| headers_parameterized(m.headers)
    ||| (m.body is Some && holds(m.body->0, "{{"@))
}

/// The opening line of the emitted function.
pub open spec fn signature(m: RequestView) -> Seq<char> {
    if parameterized(m) {
        "pub async fn "@ + m.name + "(params: &HashMap<&str, &str>) -> Result<Response> {"@
    } else {
        "pub async fn "@ + m.name + "() -> Result<Response> {"@
    }
}

/// The lines of the emitted function.
pub open spec fn code_lines(m: RequestView) -> Seq<Seq<char>> {
    seq![signature(m)] + url_lines(m.uri) + seq!["  let mut headers = HeaderMap::new();"@]
        + header_lines(m.headers, graphql(m)) + content_type_lines(m) + body_binding(m)
        + seq![send_line(m.method), "}"@]
}

/// The source text of the function that performs the request.
pub open spec fn rust_code(m: RequestView) -> Seq<char> {
    joined(code_lines(m), "\n"@)
}

/// `a`, then `b`, then `c`.
pub fn framed(a: &str, b: &Vec<char>, c: &str) -> (out: Vec<char>)
    ensures
        out@ == a@ + b@ + c@,
{
    let mut out = chars_of(a);
    append(&mut out, b);
    append_str(&mut out, c);
    out
}

/// The assignment of a header with the given name and value.
pub fn header_line_of(name: &Vec<char>, value: &Vec<char>) -> (out: Vec<char>)
    ensures
        out@ == header_line((name@, value@)),
{
    let mut out = chars_of("  headers.insert(\"");
    append(&mut out, name);
    if contains(value, "{{") {
        append_str(&mut out, "\", ");
        append(&mut out, &place_holder_of(value));
        append_str(&mut out, ".parse().unwrap());");
    } else {
        append_str(&mut out, "\", \"");
        append(&mut out, value);
        append_str(&mut out, "\".parse().unwrap());");
    }
    out
}

/// Appends copies of all rows of `more` to `out`.
pub fn extend_rows(out: &mut Vec<Vec<char>>, more: &Vec<Vec<char>>)
    ensures
        rows(final(out)@) == rows(old(out)@) + rows(more@),
{
    assert(rows(more@).subrange(0, more.len() as int) =~= rows(more@));
    copy_rows(more, 0, more.len(), out);
}

/// The binding of the target `uri`.
pub fn url_lines_of(uri: &Option<String>) -> (out: Vec<Vec<char>>)
    ensures
        rows(out@) == url_lines(opt_text(*uri)),
{
    let mut out: Vec<Vec<char>> = Vec::new();
    assert(rows(out@) =~= Seq::<Seq<char>>::empty());
    match uri {
        Some(uri) => {
            let u = chars_of(uri.as_str());
            if contains(&u, "{{") {
                push_row(&mut out, framed("  let url = ", &place_holder_of(&u), ";"));
            } else {
                push_row(&mut out, framed("  let url = \"", &u, "\";"));
            }
            assert(rows(out@) =~= url_lines(Some(u@)));
        },
        None => {},
    }
    out
}

/// The assignments of `headers`, and whether the value of a header holds
/// a placeholder.
pub fn header_lines_of(headers: &Vec<HttpHeader>, is_graphql: bool) -> (r: (Vec<Vec<char>>, bool))
    ensures
        rows(r.0@) == header_lines(header_views(headers@), is_graphql),
        r.1 == headers_parameterized(header_views(headers@)),
{
    let mut out: Vec<Vec<char>> = Vec::new();
    let mut variables = false;
    let ghost hs = header_views(headers@);
    let mut i: usize = 0;
    assert(rows(out@) =~= header_lines(hs.take(0), is_graphql));
    while i < headers.len()
        invariant
            i <= headers.len(),
            hs == header_views(headers@),
            rows(out@) == header_lines(hs.take(i as int), is_graphql),
            variables == headers_parameterized(hs.take(i as int)),
        decreases headers.len() - i,
    {
        assert(hs.take(i + 1).drop_last() =~= hs.take(i as int));
        assert(hs.take(i + 1).last() == headers@[i as int]@);
        let hname = chars_of(headers[i].name.as_str());
        let value = chars_of(headers[i].value.as_str());
        if contains(&value, "{{") {
            variables = true;
        }
        if is_graphql || !equals(&hname, "Content-Type") {
            push_row(&mut out, header_line_of(&hname, &value));
        }
        i += 1;
    }
    assert(hs.take(headers.len() as int) =~= hs);
    (out, variables)
}

/// The call that sends a request with the given method.
pub fn send_line_of(method: &Vec<char>) -> (out: Vec<char>)
    ensures
        out@ == send_line(method@),
{
    if equals(method, "GET") {
        chars_of("  CLIENT.get(url).headers(headers).send().await")
    } else if equals(method, "POST") || equals(method, "GRAPHQL") {
        chars_of("  CLIENT.post(url).headers(headers).body(body).send().await")
    } else {
        framed("  CLIENT.", method, "(url).headers(headers).body(body).send().await")
    }
}

impl HttpRequest {
    /// The binding of this request's body.
    pub fn body_binding_of(&self) -> (out: Vec<Vec<char>>)
        ensures
            rows(out@) == body_binding(self@),
    {
        let method = chars_of(self.method.as_str());
        let mut out: Vec<Vec<char>> = Vec::new();
        assert(rows(out@) =~= Seq::<Seq<char>>::empty());
        if equals(&method, "POST") || equals(&method, "PUT") || equals(&method, "GRAPHQL") {
            match &self.body {
                Some(body) => {
                    let b = chars_of(body.as_str());
                    if contains(&b, "{{") {
                        let mut line = chars_of("  let body = HANDLEBARS.render(\"");
                        append_str(&mut line, self.name.as_str());
                        append_str(&mut line, "_body");
                        append_str(&mut line, "\", &params).unwrap();");
                        push_row(&mut out, line);
                    } else {
                        push_row(&mut out, framed("  let body = r#\"", &b, "\"#;"));
                    }
                    assert(rows(out@) =~= body_binding(self@));
                },
                None => {},
            }
        }
        out
    }

    /// Whether the function emitted for this request takes parameters.
    pub fn is_parameterized(&self) -> (r: bool)
        ensures
            r == parameterized(self@),
    {
        let method = chars_of(self.method.as_str());
        let in_url = match &self.uri {
            Some(uri) => contains(&chars_of(uri.as_str()), "{{"),
            None => false,
        };
        let in_headers = header_lines_of(&self.headers, equals(&method, "GRAPHQL")).1;
        let in_body = match &self.body {
            Some(body) => contains(&chars_of(body.as_str()), "{{"),
            None => false,
        };
        in_url || in_headers || in_body
    }

    /// The source text of the function that performs this request.
    pub fn to_rust_code(&self) -> (r: String)
        ensures
            r@ == rust_code(self@),
    {
        let method = chars_of(self.method.as_str());
        let name = chars_of(self.name.as_str());
        let is_graphql = equals(&method, "GRAPHQL");
        let mut all: Vec<Vec<char>> = Vec::new();
        assert(rows(all@) =~= Seq::<Seq<char>>::empty());
        if self.is_parameterized() {
            push_row(
                &mut all,
                framed("pub async fn ", &name, "(params: &HashMap<&str, &str>) -> Result<Response> {"),
            );
        } else {
            push_row(&mut all, framed("pub async fn ", &name, "() -> Result<Response> {"));
        }
        assert(rows(all@) =~= seq![signature(self@)]);
        extend_rows(&mut all, &url_lines_of(&self.uri));
        push_row(&mut all, chars_of("  let mut headers = HeaderMap::new();"));
        extend_rows(&mut all, &header_lines_of(&self.headers, is_graphql).0);
        if is_graphql {
            push_row(
                &mut all,
                chars_of("headers.insert(\"Content-Type\", \"application/json\".parse().unwrap());"),
            );
        }
        assert(rows(all@) =~= seq![signature(self@)] + url_lines(self@.uri)
            + seq!["  let mut headers = HeaderMap::new();"@] + header_lines(
            self@.headers,
            graphql(self@),
        ) + content_type_lines(self@));
        extend_rows(&mut all, &self.body_binding_of());
        push_row(&mut all, send_line_of(&method));
        push_row(&mut all, chars_of("}"));
        assert(rows(all@) =~= code_lines(self@));
        assert(rows(all@).subrange(0, all.len() as int) =~= rows(all@));
        string_of(&join(&all, 0, all.len(), "\n"))
    }
}

} // verus!
