use httpfile_build::parse_http_code;
use httpfile_build::text::{has_space, trim};
use httpfile_build::{is_http_method, is_legal_method, is_request_line, HttpHeader, HttpRequest};

#[test]
fn test_parse_code() {
    let http_code = r#"
### test
//@name my-ip
GET https://httpbing.org/ip HTTP/1.1
Host: httpbing.org
"#;
    let mut requests = parse_http_code(http_code);
    let request = requests.remove(0);
    println!("{:?}", request);
}

#[test]
fn test_parse_post() {
    let http_code = r#"
### test
//@name post-test
POST https://httpbing.org/ip HTTP/1.1
Host: httpbing.org
Content-Type: application/json

{"id":1}

### test
//@name my-ip
GET https://httpbing.org/ip HTTP/1.1
Host: httpbing.org
"#;
    let mut requests = parse_http_code(http_code);
    let request = requests.remove(0);
    println!("{:?}", request);
}

#[test]
fn parse_code_fields() {
    let http_code = "\n### test\n//@name my-ip\nGET https://httpbing.org/ip HTTP/1.1\nHost: httpbing.org\n";
    let requests = parse_http_code(http_code);
    assert_eq!(requests.len(), 1);
    let r = &requests[0];
    assert_eq!(r.index, 1);
    assert_eq!(r.comment.as_deref(), Some(" test"));
    assert_eq!(r.tags, vec!["name my-ip".to_string()]);
    assert_eq!(r.name, "my_ip");
    assert_eq!(r.method, "GET");
    assert_eq!(r.request_line, "https://httpbing.org/ip HTTP/1.1");
    assert_eq!(r.path, "https://httpbing.org/ip");
    assert_eq!(r.protocol.as_deref(), Some("HTTP/1.1"));
    assert_eq!(r.uri.as_deref(), Some("https://httpbing.org/ip"));
    assert_eq!(r.headers.len(), 1);
    assert_eq!(r.headers[0].name, "Host");
    assert_eq!(r.headers[0].value, "httpbing.org");
    assert!(r.body_lines.is_empty());
    assert_eq!(r.body, None);
    assert_eq!(r.line_numbers, vec![1, 2, 3, 4, 5]);
}

#[test]
fn parse_post_gives_two_requests() {
    let http_code = "\n### test\n//@name post-test\nPOST https://httpbing.org/ip HTTP/1.1\nHost: httpbing.org\nContent-Type: application/json\n\n{\"id\":1}\n\n### test\n//@name my-ip\nGET https://httpbing.org/ip HTTP/1.1\nHost: httpbing.org\n";
    let requests = parse_http_code(http_code);
    assert_eq!(requests.len(), 2);
    assert_eq!(requests[0].index, 1);
    assert_eq!(requests[0].name, "post_test");
    assert_eq!(requests[0].method, "POST");
    assert_eq!(requests[0].headers.len(), 2);
    assert_eq!(requests[0].headers[1].name, "Content-Type");
    assert_eq!(requests[0].headers[1].value, "application/json");
    assert_eq!(requests[0].body.as_deref(), Some("{\"id\":1}"));
    assert_eq!(requests[0].line_numbers, vec![1, 2, 3, 4, 5, 6, 7, 8, 9]);
    assert_eq!(requests[1].index, 2);
    assert_eq!(requests[1].name, "my_ip");
    assert_eq!(requests[1].method, "GET");
    assert_eq!(requests[1].comment.as_deref(), Some(" test"));
    assert_eq!(requests[1].line_numbers, vec![10, 11, 12, 13]);
}

#[test]
fn empty_input_gives_no_request() {
    assert!(parse_http_code("").is_empty());
    assert!(parse_http_code("\n\n### only a comment\n# nothing here\n").is_empty());
}

#[test]
fn default_name_is_http_and_ordinal() {
    let requests = parse_http_code("GET https://a.example/1\n###\nGET https://a.example/2\n");
    assert_eq!(requests.len(), 2);
    assert_eq!(requests[0].name, "http1");
    assert_eq!(requests[1].name, "http2");
    assert_eq!(requests[1].comment.as_deref(), Some(""));
    assert_eq!(HttpRequest::new(0).name, "http0");
    assert_eq!(HttpRequest::new(12).name, "http12");
    assert_eq!(HttpRequest::new(4294967295).name, "http4294967295");
}

#[test]
fn consecutive_boundaries_update_the_comment() {
    let requests = parse_http_code("### first\n### second\nGET https://a.example/\n");
    assert_eq!(requests.len(), 1);
    assert_eq!(requests[0].comment.as_deref(), Some(" second"));
    assert_eq!(requests[0].index, 1);
}

#[test]
fn shebang_is_passed_over() {
    let requests = parse_http_code("#!/usr/bin/env httpx\n### t\nGET https://a.example/\n");
    assert_eq!(requests.len(), 1);
    assert_eq!(requests[0].comment.as_deref(), Some(" t"));
    assert!(requests[0].tags.is_empty());
    assert_eq!(requests[0].line_numbers, vec![2, 3]);
}

#[test]
fn shebang_later_is_a_comment() {
    let requests = parse_http_code("\n#!/usr/bin/env httpx\nGET https://a.example/\n");
    assert_eq!(requests.len(), 1);
    assert_eq!(requests[0].comment.as_deref(), Some("!/usr/bin/env httpx"));
}

#[test]
fn comment_lines_and_tags() {
    let requests = parse_http_code(
        "# first words\n// second words\n# @timeout=5\n// @name=get-it\n# @no-log\nGET https://a.example/\n",
    );
    assert_eq!(requests.len(), 1);
    let r = &requests[0];
    assert_eq!(r.comment.as_deref(), Some("first words"));
    assert_eq!(
        r.tags,
        vec!["timeout=5".to_string(), "name=get-it".to_string(), "no-log".to_string()]
    );
    assert_eq!(r.name, "get_it");
}

#[test]
fn name_tag_without_value_keeps_the_name() {
    let requests = parse_http_code("# @name\nGET https://a.example/\n");
    assert_eq!(requests[0].name, "http1");
    assert_eq!(requests[0].tags, vec!["name".to_string()]);
}

#[test]
fn illegal_method_is_no_request_line() {
    let requests = parse_http_code("PATCH https://a.example/\n");
    assert!(requests.is_empty());
    let requests = parse_http_code("GET https://a.example/\n\nPATCH /x\n");
    assert_eq!(requests.len(), 1);
    assert_eq!(requests[0].body.as_deref(), Some("PATCH /x"));
}

#[test]
fn request_line_continues_on_indented_lines() {
    let requests = parse_http_code("GET https://a.example/find\n  ?q=1\n\t&r=2\nHost: a.example\n");
    assert_eq!(requests.len(), 1);
    assert_eq!(requests[0].request_line, "https://a.example/find?q=1&r=2");
    assert_eq!(requests[0].path, "https://a.example/find?q=1&r=2");
    assert_eq!(requests[0].protocol, None);
    assert_eq!(requests[0].headers.len(), 1);
}

#[test]
fn header_name_with_space_starts_the_body() {
    let requests = parse_http_code("### t\nPOST https://a.example/\nX Y: value\nZ: 1\n");
    assert_eq!(requests.len(), 1);
    let r = &requests[0];
    assert!(r.headers.is_empty());
    assert!(r.body_started);
    assert_eq!(r.body_lines, vec!["X Y: value".to_string(), "Z: 1".to_string()]);
    assert_eq!(r.body.as_deref(), Some("X Y: value\nZ: 1"));
}

#[test]
fn header_name_with_tab_starts_the_body() {
    let requests = parse_http_code("POST https://a.example/\nX\tY: value\n");
    assert!(requests[0].headers.is_empty());
    assert_eq!(requests[0].body.as_deref(), Some("X\tY: value"));
    let requests = parse_http_code("POST https://a.example/\nX-Y : value : more\n");
    assert_eq!(requests[0].headers.len(), 1);
    assert_eq!(requests[0].headers[0].name, "X-Y");
    assert_eq!(requests[0].headers[0].value, "value : more");
    assert_eq!(requests[0].body, None);
}

#[test]
fn duplicate_headers_are_kept_in_order() {
    let requests = parse_http_code("GET /x\nAccept: a\nAccept: b\nHost: h.example\n");
    let r = &requests[0];
    assert_eq!(r.headers.len(), 3);
    assert_eq!(r.headers[0].value, "a");
    assert_eq!(r.headers[1].value, "b");
    assert_eq!(r.get_header_value("Accept"), Some("a"));
    assert_eq!(r.get_header_value("Missing"), None);
    assert_eq!(r.uri.as_deref(), Some("http://h.example"));
    assert_eq!(r.path, "/x");
}

#[test]
fn stray_line_before_the_body_is_kept() {
    let requests = parse_http_code("POST https://a.example/\nstray\nHost: a.example\n\nbody\n");
    let r = &requests[0];
    assert_eq!(r.headers.len(), 1);
    assert_eq!(r.body_lines, vec!["stray".to_string(), "body".to_string()]);
    assert_eq!(r.body.as_deref(), Some("stray\nbody"));
}

#[test]
fn trailing_blank_body_lines_are_trimmed() {
    let requests = parse_http_code("POST https://a.example/\n\n{\"a\": 1}\n\n\n");
    assert_eq!(requests[0].body.as_deref(), Some("{\"a\": 1}"));
    assert_eq!(
        requests[0].body_lines,
        vec!["{\"a\": 1}".to_string(), "".to_string(), "".to_string()]
    );
}

#[test]
fn all_blank_body_gives_no_body() {
    let requests = parse_http_code("POST https://a.example/\n\n\n\n\n");
    assert_eq!(requests.len(), 1);
    assert_eq!(requests[0].body, None);
    assert_eq!(requests[0].body_lines.len(), 3);
}

#[test]
fn carriage_returns_end_lines_too() {
    let requests = parse_http_code("### t\r\nGET /ip HTTP/1.1\r\nHost: h.example\r\n\r\nbody\r\n");
    assert_eq!(requests.len(), 1);
    assert_eq!(requests[0].protocol.as_deref(), Some("HTTP/1.1"));
    assert_eq!(requests[0].headers[0].value, "h.example");
    assert_eq!(requests[0].body.as_deref(), Some("body"));
}

#[test]
fn body_lines_are_kept_as_written() {
    let requests = parse_http_code(" \u{a0}GET https://a.example/ \t\n\n\u{2003}text\u{3000}\n  more \n");
    assert_eq!(requests.len(), 1);
    assert_eq!(requests[0].request_line, "https://a.example/");
    assert_eq!(
        requests[0].body_lines,
        vec!["\u{2003}text\u{3000}".to_string(), "  more ".to_string()]
    );
    assert_eq!(requests[0].body.as_deref(), Some("\u{2003}text\u{3000}\n  more "));
}

#[test]
fn lines_of_white_space_at_the_end_are_trimmed() {
    let requests = parse_http_code("POST https://a.example/\n\n  {\"a\": 1}\n  \n\t\n\u{a0}\n");
    assert_eq!(requests[0].body.as_deref(), Some("  {\"a\": 1}"));
    assert_eq!(requests[0].body_lines.len(), 4);
    let requests = parse_http_code("POST https://a.example/\n\n  \n\t\t\n");
    assert_eq!(requests[0].body, None);
}

#[test]
fn line_numbers_count_every_line() {
    let requests = parse_http_code("\n\n### a\nGET https://a.example/\n\nx\n### b\nGET https://b.example/\n");
    assert_eq!(requests.len(), 2);
    assert_eq!(requests[0].line_numbers, vec![1, 2, 3, 4, 5, 6]);
    assert_eq!(requests[1].line_numbers, vec![7, 8]);
}

#[test]
fn method_predicates() {
    for m in ["GET", "POST", "PUT", "DELETE", "GRAPHQL"] {
        assert!(is_legal_method(m));
    }
    for m in ["HEAD", "OPTIONS", "PATCH", "TRACE", "get", "", "GET "] {
        assert!(!is_legal_method(m));
    }
    for m in ["GET", "POST", "PUT", "DELETE", "HEAD", "OPTIONS", "PATCH", "TRACE"] {
        assert!(is_http_method(m));
    }
    for m in ["GRAPHQL", "get", ""] {
        assert!(!is_http_method(m));
    }
}

#[test]
fn request_line_needs_method_and_space() {
    assert!(is_request_line("GET /x"));
    assert!(is_request_line("GRAPHQL https://a.example/graphql"));
    assert!(is_request_line("DELETE "));
    assert!(!is_request_line("GET"));
    assert!(!is_request_line("PATCH /x"));
    assert!(!is_request_line(" GET /x"));
    assert!(!is_request_line(""));
}

#[test]
fn request_record_methods() {
    let mut r = HttpRequest::new(3);
    assert!(!r.is_filled());
    assert_eq!(r.index, 3);
    r.method = "GET".to_string();
    assert!(r.is_filled());
    r.add_line_number(7);
    r.add_line_number(9);
    assert_eq!(r.line_numbers, vec![7, 9]);
    r.append_request_line("/a");
    r.append_request_line("?b=1");
    assert_eq!(r.request_line, "/a?b=1");
    let h = HttpHeader::new("A".to_string(), "b".to_string());
    assert_eq!(h.name, "A");
    assert_eq!(h.value, "b");
}

#[test]
fn metadata_from_host_header() {
    let mut r = HttpRequest::new(1);
    r.method = "GET".to_string();
    r.request_line = "  /ip   HTTP/1.1  extra".to_string();
    r.headers.push(HttpHeader::new("Host".to_string(), "h.example".to_string()));
    r.headers.push(HttpHeader::new("URI".to_string(), "https://u.example".to_string()));
    r.cleanup_metadata();
    assert_eq!(r.path, "/ip");
    assert_eq!(r.protocol.as_deref(), Some("HTTP/1.1"));
    assert_eq!(r.uri.as_deref(), Some("http://h.example"));
}

#[test]
fn metadata_from_uri_header() {
    let mut r = HttpRequest::new(1);
    r.method = "GRAPHQL".to_string();
    r.request_line = "/graphql".to_string();
    r.headers.push(HttpHeader::new("Host".to_string(), "h.example".to_string()));
    r.headers.push(HttpHeader::new("URI".to_string(), "https://u.example".to_string()));
    r.cleanup_metadata();
    assert_eq!(r.path, "/graphql");
    assert_eq!(r.protocol, None);
    assert_eq!(r.uri.as_deref(), Some("https://u.example"));
}

#[test]
fn metadata_absolute_url_wins() {
    let mut r = HttpRequest::new(1);
    r.method = "GET".to_string();
    r.request_line = "http://a.example/x".to_string();
    r.headers.push(HttpHeader::new("Host".to_string(), "h.example".to_string()));
    r.cleanup_metadata();
    assert_eq!(r.uri.as_deref(), Some("http://a.example/x"));
    let mut e = HttpRequest::new(1);
    e.method = "GET".to_string();
    e.cleanup_metadata();
    assert_eq!(e.path, "");
    assert_eq!(e.uri, None);
    assert_eq!(e.protocol, None);
}

#[test]
fn body_cleanup_takes_out_directives() {
    let mut r = HttpRequest::new(1);
    r.method = "POST".to_string();
    for l in [
        "<> previous.json",
        "{\"a\": 1}",
        "> {%",
        "client.log(1);",
        "client.log(2);",
        "%}",
        "> handler.js",
        ">> first.json",
        ">>! second.json",
        "",
    ] {
        r.body_lines.push(l.to_string());
    }
    r.cleanup_body();
    assert_eq!(r.js_code.as_deref(), Some("client.log(1);\nclient.log(2);"));
    assert_eq!(r.redirect_response.as_deref(), Some(">> first.json"));
    assert_eq!(r.body.as_deref(), Some("{\"a\": 1}\n>>! second.json"));
    assert_eq!(r.body_lines.len(), 10);
}

#[test]
fn body_cleanup_without_lines_changes_nothing() {
    let mut r = HttpRequest::new(1);
    r.method = "POST".to_string();
    r.body = Some("kept".to_string());
    r.cleanup_body();
    assert_eq!(r.body.as_deref(), Some("kept"));
    assert_eq!(r.js_code, None);
    assert_eq!(r.redirect_response, None);
}

#[test]
fn script_without_end_stays_in_the_body() {
    let mut r = HttpRequest::new(1);
    r.method = "POST".to_string();
    for l in ["%}", "a", "> {% open"] {
        r.body_lines.push(l.to_string());
    }
    r.cleanup_body();
    assert_eq!(r.js_code, None);
    assert_eq!(r.body.as_deref(), Some("%}\na\n> {% open"));
}

#[test]
fn graphql_body_with_variables() {
    let requests = parse_http_code(
        "### g\nGRAPHQL https://a.example/graphql\n\nquery {\n  ip\n}\n\n{\n  \"id\": 1\n}\n",
    );
    assert_eq!(requests.len(), 1);
    assert_eq!(
        requests[0].body.as_deref(),
        Some("{\"query\": \"query {\\n  ip\\n}\\n\",\"variables\": {\n  \"id\": 1\n}\n}")
    );
}

#[test]
fn graphql_body_without_variables() {
    let requests = parse_http_code("GRAPHQL https://a.example/graphql\n\nquery {\n  say(\"hi\")\n}\n");
    assert_eq!(
        requests[0].body.as_deref(),
        Some("{\"query\": \"query {\\n  say(\\\"hi\\\")\\n}\"}")
    );
    let requests = parse_http_code("GRAPHQL https://a.example/graphql\n\nquery\n{\nopen\n");
    assert_eq!(requests[0].body.as_deref(), Some("{\"query\": \"query\\n{\\nopen\"}"));
    let requests = parse_http_code("GRAPHQL https://a.example/graphql\n\n{\nip\n}\n");
    assert_eq!(requests[0].body.as_deref(), Some("{\"query\": \"{\\nip\\n}\"}"));
}

#[test]
fn white_space_is_the_listed_code_points() {
    let listed = |n: u32| {
        (0x09..=0x0d).contains(&n)
            || n == 0x20
            || n == 0x85
            || n == 0xa0
            || n == 0x1680
            || (0x2000..=0x200a).contains(&n)
            || n == 0x2028
            || n == 0x2029
            || n == 0x202f
            || n == 0x205f
            || n == 0x3000
    };
    for n in 0..=0x10ffffu32 {
        if let Some(c) = char::from_u32(n) {
            assert_eq!(has_space(&vec![c]), listed(n));
        }
    }
    assert_eq!(trim(&vec![' ', '\u{2003}', 'a', ' ', 'b', '\t', '\u{3000}']), vec!['a', ' ', 'b']);
    assert_eq!(trim(&vec!['\u{200b}', 'a', '\u{1c}']), vec!['\u{200b}', 'a', '\u{1c}']);
}
