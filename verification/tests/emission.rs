use httpfile_build::builder::Builder;
use httpfile_build::emit::{replace_variables, to_place_holder};
use httpfile_build::parser::parse_http_code;
use httpfile_build::{compile_text, generate, rust_file_name, try_compile_text, HttpRequest};

#[test]
fn test_to_rust_code() {
    let http_code = r#"
### test
//@name my-ip
GET https://{{host}}/ip HTTP/1.1
Host: {{host}}
User-Agent: Mozilla/5.0 (Windows NT 10.0; Win64; x64) AppleWebKit/537.36 (KHTML, like Gecko) Chrome/80.0.3987.149 Safari/537.36

Hi {{jackiye}}!
good morning
goood
"#;
    let mut requests = parse_http_code(http_code);
    let mut request = requests.remove(0);
    request.cleanup_body();
    println!("{}", request.to_rust_code());
}

#[test]
fn test_graphql_to_rust_code() {
    let http_code = r#"
### GraphQL demo with variables
//@name graphql-demo
GRAPHQL https://httpbin.org/post

query {
    ip
}

{
  "id": 1,
  "name": "{{nick}}"
}



"#;
    let mut requests = parse_http_code(http_code);
    let request = requests.remove(0);
    println!("{:?}", request);
    println!("{}", request.to_rust_code());
}

#[test]
fn test_replace_variables() {
    let http_code = r#"
### test
//@name myip
GET https://{{host}}/ip HTTP/1.1

hi {{name}}, nice to meet you! {{$uuid}}
"#;
    let result = replace_variables(http_code);
    println!("{:?}", result);
}

#[test]
fn replace_variables_exact() {
    let http_code = "\n### test\n//@name myip\nGET https://{{host}}/ip HTTP/1.1\n\nhi {{name}}, nice to meet you! {{$uuid}}\n";
    let (template, names) = replace_variables(http_code);
    assert_eq!(
        template,
        "\n### test\n//@name myip\nGET https://{host}/ip HTTP/1.1\n\nhi {name}, nice to meet you! {uuid}\n"
    );
    assert_eq!(names, vec!["host".to_string(), "name".to_string(), "uuid".to_string()]);
}

#[test]
fn names_come_in_order_and_wrap_back() {
    let text = "x{{a}}, then {{b}}.";
    let (template, names) = replace_variables(text);
    assert_eq!(names, vec!["a".to_string(), "b".to_string()]);
    assert_eq!(template, "x{a}, then {b}.");
    let mut back = template.clone();
    for n in &names {
        back = back.replacen(&format!("{{{}}}", n), &format!("{{{{{}}}}}", n), 1);
    }
    assert_eq!(back, text);
    assert_eq!(replace_variables(text), replace_variables(text));
}

#[test]
fn names_are_normalized() {
    let (template, names) = replace_variables("{{ my-var }}{{$random-int}}{{}}");
    assert_eq!(template, "{my_var}{random_int}{}");
    assert_eq!(names, vec!["my_var".to_string(), "random_int".to_string(), "".to_string()]);
    let (template, names) = replace_variables("{{a}} and {{b}}, {{a}} and {{ $a }}");
    assert_eq!(template, "{a} and {b}, {a} and {a}");
    assert_eq!(names, vec!["a".to_string(), "b".to_string()]);
}

#[test]
fn unmatched_braces_end_extraction() {
    assert_eq!(replace_variables("a {{b}} c {{d"), ("a {b} c ".to_string(), vec!["b".to_string()]));
    assert_eq!(replace_variables("a {{b"), ("a ".to_string(), vec![]));
    assert_eq!(replace_variables("a {{"), ("a ".to_string(), vec![]));
    assert_eq!(replace_variables("{{b}}}} c"), ("{b}}} c".to_string(), vec!["b".to_string()]));
}

#[test]
fn place_holder_reads_each_name() {
    assert_eq!(
        to_place_holder("https://{{host}}/ip"),
        "format!(r#\"https://{host}/ip\"#, host = params.get(\"host\").unwrap_or(&\"\"))"
    );
    assert_eq!(
        to_place_holder("{{$uuid}}/{{ my-var }}/{{$uuid}}"),
        "format!(r#\"{uuid}/{my_var}/{uuid}\"#, uuid = params.get(\"$uuid\").unwrap_or(&\"\"), my_var = params.get(\"my-var\").unwrap_or(&\"\"))"
    );
    assert_eq!(
        to_place_holder("{{a}}-{{b}}"),
        "format!(r#\"{a}-{b}\"#, a = params.get(\"a\").unwrap_or(&\"\"), b = params.get(\"b\").unwrap_or(&\"\"))"
    );
}

#[test]
fn get_with_placeholders() {
    let requests = parse_http_code(
        "### t\n//@name my-ip\nGET https://{{host}}/ip HTTP/1.1\nHost: {{host}}\n\nHi {{name}}!",
    );
    assert_eq!(requests.len(), 1);
    let r = &requests[0];
    assert_eq!(r.name, "my_ip");
    assert_eq!(r.body.as_deref(), Some("Hi {{name}}!"));
    assert!(r.is_parameterized());
    let expected = [
        "pub async fn my_ip(params: &HashMap<&str, &str>) -> Result<Response> {",
        "  let url = format!(r#\"https://{host}/ip\"#, host = params.get(\"host\").unwrap_or(&\"\"));",
        "  let mut headers = HeaderMap::new();",
        "  headers.insert(\"Host\", format!(r#\"{host}\"#, host = params.get(\"host\").unwrap_or(&\"\")).parse().unwrap());",
        "  CLIENT.get(url).headers(headers).send().await",
        "}",
    ]
    .join("\n");
    assert_eq!(r.to_rust_code(), expected);
}

#[test]
fn get_without_placeholders_takes_no_parameters() {
    let requests = parse_http_code("//@name plain\nGET /ip\nHost: h.example\nContent-Type: text/plain\n\nHi!");
    let r = &requests[0];
    assert!(!r.is_parameterized());
    let expected = [
        "pub async fn plain() -> Result<Response> {",
        "  let url = \"http://h.example\";",
        "  let mut headers = HeaderMap::new();",
        "  headers.insert(\"Host\", \"h.example\".parse().unwrap());",
        "  CLIENT.get(url).headers(headers).send().await",
        "}",
    ]
    .join("\n");
    assert_eq!(r.to_rust_code(), expected);
}

#[test]
fn placeholder_in_the_body_of_a_get_makes_parameters() {
    let mut r = HttpRequest::new(1);
    r.method = "GET".to_string();
    r.uri = Some("http://a.b/x".to_string());
    r.body = Some("Hi {{name}}".to_string());
    assert!(r.is_parameterized());
    let expected = [
        "pub async fn http1(params: &HashMap<&str, &str>) -> Result<Response> {",
        "  let url = \"http://a.b/x\";",
        "  let mut headers = HeaderMap::new();",
        "  CLIENT.get(url).headers(headers).send().await",
        "}",
    ]
    .join("\n");
    assert_eq!(r.to_rust_code(), expected);
}

#[test]
fn placeholder_in_a_skipped_header_makes_parameters() {
    let requests = parse_http_code("//@name typed\nPOST https://a.example/\nContent-Type: {{type}}\n\nHi\n");
    let r = &requests[0];
    assert!(r.is_parameterized());
    let expected = [
        "pub async fn typed(params: &HashMap<&str, &str>) -> Result<Response> {",
        "  let url = \"https://a.example/\";",
        "  let mut headers = HeaderMap::new();",
        "  let body = r#\"Hi\"#;",
        "  CLIENT.post(url).headers(headers).body(body).send().await",
        "}",
    ]
    .join("\n");
    assert_eq!(r.to_rust_code(), expected);
}

#[test]
fn post_with_literal_body() {
    let requests = parse_http_code(
        "//@name post-test\nPOST https://a.example/post\nContent-Type: application/json\n\n{\"id\":1}\n",
    );
    let expected = [
        "pub async fn post_test() -> Result<Response> {",
        "  let url = \"https://a.example/post\";",
        "  let mut headers = HeaderMap::new();",
        "  let body = r#\"{\"id\":1}\"#;",
        "  CLIENT.post(url).headers(headers).body(body).send().await",
        "}",
    ]
    .join("\n");
    assert_eq!(requests[0].to_rust_code(), expected);
}

#[test]
fn put_with_template_body() {
    let requests = parse_http_code("//@name put-it\nPUT https://a.example/put\n\n{\"id\": {{id}}}\n");
    let expected = [
        "pub async fn put_it(params: &HashMap<&str, &str>) -> Result<Response> {",
        "  let url = \"https://a.example/put\";",
        "  let mut headers = HeaderMap::new();",
        "  let body = HANDLEBARS.render(\"put_it_body\", &params).unwrap();",
        "  CLIENT.PUT(url).headers(headers).body(body).send().await",
        "}",
    ]
    .join("\n");
    assert_eq!(requests[0].to_rust_code(), expected);
}

#[test]
fn delete_without_target() {
    let mut r = HttpRequest::new(5);
    r.method = "DELETE".to_string();
    let expected = [
        "pub async fn http5() -> Result<Response> {",
        "  let mut headers = HeaderMap::new();",
        "  CLIENT.DELETE(url).headers(headers).body(body).send().await",
        "}",
    ]
    .join("\n");
    assert_eq!(r.to_rust_code(), expected);
}

#[test]
fn graphql_forces_the_content_type() {
    let requests = parse_http_code(
        "//@name graphql-demo\nGRAPHQL https://a.example/post\nContent-Type: text/plain\n\nquery {\n  ip\n}\n\n{\n  \"name\": \"{{nick}}\"\n}\n\n\n",
    );
    let r = &requests[0];
    assert_eq!(
        r.body.as_deref(),
        Some("{\"query\": \"query {\\n  ip\\n}\\n\",\"variables\": {\n  \"name\": \"{{nick}}\"\n}\n}")
    );
    let expected = [
        "pub async fn graphql_demo(params: &HashMap<&str, &str>) -> Result<Response> {",
        "  let url = \"https://a.example/post\";",
        "  let mut headers = HeaderMap::new();",
        "  headers.insert(\"Content-Type\", \"text/plain\".parse().unwrap());",
        "headers.insert(\"Content-Type\", \"application/json\".parse().unwrap());",
        "  let body = HANDLEBARS.render(\"graphql_demo_body\", &params).unwrap();",
        "  CLIENT.post(url).headers(headers).body(body).send().await",
        "}",
    ]
    .join("\n");
    assert_eq!(r.to_rust_code(), expected);
}

#[test]
fn document_for_two_requests() {
    let text = "//@name one\nGET https://a.example/1\n###\n//@name two\nPOST https://a.example/2\n\nHi {{name}}\n";
    let expected = [
        "use std::collections::HashMap;",
        "use reqwest::{Client, Response, Result};",
        "use reqwest::header::HeaderMap;",
        "use handlebars::Handlebars;",
        "",
        "lazy_static::lazy_static! {",
        "  static ref CLIENT: Client = reqwest::Client::new();",
        "  static ref HANDLEBARS: Handlebars<'static> = {",
        "    let mut reg = Handlebars::new();",
        "    reg.register_template_string(\"two_body\", r#\"Hi {{name}}\"#).unwrap();",
        "    reg",
        "    };",
        "  }",
        "",
        "pub async fn one() -> Result<Response> {",
        "  let url = \"https://a.example/1\";",
        "  let mut headers = HeaderMap::new();",
        "  CLIENT.get(url).headers(headers).send().await",
        "}",
        "",
        "pub async fn two(params: &HashMap<&str, &str>) -> Result<Response> {",
        "  let url = \"https://a.example/2\";",
        "  let mut headers = HeaderMap::new();",
        "  let body = HANDLEBARS.render(\"two_body\", &params).unwrap();",
        "  CLIENT.post(url).headers(headers).body(body).send().await",
        "}",
    ]
    .join("\n");
    assert_eq!(compile_text(text), expected);
    assert_eq!(generate(&parse_http_code(text)), expected);
    assert_eq!(try_compile_text(text), Some(expected));
}

#[test]
fn one_function_for_each_filled_block() {
    let text = "### a\nGET https://a.example/1\n### b\n# no request here\n### c\nPUT https://a.example/2\n\nx\n### d\nDELETE https://a.example/3\n### e\n";
    let requests = parse_http_code(text);
    assert_eq!(requests.len(), 3);
    for (i, r) in requests.iter().enumerate() {
        assert!(r.is_filled());
        assert_eq!(r.index as usize, i + 1);
    }
    let document = compile_text(text);
    assert_eq!(document.matches("pub async fn ").count(), 3);
}

#[test]
fn same_text_gives_same_document() {
    let text = "### a\nPOST https://{{host}}/1\nX: {{x}}\n\n{{body}}\n";
    assert_eq!(compile_text(text), compile_text(text));
}

#[test]
fn document_for_empty_text() {
    let expected = [
        "use std::collections::HashMap;",
        "use reqwest::{Client, Response, Result};",
        "use reqwest::header::HeaderMap;",
        "use handlebars::Handlebars;",
        "",
        "lazy_static::lazy_static! {",
        "  static ref CLIENT: Client = reqwest::Client::new();",
        "  static ref HANDLEBARS: Handlebars<'static> = {",
        "    let mut reg = Handlebars::new();",
        "    reg",
        "    };",
        "  }",
    ]
    .join("\n");
    assert_eq!(compile_text(""), expected);
}

#[test]
fn file_name_of_the_output() {
    assert_eq!(rust_file_name("index.http"), "index.rs");
    assert_eq!(rust_file_name("a.http.http"), "a.rs.rs");
    assert_eq!(rust_file_name("plain"), "plain");
}

#[test]
fn builder_settings() {
    let b = Builder::new("target/out");
    assert_eq!(b.httpfile_path, "index.http");
    assert_eq!(b.http_client, "reqwest");
    assert_eq!(b.target_dir(), Some("target/out"));
    let b = b.httpfile("api/demo.http").out_dir("gen");
    assert_eq!(b.httpfile_path, "api/demo.http");
    assert_eq!(b.http_client, "reqwest");
    assert_eq!(b.target_dir(), Some("gen"));
    let c = b.clone();
    assert_eq!(c.httpfile_path, "api/demo.http");
}
