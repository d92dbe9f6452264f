use luc::api::codec::{
    api_name, decode, decode_envelope, decode_headers, decode_request, decode_tree,
};
use luc::api::http_request::{
    compile_block, compile_blocks, HttpRequest, HttpRequestBuilder, HttpRequestBuilderHooks,
    HttpRequestMethod, Spec,
};
use luc::context::Context;
use luc::document::{MarkdownConfigBlock, MarkdownConfigBlockType};
use luc::errors::RequestFileError;
use luc::string_map::StringMap;
use luc::template::{render, template_name};
use luc::traits::TemplateFile;
use luc::tree::{field, parse_json, parse_yaml, Field, Tree};

const API: &str = "luc.api.http_request.HttpRequestBuilder";

fn pair(key: &str, value: &str) -> (String, String) {
    (key.to_string(), value.to_string())
}

fn text(value: &str) -> Tree {
    Tree::Text(value.to_string())
}

fn table(members: Vec<(&str, Tree)>) -> Tree {
    Tree::Table(members.into_iter().map(|(key, tree)| (key.to_string(), tree)).collect())
}

fn plain_request(method: HttpRequestMethod, url: &str) -> HttpRequestBuilder {
    HttpRequestBuilder {
        request: HttpRequest {
            method,
            url: url.to_string(),
            headers: StringMap::new(),
            body: None,
        },
        hooks: HttpRequestBuilderHooks { before: None, after: None },
    }
}

fn full_request() -> HttpRequestBuilder {
    HttpRequestBuilder {
        request: HttpRequest {
            method: HttpRequestMethod::POST,
            url: "https://example.org/items?page=2".to_string(),
            headers: StringMap::from_pairs(vec![
                pair("Content-Type", "application/json"),
                pair("X-Trace", "null"),
                pair("Accept", "*/*"),
            ]),
            body: Some("{\"name\": \"it\u{e9}m\",\n \"tags\": [1, 2]}".to_string()),
        },
        hooks: HttpRequestBuilderHooks {
            before: Some("login".to_string()),
            after: Some("~".to_string()),
        },
    }
}

fn empty_context() -> Context {
    Context::new(StringMap::new(), StringMap::new())
}

fn to_json(tree: &Tree) -> serde_json::Value {
    match tree {
        Tree::Null => serde_json::Value::Null,
        Tree::Bool(flag) => serde_json::Value::Bool(*flag),
        Tree::Number(digits) => serde_json::Value::Number(digits.parse().unwrap()),
        Tree::Text(text) => serde_json::Value::String(text.clone()),
        Tree::List(items) => serde_json::Value::Array(items.iter().map(to_json).collect()),
        Tree::Table(members) => serde_json::Value::Object(
            members.iter().map(|(key, member)| (key.clone(), to_json(member))).collect(),
        ),
    }
}

#[test]
fn document_with_one_yaml_block_compiles_to_one_builder() {
    let document = "# Get x\n\n```yaml luc\napi: luc.api.http_request.HttpRequestBuilder\nspec:\n  request:\n    method: GET\n    url: \"http://x/\"\n    headers: {}\n    body: null\n  hooks:\n    before: null\n    after: null\n```\n";
    let builders =
        HttpRequestBuilder::from_template("requests.md", Some(document), &empty_context()).unwrap();
    assert_eq!(builders.len(), 1);
    assert_eq!(builders[0].request.method, HttpRequestMethod::GET);
    assert_eq!(builders[0].request.url, "http://x/");
    assert_eq!(builders, vec![plain_request(HttpRequestMethod::GET, "http://x/")]);
}

#[test]
fn document_with_n_blocks_compiles_to_n_builders_in_order() {
    let document = "```json luc\n{\"api\": \"luc.api.http_request.HttpRequestBuilder\", \"spec\": {\"request\": {\"method\": \"PUT\", \"url\": \"http://a/\", \"headers\": {}}, \"hooks\": {}}}\n```\n\nSome prose.\n\n```yaml luc\napi: luc.api.http_request.HttpRequestBuilder\nspec:\n  request: {method: DELETE, url: \"http://b/\", headers: {}}\n  hooks: {}\n```\n\n```yaml\nnot: a request\n```\n\n```json luc\n{\"api\": \"luc.api.http_request.HttpRequestBuilder\", \"spec\": {\"request\": {\"method\": \"HEAD\", \"url\": \"http://c/\", \"headers\": {}}, \"hooks\": {}}}\n```\n";
    let builders =
        HttpRequestBuilder::from_template("requests.md", Some(document), &empty_context());
    assert_eq!(
        builders,
        Ok(vec![
            plain_request(HttpRequestMethod::PUT, "http://a/"),
            plain_request(HttpRequestMethod::DELETE, "http://b/"),
            plain_request(HttpRequestMethod::HEAD, "http://c/"),
        ])
    );
}

#[test]
fn document_without_marked_blocks_compiles_to_no_builders() {
    let document = "Just text.\n\n```json\n{}\n```\n";
    assert_eq!(
        HttpRequestBuilder::from_template("requests.md", Some(document), &empty_context()),
        Ok(vec![])
    );
}

#[test]
fn unreadable_file_does_not_exist() {
    assert_eq!(
        HttpRequestBuilder::from_template("missing.md", None, &empty_context()),
        Err(RequestFileError::DoesNotExist)
    );
}

#[test]
fn document_with_zero_blocks_is_an_empty_file() {
    assert_eq!(
        HttpRequestBuilder::from_template("empty.md", Some(""), &empty_context()),
        Err(RequestFileError::EmptyFile)
    );
}

#[test]
fn document_with_unsupported_block_is_refused() {
    let document = "```yaml luc\napi: luc.api.http_request.HttpRequestBuilder\nspec: {request: {method: GET, url: u, headers: {}}, hooks: {}}\n```\n\n```ini luc\na=1\n```\n";
    assert_eq!(
        HttpRequestBuilder::from_template("requests.md", Some(document), &empty_context()),
        Err(RequestFileError::UnsupportedBlockType)
    );
}

#[test]
fn document_with_other_api_is_refused_for_its_api() {
    let document = "```yaml luc\napi: luc.api.http_request.HttpRequest\nspec: {request: {method: GET, url: u, headers: {}}, hooks: {}}\n```\n";
    assert_eq!(
        HttpRequestBuilder::from_template("requests.md", Some(document), &empty_context()),
        Err(RequestFileError::InvalidBlockApi)
    );
}

#[test]
fn first_failing_block_decides_the_error() {
    let document = "```json luc\n{\"api\": \"luc.api.http_request.HttpRequestBuilder\", \"spec\": {\"request\": {\"method\": \"GET\", \"url\": \"u\", \"headers\": {}}, \"hooks\": {}}}\n```\n\n```json luc\n{not json\n```\n\n```yaml luc\napi: other\nspec: {request: {method: GET, url: u, headers: {}}, hooks: {}}\n```\n";
    assert_eq!(
        HttpRequestBuilder::from_template("requests.md", Some(document), &empty_context()),
        Err(RequestFileError::InvalidBlockSpec)
    );
}

#[test]
fn template_is_rendered_against_the_context() {
    let ctx = Context::new(
        StringMap::from_pairs(vec![pair("HOST", "example.org"), pair("PORT", "8080")]),
        StringMap::from_pairs(vec![pair("TOKEN", "s3cr3t")]),
    );
    let document = "```yaml luc\napi: luc.api.http_request.HttpRequestBuilder\nspec:\n  request:\n    method: POST\n    url: \"http://{{ env.HOST }}:{{ env.PORT }}/login\"\n    headers:\n      Authorization: \"Bearer {{ secrets.TOKEN }}\"\n    body: \"{{ env.PORT | length }}\"\n  hooks: {}\n```\n";
    let builders = HttpRequestBuilder::from_template("requests.md", Some(document), &ctx).unwrap();
    assert_eq!(builders.len(), 1);
    assert_eq!(builders[0].request.url, "http://example.org:8080/login");
    assert_eq!(
        builders[0].request.headers.get("Authorization"),
        Some(&"Bearer s3cr3t".to_string())
    );
    assert_eq!(builders[0].request.body, Some("4".to_string()));
}

#[test]
fn template_with_syntax_error_is_a_template_error() {
    let document = "```yaml luc\napi: \"{{ env.HOST \"\n```\n";
    assert_eq!(
        HttpRequestBuilder::from_template("requests.md", Some(document), &empty_context()),
        Err(RequestFileError::TemplateError)
    );
}

#[test]
fn template_error_in_a_later_block_comes_after_earlier_errors() {
    let document = "```yaml luc\napi: nope\nspec: {request: {method: GET, url: u, headers: {}}, hooks: {}}\n```\n\n```yaml luc\n{% if %}\n```\n";
    assert_eq!(
        HttpRequestBuilder::from_template("requests.md", Some(document), &empty_context()),
        Err(RequestFileError::InvalidBlockApi)
    );
}

#[test]
fn render_substitutes_and_reports_failure() {
    let ctx = Context::new(StringMap::from_pairs(vec![pair("NAME", "world")]), StringMap::new());
    assert_eq!(render("t.0", "hello {{ env.NAME }}!", &ctx), Ok("hello world!".to_string()));
    assert_eq!(render("t.0", "no templates here", &ctx), Ok("no templates here".to_string()));
    assert_eq!(render("t.0", "{% for %}", &ctx), Err(RequestFileError::TemplateError));
    assert_eq!(render("t.0", "{{ env.NAME.x.y }}", &ctx), Err(RequestFileError::TemplateError));
}

#[test]
fn render_lets_the_last_value_of_a_variable_count() {
    let ctx = Context::from_environment(vec![pair("A", "first"), pair("B", "b"), pair("A", "last")]);
    assert_eq!(render("t.0", "{{ env.A }}-{{ env.B }}", &ctx), Ok("last-b".to_string()));
}

#[test]
fn render_does_not_escape_by_file_extension() {
    let ctx = Context::new(StringMap::from_pairs(vec![pair("V", "<a&b>\"")]), StringMap::new());
    let name = template_name("page.html", 0);
    assert_eq!(render(&name, "{{ env.V }}", &ctx), Ok("<a&b>\"".to_string()));
}

#[test]
fn template_name_joins_path_and_index() {
    assert_eq!(template_name("requests.md", 0), "requests.md.0");
    assert_eq!(template_name("dir/file.md", 12), "dir/file.md.12");
    assert_eq!(template_name("", 305), ".305");
}

#[test]
fn compile_block_renders_under_the_name_of_the_block() {
    let block = MarkdownConfigBlock {
        kind: MarkdownConfigBlockType::Json,
        text: "{\"api\": \"luc.api.http_request.HttpRequestBuilder\", \"spec\": {\"request\": {\"method\": \"OPTIONS\", \"url\": \"{{ env.U }}\", \"headers\": {}}, \"hooks\": {}}}".to_string(),
    };
    let ctx = Context::new(StringMap::from_pairs(vec![pair("U", "http://u/")]), StringMap::new());
    assert_eq!(
        compile_block("f.md", 3, &block, &ctx),
        Ok(plain_request(HttpRequestMethod::OPTIONS, "http://u/"))
    );
}

#[test]
fn compile_blocks_of_no_blocks_is_no_builders() {
    assert_eq!(compile_blocks("f.md", &vec![], &empty_context()), Ok(vec![]));
}

#[test]
fn decode_json_envelope() {
    let json = "{\"api\": \"luc.api.http_request.HttpRequestBuilder\", \"spec\": {\"request\": {\"method\": \"CONNECT\", \"url\": \"http://x/\", \"headers\": {\"A\": \"1\", \"B\": \"2\"}, \"body\": \"payload\"}, \"hooks\": {\"before\": \"b\", \"after\": null}}}";
    let builder = decode(json, MarkdownConfigBlockType::Json).unwrap();
    assert_eq!(builder.request.method, HttpRequestMethod::CONNECT);
    assert_eq!(builder.request.url, "http://x/");
    assert_eq!(builder.request.headers.get("A"), Some(&"1".to_string()));
    assert_eq!(builder.request.headers.get("B"), Some(&"2".to_string()));
    assert_eq!(builder.request.headers.len(), 2);
    assert_eq!(builder.request.body, Some("payload".to_string()));
    assert_eq!(builder.hooks.before, Some("b".to_string()));
    assert_eq!(builder.hooks.after, None);
}

#[test]
fn decode_yaml_envelope() {
    let yaml = "api: luc.api.http_request.HttpRequestBuilder\nspec:\n  request:\n    method: POST\n    url: http://x/\n    headers:\n      Accept: text/plain\n    body: |\n      line one\n      line two\n  hooks:\n    after: cleanup\n";
    let builder = decode(yaml, MarkdownConfigBlockType::Yaml).unwrap();
    assert_eq!(builder.request.method, HttpRequestMethod::POST);
    assert_eq!(builder.request.url, "http://x/");
    assert_eq!(builder.request.headers.entries(), &vec![pair("Accept", "text/plain")]);
    assert_eq!(builder.request.body, Some("line one\nline two\n".to_string()));
    assert_eq!(builder.hooks.before, None);
    assert_eq!(builder.hooks.after, Some("cleanup".to_string()));
}

#[test]
fn decode_goes_by_the_declared_encoding() {
    let yaml = "api: luc.api.http_request.HttpRequestBuilder\nspec: {request: {method: GET, url: u, headers: {}}, hooks: {}}\n";
    assert_eq!(
        decode(yaml, MarkdownConfigBlockType::Yaml),
        Ok(plain_request(HttpRequestMethod::GET, "u"))
    );
    assert_eq!(decode(yaml, MarkdownConfigBlockType::Json), Err(RequestFileError::InvalidBlockSpec));
}

#[test]
fn decode_refuses_text_that_does_not_parse() {
    assert_eq!(decode("{", MarkdownConfigBlockType::Json), Err(RequestFileError::InvalidBlockSpec));
    assert_eq!(decode("a: [", MarkdownConfigBlockType::Yaml), Err(RequestFileError::InvalidBlockSpec));
    assert_eq!(decode("", MarkdownConfigBlockType::Json), Err(RequestFileError::InvalidBlockSpec));
    assert_eq!(decode("", MarkdownConfigBlockType::Yaml), Err(RequestFileError::InvalidBlockSpec));
}

#[test]
fn decode_checks_the_api_exactly() {
    let with_api = |api: &str| {
        format!(
            "{{\"api\": \"{}\", \"spec\": {{\"request\": {{\"method\": \"GET\", \"url\": \"u\", \"headers\": {{}}}}, \"hooks\": {{}}}}}}",
            api
        )
    };
    assert_eq!(
        decode(&with_api(API), MarkdownConfigBlockType::Json),
        Ok(plain_request(HttpRequestMethod::GET, "u"))
    );
    assert_eq!(
        decode(&with_api("LUC.API.HTTP_REQUEST.HTTPREQUESTBUILDER"), MarkdownConfigBlockType::Json),
        Err(RequestFileError::InvalidBlockApi)
    );
    assert_eq!(
        decode(&with_api("luc.api.http_request.HttpRequestBuilder "), MarkdownConfigBlockType::Json),
        Err(RequestFileError::InvalidBlockApi)
    );
    assert_eq!(
        decode(&with_api(""), MarkdownConfigBlockType::Json),
        Err(RequestFileError::InvalidBlockApi)
    );
}

#[test]
fn malformed_payload_wins_over_other_api() {
    let json = "{\"api\": \"other\", \"spec\": {\"request\": {\"method\": \"GET\"}, \"hooks\": {}}}";
    assert_eq!(decode(json, MarkdownConfigBlockType::Json), Err(RequestFileError::InvalidBlockSpec));
}

#[test]
fn api_name_is_the_schema_name() {
    assert_eq!(api_name(), API);
}

#[test]
fn decode_tree_requires_the_fields_of_a_request() {
    let request = |members: Vec<(&str, Tree)>| {
        table(vec![
            ("api", text(API)),
            ("spec", table(vec![("request", table(members)), ("hooks", table(vec![]))])),
        ])
    };
    let complete = vec![("method", text("GET")), ("url", text("u")), ("headers", table(vec![]))];
    assert_eq!(decode_tree(&request(complete)), Ok(plain_request(HttpRequestMethod::GET, "u")));
    let no_method = vec![("url", text("u")), ("headers", table(vec![]))];
    assert_eq!(decode_tree(&request(no_method)), Err(RequestFileError::InvalidBlockSpec));
    let no_url = vec![("method", text("GET")), ("headers", table(vec![]))];
    assert_eq!(decode_tree(&request(no_url)), Err(RequestFileError::InvalidBlockSpec));
    let no_headers = vec![("method", text("GET")), ("url", text("u"))];
    assert_eq!(decode_tree(&request(no_headers)), Err(RequestFileError::InvalidBlockSpec));
    let bad_method = vec![("method", text("get")), ("url", text("u")), ("headers", table(vec![]))];
    assert_eq!(decode_tree(&request(bad_method)), Err(RequestFileError::InvalidBlockSpec));
    let patch = vec![("method", text("PATCH")), ("url", text("u")), ("headers", table(vec![]))];
    assert_eq!(decode_tree(&request(patch)), Err(RequestFileError::InvalidBlockSpec));
    let number_url = vec![
        ("method", text("GET")),
        ("url", Tree::Number("1".to_string())),
        ("headers", table(vec![])),
    ];
    assert_eq!(decode_tree(&request(number_url)), Err(RequestFileError::InvalidBlockSpec));
    let two_urls = vec![
        ("method", text("GET")),
        ("url", text("u")),
        ("headers", table(vec![])),
        ("url", text("v")),
    ];
    assert_eq!(decode_tree(&request(two_urls)), Err(RequestFileError::InvalidBlockSpec));
    let list_body = vec![
        ("method", text("GET")),
        ("url", text("u")),
        ("headers", table(vec![])),
        ("body", Tree::List(vec![])),
    ];
    assert_eq!(decode_tree(&request(list_body)), Err(RequestFileError::InvalidBlockSpec));
}

#[test]
fn decode_tree_passes_over_unknown_members() {
    let tree = table(vec![
        ("comment", Tree::List(vec![Tree::Bool(true)])),
        ("api", text(API)),
        (
            "spec",
            table(vec![
                ("hooks", table(vec![("during", Tree::Number("3".to_string()))])),
                (
                    "request",
                    table(vec![
                        ("url", text("u")),
                        ("timeout", Tree::Number("30".to_string())),
                        ("headers", table(vec![])),
                        ("method", text("PUT")),
                    ]),
                ),
                ("extra", Tree::Null),
            ]),
        ),
        ("comment", Tree::Null),
    ]);
    assert_eq!(decode_tree(&tree), Ok(plain_request(HttpRequestMethod::PUT, "u")));
}

#[test]
fn decode_tree_refuses_what_is_no_envelope() {
    assert_eq!(decode_tree(&Tree::Null), Err(RequestFileError::InvalidBlockSpec));
    assert_eq!(decode_tree(&text(API)), Err(RequestFileError::InvalidBlockSpec));
    assert_eq!(decode_tree(&Tree::List(vec![])), Err(RequestFileError::InvalidBlockSpec));
    assert_eq!(decode_tree(&table(vec![])), Err(RequestFileError::InvalidBlockSpec));
    assert_eq!(decode_tree(&table(vec![("api", text(API))])), Err(RequestFileError::InvalidBlockSpec));
    assert_eq!(
        decode_tree(&table(vec![("api", text(API)), ("spec", Tree::Null)])),
        Err(RequestFileError::InvalidBlockSpec)
    );
    assert_eq!(
        decode_tree(&table(vec![
            ("api", Tree::Null),
            ("spec", plain_request(HttpRequestMethod::GET, "u").to_tree()),
        ])),
        Err(RequestFileError::InvalidBlockSpec)
    );
}

#[test]
fn decode_headers_wants_distinct_names_and_string_values() {
    assert_eq!(decode_headers(&table(vec![])), Some(StringMap::new()));
    assert_eq!(
        decode_headers(&table(vec![("A", text("1")), ("B", text("2"))])),
        Some(StringMap::from_pairs(vec![pair("A", "1"), pair("B", "2")]))
    );
    assert_eq!(decode_headers(&table(vec![("A", text("1")), ("A", text("1"))])), None);
    assert_eq!(decode_headers(&table(vec![("A", text("1")), ("B", Tree::Null)])), None);
    assert_eq!(decode_headers(&table(vec![("A", Tree::Number("1".to_string()))])), None);
    assert_eq!(decode_headers(&Tree::Null), None);
    assert_eq!(decode_headers(&Tree::List(vec![])), None);
}

#[test]
fn decode_request_reads_an_optional_body() {
    let with_body = |body: Option<Tree>| {
        let mut members =
            vec![("method", text("GET")), ("url", text("u")), ("headers", table(vec![]))];
        if let Some(body) = body {
            members.push(("body", body));
        }
        decode_request(&table(members)).map(|request| request.body)
    };
    assert_eq!(with_body(None), Some(None));
    assert_eq!(with_body(Some(Tree::Null)), Some(None));
    assert_eq!(with_body(Some(text(""))), Some(Some("".to_string())));
    assert_eq!(with_body(Some(text("b"))), Some(Some("b".to_string())));
    assert_eq!(with_body(Some(Tree::Bool(false))), None);
}

#[test]
fn decode_envelope_keeps_the_api_as_written() {
    let tree = table(vec![
        ("api", text("something.else")),
        ("spec", plain_request(HttpRequestMethod::GET, "u").to_tree()),
    ]);
    let envelope = decode_envelope(&tree).unwrap();
    assert_eq!(envelope.api, "something.else");
    assert_eq!(envelope.spec, plain_request(HttpRequestMethod::GET, "u"));
    assert_eq!(envelope.validate(), Err(RequestFileError::InvalidBlockApi));
    let right = Spec { api: API.to_string(), spec: plain_request(HttpRequestMethod::GET, "u") };
    assert_eq!(right.validate(), Ok(plain_request(HttpRequestMethod::GET, "u")));
}

#[test]
fn method_names_name_their_methods() {
    let methods = [
        (HttpRequestMethod::CONNECT, "CONNECT"),
        (HttpRequestMethod::DELETE, "DELETE"),
        (HttpRequestMethod::GET, "GET"),
        (HttpRequestMethod::HEAD, "HEAD"),
        (HttpRequestMethod::OPTIONS, "OPTIONS"),
        (HttpRequestMethod::POST, "POST"),
        (HttpRequestMethod::PUT, "PUT"),
    ];
    for (method, name) in methods {
        assert_eq!(method.name(), name);
        assert_eq!(HttpRequestMethod::from_name(&name.to_string()), Some(method));
    }
    assert_eq!(HttpRequestMethod::from_name(&"PATCH".to_string()), None);
    assert_eq!(HttpRequestMethod::from_name(&"Get".to_string()), None);
    assert_eq!(HttpRequestMethod::from_name(&"".to_string()), None);
}

#[test]
fn to_spec_tree_states_every_field() {
    let tree = plain_request(HttpRequestMethod::GET, "http://x/").to_spec_tree();
    assert_eq!(
        tree,
        table(vec![
            ("api", text(API)),
            (
                "spec",
                table(vec![
                    (
                        "request",
                        table(vec![
                            ("method", text("GET")),
                            ("url", text("http://x/")),
                            ("headers", table(vec![])),
                            ("body", Tree::Null),
                        ]),
                    ),
                    ("hooks", table(vec![("before", Tree::Null), ("after", Tree::Null)])),
                ]),
            ),
        ])
    );
}

#[test]
fn builder_decodes_back_from_its_tree() {
    assert_eq!(decode_tree(&full_request().to_spec_tree()), Ok(full_request()));
    assert_eq!(
        decode_tree(&plain_request(HttpRequestMethod::HEAD, "").to_spec_tree()),
        Ok(plain_request(HttpRequestMethod::HEAD, ""))
    );
}

#[test]
fn builder_round_trips_through_json_and_yaml() {
    for builder in [full_request(), plain_request(HttpRequestMethod::DELETE, "http://x/y")] {
        let value = to_json(&builder.to_spec_tree());
        let json = serde_json::to_string(&value).unwrap();
        let yaml = serde_yaml::to_string(&value).unwrap();
        let from_json = decode(&json, MarkdownConfigBlockType::Json).unwrap();
        let from_yaml = decode(&yaml, MarkdownConfigBlockType::Yaml).unwrap();
        assert_eq!(from_json.request.method, builder.request.method);
        assert_eq!(from_json.request.url, builder.request.url);
        assert_eq!(from_json.request.body, builder.request.body);
        assert_eq!(from_json.hooks, builder.hooks);
        assert_eq!(from_json.request.headers.len(), builder.request.headers.len());
        for (name, value) in builder.request.headers.entries() {
            assert_eq!(from_json.request.headers.get(name), Some(value));
        }
        assert_eq!(from_yaml, from_json);
    }
}

#[test]
fn parse_json_gives_the_tree_of_the_text() {
    assert_eq!(parse_json("null"), Some(Tree::Null));
    assert_eq!(parse_json("true"), Some(Tree::Bool(true)));
    assert_eq!(parse_json("-12"), Some(Tree::Number("-12".to_string())));
    assert_eq!(parse_json("\"a\\nb\""), Some(text("a\nb")));
    assert_eq!(
        parse_json("[1, \"two\", [], {}]"),
        Some(Tree::List(vec![
            Tree::Number("1".to_string()),
            text("two"),
            Tree::List(vec![]),
            table(vec![]),
        ]))
    );
    assert_eq!(
        parse_json("{\"a\": {\"b\": null}, \"c\": false}"),
        Some(table(vec![("a", table(vec![("b", Tree::Null)])), ("c", Tree::Bool(false))]))
    );
    assert_eq!(parse_json("{\"a\": }"), None);
    assert_eq!(parse_json("{} {}"), None);
    assert_eq!(parse_json("a: 1"), None);
}

#[test]
fn parse_yaml_gives_the_tree_of_the_text() {
    assert_eq!(parse_yaml("~"), Some(Tree::Null));
    assert_eq!(parse_yaml("yes: true"), Some(table(vec![("yes", Tree::Bool(true))])));
    assert_eq!(parse_yaml("- 1\n- \"1\"\n- one\n"), Some(Tree::List(vec![
        Tree::Number("1".to_string()),
        text("1"),
        text("one"),
    ])));
    assert_eq!(
        parse_yaml("a:\n  b: ~\nc: [x, y]\n"),
        Some(table(vec![
            ("a", table(vec![("b", Tree::Null)])),
            ("c", Tree::List(vec![text("x"), text("y")])),
        ]))
    );
    assert_eq!(parse_yaml("{\"json\": \"is yaml\"}"), Some(table(vec![("json", text("is yaml"))])));
    assert_eq!(parse_yaml("a: [1, 2"), None);
    assert_eq!(parse_yaml("a: b: c"), None);
}

#[test]
fn field_finds_unique_missing_and_repeated_keys() {
    let members = vec![
        ("a".to_string(), Tree::Null),
        ("b".to_string(), text("x")),
        ("a".to_string(), Tree::Bool(true)),
    ];
    assert_eq!(field(&members, "b"), Field::Unique(&text("x")));
    assert_eq!(field(&members, "a"), Field::Repeated);
    assert_eq!(field(&members, "c"), Field::Missing);
    assert_eq!(field(&vec![], "a"), Field::Missing);
}

#[test]
fn tree_accessors_tell_strings_and_tables_apart() {
    assert_eq!(text("x").as_text(), Some(&"x".to_string()));
    assert_eq!(Tree::Null.as_text(), None);
    assert_eq!(table(vec![]).as_text(), None);
    assert_eq!(table(vec![("a", Tree::Null)]).as_table(), Some(&vec![("a".to_string(), Tree::Null)]));
    assert_eq!(text("x").as_table(), None);
    assert_eq!(Tree::List(vec![]).as_table(), None);
}

#[test]
fn parsers_keep_the_last_member_of_a_repeated_key() {
    assert_eq!(
        parse_json("{\"a\": 1, \"b\": 0, \"a\": 2}"),
        Some(table(vec![("a", Tree::Number("2".to_string())), ("b", Tree::Number("0".to_string()))]))
    );
    assert_eq!(
        parse_yaml("a: 1\nb: 0\na: 2\n"),
        Some(table(vec![("a", Tree::Number("2".to_string())), ("b", Tree::Number("0".to_string()))]))
    );
}
