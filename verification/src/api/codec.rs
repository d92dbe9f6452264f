//! Request builders as structured documents: how a request specification is read off
//! the document that a rendered block denotes, and how it is written as one.

use vstd::prelude::*;

use crate::api::http_request::{
    HttpRequest, HttpRequestBuilder, HttpRequestBuilderHooks, HttpRequestBuilderHooksView,
    HttpRequestBuilderView, HttpRequestMethod, HttpRequestView, Spec, SpecView,
};
use crate::document::MarkdownConfigBlockType;
use crate::errors::{result_view, RequestFileError};
use crate::string_map::{distinct_keys, index_of_key, Entries, StringMap};
use crate::text::is_word;
use crate::tree::{
    field, json_document, lemma_field_unique, lemma_table_view, parse_json, parse_yaml, spec_field,
    yaml_document, Field, Members, Tree, TreeView,
};

verus! {

/// The string under a key that must be there.
pub open spec fn spec_required_text(found: Field<TreeView>) -> Option<Seq<char>> {
    match found {
        Field::Unique(TreeView::Text(text)) => Some(text),
        _ => None,
    }
}

/// The string under a key that may be left out or be null; `None` where the key holds
/// anything else or is repeated.
pub open spec fn spec_optional_text(found: Field<TreeView>) -> Option<Option<Seq<char>>> {
    match found {
        Field::Missing => Some(None),
        Field::Unique(TreeView::Null) => Some(None),
        Field::Unique(TreeView::Text(text)) => Some(Some(text)),
        _ => None,
    }
}

/// The members of a table of headers as pairs of strings; meaningful where every member
/// is a string.
pub open spec fn header_pairs(members: Members) -> Entries {
    members.map_values(
        |member: (Seq<char>, TreeView)|
            (
                member.0,
                match member.1 {
                    TreeView::Text(text) => text,
                    _ => Seq::empty(),
                },
            ),
    )
}

/// The headers that a document states: a table in which every member is a string and no
/// key occurs twice.
pub open spec fn spec_decode_headers(tree: TreeView) -> Option<Entries> {
    match tree {
        TreeView::Table(members) => if (forall|i: int|
            0 <= i < members.len() ==> (#[trigger] members[i]).1 is Text) && distinct_keys(
            header_pairs(members),
        ) {
            Some(header_pairs(members))
        } else {
            None
        },
        _ => None,
    }
}

/// The request that a document states: a table with a `method` that names a method, a
/// `url`, `headers`, and possibly a `body`. Other members are passed over.
pub open spec fn spec_decode_request(tree: TreeView) -> Option<HttpRequestView> {
    match tree {
        TreeView::Table(members) => {
            let method = match spec_required_text(spec_field(members, "method"@)) {
                Some(name) => HttpRequestMethod::spec_from_name(name),
                None => None,
            };
            let url = spec_required_text(spec_field(members, "url"@));
            let headers = match spec_field(members, "headers"@) {
                Field::Unique(table) => spec_decode_headers(table),
                _ => None,
            };
            let body = spec_optional_text(spec_field(members, "body"@));
            if method is Some && url is Some && headers is Some && body is Some {
                Some(
                    HttpRequestView {
                        method: method->0,
                        url: url->0,
                        headers: headers->0,
                        body: body->0,
                    },
                )
            } else {
                None
            }
        },
        _ => None,
    }
}

/// The hooks that a document states: a table with possibly a `before` and an `after`.
pub open spec fn spec_decode_hooks(tree: TreeView) -> Option<HttpRequestBuilderHooksView> {
    match tree {
        TreeView::Table(members) => {
            let before = spec_optional_text(spec_field(members, "before"@));
            let after = spec_optional_text(spec_field(members, "after"@));
            if before is Some && after is Some {
                Some(HttpRequestBuilderHooksView { before: before->0, after: after->0 })
            } else {
                None
            }
        },
        _ => None,
    }
}

/// The request builder that a document states: a table with a `request` and `hooks`.
pub open spec fn spec_decode_builder(tree: TreeView) -> Option<HttpRequestBuilderView> {
    match tree {
        TreeView::Table(members) => {
            let request = match spec_field(members, "request"@) {
                Field::Unique(table) => spec_decode_request(table),
                _ => None,
            };
            let hooks = match spec_field(members, "hooks"@) {
                Field::Unique(table) => spec_decode_hooks(table),
                _ => None,
            };
            if request is Some && hooks is Some {
                Some(HttpRequestBuilderView { request: request->0, hooks: hooks->0 })
            } else {
                None
            }
        },
        _ => None,
    }
}

/// The envelope that a document states: a table with an `api` and, as `spec`, a request
/// builder.
pub open spec fn spec_decode_envelope(tree: TreeView) -> Option<SpecView<HttpRequestBuilderView>> {
    match tree {
        TreeView::Table(members) => {
            let api = spec_required_text(spec_field(members, "api"@));
            let payload = match spec_field(members, "spec"@) {
                Field::Unique(table) => spec_decode_builder(table),
                _ => None,
            };
            if api is Some && payload is Some {
                Some(SpecView { api: api->0, spec: payload->0 })
            } else {
                None
            }
        },
        _ => None,
    }
}

/// The name of the request builder schema.
pub open spec fn spec_api_name() -> Seq<char> {
    "luc.api.http_request.HttpRequestBuilder"@
}

/// The payload of an envelope whose `api` is exactly the name of the request builder
/// schema.
pub open spec fn spec_validate(envelope: SpecView<HttpRequestBuilderView>) -> Result<
    HttpRequestBuilderView,
    RequestFileError,
> {
    if envelope.api == spec_api_name() {
        Ok(envelope.spec)
    } else {
        Err(RequestFileError::InvalidBlockApi)
    }
}

/// What decoding a document gives: a document that is no envelope of a request builder
/// is an invalid specification; an envelope under another name is refused for its name.
pub open spec fn spec_decode(tree: TreeView) -> Result<HttpRequestBuilderView, RequestFileError> {
    match spec_decode_envelope(tree) {
        None => Err(RequestFileError::InvalidBlockSpec),
        Some(envelope) => spec_validate(envelope),
    }
}

fn required_text(found: Field<&Tree>) -> (text: Option<String>)
    ensures
        text.deep_view() == spec_required_text(found.deep_view()),
{
    match found {
        Field::Unique(Tree::Text(text)) => Some(text.clone()),
        _ => None,
    }
}

fn optional_text(found: Field<&Tree>) -> (text: Option<Option<String>>)
    ensures
        text.deep_view() == spec_optional_text(found.deep_view()),
{
    match found {
        Field::Missing => Some(None),
        Field::Unique(Tree::Null) => Some(None),
        Field::Unique(Tree::Text(text)) => Some(Some(text.clone())),
        _ => None,
    }
}

/// Reads the headers of a request off a document.
pub fn decode_headers(tree: &Tree) -> (headers: Option<StringMap>)
    ensures
        headers.deep_view() == spec_decode_headers(tree@),
{
    let members = match tree.as_table() {
        Some(members) => members,
        None => {
            return None;
        },
    };
    let ghost all = members.deep_view();
    let mut headers = StringMap::new();
    let mut i: usize = 0;
    while i < members.len()
        invariant
            0 <= i <= members.len(),
            all == members.deep_view(),
            tree@ == TreeView::Table(all),
            headers@ == header_pairs(all).take(i as int),
            distinct_keys(headers@),
            forall|j: int| 0 <= j < i ==> (#[trigger] all[j]).1 is Text,
        decreases members.len() - i,
    {
        let member = &members[i];
        assert(all[i as int] == member.deep_view());
        let value = match member.1.as_text() {
            Some(value) => value,
            None => {
                assert(!(all[i as int].1 is Text));
                return None;
            },
        };
        if headers.get(member.0.as_str()).is_some() {
            proof {
                let j = index_of_key(headers@, member.0@);
                assert(header_pairs(all)[j].0 == header_pairs(all)[i as int].0);
            }
            return None;
        }
        headers.insert(member.0.clone(), value.clone());
        assert(headers@ == header_pairs(all).take(i + 1));
        i += 1;
    }
    assert(header_pairs(all).take(i as int) == header_pairs(all));
    Some(headers)
}

/// Reads a request off a document.
pub fn decode_request(tree: &Tree) -> (request: Option<HttpRequest>)
    ensures
        request.deep_view() == spec_decode_request(tree@),
{
    let members = match tree.as_table() {
        Some(members) => members,
        None => {
            return None;
        },
    };
    let method = match required_text(field(members, "method")) {
        Some(name) => HttpRequestMethod::from_name(&name),
        None => None,
    };
    let url = required_text(field(members, "url"));
    let headers = match field(members, "headers") {
        Field::Unique(table) => decode_headers(table),
        _ => None,
    };
    let body = optional_text(field(members, "body"));
    match (method, url, headers, body) {
        (Some(method), Some(url), Some(headers), Some(body)) => Some(
            HttpRequest { method, url, headers, body },
        ),
        _ => None,
    }
}

/// Reads the hooks of a request builder off a document.
pub fn decode_hooks(tree: &Tree) -> (hooks: Option<HttpRequestBuilderHooks>)
    ensures
        hooks.deep_view() == spec_decode_hooks(tree@),
{
    let members = match tree.as_table() {
        Some(members) => members,
        None => {
            return None;
        },
    };
    let before = optional_text(field(members, "before"));
    let after = optional_text(field(members, "after"));
    match (before, after) {
        (Some(before), Some(after)) => Some(HttpRequestBuilderHooks { before, after }),
        _ => None,
    }
}

/// Reads a request builder off a document.
pub fn decode_builder(tree: &Tree) -> (builder: Option<HttpRequestBuilder>)
    ensures
        builder.deep_view() == spec_decode_builder(tree@),
{
    let members = match tree.as_table() {
        Some(members) => members,
        None => {
            return None;
        },
    };
    let request = match field(members, "request") {
        Field::Unique(table) => decode_request(table),
        _ => None,
    };
    let hooks = match field(members, "hooks") {
        Field::Unique(table) => decode_hooks(table),
        _ => None,
    };
    match (request, hooks) {
        (Some(request), Some(hooks)) => Some(HttpRequestBuilder { request, hooks }),
        _ => None,
    }
}

/// Reads the envelope of a request builder off a document.
pub fn decode_envelope(tree: &Tree) -> (envelope: Option<Spec<HttpRequestBuilder>>)
    ensures
        envelope.deep_view() == spec_decode_envelope(tree@),
{
    let members = match tree.as_table() {
        Some(members) => members,
        None => {
            return None;
        },
    };
    let api = required_text(field(members, "api"));
    let payload = match field(members, "spec") {
        Field::Unique(table) => decode_builder(table),
        _ => None,
    };
    match (api, payload) {
        (Some(api), Some(payload)) => Some(Spec { api, spec: payload }),
        _ => None,
    }
}

/// The name of the request builder schema.
pub fn api_name() -> (name: &'static str)
    ensures
        name@ == spec_api_name(),
{
    "luc.api.http_request.HttpRequestBuilder"
}

impl Spec<HttpRequestBuilder> {
    /// Hands out the request builder if the envelope names the request builder schema.
    pub fn validate(self) -> (builder: Result<HttpRequestBuilder, RequestFileError>)
        ensures
            result_view(builder) == spec_validate(self@),
    {
        if is_word(&self.api, api_name()) {
            Ok(self.spec)
        } else {
            Err(RequestFileError::InvalidBlockApi)
        }
    }
}

/// Decodes a document into the request builder that it specifies.
pub fn decode_tree(tree: &Tree) -> (builder: Result<HttpRequestBuilder, RequestFileError>)
    ensures
        result_view(builder) == spec_decode(tree@),
{
    match decode_envelope(tree) {
        None => Err(RequestFileError::InvalidBlockSpec),
        Some(envelope) => envelope.validate(),
    }
}

/// The document that a rendered block denotes in the encoding of the block.
pub open spec fn spec_parse(kind: MarkdownConfigBlockType, text: Seq<char>) -> Option<TreeView> {
    match kind {
        MarkdownConfigBlockType::Yaml => yaml_document(text),
        MarkdownConfigBlockType::Json => json_document(text),
    }
}

/// What decoding a rendered block gives: a text that does not parse is an invalid
/// specification, and so is one that parses to something else than an envelope.
pub open spec fn spec_decode_text(kind: MarkdownConfigBlockType, text: Seq<char>) -> Result<
    HttpRequestBuilderView,
    RequestFileError,
> {
    match spec_parse(kind, text) {
        None => Err(RequestFileError::InvalidBlockSpec),
        Some(tree) => spec_decode(tree),
    }
}

/// Decodes a rendered block in the given encoding.
pub fn decode(text: &str, kind: MarkdownConfigBlockType) -> (builder: Result<
    HttpRequestBuilder,
    RequestFileError,
>)
    ensures
        result_view(builder) == spec_decode_text(kind, text@),
{
    let parsed = match kind {
        MarkdownConfigBlockType::Yaml => parse_yaml(text),
        MarkdownConfigBlockType::Json => parse_json(text),
    };
    match parsed {
        None => Err(RequestFileError::InvalidBlockSpec),
        Some(tree) => decode_tree(&tree),
    }
}

/// An envelope under another name than that of the request builder schema is refused
/// for its name, whatever it holds.
pub proof fn lemma_api_mismatch(tree: TreeView)
    requires
        spec_decode_envelope(tree) is Some,
        spec_decode_envelope(tree)->0.api != spec_api_name(),
    ensures
        spec_decode(tree) == Err::<HttpRequestBuilderView, RequestFileError>(
            RequestFileError::InvalidBlockApi,
        ),
{
}

/// The document that states a string that may be left out.
pub open spec fn spec_optional_tree(text: Option<Seq<char>>) -> TreeView {
    match text {
        Some(text) => TreeView::Text(text),
        None => TreeView::Null,
    }
}

/// The members of the table that states headers.
pub open spec fn header_members(headers: Entries) -> Members {
    headers.map_values(|header: (Seq<char>, Seq<char>)| (header.0, TreeView::Text(header.1)))
}

/// The document that states a request.
pub open spec fn spec_encode_request(request: HttpRequestView) -> TreeView {
    TreeView::Table(
        seq![
            ("method"@, TreeView::Text(request.method.spec_name())),
            ("url"@, TreeView::Text(request.url)),
            ("headers"@, TreeView::Table(header_members(request.headers))),
            ("body"@, spec_optional_tree(request.body)),
        ],
    )
}

/// The document that states the hooks of a request builder.
pub open spec fn spec_encode_hooks(hooks: HttpRequestBuilderHooksView) -> TreeView {
    TreeView::Table(
        seq![
            ("before"@, spec_optional_tree(hooks.before)),
            ("after"@, spec_optional_tree(hooks.after)),
        ],
    )
}

/// The document that states a request builder.
pub open spec fn spec_encode_builder(builder: HttpRequestBuilderView) -> TreeView {
    TreeView::Table(
        seq![
            ("request"@, spec_encode_request(builder.request)),
            ("hooks"@, spec_encode_hooks(builder.hooks)),
        ],
    )
}

/// The document that states an envelope of a request builder.
pub open spec fn spec_encode_envelope(envelope: SpecView<HttpRequestBuilderView>) -> TreeView {
    TreeView::Table(
        seq![("api"@, TreeView::Text(envelope.api)), ("spec"@, spec_encode_builder(envelope.spec))],
    )
}

/// The document that specifies a request builder: its envelope under the name of the
/// request builder schema.
pub open spec fn spec_encode(builder: HttpRequestBuilderView) -> TreeView {
    spec_encode_envelope(SpecView { api: spec_api_name(), spec: builder })
}

/// Headers without a repeated name are read back from the document that states them.
pub proof fn lemma_headers_round_trip(headers: Entries)
    requires
        distinct_keys(headers),
    ensures
        spec_decode_headers(TreeView::Table(header_members(headers))) == Some(headers),
{
    assert(header_pairs(header_members(headers)) =~= headers);
}

/// A request whose headers have no repeated name is read back from the document that
/// states it.
pub proof fn lemma_request_round_trip(request: HttpRequestView)
    requires
        distinct_keys(request.headers),
    ensures
        spec_decode_request(spec_encode_request(request)) == Some(request),
{
    let members = spec_encode_request(request)->Table_0;
    reveal_strlit("method");
    reveal_strlit("url");
    reveal_strlit("headers");
    reveal_strlit("body");
    assert("method"@[0] == 'm' && "url"@[0] == 'u' && "headers"@[0] == 'h' && "body"@[0] == 'b');
    lemma_field_unique(members, "method"@, 0);
    lemma_field_unique(members, "url"@, 1);
    lemma_field_unique(members, "headers"@, 2);
    lemma_field_unique(members, "body"@, 3);
    request.method.lemma_name_names();
    lemma_headers_round_trip(request.headers);
}

/// Hooks are read back from the document that states them.
pub proof fn lemma_hooks_round_trip(hooks: HttpRequestBuilderHooksView)
    ensures
        spec_decode_hooks(spec_encode_hooks(hooks)) == Some(hooks),
{
    let members = spec_encode_hooks(hooks)->Table_0;
    reveal_strlit("before");
    reveal_strlit("after");
    assert("before"@[0] == 'b' && "after"@[0] == 'a');
    lemma_field_unique(members, "before"@, 0);
    lemma_field_unique(members, "after"@, 1);
}

/// A request builder whose headers have no repeated name is read back from the
/// document that states it.
pub proof fn lemma_builder_round_trip(builder: HttpRequestBuilderView)
    requires
        distinct_keys(builder.request.headers),
    ensures
        spec_decode_builder(spec_encode_builder(builder)) == Some(builder),
{
    let members = spec_encode_builder(builder)->Table_0;
    reveal_strlit("request");
    reveal_strlit("hooks");
    assert("request"@[0] == 'r' && "hooks"@[0] == 'h');
    lemma_field_unique(members, "request"@, 0);
    lemma_field_unique(members, "hooks"@, 1);
    lemma_request_round_trip(builder.request);
    lemma_hooks_round_trip(builder.hooks);
}

/// An envelope of a request builder whose headers have no repeated name is read back
/// from the document that states it.
pub proof fn lemma_envelope_round_trip(envelope: SpecView<HttpRequestBuilderView>)
    requires
        distinct_keys(envelope.spec.request.headers),
    ensures
        spec_decode_envelope(spec_encode_envelope(envelope)) == Some(envelope),
{
    let members = spec_encode_envelope(envelope)->Table_0;
    reveal_strlit("api");
    reveal_strlit("spec");
    assert("api"@[0] == 'a' && "spec"@[0] == 's');
    lemma_field_unique(members, "api"@, 0);
    lemma_field_unique(members, "spec"@, 1);
    lemma_builder_round_trip(envelope.spec);
}

/// Decoding the document that specifies a request builder gives the request builder
/// back, provided that no name is repeated among its headers.
pub proof fn lemma_round_trip(builder: HttpRequestBuilderView)
    requires
        distinct_keys(builder.request.headers),
    ensures
        spec_decode(spec_encode(builder)) == Ok::<HttpRequestBuilderView, RequestFileError>(builder),
{
    lemma_envelope_round_trip(SpecView { api: spec_api_name(), spec: builder });
}

/// Two rendered blocks, one in each encoding, that denote the document that specifies
/// a request builder decode to that same request builder.
pub proof fn lemma_encodings_agree(
    builder: HttpRequestBuilderView,
    yaml: Seq<char>,
    json: Seq<char>,
)
    requires
        distinct_keys(builder.request.headers),
        yaml_document(yaml) == Some(spec_encode(builder)),
        json_document(json) == Some(spec_encode(builder)),
    ensures
        spec_decode_text(MarkdownConfigBlockType::Yaml, yaml) == Ok::<
            HttpRequestBuilderView,
            RequestFileError,
        >(builder),
        spec_decode_text(MarkdownConfigBlockType::Json, json) == spec_decode_text(
            MarkdownConfigBlockType::Yaml,
            yaml,
        ),
{
    lemma_round_trip(builder);
}

fn member(key: &str, tree: Tree) -> (member: (String, Tree))
    ensures
        member.deep_view() == (key@, tree@),
{
    (key.to_owned(), tree)
}

fn optional_tree(text: &Option<String>) -> (tree: Tree)
    ensures
        tree@ == spec_optional_tree(text.deep_view()),
{
    match text {
        Some(text) => Tree::Text(text.clone()),
        None => Tree::Null,
    }
}

fn headers_tree(headers: &StringMap) -> (tree: Tree)
    ensures
        tree@ == TreeView::Table(header_members(headers@)),
        distinct_keys(headers@),
{
    let entries = headers.entries();
    let mut members: Vec<(String, Tree)> = Vec::new();
    assert(members.deep_view() == header_members(headers@).take(0));
    let mut i: usize = 0;
    while i < entries.len()
        invariant
            0 <= i <= entries.len(),
            entries.deep_view() == headers@,
            members.deep_view() == header_members(headers@).take(i as int),
        decreases entries.len() - i,
    {
        let ghost before = members.deep_view();
        let entry = &entries[i];
        assert(headers@[i as int] == entry.deep_view());
        let member = (entry.0.clone(), Tree::Text(entry.1.clone()));
        members.push(member);
        assert(members.deep_view() == before.push(member.deep_view()));
        assert(members.deep_view() == header_members(headers@).take(i + 1));
        i += 1;
    }
    proof {
        assert(header_members(headers@).take(i as int) == header_members(headers@));
        lemma_table_view(members);
    }
    Tree::Table(members)
}

impl HttpRequest {
    /// The document that states this request.
    pub fn to_tree(&self) -> (tree: Tree)
        ensures
            tree@ == spec_encode_request(self@),
            distinct_keys(self@.headers),
    {
        let mut members: Vec<(String, Tree)> = Vec::new();
        members.push(member("method", Tree::Text(self.method.name().to_owned())));
        members.push(member("url", Tree::Text(self.url.clone())));
        members.push(member("headers", headers_tree(&self.headers)));
        members.push(member("body", optional_tree(&self.body)));
        proof {
            assert(members.deep_view() == spec_encode_request(self@)->Table_0);
            lemma_table_view(members);
        }
        Tree::Table(members)
    }
}

impl HttpRequestBuilderHooks {
    /// The document that states these hooks.
    pub fn to_tree(&self) -> (tree: Tree)
        ensures
            tree@ == spec_encode_hooks(self@),
    {
        let mut members: Vec<(String, Tree)> = Vec::new();
        members.push(member("before", optional_tree(&self.before)));
        members.push(member("after", optional_tree(&self.after)));
        proof {
            assert(members.deep_view() == spec_encode_hooks(self@)->Table_0);
            lemma_table_view(members);
        }
        Tree::Table(members)
    }
}

impl HttpRequestBuilder {
    /// The document that states this request builder.
    pub fn to_tree(&self) -> (tree: Tree)
        ensures
            tree@ == spec_encode_builder(self@),
            distinct_keys(self@.request.headers),
    {
        let mut members: Vec<(String, Tree)> = Vec::new();
        members.push(member("request", self.request.to_tree()));
        members.push(member("hooks", self.hooks.to_tree()));
        proof {
            assert(members.deep_view() == spec_encode_builder(self@)->Table_0);
            lemma_table_view(members);
        }
        Tree::Table(members)
    }

    /// The document that specifies this request builder: its envelope under the name
    /// of the request builder schema.
    pub fn to_spec_tree(&self) -> (tree: Tree)
        ensures
            tree@ == spec_encode(self@),
            distinct_keys(self@.request.headers),
            spec_decode(tree@) == Ok::<HttpRequestBuilderView, RequestFileError>(self@),
    {
        let mut members: Vec<(String, Tree)> = Vec::new();
        members.push(member("api", Tree::Text(api_name().to_owned())));
        members.push(member("spec", self.to_tree()));
        proof {
            assert(members.deep_view() == spec_encode(self@)->Table_0);
            lemma_table_view(members);
        }
        proof {
            lemma_round_trip(self@);
        }
        Tree::Table(members)
    }
}

} // verus!
