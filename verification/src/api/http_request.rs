//! HTTP requests, the request builders that request files specify, and the
//! compilation of request files into request builders.

use vstd::prelude::*;

use crate::api::codec::{decode, spec_api_name, spec_decode_envelope, spec_decode_text, spec_parse};
use crate::context::{Context, ContextView};
use crate::document::{
    as_config_block, config_block_kind, is_config_block, lemma_marked_block, marked_blocks,
    markdown_blocks, markdown_get_config_blocks, spec_config_blocks, MarkdownConfigBlock,
    MarkdownConfigBlockView,
};
use crate::errors::{result_view, RequestFileError};
use crate::string_map::{Entries, StringMap};
use crate::template::{groups_map, render, rendered, spec_template_name, template_name};
use crate::text::is_word;
use crate::traits::TemplateFile;

verus! {

/// The method of an HTTP request.
#[derive(Debug, Clone, Copy, PartialEq, Eq, Structural)]
pub enum HttpRequestMethod {
    CONNECT,
    DELETE,
    GET,
    HEAD,
    OPTIONS,
    POST,
    PUT,
}

impl HttpRequestMethod {
    /// The name under which a request specification states the method.
    pub open spec fn spec_name(self) -> Seq<char> {
        match self {
            HttpRequestMethod::CONNECT => "CONNECT"@,
            HttpRequestMethod::DELETE => "DELETE"@,
            HttpRequestMethod::GET => "GET"@,
            HttpRequestMethod::HEAD => "HEAD"@,
            HttpRequestMethod::OPTIONS => "OPTIONS"@,
            HttpRequestMethod::POST => "POST"@,
            HttpRequestMethod::PUT => "PUT"@,
        }
    }

    /// The method that `name` names, if it names one.
    pub open spec fn spec_from_name(name: Seq<char>) -> Option<HttpRequestMethod> {
        if name == "CONNECT"@ {
            Some(HttpRequestMethod::CONNECT)
        } else if name == "DELETE"@ {
            Some(HttpRequestMethod::DELETE)
        } else if name == "GET"@ {
            Some(HttpRequestMethod::GET)
        } else if name == "HEAD"@ {
            Some(HttpRequestMethod::HEAD)
        } else if name == "OPTIONS"@ {
            Some(HttpRequestMethod::OPTIONS)
        } else if name == "POST"@ {
            Some(HttpRequestMethod::POST)
        } else if name == "PUT"@ {
            Some(HttpRequestMethod::PUT)
        } else {
            None
        }
    }

    /// The name under which a request specification states the method.
    pub fn name(&self) -> (name: &'static str)
        ensures
            name@ == self.spec_name(),
    {
        match self {
            HttpRequestMethod::CONNECT => "CONNECT",
            HttpRequestMethod::DELETE => "DELETE",
            HttpRequestMethod::GET => "GET",
            HttpRequestMethod::HEAD => "HEAD",
            HttpRequestMethod::OPTIONS => "OPTIONS",
            HttpRequestMethod::POST => "POST",
            HttpRequestMethod::PUT => "PUT",
        }
    }

    /// The method that `name` names, if it names one.
    pub fn from_name(name: &String) -> (method: Option<HttpRequestMethod>)
        ensures
            method == HttpRequestMethod::spec_from_name(name@),
    {
        if is_word(name, "CONNECT") {
            Some(HttpRequestMethod::CONNECT)
        } else if is_word(name, "DELETE") {
            Some(HttpRequestMethod::DELETE)
        } else if is_word(name, "GET") {
            Some(HttpRequestMethod::GET)
        } else if is_word(name, "HEAD") {
            Some(HttpRequestMethod::HEAD)
        } else if is_word(name, "OPTIONS") {
            Some(HttpRequestMethod::OPTIONS)
        } else if is_word(name, "POST") {
            Some(HttpRequestMethod::POST)
        } else if is_word(name, "PUT") {
            Some(HttpRequestMethod::PUT)
        } else {
            None
        }
    }

    /// Every method is the one that its name names.
    pub proof fn lemma_name_names(self)
        ensures
            HttpRequestMethod::spec_from_name(self.spec_name()) == Some(self),
    {
        reveal_strlit("CONNECT");
        reveal_strlit("DELETE");
        reveal_strlit("GET");
        reveal_strlit("HEAD");
        reveal_strlit("OPTIONS");
        reveal_strlit("POST");
        reveal_strlit("PUT");
        assert("CONNECT"@[0] == 'C' && "DELETE"@[0] == 'D' && "GET"@[0] == 'G' && "HEAD"@[0] == 'H'
            && "OPTIONS"@[0] == 'O' && "POST"@[0] == 'P' && "PUT"@[1] == 'U' && "POST"@[1] == 'O');
    }
}

/// A request that is ready to be sent.
#[derive(Debug, PartialEq, Eq)]
pub struct HttpRequest {
    pub method: HttpRequestMethod,
    pub url: String,
    pub headers: StringMap,
    pub body: Option<String>,
}

/// The mathematical value of an [`HttpRequest`].
pub struct HttpRequestView {
    pub method: HttpRequestMethod,
    pub url: Seq<char>,
    pub headers: Entries,
    pub body: Option<Seq<char>>,
}

impl View for HttpRequest {
    type V = HttpRequestView;

    open spec fn view(&self) -> HttpRequestView {
        HttpRequestView {
            method: self.method,
            url: self.url@,
            headers: self.headers@,
            body: self.body.deep_view(),
        }
    }
}

impl DeepView for HttpRequest {
    type V = HttpRequestView;

    open spec fn deep_view(&self) -> HttpRequestView {
        self.view()
    }
}

/// The hooks to run around a request, by their names.
#[derive(Debug, PartialEq, Eq)]
pub struct HttpRequestBuilderHooks {
    pub before: Option<String>,
    pub after: Option<String>,
}

/// The mathematical value of [`HttpRequestBuilderHooks`].
pub struct HttpRequestBuilderHooksView {
    pub before: Option<Seq<char>>,
    pub after: Option<Seq<char>>,
}

impl View for HttpRequestBuilderHooks {
    type V = HttpRequestBuilderHooksView;

    open spec fn view(&self) -> HttpRequestBuilderHooksView {
        HttpRequestBuilderHooksView {
            before: self.before.deep_view(),
            after: self.after.deep_view(),
        }
    }
}

impl DeepView for HttpRequestBuilderHooks {
    type V = HttpRequestBuilderHooksView;

    open spec fn deep_view(&self) -> HttpRequestBuilderHooksView {
        self.view()
    }
}

/// A request together with its hooks: what one request specification describes.
#[derive(Debug, PartialEq, Eq)]
pub struct HttpRequestBuilder {
    pub request: HttpRequest,
    pub hooks: HttpRequestBuilderHooks,
}

/// The mathematical value of an [`HttpRequestBuilder`].
pub struct HttpRequestBuilderView {
    pub request: HttpRequestView,
    pub hooks: HttpRequestBuilderHooksView,
}

impl View for HttpRequestBuilder {
    type V = HttpRequestBuilderView;

    open spec fn view(&self) -> HttpRequestBuilderView {
        HttpRequestBuilderView { request: self.request@, hooks: self.hooks@ }
    }
}

impl DeepView for HttpRequestBuilder {
    type V = HttpRequestBuilderView;

    open spec fn deep_view(&self) -> HttpRequestBuilderView {
        self.view()
    }
}

/// A payload under the name of the schema that it claims to follow.
#[derive(Debug, PartialEq, Eq)]
pub struct Spec<T> {
    pub api: String,
    pub spec: T,
}

/// The mathematical value of a [`Spec`].
pub struct SpecView<V> {
    pub api: Seq<char>,
    pub spec: V,
}

impl<T: DeepView> View for Spec<T> {
    type V = SpecView<T::V>;

    open spec fn view(&self) -> SpecView<T::V> {
        SpecView { api: self.api@, spec: self.spec.deep_view() }
    }
}

impl<T: DeepView> DeepView for Spec<T> {
    type V = SpecView<T::V>;

    open spec fn deep_view(&self) -> SpecView<T::V> {
        self.view()
    }
}

/// What compiling the block with the index `index` of the file `path` gives: the block
/// is rendered under its own name, then decoded.
pub open spec fn spec_compile_block(
    path: Seq<char>,
    index: nat,
    block: MarkdownConfigBlockView,
    ctx: ContextView,
) -> Result<HttpRequestBuilderView, RequestFileError> {
    match rendered(spec_template_name(path, index), block.text, groups_map(ctx.jinja_context())) {
        None => Err(RequestFileError::TemplateError),
        Some(text) => spec_decode_text(block.kind, text),
    }
}

/// What compiling the blocks of the file `path` gives: the builders of all blocks in
/// order, or what the first block that fails fails with.
pub open spec fn spec_compile_blocks(
    path: Seq<char>,
    blocks: Seq<MarkdownConfigBlockView>,
    ctx: ContextView,
) -> Result<Seq<HttpRequestBuilderView>, RequestFileError>
    decreases blocks.len(),
{
    if blocks.len() == 0 {
        Ok(Seq::empty())
    } else {
        match spec_compile_blocks(path, blocks.drop_last(), ctx) {
            Err(error) => Err(error),
            Ok(builders) => match spec_compile_block(
                path,
                (blocks.len() - 1) as nat,
                blocks.last(),
                ctx,
            ) {
                Err(error) => Err(error),
                Ok(builder) => Ok(builders.push(builder)),
            },
        }
    }
}

/// What compiling the request file `path` gives, where `contents` is its text, or `None`
/// if it could not be read.
pub open spec fn spec_from_template(
    path: Seq<char>,
    contents: Option<Seq<char>>,
    ctx: ContextView,
) -> Result<Seq<HttpRequestBuilderView>, RequestFileError> {
    match contents {
        None => Err(RequestFileError::DoesNotExist),
        Some(text) => match markdown_blocks(text) {
            None => Err(RequestFileError::SyntaxError),
            Some(blocks) => match spec_config_blocks(blocks) {
                Err(error) => Err(error),
                Ok(selected) => spec_compile_blocks(path, selected, ctx),
            },
        },
    }
}

/// Renders and decodes the block with the index `index` of the file `path`.
pub fn compile_block(
    path: &str,
    index: usize,
    block: &MarkdownConfigBlock,
    ctx: &Context,
) -> (builder: Result<HttpRequestBuilder, RequestFileError>)
    ensures
        result_view(builder) == spec_compile_block(path@, index as nat, block@, ctx@),
{
    let name = template_name(path, index);
    match render(name.as_str(), block.text.as_str(), ctx) {
        Err(error) => Err(error),
        Ok(text) => decode(text.as_str(), block.kind),
    }
}

/// Renders and decodes the blocks of the file `path` in order, up to the first that
/// fails.
pub fn compile_blocks(path: &str, blocks: &Vec<MarkdownConfigBlock>, ctx: &Context) -> (builders:
    Result<Vec<HttpRequestBuilder>, RequestFileError>)
    ensures
        result_view(builders) == spec_compile_blocks(path@, blocks.deep_view(), ctx@),
{
    let ghost all = blocks.deep_view();
    let mut builders: Vec<HttpRequestBuilder> = Vec::new();
    assert(builders.deep_view() == Seq::<HttpRequestBuilderView>::empty());
    let mut i: usize = 0;
    while i < blocks.len()
        invariant
            0 <= i <= blocks.len(),
            all == blocks.deep_view(),
            spec_compile_blocks(path@, all.take(i as int), ctx@) == Ok::<
                Seq<HttpRequestBuilderView>,
                RequestFileError,
            >(builders.deep_view()),
        decreases blocks.len() - i,
    {
        proof {
            assert(all.take(i + 1).drop_last() == all.take(i as int));
            assert(all.take(i + 1).last() == blocks[i as int]@);
        }
        match compile_block(path, i, &blocks[i], ctx) {
            Err(error) => {
                proof {
                    lemma_compile_prefix(path@, all, ctx@, i + 1);
                }
                return Err(error);
            },
            Ok(builder) => {
                let ghost before = builders.deep_view();
                builders.push(builder);
                assert(builders.deep_view() == before.push(builder@));
            },
        }
        i += 1;
    }
    assert(all.take(i as int) == all);
    Ok(builders)
}

/// Where the blocks up to some place fail to compile, so do all the blocks, in the same
/// way.
pub proof fn lemma_compile_prefix(
    path: Seq<char>,
    blocks: Seq<MarkdownConfigBlockView>,
    ctx: ContextView,
    n: int,
)
    requires
        0 <= n <= blocks.len(),
        spec_compile_blocks(path, blocks.take(n), ctx) is Err,
    ensures
        spec_compile_blocks(path, blocks, ctx) == spec_compile_blocks(path, blocks.take(n), ctx),
    decreases blocks.len() - n,
{
    if n < blocks.len() {
        assert(blocks.take(n + 1).drop_last() == blocks.take(n));
        lemma_compile_prefix(path, blocks, ctx, n + 1);
    } else {
        assert(blocks.take(n) == blocks);
    }
}

impl TemplateFile for HttpRequestBuilder {
    type T = HttpRequestBuilder;

    type E = RequestFileError;

    /// Compiles the request specifications of the request file `path` into request
    /// builders, in document order.
    fn from_template(path: &str, contents: Option<&str>, ctx: &Context) -> (builders: Result<
        Vec<HttpRequestBuilder>,
        RequestFileError,
    >)
        ensures
            result_view(builders) == spec_from_template(path@, contents.deep_view(), ctx@),
    {
        let md_raw = match contents {
            Some(text) => text,
            None => {
                return Err(RequestFileError::DoesNotExist);
            },
        };
        match markdown_get_config_blocks(md_raw) {
            Err(error) => Err(error),
            Ok(blocks) => compile_blocks(path, &blocks, ctx),
        }
    }
}

/// Compiling blocks gives one builder for each block and in the order of the blocks,
/// unless a block fails; then it gives what the first block that fails fails with.
pub proof fn lemma_compile_blocks(
    path: Seq<char>,
    blocks: Seq<MarkdownConfigBlockView>,
    ctx: ContextView,
)
    ensures
        match spec_compile_blocks(path, blocks, ctx) {
            Ok(builders) => {
                &&& builders.len() == blocks.len()
                &&& forall|i: int|
                    0 <= i < blocks.len() ==> spec_compile_block(
                        path,
                        i as nat,
                        #[trigger] blocks[i],
                        ctx,
                    ) == Ok::<HttpRequestBuilderView, RequestFileError>(builders[i])
            },
            Err(error) => exists|i: int|
                {
                    &&& 0 <= i < blocks.len()
                    &&& spec_compile_block(path, i as nat, #[trigger] blocks[i], ctx) == Err::<
                        HttpRequestBuilderView,
                        RequestFileError,
                    >(error)
                    &&& forall|j: int|
                        0 <= j < i ==> spec_compile_block(
                            path,
                            j as nat,
                            #[trigger] blocks[j],
                            ctx,
                        ) is Ok
                },
        },
    decreases blocks.len(),
{
    if blocks.len() > 0 {
        let front = blocks.drop_last();
        let last = blocks.len() - 1;
        lemma_compile_blocks(path, front, ctx);
        assert forall|i: int| 0 <= i < front.len() implies (#[trigger] front[i]) == blocks[i] by {}
        match spec_compile_blocks(path, front, ctx) {
            Ok(builders) => {
                match spec_compile_block(path, last as nat, blocks[last], ctx) {
                    Ok(builder) => {
                        let all = builders.push(builder);
                        assert forall|i: int| 0 <= i < blocks.len() implies spec_compile_block(
                            path,
                            i as nat,
                            #[trigger] blocks[i],
                            ctx,
                        ) == Ok::<HttpRequestBuilderView, RequestFileError>(all[i]) by {
                            if i < last {
                                assert(front[i] == blocks[i]);
                            }
                        }
                    },
                    Err(error) => {
                        assert forall|j: int| 0 <= j < last implies spec_compile_block(
                            path,
                            j as nat,
                            #[trigger] blocks[j],
                            ctx,
                        ) is Ok by {
                            assert(front[j] == blocks[j]);
                        }
                    },
                }
            },
            Err(error) => {
                let i = choose|i: int|
                    {
                        &&& 0 <= i < front.len()
                        &&& spec_compile_block(path, i as nat, #[trigger] front[i], ctx) == Err::<
                            HttpRequestBuilderView,
                            RequestFileError,
                        >(error)
                        &&& forall|j: int|
                            0 <= j < i ==> spec_compile_block(
                                path,
                                j as nat,
                                #[trigger] front[j],
                                ctx,
                            ) is Ok
                    };
                assert(front[i] == blocks[i]);
                assert forall|j: int| 0 <= j < i implies spec_compile_block(
                    path,
                    j as nat,
                    #[trigger] blocks[j],
                    ctx,
                ) is Ok by {
                    assert(front[j] == blocks[j]);
                }
            },
        }
    }
}

/// Where every block before some block compiles and that block fails, compiling the
/// blocks fails as that block does.
pub proof fn lemma_first_failure(
    path: Seq<char>,
    blocks: Seq<MarkdownConfigBlockView>,
    ctx: ContextView,
    at: int,
)
    requires
        0 <= at < blocks.len(),
        spec_compile_block(path, at as nat, blocks[at], ctx) is Err,
        forall|j: int|
            0 <= j < at ==> spec_compile_block(path, j as nat, #[trigger] blocks[j], ctx) is Ok,
    ensures
        spec_compile_blocks(path, blocks, ctx) == Err::<Seq<HttpRequestBuilderView>, RequestFileError>(
            spec_compile_block(path, at as nat, blocks[at], ctx)->Err_0,
        ),
{
    lemma_compile_blocks(path, blocks, ctx);
    match spec_compile_blocks(path, blocks, ctx) {
        Ok(builders) => {
            assert(spec_compile_block(path, at as nat, blocks[at], ctx) is Ok);
        },
        Err(error) => {
            let i = choose|i: int|
                {
                    &&& 0 <= i < blocks.len()
                    &&& spec_compile_block(path, i as nat, #[trigger] blocks[i], ctx) == Err::<
                        HttpRequestBuilderView,
                        RequestFileError,
                    >(error)
                    &&& forall|j: int|
                        0 <= j < i ==> spec_compile_block(
                            path,
                            j as nat,
                            #[trigger] blocks[j],
                            ctx,
                        ) is Ok
                };
            if i < at {
                assert(spec_compile_block(path, i as nat, blocks[i], ctx) is Ok);
            } else if at < i {
                assert(spec_compile_block(path, at as nat, blocks[at], ctx) is Ok);
            }
        },
    }
}

/// A request file that compiles yields exactly one builder for each of its marked
/// blocks, in document order: the builder that the block compiles to.
pub proof fn lemma_one_builder_per_block(path: Seq<char>, text: Seq<char>, ctx: ContextView)
    requires
        spec_from_template(path, Some(text), ctx) is Ok,
    ensures
        markdown_blocks(text) is Some,
        ({
            let marked = marked_blocks(markdown_blocks(text)->0);
            let builders = spec_from_template(path, Some(text), ctx)->Ok_0;
            &&& builders.len() == marked.len()
            &&& forall|i: int|
                0 <= i < marked.len() ==> spec_compile_block(
                    path,
                    i as nat,
                    as_config_block(#[trigger] marked[i]),
                    ctx,
                ) == Ok::<HttpRequestBuilderView, RequestFileError>(builders[i])
        }),
{
    let blocks = markdown_blocks(text)->0;
    let marked = marked_blocks(blocks);
    let selected = spec_config_blocks(blocks)->Ok_0;
    lemma_compile_blocks(path, selected, ctx);
    let builders = spec_from_template(path, Some(text), ctx)->Ok_0;
    assert forall|i: int| 0 <= i < marked.len() implies spec_compile_block(
        path,
        i as nat,
        as_config_block(#[trigger] marked[i]),
        ctx,
    ) == Ok::<HttpRequestBuilderView, RequestFileError>(builders[i]) by {
        assert(selected[i] == as_config_block(marked[i]));
    }
}

/// A request file without any top-level block is refused as empty.
pub proof fn lemma_empty_file(path: Seq<char>, text: Seq<char>, ctx: ContextView)
    requires
        markdown_blocks(text) is Some,
        markdown_blocks(text)->0.len() == 0,
    ensures
        spec_from_template(path, Some(text), ctx) == Err::<
            Seq<HttpRequestBuilderView>,
            RequestFileError,
        >(RequestFileError::EmptyFile),
{
}

/// A request file with a marked block in a language other than YAML and JSON is
/// refused for that block, whatever its other blocks hold.
pub proof fn lemma_unsupported_block(path: Seq<char>, text: Seq<char>, ctx: ContextView, at: int)
    requires
        markdown_blocks(text) is Some,
        0 <= at < markdown_blocks(text)->0.len(),
        is_config_block(markdown_blocks(text)->0[at]),
        config_block_kind(markdown_blocks(text)->0[at]) is None,
    ensures
        spec_from_template(path, Some(text), ctx) == Err::<
            Seq<HttpRequestBuilderView>,
            RequestFileError,
        >(RequestFileError::UnsupportedBlockType),
{
    let blocks = markdown_blocks(text)->0;
    lemma_marked_block(blocks, at);
}

/// A request file in which the first block that fails renders to an envelope under
/// another name than that of the request builder schema is refused for that name.
pub proof fn lemma_invalid_block_api(path: Seq<char>, text: Seq<char>, ctx: ContextView, at: int)
    requires
        markdown_blocks(text) is Some,
        spec_config_blocks(markdown_blocks(text)->0) is Ok,
        0 <= at < spec_config_blocks(markdown_blocks(text)->0)->Ok_0.len(),
        ({
            let blocks = spec_config_blocks(markdown_blocks(text)->0)->Ok_0;
            let text = rendered(
                spec_template_name(path, at as nat),
                blocks[at].text,
                groups_map(ctx.jinja_context()),
            );
            &&& text is Some
            &&& spec_parse(blocks[at].kind, text->0) is Some
            &&& spec_decode_envelope(spec_parse(blocks[at].kind, text->0)->0) is Some
            &&& spec_decode_envelope(spec_parse(blocks[at].kind, text->0)->0)->0.api
                != spec_api_name()
            &&& forall|j: int|
                0 <= j < at ==> spec_compile_block(path, j as nat, #[trigger] blocks[j], ctx) is Ok
        }),
    ensures
        spec_from_template(path, Some(text), ctx) == Err::<
            Seq<HttpRequestBuilderView>,
            RequestFileError,
        >(RequestFileError::InvalidBlockApi),
{
    let blocks = spec_config_blocks(markdown_blocks(text)->0)->Ok_0;
    lemma_first_failure(path, blocks, ctx, at);
}

} // verus!
