//! The values that request templates can refer to.

use vstd::prelude::*;

use crate::string_map::{distinct_keys, pairs_map, spec_insert_all, Entries, StringMap};

verus! {

/// What a template sees: the environment's variables and the secrets.
#[derive(Debug, PartialEq, Eq)]
pub struct Context {
    env: StringMap,
    secrets: StringMap,
}

/// The mathematical value of a [`Context`].
pub struct ContextView {
    pub env: Entries,
    pub secrets: Entries,
}

impl ContextView {
    /// What a template can refer to: the variables as `env`, the secrets as `secrets`.
    pub open spec fn jinja_context(self) -> Seq<(Seq<char>, Entries)> {
        seq![("env"@, self.env), ("secrets"@, self.secrets)]
    }
}

/// A value that can be laid out for templates: as groups of entries, each under the name
/// by which templates refer to it.
pub trait ToJinjaContext {
    fn to_jinja_context(&self) -> Vec<(&'static str, &StringMap)>;
}

impl ToJinjaContext for Context {
    /// The variables as `env`, the secrets as `secrets`.
    fn to_jinja_context(&self) -> (groups: Vec<(&'static str, &StringMap)>)
        ensures
            groups.deep_view() == self@.jinja_context(),
    {
        let mut groups: Vec<(&'static str, &StringMap)> = Vec::new();
        groups.push(("env", &self.env));
        groups.push(("secrets", &self.secrets));
        assert(groups.deep_view() == self@.jinja_context());
        groups
    }
}

impl View for Context {
    type V = ContextView;

    closed spec fn view(&self) -> ContextView {
        ContextView { env: self.env@, secrets: self.secrets@ }
    }
}

impl DeepView for Context {
    type V = ContextView;

    open spec fn deep_view(&self) -> ContextView {
        self.view()
    }
}

impl Context {
    /// The context with the variables `env` and the secrets `secrets`.
    pub fn new(env: StringMap, secrets: StringMap) -> (ctx: Context)
        ensures
            ctx@ == (ContextView { env: env@, secrets: secrets@ }),
    {
        Context { env, secrets }
    }

    /// The context of a process whose environment holds the variables `vars`: where a
    /// name occurs more than once its last value counts, and there are no secrets.
    pub fn from_environment(vars: Vec<(String, String)>) -> (ctx: Context)
        ensures
            ctx@.env == spec_insert_all(Seq::empty(), vars.deep_view()),
            pairs_map(ctx@.env) == pairs_map(vars.deep_view()),
            distinct_keys(ctx@.env),
            ctx@.secrets == Seq::<(Seq<char>, Seq<char>)>::empty(),
    {
        Context { env: StringMap::from_pairs(vars), secrets: StringMap::new() }
    }

    /// The environment's variables.
    pub fn env(&self) -> (env: &StringMap)
        ensures
            env@ == self@.env,
    {
        &self.env
    }

    /// The secrets.
    pub fn secrets(&self) -> (secrets: &StringMap)
        ensures
            secrets@ == self@.secrets,
    {
        &self.secrets
    }
}

} // verus!
