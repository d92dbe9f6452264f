//! Rendering of the templates that request specifications are written as.

use vstd::prelude::*;
use vstd::string::StringExecFns;

use crate::context::{Context, ToJinjaContext};
use crate::errors::{result_view, RequestFileError};
use crate::string_map::{pairs_map, Entries, StringMap};
use crate::text::{decimal, decimal_string};

verus! {

/// The values that groups of entries denote: each group is a map under its name. Where
/// a name occurs more than once, its last group counts.
pub open spec fn groups_map(groups: Seq<(Seq<char>, Entries)>) -> Map<
    Seq<char>,
    Map<Seq<char>, Seq<char>>,
>
    decreases groups.len(),
{
    if groups.len() == 0 {
        Map::empty()
    } else {
        groups_map(groups.drop_last()).insert(groups.last().0, pairs_map(groups.last().1))
    }
}

/// What the template `source`, known under `name`, renders to where it can refer to
/// `values`, if it renders.
pub uninterp spec fn rendered(
    name: Seq<char>,
    source: Seq<char>,
    values: Map<Seq<char>, Map<Seq<char>, Seq<char>>>,
) -> Option<Seq<char>>;

/// Renders `source` with `render_named_str` of a fresh `minijinja::Environment`, under
/// the name `name` and with a context that holds each group of `groups` as a map under
/// the name of the group. A template that fails to parse or to render gives `None`. The
/// outcome depends on the name, the source and the maps alone; the contract gives it the
/// name [`rendered`] and claims nothing else about it.
#[verifier::external_body]
pub(crate) fn render_template(name: &str, source: &str, groups: &Vec<(&str, &StringMap)>) -> (text:
    Option<String>)
    ensures
        text.deep_view() == rendered(name@, source@, groups_map(groups.deep_view())),
{
    let values: std::collections::BTreeMap<&str, std::collections::BTreeMap<&String, &String>> =
        groups.iter().map(
            |group| (group.0, group.1.entries().iter().map(|entry| (&entry.0, &entry.1)).collect()),
        ).collect();
    minijinja::Environment::new().render_named_str(name, source, values).ok()
}

/// The name under which the block with the index `index` of the file `path` is
/// rendered.
pub open spec fn spec_template_name(path: Seq<char>, index: nat) -> Seq<char> {
    path + "."@ + decimal(index)
}

/// The name under which the block with the index `index` of the file `path` is
/// rendered.
pub fn template_name(path: &str, index: usize) -> (name: String)
    ensures
        name@ == spec_template_name(path@, index as nat),
{
    let number = decimal_string(index);
    path.to_owned().concat(".").concat(number.as_str())
}

/// Renders the template `source`, known under `name`, against `ctx`.
pub fn render(name: &str, source: &str, ctx: &Context) -> (text: Result<String, RequestFileError>)
    ensures
        result_view(text) == match rendered(name@, source@, groups_map(ctx@.jinja_context())) {
            Some(text) => Ok(text),
            None => Err(RequestFileError::TemplateError),
        },
{
    let groups = ctx.to_jinja_context();
    match render_template(name, source, &groups) {
        Some(text) => Ok(text),
        None => Err(RequestFileError::TemplateError),
    }
}

} // verus!
