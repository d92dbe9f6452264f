//! Structured documents: the tree of values that a JSON or YAML text denotes.

use vstd::prelude::*;

use crate::text::is_word;

verus! {

/// A structured document, as JSON and YAML texts describe one.
#[derive(Debug, PartialEq, Eq)]
pub enum Tree {
    /// The absent value.
    Null,
    /// A truth value.
    Bool(bool),
    /// A number, by its decimal text.
    Number(String),
    /// A string.
    Text(String),
    /// A sequence of documents.
    List(Vec<Tree>),
    /// Keyed documents, as a list of members.
    Table(Vec<(String, Tree)>),
}

/// The mathematical value of a [`Tree`].
pub enum TreeView {
    Null,
    Bool(bool),
    Number(Seq<char>),
    Text(Seq<char>),
    List(Seq<TreeView>),
    Table(Seq<(Seq<char>, TreeView)>),
}

/// The mathematical value of a document.
pub open spec fn tree_view(tree: Tree) -> TreeView
    decreases tree,
{
    match tree {
        Tree::Null => TreeView::Null,
        Tree::Bool(flag) => TreeView::Bool(flag),
        Tree::Number(digits) => TreeView::Number(digits@),
        Tree::Text(text) => TreeView::Text(text@),
        Tree::List(items) => TreeView::List(
            Seq::new(
                items@.len(),
                |i: int|
                    if 0 <= i < items@.len() {
                        tree_view(items@[i])
                    } else {
                        TreeView::Null
                    },
            ),
        ),
        Tree::Table(members) => TreeView::Table(
            Seq::new(
                members@.len(),
                |i: int|
                    if 0 <= i < members@.len() {
                        (members@[i].0@, tree_view(members@[i].1))
                    } else {
                        (Seq::<char>::empty(), TreeView::Null)
                    },
            ),
        ),
    }
}

impl View for Tree {
    type V = TreeView;

    open spec fn view(&self) -> TreeView {
        tree_view(*self)
    }
}

impl DeepView for Tree {
    type V = TreeView;

    open spec fn deep_view(&self) -> TreeView {
        self.view()
    }
}

/// The value type of `serde_json`, which both parsers below produce.
#[verifier::external_type_specification]
#[verifier::external_body]
pub struct ExJsonValue(serde_json::Value);

/// The document that a parsed value holds.
pub uninterp spec fn value_tree(value: serde_json::Value) -> TreeView;

/// The document that `text` denotes when read as JSON, if it is well-formed JSON.
pub uninterp spec fn json_document(text: Seq<char>) -> Option<TreeView>;

/// The document that `text` denotes when read as YAML, if it is well-formed YAML.
pub uninterp spec fn yaml_document(text: Seq<char>) -> Option<TreeView>;

/// Parses `text` with `serde_json::from_str`, which reads a whole JSON text into a
/// `serde_json::Value`; of an object that names a key more than once such a value keeps
/// the last member under it. The outcome depends on `text` alone; the contract gives it
/// the name [`json_document`] and claims nothing else about it.
#[verifier::external_body]
pub(crate) fn json_value(text: &str) -> (parsed: Option<serde_json::Value>)
    ensures
        json_document(text@) == match parsed {
            Some(value) => Some(value_tree(value)),
            None => None,
        },
{
    serde_json::from_str::<serde_json::Value>(text).ok()
}

/// Parses `text` with `serde_yaml::from_str`, which reads a YAML text holding one
/// document into, here, a `serde_json::Value`; the keys of a mapping are read as
/// strings, and of a repeated key the last member is kept. The outcome depends on `text`
/// alone; the contract gives it the name [`yaml_document`] and claims nothing else about
/// it.
#[verifier::external_body]
pub(crate) fn yaml_value(text: &str) -> (parsed: Option<serde_json::Value>)
    ensures
        yaml_document(text@) == match parsed {
            Some(value) => Some(value_tree(value)),
            None => None,
        },
{
    serde_yaml::from_str::<serde_json::Value>(text).ok()
}

/// Moves a `serde_json::Value` into a [`Tree`], variant by variant: a number by its
/// `Display` text, the members of an object in the order in which its map yields them.
/// The contract names the result [`value_tree`].
#[verifier::external_body]
pub(crate) fn tree_of_value(value: serde_json::Value) -> (tree: Tree)
    ensures
        tree@ == value_tree(value),
{
    match value {
        serde_json::Value::Null => Tree::Null,
        serde_json::Value::Bool(flag) => Tree::Bool(flag),
        serde_json::Value::Number(number) => Tree::Number(number.to_string()),
        serde_json::Value::String(text) => Tree::Text(text),
        serde_json::Value::Array(items) => Tree::List(
            items.into_iter().map(tree_of_value).collect(),
        ),
        serde_json::Value::Object(members) => Tree::Table(
            members.into_iter().map(|(key, member)| (key, tree_of_value(member))).collect(),
        ),
    }
}

/// Reads `text` as JSON.
pub fn parse_json(text: &str) -> (tree: Option<Tree>)
    ensures
        tree.deep_view() == json_document(text@),
{
    match json_value(text) {
        Some(value) => Some(tree_of_value(value)),
        None => None,
    }
}

/// Reads `text` as YAML.
pub fn parse_yaml(text: &str) -> (tree: Option<Tree>)
    ensures
        tree.deep_view() == yaml_document(text@),
{
    match yaml_value(text) {
        Some(value) => Some(tree_of_value(value)),
        None => None,
    }
}

/// The members of a table, as pairs of a key and a document.
pub type Members = Seq<(Seq<char>, TreeView)>;

/// The view of a table is the list of the views of its members.
pub proof fn lemma_table_view(members: Vec<(String, Tree)>)
    ensures
        Tree::Table(members)@ == TreeView::Table(members.deep_view()),
{
    let left = Tree::Table(members)@->Table_0;
    let right = members.deep_view();
    assert forall|i: int| 0 <= i < left.len() implies left[i] == right[i] by {
        assert(right[i] == members@[i].deep_view());
    }
    assert(left =~= right);
}

/// What looking for a key among the members of a table finds.
#[derive(Debug, PartialEq, Eq)]
pub enum Field<T> {
    /// No member has the key.
    Missing,
    /// Exactly one member has the key: its document.
    Unique(T),
    /// More than one member has the key.
    Repeated,
}

impl<T: DeepView> DeepView for Field<T> {
    type V = Field<T::V>;

    open spec fn deep_view(&self) -> Field<T::V> {
        match self {
            Field::Missing => Field::Missing,
            Field::Unique(found) => Field::Unique(found.deep_view()),
            Field::Repeated => Field::Repeated,
        }
    }
}

/// The members that have the key `key`, in order.
pub open spec fn members_with_key(members: Members, key: Seq<char>) -> Members {
    members.filter(|member: (Seq<char>, TreeView)| member.0 == key)
}

/// What looking for `key` among `members` finds.
pub open spec fn spec_field(members: Members, key: Seq<char>) -> Field<TreeView> {
    let found = members_with_key(members, key);
    if found.len() == 0 {
        Field::Missing
    } else if found.len() == 1 {
        Field::Unique(found[0].1)
    } else {
        Field::Repeated
    }
}

/// A key that no member has is missing.
pub proof fn lemma_field_missing(members: Members, key: Seq<char>)
    requires
        forall|i: int| 0 <= i < members.len() ==> (#[trigger] members[i]).0 != key,
    ensures
        members_with_key(members, key).len() == 0,
        spec_field(members, key) is Missing,
    decreases members.len(),
{
    reveal(Seq::filter);
    if members.len() > 0 {
        let front = members.drop_last();
        assert forall|i: int| 0 <= i < front.len() implies (#[trigger] front[i]).0 != key by {
            assert(front[i] == members[i]);
        }
        lemma_field_missing(front, key);
        assert(members[members.len() - 1].0 != key);
    }
}

/// A key that exactly one member has is found with that member's document.
pub proof fn lemma_field_unique(members: Members, key: Seq<char>, at: int)
    requires
        0 <= at < members.len(),
        members[at].0 == key,
        forall|i: int| 0 <= i < members.len() && i != at ==> (#[trigger] members[i]).0 != key,
    ensures
        members_with_key(members, key) == seq![members[at]],
        spec_field(members, key) == Field::Unique(members[at].1),
    decreases members.len(),
{
    reveal(Seq::filter);
    let front = members.drop_last();
    if at == members.len() - 1 {
        assert forall|i: int| 0 <= i < front.len() implies (#[trigger] front[i]).0 != key by {
            assert(front[i] == members[i]);
        }
        lemma_field_missing(front, key);
        assert(members_with_key(members, key) =~= seq![members[at]]);
    } else {
        assert(front[at] == members[at]);
        assert forall|i: int| 0 <= i < front.len() && i != at implies (#[trigger] front[i]).0 != key by {
            assert(front[i] == members[i]);
        }
        lemma_field_unique(front, key, at);
        assert(members[members.len() - 1].0 != key);
    }
}

/// Looks for `key` among the members of a table.
pub fn field<'a>(members: &'a Vec<(String, Tree)>, key: &str) -> (found: Field<&'a Tree>)
    ensures
        found.deep_view() == spec_field(members.deep_view(), key@),
{
    let ghost all = members.deep_view();
    let mut found: Field<&'a Tree> = Field::Missing;
    let mut i: usize = 0;
    while i < members.len()
        invariant
            0 <= i <= members.len(),
            all == members.deep_view(),
            found.deep_view() == spec_field(all.take(i as int), key@),
        decreases members.len() - i,
    {
        proof {
            reveal(Seq::filter);
            assert(all.take(i + 1).drop_last() == all.take(i as int));
            assert(all.take(i + 1).last() == all[i as int]);
        }
        if is_word(&members[i].0, key) {
            found = match found {
                Field::Missing => Field::Unique(&members[i].1),
                _ => Field::Repeated,
            };
        }
        i += 1;
    }
    assert(all.take(i as int) == all);
    found
}

impl Tree {
    /// The string that this document is, if it is one.
    pub fn as_text(&self) -> (text: Option<&String>)
        ensures
            text.deep_view() == spec_text(self@),
    {
        match self {
            Tree::Text(text) => Some(text),
            _ => None,
        }
    }

    /// The members of the table that this document is, if it is one.
    pub fn as_table(&self) -> (members: Option<&Vec<(String, Tree)>>)
        ensures
            members.deep_view() == spec_members(self@),
    {
        match self {
            Tree::Table(members) => {
                proof {
                    lemma_table_view(*members);
                }
                Some(members)
            },
            _ => None,
        }
    }
}

/// The string that a document is, if it is one.
pub open spec fn spec_text(tree: TreeView) -> Option<Seq<char>> {
    match tree {
        TreeView::Text(text) => Some(text),
        _ => None,
    }
}

/// The members of the table that a document is, if it is one.
pub open spec fn spec_members(tree: TreeView) -> Option<Members> {
    match tree {
        TreeView::Table(members) => Some(members),
        _ => None,
    }
}

} // verus!