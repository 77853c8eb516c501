//! JSON documents as plain trees.
//!
//! Reading and writing JSON text is the work of `serde_json`. Its values are
//! turned, node by node, into trees of this module's own type, so that
//! everything that inspects or builds a document works on data the verifier
//! can see. What `serde_json` does is taken on trust in the few declarations
//! at the head of the module; each says what it relies on.

use vstd::prelude::*;
use crate::text::same_text;

verus! {

/// `serde_json::Value`, carried as an opaque value.
#[verifier::external_type_specification]
#[verifier::external_body]
pub struct ExValue(serde_json::Value);

/// `serde_json::Number`, carried as an opaque value.
#[verifier::external_type_specification]
#[verifier::external_body]
pub struct ExNumber(serde_json::Number);

/// `serde_json::Error`, carried as an opaque value.
#[verifier::external_type_specification]
#[verifier::external_body]
pub struct ExError(serde_json::Error);

/// A JSON document as a mathematical tree. An object is the sequence of its
/// members in document order.
pub enum JsonModel {
    Null,
    Bool(bool),
    Number(serde_json::Number),
    Text(Seq<char>),
    Array(Seq<JsonModel>),
    Object(Seq<(Seq<char>, JsonModel)>),
}

/// The tree that a `serde_json::Value` holds.
pub uninterp spec fn value_tree(value: serde_json::Value) -> JsonModel;

/// The document that `serde_json::from_str` reads from a text, or `None`
/// where it rejects the text.
pub uninterp spec fn parsed_text(text: Seq<char>) -> Option<JsonModel>;

/// The compact text that `serde_json::to_string` writes for a value holding
/// the given tree, or `None` where it reports an error.
pub uninterp spec fn rendered_text(tree: JsonModel) -> Option<Seq<char>>;

/// The six kinds of JSON value.
#[derive(Debug, Clone, Copy, PartialEq, Eq, Structural)]
pub enum JsonKind {
    Null,
    Bool,
    Number,
    String,
    Array,
    Object,
}

/// A JSON document.
#[derive(Debug, PartialEq, Eq)]
pub enum Json {
    Null,
    Bool(bool),
    Number(serde_json::Number),
    Text(String),
    Array(Vec<Json>),
    /// The members in document order.
    Object(Vec<(String, Json)>),
}

impl View for Json {
    type V = JsonModel;

    open spec fn view(&self) -> JsonModel {
        tree(*self)
    }
}

/// The tree of a document.
pub open spec fn tree(json: Json) -> JsonModel
    decreases json,
{
    match json {
        Json::Null => JsonModel::Null,
        Json::Bool(b) => JsonModel::Bool(b),
        Json::Number(n) => JsonModel::Number(n),
        Json::Text(s) => JsonModel::Text(s@),
        Json::Array(items) => JsonModel::Array(trees(items@)),
        Json::Object(members) => JsonModel::Object(member_trees(members@)),
    }
}

/// The trees of the items of an array, in order.
pub open spec fn trees(items: Seq<Json>) -> Seq<JsonModel>
    decreases items,
{
    if items.len() == 0 {
        Seq::empty()
    } else {
        trees(items.drop_last()).push(tree(items.last()))
    }
}

/// The members of an object, each key with the tree of its value, in order.
pub open spec fn member_trees(members: Seq<(String, Json)>) -> Seq<(Seq<char>, JsonModel)>
    decreases members,
{
    if members.len() == 0 {
        Seq::empty()
    } else {
        member_trees(members.drop_last()).push((members.last().0@, tree(members.last().1)))
    }
}

/// `trees` keeps the length and goes item by item.
pub proof fn lemma_trees(items: Seq<Json>)
    ensures
        trees(items).len() == items.len(),
        forall|i: int| 0 <= i < items.len() ==> #[trigger] trees(items)[i] == tree(items[i]),
    decreases items.len(),
{
    if items.len() > 0 {
        lemma_trees(items.drop_last());
    }
}

/// `member_trees` keeps the length and goes member by member.
pub proof fn lemma_member_trees(members: Seq<(String, Json)>)
    ensures
        member_trees(members).len() == members.len(),
        forall|i: int|
            0 <= i < members.len() ==> #[trigger] member_trees(members)[i] == (
                members[i].0@,
                tree(members[i].1),
            ),
    decreases members.len(),
{
    if members.len() > 0 {
        lemma_member_trees(members.drop_last());
    }
}

/// No two members have the same key.
pub open spec fn keys_distinct(members: Seq<(Seq<char>, JsonModel)>) -> bool {
    forall|i: int, j: int|
        0 <= i < j < members.len() ==> (#[trigger] members[i]).0 != (#[trigger] members[j]).0
}

/// The value of the first member with the given key.
pub open spec fn member(members: Seq<(Seq<char>, JsonModel)>, key: Seq<char>) -> Option<
    JsonModel,
>
    decreases members.len(),
{
    if members.len() == 0 {
        None
    } else if members[0].0 == key {
        Some(members[0].1)
    } else {
        member(members.drop_first(), key)
    }
}

impl JsonModel {
    /// Which of the six kinds of value the tree is.
    pub open spec fn kind(self) -> JsonKind {
        match self {
            JsonModel::Null => JsonKind::Null,
            JsonModel::Bool(_) => JsonKind::Bool,
            JsonModel::Number(_) => JsonKind::Number,
            JsonModel::Text(_) => JsonKind::String,
            JsonModel::Array(_) => JsonKind::Array,
            JsonModel::Object(_) => JsonKind::Object,
        }
    }

    /// No object anywhere in the tree has two members with the same key.
    pub open spec fn well_formed(self) -> bool
        decreases self,
    {
        match self {
            JsonModel::Array(items) => forall|i: int|
                0 <= i < items.len() ==> (#[trigger] items[i]).well_formed(),
            JsonModel::Object(members) => keys_distinct(members) && forall|i: int|
                0 <= i < members.len() ==> (#[trigger] members[i]).1.well_formed(),
            _ => true,
        }
    }

    /// The member of an object with the given key; `None` for a missing key
    /// and for anything that is no object.
    pub open spec fn get(self, key: Seq<char>) -> Option<JsonModel> {
        match self {
            JsonModel::Object(members) => member(members, key),
            _ => None,
        }
    }
}

/// What it means for an array to be well formed, item by item.
pub proof fn lemma_well_formed_array(items: Seq<JsonModel>)
    ensures
        JsonModel::Array(items).well_formed() == (forall|i: int|
            0 <= i < items.len() ==> (#[trigger] items[i]).well_formed()),
{
    assert(JsonModel::Array(items)->Array_0 == items);
}

/// What it means for an object to be well formed, member by member.
pub proof fn lemma_well_formed_object(members: Seq<(Seq<char>, JsonModel)>)
    ensures
        JsonModel::Object(members).well_formed() == (keys_distinct(members) && forall|i: int|
            0 <= i < members.len() ==> (#[trigger] members[i]).1.well_formed()),
{
    assert(JsonModel::Object(members)->Object_0 == members);
}

/// One node of a `serde_json::Value`, with its children still unopened.
pub(crate) enum Opened<'a> {
    Null,
    Bool(bool),
    Number(serde_json::Number),
    Text(String),
    Array(&'a Vec<serde_json::Value>),
    Object(Vec<(String, &'a serde_json::Value)>),
}

impl<'a> Opened<'a> {
    /// The tree of the node, over the trees of its children.
    pub(crate) open spec fn tree(self) -> JsonModel {
        match self {
            Opened::Null => JsonModel::Null,
            Opened::Bool(b) => JsonModel::Bool(b),
            Opened::Number(n) => JsonModel::Number(n),
            Opened::Text(s) => JsonModel::Text(s@),
            Opened::Array(items) => JsonModel::Array(
                items@.map_values(|v: serde_json::Value| value_tree(v)),
            ),
            Opened::Object(members) => JsonModel::Object(
                members@.map_values(|m: (String, &serde_json::Value)| (m.0@, value_tree(*m.1))),
            ),
        }
    }
}

/// One node of a `serde_json::Value` to be built, with its children built
/// already.
pub(crate) enum Parts {
    Null,
    Bool(bool),
    Number(serde_json::Number),
    Text(String),
    Array(Vec<serde_json::Value>),
    Object(Vec<(String, serde_json::Value)>),
}

impl Parts {
    /// The tree of the node, over the trees of its children.
    pub(crate) open spec fn tree(self) -> JsonModel {
        match self {
            Parts::Null => JsonModel::Null,
            Parts::Bool(b) => JsonModel::Bool(b),
            Parts::Number(n) => JsonModel::Number(n),
            Parts::Text(s) => JsonModel::Text(s@),
            Parts::Array(items) => JsonModel::Array(
                items@.map_values(|v: serde_json::Value| value_tree(v)),
            ),
            Parts::Object(members) => JsonModel::Object(
                members@.map_values(|m: (String, serde_json::Value)| (m.0@, value_tree(m.1))),
            ),
        }
    }
}

/// Tells the six variants of `serde_json::Value` apart and hands out what the
/// variant holds: scalars by copy, the items of an array by reference, the
/// members of an object, key by copy and value by reference, in the order in
/// which `serde_json::Map::iter` yields them. The contract states that this
/// is the tree of the value: it is what gives `value_tree` its meaning.
#[verifier::external_body]
pub(crate) fn open_value<'a>(value: &'a serde_json::Value) -> (opened: Opened<'a>)
    ensures
        opened.tree() == value_tree(*value),
{
    match value {
        serde_json::Value::Null => Opened::Null,
        serde_json::Value::Bool(b) => Opened::Bool(*b),
        serde_json::Value::Number(n) => Opened::Number(n.clone()),
        serde_json::Value::String(s) => Opened::Text(s.clone()),
        serde_json::Value::Array(items) => Opened::Array(items),
        serde_json::Value::Object(map) => Opened::Object(
            map.iter().map(|(key, value)| (key.clone(), value)).collect(),
        ),
    }
}

/// Builds a `serde_json::Value` of the given variant. The members of an
/// object are collected into a `serde_json::Map` by its `FromIterator`. This
/// crate builds `serde_json` with `preserve_order`, so the map keeps the
/// order of insertion; with keys that are pairwise distinct no member
/// replaces another, and the value holds the members as given.
#[verifier::external_body]
pub(crate) fn close_value(parts: Parts) -> (value: serde_json::Value)
    requires
        parts.tree() is Object ==> keys_distinct(parts.tree()->Object_0),
    ensures
        value_tree(value) == parts.tree(),
{
    match parts {
        Parts::Null => serde_json::Value::Null,
        Parts::Bool(b) => serde_json::Value::Bool(b),
        Parts::Number(n) => serde_json::Value::Number(n),
        Parts::Text(s) => serde_json::Value::String(s),
        Parts::Array(items) => serde_json::Value::Array(items),
        Parts::Object(members) => serde_json::Value::Object(members.into_iter().collect()),
    }
}

/// `serde_json::from_str` at type `serde_json::Value`. What it reads depends
/// on the text alone; the contract gives that result its name.
#[verifier::external_body]
pub(crate) fn parse_value(text: &str) -> (result: Result<serde_json::Value, serde_json::Error>)
    ensures
        match result {
            Ok(value) => parsed_text(text@) == Some(value_tree(value)),
            Err(_) => parsed_text(text@) is None,
        },
{
    serde_json::from_str::<serde_json::Value>(text)
}

/// `serde_json::to_string` on a `serde_json::Value`. Whether it writes a
/// text, and which, depends on the tree of the value alone; the contract
/// gives that result its name. It does not say that the call succeeds.
#[verifier::external_body]
pub(crate) fn render_value(value: &serde_json::Value) -> (result: Result<
    String,
    serde_json::Error,
>)
    ensures
        match result {
            Ok(text) => rendered_text(value_tree(*value)) == Some(text@),
            Err(_) => rendered_text(value_tree(*value)) is None,
        },
{
    serde_json::to_string(value)
}

/// A copy of a `serde_json::Number` is the same number.
pub assume_specification[ <serde_json::Number as Clone>::clone ](
    number: &serde_json::Number,
) -> (copy: serde_json::Number)
    ensures
        copy == *number,
;

/// The text is no JSON document.
#[derive(Debug, Clone, Copy, PartialEq, Eq, Structural)]
pub struct SyntaxError;

/// The document could not be written as text.
#[derive(Debug, Clone, Copy, PartialEq, Eq, Structural)]
pub struct RenderError;

/// The document that a parse of `text` ended with.
pub fn parse_outcome(parsed: Result<serde_json::Value, serde_json::Error>) -> (result: Result<
    Json,
    SyntaxError,
>)
    ensures
        match parsed {
            Ok(value) => result matches Ok(json) && json@ == value_tree(value),
            Err(_) => result is Err,
        },
{
    match parsed {
        Ok(value) => Ok(Json::from_value(&value)),
        Err(_) => Err(SyntaxError),
    }
}

/// The text that a rendering ended with.
pub fn render_outcome(rendered: Result<String, serde_json::Error>) -> (result: Result<
    String,
    RenderError,
>)
    ensures
        match rendered {
            Ok(text) => result matches Ok(line) && line@ == text@,
            Err(_) => result is Err,
        },
{
    match rendered {
        Ok(text) => Ok(text),
        Err(_) => Err(RenderError),
    }
}

impl Json {
    /// The tree of a `serde_json::Value` as a document.
    pub fn from_value(value: &serde_json::Value) -> (json: Json)
        ensures
            json@ == value_tree(*value),
        decreases value_tree(*value),
    {
        match open_value(value) {
            Opened::Null => Json::Null,
            Opened::Bool(b) => Json::Bool(b),
            Opened::Number(n) => Json::Number(n),
            Opened::Text(s) => Json::Text(s),
            Opened::Array(items) => {
                let ghost children = items@.map_values(|v: serde_json::Value| value_tree(v));
                let mut out: Vec<Json> = Vec::new();
                let mut i: usize = 0;
                while i < items.len()
                    invariant
                        i <= items.len(),
                        out@.len() == i,
                        children == items@.map_values(|v: serde_json::Value| value_tree(v)),
                        value_tree(*value) == JsonModel::Array(children),
                        forall|k: int| 0 <= k < i ==> (#[trigger] out@[k])@ == children[k],
                    decreases items.len() - i,
                {
                    proof {
                        assert(children[i as int] == value_tree(items@[i as int]));
                        assert(decreases_to!(value_tree(*value) => value_tree(*value)->Array_0));
                        assert(decreases_to!(children => children[i as int]));
                    }
                    let child = Json::from_value(&items[i]);
                    out.push(child);
                    i = i + 1;
                }
                let json = Json::Array(out);
                proof {
                    lemma_trees(out@);
                    assert(json@->Array_0 =~= children);
                }
                json
            },
            Opened::Object(members) => {
                let ghost children = members@.map_values(
                    |m: (String, &serde_json::Value)| (m.0@, value_tree(*m.1)),
                );
                let mut out: Vec<(String, Json)> = Vec::new();
                let mut i: usize = 0;
                while i < members.len()
                    invariant
                        i <= members.len(),
                        out@.len() == i,
                        children == members@.map_values(
                            |m: (String, &serde_json::Value)| (m.0@, value_tree(*m.1)),
                        ),
                        value_tree(*value) == JsonModel::Object(children),
                        forall|k: int|
                            0 <= k < i ==> ((#[trigger] out@[k]).0@, out@[k].1@) == children[k],
                    decreases members.len() - i,
                {
                    proof {
                        assert(children[i as int] == (
                            members@[i as int].0@,
                            value_tree(*members@[i as int].1),
                        ));
                        assert(decreases_to!(value_tree(*value) => value_tree(*value)->Object_0));
                        assert(decreases_to!(children => children[i as int]));
                        assert(decreases_to!(children[i as int] => children[i as int].1));
                    }
                    let child = Json::from_value(members[i].1);
                    out.push((members[i].0.clone(), child));
                    i = i + 1;
                }
                let json = Json::Object(out);
                proof {
                    lemma_member_trees(out@);
                    assert(json@->Object_0 =~= children);
                }
                json
            },
        }
    }

    /// A `serde_json::Value` that holds this document.
    pub fn to_value(&self) -> (value: serde_json::Value)
        requires
            self@.well_formed(),
        ensures
            value_tree(value) == self@,
        decreases self,
    {
        match self {
            Json::Null => close_value(Parts::Null),
            Json::Bool(b) => close_value(Parts::Bool(*b)),
            Json::Number(n) => close_value(Parts::Number(n.clone())),
            Json::Text(s) => close_value(Parts::Text(s.clone())),
            Json::Array(items) => {
                let mut out: Vec<serde_json::Value> = Vec::new();
                let mut i: usize = 0;
                proof {
                    lemma_trees(items@);
                    lemma_well_formed_array(trees(items@));
                }
                while i < items.len()
                    invariant
                        i <= items.len(),
                        out@.len() == i,
                        self == Json::Array(*items),
                        trees(items@).len() == items@.len(),
                        forall|k: int|
                            0 <= k < items@.len() ==> #[trigger] trees(items@)[k] == items@[k]@
                                && items@[k]@.well_formed(),
                        forall|k: int| 0 <= k < i ==> value_tree(#[trigger] out@[k]) == items@[k]@,
                    decreases items.len() - i,
                {
                    assert(trees(items@)[i as int] == items@[i as int]@);
                    assert(self->Array_0 == *items);
                    let child = items[i].to_value();
                    out.push(child);
                    i = i + 1;
                }
                let parts = Parts::Array(out);
                proof {
                    lemma_trees(items@);
                    assert(parts.tree()->Array_0 =~= trees(items@));
                }
                close_value(parts)
            },
            Json::Object(members) => {
                let mut out: Vec<(String, serde_json::Value)> = Vec::new();
                let mut i: usize = 0;
                proof {
                    lemma_member_trees(members@);
                    lemma_well_formed_object(member_trees(members@));
                }
                while i < members.len()
                    invariant
                        i <= members.len(),
                        out@.len() == i,
                        self == Json::Object(*members),
                        member_trees(members@).len() == members@.len(),
                        forall|k: int|
                            0 <= k < members@.len() ==> #[trigger] member_trees(members@)[k] == (
                                members@[k].0@,
                                members@[k].1@,
                            ) && members@[k].1@.well_formed(),
                        forall|k: int|
                            0 <= k < i ==> (#[trigger] out@[k]).0@ == members@[k].0@ && value_tree(
                                out@[k].1,
                            ) == members@[k].1@,
                    decreases members.len() - i,
                {
                    assert(member_trees(members@)[i as int].1 == members@[i as int].1@);
                    assert(self->Object_0 == *members);
                    let child = members[i].1.to_value();
                    out.push((members[i].0.clone(), child));
                    i = i + 1;
                }
                let parts = Parts::Object(out);
                proof {
                    lemma_member_trees(members@);
                    lemma_well_formed_object(member_trees(members@));
                    assert(parts.tree()->Object_0 =~= member_trees(members@));
                }
                close_value(parts)
            },
        }
    }

    /// Reads a document from JSON text.
    pub fn parse(text: &str) -> (result: Result<Json, SyntaxError>)
        ensures
            match parsed_text(text@) {
                Some(tree) => result matches Ok(json) && json@ == tree,
                None => result is Err,
            },
    {
        parse_outcome(parse_value(text))
    }

    /// Writes the document as compact JSON text on one line: the text that
    /// `serde_json` writes for it, and an error exactly where `serde_json`
    /// reports one.
    pub fn render(&self) -> (result: Result<String, RenderError>)
        requires
            self@.well_formed(),
        ensures
            match rendered_text(self@) {
                Some(text) => result matches Ok(line) && line@ == text,
                None => result is Err,
            },
    {
        let value = self.to_value();
        render_outcome(render_value(&value))
    }

    /// Which of the six kinds of value the document is.
    pub fn kind(&self) -> (kind: JsonKind)
        ensures
            kind == self@.kind(),
    {
        match self {
            Json::Null => JsonKind::Null,
            Json::Bool(_) => JsonKind::Bool,
            Json::Number(_) => JsonKind::Number,
            Json::Text(_) => JsonKind::String,
            Json::Array(_) => JsonKind::Array,
            Json::Object(_) => JsonKind::Object,
        }
    }

    /// The member of an object with the given key: the first, should there
    /// be several. `None` for a missing key and for anything that is no
    /// object.
    pub fn get(&self, key: &str) -> (found: Option<&Json>)
        ensures
            match found {
                Some(json) => self@.get(key@) == Some(json@),
                None => self@.get(key@) is None,
            },
    {
        match self {
            Json::Object(members) => {
                let ghost all = member_trees(members@);
                let mut i: usize = 0;
                proof {
                    lemma_member_trees(members@);
                    assert(all.skip(0) =~= all);
                }
                while i < members.len()
                    invariant
                        i <= members.len(),
                        all == member_trees(members@),
                        all.len() == members@.len(),
                        forall|k: int|
                            0 <= k < members@.len() ==> #[trigger] all[k] == (
                                members@[k].0@,
                                members@[k].1@,
                            ),
                        self@ == JsonModel::Object(all),
                        member(all, key@) == member(all.skip(i as int), key@),
                    decreases members.len() - i,
                {
                    assert(all.skip(i as int)[0] == all[i as int]);
                    if same_text(members[i].0.as_str(), key) {
                        return Some(&members[i].1);
                    }
                    assert(all.skip(i as int).drop_first() =~= all.skip(i + 1));
                    i = i + 1;
                }
                None
            },
            _ => None,
        }
    }

    /// Whether no object in the document has two members with the same key.
    pub fn is_well_formed(&self) -> (well: bool)
        ensures
            well == self@.well_formed(),
        decreases self,
    {
        match self {
            Json::Array(items) => {
                let ghost all = trees(items@);
                let mut i: usize = 0;
                proof {
                    lemma_trees(items@);
                }
                while i < items.len()
                    invariant
                        i <= items.len(),
                        self == Json::Array(*items),
                        all == trees(items@),
                        all.len() == items@.len(),
                        forall|k: int| 0 <= k < items@.len() ==> #[trigger] all[k] == items@[k]@,
                        self@ == JsonModel::Array(all),
                        forall|k: int| 0 <= k < i ==> (#[trigger] all[k]).well_formed(),
                    decreases items.len() - i,
                {
                    if !items[i].is_well_formed() {
                        proof {
                            lemma_well_formed_array(all);
                            assert(!all[i as int].well_formed());
                        }
                        return false;
                    }
                    i = i + 1;
                }
                proof {
                    lemma_well_formed_array(all);
                }
                true
            },
            Json::Object(members) => {
                let ghost all = member_trees(members@);
                let mut i: usize = 0;
                proof {
                    lemma_member_trees(members@);
                }
                while i < members.len()
                    invariant
                        i <= members.len(),
                        self == Json::Object(*members),
                        all == member_trees(members@),
                        all.len() == members@.len(),
                        forall|k: int|
                            0 <= k < members@.len() ==> #[trigger] all[k] == (
                                members@[k].0@,
                                members@[k].1@,
                            ),
                        self@ == JsonModel::Object(all),
                        forall|k: int| 0 <= k < i ==> (#[trigger] all[k]).1.well_formed(),
                        forall|a: int, b: int|
                            0 <= a < b < i ==> (#[trigger] all[a]).0 != (#[trigger] all[b]).0,
                    decreases members.len() - i,
                {
                    if !members[i].1.is_well_formed() {
                        proof {
                            lemma_well_formed_object(all);
                            assert(!all[i as int].1.well_formed());
                        }
                        return false;
                    }
                    let mut j: usize = 0;
                    while j < i
                        invariant
                            j <= i < members.len(),
                            all == member_trees(members@),
                            all.len() == members@.len(),
                            forall|k: int|
                                0 <= k < members@.len() ==> #[trigger] all[k] == (
                                    members@[k].0@,
                                    members@[k].1@,
                                ),
                            self@ == JsonModel::Object(all),
                            forall|a: int| 0 <= a < j ==> (#[trigger] all[a]).0 != all[i as int].0,
                        decreases i - j,
                    {
                        if same_text(members[j].0.as_str(), members[i].0.as_str()) {
                            proof {
                                lemma_well_formed_object(all);
                                assert(all[j as int].0 == all[i as int].0);
                                assert(!keys_distinct(all));
                            }
                            return false;
                        }
                        j = j + 1;
                    }
                    i = i + 1;
                }
                proof {
                    lemma_well_formed_object(all);
                }
                true
            },
            _ => true,
        }
    }
}

} // verus!

