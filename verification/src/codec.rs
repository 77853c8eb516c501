//! The codec for the two lines a task exchanges with the host: the input
//! properties it reads from standard input and the output properties it
//! writes to standard output. Both are one JSON document of the shape
//! `{"properties":{<name>:<value>,...}}`.

use vstd::prelude::*;
use crate::json::{
    Json, JsonKind, JsonModel, RenderError, SyntaxError, lemma_member_trees,
    lemma_well_formed_object, member, member_trees, parsed_text, rendered_text,
};
use crate::property::{
    PropertyValue, PropertyValueModel, TaskItem, TaskItemModel, decode_value, items_model,
    lemma_value_round_trip,
};
use crate::task_info::{PropertyModel, PropertyType, TaskInfoStruct, names_distinct};
use crate::text::same_text;

verus! {

/// Why a line of input was refused.
#[derive(Debug, PartialEq, Eq)]
pub enum DecodeError {
    /// The line is no JSON document.
    InvalidJson,
    /// A required input property is absent; this is its name.
    MissingRequiredProperty(String),
    /// The value supplied for an input property has not the shape of the
    /// declared type; `actual` is the kind of JSON value that was found.
    TypeMismatch { name: String, expected: PropertyType, actual: JsonKind },
}

/// A `DecodeError` with its name as a sequence of characters.
pub enum DecodeErrorModel {
    InvalidJson,
    MissingRequiredProperty(Seq<char>),
    TypeMismatch { name: Seq<char>, expected: PropertyType, actual: JsonKind },
}

impl View for DecodeError {
    type V = DecodeErrorModel;

    open spec fn view(&self) -> DecodeErrorModel {
        match self {
            DecodeError::InvalidJson => DecodeErrorModel::InvalidJson,
            DecodeError::MissingRequiredProperty(name) => DecodeErrorModel::MissingRequiredProperty(
                name@,
            ),
            DecodeError::TypeMismatch { name, expected, actual } => DecodeErrorModel::TypeMismatch {
                name: name@,
                expected: *expected,
                actual: *actual,
            },
        }
    }
}

/// Named property values. An entry set later stands for its name in place
/// of an earlier one.
#[derive(Debug, PartialEq, Eq)]
pub struct PropertyBag {
    pub entries: Vec<(String, PropertyValue)>,
}

/// The entries of a bag, each name and value by its view.
pub open spec fn entries_model(entries: Seq<(String, PropertyValue)>) -> Seq<
    (Seq<char>, PropertyValueModel),
> {
    entries.map_values(|entry: (String, PropertyValue)| (entry.0@, entry.1@))
}

impl View for PropertyBag {
    type V = Seq<(Seq<char>, PropertyValueModel)>;

    open spec fn view(&self) -> Seq<(Seq<char>, PropertyValueModel)> {
        entries_model(self.entries@)
    }
}

/// The value that stands for `name`: that of the last entry of that name.
pub open spec fn lookup(entries: Seq<(Seq<char>, PropertyValueModel)>, name: Seq<char>) -> Option<
    PropertyValueModel,
>
    decreases entries.len(),
{
    if entries.len() == 0 {
        None
    } else if entries.last().0 == name {
        Some(entries.last().1)
    } else {
        lookup(entries.drop_last(), name)
    }
}

/// No two entries have the same name.
pub open spec fn entry_names_distinct(entries: Seq<(Seq<char>, PropertyValueModel)>) -> bool {
    forall|i: int, j: int|
        0 <= i < j < entries.len() ==> (#[trigger] entries[i]).0 != (#[trigger] entries[j]).0
}

/// The document that holds the given members under `properties`.
pub open spec fn envelope(members: Seq<(Seq<char>, JsonModel)>) -> JsonModel {
    JsonModel::Object(seq![("properties"@, JsonModel::Object(members))])
}

/// The members under `properties` in a document. A document without such
/// an object supplies nothing.
pub open spec fn input_members(document: JsonModel) -> Seq<(Seq<char>, JsonModel)> {
    match document.get("properties"@) {
        Some(JsonModel::Object(members)) => members,
        _ => Seq::empty(),
    }
}

/// The value supplied for a name. A member that is `null` supplies nothing.
pub open spec fn supplied(members: Seq<(Seq<char>, JsonModel)>, name: Seq<char>) -> Option<
    JsonModel,
> {
    match member(members, name) {
        Some(JsonModel::Null) | None => None,
        Some(json) => Some(json),
    }
}

/// The property is a required input for which nothing is supplied.
pub open spec fn missing(members: Seq<(Seq<char>, JsonModel)>, property: PropertyModel) -> bool {
    !property.output && property.required && supplied(members, property.name) is None
}

/// The property is an input, and what is supplied for it has not the shape
/// of its type.
pub open spec fn mismatched(members: Seq<(Seq<char>, JsonModel)>, property: PropertyModel) -> bool {
    &&& !property.output
    &&& supplied(members, property.name) matches Some(json)
    &&& decode_value(json, property.property_type) is None
}

/// The index of the first property, in declaration order, that is missing.
pub open spec fn first_missing(
    members: Seq<(Seq<char>, JsonModel)>,
    schema: Seq<PropertyModel>,
) -> Option<int>
    decreases schema.len(),
{
    if schema.len() == 0 {
        None
    } else {
        match first_missing(members, schema.drop_last()) {
            Some(i) => Some(i),
            None => if missing(members, schema.last()) {
                Some(schema.len() - 1)
            } else {
                None
            },
        }
    }
}

/// The index of the first property, in declaration order, that is
/// mismatched.
pub open spec fn first_mismatched(
    members: Seq<(Seq<char>, JsonModel)>,
    schema: Seq<PropertyModel>,
) -> Option<int>
    decreases schema.len(),
{
    if schema.len() == 0 {
        None
    } else {
        match first_mismatched(members, schema.drop_last()) {
            Some(i) => Some(i),
            None => if mismatched(members, schema.last()) {
                Some(schema.len() - 1)
            } else {
                None
            },
        }
    }
}

/// The entry that the input gives for a property: its name and typed value,
/// where the property is an input and a value of its type is supplied.
pub open spec fn given(members: Seq<(Seq<char>, JsonModel)>, property: PropertyModel) -> Option<
    (Seq<char>, PropertyValueModel),
> {
    if property.output {
        None
    } else {
        match supplied(members, property.name) {
            Some(json) => match decode_value(json, property.property_type) {
                Some(value) => Some((property.name, value)),
                None => None,
            },
            None => None,
        }
    }
}

/// The entries that the input gives for the properties, in declaration
/// order.
pub open spec fn collected(
    members: Seq<(Seq<char>, JsonModel)>,
    schema: Seq<PropertyModel>,
) -> Seq<(Seq<char>, PropertyValueModel)>
    decreases schema.len(),
{
    if schema.len() == 0 {
        Seq::empty()
    } else {
        match given(members, schema.last()) {
            Some(entry) => collected(members, schema.drop_last()).push(entry),
            None => collected(members, schema.drop_last()),
        }
    }
}

/// What decoding the members of an input against a schema gives: the first
/// missing required input is reported; failing that, the first input whose
/// value has the wrong shape; failing that, the typed values of the inputs
/// that are supplied.
pub open spec fn decoded(
    members: Seq<(Seq<char>, JsonModel)>,
    schema: Seq<PropertyModel>,
) -> Result<Seq<(Seq<char>, PropertyValueModel)>, DecodeErrorModel> {
    match first_missing(members, schema) {
        Some(i) => Err(DecodeErrorModel::MissingRequiredProperty(schema[i].name)),
        None => match first_mismatched(members, schema) {
            Some(i) => Err(
                DecodeErrorModel::TypeMismatch {
                    name: schema[i].name,
                    expected: schema[i].property_type,
                    actual: supplied(members, schema[i].name)->0.kind(),
                },
            ),
            None => Ok(collected(members, schema)),
        },
    }
}

/// What decoding a line gives, from what the line was read as.
pub open spec fn decode_outcome(read: Option<JsonModel>, schema: Seq<PropertyModel>) -> Result<
    Seq<(Seq<char>, PropertyValueModel)>,
    DecodeErrorModel,
> {
    match read {
        Some(document) => decoded(input_members(document), schema),
        None => Err(DecodeErrorModel::InvalidJson),
    }
}

/// What decoding returned, the bag or the error by its view.
pub open spec fn result_model(result: Result<PropertyBag, DecodeError>) -> Result<
    Seq<(Seq<char>, PropertyValueModel)>,
    DecodeErrorModel,
> {
    match result {
        Ok(bag) => Ok(bag@),
        Err(error) => Err(error@),
    }
}

/// The members written for the declared outputs: one for each output
/// property that the bag has a value for, in declaration order.
pub open spec fn emitted(
    bag: Seq<(Seq<char>, PropertyValueModel)>,
    schema: Seq<PropertyModel>,
) -> Seq<(Seq<char>, JsonModel)>
    decreases schema.len(),
{
    if schema.len() == 0 {
        Seq::empty()
    } else {
        let property = schema.last();
        match lookup(bag, property.name) {
            Some(value) if property.output => emitted(bag, schema.drop_last()).push(
                (property.name, value.encode()),
            ),
            _ => emitted(bag, schema.drop_last()),
        }
    }
}

/// The document written to standard output.
pub open spec fn output_model(
    bag: Seq<(Seq<char>, PropertyValueModel)>,
    schema: Seq<PropertyModel>,
) -> JsonModel {
    envelope(emitted(bag, schema))
}

/// One member for each entry of a bag, in the order of the entries.
pub open spec fn bag_members(bag: Seq<(Seq<char>, PropertyValueModel)>) -> Seq<
    (Seq<char>, JsonModel),
> {
    Seq::new(bag.len(), |i: int| (bag[i].0, bag[i].1.encode()))
}

/// The document that supplies exactly the entries of a bag.
pub open spec fn bag_document(bag: Seq<(Seq<char>, PropertyValueModel)>) -> JsonModel {
    envelope(bag_members(bag))
}

/// What is put under `properties` is what is found there, and the document
/// has a duplicate key only where the members have.
pub proof fn lemma_envelope(members: Seq<(Seq<char>, JsonModel)>)
    ensures
        input_members(envelope(members)) == members,
        envelope(members).well_formed() == JsonModel::Object(members).well_formed(),
{
    let outer = seq![("properties"@, JsonModel::Object(members))];
    assert(envelope(members)->Object_0 == outer);
    assert(outer[0] == ("properties"@, JsonModel::Object(members)));
    assert(member(outer, "properties"@) == Some(JsonModel::Object(members)));
    lemma_well_formed_object(outer);
}

proof fn lemma_first_missing_found(
    members: Seq<(Seq<char>, JsonModel)>,
    schema: Seq<PropertyModel>,
    at: int,
    upto: int,
)
    requires
        0 <= at < upto <= schema.len(),
        first_missing(members, schema.take(at)) is None,
        missing(members, schema[at]),
    ensures
        first_missing(members, schema.take(upto)) == Some(at),
    decreases upto - at,
{
    assert(schema.take(upto).drop_last() =~= schema.take(upto - 1));
    assert(schema.take(upto).last() == schema[upto - 1]);
    if upto - 1 > at {
        lemma_first_missing_found(members, schema, at, upto - 1);
    }
}

proof fn lemma_first_mismatched_found(
    members: Seq<(Seq<char>, JsonModel)>,
    schema: Seq<PropertyModel>,
    at: int,
    upto: int,
)
    requires
        0 <= at < upto <= schema.len(),
        first_mismatched(members, schema.take(at)) is None,
        mismatched(members, schema[at]),
    ensures
        first_mismatched(members, schema.take(upto)) == Some(at),
    decreases upto - at,
{
    assert(schema.take(upto).drop_last() =~= schema.take(upto - 1));
    assert(schema.take(upto).last() == schema[upto - 1]);
    if upto - 1 > at {
        lemma_first_mismatched_found(members, schema, at, upto - 1);
    }
}

/// What `first_missing` finds is the least index of a missing property.
pub proof fn lemma_first_missing(members: Seq<(Seq<char>, JsonModel)>, schema: Seq<PropertyModel>)
    ensures
        match first_missing(members, schema) {
            Some(i) => 0 <= i < schema.len() && missing(members, schema[i]) && forall|j: int|
                0 <= j < i ==> !missing(members, #[trigger] schema[j]),
            None => forall|j: int| 0 <= j < schema.len() ==> !missing(members, #[trigger] schema[j]),
        },
    decreases schema.len(),
{
    if schema.len() > 0 {
        let before = schema.drop_last();
        lemma_first_missing(members, before);
        match first_missing(members, before) {
            Some(i) => {
                assert(before[i] == schema[i]);
                assert forall|j: int| 0 <= j < i implies !missing(members, #[trigger] schema[j]) by {
                    assert(before[j] == schema[j]);
                }
            },
            None => {
                assert forall|j: int| 0 <= j < before.len() implies !missing(
                    members,
                    #[trigger] schema[j],
                ) by {
                    assert(before[j] == schema[j]);
                }
            },
        }
    }
}

/// What `first_mismatched` finds is the least index of a mismatched
/// property.
pub proof fn lemma_first_mismatched(
    members: Seq<(Seq<char>, JsonModel)>,
    schema: Seq<PropertyModel>,
)
    ensures
        match first_mismatched(members, schema) {
            Some(i) => 0 <= i < schema.len() && mismatched(members, schema[i]) && forall|j: int|
                0 <= j < i ==> !mismatched(members, #[trigger] schema[j]),
            None => forall|j: int|
                0 <= j < schema.len() ==> !mismatched(members, #[trigger] schema[j]),
        },
    decreases schema.len(),
{
    if schema.len() > 0 {
        let before = schema.drop_last();
        lemma_first_mismatched(members, before);
        match first_mismatched(members, before) {
            Some(i) => {
                assert(before[i] == schema[i]);
                assert forall|j: int| 0 <= j < i implies !mismatched(
                    members,
                    #[trigger] schema[j],
                ) by {
                    assert(before[j] == schema[j]);
                }
            },
            None => {
                assert forall|j: int| 0 <= j < before.len() implies !mismatched(
                    members,
                    #[trigger] schema[j],
                ) by {
                    assert(before[j] == schema[j]);
                }
            },
        }
    }
}

/// The members of the `properties` object that a lookup found, if it found
/// an object.
spec fn found_members(found: Option<&Json>) -> Seq<(Seq<char>, JsonModel)> {
    match found {
        Some(json) => match json@ {
            JsonModel::Object(members) => members,
            _ => Seq::empty(),
        },
        None => Seq::empty(),
    }
}

fn find_supplied<'a>(found: Option<&'a Json>, name: &str) -> (value: Option<&'a Json>)
    ensures
        match supplied(found_members(found), name@) {
            Some(json) => value matches Some(read) && read@ == json,
            None => value is None,
        },
{
    match found {
        Some(json) => {
            proof {
                if !(json@ is Object) {
                    assert(json@.get(name@) is None);
                    assert(member(Seq::empty(), name@) is None);
                }
            }
            match json.get(name) {
                Some(Json::Null) | None => None,
                Some(value) => Some(value),
            }
        },
        None => {
            assert(member(Seq::empty(), name@) is None);
            None
        },
    }
}

impl PropertyBag {
    /// A bag without entries.
    pub fn new() -> (bag: PropertyBag)
        ensures
            bag@ == Seq::<(Seq<char>, PropertyValueModel)>::empty(),
    {
        let bag = PropertyBag { entries: Vec::new() };
        assert(bag@ =~= Seq::empty());
        bag
    }

    /// Lets `value` stand for `name` from now on.
    pub fn set(&mut self, name: String, value: PropertyValue)
        ensures
            final(self)@ == old(self)@.push((name@, value@)),
            lookup(final(self)@, name@) == Some(value@),
            forall|other: Seq<char>|
                other != name@ ==> lookup(final(self)@, other) == lookup(old(self)@, other),
    {
        let ghost added = (name@, value@);
        self.entries.push((name, value));
        proof {
            assert(self@ =~= old(self)@.push(added));
            assert(self@.drop_last() =~= old(self)@);
            assert(self@.last() == added);
        }
    }

    /// The value that stands for `name`.
    pub fn get(&self, name: &str) -> (found: Option<&PropertyValue>)
        ensures
            match lookup(self@, name@) {
                Some(value) => found matches Some(read) && read@ == value,
                None => found is None,
            },
    {
        let ghost all = self@;
        let mut i: usize = self.entries.len();
        assert(all.take(i as int) =~= all);
        while i > 0
            invariant
                i <= self.entries.len(),
                all == self@,
                lookup(all, name@) == lookup(all.take(i as int), name@),
            decreases i,
        {
            assert(all.take(i as int).last() == all[i - 1]);
            assert(all[i - 1] == (self.entries@[i - 1].0@, self.entries@[i - 1].1@));
            if same_text(self.entries[i - 1].0.as_str(), name) {
                return Some(&self.entries[i - 1].1);
            }
            assert(all.take(i as int).drop_last() =~= all.take(i - 1));
            i = i - 1;
        }
        None
    }

    /// The document that supplies exactly the entries of the bag, each
    /// under its name: what the host writes to hand these values in.
    pub fn to_document(&self) -> (json: Json)
        ensures
            json@ == bag_document(self@),
    {
        let ghost wanted = bag_members(self@);
        let mut members: Vec<(String, Json)> = Vec::new();
        let mut i: usize = 0;
        while i < self.entries.len()
            invariant
                i <= self.entries.len(),
                wanted == bag_members(self@),
                members@.len() == i,
                forall|k: int|
                    0 <= k < i ==> ((#[trigger] members@[k]).0@, members@[k].1@) == wanted[k],
            decreases self.entries.len() - i,
        {
            assert(self@[i as int] == (self.entries@[i as int].0@, self.entries@[i as int].1@));
            members.push((self.entries[i].0.clone(), self.entries[i].1.to_json()));
            i = i + 1;
        }
        proof {
            lemma_member_trees(members@);
            assert(member_trees(members@) =~= wanted);
        }
        wrap(members)
    }
}

/// The document that holds the given members under `properties`.
fn wrap(members: Vec<(String, Json)>) -> (json: Json)
    ensures
        json@ == envelope(member_trees(members@)),
{
    let inner = Json::Object(members);
    let mut outer: Vec<(String, Json)> = Vec::new();
    outer.push(("properties".to_owned(), inner));
    let json = Json::Object(outer);
    proof {
        lemma_member_trees(outer@);
        assert(json@->Object_0 =~= envelope(member_trees(members@))->Object_0);
    }
    json
}

/// Decodes the input properties of a task from a document: for each input
/// property of the schema, in declaration order, the typed value that the
/// document supplies under `properties`.
///
/// A required input that is absent is reported before any value of the
/// wrong shape is.
pub fn decode_properties(document: &Json, schema: &TaskInfoStruct) -> (result: Result<
    PropertyBag,
    DecodeError,
>)
    ensures
        result_model(result) == decoded(input_members(document@), schema@.properties),
{
    let found = document.get("properties");
    let ghost members = input_members(document@);
    let ghost declared = schema@.properties;
    assert(found_members(found) == members);
    let count = schema.properties.len();
    let mut i: usize = 0;
    assert(declared.take(0) =~= Seq::empty());
    while i < count
        invariant
            i <= count == schema.properties.len(),
            declared == schema@.properties,
            found_members(found) == members,
            members == input_members(document@),
            first_missing(members, declared.take(i as int)) is None,
        decreases count - i,
    {
        let property = &schema.properties[i];
        assert(declared[i as int] == property@);
        if !property.output && property.required {
            if find_supplied(found, property.name.as_str()).is_none() {
                proof {
                    lemma_first_missing_found(members, declared, i as int, count as int);
                    assert(declared.take(count as int) =~= declared);
                }
                return Err(DecodeError::MissingRequiredProperty(property.name.clone()));
            }
        }
        proof {
            assert(declared.take(i + 1).drop_last() =~= declared.take(i as int));
            assert(declared.take(i + 1).last() == declared[i as int]);
        }
        i = i + 1;
    }
    assert(declared.take(count as int) =~= declared);
    let mut bag = PropertyBag::new();
    let mut i: usize = 0;
    while i < count
        invariant
            i <= count == schema.properties.len(),
            declared == schema@.properties,
            found_members(found) == members,
            members == input_members(document@),
            first_missing(members, declared) is None,
            first_mismatched(members, declared.take(i as int)) is None,
            bag@ == collected(members, declared.take(i as int)),
        decreases count - i,
    {
        let property = &schema.properties[i];
        assert(declared[i as int] == property@);
        proof {
            assert(declared.take(i + 1).drop_last() =~= declared.take(i as int));
            assert(declared.take(i + 1).last() == declared[i as int]);
        }
        if !property.output {
            match find_supplied(found, property.name.as_str()) {
                Some(json) => {
                    match PropertyValue::from_json(json, property.property_type) {
                        Some(value) => {
                            bag.set(property.name.clone(), value);
                        },
                        None => {
                            proof {
                                lemma_first_mismatched_found(
                                    members,
                                    declared,
                                    i as int,
                                    count as int,
                                );
                                assert(declared.take(count as int) =~= declared);
                            }
                            return Err(
                                DecodeError::TypeMismatch {
                                    name: property.name.clone(),
                                    expected: property.property_type,
                                    actual: json.kind(),
                                },
                            );
                        },
                    }
                },
                None => {},
            }
        }
        i = i + 1;
    }
    assert(declared.take(count as int) =~= declared);
    Ok(bag)
}

/// What decoding gives for a line, from what the parser made of the line.
pub fn decode_parsed(parsed: Result<Json, SyntaxError>, schema: &TaskInfoStruct) -> (result: Result<
    PropertyBag,
    DecodeError,
>)
    ensures
        result_model(result) == decode_outcome(
            match parsed {
                Ok(document) => Some(document@),
                Err(_) => None,
            },
            schema@.properties,
        ),
{
    match parsed {
        Ok(document) => decode_properties(&document, schema),
        Err(_) => Err(DecodeError::InvalidJson),
    }
}

/// Decodes the one line of standard input against the schema of the task.
///
/// The line is refused where it is no JSON document, where a required input
/// property is absent, and where a supplied value has not the shape of the
/// declared type. Output properties are not read.
pub fn decode_input(line: &str, schema: &TaskInfoStruct) -> (result: Result<PropertyBag, DecodeError>)
    ensures
        result_model(result) == decode_outcome(parsed_text(line@), schema@.properties),
{
    decode_parsed(Json::parse(line), schema)
}

/// Every declared output property has a value in the bag.
pub open spec fn outputs_complete(
    bag: Seq<(Seq<char>, PropertyValueModel)>,
    schema: Seq<PropertyModel>,
) -> bool {
    forall|i: int|
        0 <= i < schema.len() && (#[trigger] schema[i]).output ==> lookup(bag, schema[i].name) is Some
}

pub(crate) proof fn lemma_emitted_names(
    bag: Seq<(Seq<char>, PropertyValueModel)>,
    schema: Seq<PropertyModel>,
)
    ensures
        forall|k: int|
            0 <= k < emitted(bag, schema).len() ==> exists|i: int|
                0 <= i < schema.len() && (#[trigger] schema[i]).name == (#[trigger] emitted(
                    bag,
                    schema,
                )[k]).0,
    decreases schema.len(),
{
    if schema.len() > 0 {
        let before = schema.drop_last();
        lemma_emitted_names(bag, before);
        let written = emitted(bag, schema);
        assert forall|k: int| 0 <= k < written.len() implies exists|i: int|
            0 <= i < schema.len() && (#[trigger] schema[i]).name == (#[trigger] written[k]).0 by {
            if k < emitted(bag, before).len() {
                assert(written[k] == emitted(bag, before)[k]);
                let i = choose|i: int|
                    0 <= i < before.len() && (#[trigger] before[i]).name == emitted(bag, before)[k].0;
                assert(schema[i] == before[i]);
            } else {
                assert(schema[schema.len() - 1].name == written[k].0);
            }
        }
    }
}

/// The members written for the outputs of a schema with unique names have
/// no duplicate key.
pub proof fn lemma_emitted_well_formed(
    bag: Seq<(Seq<char>, PropertyValueModel)>,
    schema: Seq<PropertyModel>,
)
    requires
        names_distinct(schema),
    ensures
        output_model(bag, schema).well_formed(),
    decreases schema.len(),
{
    lemma_emitted_members_well_formed(bag, schema);
    lemma_envelope(emitted(bag, schema));
}

proof fn lemma_emitted_members_well_formed(
    bag: Seq<(Seq<char>, PropertyValueModel)>,
    schema: Seq<PropertyModel>,
)
    requires
        names_distinct(schema),
    ensures
        JsonModel::Object(emitted(bag, schema)).well_formed(),
    decreases schema.len(),
{
    let written = emitted(bag, schema);
    if schema.len() > 0 {
        let before = schema.drop_last();
        let earlier = emitted(bag, before);
        assert(names_distinct(before)) by {
            assert forall|i: int, j: int| 0 <= i < j < before.len() implies (#[trigger] before[i]).name
                != (#[trigger] before[j]).name by {
                assert(before[i] == schema[i] && before[j] == schema[j]);
            }
        }
        lemma_emitted_members_well_formed(bag, before);
        lemma_well_formed_object(earlier);
        lemma_emitted_names(bag, before);
        if written.len() > earlier.len() {
            let property = schema.last();
            lemma_value_round_trip(lookup(bag, property.name)->0);
            assert forall|a: int, b: int| 0 <= a < b < written.len() implies (#[trigger] written[a]).0
                != (#[trigger] written[b]).0 by {
                assert(written[a] == earlier[a]);
                if b < earlier.len() {
                    assert(written[b] == earlier[b]);
                } else {
                    let i = choose|i: int|
                        0 <= i < before.len() && (#[trigger] before[i]).name == earlier[a].0;
                    assert(before[i] == schema[i]);
                    assert(schema[schema.len() - 1] == property);
                }
            }
            assert forall|k: int| 0 <= k < written.len() implies (#[trigger] written[k]).1.well_formed() by {
                if k < earlier.len() {
                    assert(written[k] == earlier[k]);
                }
            }
        }
    }
    lemma_well_formed_object(written);
}

/// The document written to standard output: under `properties`, one member
/// for each declared output property that the bag has a value for, in
/// declaration order. Entries of the bag that are no declared output are
/// left out.
pub fn output_document(bag: &PropertyBag, schema: &TaskInfoStruct) -> (json: Json)
    ensures
        json@ == output_model(bag@, schema@.properties),
{
    let ghost declared = schema@.properties;
    let mut members: Vec<(String, Json)> = Vec::new();
    let mut i: usize = 0;
    assert(declared.take(0) =~= Seq::empty());
    while i < schema.properties.len()
        invariant
            i <= schema.properties.len(),
            declared == schema@.properties,
            members@.len() == emitted(bag@, declared.take(i as int)).len(),
            forall|k: int|
                0 <= k < members@.len() ==> ((#[trigger] members@[k]).0@, members@[k].1@)
                    == emitted(bag@, declared.take(i as int))[k],
        decreases schema.properties.len() - i,
    {
        let property = &schema.properties[i];
        proof {
            assert(declared[i as int] == property@);
            assert(declared.take(i + 1).drop_last() =~= declared.take(i as int));
            assert(declared.take(i + 1).last() == declared[i as int]);
        }
        if property.output {
            match bag.get(property.name.as_str()) {
                Some(value) => {
                    members.push((property.name.clone(), value.to_json()));
                },
                None => {},
            }
        }
        i = i + 1;
    }
    proof {
        assert(declared.take(schema.properties.len() as int) =~= declared);
        lemma_member_trees(members@);
        assert(member_trees(members@) =~= emitted(bag@, declared));
    }
    wrap(members)
}

/// Whether every declared output property has a value in the bag. The host
/// may refuse an output that leaves one out; `encode_output` writes what
/// it is given.
pub fn outputs_are_complete(bag: &PropertyBag, schema: &TaskInfoStruct) -> (complete: bool)
    ensures
        complete == outputs_complete(bag@, schema@.properties),
{
    let ghost declared = schema@.properties;
    let mut i: usize = 0;
    while i < schema.properties.len()
        invariant
            i <= schema.properties.len(),
            declared == schema@.properties,
            forall|k: int|
                0 <= k < i && (#[trigger] declared[k]).output ==> lookup(bag@, declared[k].name) is Some,
        decreases schema.properties.len() - i,
    {
        let property = &schema.properties[i];
        assert(declared[i as int] == property@);
        if property.output && bag.get(property.name.as_str()).is_none() {
            return false;
        }
        i = i + 1;
    }
    true
}

/// Encodes the output properties of a task as the one line of JSON that is
/// written to standard output.
pub fn encode_output(bag: &PropertyBag, schema: &TaskInfoStruct) -> (result: Result<
    String,
    RenderError,
>)
    requires
        schema@.well_formed(),
    ensures
        match rendered_text(output_model(bag@, schema@.properties)) {
            Some(text) => result matches Ok(line) && line@ == text,
            None => result is Err,
        },
{
    let document = output_document(bag, schema);
    proof {
        lemma_emitted_well_formed(bag@, schema@.properties);
    }
    document.render()
}

/// The task item that stands for `name`, if a task item does.
pub open spec fn item_of(bag: Seq<(Seq<char>, PropertyValueModel)>, name: Seq<char>) -> Option<
    TaskItemModel,
> {
    match lookup(bag, name) {
        Some(PropertyValueModel::ITaskItem(item)) => Some(item),
        _ => None,
    }
}

/// The task items that stand for `name`, if an array of task items does.
pub open spec fn items_of(bag: Seq<(Seq<char>, PropertyValueModel)>, name: Seq<char>) -> Option<
    Seq<TaskItemModel>,
> {
    match lookup(bag, name) {
        Some(PropertyValueModel::ITaskItemArray(items)) => Some(items),
        _ => None,
    }
}

/// The string that stands for `name`, if a string does.
pub open spec fn text_of(bag: Seq<(Seq<char>, PropertyValueModel)>, name: Seq<char>) -> Option<
    Seq<char>,
> {
    match lookup(bag, name) {
        Some(PropertyValueModel::String(text)) => Some(text),
        _ => None,
    }
}

/// The boolean that stands for `name`, if a boolean does.
pub open spec fn flag_of(bag: Seq<(Seq<char>, PropertyValueModel)>, name: Seq<char>) -> Option<
    bool,
> {
    match lookup(bag, name) {
        Some(PropertyValueModel::Bool(flag)) => Some(flag),
        _ => None,
    }
}

impl PropertyBag {
    /// The task item that stands for `name`, if a task item does.
    pub fn item(&self, name: &str) -> (found: Option<&TaskItem>)
        ensures
            match item_of(self@, name@) {
                Some(item) => found matches Some(read) && read@ == item,
                None => found is None,
            },
    {
        match self.get(name) {
            Some(PropertyValue::ITaskItem(item)) => Some(item),
            _ => None,
        }
    }

    /// The task items that stand for `name`, if an array of task items does.
    pub fn items(&self, name: &str) -> (found: Option<&Vec<TaskItem>>)
        ensures
            match items_of(self@, name@) {
                Some(items) => found matches Some(read) && items_model(read@) == items,
                None => found is None,
            },
    {
        match self.get(name) {
            Some(PropertyValue::ITaskItemArray(items)) => Some(items),
            _ => None,
        }
    }

    /// The string that stands for `name`, if a string does.
    pub fn text(&self, name: &str) -> (found: Option<&String>)
        ensures
            match text_of(self@, name@) {
                Some(text) => found matches Some(read) && read@ == text,
                None => found is None,
            },
    {
        match self.get(name) {
            Some(PropertyValue::String(text)) => Some(text),
            _ => None,
        }
    }

    /// The boolean that stands for `name`, if a boolean does.
    pub fn flag(&self, name: &str) -> (found: Option<bool>)
        ensures
            found == flag_of(self@, name@),
    {
        match self.get(name) {
            Some(PropertyValue::Bool(flag)) => Some(*flag),
            _ => None,
        }
    }
}

} // verus!
