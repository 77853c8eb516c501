//! What holds of the codec: decoding reports what is missing, accepts what
//! conforms, and reads back what was written.

use vstd::prelude::*;
use crate::codec::{
    DecodeErrorModel, bag_document, bag_members, collected, decoded, emitted,
    entry_names_distinct, first_missing, given, input_members, lemma_emitted_names, lemma_envelope,
    lemma_first_mismatched, lemma_first_missing, lookup, mismatched, missing, output_model,
    outputs_complete, supplied,
};
use crate::json::{JsonModel, lemma_well_formed_object, member};
use crate::property::{PropertyValueModel, decode_value, lemma_value_round_trip};
use crate::task_info::{PropertyModel, names_distinct};

verus! {

proof fn lemma_member_at(members: Seq<(Seq<char>, JsonModel)>, at: int)
    requires
        0 <= at < members.len(),
        forall|j: int| 0 <= j < at ==> (#[trigger] members[j]).0 != members[at].0,
    ensures
        member(members, members[at].0) == Some(members[at].1),
    decreases at,
{
    if at > 0 {
        let rest = members.drop_first();
        assert(rest[at - 1] == members[at]);
        assert forall|j: int| 0 <= j < at - 1 implies (#[trigger] rest[j]).0 != rest[at - 1].0 by {
            assert(rest[j] == members[j + 1]);
        }
        lemma_member_at(rest, at - 1);
        assert(members[0].0 != members[at].0);
    }
}

proof fn lemma_member_none(members: Seq<(Seq<char>, JsonModel)>, key: Seq<char>)
    requires
        forall|j: int| 0 <= j < members.len() ==> (#[trigger] members[j]).0 != key,
    ensures
        member(members, key) is None,
    decreases members.len(),
{
    if members.len() > 0 {
        let rest = members.drop_first();
        assert forall|j: int| 0 <= j < rest.len() implies (#[trigger] rest[j]).0 != key by {
            assert(rest[j] == members[j + 1]);
        }
        lemma_member_none(rest, key);
        assert(members[0].0 != key);
    }
}

proof fn lemma_lookup_at(entries: Seq<(Seq<char>, PropertyValueModel)>, at: int)
    requires
        0 <= at < entries.len(),
        forall|j: int| at < j < entries.len() ==> (#[trigger] entries[j]).0 != entries[at].0,
    ensures
        lookup(entries, entries[at].0) == Some(entries[at].1),
    decreases entries.len(),
{
    if at < entries.len() - 1 {
        let rest = entries.drop_last();
        assert(rest[at] == entries[at]);
        assert forall|j: int| at < j < rest.len() implies (#[trigger] rest[j]).0 != rest[at].0 by {
            assert(rest[j] == entries[j]);
        }
        lemma_lookup_at(rest, at);
        assert(entries[entries.len() - 1].0 != entries[at].0);
    }
}

proof fn lemma_lookup_none(entries: Seq<(Seq<char>, PropertyValueModel)>, name: Seq<char>)
    requires
        forall|j: int| 0 <= j < entries.len() ==> (#[trigger] entries[j]).0 != name,
    ensures
        lookup(entries, name) is None,
    decreases entries.len(),
{
    if entries.len() > 0 {
        let rest = entries.drop_last();
        assert forall|j: int| 0 <= j < rest.len() implies (#[trigger] rest[j]).0 != name by {
            assert(rest[j] == entries[j]);
        }
        lemma_lookup_none(rest, name);
        assert(entries[entries.len() - 1].0 != name);
    }
}

/// A document made from a bag with unique names supplies, for every name,
/// the value that stands for it in the bag.
pub proof fn lemma_bag_document_supplies(bag: Seq<(Seq<char>, PropertyValueModel)>, name: Seq<char>)
    requires
        entry_names_distinct(bag),
    ensures
        supplied(input_members(bag_document(bag)), name) == match lookup(bag, name) {
            Some(value) => Some(value.encode()),
            None => None,
        },
{
    let members = bag_members(bag);
    lemma_envelope(members);
    if exists|i: int| 0 <= i < bag.len() && (#[trigger] bag[i]).0 == name {
        let i = choose|i: int| 0 <= i < bag.len() && (#[trigger] bag[i]).0 == name;
        assert(members[i] == (bag[i].0, bag[i].1.encode()));
        assert forall|j: int| 0 <= j < i implies (#[trigger] members[j]).0 != members[i].0 by {
            assert(members[j].0 == bag[j].0);
        }
        lemma_member_at(members, i);
        lemma_lookup_at(bag, i);
        lemma_value_round_trip(bag[i].1);
    } else {
        assert forall|j: int| 0 <= j < members.len() implies (#[trigger] members[j]).0 != name by {
            assert(members[j].0 == bag[j].0);
        }
        lemma_member_none(members, name);
        lemma_lookup_none(bag, name);
    }
}

proof fn lemma_collected_names(members: Seq<(Seq<char>, JsonModel)>, schema: Seq<PropertyModel>)
    ensures
        forall|k: int|
            0 <= k < collected(members, schema).len() ==> exists|i: int|
                0 <= i < schema.len() && (#[trigger] schema[i]).name == (#[trigger] collected(
                    members,
                    schema,
                )[k]).0,
    decreases schema.len(),
{
    if schema.len() > 0 {
        let before = schema.drop_last();
        lemma_collected_names(members, before);
        let read = collected(members, schema);
        assert forall|k: int| 0 <= k < read.len() implies exists|i: int|
            0 <= i < schema.len() && (#[trigger] schema[i]).name == (#[trigger] read[k]).0 by {
            if k < collected(members, before).len() {
                assert(read[k] == collected(members, before)[k]);
                let i = choose|i: int|
                    0 <= i < before.len() && (#[trigger] before[i]).name == collected(
                        members,
                        before,
                    )[k].0;
                assert(schema[i] == before[i]);
            } else {
                assert(schema[schema.len() - 1].name == read[k].0);
            }
        }
    }
}

/// Under a schema with unique names, what was decoded holds for a declared
/// property exactly the entry that the input gives for it.
pub proof fn lemma_collected_lookup(
    members: Seq<(Seq<char>, JsonModel)>,
    schema: Seq<PropertyModel>,
    at: int,
)
    requires
        names_distinct(schema),
        0 <= at < schema.len(),
    ensures
        lookup(collected(members, schema), schema[at].name) == match given(members, schema[at]) {
            Some(entry) => Some(entry.1),
            None => None,
        },
    decreases schema.len(),
{
    let before = schema.drop_last();
    let earlier = collected(members, before);
    let read = collected(members, schema);
    let last = schema.len() - 1;
    assert(schema.last() == schema[last]);
    if given(members, schema[last]) is Some {
        assert(read.drop_last() =~= earlier);
        assert(read.last() == given(members, schema[last])->0);
    }
    if at == last {
        if given(members, schema[last]) is None {
            lemma_collected_names(members, before);
            assert forall|k: int| 0 <= k < earlier.len() implies (#[trigger] earlier[k]).0
                != schema[at].name by {
                let i = choose|i: int|
                    0 <= i < before.len() && (#[trigger] before[i]).name == earlier[k].0;
                assert(before[i] == schema[i]);
            }
            lemma_lookup_none(earlier, schema[at].name);
        }
    } else {
        assert(names_distinct(before)) by {
            assert forall|i: int, j: int| 0 <= i < j < before.len() implies (#[trigger] before[i]).name
                != (#[trigger] before[j]).name by {
                assert(before[i] == schema[i] && before[j] == schema[j]);
            }
        }
        assert(before[at] == schema[at]);
        lemma_collected_lookup(members, before, at);
        assert(schema[at].name != schema[last].name);
    }
}

/// A required input property that the input does not supply makes decoding
/// fail with `MissingRequiredProperty`; the property named is the first
/// such in declaration order.
pub proof fn missing_required_input_is_reported(
    members: Seq<(Seq<char>, JsonModel)>,
    schema: Seq<PropertyModel>,
    at: int,
)
    requires
        0 <= at < schema.len(),
        schema[at].required,
        !schema[at].output,
        supplied(members, schema[at].name) is None,
    ensures
        first_missing(members, schema) matches Some(first) && 0 <= first <= at && missing(
            members,
            schema[first],
        ) && decoded(members, schema) == Err::<Seq<(Seq<char>, PropertyValueModel)>, DecodeErrorModel>(
            DecodeErrorModel::MissingRequiredProperty(schema[first].name),
        ),
{
    lemma_first_missing(members, schema);
    assert(missing(members, schema[at]));
}

/// Decoding succeeds exactly when every required input property is
/// supplied and every supplied input has the shape of its type; it then
/// gives the typed values of the supplied inputs.
pub proof fn conforming_input_is_decoded(
    members: Seq<(Seq<char>, JsonModel)>,
    schema: Seq<PropertyModel>,
)
    ensures
        decoded(members, schema) is Ok <==> forall|i: int|
            0 <= i < schema.len() ==> !missing(members, #[trigger] schema[i]) && !mismatched(
                members,
                schema[i],
            ),
        decoded(members, schema) is Ok ==> decoded(members, schema) == Ok::<
            Seq<(Seq<char>, PropertyValueModel)>,
            DecodeErrorModel,
        >(collected(members, schema)),
{
    lemma_first_missing(members, schema);
    lemma_first_mismatched(members, schema);
}

/// Round trip: a bag that fits a schema, written as a document, decodes
/// against that schema, and every input property of the schema comes back
/// with the value it had in the bag, of the same type.
///
/// The bag fits the schema where it has a value for every required input
/// and each value it has for an input is of the declared type.
pub proof fn input_round_trip(
    bag: Seq<(Seq<char>, PropertyValueModel)>,
    schema: Seq<PropertyModel>,
)
    requires
        names_distinct(schema),
        entry_names_distinct(bag),
        forall|i: int|
            0 <= i < schema.len() && !(#[trigger] schema[i]).output ==> match lookup(
                bag,
                schema[i].name,
            ) {
                Some(value) => value.property_type() == schema[i].property_type,
                None => !schema[i].required,
            },
    ensures
        bag_document(bag).well_formed(),
        decoded(input_members(bag_document(bag)), schema) is Ok,
        forall|i: int|
            0 <= i < schema.len() && !(#[trigger] schema[i]).output ==> lookup(
                decoded(input_members(bag_document(bag)), schema)->Ok_0,
                schema[i].name,
            ) == lookup(bag, schema[i].name),
{
    let members = input_members(bag_document(bag));
    assert forall|i: int| 0 <= i < schema.len() implies !missing(members, #[trigger] schema[i])
        && !mismatched(members, schema[i]) && (!schema[i].output ==> given(members, schema[i])
        == match lookup(bag, schema[i].name) {
        Some(value) => Some((schema[i].name, value)),
        None => None,
    }) by {
        lemma_bag_document_supplies(bag, schema[i].name);
        if lookup(bag, schema[i].name) is Some {
            lemma_value_round_trip(lookup(bag, schema[i].name)->0);
        }
    }
    conforming_input_is_decoded(members, schema);
    assert forall|i: int| 0 <= i < schema.len() && !(#[trigger] schema[i]).output implies lookup(
        collected(members, schema),
        schema[i].name,
    ) == lookup(bag, schema[i].name) by {
        lemma_collected_lookup(members, schema, i);
    }
    lemma_bag_document_well_formed(bag);
}

/// The document made from a bag with unique names has no duplicate key.
pub proof fn lemma_bag_document_well_formed(bag: Seq<(Seq<char>, PropertyValueModel)>)
    requires
        entry_names_distinct(bag),
    ensures
        bag_document(bag).well_formed(),
{
    let members = bag_members(bag);
    assert forall|i: int| 0 <= i < members.len() implies (#[trigger] members[i]).1.well_formed() by {
        lemma_value_round_trip(bag[i].1);
    }
    assert forall|i: int, j: int| 0 <= i < j < members.len() implies (#[trigger] members[i]).0
        != (#[trigger] members[j]).0 by {
        assert(bag[i].0 != bag[j].0);
    }
    lemma_well_formed_object(members);
    lemma_envelope(members);
}

proof fn lemma_member_push(
    members: Seq<(Seq<char>, JsonModel)>,
    added: (Seq<char>, JsonModel),
    key: Seq<char>,
)
    ensures
        member(members.push(added), key) == match member(members, key) {
            Some(json) => Some(json),
            None => if added.0 == key {
                Some(added.1)
            } else {
                None
            },
        },
    decreases members.len(),
{
    let longer = members.push(added);
    if members.len() == 0 {
        assert(longer[0] == added);
        assert(longer.drop_first() =~= Seq::empty());
        assert(member(longer.drop_first(), key) is None);
    } else {
        assert(longer[0] == members[0]);
        assert(longer.drop_first() =~= members.drop_first().push(added));
        lemma_member_push(members.drop_first(), added, key);
    }
}

/// Under a schema with unique names, the output holds for a declared
/// output property exactly the value that the bag has for it.
pub proof fn lemma_emitted_member(
    bag: Seq<(Seq<char>, PropertyValueModel)>,
    schema: Seq<PropertyModel>,
    at: int,
)
    requires
        names_distinct(schema),
        0 <= at < schema.len(),
    ensures
        member(emitted(bag, schema), schema[at].name) == match lookup(bag, schema[at].name) {
            Some(value) if schema[at].output => Some(value.encode()),
            _ => None,
        },
    decreases schema.len(),
{
    let before = schema.drop_last();
    let earlier = emitted(bag, before);
    let last = schema.len() - 1;
    let name = schema[at].name;
    assert(schema.last() == schema[last]);
    let adds = schema[last].output && lookup(bag, schema[last].name) is Some;
    if adds {
        lemma_member_push(
            earlier,
            (schema[last].name, lookup(bag, schema[last].name)->0.encode()),
            name,
        );
    }
    if at == last {
        lemma_emitted_names(bag, before);
        assert forall|k: int| 0 <= k < earlier.len() implies (#[trigger] earlier[k]).0 != name by {
            let i = choose|i: int| 0 <= i < before.len() && (#[trigger] before[i]).name == earlier[k].0;
            assert(before[i] == schema[i]);
        }
        lemma_member_none(earlier, name);
    } else {
        assert(names_distinct(before)) by {
            assert forall|i: int, j: int| 0 <= i < j < before.len() implies (#[trigger] before[i]).name
                != (#[trigger] before[j]).name by {
                assert(before[i] == schema[i] && before[j] == schema[j]);
            }
        }
        assert(before[at] == schema[at]);
        lemma_emitted_member(bag, before, at);
        assert(schema[at].name != schema[last].name);
    }
}

/// Where the bag has a value for every declared output property, every
/// declared output property appears by name in what is written, with the
/// value that the bag has for it.
pub proof fn complete_output_holds_every_declared_output(
    bag: Seq<(Seq<char>, PropertyValueModel)>,
    schema: Seq<PropertyModel>,
)
    requires
        names_distinct(schema),
        outputs_complete(bag, schema),
    ensures
        forall|i: int|
            0 <= i < schema.len() && (#[trigger] schema[i]).output ==> output_model(
                bag,
                schema,
            ).get("properties"@)->0.get(schema[i].name) == Some(
                lookup(bag, schema[i].name)->0.encode(),
            ),
{
    lemma_envelope(emitted(bag, schema));
    let outer = seq![("properties"@, JsonModel::Object(emitted(bag, schema)))];
    assert(output_model(bag, schema)->Object_0 == outer);
    assert(outer[0] == ("properties"@, JsonModel::Object(emitted(bag, schema))));
    assert(member(outer, "properties"@) == Some(JsonModel::Object(emitted(bag, schema))));
    assert forall|i: int| 0 <= i < schema.len() && (#[trigger] schema[i]).output implies output_model(
        bag,
        schema,
    ).get("properties"@)->0.get(schema[i].name) == Some(
        lookup(bag, schema[i].name)->0.encode(),
    ) by {
        lemma_emitted_member(bag, schema, i);
    }
}

/// Decoding preserves types: in what was decoded against a schema with
/// unique names, an input property stands for the typed reading of what
/// was supplied for it, which is of the declared type; it stands for
/// nothing exactly where nothing was supplied, and then it is not required.
pub proof fn decoded_values_have_declared_types(
    members: Seq<(Seq<char>, JsonModel)>,
    schema: Seq<PropertyModel>,
    at: int,
)
    requires
        names_distinct(schema),
        0 <= at < schema.len(),
        !schema[at].output,
        decoded(members, schema) is Ok,
    ensures
        match lookup(decoded(members, schema)->Ok_0, schema[at].name) {
            Some(value) => {
                &&& value.property_type() == schema[at].property_type
                &&& supplied(members, schema[at].name) matches Some(json)
                &&& decode_value(json, schema[at].property_type) == Some(value)
            },
            None => supplied(members, schema[at].name) is None && !schema[at].required,
        },
{
    conforming_input_is_decoded(members, schema);
    lemma_collected_lookup(members, schema, at);
    assert(!missing(members, schema[at]) && !mismatched(members, schema[at]));
}

proof fn lemma_nothing_emitted(
    bag: Seq<(Seq<char>, PropertyValueModel)>,
    schema: Seq<PropertyModel>,
)
    requires
        forall|i: int|
            0 <= i < schema.len() && (#[trigger] schema[i]).output ==> lookup(bag, schema[i].name) is None,
    ensures
        emitted(bag, schema) == Seq::<(Seq<char>, JsonModel)>::empty(),
    decreases schema.len(),
{
    if schema.len() > 0 {
        let before = schema.drop_last();
        assert forall|i: int| 0 <= i < before.len() && (#[trigger] before[i]).output implies lookup(
            bag,
            before[i].name,
        ) is None by {
            assert(before[i] == schema[i]);
        }
        lemma_nothing_emitted(bag, before);
        assert(schema.last() == schema[schema.len() - 1]);
    }
}

/// A bag that holds one value, for one declared output property, is
/// written as that one member.
pub proof fn lemma_single_output(
    schema: Seq<PropertyModel>,
    at: int,
    value: PropertyValueModel,
)
    requires
        names_distinct(schema),
        0 <= at < schema.len(),
        schema[at].output,
    ensures
        emitted(seq![(schema[at].name, value)], schema) == seq![
            (schema[at].name, value.encode()),
        ],
    decreases schema.len(),
{
    let name = schema[at].name;
    let bag = seq![(name, value)];
    let before = schema.drop_last();
    let last = schema.len() - 1;
    assert(bag.last() == (name, value));
    assert(lookup(bag, name) == Some(value));
    assert(bag.drop_last() =~= Seq::empty());
    assert forall|other: Seq<char>| other != name implies lookup(bag, other) is None by {
        assert(lookup(bag.drop_last(), other) is None);
    }
    assert(schema.last() == schema[last]);
    if at == last {
        assert forall|i: int| 0 <= i < before.len() && (#[trigger] before[i]).output implies lookup(
            bag,
            before[i].name,
        ) is None by {
            assert(before[i] == schema[i]);
            assert(schema[i].name != schema[at].name);
        }
        lemma_nothing_emitted(bag, before);
        assert(emitted(bag, schema) =~= seq![(name, value.encode())]);
    } else {
        assert(names_distinct(before)) by {
            assert forall|i: int, j: int| 0 <= i < j < before.len() implies (#[trigger] before[i]).name
                != (#[trigger] before[j]).name by {
                assert(before[i] == schema[i] && before[j] == schema[j]);
            }
        }
        assert(before[at] == schema[at]);
        lemma_single_output(before, at, value);
        assert(schema[last].name != schema[at].name);
    }
}

} // verus!
