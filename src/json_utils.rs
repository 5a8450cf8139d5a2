//! Assembles documents by sampling a compiled schema one or more times.
use crate::default_values::{entries_shape, sample_members, yields, Gen, Producer};
use crate::json::Json;
use vstd::prelude::*;

verus! {

/// Samples one document: an object with one member per named producer, in order.
pub fn create_json_from_schema(schema: &Vec<(String, Producer)>) -> (r: Json)
    ensures
        yields(Gen::Object(entries_shape(schema@)), r@),
{
    sample_members(schema)
}

/// Samples `number_of_objects` documents, each one independently.
pub fn create_json_vec_from_schema(schema: &Vec<(String, Producer)>, number_of_objects: u32) -> (r:
    Vec<Json>)
    ensures
        r@.len() == number_of_objects,
        forall|i: int|
            0 <= i < r@.len() ==> yields(Gen::Object(entries_shape(schema@)), #[trigger] r@[i]@),
{
    let mut out: Vec<Json> = Vec::new();
    let mut i: u32 = 0;
    while i < number_of_objects
        invariant
            i <= number_of_objects,
            out@.len() == i,
            forall|j: int|
                0 <= j < i ==> yields(Gen::Object(entries_shape(schema@)), #[trigger] out@[j]@),
        decreases number_of_objects - i,
    {
        out.push(create_json_from_schema(schema));
        i = i + 1;
    }
    out
}

/// The documents of one run: a single document, or a sequence of them.
pub enum Output {
    Single(Json),
    Many(Vec<Json>),
}

/// Samples the documents that a run asking for `count` of them produces: a single
/// document when `count` is 1, else a sequence of `count` documents (empty for 0).
pub fn generate_documents(schema: &Vec<(String, Producer)>, count: u32) -> (r: Output)
    ensures
        count == 1 ==> (r matches Output::Single(d) && yields(
            Gen::Object(entries_shape(schema@)),
            d@,
        )),
        count != 1 ==> (r matches Output::Many(v) && v@.len() == count && forall|i: int|
            0 <= i < v@.len() ==> yields(Gen::Object(entries_shape(schema@)), #[trigger] v@[i]@)),
{
    if count == 1 {
        Output::Single(create_json_from_schema(schema))
    } else {
        Output::Many(create_json_vec_from_schema(schema, count))
    }
}

} // verus!
