//! Compiles a schema, given as a `Json` value, into a tree of producers.
//!
//! A schema node is an object with a `type` tag and the members that the tag asks for:
//! - `"string"`: `enum`, a non-empty array of strings;
//! - `"integer"`: either `enum`, a non-empty array of integers, or the optional integer
//!   bounds `minimum` (default `i64::MIN`) and `maximum` (default `i64::MAX`); values are
//!   drawn from `[minimum, maximum)`;
//! - `"array"`: `maximum` and the optional `minimum` (default 0), element counts in
//!   `0..=u32::MAX`, and `items`, the schema of the elements;
//! - `"object"`: `properties`, an object that maps each member name to its schema.
//!
//! Compilation fails on the first error met in a depth-first walk; member names of a
//! `properties` object must be distinct, and every member must have a known type.
use crate::default_values::{
    distinct_names, entries_shape, lemma_entries_shape, ArrayValues, DiscreteValues, Gen,
    ObjectValues, Producer, RangedValues,
};
use crate::json::{docs, find_key, find_member, lemma_docs, lemma_member_docs, member, member_docs, member_of, same_text, Doc, Json};
use vstd::prelude::*;

verus! {

/// A member of a schema node.
#[derive(Clone, Copy, Debug, PartialEq, Eq, Structural)]
pub enum Keyword {
    Type,
    Enum,
    Minimum,
    Maximum,
    Items,
    Properties,
}

/// Why a schema could not be compiled.
#[derive(Clone, Copy, Debug, PartialEq, Eq, Structural)]
pub enum SchemaError {
    /// A required member is absent.
    Missing(Keyword),
    /// A member is present but does not have the expected form.
    Malformed(Keyword),
    /// The `type` tag is not one of `string`, `integer`, `array`, `object`.
    UnknownType,
    /// An `enum` array is empty.
    EmptyEnum,
    /// An integer range `[minimum, maximum)` holds no value.
    EmptyRange,
    /// An array's `minimum` exceeds its `maximum`.
    InvertedBounds,
    /// Two members of a `properties` object share a name.
    DuplicateField,
}

/// The shape that an `enum` array describes: its values, which must all be
/// integers (or all strings).
pub open spec fn enum_shape(e: Doc, integers: bool) -> Result<Gen, SchemaError> {
    match e {
        Doc::Arr(items) => {
            if items.len() == 0 {
                Err(SchemaError::EmptyEnum)
            } else if forall|i: int|
                0 <= i < items.len() ==> if integers {
                    #[trigger] items[i] is Int
                } else {
                    items[i] is Str
                } {
                Ok(Gen::Discrete(items))
            } else {
                Err(SchemaError::Malformed(Keyword::Enum))
            }
        },
        _ => Err(SchemaError::Malformed(Keyword::Enum)),
    }
}

/// An optional integer member, with its default.
pub open spec fn int_bound(d: Doc, key: Seq<char>, default: int, kw: Keyword) -> Result<
    int,
    SchemaError,
> {
    match member(d, key) {
        None => Ok(default),
        Some(Doc::Int(n)) => Ok(n),
        Some(_) => Err(SchemaError::Malformed(kw)),
    }
}

/// An element count: an integer in `0..=u32::MAX`.
pub open spec fn count_of(v: Doc, kw: Keyword) -> Result<nat, SchemaError> {
    match v {
        Doc::Int(n) => if 0 <= n <= u32::MAX {
            Ok(n as nat)
        } else {
            Err(SchemaError::Malformed(kw))
        },
        _ => Err(SchemaError::Malformed(kw)),
    }
}

pub open spec fn integer_shape(d: Doc) -> Result<Gen, SchemaError> {
    match member(d, "enum"@) {
        Some(e) => enum_shape(e, true),
        None => match int_bound(d, "minimum"@, i64::MIN as int, Keyword::Minimum) {
            Err(e) => Err(e),
            Ok(low) => match int_bound(d, "maximum"@, i64::MAX as int, Keyword::Maximum) {
                Err(e) => Err(e),
                Ok(high) => if low < high {
                    Ok(Gen::Ranged(low, high))
                } else {
                    Err(SchemaError::EmptyRange)
                },
            },
        },
    }
}

pub open spec fn string_shape(d: Doc) -> Result<Gen, SchemaError> {
    match member(d, "enum"@) {
        None => Err(SchemaError::Missing(Keyword::Enum)),
        Some(e) => enum_shape(e, false),
    }
}

/// What compiling the schema node `d` gives.
pub open spec fn shape_of(d: Doc) -> Result<Gen, SchemaError>
    decreases d, 2nat, 0nat,
{
    match member(d, "type"@) {
        None => Err(SchemaError::Missing(Keyword::Type)),
        Some(Doc::Str(t)) => {
            if t == "string"@ {
                string_shape(d)
            } else if t == "integer"@ {
                integer_shape(d)
            } else if t == "array"@ {
                array_shape(d)
            } else if t == "object"@ {
                object_shape(d)
            } else {
                Err(SchemaError::UnknownType)
            }
        },
        Some(_) => Err(SchemaError::UnknownType),
    }
}

pub open spec fn array_shape(d: Doc) -> Result<Gen, SchemaError>
    decreases d, 0nat, 0nat,
{
    match d {
        Doc::Obj(fs) => match member(d, "maximum"@) {
            None => Err(SchemaError::Missing(Keyword::Maximum)),
            Some(m) => match count_of(m, Keyword::Maximum) {
                Err(e) => Err(e),
                Ok(max) => match (match member(d, "minimum"@) {
                    None => Ok(0nat),
                    Some(v) => count_of(v, Keyword::Minimum),
                }) {
                    Err(e) => Err(e),
                    Ok(min) => {
                        let i = find_key(fs, "items"@);
                        if 0 <= i < fs.len() {
                            match shape_of(fs[i].1) {
                                Err(e) => Err(e),
                                Ok(g) => if min <= max {
                                    Ok(Gen::Array(min, max, Box::new(g)))
                                } else {
                                    Err(SchemaError::InvertedBounds)
                                },
                            }
                        } else {
                            Err(SchemaError::Missing(Keyword::Items))
                        }
                    },
                },
            },
        },
        _ => Err(SchemaError::Missing(Keyword::Maximum)),
    }
}

pub open spec fn object_shape(d: Doc) -> Result<Gen, SchemaError>
    decreases d, 1nat, 0nat,
{
    match members_shape(d) {
        Ok(fs) => Ok(Gen::Object(fs)),
        Err(e) => Err(e),
    }
}

/// The compiled members of the `properties` of `d`.
pub open spec fn members_shape(d: Doc) -> Result<Seq<(Seq<char>, Gen)>, SchemaError>
    decreases d, 0nat, 0nat,
{
    match d {
        Doc::Obj(fs) => {
            let i = find_key(fs, "properties"@);
            if 0 <= i < fs.len() {
                match fs[i].1 {
                    Doc::Obj(props) => fields_shape(props, props.len()),
                    _ => Err(SchemaError::Malformed(Keyword::Properties)),
                }
            } else {
                Err(SchemaError::Missing(Keyword::Properties))
            }
        },
        _ => Err(SchemaError::Missing(Keyword::Properties)),
    }
}

/// The first `n` properties compiled in order; a name met a second time is an error.
pub open spec fn fields_shape(props: Seq<(Seq<char>, Doc)>, n: nat) -> Result<
    Seq<(Seq<char>, Gen)>,
    SchemaError,
>
    decreases props, 3nat, n,
{
    if n == 0 || n > props.len() {
        Ok(Seq::empty())
    } else {
        match fields_shape(props, (n - 1) as nat) {
            Err(e) => Err(e),
            Ok(acc) => if acc.map_values(|f: (Seq<char>, Gen)| f.0).contains(props[n - 1].0) {
                Err(SchemaError::DuplicateField)
            } else {
                match shape_of(props[n - 1].1) {
                    Err(e) => Err(e),
                    Ok(g) => Ok(acc.push((props[n - 1].0, g))),
                }
            },
        }
    }
}

/// What a compilation result says, over shapes.
pub open spec fn compiled(r: Result<Producer, SchemaError>) -> Result<Gen, SchemaError> {
    match r {
        Ok(p) => Ok(p.shape()),
        Err(e) => Err(e),
    }
}

/// What a compilation of members says, over shapes.
pub open spec fn compiled_fields(r: Result<Vec<(String, Producer)>, SchemaError>) -> Result<
    Seq<(Seq<char>, Gen)>,
    SchemaError,
> {
    match r {
        Ok(v) => Ok(entries_shape(v@)),
        Err(e) => Err(e),
    }
}

/// A discrete producer over the values of an `enum` array.
fn enum_producer(e: &Json, integers: bool) -> (r: Result<Producer, SchemaError>)
    ensures
        compiled(r) == enum_shape(e@, integers),
{
    match e {
        Json::Arr(items) => {
            proof {
                lemma_docs(items@);
            }
            if items.len() == 0 {
                return Err(SchemaError::EmptyEnum);
            }
            let mut i: usize = 0;
            while i < items.len()
                invariant
                    *e == Json::Arr(*items),
                    i <= items@.len(),
                    docs(items@).len() == items@.len(),
                    forall|j: int|
                        0 <= j < items@.len() ==> #[trigger] docs(items@)[j] == items@[j]@,
                    forall|j: int|
                        0 <= j < i ==> if integers {
                            #[trigger] docs(items@)[j] is Int
                        } else {
                            docs(items@)[j] is Str
                        },
                decreases items@.len() - i,
            {
                let fits = match &items[i] {
                    Json::Int(_) => integers,
                    Json::Str(_) => !integers,
                    _ => false,
                };
                if !fits {
                    proof {
                        let k = i as int;
                        assert(docs(items@)[k] == items@[k]@);
                        assert(!(if integers {
                            docs(items@)[k] is Int
                        } else {
                            docs(items@)[k] is Str
                        }));

                    }
                    return Err(SchemaError::Malformed(Keyword::Enum));
                }
                i = i + 1;
            }
            Ok(Producer::Discrete(DiscreteValues::new(items.as_slice())))
        },
        _ => Err(SchemaError::Malformed(Keyword::Enum)),
    }
}

/// An optional integer member of `d`, or `default` when it is absent.
fn int_member(d: &Json, key: &str, default: i64, kw: Keyword) -> (r: Result<i64, SchemaError>)
    ensures
        match r {
            Ok(n) => int_bound(d@, key@, default as int, kw) == Ok::<int, SchemaError>(n as int),
            Err(e) => int_bound(d@, key@, default as int, kw) == Err::<int, SchemaError>(e),
        },
{
    match member_of(d, key) {
        None => Ok(default),
        Some(Json::Int(n)) => Ok(*n),
        Some(_) => Err(SchemaError::Malformed(kw)),
    }
}

/// An element count.
fn count_member(v: &Json, kw: Keyword) -> (r: Result<u32, SchemaError>)
    ensures
        match r {
            Ok(n) => count_of(v@, kw) == Ok::<nat, SchemaError>(n as nat),
            Err(e) => count_of(v@, kw) == Err::<nat, SchemaError>(e),
        },
{
    match v {
        Json::Int(n) => {
            if 0 <= *n && *n <= u32::MAX as i64 {
                Ok(*n as u32)
            } else {
                Err(SchemaError::Malformed(kw))
            }
        },
        _ => Err(SchemaError::Malformed(kw)),
    }
}

/// Compiles an `integer` node: a discrete producer over its `enum`, or else a ranged
/// producer over `[minimum, maximum)`.
pub fn parse_integer(details: &Json) -> (r: Result<Producer, SchemaError>)
    ensures
        compiled(r) == integer_shape(details@),
{
    match member_of(details, "enum") {
        Some(e) => enum_producer(e, true),
        None => {
            let low = match int_member(details, "minimum", i64::MIN, Keyword::Minimum) {
                Ok(n) => n,
                Err(e) => return Err(e),
            };
            let high = match int_member(details, "maximum", i64::MAX, Keyword::Maximum) {
                Ok(n) => n,
                Err(e) => return Err(e),
            };
            if low < high {
                Ok(Producer::Ranged(RangedValues::new(low, high)))
            } else {
                Err(SchemaError::EmptyRange)
            }
        },
    }
}

/// Compiles a `string` node, which must have an `enum` of strings.
pub fn parse_string(details: &Json) -> (r: Result<Producer, SchemaError>)
    ensures
        compiled(r) == string_shape(details@),
{
    match member_of(details, "enum") {
        None => Err(SchemaError::Missing(Keyword::Enum)),
        Some(e) => enum_producer(e, false),
    }
}

/// Compiles an `array` node.
pub fn parse_array(details: &Json) -> (r: Result<Producer, SchemaError>)
    ensures
        compiled(r) == array_shape(details@),
    decreases details, 0nat, 0nat,
{
    match details {
        Json::Obj(fs) => {
            let max = match member_of(details, "maximum") {
                None => return Err(SchemaError::Missing(Keyword::Maximum)),
                Some(m) => match count_member(m, Keyword::Maximum) {
                    Ok(n) => n,
                    Err(e) => return Err(e),
                },
            };
            let min = match member_of(details, "minimum") {
                None => 0,
                Some(v) => match count_member(v, Keyword::Minimum) {
                    Ok(n) => n,
                    Err(e) => return Err(e),
                },
            };
            proof {
                lemma_member_docs(fs@);
            }
            match find_member(fs, "items") {
                None => Err(SchemaError::Missing(Keyword::Items)),
                Some(i) => {
                    proof {
                        assert(decreases_to!(*details => (*details)->Obj_0));
                        assert(decreases_to!(*fs => fs[i as int]));
                    }
                    match parse_type(&fs[i].1) {
                        Err(e) => Err(e),
                        Ok(p) => {
                            if min <= max {
                                Ok(Producer::Array(ArrayValues::new(min, max, Box::new(p))))
                            } else {
                                Err(SchemaError::InvertedBounds)
                            }
                        },
                    }
                },
            }
        },
        _ => Err(SchemaError::Missing(Keyword::Maximum)),
    }
}

/// Compiles an `object` node from its `properties`.
pub fn parse_object(details: &Json) -> (r: Result<Producer, SchemaError>)
    ensures
        compiled(r) == object_shape(details@),
    decreases details, 1nat, 0nat,
{
    match generate_template_from_schema(details) {
        Ok(fields) => Ok(Producer::Object(ObjectValues::new(fields))),
        Err(e) => Err(e),
    }
}

/// Compiles a schema node according to its `type` tag.
pub fn parse_type(details: &Json) -> (r: Result<Producer, SchemaError>)
    ensures
        compiled(r) == shape_of(details@),
    decreases details, 2nat, 0nat,
{
    match member_of(details, "type") {
        None => Err(SchemaError::Missing(Keyword::Type)),
        Some(Json::Str(t)) => {
            if same_text(t.as_str(), "string") {
                parse_string(details)
            } else if same_text(t.as_str(), "integer") {
                parse_integer(details)
            } else if same_text(t.as_str(), "array") {
                parse_array(details)
            } else if same_text(t.as_str(), "object") {
                parse_object(details)
            } else {
                Err(SchemaError::UnknownType)
            }
        },
        Some(_) => Err(SchemaError::UnknownType),
    }
}

/// Once a prefix of the properties fails, every longer prefix fails the same way.
proof fn lemma_fields_error(props: Seq<(Seq<char>, Doc)>, i: nat, n: nat)
    requires
        1 <= i <= n <= props.len(),
        fields_shape(props, i) is Err,
    ensures
        fields_shape(props, n) == fields_shape(props, i),
    decreases n - i,
{
    if n > i {
        lemma_fields_error(props, i, (n - 1) as nat);
    }
}

/// Whether one of the entries is named `name`.
fn name_taken(entries: &Vec<(String, Producer)>, name: &str) -> (r: bool)
    ensures
        r == exists|j: int| 0 <= j < entries@.len() && (#[trigger] entries@[j]).0@ == name@,
{
    let mut k: usize = 0;
    while k < entries.len()
        invariant
            k <= entries@.len(),
            forall|j: int| 0 <= j < k ==> (#[trigger] entries@[j]).0@ != name@,
        decreases entries@.len() - k,
    {
        if same_text(entries[k].0.as_str(), name) {
            return true;
        }
        k = k + 1;
    }
    false
}

/// Compiles each property, in order, into a named producer.
pub fn populate_schema(properties: &Vec<(String, Json)>) -> (r: Result<
    Vec<(String, Producer)>,
    SchemaError,
>)
    ensures
        compiled_fields(r) == fields_shape(member_docs(properties@), properties@.len()),
        r matches Ok(v) ==> distinct_names(v@),
    decreases properties, 3nat, 0nat,
{
    let ghost props = member_docs(properties@);
    proof {
        lemma_member_docs(properties@);
    }
    let mut out: Vec<(String, Producer)> = Vec::new();
    let mut i: usize = 0;
    while i < properties.len()
        invariant
            i <= properties@.len(),
            props == member_docs(properties@),
            props.len() == properties@.len(),
            forall|j: int|
                0 <= j < properties@.len() ==> #[trigger] props[j] == (
                    properties@[j].0@,
                    properties@[j].1@,
                ),
            out@.len() == i,
            forall|j: int| 0 <= j < i ==> (#[trigger] out@[j]).0@ == properties@[j].0@,
            distinct_names(out@),
            fields_shape(props, i as nat) == Ok::<Seq<(Seq<char>, Gen)>, SchemaError>(
                entries_shape(out@),
            ),
        decreases properties@.len() - i,
    {
        let ghost acc = entries_shape(out@);
        proof {
            lemma_entries_shape(out@);
            let names = acc.map_values(|f: (Seq<char>, Gen)| f.0);
            assert(names.len() == out@.len());
            assert forall|j: int| 0 <= j < names.len() implies #[trigger] names[j] == out@[j].0@ by {
                assert(acc[j] == (out@[j].0@, out@[j].1.shape()));
            }
            assert(props[i as int].0 == properties@[i as int].0@);
            if names.contains(props[i as int].0) {
                let j = choose|j: int| 0 <= j < names.len() && names[j] == props[i as int].0;
                assert(out@[j].0@ == properties@[i as int].0@);
            }
        }
        if name_taken(&out, properties[i].0.as_str()) {
            proof {
                let names = acc.map_values(|f: (Seq<char>, Gen)| f.0);
                let j = choose|j: int| 0 <= j < out@.len() && (#[trigger] out@[j]).0@ == properties@[i as int].0@;
                assert(names[j] == out@[j].0@);
                assert(names.contains(props[i as int].0));
            }
            proof {
                lemma_fields_error(props, (i + 1) as nat, props.len());
            }
            return Err(SchemaError::DuplicateField);
        }
        proof {
            assert(decreases_to!(*properties => properties[i as int]));
        }
        match parse_type(&properties[i].1) {
            Err(e) => {
                proof {
                    lemma_fields_error(props, (i + 1) as nat, props.len());
                }
                return Err(e);
            },
            Ok(p) => {
                let ghost before = out@;
                out.push((properties[i].0.clone(), p));
                proof {
                    assert(out@.subrange(0, out@.len() - 1) =~= before);
                    assert(distinct_names(out@)) by {
                        assert forall|a: int, b: int| 0 <= a < b < out@.len() implies (
                        #[trigger] out@[a]).0@ != (#[trigger] out@[b]).0@ by {
                            if b == out@.len() - 1 {
                                assert(out@[a] == before[a]);
                            } else {
                                assert(out@[a] == before[a]);
                                assert(out@[b] == before[b]);
                            }
                        }
                    }
                }
            },
        }
        i = i + 1;
    }
    Ok(out)
}

/// Compiles the `properties` of a schema document into named producers.
pub fn generate_template_from_schema(schema: &Json) -> (r: Result<
    Vec<(String, Producer)>,
    SchemaError,
>)
    ensures
        compiled_fields(r) == members_shape(schema@),
        r matches Ok(v) ==> distinct_names(v@),
    decreases schema, 0nat, 0nat,
{
    match schema {
        Json::Obj(fs) => {
            proof {
                lemma_member_docs(fs@);
            }
            match find_member(fs, "properties") {
                None => Err(SchemaError::Missing(Keyword::Properties)),
                Some(i) => match &fs[i].1 {
                    Json::Obj(props) => {
                        proof {
                            lemma_member_docs(props@);
                            assert(member_docs(fs@)[i as int].1 == fs@[i as int].1@);
                            assert(decreases_to!(*schema => (*schema)->Obj_0));
                            assert(decreases_to!(*fs => fs[i as int]));
                            assert(decreases_to!(fs[i as int].1 => (fs[i as int].1)->Obj_0));
                        }
                        populate_schema(props)
                    },
                    _ => Err(SchemaError::Malformed(Keyword::Properties)),
                },
            }
        },
        _ => Err(SchemaError::Missing(Keyword::Properties)),
    }
}

/// Compiling the same node twice gives producers of the same configuration: the
/// same candidates, bounds and nested structure.
pub proof fn lemma_compile_idempotent(
    node: Json,
    first: Result<Producer, SchemaError>,
    second: Result<Producer, SchemaError>,
)
    requires
        compiled(first) == shape_of(node@),
        compiled(second) == shape_of(node@),
    ensures
        compiled(first) == compiled(second),
{
}

/// A `string` node without an `enum` fails to compile, and the error names `enum`.
pub proof fn lemma_string_requires_enum(node: Doc)
    requires
        member(node, "type"@) == Some(Doc::Str("string"@)),
        member(node, "enum"@) is None,
    ensures
        shape_of(node) == Err::<Gen, SchemaError>(SchemaError::Missing(Keyword::Enum)),
{
}

} // verus!
