//! Value producers: each one yields a random value of a fixed shape.
//!
//! Conventions: a ranged producer samples from the half-open interval
//! `[start, end)`; an array producer samples its length directly from the
//! inclusive interval `[min, max]` and then samples exactly that many elements.
use crate::json::{docs, lemma_docs, lemma_docs_eq, lemma_member_docs, member_docs, Doc, Json};
use rand::seq::SliceRandom;
use rand::Rng;
use vstd::prelude::*;

verus! {

/// The configuration of a producer, as a mathematical value.
pub enum Gen {
    /// One of the candidates, uniformly.
    Discrete(Seq<Doc>),
    /// An integer of the half-open interval `[low, high)`.
    Ranged(int, int),
    /// An array whose length lies in `[min, max]`, each element from the inner shape.
    Array(nat, nat, Box<Gen>),
    /// An object with exactly these members, in this order.
    Object(Seq<(Seq<char>, Gen)>),
}

/// Whether `d` is a value that a producer of shape `g` can yield.
pub open spec fn yields(g: Gen, d: Doc) -> bool
    decreases g,
{
    match g {
        Gen::Discrete(c) => c.contains(d),
        Gen::Ranged(low, high) => d matches Doc::Int(n) && low <= n < high,
        Gen::Array(min, max, e) => d matches Doc::Arr(xs) && min <= xs.len() <= max && forall|i: int|
            0 <= i < xs.len() ==> yields(*e, #[trigger] xs[i]),
        Gen::Object(fs) => d matches Doc::Obj(ds) && ds.len() == fs.len() && forall|i: int|
            0 <= i < fs.len() ==> (#[trigger] ds[i]).0 == fs[i].0 && yields(fs[i].1, ds[i].1),
    }
}

/// The member names of an object shape.
pub open spec fn names_of(fs: Seq<(Seq<char>, Gen)>) -> Seq<Seq<char>> {
    fs.map_values(|f: (Seq<char>, Gen)| f.0)
}

/// No two entries share a name.
pub open spec fn distinct_names(fs: Seq<(String, Producer)>) -> bool {
    forall|i: int, j: int| 0 <= i < j < fs.len() ==> (#[trigger] fs[i]).0@ != (#[trigger] fs[j]).0@
}

/// Relies on rand's `Rng::gen_range` on `low..high` with the thread-local generator:
/// it returns a value of that half-open range, and panics only when the range is empty.
#[verifier::external_body]
fn random_between(low: i64, high: i64) -> (r: i64)
    requires
        low < high,
    ensures
        low <= r < high,
{
    rand::thread_rng().gen_range(low..high)
}

/// Relies on rand's `SliceRandom::choose` with the thread-local generator: `None` for
/// an empty slice, else a reference to one of its elements.
#[verifier::external_body]
fn choose_one(items: &[Json]) -> (r: Option<&Json>)
    ensures
        r is None <==> items@.len() == 0,
        r matches Some(x) ==> items@.contains(*x),
{
    items.choose(&mut rand::thread_rng())
}

/// Yields one of a fixed, non-empty list of values.
#[derive(Debug)]
pub struct DiscreteValues {
    possible: Vec<Json>,
}

/// Yields an integer of the half-open interval `[start, end)`.
#[derive(Debug)]
pub struct RangedValues {
    start: i64,
    end: i64,
}

/// Yields an object with one member per entry, each sampled from the entry's producer.
#[derive(Debug)]
pub struct ObjectValues {
    schema: Vec<(String, Producer)>,
}

/// Yields an array of between `min` and `max` elements (inclusive), each sampled
/// from `types`.
#[derive(Debug)]
pub struct ArrayValues {
    min: u32,
    max: u32,
    types: Box<Producer>,
}

/// Any of the producers.
#[derive(Debug)]
pub enum Producer {
    Discrete(DiscreteValues),
    Ranged(RangedValues),
    Object(ObjectValues),
    Array(ArrayValues),
}

impl DiscreteValues {
    #[verifier::type_invariant]
    spec fn inv(self) -> bool {
        self.possible@.len() > 0
    }

    pub closed spec fn shape(&self) -> Gen {
        Gen::Discrete(docs(self.possible@))
    }

    /// A producer over copies of `values`, which must not be empty.
    pub fn new(values: &[Json]) -> (r: Self)
        requires
            values@.len() > 0,
        ensures
            r.shape() == Gen::Discrete(docs(values@)),
    {
        let mut possible: Vec<Json> = Vec::new();
        let mut i: usize = 0;
        while i < values.len()
            invariant
                i <= values@.len(),
                possible@.len() == i,
                forall|j: int| 0 <= j < i ==> #[trigger] possible@[j]@ == values@[j]@,
            decreases values@.len() - i,
        {
            possible.push(values[i].duplicate());
            i = i + 1;
        }
        proof {
            lemma_docs_eq(possible@, values@);
        }
        DiscreteValues { possible }
    }

    pub fn sample(&self) -> (r: Json)
        ensures
            yields(self.shape(), r@),
    {
        proof {
            use_type_invariant(self);
        }
        let picked = choose_one(self.possible.as_slice());
        match picked {
            Some(x) => {
                let r = x.duplicate();
                proof {
                    let k = choose|k: int| 0 <= k < self.possible@.len() && self.possible@[k] == *x;
                    lemma_docs(self.possible@);
                    assert(docs(self.possible@)[k] == r@);
                }
                r
            },
            None => {
                proof {
                    assert(false);
                }
                Json::Null
            },
        }
    }
}

impl RangedValues {
    #[verifier::type_invariant]
    spec fn inv(self) -> bool {
        self.start < self.end
    }

    pub closed spec fn shape(&self) -> Gen {
        Gen::Ranged(self.start as int, self.end as int)
    }

    /// A producer over `[start, end)`, which must not be empty.
    pub fn new(start: i64, end: i64) -> (r: Self)
        requires
            start < end,
        ensures
            r.shape() == Gen::Ranged(start as int, end as int),
    {
        RangedValues { start, end }
    }

    pub fn sample(&self) -> (r: Json)
        ensures
            yields(self.shape(), r@),
            self.shape()->Ranged_1 == self.shape()->Ranged_0 + 1 ==> r@ == Doc::Int(
                self.shape()->Ranged_0,
            ),
    {
        proof {
            use_type_invariant(self);
        }
        Json::Int(random_between(self.start, self.end))
    }
}

impl ArrayValues {
    #[verifier::type_invariant]
    spec fn inv(self) -> bool {
        self.min <= self.max
    }

    pub closed spec fn shape(&self) -> Gen
        decreases self,
    {
        Gen::Array(self.min as nat, self.max as nat, Box::new(self.types.shape()))
    }

    /// A producer of arrays of `min` to `max` elements (inclusive) drawn from `types`;
    /// `min` must not exceed `max`.
    pub fn new(min: u32, max: u32, types: Box<Producer>) -> (r: Self)
        requires
            min <= max,
        ensures
            r.shape() == Gen::Array(min as nat, max as nat, Box::new(types.shape())),
    {
        ArrayValues { min, max, types }
    }

    /// Samples an array of exactly `count` elements.
    pub fn sample_of_length(&self, count: u32) -> (r: Json)
        ensures
            r@ matches Doc::Arr(xs) && xs.len() == count && forall|i: int|
                0 <= i < xs.len() ==> yields(*self.shape()->Array_2, #[trigger] xs[i]),
        decreases self, 0nat,
    {
        let mut out: Vec<Json> = Vec::new();
        let mut i: u32 = 0;
        while i < count
            invariant
                i <= count,
                out@.len() == i,
                forall|j: int| 0 <= j < i ==> yields(self.types.shape(), #[trigger] out@[j]@),
            decreases count - i,
        {
            out.push(self.types.sample());
            i = i + 1;
        }
        proof {
            lemma_docs(out@);
            let xs = docs(out@);
            assert forall|j: int| 0 <= j < xs.len() implies yields(
                self.types.shape(),
                #[trigger] xs[j],
            ) by {
                assert(xs[j] == out@[j]@);
            }
        }
        Json::Arr(out)
    }

    pub fn sample(&self) -> (r: Json)
        ensures
            yields(self.shape(), r@),
        decreases self, 1nat,
    {
        proof {
            use_type_invariant(self);
        }
        let count = random_between(self.min as i64, self.max as i64 + 1);
        self.sample_of_length(count as u32)
    }
}

impl ObjectValues {
    #[verifier::type_invariant]
    spec fn inv(self) -> bool {
        distinct_names(self.schema@)
    }

    pub closed spec fn shape(&self) -> Gen
        decreases self,
    {
        Gen::Object(entries_shape(self.schema@))
    }

    /// A producer of objects with one member per entry; names must be distinct.
    pub fn new(schema: Vec<(String, Producer)>) -> (r: Self)
        requires
            distinct_names(schema@),
        ensures
            r.shape() == Gen::Object(entries_shape(schema@)),
    {
        ObjectValues { schema }
    }

    pub fn sample(&self) -> (r: Json)
        ensures
            yields(self.shape(), r@),
        decreases self, 0nat,
    {
        sample_members(&self.schema)
    }
}

impl Producer {
    pub open spec fn shape(&self) -> Gen
        decreases self,
    {
        match self {
            Producer::Discrete(p) => p.shape(),
            Producer::Ranged(p) => p.shape(),
            Producer::Object(p) => p.shape(),
            Producer::Array(p) => p.shape(),
        }
    }

    pub fn sample(&self) -> (r: Json)
        ensures
            yields(self.shape(), r@),
        decreases self, 0nat,
    {
        match self {
            Producer::Discrete(p) => p.sample(),
            Producer::Ranged(p) => p.sample(),
            Producer::Object(p) => p.sample(),
            Producer::Array(p) => p.sample(),
        }
    }
}

/// The shapes of named producers.
pub open spec fn entries_shape(s: Seq<(String, Producer)>) -> Seq<(Seq<char>, Gen)>
    decreases s,
{
    if s.len() == 0 {
        Seq::empty()
    } else {
        entries_shape(s.subrange(0, s.len() - 1)).push((s[s.len() - 1].0@, s[s.len() - 1].1.shape()))
    }
}

pub proof fn lemma_entries_shape(s: Seq<(String, Producer)>)
    ensures
        entries_shape(s).len() == s.len(),
        forall|i: int|
            0 <= i < s.len() ==> #[trigger] entries_shape(s)[i] == (s[i].0@, s[i].1.shape()),
    decreases s.len(),
{
    if s.len() > 0 {
        let p = s.subrange(0, s.len() - 1);
        lemma_entries_shape(p);
        assert forall|i: int| 0 <= i < s.len() implies #[trigger] entries_shape(s)[i] == (
            s[i].0@,
            s[i].1.shape(),
        ) by {
            if i < s.len() - 1 {
                assert(p[i] == s[i]);
            }
        }
    }
}

/// Samples one object with a member for each entry, in the entries' order.
pub fn sample_members(fields: &Vec<(String, Producer)>) -> (r: Json)
    ensures
        yields(Gen::Object(entries_shape(fields@)), r@),
    decreases fields, 0nat,
{
    let mut out: Vec<(String, Json)> = Vec::new();
    let mut i: usize = 0;
    while i < fields.len()
        invariant
            i <= fields@.len(),
            out@.len() == i,
            forall|j: int|
                0 <= j < i ==> (#[trigger] out@[j]).0@ == fields@[j].0@ && yields(
                    fields@[j].1.shape(),
                    out@[j].1@,
                ),
        decreases fields@.len() - i,
    {
        proof {
            assert(decreases_to!(*fields => fields[i as int]));
        }
        let member = (fields[i].0.clone(), fields[i].1.sample());
        out.push(member);
        i = i + 1;
    }
    proof {
        lemma_member_docs(out@);
        lemma_entries_shape(fields@);
        let ds = member_docs(out@);
        let fs = entries_shape(fields@);
        assert forall|j: int| 0 <= j < fs.len() implies (#[trigger] ds[j]).0 == fs[j].0 && yields(
            fs[j].1,
            ds[j].1,
        ) by {
            assert(out@[j].0@ == fields@[j].0@);
        }
    }
    Json::Obj(out)
}

/// A discrete producer yields only its candidates.
pub proof fn lemma_discrete_member(candidates: Seq<Doc>, d: Doc)
    requires
        yields(Gen::Discrete(candidates), d),
    ensures
        candidates.contains(d),
{
}

/// A ranged producer over `[low, high)` yields an integer `n` with `low <= n < high`;
/// when `high == low + 1` it always yields `low`.
pub proof fn lemma_ranged_bounds(low: int, high: int, d: Doc)
    requires
        yields(Gen::Ranged(low, high), d),
    ensures
        d matches Doc::Int(n) && low <= n < high,
        high == low + 1 ==> d == Doc::Int(low),
{
}

/// An array producer with bounds `[min, max]` yields an array of `min` to `max`
/// elements; when `min == max` the length is exactly `min`.
pub proof fn lemma_array_length(min: nat, max: nat, element: Gen, d: Doc)
    requires
        yields(Gen::Array(min, max, Box::new(element)), d),
    ensures
        d matches Doc::Arr(xs) && min <= xs.len() <= max,
        min == max ==> (d matches Doc::Arr(xs) && xs.len() == min),
{
}

/// An object producer yields an object whose member names are exactly its own, in
/// order, one value for each.
pub proof fn lemma_object_members(fields: Seq<(Seq<char>, Gen)>, d: Doc)
    requires
        yields(Gen::Object(fields), d),
    ensures
        d matches Doc::Obj(ds) && ds.map_values(|m: (Seq<char>, Doc)| m.0) == names_of(fields),
{
    let ds = d->Obj_0;
    assert(ds.map_values(|m: (Seq<char>, Doc)| m.0) =~= names_of(fields));
}

/// A producer of random values.
pub trait Values {
    /// The configuration of this producer.
    spec fn model(&self) -> Gen;

    /// Samples one value; every outcome is one that the configuration allows.
    fn get_value(&self) -> (r: Json)
        ensures
            yields(self.model(), r@),
    ;
}

impl Values for DiscreteValues {
    open spec fn model(&self) -> Gen {
        self.shape()
    }

    fn get_value(&self) -> (r: Json) {
        self.sample()
    }
}

impl Values for RangedValues {
    open spec fn model(&self) -> Gen {
        self.shape()
    }

    fn get_value(&self) -> (r: Json) {
        self.sample()
    }
}

impl Values for ArrayValues {
    open spec fn model(&self) -> Gen {
        self.shape()
    }

    fn get_value(&self) -> (r: Json) {
        self.sample()
    }
}

impl Values for ObjectValues {
    open spec fn model(&self) -> Gen {
        self.shape()
    }

    fn get_value(&self) -> (r: Json) {
        self.sample()
    }
}

impl Values for Producer {
    open spec fn model(&self) -> Gen {
        self.shape()
    }

    fn get_value(&self) -> (r: Json) {
        self.sample()
    }
}

} // verus!
