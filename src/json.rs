//! The generic structured value that schemas and generated documents are made of.
use vstd::prelude::*;
use vstd::string::*;

verus! {

/// A JSON-like value. Object members keep the order in which they were given.
#[derive(Debug, PartialEq, Eq)]
pub enum Json {
    Null,
    Bool(bool),
    /// A number that fits in an `i64`.
    Int(i64),
    /// Any other number, kept as its decimal text.
    Num(String),
    Str(String),
    Arr(Vec<Json>),
    Obj(Vec<(String, Json)>),
}

/// The mathematical model of a `Json` value.
pub enum Doc {
    Null,
    Bool(bool),
    Int(int),
    Num(Seq<char>),
    Str(Seq<char>),
    Arr(Seq<Doc>),
    Obj(Seq<(Seq<char>, Doc)>),
}

impl Json {
    pub open spec fn doc(self) -> Doc
        decreases self, 0nat,
    {
        match self {
            Json::Null => Doc::Null,
            Json::Bool(b) => Doc::Bool(b),
            Json::Int(n) => Doc::Int(n as int),
            Json::Num(s) => Doc::Num(s@),
            Json::Str(s) => Doc::Str(s@),
            Json::Arr(v) => Doc::Arr(docs(v@)),
            Json::Obj(v) => Doc::Obj(member_docs(v@)),
        }
    }
}

impl View for Json {
    type V = Doc;

    open spec fn view(&self) -> Doc {
        self.doc()
    }
}

/// The models of a sequence of values.
pub open spec fn docs(s: Seq<Json>) -> Seq<Doc>
    decreases s, 1nat,
{
    if s.len() == 0 {
        Seq::empty()
    } else {
        docs(s.subrange(0, s.len() - 1)).push(s[s.len() - 1].doc())
    }
}

/// The models of a sequence of object members.
pub open spec fn member_docs(s: Seq<(String, Json)>) -> Seq<(Seq<char>, Doc)>
    decreases s, 1nat,
{
    if s.len() == 0 {
        Seq::empty()
    } else {
        member_docs(s.subrange(0, s.len() - 1)).push(
            (s[s.len() - 1].0@, s[s.len() - 1].1.doc()),
        )
    }
}

pub proof fn lemma_docs(s: Seq<Json>)
    ensures
        #[trigger] docs(s).len() == s.len(),
        forall|i: int| 0 <= i < s.len() ==> #[trigger] docs(s)[i] == s[i].doc(),
    decreases s.len(),
{
    if s.len() > 0 {
        let p = s.subrange(0, s.len() - 1);
        lemma_docs(p);
        assert forall|i: int| 0 <= i < s.len() implies #[trigger] docs(s)[i] == s[i].doc() by {
            if i < s.len() - 1 {
                assert(p[i] == s[i]);
            }
        }
    }
}

pub proof fn lemma_member_docs(s: Seq<(String, Json)>)
    ensures
        #[trigger] member_docs(s).len() == s.len(),
        forall|i: int|
            0 <= i < s.len() ==> #[trigger] member_docs(s)[i] == (s[i].0@, s[i].1.doc()),
    decreases s.len(),
{
    if s.len() > 0 {
        let p = s.subrange(0, s.len() - 1);
        lemma_member_docs(p);
        assert forall|i: int| 0 <= i < s.len() implies #[trigger] member_docs(s)[i] == (
            s[i].0@,
            s[i].1.doc(),
        ) by {
            if i < s.len() - 1 {
                assert(p[i] == s[i]);
            }
        }
    }
}

/// Sequences whose elements have equal models have equal models.
pub proof fn lemma_docs_eq(a: Seq<Json>, b: Seq<Json>)
    requires
        a.len() == b.len(),
        forall|j: int| 0 <= j < a.len() ==> #[trigger] a[j]@ == b[j]@,
    ensures
        docs(a) == docs(b),
{
    lemma_docs(a);
    lemma_docs(b);
    assert forall|j: int| 0 <= j < a.len() implies docs(a)[j] == docs(b)[j] by {
        assert(a[j]@ == b[j]@);
    }
    assert(docs(a) =~= docs(b));
}

impl Json {
    /// A copy of this value with the same model.
    pub fn duplicate(&self) -> (r: Json)
        ensures
            r@ == self@,
        decreases self,
    {
        match self {
            Json::Null => Json::Null,
            Json::Bool(b) => Json::Bool(*b),
            Json::Int(n) => Json::Int(*n),
            Json::Num(s) => Json::Num(s.clone()),
            Json::Str(s) => Json::Str(s.clone()),
            Json::Arr(v) => {
                let mut out: Vec<Json> = Vec::new();
                let mut i: usize = 0;
                while i < v.len()
                    invariant
                        *self == Json::Arr(*v),
                        i <= v.len(),
                        out@.len() == i,
                        forall|j: int| 0 <= j < i ==> #[trigger] out@[j]@ == v@[j]@,
                    decreases v.len() - i,
                {
                    proof {
                        assert(decreases_to!(*self => (*self)->Arr_0));
                        assert(decreases_to!(*v => v[i as int]));
                    }
                    out.push(v[i].duplicate());
                    i = i + 1;
                }
                proof {
                    lemma_docs_eq(out@, v@);
                }
                Json::Arr(out)
            },
            Json::Obj(v) => {
                let mut out: Vec<(String, Json)> = Vec::new();
                let mut i: usize = 0;
                while i < v.len()
                    invariant
                        *self == Json::Obj(*v),
                        i <= v.len(),
                        out@.len() == i,
                        forall|j: int|
                            0 <= j < i ==> #[trigger] out@[j].0@ == v@[j].0@ && out@[j].1@
                                == v@[j].1@,
                    decreases v.len() - i,
                {
                    proof {
                        assert(decreases_to!(*self => (*self)->Obj_0));
                        assert(decreases_to!(*v => v[i as int]));
                    }
                    let member = (v[i].0.clone(), v[i].1.duplicate());
                    out.push(member);
                    i = i + 1;
                }
                proof {
                    lemma_member_docs(out@);
                    lemma_member_docs(v@);
                    assert(member_docs(out@) =~= member_docs(v@));
                }
                Json::Obj(out)
            },
        }
    }
}

impl Clone for Json {
    fn clone(&self) -> (r: Self)
        ensures
            r@ == self@,
    {
        self.duplicate()
    }
}

/// Whether two strings hold the same characters.
pub fn same_text(a: &str, b: &str) -> (r: bool)
    ensures
        r == (a@ == b@),
{
    let n = a.unicode_len();
    if n != b.unicode_len() {
        return false;
    }
    let mut i: usize = 0;
    while i < n
        invariant
            n == a@.len(),
            n == b@.len(),
            i <= n,
            forall|j: int| 0 <= j < i ==> a@[j] == b@[j],
        decreases n - i,
    {
        if a.get_char(i) != b.get_char(i) {
            return false;
        }
        i = i + 1;
    }
    assert(a@ =~= b@);
    true
}

/// The index of the first member named `key`, or `-1` when no member has that name.
pub open spec fn find_key(fs: Seq<(Seq<char>, Doc)>, key: Seq<char>) -> int
    decreases fs.len(),
{
    if fs.len() == 0 {
        -1
    } else if fs[0].0 == key {
        0
    } else {
        let r = find_key(fs.subrange(1, fs.len() as int), key);
        if r < 0 {
            -1
        } else {
            r + 1
        }
    }
}

/// The value of the first member of `d` named `key`, if `d` is an object that has one.
pub open spec fn member(d: Doc, key: Seq<char>) -> Option<Doc> {
    match d {
        Doc::Obj(fs) => {
            let i = find_key(fs, key);
            if 0 <= i < fs.len() {
                Some(fs[i].1)
            } else {
                None
            }
        },
        _ => None,
    }
}

/// `find_key` is the first index whose name is `key`.
pub proof fn lemma_find_key(fs: Seq<(Seq<char>, Doc)>, key: Seq<char>, i: int)
    requires
        0 <= i <= fs.len(),
        forall|j: int| 0 <= j < i ==> (#[trigger] fs[j]).0 != key,
        i == fs.len() || fs[i].0 == key,
    ensures
        find_key(fs, key) == if i < fs.len() {
            i
        } else {
            -1
        },
    decreases fs.len(),
{
    if fs.len() > 0 && i > 0 {
        let rest = fs.subrange(1, fs.len() as int);
        assert forall|j: int| 0 <= j < i - 1 implies (#[trigger] rest[j]).0 != key by {
            assert(rest[j] == fs[j + 1]);
        }
        assert(fs[0].0 != key);
        if i < fs.len() {
            assert(rest[i - 1] == fs[i]);
        }
        lemma_find_key(rest, key, i - 1);
    }
}

/// The index of the first member named `key`.
pub fn find_member(members: &Vec<(String, Json)>, key: &str) -> (r: Option<usize>)
    ensures
        match r {
            Some(i) => find_key(member_docs(members@), key@) == i && i < members@.len(),
            None => find_key(member_docs(members@), key@) == -1,
        },
{
    proof {
        lemma_member_docs(members@);
    }
    let mut i: usize = 0;
    while i < members.len()
        invariant
            i <= members@.len(),
            member_docs(members@).len() == members@.len(),
            forall|j: int|
                0 <= j < members@.len() ==> #[trigger] member_docs(members@)[j] == (
                    members@[j].0@,
                    members@[j].1@,
                ),
            forall|j: int| 0 <= j < i ==> (#[trigger] member_docs(members@)[j]).0 != key@,
        decreases members@.len() - i,
    {
        if same_text(members[i].0.as_str(), key) {
            proof {
                lemma_find_key(member_docs(members@), key@, i as int);
            }
            return Some(i);
        }
        i = i + 1;
    }
    proof {
        lemma_find_key(member_docs(members@), key@, i as int);
    }
    None
}

/// The value of the first member of `d` named `key`.
pub fn member_of<'a>(d: &'a Json, key: &str) -> (r: Option<&'a Json>)
    ensures
        match r {
            Some(x) => member(d@, key@) == Some(x@),
            None => member(d@, key@) is None,
        },
{
    match d {
        Json::Obj(fs) => {
            proof {
                lemma_member_docs(fs@);
            }
            match find_member(fs, key) {
                Some(i) => Some(&fs[i].1),
                None => None,
            }
        },
        _ => None,
    }
}

} // verus!
