//! JSON values as the JMAP layer builds them, and the reshaping of stored
//! header values into the form a request asks for.

use vstd::prelude::*;

verus! {

broadcast use vstd::std_specs::vec::group_vec_axioms;

/// A JSON value. Object members keep the order in which they were added.
#[derive(Debug)]
pub enum JSONValue {
    Null,
    Bool(bool),
    Number(i64),
    String(String),
    Array(Vec<JSONValue>),
    Object(Vec<(String, JSONValue)>),
}

/// The mathematical form of a JSON value.
pub enum Json {
    Null,
    Bool(bool),
    Number(int),
    Str(Seq<char>),
    Array(Seq<Json>),
    Object(Seq<(Seq<char>, Json)>),
}

impl JSONValue {
    pub open spec fn json(self) -> Json
        decreases self,
    {
        match self {
            JSONValue::Null => Json::Null,
            JSONValue::Bool(b) => Json::Bool(b),
            JSONValue::Number(n) => Json::Number(n as int),
            JSONValue::String(s) => Json::Str(s@),
            JSONValue::Array(v) => Json::Array(
                Seq::new(
                    v.len() as nat,
                    |i: int|
                        if 0 <= i < v.len() {
                            v[i].json()
                        } else {
                            Json::Null
                        },
                ),
            ),
            JSONValue::Object(v) => Json::Object(
                Seq::new(
                    v.len() as nat,
                    |i: int|
                        if 0 <= i < v.len() {
                            (v[i].0@, v[i].1.json())
                        } else {
                            (Seq::empty(), Json::Null)
                        },
                ),
            ),
        }
    }
}


/// The mathematical form of a list of JSON values.
pub open spec fn json_seq(v: Seq<JSONValue>) -> Seq<Json> {
    v.map_values(|x: JSONValue| x.json())
}

pub proof fn lemma_array_json(v: Vec<JSONValue>)
    ensures
        JSONValue::Array(v).json() == Json::Array(json_seq(v@)),
{
    let a = JSONValue::Array(v).json();
    let s = a->Array_0;
    assert(s.len() == v.len());
    assert forall|i: int| 0 <= i < s.len() implies s[i] == json_seq(v@)[i] by {
        assert(s[i] == v[i].json());
    }
    assert(s =~= json_seq(v@));
}

/// The last item of a list, or null for an empty one.
pub open spec fn last_or_null(l: Seq<Json>) -> Json {
    if l.len() == 0 {
        Json::Null
    } else {
        l.last()
    }
}

/// Turns the last value into a list of its own, or the list into its last value.
fn pop_or_null(mut list: Vec<JSONValue>) -> (r: JSONValue)
    ensures
        r.json() == last_or_null(json_seq(list@)),
{
    match list.pop() {
        Some(v) => v,
        None => JSONValue::Null,
    }
}

fn array_of(list: Vec<JSONValue>) -> (r: JSONValue)
    ensures
        r.json() == Json::Array(json_seq(list@)),
{
    proof {
        lemma_array_json(list);
    }
    JSONValue::Array(list)
}

fn single(value: JSONValue) -> (r: Vec<JSONValue>)
    ensures
        json_seq(r@) == seq![value.json()],
{
    let r = vec![value];
    assert(json_seq(r@) =~= seq![value.json()]);
    r
}

/// A text header as one string, or as every instance of it.
pub open spec fn string_transform(value: Json, as_collection: bool) -> Json {
    match value {
        Json::Array(l) => if !as_collection {
            last_or_null(l)
        } else {
            Json::Array(l)
        },
        Json::Str(s) => if !as_collection {
            Json::Str(s)
        } else {
            Json::Array(seq![Json::Str(s)])
        },
        _ => Json::Null,
    }
}

/// A list-valued header (message ids, URLs) as its last instance, or as
/// every instance of it.
pub open spec fn string_list_transform(value: Json, is_collection: bool, as_collection: bool) -> Json {
    match value {
        Json::Array(l) => if !as_collection {
            if !is_collection {
                Json::Array(l)
            } else {
                last_or_null(l)
            }
        } else if is_collection {
            Json::Array(l)
        } else {
            Json::Array(seq![Json::Array(l)])
        },
        _ => Json::Null,
    }
}

pub fn transform_json_string(value: JSONValue, as_collection: bool) -> (r: JSONValue)
    ensures
        r.json() == string_transform(value.json(), as_collection),
{
    match value {
        JSONValue::Array(list) => {
            proof {
                lemma_array_json(list);
            }
            if !as_collection {
                pop_or_null(list)
            } else {
                array_of(list)
            }
        },
        JSONValue::String(s) => {
            if !as_collection {
                JSONValue::String(s)
            } else {
                let ghost j = JSONValue::String(s).json();
                array_of(single(JSONValue::String(s)))
            }
        },
        _ => JSONValue::Null,
    }
}

pub fn transform_json_stringlist(value: JSONValue, is_collection: bool, as_collection: bool) -> (r:
    JSONValue)
    ensures
        r.json() == string_list_transform(value.json(), is_collection, as_collection),
{
    match value {
        JSONValue::Array(list) => {
            proof {
                lemma_array_json(list);
            }
            if !as_collection {
                if !is_collection {
                    array_of(list)
                } else {
                    pop_or_null(list)
                }
            } else if is_collection {
                array_of(list)
            } else {
                let ghost l = json_seq(list@);
                array_of(single(array_of(list)))
            }
        },
        _ => JSONValue::Null,
    }
}


/// The mathematical form of an object's members.
pub open spec fn json_members(v: Seq<(String, JSONValue)>) -> Seq<(Seq<char>, Json)> {
    v.map_values(|m: (String, JSONValue)| (m.0@, m.1.json()))
}

pub proof fn lemma_object_json(v: Vec<(String, JSONValue)>)
    ensures
        JSONValue::Object(v).json() == Json::Object(json_members(v@)),
{
    let a = JSONValue::Object(v).json();
    let s = a->Object_0;
    assert(s.len() == v.len());
    assert forall|i: int| 0 <= i < s.len() implies s[i] == json_members(v@)[i] by {
        assert(s[i] == (v[i].0@, v[i].1.json()));
    }
    assert(s =~= json_members(v@));
}

pub open spec fn name_key() -> Seq<char> {
    seq!['n', 'a', 'm', 'e']
}

pub open spec fn addresses_key() -> Seq<char> {
    seq!['a', 'd', 'd', 'r', 'e', 's', 's', 'e', 's']
}

/// An unnamed group holding the addresses `l`.
pub open spec fn group_of(l: Seq<Json>) -> Json {
    Json::Object(seq![(name_key(), Json::Null), (addresses_key(), Json::Array(l))])
}

/// The value of the first member named `key`.
pub open spec fn member(ms: Seq<(Seq<char>, Json)>, key: Seq<char>) -> Option<Json>
    decreases ms.len(),
{
    if ms.len() == 0 {
        None
    } else if ms[0].0 == key {
        Some(ms[0].1)
    } else {
        member(ms.drop_first(), key)
    }
}

/// The addresses of a group; none for anything that is not a group.
pub open spec fn group_addresses(g: Json) -> Seq<Json> {
    match g {
        Json::Object(ms) => match member(ms, addresses_key()) {
            Some(Json::Array(a)) => a,
            _ => Seq::empty(),
        },
        _ => Seq::empty(),
    }
}

/// The addresses of all the groups, in order.
pub open spec fn flatten_groups(gs: Seq<Json>) -> Seq<Json>
    decreases gs.len(),
{
    if gs.len() == 0 {
        Seq::empty()
    } else {
        group_addresses(gs[0]) + flatten_groups(gs.drop_first())
    }
}

/// Each instance that is a list becomes a list of one unnamed group.
pub open spec fn group_each(l: Seq<Json>) -> Seq<Json> {
    l.map_values(
        |f: Json|
            match f {
                Json::Array(x) => Json::Array(seq![group_of(x)]),
                _ => f,
            },
    )
}

/// Each instance that is a list of groups becomes the list of their addresses.
pub open spec fn flatten_each(l: Seq<Json>) -> Seq<Json> {
    l.map_values(
        |f: Json|
            match f {
                Json::Array(x) => Json::Array(flatten_groups(x)),
                _ => f,
            },
    )
}

/// An address header stored grouped or not, as one instance or all of them,
/// reshaped to the grouping and the number of instances asked for.
pub open spec fn address_transform(
    value: Json,
    is_grouped: bool,
    is_collection: bool,
    as_grouped: bool,
    as_collection: bool,
) -> Json {
    match value {
        Json::Array(list) => if as_grouped == is_grouped {
            if as_collection == is_collection {
                Json::Array(list)
            } else if as_collection {
                Json::Array(seq![Json::Array(list)])
            } else {
                last_or_null(list)
            }
        } else {
            let list2 = if as_collection && !is_collection {
                seq![Json::Array(list)]
            } else if !as_collection && is_collection {
                match last_or_null(list) {
                    Json::Array(l) => l,
                    _ => Seq::empty(),
                }
            } else {
                list
            };
            if as_grouped {
                Json::Array(
                    if !as_collection {
                        seq![group_of(list2)]
                    } else {
                        group_each(list2)
                    },
                )
            } else {
                Json::Array(
                    if !as_collection {
                        flatten_groups(list2)
                    } else {
                        flatten_each(list2)
                    },
                )
            }
        },
        _ => Json::Null,
    }
}

fn group_from(list: Vec<JSONValue>) -> (r: JSONValue)
    ensures
        r.json() == group_of(json_seq(list@)),
{
    let name = "name".to_owned();
    let addresses = "addresses".to_owned();
    proof {
        reveal_strlit("name");
        reveal_strlit("addresses");
        assert(name@ =~= name_key());
        assert(addresses@ =~= addresses_key());
    }
    let a = array_of(list);
    let members = vec![(name, JSONValue::Null), (addresses, a)];
    proof {
        lemma_object_json(members);
        assert(json_members(members@) =~= seq![
            (name_key(), Json::Null),
            (addresses_key(), Json::Array(json_seq(list@))),
        ]);
    }
    JSONValue::Object(members)
}

proof fn lemma_json_seq_append(a: Seq<JSONValue>, b: Seq<JSONValue>)
    ensures
        json_seq(a + b) == json_seq(a) + json_seq(b),
{
    assert(json_seq(a + b) =~= json_seq(a) + json_seq(b));
}

/// The addresses member of a group.
#[verifier::rlimit(50)]
fn take_group_addresses(group: JSONValue) -> (r: Vec<JSONValue>)
    ensures
        json_seq(r@) == group_addresses(group.json()),
{
    match group {
        JSONValue::Object(mut members) => {
            proof {
                lemma_object_json(members);
            }
            let ghost ms = json_members(members@);
            let key = "addresses".to_owned();
            proof {
                reveal_strlit("addresses");
                assert(key@ =~= addresses_key());
            }
            let mut k: usize = 0;
            assert(ms.skip(0) =~= ms);
            while k < members.len() && !(members[k].0 == key)
                invariant
                    k <= members@.len(),
                    ms == json_members(members@),
                    key@ == addresses_key(),
                    member(ms, addresses_key()) == member(ms.skip(k as int), addresses_key()),
                decreases members@.len() - k,
            {
                proof {
                    assert(ms.skip(k as int).drop_first() =~= ms.skip(k + 1));
                    assert(ms.skip(k as int)[0] == ms[k as int]);
                }
                k += 1;
            }
            if k < members.len() {
                proof {
                    assert(ms.skip(k as int)[0] == ms[k as int]);
                    assert(ms[k as int].0 == addresses_key());
                }
                let (_, value) = members.remove(k);
                match value {
                    JSONValue::Array(addresses) => {
                        proof {
                            lemma_array_json(addresses);
                        }
                        addresses
                    },
                    _ => {
                        let r: Vec<JSONValue> = Vec::new();
                        assert(json_seq(r@) =~= Seq::<Json>::empty());
                        r
                    },
                }
            } else {
                proof {
                    assert(ms.skip(k as int) =~= Seq::<(Seq<char>, Json)>::empty());
                }
                let r: Vec<JSONValue> = Vec::new();
                assert(json_seq(r@) =~= Seq::<Json>::empty());
                r
            }
        },
        _ => {
            let r: Vec<JSONValue> = Vec::new();
            assert(json_seq(r@) =~= Seq::<Json>::empty());
            r
        },
    }
}

/// The addresses of all the groups of `list`, in order.
fn flatten_group(mut list: Vec<JSONValue>) -> (r: Vec<JSONValue>)
    ensures
        json_seq(r@) == flatten_groups(json_seq(list@)),
{
    let ghost all = json_seq(list@);
    let mut addresses: Vec<JSONValue> = Vec::new();
    assert(json_seq(addresses@) =~= Seq::<Json>::empty());
    while list.len() > 0
        invariant
            flatten_groups(all) == json_seq(addresses@) + flatten_groups(json_seq(list@)),
        decreases list@.len(),
    {
        let ghost rest = json_seq(list@);
        let group = list.remove(0);
        proof {
            assert(json_seq(list@) =~= rest.drop_first());
            assert(rest[0] == group.json());
        }
        let mut group_addrs = take_group_addresses(group);
        let ghost before = addresses@;
        let ghost ga = group_addrs@;
        addresses.append(&mut group_addrs);
        proof {
            lemma_json_seq_append(before, ga);
            assert(json_seq(before) + group_addresses(rest[0]) + flatten_groups(rest.drop_first())
                =~= json_seq(before) + (group_addresses(rest[0]) + flatten_groups(
                rest.drop_first(),
            )));
        }
    }
    proof {
        assert(json_seq(list@) =~= Seq::<Json>::empty());
        assert(json_seq(addresses@) + Seq::<Json>::empty() =~= json_seq(addresses@));
    }
    addresses
}

/// Rewrites each instance that is a list: into a list of one group when
/// `to_grouped`, else into the addresses of its groups.
fn reshape_each(mut list: Vec<JSONValue>, to_grouped: bool) -> (r: Vec<JSONValue>)
    ensures
        json_seq(r@) == if to_grouped {
            group_each(json_seq(list@))
        } else {
            flatten_each(json_seq(list@))
        },
{
    let ghost all = json_seq(list@);
    let ghost target = if to_grouped {
        group_each(all)
    } else {
        flatten_each(all)
    };
    let mut out: Vec<JSONValue> = Vec::new();
    let ghost n = all.len();
    while list.len() > 0
        invariant
            out@.len() + list@.len() == n,
            n == all.len(),
            target == if to_grouped {
                group_each(all)
            } else {
                flatten_each(all)
            },
            json_seq(list@) == all.skip(out@.len() as int),
            json_seq(out@) == target.take(out@.len() as int),
        decreases list@.len(),
    {
        let ghost done = out@.len();
        let ghost rest = json_seq(list@);
        let field = list.remove(0);
        proof {
            assert(json_seq(list@) =~= rest.drop_first());
            assert(rest[0] == all[done as int]);
            assert(json_seq(list@) =~= all.skip((done + 1) as int));
        }
        let item = match field {
            JSONValue::Array(inner) => {
                proof {
                    lemma_array_json(inner);
                }
                if to_grouped {
                    array_of(single(group_from(inner)))
                } else {
                    array_of(flatten_group(inner))
                }
            },
            other => other,
        };
        let ghost prev = out@;
        out.push(item);
        proof {
            assert(item.json() == target[done as int]);
            assert(json_seq(out@) =~= target.take((done + 1) as int)) by {
                assert(json_seq(out@) =~= json_seq(prev).push(item.json()));
            }
        }
    }
    proof {
        assert(target.take(n as int) =~= target);
    }
    out
}

pub fn transform_json_emailaddress(
    value: JSONValue,
    is_grouped: bool,
    is_collection: bool,
    as_grouped: bool,
    as_collection: bool,
) -> (r: JSONValue)
    ensures
        r.json() == address_transform(
            value.json(),
            is_grouped,
            is_collection,
            as_grouped,
            as_collection,
        ),
{
    match value {
        JSONValue::Array(list) => {
            proof {
                lemma_array_json(list);
            }
            let ghost l = json_seq(list@);
            if as_grouped == is_grouped {
                if as_collection == is_collection {
                    array_of(list)
                } else if as_collection {
                    array_of(single(array_of(list)))
                } else {
                    pop_or_null(list)
                }
            } else {
                let list2 = if as_collection && !is_collection {
                    single(array_of(list))
                } else if !as_collection && is_collection {
                    match pop_or_null(list) {
                        JSONValue::Array(inner) => {
                            proof {
                                lemma_array_json(inner);
                            }
                            inner
                        },
                        _ => {
                            let r: Vec<JSONValue> = Vec::new();
                            assert(json_seq(r@) =~= Seq::<Json>::empty());
                            r
                        },
                    }
                } else {
                    list
                };
                if as_grouped {
                    if !as_collection {
                        array_of(single(group_from(list2)))
                    } else {
                        array_of(reshape_each(list2, true))
                    }
                } else {
                    if !as_collection {
                        array_of(flatten_group(list2))
                    } else {
                        array_of(reshape_each(list2, false))
                    }
                }
            }
        },
        _ => JSONValue::Null,
    }
}


impl JSONValue {
    /// Whether two values are the same JSON.
    pub fn same_as(&self, other: &JSONValue) -> (r: bool)
        ensures
            r == (self.json() == other.json()),
        decreases self,
    {
        match (self, other) {
            (JSONValue::Null, JSONValue::Null) => true,
            (JSONValue::Bool(a), JSONValue::Bool(b)) => *a == *b,
            (JSONValue::Number(a), JSONValue::Number(b)) => *a == *b,
            (JSONValue::String(a), JSONValue::String(b)) => a.eq(b),
            (JSONValue::Array(a), JSONValue::Array(b)) => {
                proof {
                    lemma_array_json(*a);
                    lemma_array_json(*b);
                }
                if a.len() != b.len() {
                    proof {
                        assert(json_seq(a@).len() != json_seq(b@).len());
                    }
                    return false;
                }
                let mut i: usize = 0;
                while i < a.len()
                    invariant
                        i <= a@.len(),
                        a@.len() == b@.len(),
                        *self == JSONValue::Array(*a),
                        self.json() == Json::Array(json_seq(a@)),
                        other.json() == Json::Array(json_seq(b@)),
                        forall|j: int| 0 <= j < i ==> a@[j].json() == b@[j].json(),
                    decreases a@.len() - i,
                {
                    proof {
                        assert(decreases_to!(*self => a[i as int]));
                    }
                    if !a[i].same_as(&b[i]) {
                        proof {
                            assert(json_seq(a@)[i as int] != json_seq(b@)[i as int]);
                        }
                        return false;
                    }
                    i += 1;
                }
                proof {
                    assert(json_seq(a@) =~= json_seq(b@));
                }
                true
            },
            (JSONValue::Object(a), JSONValue::Object(b)) => {
                proof {
                    lemma_object_json(*a);
                    lemma_object_json(*b);
                }
                if a.len() != b.len() {
                    proof {
                        assert(json_members(a@).len() != json_members(b@).len());
                    }
                    return false;
                }
                let mut i: usize = 0;
                while i < a.len()
                    invariant
                        i <= a@.len(),
                        a@.len() == b@.len(),
                        *self == JSONValue::Object(*a),
                        self.json() == Json::Object(json_members(a@)),
                        other.json() == Json::Object(json_members(b@)),
                        forall|j: int|
                            0 <= j < i ==> a@[j].0@ == b@[j].0@ && a@[j].1.json() == b@[j].1.json(),
                    decreases a@.len() - i,
                {
                    proof {
                        assert(decreases_to!(*self => a[i as int].1));
                    }
                    if !(a[i].0 == b[i].0) || !a[i].1.same_as(&b[i].1) {
                        proof {
                            assert(json_members(a@)[i as int] != json_members(b@)[i as int]);
                        }
                        return false;
                    }
                    i += 1;
                }
                proof {
                    assert(json_members(a@) =~= json_members(b@));
                }
                true
            },
            _ => false,
        }
    }

    /// A copy of the value.
    pub fn duplicate(&self) -> (r: JSONValue)
        ensures
            r.json() == self.json(),
        decreases self,
    {
        match self {
            JSONValue::Null => JSONValue::Null,
            JSONValue::Bool(b) => JSONValue::Bool(*b),
            JSONValue::Number(n) => JSONValue::Number(*n),
            JSONValue::String(s) => JSONValue::String(s.clone()),
            JSONValue::Array(a) => {
                proof {
                    lemma_array_json(*a);
                }
                let mut out: Vec<JSONValue> = Vec::new();
                let mut i: usize = 0;
                while i < a.len()
                    invariant
                        i <= a@.len(),
                        *self == JSONValue::Array(*a),
                        self.json() == Json::Array(json_seq(a@)),
                        json_seq(out@) == json_seq(a@).take(i as int),
                    decreases a@.len() - i,
                {
                    proof {
                        assert(decreases_to!(*self => a[i as int]));
                    }
                    let item = a[i].duplicate();
                    let ghost prev = out@;
                    out.push(item);
                    proof {
                        assert(json_seq(out@) =~= json_seq(prev).push(item.json()));
                        assert(json_seq(out@) =~= json_seq(a@).take(i + 1));
                    }
                    i += 1;
                }
                proof {
                    assert(json_seq(a@).take(i as int) =~= json_seq(a@));
                }
                array_of(out)
            },
            JSONValue::Object(a) => {
                proof {
                    lemma_object_json(*a);
                }
                let mut out: Vec<(String, JSONValue)> = Vec::new();
                let mut i: usize = 0;
                while i < a.len()
                    invariant
                        i <= a@.len(),
                        *self == JSONValue::Object(*a),
                        self.json() == Json::Object(json_members(a@)),
                        json_members(out@) == json_members(a@).take(i as int),
                    decreases a@.len() - i,
                {
                    proof {
                        assert(decreases_to!(*self => a[i as int].1));
                    }
                    let item = (a[i].0.clone(), a[i].1.duplicate());
                    let ghost prev = out@;
                    out.push(item);
                    proof {
                        assert(json_members(out@) =~= json_members(prev).push(
                            (item.0@, item.1.json()),
                        ));
                        assert(json_members(out@) =~= json_members(a@).take(i + 1));
                    }
                    i += 1;
                }
                proof {
                    assert(json_members(a@).take(i as int) =~= json_members(a@));
                    lemma_object_json(out);
                }
                JSONValue::Object(out)
            },
        }
    }
}

impl PartialEq for JSONValue {
    fn eq(&self, other: &JSONValue) -> (r: bool) {
        self.same_as(other)
    }
}

impl vstd::std_specs::cmp::PartialEqSpecImpl for JSONValue {
    open spec fn obeys_eq_spec() -> bool {
        true
    }

    open spec fn eq_spec(&self, other: &JSONValue) -> bool {
        self.json() == other.json()
    }
}

impl Clone for JSONValue {
    fn clone(&self) -> (r: JSONValue)
        ensures
            r.json() == self.json(),
    {
        self.duplicate()
    }
}

} // verus!
