//! JSON values, their mathematical model, and the structural merge and unmerge
//! of two documents.

use vstd::prelude::*;

verus! {

/// A JSON value. Object members are kept in a vector, in no particular order;
/// a well-formed object (see `wf`) names each key once.
#[derive(Debug, PartialEq)]
pub enum Json {
    Null,
    Bool(bool),
    /// A number without fraction or exponent.
    Int(i128),
    /// Any other number, as its decimal text.
    Float(String),
    Str(String),
    Array(Vec<Json>),
    Object(Vec<(String, Json)>),
}

/// The mathematical value of a JSON document. Objects are maps, so two objects
/// are equal exactly when they hold the same members, in whatever order.
pub enum JsonModel {
    Null,
    Bool(bool),
    Int(int),
    Float(Seq<char>),
    Str(Seq<char>),
    Array(Seq<JsonModel>),
    Object(Map<Seq<char>, JsonModel>),
}

pub open spec fn model(j: Json) -> JsonModel
    decreases j,
{
    match j {
        Json::Null => JsonModel::Null,
        Json::Bool(b) => JsonModel::Bool(b),
        Json::Int(n) => JsonModel::Int(n as int),
        Json::Float(t) => JsonModel::Float(t@),
        Json::Str(s) => JsonModel::Str(s@),
        Json::Array(items) => JsonModel::Array(items_model(items@)),
        Json::Object(members) => JsonModel::Object(members_model(members@)),
    }
}

pub open spec fn items_model(s: Seq<Json>) -> Seq<JsonModel>
    decreases s,
{
    if s.len() == 0 {
        Seq::empty()
    } else {
        items_model(s.subrange(0, s.len() - 1)).push(model(s[s.len() - 1]))
    }
}

/// The members of an object as a map; where a key repeats, the last member counts.
pub open spec fn members_model(s: Seq<(String, Json)>) -> Map<Seq<char>, JsonModel>
    decreases s,
{
    if s.len() == 0 {
        Map::empty()
    } else {
        members_model(s.subrange(0, s.len() - 1)).insert(
            s[s.len() - 1].0@,
            model(s[s.len() - 1].1),
        )
    }
}

/// Every object in the value, however deep, names each key once.
pub open spec fn wf(j: Json) -> bool
    decreases j,
{
    match j {
        Json::Array(items) => items_wf(items@),
        Json::Object(members) => members_wf(members@),
        _ => true,
    }
}

pub open spec fn items_wf(s: Seq<Json>) -> bool
    decreases s,
{
    s.len() > 0 ==> {
        &&& items_wf(s.subrange(0, s.len() - 1))
        &&& wf(s[s.len() - 1])
    }
}

pub open spec fn members_wf(s: Seq<(String, Json)>) -> bool
    decreases s,
{
    s.len() > 0 ==> {
        &&& members_wf(s.subrange(0, s.len() - 1))
        &&& wf(s[s.len() - 1].1)
        &&& !members_model(s.subrange(0, s.len() - 1)).contains_key(s[s.len() - 1].0@)
    }
}

pub proof fn lemma_items(s: Seq<Json>)
    ensures
        items_model(s).len() == s.len(),
        forall|i: int| 0 <= i < s.len() ==> #[trigger] items_model(s)[i] == model(s[i]),
        items_wf(s) <==> forall|i: int| 0 <= i < s.len() ==> wf(#[trigger] s[i]),
    decreases s.len(),
{
    if s.len() > 0 {
        let p = s.subrange(0, s.len() - 1);
        lemma_items(p);
        assert forall|i: int| 0 <= i < s.len() - 1 implies #[trigger] s[i] == p[i] by {}
    }
}

/// What a key names in a member list: it is in the map exactly when some member
/// has it.
pub proof fn lemma_members_keys(s: Seq<(String, Json)>)
    ensures
        forall|k: Seq<char>|
            #[trigger] members_model(s).contains_key(k) <==> exists|i: int|
                0 <= i < s.len() && s[i].0@ == k,
        members_model(s).dom().finite(),
        members_model(s).dom().len() == 0 <==> s.len() == 0,
        members_model(s).dom() == Set::<Seq<char>>::empty() <==> s.len() == 0,
    decreases s.len(),
{
    if s.len() == 0 {
        assert(members_model(s).dom() =~= Set::<Seq<char>>::empty());
    } else {
        let p = s.subrange(0, s.len() - 1);
        lemma_members_keys(p);
        assert forall|k: Seq<char>| #[trigger]
            members_model(s).contains_key(k) <==> exists|i: int|
                0 <= i < s.len() && s[i].0@ == k by {
            if members_model(s).contains_key(k) && k != s[s.len() - 1].0@ {
                let i = choose|i: int| 0 <= i < p.len() && p[i].0@ == k;
                assert(s[i] == p[i]);
            }
            if exists|i: int| 0 <= i < s.len() && s[i].0@ == k {
                let i = choose|i: int| 0 <= i < s.len() && s[i].0@ == k;
                if i < s.len() - 1 {
                    assert(s[i] == p[i]);
                }
            }
        }
        assert(members_model(s).contains_key(s[s.len() - 1].0@));
    }
}

/// In a well-formed member list each member is found in the map under its key,
/// and no two members share a key.
pub proof fn lemma_members(s: Seq<(String, Json)>)
    requires
        members_wf(s),
    ensures
        forall|i: int|
            0 <= i < s.len() ==> {
                &&& members_model(s).contains_key(#[trigger] s[i].0@)
                &&& members_model(s)[s[i].0@] == model(s[i].1)
                &&& wf(s[i].1)
            },
        forall|i: int, j: int| 0 <= i < j < s.len() ==> s[i].0@ != s[j].0@,
    decreases s.len(),
{
    lemma_members_keys(s);
    if s.len() > 0 {
        let p = s.subrange(0, s.len() - 1);
        lemma_members(p);
        lemma_members_keys(p);
        assert forall|i: int| 0 <= i < s.len() - 1 implies #[trigger] s[i] == p[i] by {}
        assert forall|i: int, j: int| 0 <= i < j < s.len() implies s[i].0@ != s[j].0@ by {
            if j == s.len() - 1 {
                assert(p[i] == s[i]);
            } else {
                assert(p[i] == s[i] && p[j] == s[j]);
            }
        }
    }
}

/// A prefix of a well-formed member list is well formed.
pub proof fn lemma_members_prefix(s: Seq<(String, Json)>, n: int)
    requires
        members_wf(s),
        0 <= n <= s.len(),
    ensures
        members_wf(s.subrange(0, n)),
    decreases s.len(),
{
    if n < s.len() {
        let p = s.subrange(0, s.len() - 1);
        lemma_members_prefix(p, n);
        assert(p.subrange(0, n) =~= s.subrange(0, n));
    } else {
        assert(s.subrange(0, n) =~= s);
    }
}

/// Appending a member under a new key adds it to the map.
pub proof fn lemma_members_push(s: Seq<(String, Json)>, k: String, v: Json)
    requires
        members_wf(s),
        !members_model(s).contains_key(k@),
        wf(v),
    ensures
        members_wf(s.push((k, v))),
        members_model(s.push((k, v))) == members_model(s).insert(k@, model(v)),
{
    assert(s.push((k, v)).subrange(0, s.len() as int) =~= s);
}

pub proof fn lemma_items_push(s: Seq<Json>, v: Json)
    ensures
        items_wf(s) && wf(v) ==> items_wf(s.push(v)),
        items_model(s.push(v)) == items_model(s).push(model(v)),
{
    assert(s.push(v).subrange(0, s.len() as int) =~= s);
}

/// Replacing the value of one member changes the map at that key alone.
pub proof fn lemma_members_update(s: Seq<(String, Json)>, i: int, v: Json)
    requires
        members_wf(s),
        0 <= i < s.len(),
        wf(v),
    ensures
        members_wf(s.update(i, (s[i].0, v))),
        members_model(s.update(i, (s[i].0, v))) == members_model(s).insert(s[i].0@, model(v)),
    decreases s.len(),
{
    let t = s.update(i, (s[i].0, v));
    let p = s.subrange(0, s.len() - 1);
    let q = t.subrange(0, t.len() - 1);
    if i == s.len() - 1 {
        assert(q =~= p);
        assert(members_model(t) =~= members_model(s).insert(s[i].0@, model(v)));
    } else {
        lemma_members_update(p, i, v);
        assert(q =~= p.update(i, (p[i].0, v)));
        lemma_members(p);
        assert(p[i] == s[i]);
        assert(members_model(q).dom() =~= members_model(p).dom());
        assert(members_model(t) =~= members_model(s).insert(s[i].0@, model(v)));
    }
}

/// Overlays `overlay` on `base`: where both are objects the members are merged
/// key by key, recursively; otherwise `overlay` replaces `base` whole.
pub open spec fn merge(base: JsonModel, overlay: JsonModel) -> JsonModel
    decreases overlay,
{
    match overlay {
        JsonModel::Object(o) => match base {
            JsonModel::Object(b) => JsonModel::Object(
                Map::new(
                    |k: Seq<char>| b.contains_key(k) || o.contains_key(k),
                    |k: Seq<char>|
                        if o.contains_key(k) {
                            if b.contains_key(k) {
                                merge(b[k], o[k])
                            } else {
                                o[k]
                            }
                        } else {
                            b[k]
                        },
                ),
            ),
            _ => overlay,
        },
        _ => overlay,
    }
}

/// An object with no member.
pub open spec fn is_empty_object(v: JsonModel) -> bool {
    &&& v is Object
    &&& v->Object_0.dom() == Set::<Seq<char>>::empty()
}

/// Whether `subtract` keeps the member `k` of the object `b` against the object `o`.
pub open spec fn subtract_keeps(
    b: Map<Seq<char>, JsonModel>,
    o: Map<Seq<char>, JsonModel>,
    k: Seq<char>,
) -> bool
    recommends
        b.contains_key(k),
{
    !o.contains_key(k) || (b[k] is Object && o[k] is Object && !is_empty_object(
        subtract(b[k], o[k]),
    ))
}

/// Removes from `base` every key that `overlay` also has. Where both sides hold
/// objects under a key, the removal goes into them instead, and the key goes
/// only once nothing is left under it.
pub open spec fn subtract(base: JsonModel, overlay: JsonModel) -> JsonModel
    decreases overlay,
{
    match overlay {
        JsonModel::Object(o) => match base {
            JsonModel::Object(b) => JsonModel::Object(
                Map::new(
                    |k: Seq<char>|
                        b.contains_key(k) && (!o.contains_key(k) || (b[k] is Object && o[k] is Object
                            && !is_empty_object(subtract(b[k], o[k])))),
                    |k: Seq<char>|
                        if o.contains_key(k) {
                            subtract(b[k], o[k])
                        } else {
                            b[k]
                        },
                ),
            ),
            _ => base,
        },
        _ => base,
    }
}

/// The index of the member named `key`, if there is one.
pub fn find_member(members: &Vec<(String, Json)>, key: &String) -> (r: Option<usize>)
    requires
        members_wf(members@),
    ensures
        match r {
            Some(i) => i < members.len() && members@[i as int].0@ == key@,
            None => !members_model(members@).contains_key(key@),
        },
{
    proof {
        lemma_members_keys(members@);
    }
    let mut i: usize = 0;
    while i < members.len()
        invariant
            i <= members.len(),
            forall|j: int| 0 <= j < i ==> members@[j].0@ != key@,
        decreases members.len() - i,
    {
        if members[i].0 == *key {
            return Some(i);
        }
        i += 1;
    }
    None
}

impl Json {
    /// A copy of this value.
    pub fn deep_copy(&self) -> (r: Json)
        requires
            wf(*self),
        ensures
            wf(r),
            model(r) == model(*self),
        decreases self,
    {
        match self {
            Json::Null => Json::Null,
            Json::Bool(b) => Json::Bool(*b),
            Json::Int(n) => Json::Int(*n),
            Json::Float(t) => Json::Float(t.clone()),
            Json::Str(s) => Json::Str(s.clone()),
            Json::Array(items) => {
                let mut out: Vec<Json> = Vec::new();
                let mut i: usize = 0;
                proof {
                    lemma_items(items@);
                    assert(decreases_to!(*self => *items));
                    assert(decreases_to!(*items => items@));
                }
                while i < items.len()
                    invariant
                        i <= items.len(),
                        items_wf(items@),
                        forall|j: int| 0 <= j < items.len() ==> wf(#[trigger] items@[j]),
                        items_wf(out@),
                        items_model(out@) == items_model(items@.subrange(0, i as int)),
                        decreases_to!(*self => items@),
                    decreases items.len() - i,
                {
                    proof {
                        assert(decreases_to!(items@ => items@[i as int]));
                    }
                    let c = items[i].deep_copy();
                    proof {
                        lemma_items_push(out@, c);
                        assert(items@.subrange(0, i + 1).subrange(0, i as int) =~= items@.subrange(
                            0,
                            i as int,
                        ));
                    }
                    out.push(c);
                    i += 1;
                }
                proof {
                    assert(items@.subrange(0, items@.len() as int) =~= items@);
                }
                Json::Array(out)
            },
            Json::Object(members) => {
                let mut out: Vec<(String, Json)> = Vec::new();
                let mut i: usize = 0;
                proof {
                    lemma_members(members@);
                    assert(decreases_to!(*self => *members));
                    assert(decreases_to!(*members => members@));
                }
                while i < members.len()
                    invariant
                        i <= members.len(),
                        members_wf(members@),
                        forall|j: int|
                            0 <= j < members.len() ==> wf(#[trigger] members@[j].1),
                        members_wf(out@),
                        members_model(out@) == members_model(members@.subrange(0, i as int)),
                        decreases_to!(*self => members@),
                    decreases members.len() - i,
                {
                    proof {
                        assert(decreases_to!(members@ => members@[i as int]));
                        assert(decreases_to!(members@[i as int] => members@[i as int].1));
                    }
                    let c = members[i].1.deep_copy();
                    let k = members[i].0.clone();
                    proof {
                        lemma_members_prefix(members@, i + 1);
                        assert(members@.subrange(0, i + 1).subrange(0, i as int)
                            =~= members@.subrange(0, i as int));
                        lemma_members_push(out@, k, c);
                    }
                    out.push((k, c));
                    i += 1;
                }
                proof {
                    assert(members@.subrange(0, members@.len() as int) =~= members@);
                }
                Json::Object(out)
            },
        }
    }
}

/// Overlays `overlay` on `base` and returns the result (see `merge`).
pub fn merged(base: Json, overlay: &Json) -> (r: Json)
    requires
        wf(base),
        wf(*overlay),
    ensures
        wf(r),
        model(r) == merge(model(base), model(*overlay)),
    decreases overlay,
{
    match overlay {
        Json::Object(over) => {
            match base {
                Json::Object(members) => {
                    let ghost bm = members_model(members@);
                    let ghost om = members_model(over@);
                    let mut members = members;
                    let mut j: usize = 0;
                    proof {
                        lemma_members(over@);
                        assert(decreases_to!(*overlay => *over));
                        assert(decreases_to!(*over => over@));
                        assert(over@.subrange(0, 0) =~= Seq::<(String, Json)>::empty());
                        assert(members_model(members@) =~= merge(
                            JsonModel::Object(bm),
                            JsonModel::Object(members_model(over@.subrange(0, 0))),
                        )->Object_0);
                    }
                    while j < over.len()
                        invariant
                            j <= over.len(),
                            members_wf(over@),
                            forall|i: int| 0 <= i < over.len() ==> wf(#[trigger] over@[i].1),
                            decreases_to!(*overlay => over@),
                            members_wf(members@),
                            members_model(members@) == merge(
                                JsonModel::Object(bm),
                                JsonModel::Object(members_model(over@.subrange(0, j as int))),
                            )->Object_0,
                        decreases over.len() - j,
                    {
                        let ghost oj = members_model(over@.subrange(0, j as int));
                        let ghost k = over@[j as int].0@;
                        proof {
                            lemma_members_prefix(over@, j + 1);
                            assert(over@.subrange(0, j + 1).subrange(0, j as int) =~= over@.subrange(
                                0,
                                j as int,
                            ));
                            assert(members_model(over@.subrange(0, j + 1)) == oj.insert(
                                k,
                                model(over@[j as int].1),
                            ));
                            assert(!oj.contains_key(k));
                            lemma_members(members@);
                            assert(decreases_to!(over@ => over@[j as int]));
                            assert(decreases_to!(over@[j as int] => over@[j as int].1));
                        }
                        match find_member(&members, &over[j].0) {
                            Some(i) => {
                                let ghost before = members@;
                                let (key, child) = members.remove(i);
                                let child = merged(child, &over[j].1);
                                members.insert(i, (key, child));
                                proof {
                                    assert(members@ =~= before.update(i as int, (key, child)));
                                    lemma_members_update(before, i as int, child);
                                }
                            },
                            None => {
                                let k2 = over[j].0.clone();
                                let v2 = over[j].1.deep_copy();
                                proof {
                                    lemma_members_push(members@, k2, v2);
                                }
                                members.push((k2, v2));
                            },
                        }
                        proof {
                            assert(members_model(members@) =~= merge(
                                JsonModel::Object(bm),
                                JsonModel::Object(members_model(over@.subrange(0, j + 1))),
                            )->Object_0);
                        }
                        j += 1;
                    }
                    proof {
                        assert(over@.subrange(0, over@.len() as int) =~= over@);
                    }
                    Json::Object(members)
                },
                _ => overlay.deep_copy(),
            }
        },
        _ => overlay.deep_copy(),
    }
}

/// Overlays `overlay` on `base` in place (see `merge`).
pub fn merge_json(base: &mut Json, overlay: &Json)
    requires
        wf(*old(base)),
        wf(*overlay),
    ensures
        wf(*final(base)),
        model(*final(base)) == merge(model(*old(base)), model(*overlay)),
{
    let mut taken = Json::Null;
    std::mem::swap(base, &mut taken);
    *base = merged(taken, overlay);
}

/// Whether the value is an object.
pub fn is_object(j: &Json) -> (r: bool)
    ensures
        r == model(*j) is Object,
{
    match j {
        Json::Object(_) => true,
        _ => false,
    }
}

/// Whether the value is an object with at least one member.
pub fn is_nonempty_object(j: &Json) -> (r: bool)
    ensures
        r == (model(*j) is Object && !is_empty_object(model(*j))),
{
    match j {
        Json::Object(members) => {
            proof {
                lemma_members_keys(members@);
            }
            members.len() > 0
        },
        _ => false,
    }
}

/// Removes the keys of `overlay` from `base` and returns the result (see `subtract`).
pub fn subtracted(base: Json, overlay: &Json) -> (r: Json)
    requires
        wf(base),
        wf(*overlay),
    ensures
        wf(r),
        model(r) == subtract(model(base), model(*overlay)),
    decreases overlay,
{
    match overlay {
        Json::Object(over) => {
            match base {
                Json::Object(members) => {
                    let ghost om = members_model(over@);
                    let mut kept: Vec<(String, Json)> = Vec::new();
                    let mut i: usize = 0;
                    proof {
                        lemma_members(over@);
                        lemma_members(members@);
                        assert(decreases_to!(*overlay => *over));
                        assert(decreases_to!(*over => over@));
                        assert(members@.subrange(0, 0) =~= Seq::<(String, Json)>::empty());
                        assert(members_model(kept@) =~= subtract(
                            JsonModel::Object(members_model(members@.subrange(0, 0))),
                            JsonModel::Object(om),
                        )->Object_0);
                    }
                    while i < members.len()
                        invariant
                            i <= members.len(),
                            members_wf(over@),
                            members_wf(members@),
                            forall|x: int| 0 <= x < over.len() ==> wf(#[trigger] over@[x].1),
                            forall|x: int| 0 <= x < members.len() ==> wf(#[trigger] members@[x].1),
                            members_wf(kept@),
                            om == members_model(over@),
                            members_model(kept@) == subtract(
                                JsonModel::Object(members_model(members@.subrange(0, i as int))),
                                JsonModel::Object(om),
                            )->Object_0,
                            decreases_to!(*overlay => over@),
                        decreases members.len() - i,
                    {
                        let ghost k = members@[i as int].0@;
                        let ghost pi = members_model(members@.subrange(0, i as int));
                        proof {
                            lemma_members_prefix(members@, i + 1);
                            assert(members@.subrange(0, i + 1).subrange(0, i as int)
                                =~= members@.subrange(0, i as int));
                            assert(!pi.contains_key(k));
                        }
                        let key = &members[i].0;
                        match find_member(over, key) {
                            None => {
                                let c = members[i].1.deep_copy();
                                let k2 = key.clone();
                                proof {
                                    lemma_members_push(kept@, k2, c);
                                }
                                kept.push((k2, c));
                            },
                            Some(x) => {
                                proof {
                                    lemma_members(over@);
                                    assert(decreases_to!(over@ => over@[x as int]));
                                    assert(decreases_to!(over@[x as int] => over@[x as int].1));
                                }
                                if is_object(&members[i].1) && is_object(&over[x].1) {
                                    let child = subtracted(members[i].1.deep_copy(), &over[x].1);
                                    if is_nonempty_object(&child) {
                                        let k2 = key.clone();
                                        proof {
                                            lemma_members_push(kept@, k2, child);
                                        }
                                        kept.push((k2, child));
                                    }
                                }
                            },
                        }
                        proof {
                            assert(members_model(kept@) =~= subtract(
                                JsonModel::Object(members_model(members@.subrange(0, i + 1))),
                                JsonModel::Object(om),
                            )->Object_0);
                        }
                        i += 1;
                    }
                    proof {
                        assert(members@.subrange(0, members@.len() as int) =~= members@);
                    }
                    Json::Object(kept)
                },
                _ => base,
            }
        },
        _ => base,
    }
}

/// Removes the keys of `overlay` from `base` in place (see `subtract`).
pub fn remove_json_keys(base: &mut Json, overlay: &Json)
    requires
        wf(*old(base)),
        wf(*overlay),
    ensures
        wf(*final(base)),
        model(*final(base)) == subtract(model(*old(base)), model(*overlay)),
{
    let mut taken = Json::Null;
    std::mem::swap(base, &mut taken);
    *base = subtracted(taken, overlay);
}

/// Structural equality of two documents: objects compare as maps, arrays in order.
pub fn json_equal(a: &Json, b: &Json) -> (r: bool)
    requires
        wf(*a),
        wf(*b),
    ensures
        r == (model(*a) == model(*b)),
    decreases a,
{
    match (a, b) {
        (Json::Null, Json::Null) => true,
        (Json::Bool(x), Json::Bool(y)) => *x == *y,
        (Json::Int(x), Json::Int(y)) => *x == *y,
        (Json::Float(x), Json::Float(y)) => *x == *y,
        (Json::Str(x), Json::Str(y)) => *x == *y,
        (Json::Array(xs), Json::Array(ys)) => {
            proof {
                lemma_items(xs@);
                lemma_items(ys@);
                assert(decreases_to!(*a => *xs));
                assert(decreases_to!(*xs => xs@));
            }
            if xs.len() != ys.len() {
                return false;
            }
            let mut i: usize = 0;
            while i < xs.len()
                invariant
                    i <= xs.len(),
                    xs.len() == ys.len(),
                    forall|j: int| 0 <= j < xs.len() ==> wf(#[trigger] xs@[j]),
                    forall|j: int| 0 <= j < ys.len() ==> wf(#[trigger] ys@[j]),
                    forall|j: int| 0 <= j < i ==> model(#[trigger] xs@[j]) == model(ys@[j]),
                    decreases_to!(*a => xs@),
                    model(*a) == JsonModel::Array(items_model(xs@)),
                    model(*b) == JsonModel::Array(items_model(ys@)),
                decreases xs.len() - i,
            {
                proof {
                    assert(decreases_to!(xs@ => xs@[i as int]));
                }
                if !json_equal(&xs[i], &ys[i]) {
                    proof {
                        lemma_items(xs@);
                        lemma_items(ys@);
                        assert(items_model(xs@)[i as int] != items_model(ys@)[i as int]);
                    }
                    return false;
                }
                i += 1;
            }
            proof {
                lemma_items(xs@);
                lemma_items(ys@);
                assert(items_model(xs@) =~= items_model(ys@));
            }
            true
        },
        (Json::Object(xs), Json::Object(ys)) => {
            let ghost xm = members_model(xs@);
            let ghost ym = members_model(ys@);
            proof {
                lemma_members(xs@);
                lemma_members(ys@);
                lemma_members_keys(xs@);
                lemma_members_keys(ys@);
                assert(decreases_to!(*a => *xs));
                assert(decreases_to!(*xs => xs@));
            }
            let mut i: usize = 0;
            while i < xs.len()
                invariant
                    i <= xs.len(),
                    members_wf(xs@),
                    members_wf(ys@),
                    xm == members_model(xs@),
                    ym == members_model(ys@),
                    forall|j: int| 0 <= j < xs.len() ==> wf(#[trigger] xs@[j].1),
                    forall|j: int| 0 <= j < ys.len() ==> wf(#[trigger] ys@[j].1),
                    forall|j: int|
                        0 <= j < xs.len() ==> xm.contains_key(#[trigger] xs@[j].0@) && xm[xs@[j].0@]
                            == model(xs@[j].1),
                    forall|j: int|
                        0 <= j < ys.len() ==> ym.contains_key(#[trigger] ys@[j].0@) && ym[ys@[j].0@]
                            == model(ys@[j].1),
                    forall|j: int|
                        0 <= j < i ==> ym.contains_key(#[trigger] xs@[j].0@) && ym[xs@[j].0@]
                            == xm[xs@[j].0@],
                    decreases_to!(*a => xs@),
                    model(*a) == JsonModel::Object(xm),
                    model(*b) == JsonModel::Object(ym),
                decreases xs.len() - i,
            {
                match find_member(ys, &xs[i].0) {
                    None => {
                        return false;
                    },
                    Some(x) => {
                        proof {
                            assert(decreases_to!(xs@ => xs@[i as int]));
                            assert(decreases_to!(xs@[i as int] => xs@[i as int].1));
                        }
                        if !json_equal(&xs[i].1, &ys[x].1) {
                            return false;
                        }
                    },
                }
                i += 1;
            }
            let mut i: usize = 0;
            while i < ys.len()
                invariant
                    i <= ys.len(),
                    members_wf(xs@),
                    members_wf(ys@),
                    xm == members_model(xs@),
                    ym == members_model(ys@),
                    forall|j: int| 0 <= j < xs.len() ==> xm.contains_key(#[trigger] xs@[j].0@),
                    forall|j: int| 0 <= j < ys.len() ==> ym.contains_key(#[trigger] ys@[j].0@),
                    forall|j: int| 0 <= j < i ==> xm.contains_key(#[trigger] ys@[j].0@),
                    model(*a) == JsonModel::Object(xm),
                    model(*b) == JsonModel::Object(ym),
                decreases ys.len() - i,
            {
                match find_member(xs, &ys[i].0) {
                    None => {
                        return false;
                    },
                    Some(_) => {},
                }
                i += 1;
            }
            proof {
                assert forall|k: Seq<char>| xm.contains_key(k) implies ym.contains_key(k) && ym[k]
                    == xm[k] by {
                    let j = choose|j: int| 0 <= j < xs.len() && xs@[j].0@ == k;
                    assert(ym.contains_key(xs@[j].0@));
                }
                assert forall|k: Seq<char>| ym.contains_key(k) implies xm.contains_key(k) by {
                    let j = choose|j: int| 0 <= j < ys.len() && ys@[j].0@ == k;
                    assert(xm.contains_key(ys@[j].0@));
                }
                assert(xm =~= ym);
            }
            true
        },
        _ => false,
    }
}

/// Whether every object in the value names each key once.
pub fn check_well_formed(j: &Json) -> (r: bool)
    ensures
        r == wf(*j),
    decreases j,
{
    match j {
        Json::Array(items) => {
            proof {
                lemma_items(items@);
                assert(decreases_to!(*j => *items));
                assert(decreases_to!(*items => items@));
                assert(items@.subrange(0, 0) =~= Seq::<Json>::empty());
            }
            let mut i: usize = 0;
            while i < items.len()
                invariant
                    i <= items.len(),
                    items_wf(items@) ==> forall|x: int| 0 <= x < items.len() ==> wf(#[trigger] items@[x]),
                    items_wf(items@.subrange(0, i as int)),
                    decreases_to!(*j => items@),
                    wf(*j) == items_wf(items@),
                decreases items.len() - i,
            {
                proof {
                    assert(decreases_to!(items@ => items@[i as int]));
                    assert(items@.subrange(0, i + 1).subrange(0, i as int) =~= items@.subrange(
                        0,
                        i as int,
                    ));
                }
                if !check_well_formed(&items[i]) {
                    return false;
                }
                i += 1;
            }
            proof {
                assert(items@.subrange(0, items@.len() as int) =~= items@);
            }
            true
        },
        Json::Object(members) => {
            proof {
                assert(decreases_to!(*j => *members));
                assert(decreases_to!(*members => members@));
                assert(members@.subrange(0, 0) =~= Seq::<(String, Json)>::empty());
            }
            let mut i: usize = 0;
            while i < members.len()
                invariant
                    i <= members.len(),
                    members_wf(members@.subrange(0, i as int)),
                    decreases_to!(*j => members@),
                    wf(*j) == members_wf(members@),
                decreases members.len() - i,
            {
                proof {
                    assert(decreases_to!(members@ => members@[i as int]));
                    assert(decreases_to!(members@[i as int] => members@[i as int].1));
                    assert(members@.subrange(0, i + 1).subrange(0, i as int) =~= members@.subrange(
                        0,
                        i as int,
                    ));
                }
                if !check_well_formed(&members[i].1) {
                    proof {
                        if members_wf(members@) {
                            lemma_members(members@);
                        }
                    }
                    return false;
                }
                let mut x: usize = 0;
                while x < i
                    invariant
                        x <= i < members.len(),
                        forall|y: int| 0 <= y < x ==> members@[y].0@ != members@[i as int].0@,
                        wf(*j) == members_wf(members@),
                    decreases i - x,
                {
                    if members[x].0 == members[i].0 {
                        proof {
                            if members_wf(members@) {
                                lemma_members(members@);
                            }
                        }
                        return false;
                    }
                    x += 1;
                }
                proof {
                    let p = members@.subrange(0, i as int);
                    lemma_members_keys(p);
                    if members_model(p).contains_key(members@[i as int].0@) {
                        let y = choose|y: int| 0 <= y < p.len() && p[y].0@ == members@[i as int].0@;
                        assert(p[y] == members@[y]);
                    }
                }
                i += 1;
            }
            proof {
                assert(members@.subrange(0, members@.len() as int) =~= members@);
            }
            true
        },
        _ => true,
    }
}

/// The value of the member `key` of an object.
pub fn get_member<'a>(j: &'a Json, key: &String) -> (r: Option<&'a Json>)
    requires
        wf(*j),
    ensures
        match r {
            Some(v) => {
                &&& model(*j) is Object
                &&& model(*j)->Object_0.contains_key(key@)
                &&& model(*j)->Object_0[key@] == model(*v)
                &&& wf(*v)
            },
            None => !(model(*j) is Object && model(*j)->Object_0.contains_key(key@)),
        },
{
    match j {
        Json::Object(members) => {
            proof {
                lemma_members(members@);
            }
            match find_member(members, key) {
                Some(i) => Some(&members[i].1),
                None => None,
            }
        },
        _ => None,
    }
}

/// Sets the member `key` to `v`, replacing the member of that name if there is one.
pub fn set_member(members: &mut Vec<(String, Json)>, key: String, v: Json)
    requires
        members_wf(old(members)@),
        wf(v),
    ensures
        members_wf(final(members)@),
        members_model(final(members)@) == members_model(old(members)@).insert(key@, model(v)),
{
    match find_member(members, &key) {
        Some(i) => {
            let ghost before = members@;
            let (k, _) = members.remove(i);
            members.insert(i, (k, v));
            proof {
                assert(members@ =~= before.update(i as int, (k, v)));
                lemma_members_update(before, i as int, v);
            }
        },
        None => {
            proof {
                lemma_members_push(members@, key, v);
            }
            members.push((key, v));
        },
    }
}

/// `r` holds every key of `o` with `o`'s value: where that value is an object,
/// `r` holds an object there that covers it in turn.
pub open spec fn covers(r: JsonModel, o: JsonModel) -> bool
    decreases o,
{
    match o {
        JsonModel::Object(om) => {
            &&& r is Object
            &&& forall|k: Seq<char>|
                #![trigger om[k]]
                om.contains_key(k) ==> r->Object_0.contains_key(k) && covers(r->Object_0[k], om[k])
        },
        _ => r == o,
    }
}

/// Every value covers itself.
pub proof fn lemma_covers_self(v: JsonModel)
    ensures
        covers(v, v),
    decreases v,
{
    if let JsonModel::Object(m) = v {
        assert forall|k: Seq<char>| #![trigger m[k]] m.contains_key(k) implies covers(m[k], m[k]) by {
            lemma_covers_self(m[k]);
        }
    }
}

/// Whatever the base, the merge covers the overlay.
pub proof fn lemma_merge_covers(base: JsonModel, overlay: JsonModel)
    ensures
        covers(merge(base, overlay), overlay),
    decreases overlay,
{
    lemma_covers_self(overlay);
    if let JsonModel::Object(o) = overlay {
        if let JsonModel::Object(b) = base {
            let r = merge(base, overlay)->Object_0;
            assert forall|k: Seq<char>| #![trigger o[k]] o.contains_key(k) implies r.contains_key(k)
                && covers(r[k], o[k]) by {
                if b.contains_key(k) {
                    lemma_merge_covers(b[k], o[k]);
                } else {
                    lemma_covers_self(o[k]);
                }
            }
        }
    }
}

/// Merging two objects: the result holds exactly the keys of both, covers the
/// overlay (every key of the overlay with its value, recursively), and keeps
/// every key found only in the base with its value unchanged.
pub proof fn lemma_merge_keeps_both(a: JsonModel, b: JsonModel)
    requires
        a is Object,
        b is Object,
    ensures
        merge(a, b) is Object,
        covers(merge(a, b), b),
        forall|k: Seq<char>|
            #[trigger] merge(a, b)->Object_0.contains_key(k) <==> a->Object_0.contains_key(k)
                || b->Object_0.contains_key(k),
        forall|k: Seq<char>|
            a->Object_0.contains_key(k) && !b->Object_0.contains_key(k) ==> #[trigger] merge(
                a,
                b,
            )->Object_0[k] == a->Object_0[k],
{
    lemma_merge_covers(a, b);
}

/// Merging a value onto itself gives it back.
pub proof fn lemma_merge_idempotent(a: JsonModel)
    ensures
        merge(a, a) == a,
    decreases a,
{
    if let JsonModel::Object(m) = a {
        assert forall|k: Seq<char>| #![trigger m[k]] m.contains_key(k) implies merge(m[k], m[k])
            == m[k] by {
            lemma_merge_idempotent(m[k]);
        }
        assert(merge(a, a)->Object_0 =~= m);
    }
}

/// Removing an object's own keys from it leaves nothing.
pub proof fn lemma_subtract_self(x: JsonModel)
    requires
        x is Object,
    ensures
        is_empty_object(subtract(x, x)),
    decreases x,
{
    let m = x->Object_0;
    let r = subtract(x, x)->Object_0;
    assert forall|k: Seq<char>| !r.contains_key(k) by {
        if m.contains_key(k) && m[k] is Object {
            lemma_subtract_self(m[k]);
        }
    }
    assert(r.dom() =~= Set::<Seq<char>>::empty());
}

/// Taking an overlay back out of what it was merged into: keys the overlay does
/// not have are as in the base; keys where the overlay holds a leaf are gone;
/// keys where it holds an object are gone once nothing else is left under them,
/// and otherwise keep what the base had beside the overlay's keys.
pub proof fn lemma_subtract_undoes_merge(a: JsonModel, b: JsonModel)
    requires
        a is Object,
        b is Object,
    ensures
        subtract(merge(a, b), b) is Object,
        ({
            let r = subtract(merge(a, b), b)->Object_0;
            let am = a->Object_0;
            let bm = b->Object_0;
            &&& forall|k: Seq<char>|
                !bm.contains_key(k) ==> (#[trigger] r.contains_key(k) == am.contains_key(k) && (
                am.contains_key(k) ==> r[k] == am[k]))
            &&& forall|k: Seq<char>|
                bm.contains_key(k) && !(bm[k] is Object) ==> !#[trigger] r.contains_key(k)
            &&& forall|k: Seq<char>|
                bm.contains_key(k) && bm[k] is Object && !(am.contains_key(k) && am[k] is Object)
                    ==> !#[trigger] r.contains_key(k)
            &&& forall|k: Seq<char>|
                bm.contains_key(k) && bm[k] is Object && am.contains_key(k) && am[k] is Object ==> {
                    &&& #[trigger] r.contains_key(k) <==> !is_empty_object(
                        subtract(merge(am[k], bm[k]), bm[k]),
                    )
                    &&& r.contains_key(k) ==> r[k] == subtract(merge(am[k], bm[k]), bm[k])
                }
        }),
{
    let bm = b->Object_0;
    let am = a->Object_0;
    let r = subtract(merge(a, b), b)->Object_0;
    assert forall|k: Seq<char>|
        bm.contains_key(k) && bm[k] is Object && !(am.contains_key(k) && am[k] is Object)
            implies !#[trigger] r.contains_key(k) by {
        let mm = merge(a, b)->Object_0;
        assert(mm.contains_key(k));
        if am.contains_key(k) {
            assert(merge(am[k], bm[k]) == bm[k]);
        }
        assert(mm[k] == bm[k]);
        lemma_subtract_self(bm[k]);
        assert(is_empty_object(subtract(mm[k], bm[k])));
    }
}

/// Where base and overlay share no key, taking the overlay back out of the merge
/// gives the base exactly.
pub proof fn lemma_subtract_merge_disjoint(a: JsonModel, b: JsonModel)
    requires
        a is Object,
        b is Object,
        forall|k: Seq<char>| #[trigger] a->Object_0.contains_key(k) ==> !b->Object_0.contains_key(k),
    ensures
        subtract(merge(a, b), b) == a,
{
    lemma_subtract_undoes_merge(a, b);
    let r = subtract(merge(a, b), b)->Object_0;
    assert(r =~= a->Object_0);
}

} // verus!
