//! The value model: a tagged union of null, boolean, number, string,
//! ordered list and ordered-key record, together with its mathematical
//! model and the helpers the inference contracts are stated over.

use vstd::prelude::*;

verus! {

/// An observed input value.  The inference never reads the magnitude of a
/// number, so `Number` carries no payload.
#[derive(Debug)]
pub enum Json {
    Null,
    Bool(bool),
    Number,
    Str(String),
    Array(Vec<Json>),
    Object(Vec<(String, Json)>),
}

/// The mathematical model of a `Json` value.
#[verifier::ext_equal]
pub enum Jv {
    Null,
    Bool(bool),
    Number,
    Str(Seq<char>),
    Array(Seq<Jv>),
    Object(Seq<(Seq<char>, Jv)>),
}

impl Json {
    /// The model of this value.
    pub open spec fn jv(self) -> Jv
        decreases self,
    {
        match self {
            Json::Null => Jv::Null,
            Json::Bool(b) => Jv::Bool(b),
            Json::Number => Jv::Number,
            Json::Str(s) => Jv::Str(s@),
            Json::Array(elems) => Jv::Array(Json::jv_list(elems@)),
            Json::Object(entries) => Jv::Object(Json::jv_entries(entries@)),
        }
    }

    /// The models of a sequence of values.
    pub open spec fn jv_list(elems: Seq<Json>) -> Seq<Jv>
        decreases elems,
    {
        if elems.len() == 0 {
            Seq::empty()
        } else {
            seq![elems[0].jv()] + Json::jv_list(elems.drop_first())
        }
    }

    /// The models of a sequence of record entries.
    pub open spec fn jv_entries(entries: Seq<(String, Json)>) -> Seq<(Seq<char>, Jv)>
        decreases entries,
    {
        if entries.len() == 0 {
            Seq::empty()
        } else {
            seq![(entries[0].0@, entries[0].1.jv())] + Json::jv_entries(entries.drop_first())
        }
    }
}

/// The model of a value list, entry by entry.
pub proof fn lemma_jv_list(elems: Seq<Json>)
    ensures
        Json::jv_list(elems).len() == elems.len(),
        forall|i: int| 0 <= i < elems.len() ==> Json::jv_list(elems)[i] == elems[i].jv(),
    decreases elems.len(),
{
    if elems.len() > 0 {
        lemma_jv_list(elems.drop_first());
        assert forall|i: int| 0 <= i < elems.len() implies Json::jv_list(elems)[i]
            == elems[i].jv() by {
            if i > 0 {
                assert(elems.drop_first()[i - 1] == elems[i]);
            }
        }
    }
}

/// The model of an entry list, entry by entry.
pub proof fn lemma_jv_entries(entries: Seq<(String, Json)>)
    ensures
        Json::jv_entries(entries).len() == entries.len(),
        forall|i: int| 0 <= i < entries.len() ==> Json::jv_entries(entries)[i] == (
            entries[i].0@,
            entries[i].1.jv(),
        ),
    decreases entries.len(),
{
    if entries.len() > 0 {
        lemma_jv_entries(entries.drop_first());
        assert forall|i: int| 0 <= i < entries.len() implies Json::jv_entries(entries)[i] == (
            entries[i].0@,
            entries[i].1.jv(),
        ) by {
            if i > 0 {
                assert(entries.drop_first()[i - 1] == entries[i]);
            }
        }
    }
}

/// Whether a keyed entry sequence holds the key `k`.
pub open spec fn map_has<T>(entries: Seq<(Seq<char>, T)>, k: Seq<char>) -> bool {
    exists|i: int| 0 <= i < entries.len() && entries[i].0 == k
}

/// The value of the first entry keyed `k`.
pub open spec fn map_get<T>(entries: Seq<(Seq<char>, T)>, k: Seq<char>) -> T
    recommends
        map_has(entries, k),
    decreases entries.len(),
{
    if entries.len() == 0 {
        vstd::pervasive::arbitrary()
    } else if entries[0].0 == k {
        entries[0].1
    } else {
        map_get(entries.drop_first(), k)
    }
}

/// The set of keys of a keyed entry sequence.
pub open spec fn map_key_set<T>(entries: Seq<(Seq<char>, T)>) -> Set<Seq<char>> {
    Set::new(|k: Seq<char>| map_has(entries, k))
}

/// The entry sequence with every entry keyed `k` removed.
pub open spec fn remove_key<T>(entries: Seq<(Seq<char>, T)>, k: Seq<char>) -> Seq<(Seq<char>, T)>
    decreases entries.len(),
{
    if entries.len() == 0 {
        Seq::empty()
    } else if entries[0].0 == k {
        remove_key(entries.drop_first(), k)
    } else {
        seq![entries[0]] + remove_key(entries.drop_first(), k)
    }
}

/// The entry sequence with the first entry keyed `k` replaced by `x`,
/// or with `(k, x)` appended when no entry has that key.
pub open spec fn map_put<T>(entries: Seq<(Seq<char>, T)>, k: Seq<char>, x: T) -> Seq<
    (Seq<char>, T),
>
    decreases entries.len(),
{
    if entries.len() == 0 {
        seq![(k, x)]
    } else if entries[0].0 == k {
        seq![(entries[0].0, x)] + entries.drop_first()
    } else {
        seq![entries[0]] + map_put(entries.drop_first(), k, x)
    }
}

/// A key occurs in a non-empty entry sequence exactly when the first
/// entry has it or the rest do.
pub proof fn lemma_map_has_unfold<T>(entries: Seq<(Seq<char>, T)>, x: Seq<char>)
    requires
        entries.len() > 0,
    ensures
        map_has(entries, x) == (entries[0].0 == x || map_has(entries.drop_first(), x)),
{
    if map_has(entries.drop_first(), x) {
        let j = choose|j: int|
            0 <= j < entries.drop_first().len() && entries.drop_first()[j].0 == x;
        assert(entries[j + 1] == entries.drop_first()[j]);
    }
    if map_has(entries, x) {
        let j = choose|j: int| 0 <= j < entries.len() && entries[j].0 == x;
        if j > 0 {
            assert(entries.drop_first()[j - 1] == entries[j]);
        }
    }
}

/// A singleton entry sequence holds exactly its one key.
pub proof fn lemma_map_has_single<T>(e: (Seq<char>, T), x: Seq<char>)
    ensures
        map_has(seq![e], x) == (e.0 == x),
{
    assert(seq![e][0] == e);
}

/// A keyed update keeps every existing key and adds the updated one.
pub proof fn lemma_map_put_keys<T>(entries: Seq<(Seq<char>, T)>, k: Seq<char>, x: T, y: Seq<char>)
    ensures
        map_has(map_put(entries, k, x), y) == (map_has(entries, y) || y == k),
    decreases entries.len(),
{
    if entries.len() == 0 {
        assert(map_put(entries, k, x)[0] == (k, x));
        if map_has(map_put(entries, k, x), y) {
            let j = choose|j: int|
                0 <= j < map_put(entries, k, x).len() && map_put(entries, k, x)[j].0 == y;
            assert(j == 0);
        }
    } else if entries[0].0 == k {
        let r = map_put(entries, k, x);
        assert(r[0] == (entries[0].0, x));
        lemma_map_has_unfold(entries, y);
        lemma_map_has_unfold(r, y);
        assert(r.drop_first() =~= entries.drop_first());
    } else {
        lemma_map_put_keys(entries.drop_first(), k, x, y);
        let r = map_put(entries, k, x);
        assert(r[0] == entries[0]);
        lemma_map_has_unfold(entries, y);
        lemma_map_has_unfold(r, y);
        assert(r.drop_first() =~= map_put(entries.drop_first(), k, x));
    }
}

/// The size of a value: every node and record entry counts one.  It is the
/// termination measure of the merge.
pub open spec fn jsize(v: Jv) -> nat
    decreases v,
{
    match v {
        Jv::Array(elems) => 1 + list_size(elems),
        Jv::Object(entries) => 1 + obj_size(entries),
        _ => 1,
    }
}

/// The summed size of a sequence of values.
pub open spec fn list_size(elems: Seq<Jv>) -> nat
    decreases elems,
{
    if elems.len() == 0 {
        0
    } else {
        jsize(elems[0]) + list_size(elems.drop_first())
    }
}

/// The summed size of a sequence of record entries.
pub open spec fn obj_size(entries: Seq<(Seq<char>, Jv)>) -> nat
    decreases entries,
{
    if entries.len() == 0 {
        0
    } else {
        1 + jsize(entries[0].1) + obj_size(entries.drop_first())
    }
}

/// An element counts no more than the whole list.
pub proof fn lemma_list_elem_size(elems: Seq<Jv>, i: int)
    requires
        0 <= i < elems.len(),
    ensures
        jsize(elems[i]) <= list_size(elems),
    decreases elems.len(),
{
    if i > 0 {
        lemma_list_elem_size(elems.drop_first(), i - 1);
        assert(elems.drop_first()[i - 1] == elems[i]);
    }
}

/// An entry's value counts strictly less than the whole record.
pub proof fn lemma_obj_val_size(entries: Seq<(Seq<char>, Jv)>, i: int)
    requires
        0 <= i < entries.len(),
    ensures
        jsize(entries[i].1) < obj_size(entries),
    decreases entries.len(),
{
    if i > 0 {
        lemma_obj_val_size(entries.drop_first(), i - 1);
        assert(entries.drop_first()[i - 1] == entries[i]);
    }
}

/// The value found under a key counts strictly less than the whole record.
pub proof fn lemma_get_val_size(entries: Seq<(Seq<char>, Jv)>, k: Seq<char>)
    requires
        map_has(entries, k),
    ensures
        jsize(map_get(entries, k)) < obj_size(entries),
    decreases entries.len(),
{
    if entries[0].0 != k {
        let j = choose|j: int| 0 <= j < entries.len() && entries[j].0 == k;
        assert(entries.drop_first()[j - 1] == entries[j]);
        lemma_get_val_size(entries.drop_first(), k);
    }
}

/// Prepending an entry adds its weight to the size of a record.
pub proof fn lemma_obj_size_cons(e: (Seq<char>, Jv), entries: Seq<(Seq<char>, Jv)>)
    ensures
        obj_size(seq![e] + entries) == 1 + jsize(e.1) + obj_size(entries),
{
    assert((seq![e] + entries).drop_first() =~= entries);
}

/// Removing a key never grows a record, and removes at least the weight
/// of the entry found under the key.
pub proof fn lemma_remove_key_size(entries: Seq<(Seq<char>, Jv)>, k: Seq<char>)
    ensures
        obj_size(remove_key(entries, k)) <= obj_size(entries),
        map_has(entries, k) ==> obj_size(remove_key(entries, k)) + 1 + jsize(
            map_get(entries, k),
        ) <= obj_size(entries),
    decreases entries.len(),
{
    if entries.len() > 0 {
        lemma_remove_key_size(entries.drop_first(), k);
        if entries[0].0 == k {
        } else {
            lemma_obj_size_cons(entries[0], remove_key(entries.drop_first(), k));
            if map_has(entries, k) {
                let j = choose|j: int| 0 <= j < entries.len() && entries[j].0 == k;
                assert(entries.drop_first()[j - 1] == entries[j]);
            }
        }
    }
}

} // verus!
