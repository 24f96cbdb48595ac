//! The inference lattice: the shape type and its merge operation.
//!
//! A shape describes every value observed so far at one structural path.
//! Merging a new value moves the shape upward in the lattice, from
//! `Unknown` at the bottom towards `Any` at the top, and never back down.

use vstd::prelude::*;
use crate::hints::{
    child_hint, hint_child, hint_tag, hint_values, lemma_map_get_at, lemma_map_put_absent,
    lemma_map_put_at, opt_hv, Hv, InferHints,
};
use crate::rfc3339::is_rfc3339;
use crate::value::{
    jsize, list_size, map_get, map_has, map_key_set, map_put, obj_size, remove_key, Json, Jv,
    lemma_get_val_size, lemma_jv_entries, lemma_jv_list, lemma_remove_key_size,
};

verus! {

/// An inferred shape: the most general structural description consistent
/// with every value observed so far at one path.
#[derive(Debug)]
pub enum InferredSchema {
    /// No example has been seen yet.
    Unknown,
    /// Generalization has reached the top of the lattice.
    Any,
    /// Every value seen was a boolean.
    Bool,
    /// Every value seen was a number.
    Number,
    /// Every value seen was a string that parses as a timestamp.
    Timestamp,
    /// Every value seen was a string.
    Str,
    /// Every value seen was a list; the nested shape pools all elements.
    Array(Box<InferredSchema>),
    /// Every value seen was a record; keys seen in every record so far are
    /// required, the others optional, and the two lists share no key.
    Properties(Vec<(String, InferredSchema)>, Vec<(String, InferredSchema)>),
    /// A record treated as a homogeneous map; the nested shape pools all
    /// entry values.  Only reachable through a hint.
    Values(Box<InferredSchema>),
    /// A record treated as a tagged union keyed by the named field.  Only
    /// reachable through a hint.
    Discriminator(String, Vec<(String, InferredSchema)>),
}

/// The mathematical model of a shape.
#[verifier::ext_equal]
pub enum Sv {
    Unknown,
    Any,
    Bool,
    Number,
    Timestamp,
    Str,
    Array(Box<Sv>),
    Properties(Seq<(Seq<char>, Sv)>, Seq<(Seq<char>, Sv)>),
    Values(Box<Sv>),
    Discriminator(Seq<char>, Seq<(Seq<char>, Sv)>),
}

impl InferredSchema {
    /// The model of this shape.
    pub open spec fn sv(self) -> Sv
        decreases self,
    {
        match self {
            InferredSchema::Unknown => Sv::Unknown,
            InferredSchema::Any => Sv::Any,
            InferredSchema::Bool => Sv::Bool,
            InferredSchema::Number => Sv::Number,
            InferredSchema::Timestamp => Sv::Timestamp,
            InferredSchema::Str => Sv::Str,
            InferredSchema::Array(sub) => Sv::Array(Box::new(sub.sv())),
            InferredSchema::Properties(req, opt) => Sv::Properties(
                InferredSchema::sv_entries(req@),
                InferredSchema::sv_entries(opt@),
            ),
            InferredSchema::Values(sub) => Sv::Values(Box::new(sub.sv())),
            InferredSchema::Discriminator(tag, mapping) => Sv::Discriminator(
                tag@,
                InferredSchema::sv_entries(mapping@),
            ),
        }
    }

    /// The models of a sequence of keyed shape entries.
    pub open spec fn sv_entries(entries: Seq<(String, InferredSchema)>) -> Seq<(Seq<char>, Sv)>
        decreases entries,
    {
        if entries.len() == 0 {
            Seq::empty()
        } else {
            seq![(entries[0].0@, entries[0].1.sv())] + InferredSchema::sv_entries(
                entries.drop_first(),
            )
        }
    }
}

/// The pointwise model of a keyed shape entry list.
pub proof fn lemma_sv_entries(entries: Seq<(String, InferredSchema)>)
    ensures
        InferredSchema::sv_entries(entries).len() == entries.len(),
        forall|i: int| 0 <= i < entries.len() ==> InferredSchema::sv_entries(entries)[i] == (
            entries[i].0@,
            entries[i].1.sv(),
        ),
    decreases entries.len(),
{
    if entries.len() > 0 {
        lemma_sv_entries(entries.drop_first());
        assert forall|i: int| 0 <= i < entries.len() implies InferredSchema::sv_entries(entries)[i]
            == (entries[i].0@, entries[i].1.sv()) by {
            if i > 0 {
                assert(entries.drop_first()[i - 1] == entries[i]);
            }
        }
    }
}

/// The path segment that addresses every element of a list.
pub open spec fn wildcard() -> Seq<char> {
    seq!['-']
}

/// Every value's size is at least one.
pub proof fn lemma_jsize_pos(v: Jv)
    ensures
        jsize(v) >= 1,
{
}

/// The merge operation: the shape that describes everything `prior`
/// described and the value `v` as well, consulting the hint node `h` for
/// this path.  This is the single dispatch point of the inference lattice.
pub open spec fn spec_merge(prior: Sv, v: Jv, h: Option<Hv>) -> Sv
    decreases jsize(v), 0int,
{
    match (prior, v) {
        (Sv::Unknown, Jv::Null) => Sv::Any,
        (Sv::Unknown, Jv::Bool(_)) => Sv::Bool,
        (Sv::Unknown, Jv::Number) => Sv::Number,
        (Sv::Unknown, Jv::Str(s)) => if is_rfc3339(s) {
            Sv::Timestamp
        } else {
            Sv::Str
        },
        (Sv::Unknown, Jv::Array(elems)) => Sv::Array(
            Box::new(merge_elems(Sv::Unknown, elems, hint_child(h, wildcard()))),
        ),
        (Sv::Unknown, Jv::Object(entries)) => {
            if hint_values(h) {
                Sv::Values(Box::new(merge_vals(Sv::Unknown, entries, h)))
            } else {
                match hint_tag(h) {
                    Option::Some(t) => {
                        if map_has(entries, t) {
                            match map_get(entries, t) {
                                Jv::Str(tv) => {
                                    proof {
                                        lemma_remove_key_size(entries, t);
                                    }
                                    Sv::Discriminator(
                                        t,
                                        seq![
                                            (
                                                tv,
                                                spec_merge(
                                                    Sv::Unknown,
                                                    Jv::Object(remove_key(entries, t)),
                                                    h,
                                                ),
                                            ),
                                        ],
                                    )
                                },
                                _ => props_new(entries, h),
                            }
                        } else {
                            props_new(entries, h)
                        }
                    },
                    Option::None => props_new(entries, h),
                }
            }
        },
        (Sv::Any, _) => Sv::Any,
        (Sv::Bool, Jv::Bool(_)) => Sv::Bool,
        (Sv::Bool, _) => Sv::Any,
        (Sv::Number, Jv::Number) => Sv::Number,
        (Sv::Number, _) => Sv::Any,
        (Sv::Timestamp, Jv::Str(s)) => if is_rfc3339(s) {
            Sv::Timestamp
        } else {
            Sv::Str
        },
        (Sv::Timestamp, _) => Sv::Any,
        (Sv::Str, Jv::Str(_)) => Sv::Str,
        (Sv::Str, _) => Sv::Any,
        (Sv::Array(sub), Jv::Array(elems)) => Sv::Array(
            Box::new(merge_elems(*sub, elems, hint_child(h, wildcard()))),
        ),
        (Sv::Array(_), _) => Sv::Any,
        (Sv::Properties(req, opt), Jv::Object(entries)) => Sv::Properties(
            merge_kept(req, entries, h),
            demote_missing(req, entries) + merge_opt(opt, entries, h) + fresh_entries(
                entries,
                map_key_set(req).union(map_key_set(opt)),
                h,
            ),
        ),
        (Sv::Properties(_, _), _) => Sv::Any,
        (Sv::Values(sub), Jv::Object(entries)) => Sv::Values(
            Box::new(merge_vals(*sub, entries, h)),
        ),
        (Sv::Values(_), _) => Sv::Any,
        (Sv::Discriminator(tag, mapping), Jv::Object(entries)) => {
            if map_has(entries, tag) {
                match map_get(entries, tag) {
                    Jv::Str(tv) => {
                        let prior_sub = if map_has(mapping, tv) {
                            map_get(mapping, tv)
                        } else {
                            Sv::Unknown
                        };
                        proof {
                            lemma_remove_key_size(entries, tag);
                        }
                        Sv::Discriminator(
                            tag,
                            map_put(
                                mapping,
                                tv,
                                spec_merge(prior_sub, Jv::Object(remove_key(entries, tag)), h),
                            ),
                        )
                    },
                    _ => Sv::Any,
                }
            } else {
                Sv::Any
            }
        },
        (Sv::Discriminator(_, _), _) => Sv::Any,
    }
}

/// Folds the merge over the elements of a list, pooling them into one
/// nested shape; every element sees the same hint node.
pub open spec fn merge_elems(prior: Sv, elems: Seq<Jv>, hc: Option<Hv>) -> Sv
    decreases list_size(elems), 1int,
{
    if elems.len() == 0 {
        prior
    } else {
        proof {
            lemma_jsize_pos(elems[0]);
        }
        merge_elems(spec_merge(prior, elems[0], hc), elems.drop_first(), hc)
    }
}

/// Folds the merge over the entry values of a record, pooling them into
/// one nested shape; keys only select the hint child.
pub open spec fn merge_vals(prior: Sv, entries: Seq<(Seq<char>, Jv)>, h: Option<Hv>) -> Sv
    decreases obj_size(entries), 1int,
{
    if entries.len() == 0 {
        prior
    } else {
        merge_vals(
            spec_merge(prior, entries[0].1, hint_child(h, entries[0].0)),
            entries.drop_first(),
            h,
        )
    }
}

/// The required entries that stay required: those whose key occurs in the
/// observed record, each merged with the observed value.
pub open spec fn merge_kept(
    req: Seq<(Seq<char>, Sv)>,
    entries: Seq<(Seq<char>, Jv)>,
    h: Option<Hv>,
) -> Seq<(Seq<char>, Sv)>
    decreases obj_size(entries), 1 + req.len(),
{
    if req.len() == 0 {
        Seq::empty()
    } else if map_has(entries, req[0].0) {
        proof {
            lemma_get_val_size(entries, req[0].0);
        }
        seq![
            (req[0].0, spec_merge(req[0].1, map_get(entries, req[0].0), hint_child(h, req[0].0))),
        ] + merge_kept(req.drop_first(), entries, h)
    } else {
        merge_kept(req.drop_first(), entries, h)
    }
}

/// The required entries whose key is missing from the observed record;
/// they are demoted to optional, unchanged.
pub open spec fn demote_missing(
    req: Seq<(Seq<char>, Sv)>,
    entries: Seq<(Seq<char>, Jv)>,
) -> Seq<(Seq<char>, Sv)>
    decreases req.len(),
{
    if req.len() == 0 {
        Seq::empty()
    } else if map_has(entries, req[0].0) {
        demote_missing(req.drop_first(), entries)
    } else {
        seq![req[0]] + demote_missing(req.drop_first(), entries)
    }
}

/// The optional entries after an observed record: those whose key occurs
/// are merged with the observed value, the others stay unchanged.
pub open spec fn merge_opt(
    opt: Seq<(Seq<char>, Sv)>,
    entries: Seq<(Seq<char>, Jv)>,
    h: Option<Hv>,
) -> Seq<(Seq<char>, Sv)>
    decreases obj_size(entries), 1 + opt.len(),
{
    if opt.len() == 0 {
        Seq::empty()
    } else if map_has(entries, opt[0].0) {
        proof {
            lemma_get_val_size(entries, opt[0].0);
        }
        seq![
            (opt[0].0, spec_merge(opt[0].1, map_get(entries, opt[0].0), hint_child(h, opt[0].0))),
        ] + merge_opt(opt.drop_first(), entries, h)
    } else {
        seq![opt[0]] + merge_opt(opt.drop_first(), entries, h)
    }
}

/// The observed entries whose key is new: each is inferred fresh from
/// `Unknown`; a key already known, or seen earlier in the same record, is
/// skipped.
pub open spec fn fresh_entries(
    entries: Seq<(Seq<char>, Jv)>,
    known: Set<Seq<char>>,
    h: Option<Hv>,
) -> Seq<(Seq<char>, Sv)>
    decreases obj_size(entries), 1int,
{
    if entries.len() == 0 {
        Seq::empty()
    } else if known.contains(entries[0].0) {
        fresh_entries(entries.drop_first(), known, h)
    } else {
        seq![
            (entries[0].0, spec_merge(Sv::Unknown, entries[0].1, hint_child(h, entries[0].0))),
        ] + fresh_entries(entries.drop_first(), known.insert(entries[0].0), h)
    }
}

/// A record first seen without an applicable hint: every observed key
/// becomes a required property, and nothing is optional yet.
pub open spec fn props_new(entries: Seq<(Seq<char>, Jv)>, h: Option<Hv>) -> Sv
    decreases obj_size(entries), 2int,
{
    Sv::Properties(fresh_entries(entries, Set::empty(), h), Seq::empty())
}

/// Finds the first record entry keyed `k`.
fn find_entry(entries: &Vec<(String, Json)>, k: &String) -> (r: Option<usize>)
    ensures
        match r {
            Option::Some(i) => i < entries@.len() && Json::jv_entries(entries@)[i as int].0 == k@
                && (forall|j: int| 0 <= j < i ==> Json::jv_entries(entries@)[j].0 != k@)
                && map_has(Json::jv_entries(entries@), k@),
            Option::None => !map_has(Json::jv_entries(entries@), k@),
        },
{
    proof {
        lemma_jv_entries(entries@);
    }
    let n = entries.len();
    let mut i: usize = 0;
    while i < n
        invariant
            n == entries@.len(),
            i <= n,
            Json::jv_entries(entries@).len() == n,
            forall|j: int| 0 <= j < n ==> Json::jv_entries(entries@)[j] == (
                entries@[j].0@,
                entries@[j].1.jv(),
            ),
            forall|j: int| 0 <= j < i ==> Json::jv_entries(entries@)[j].0 != k@,
        decreases n - i,
    {
        let e = &entries[i];
        if e.0 == *k {
            return Option::Some(i);
        }
        i = i + 1;
    }
    Option::None
}

/// Finds the first shape entry keyed `k`.
fn find_shape(entries: &Vec<(String, InferredSchema)>, k: &String) -> (r: Option<usize>)
    ensures
        match r {
            Option::Some(i) => i < entries@.len() && InferredSchema::sv_entries(entries@)[
                i as int
            ].0 == k@ && (forall|j: int|
                0 <= j < i ==> InferredSchema::sv_entries(entries@)[j].0 != k@) && map_has(
                InferredSchema::sv_entries(entries@),
                k@,
            ),
            Option::None => !map_has(InferredSchema::sv_entries(entries@), k@),
        },
{
    proof {
        lemma_sv_entries(entries@);
    }
    let n = entries.len();
    let mut i: usize = 0;
    while i < n
        invariant
            n == entries@.len(),
            i <= n,
            InferredSchema::sv_entries(entries@).len() == n,
            forall|j: int| 0 <= j < n ==> InferredSchema::sv_entries(entries@)[j] == (
                entries@[j].0@,
                entries@[j].1.sv(),
            ),
            forall|j: int| 0 <= j < i ==> InferredSchema::sv_entries(entries@)[j].0 != k@,
        decreases n - i,
    {
        let e = &entries[i];
        if e.0 == *k {
            return Option::Some(i);
        }
        i = i + 1;
    }
    Option::None
}

/// Whether a shape entry list holds the key `k`.
fn contains_shape_key(entries: &Vec<(String, InferredSchema)>, k: &String) -> (r: bool)
    ensures
        r == map_has(InferredSchema::sv_entries(entries@), k@),
{
    match find_shape(entries, k) {
        Option::Some(_) => true,
        Option::None => false,
    }
}

/// Copies a value; the copy has the same model.
fn clone_json(v: &Json) -> (r: Json)
    ensures
        r.jv() == v.jv(),
    decreases jsize(v.jv()), 0int,
{
    match v {
        Json::Null => Json::Null,
        Json::Bool(b) => Json::Bool(*b),
        Json::Number => Json::Number,
        Json::Str(s) => Json::Str(s.clone()),
        Json::Array(elems) => Json::Array(clone_list(elems)),
        Json::Object(entries) => Json::Object(clone_entries(entries)),
    }
}

/// Copies a value list; the copy has the same model.
fn clone_list(elems: &Vec<Json>) -> (r: Vec<Json>)
    ensures
        Json::jv_list(r@) == Json::jv_list(elems@),
    decreases list_size(Json::jv_list(elems@)), 1int,
{
    let mut out: Vec<Json> = Vec::new();
    let n = elems.len();
    let mut i: usize = 0;
    while i < n
        invariant
            n == elems@.len(),
            i <= n,
            out@.len() == i,
            forall|j: int| 0 <= j < i ==> out@[j].jv() == elems@[j].jv(),
        decreases n - i,
    {
        proof {
            lemma_jv_list(elems@);
            crate::value::lemma_list_elem_size(Json::jv_list(elems@), i as int);
        }
        let c = clone_json(&elems[i]);
        out.push(c);
        i = i + 1;
    }
    proof {
        lemma_jv_list(elems@);
        lemma_jv_list(out@);
        assert(Json::jv_list(out@) =~= Json::jv_list(elems@));
    }
    out
}

/// Copies a record entry list; the copy has the same model.
fn clone_entries(entries: &Vec<(String, Json)>) -> (r: Vec<(String, Json)>)
    ensures
        Json::jv_entries(r@) == Json::jv_entries(entries@),
    decreases obj_size(Json::jv_entries(entries@)), 1int,
{
    let mut out: Vec<(String, Json)> = Vec::new();
    let n = entries.len();
    let mut i: usize = 0;
    while i < n
        invariant
            n == entries@.len(),
            i <= n,
            out@.len() == i,
            forall|j: int| 0 <= j < i ==> out@[j].0@ == entries@[j].0@ && out@[j].1.jv()
                == entries@[j].1.jv(),
        decreases n - i,
    {
        proof {
            lemma_jv_entries(entries@);
            crate::value::lemma_obj_val_size(Json::jv_entries(entries@), i as int);
        }
        let e = &entries[i];
        let c = clone_json(&e.1);
        out.push((e.0.clone(), c));
        i = i + 1;
    }
    proof {
        lemma_jv_entries(entries@);
        lemma_jv_entries(out@);
        assert(Json::jv_entries(out@) =~= Json::jv_entries(entries@));
    }
    out
}

/// Copies a record entry list, leaving out every entry keyed `k`; the
/// copy's model is the keyed removal.
fn clone_entries_except(entries: &Vec<(String, Json)>, k: &String) -> (r: Vec<(String, Json)>)
    ensures
        Json::jv_entries(r@) == remove_key(Json::jv_entries(entries@), k@),
    decreases obj_size(Json::jv_entries(entries@)), 1int,
{
    let ghost ev = Json::jv_entries(entries@);
    let mut out: Vec<(String, Json)> = Vec::new();
    let n = entries.len();
    proof {
        lemma_jv_entries(entries@);
        assert(ev.skip(0) =~= ev);
        assert(Json::jv_entries(out@) + remove_key(ev.skip(0), k@) =~= remove_key(ev, k@));
    }
    let mut i: usize = 0;
    while i < n
        invariant
            n == entries@.len(),
            ev == Json::jv_entries(entries@),
            ev.len() == n,
            forall|j: int| 0 <= j < n ==> ev[j] == (entries@[j].0@, entries@[j].1.jv()),
            i <= n,
            Json::jv_entries(out@) + remove_key(ev.skip(i as int), k@) == remove_key(ev, k@),
        decreases n - i,
    {
        proof {
            lemma_jv_entries(entries@);
            crate::value::lemma_obj_val_size(ev, i as int);
            assert(ev.skip(i as int)[0] == ev[i as int]);
            assert(ev.skip(i as int).drop_first() =~= ev.skip(i as int + 1));
        }
        let e = &entries[i];
        if e.0 == *k {
            proof {
                assert(remove_key(ev.skip(i as int), k@) == remove_key(
                    ev.skip(i as int + 1),
                    k@,
                ));
            }
        } else {
            let ghost out0 = out@;
            let c = clone_json(&e.1);
            out.push((e.0.clone(), c));
            proof {
                lemma_jv_entries(out0);
                lemma_jv_entries(out@);
                assert(Json::jv_entries(out@) =~= Json::jv_entries(out0) + seq![ev[i as int]]);
                assert((Json::jv_entries(out0) + seq![ev[i as int]]) + remove_key(
                    ev.skip(i as int + 1),
                    k@,
                ) =~= Json::jv_entries(out0) + (seq![ev[i as int]] + remove_key(
                    ev.skip(i as int + 1),
                    k@,
                )));
            }
        }
        i = i + 1;
    }
    proof {
        assert(ev.skip(n as int) =~= Seq::empty());
        assert(Json::jv_entries(out@) + remove_key(ev.skip(n as int), k@) =~= Json::jv_entries(
            out@,
        ));
    }
    out
}

/// A key occurs in a concatenation exactly when it occurs in one part.
pub proof fn lemma_map_has_concat<T>(a: Seq<(Seq<char>, T)>, b: Seq<(Seq<char>, T)>, x: Seq<char>)
    ensures
        map_has(a + b, x) == (map_has(a, x) || map_has(b, x)),
{
    if map_has(a, x) {
        let i = choose|i: int| 0 <= i < a.len() && a[i].0 == x;
        assert((a + b)[i] == a[i]);
    }
    if map_has(b, x) {
        let i = choose|i: int| 0 <= i < b.len() && b[i].0 == x;
        assert((a + b)[a.len() + i] == b[i]);
    }
    if map_has(a + b, x) {
        let i = choose|i: int| 0 <= i < (a + b).len() && (a + b)[i].0 == x;
        if i < a.len() {
            assert(a[i] == (a + b)[i]);
        } else {
            assert(b[i - a.len()] == (a + b)[i]);
        }
    }
}

/// The kept required entries carry exactly the required keys that occur in
/// the observed record.
pub proof fn lemma_merge_kept_keys(
    req: Seq<(Seq<char>, Sv)>,
    entries: Seq<(Seq<char>, Jv)>,
    h: Option<Hv>,
    x: Seq<char>,
)
    ensures
        map_has(merge_kept(req, entries, h), x) == (map_has(req, x) && map_has(entries, x)),
    decreases req.len(),
{
    if req.len() > 0 {
        lemma_merge_kept_keys(req.drop_first(), entries, h, x);
        crate::value::lemma_map_has_unfold(req, x);
        if map_has(entries, req[0].0) {
            let head = (
                req[0].0,
                spec_merge(req[0].1, map_get(entries, req[0].0), hint_child(h, req[0].0)),
            );
            lemma_map_has_concat(seq![head], merge_kept(req.drop_first(), entries, h), x);
            crate::value::lemma_map_has_single(head, x);
        }
    }
}

/// The demoted entries carry exactly the required keys missing from the
/// observed record.
pub proof fn lemma_demote_keys(
    req: Seq<(Seq<char>, Sv)>,
    entries: Seq<(Seq<char>, Jv)>,
    x: Seq<char>,
)
    ensures
        map_has(demote_missing(req, entries), x) == (map_has(req, x) && !map_has(entries, x)),
    decreases req.len(),
{
    if req.len() > 0 {
        lemma_demote_keys(req.drop_first(), entries, x);
        crate::value::lemma_map_has_unfold(req, x);
        if !map_has(entries, req[0].0) {
            lemma_map_has_concat(seq![req[0]], demote_missing(req.drop_first(), entries), x);
            crate::value::lemma_map_has_single(req[0], x);
        }
    }
}

/// Merging a record into the optional entries keeps their keys unchanged.
pub proof fn lemma_merge_opt_keys(
    opt: Seq<(Seq<char>, Sv)>,
    entries: Seq<(Seq<char>, Jv)>,
    h: Option<Hv>,
    x: Seq<char>,
)
    ensures
        map_has(merge_opt(opt, entries, h), x) == map_has(opt, x),
    decreases opt.len(),
{
    if opt.len() > 0 {
        lemma_merge_opt_keys(opt.drop_first(), entries, h, x);
        crate::value::lemma_map_has_unfold(opt, x);
        if map_has(entries, opt[0].0) {
            let head = (
                opt[0].0,
                spec_merge(opt[0].1, map_get(entries, opt[0].0), hint_child(h, opt[0].0)),
            );
            lemma_map_has_concat(seq![head], merge_opt(opt.drop_first(), entries, h), x);
            crate::value::lemma_map_has_single(head, x);
        } else {
            lemma_map_has_concat(seq![opt[0]], merge_opt(opt.drop_first(), entries, h), x);
            crate::value::lemma_map_has_single(opt[0], x);
        }
    }
}

/// Looks up the hint node for list elements: the wildcard segment.
fn wildcard_child<'a>(hints: Option<&'a InferHints>) -> (r: Option<&'a InferHints>)
    ensures
        opt_hv(r) == hint_child(opt_hv(hints), wildcard()),
{
    let r = child_hint(hints, "-");
    proof {
        reveal_strlit("-");
        assert("-"@ =~= wildcard());
    }
    r
}

/// Folds the merge over the elements of a list.
fn infer_elems(prior: InferredSchema, elems: &Vec<Json>, hc: Option<&InferHints>) -> (r:
    InferredSchema)
    ensures
        r.sv() == merge_elems(prior.sv(), Json::jv_list(elems@), opt_hv(hc)),
    decreases list_size(Json::jv_list(elems@)), 1int,
{
    let ghost lv = Json::jv_list(elems@);
    let ghost h = opt_hv(hc);
    let ghost target = merge_elems(prior.sv(), lv, h);
    proof {
        lemma_jv_list(elems@);
        assert(lv.skip(0) =~= lv);
    }
    let mut cur = prior;
    let n = elems.len();
    let mut i: usize = 0;
    while i < n
        invariant
            n == elems@.len(),
            i <= n,
            lv == Json::jv_list(elems@),
            h == opt_hv(hc),
            lv.len() == n,
            forall|j: int| 0 <= j < n ==> lv[j] == elems@[j].jv(),
            merge_elems(cur.sv(), lv.skip(i as int), h) == target,
        decreases n - i,
    {
        proof {
            crate::value::lemma_list_elem_size(lv, i as int);
            assert(lv.skip(i as int)[0] == lv[i as int]);
            assert(lv.skip(i as int).drop_first() =~= lv.skip(i as int + 1));
        }
        cur = cur.infer(&elems[i], hc);
        i = i + 1;
    }
    proof {
        assert(lv.skip(n as int) =~= Seq::<Jv>::empty());
    }
    cur
}

/// Folds the merge over the entry values of a record, pooling them.
fn infer_vals(prior: InferredSchema, entries: &Vec<(String, Json)>, hints: Option<&InferHints>)
    -> (r: InferredSchema)
    ensures
        r.sv() == merge_vals(prior.sv(), Json::jv_entries(entries@), opt_hv(hints)),
    decreases obj_size(Json::jv_entries(entries@)), 1int,
{
    let ghost ev = Json::jv_entries(entries@);
    let ghost h = opt_hv(hints);
    let ghost target = merge_vals(prior.sv(), ev, h);
    proof {
        lemma_jv_entries(entries@);
        assert(ev.skip(0) =~= ev);
    }
    let mut cur = prior;
    let n = entries.len();
    let mut i: usize = 0;
    while i < n
        invariant
            n == entries@.len(),
            i <= n,
            ev == Json::jv_entries(entries@),
            h == opt_hv(hints),
            ev.len() == n,
            forall|j: int| 0 <= j < n ==> ev[j] == (entries@[j].0@, entries@[j].1.jv()),
            merge_vals(cur.sv(), ev.skip(i as int), h) == target,
        decreases n - i,
    {
        proof {
            crate::value::lemma_obj_val_size(ev, i as int);
            assert(ev.skip(i as int)[0] == ev[i as int]);
            assert(ev.skip(i as int).drop_first() =~= ev.skip(i as int + 1));
        }
        let e = &entries[i];
        let hc = child_hint(hints, e.0.as_str());
        cur = cur.infer(&e.1, hc);
        i = i + 1;
    }
    proof {
        assert(ev.skip(n as int) =~= Seq::<(Seq<char>, Jv)>::empty());
    }
    cur
}

impl InferredSchema {
    /// Folds one observed value into this shape: the result describes
    /// everything this shape described, and the new value as well.  The
    /// hint node handed in must be the one reachable by this value's path.
    pub fn infer(self, value: &Json, hints: Option<&InferHints>) -> (r: InferredSchema)
        ensures
            r.sv() == spec_merge(self.sv(), value.jv(), opt_hv(hints)),
        decreases jsize(value.jv()), 0int,
    {
        match self {
            InferredSchema::Unknown => match value {
                Json::Null => InferredSchema::Any,
                Json::Bool(_) => InferredSchema::Bool,
                Json::Number => InferredSchema::Number,
                Json::Str(s) => {
                    if crate::rfc3339::parses_as_timestamp(s.as_str()) {
                        InferredSchema::Timestamp
                    } else {
                        InferredSchema::Str
                    }
                },
                Json::Array(elems) => {
                    let hc = wildcard_child(hints);
                    InferredSchema::Array(
                        Box::new(infer_elems(InferredSchema::Unknown, elems, hc)),
                    )
                },
                Json::Object(entries) => infer_unknown_obj(entries, hints),
            },
            InferredSchema::Any => InferredSchema::Any,
            InferredSchema::Bool => match value {
                Json::Bool(_) => InferredSchema::Bool,
                _ => InferredSchema::Any,
            },
            InferredSchema::Number => match value {
                Json::Number => InferredSchema::Number,
                _ => InferredSchema::Any,
            },
            InferredSchema::Timestamp => match value {
                Json::Str(s) => {
                    if crate::rfc3339::parses_as_timestamp(s.as_str()) {
                        InferredSchema::Timestamp
                    } else {
                        InferredSchema::Str
                    }
                },
                _ => InferredSchema::Any,
            },
            InferredSchema::Str => match value {
                Json::Str(_) => InferredSchema::Str,
                _ => InferredSchema::Any,
            },
            InferredSchema::Array(sub) => match value {
                Json::Array(elems) => {
                    let hc = wildcard_child(hints);
                    InferredSchema::Array(Box::new(infer_elems(*sub, elems, hc)))
                },
                _ => InferredSchema::Any,
            },
            InferredSchema::Properties(req, opt) => match value {
                Json::Object(entries) => infer_props(req, opt, entries, hints),
                _ => InferredSchema::Any,
            },
            InferredSchema::Values(sub) => match value {
                Json::Object(entries) => InferredSchema::Values(
                    Box::new(infer_vals(*sub, entries, hints)),
                ),
                _ => InferredSchema::Any,
            },
            InferredSchema::Discriminator(tag, mapping) => match value {
                Json::Object(entries) => infer_disc(tag, mapping, entries, hints),
                _ => InferredSchema::Any,
            },
        }
    }
}

/// Classifies a record first seen at a path: the hint may turn it into a
/// homogeneous map or a tagged union; otherwise every key becomes required.
fn infer_unknown_obj(entries: &Vec<(String, Json)>, hints: Option<&InferHints>) -> (r:
    InferredSchema)
    ensures
        r.sv() == spec_merge(Sv::Unknown, Jv::Object(Json::jv_entries(entries@)), opt_hv(hints)),
    decreases obj_size(Json::jv_entries(entries@)), 3int,
{
    let ghost ev = Json::jv_entries(entries@);
    let ghost h = opt_hv(hints);
    match hints {
        Option::Some(hnode) => {
            if hnode.values {
                let sub = infer_vals(InferredSchema::Unknown, entries, hints);
                let r = InferredSchema::Values(Box::new(sub));
                proof {
                    assert(hint_values(h));
                    assert(r.sv() == spec_merge(Sv::Unknown, Jv::Object(ev), h));
                }
                return r;
            }
            match &hnode.discriminator_tag {
                Option::Some(tag) => {
                    match find_entry(entries, tag) {
                        Option::Some(i) => {
                            let e = &entries[i];
                            match &e.1 {
                                Json::Str(tv) => {
                                    proof {
                                        lemma_jv_entries(entries@);
                                        lemma_map_get_at(ev, tag@, i as int);
                                        lemma_remove_key_size(ev, tag@);
                                        lemma_jsize_pos(map_get(ev, tag@));
                                    }
                                    let rest = clone_entries_except(entries, tag);
                                    let rest_obj = Json::Object(rest);
                                    let merged = InferredSchema::Unknown.infer(&rest_obj, hints);
                                    let mut mapping: Vec<(String, InferredSchema)> = Vec::new();
                                    mapping.push((tv.clone(), merged));
                                    proof {
                                        lemma_sv_entries(mapping@);
                                        assert(InferredSchema::sv_entries(mapping@) =~= seq![
                                            (tv@, merged.sv()),
                                        ]);
                                        assert(hint_tag(h) == Option::Some(tag@));
                                        assert(map_has(ev, tag@));
                                        assert(map_get(ev, tag@) == Jv::Str(tv@));
                                        assert(merged.sv() == spec_merge(
                                            Sv::Unknown,
                                            Jv::Object(remove_key(ev, tag@)),
                                            h,
                                        ));
                                    }
                                    let out = InferredSchema::Discriminator(tag.clone(), mapping);
                                    proof {
                                        assert(out.sv() == spec_merge(Sv::Unknown, Jv::Object(ev), h));
                                    }
                                    out
                                },
                                _ => {
                                    proof {
                                        lemma_jv_entries(entries@);
                                        lemma_map_get_at(ev, tag@, i as int);
                                        assert(map_get(ev, tag@) == entries@[i as int].1.jv());
                                        assert(!(map_get(ev, tag@) is Str));
                                    }
                                    infer_props_new(entries, hints)
                                },
                            }
                        },
                        Option::None => infer_props_new(entries, hints),
                    }
                },
                Option::None => infer_props_new(entries, hints),
            }
        },
        Option::None => infer_props_new(entries, hints),
    }
}

/// Builds the first record shape: every observed key required, none
/// optional; a key repeated within one record is taken once.
fn infer_props_new(entries: &Vec<(String, Json)>, hints: Option<&InferHints>) -> (r:
    InferredSchema)
    ensures
        r.sv() == props_new(Json::jv_entries(entries@), opt_hv(hints)),
    decreases obj_size(Json::jv_entries(entries@)), 2int,
{
    let ghost ev = Json::jv_entries(entries@);
    let ghost h = opt_hv(hints);
    let mut req: Vec<(String, InferredSchema)> = Vec::new();
    proof {
        lemma_jv_entries(entries@);
        lemma_sv_entries(req@);
        assert(ev.skip(0) =~= ev);
        assert(InferredSchema::sv_entries(req@) =~= Seq::<(Seq<char>, Sv)>::empty());
        assert(map_key_set(InferredSchema::sv_entries(req@)) =~= Set::<Seq<char>>::empty());
        assert(InferredSchema::sv_entries(req@) + fresh_entries(
            ev.skip(0),
            map_key_set(InferredSchema::sv_entries(req@)),
            h,
        ) =~= fresh_entries(ev, Set::empty(), h));
    }
    let n = entries.len();
    let mut i: usize = 0;
    while i < n
        invariant
            n == entries@.len(),
            i <= n,
            ev == Json::jv_entries(entries@),
            h == opt_hv(hints),
            ev.len() == n,
            forall|j: int| 0 <= j < n ==> ev[j] == (entries@[j].0@, entries@[j].1.jv()),
            fresh_entries(ev, Set::empty(), h) == InferredSchema::sv_entries(req@)
                + fresh_entries(
                ev.skip(i as int),
                map_key_set(InferredSchema::sv_entries(req@)),
                h,
            ),
        decreases n - i,
    {
        let ghost known = map_key_set(InferredSchema::sv_entries(req@));
        proof {
            crate::value::lemma_obj_val_size(ev, i as int);
            assert(ev.skip(i as int)[0] == ev[i as int]);
            assert(ev.skip(i as int).drop_first() =~= ev.skip(i as int + 1));
        }
        let e = &entries[i];
        if contains_shape_key(&req, &e.0) {
            proof {
                assert(known.contains(ev[i as int].0));
            }
        } else {
            let hc = child_hint(hints, e.0.as_str());
            let sub = InferredSchema::Unknown.infer(&e.1, hc);
            let ghost req0 = req@;
            req.push((e.0.clone(), sub));
            proof {
                lemma_sv_entries(req0);
                lemma_sv_entries(req@);
                assert(InferredSchema::sv_entries(req@) =~= InferredSchema::sv_entries(req0).push(
                    (ev[i as int].0, sub.sv()),
                ));
                assert forall|x: Seq<char>|
                    map_has(InferredSchema::sv_entries(req@), x) == (map_has(
                        InferredSchema::sv_entries(req0),
                        x,
                    ) || x == ev[i as int].0) by {
                    let a = InferredSchema::sv_entries(req0);
                    let b = InferredSchema::sv_entries(req@);
                    if map_has(a, x) {
                        let j = choose|j: int| 0 <= j < a.len() && a[j].0 == x;
                        assert(b[j] == a[j]);
                    }
                    if map_has(b, x) {
                        let j = choose|j: int| 0 <= j < b.len() && b[j].0 == x;
                        if j < a.len() {
                            assert(a[j] == b[j]);
                        }
                    }
                    assert(b[a.len() as int].0 == ev[i as int].0);
                }
                assert(map_key_set(InferredSchema::sv_entries(req@)) =~= known.insert(
                    ev[i as int].0,
                ));
                assert((InferredSchema::sv_entries(req0) + seq![(ev[i as int].0, sub.sv())])
                    + fresh_entries(
                    ev.skip(i as int + 1),
                    known.insert(ev[i as int].0),
                    h,
                ) =~= InferredSchema::sv_entries(req0) + (seq![(ev[i as int].0, sub.sv())]
                    + fresh_entries(ev.skip(i as int + 1), known.insert(ev[i as int].0), h)));
            }
        }
        i = i + 1;
    }
    proof {
        assert(ev.skip(n as int) =~= Seq::<(Seq<char>, Jv)>::empty());
        assert(InferredSchema::sv_entries(req@) + fresh_entries(
            ev.skip(n as int),
            map_key_set(InferredSchema::sv_entries(req@)),
            h,
        ) =~= InferredSchema::sv_entries(req@));
    }
    let opt: Vec<(String, InferredSchema)> = Vec::new();
    proof {
        lemma_sv_entries(opt@);
        assert(InferredSchema::sv_entries(opt@) =~= Seq::<(Seq<char>, Sv)>::empty());
    }
    InferredSchema::Properties(req, opt)
}

/// Merges a record into an established record shape: required keys that
/// are missing demote to optional, present keys merge in place, and new
/// keys join the optional set.
fn infer_props(
    req: Vec<(String, InferredSchema)>,
    opt: Vec<(String, InferredSchema)>,
    entries: &Vec<(String, Json)>,
    hints: Option<&InferHints>,
) -> (r: InferredSchema)
    ensures
        r.sv() == spec_merge(
            Sv::Properties(
                InferredSchema::sv_entries(req@),
                InferredSchema::sv_entries(opt@),
            ),
            Jv::Object(Json::jv_entries(entries@)),
            opt_hv(hints),
        ),
    decreases obj_size(Json::jv_entries(entries@)), 2int,
{
    let ghost ev = Json::jv_entries(entries@);
    let ghost h = opt_hv(hints);
    let ghost rv0 = InferredSchema::sv_entries(req@);
    let ghost ov0 = InferredSchema::sv_entries(opt@);
    proof {
        lemma_jv_entries(entries@);
    }
    let mut req = req;
    let mut kept: Vec<(String, InferredSchema)> = Vec::new();
    let mut demoted: Vec<(String, InferredSchema)> = Vec::new();
    proof {
        lemma_sv_entries(kept@);
        lemma_sv_entries(demoted@);
        assert(InferredSchema::sv_entries(kept@) =~= Seq::<(Seq<char>, Sv)>::empty());
        assert(InferredSchema::sv_entries(demoted@) =~= Seq::<(Seq<char>, Sv)>::empty());
        assert(InferredSchema::sv_entries(kept@) + merge_kept(
            InferredSchema::sv_entries(req@),
            ev,
            h,
        ) =~= merge_kept(rv0, ev, h));
        assert(InferredSchema::sv_entries(demoted@) + demote_missing(
            InferredSchema::sv_entries(req@),
            ev,
        ) =~= demote_missing(rv0, ev));
    }
    while req.len() > 0
        invariant
            ev == Json::jv_entries(entries@),
            h == opt_hv(hints),
            ev.len() == entries@.len(),
            forall|j: int| 0 <= j < ev.len() ==> ev[j] == (entries@[j].0@, entries@[j].1.jv()),
            merge_kept(rv0, ev, h) == InferredSchema::sv_entries(kept@) + merge_kept(
                InferredSchema::sv_entries(req@),
                ev,
                h,
            ),
            demote_missing(rv0, ev) == InferredSchema::sv_entries(demoted@) + demote_missing(
                InferredSchema::sv_entries(req@),
                ev,
            ),
        decreases req@.len(),
    {
        let ghost rq_before = req@;
        let ghost rv = InferredSchema::sv_entries(req@);
        proof {
            lemma_sv_entries(req@);
            lemma_sv_entries(req@.drop_first());
            assert(rv.drop_first() =~= InferredSchema::sv_entries(req@.drop_first()));
        }
        let pair = req.remove(0);
        proof {
            assert(req@ =~= rq_before.drop_first());
        }
        let (k, s) = pair;
        let ghost kv = k@;
        let ghost sv0 = s.sv();
        match find_entry(entries, &k) {
            Option::Some(idx) => {
                proof {
                    lemma_map_get_at(ev, kv, idx as int);
                    lemma_get_val_size(ev, kv);
                }
                let hc = child_hint(hints, k.as_str());
                let e = &entries[idx];
                let sub = s.infer(&e.1, hc);
                let ghost kept0 = kept@;
                kept.push((k, sub));
                proof {
                    lemma_sv_entries(kept0);
                    lemma_sv_entries(kept@);
                    assert(InferredSchema::sv_entries(kept@) =~= InferredSchema::sv_entries(
                        kept0,
                    ).push((kv, sub.sv())));
                    assert((InferredSchema::sv_entries(kept0) + seq![(kv, sub.sv())])
                        + merge_kept(InferredSchema::sv_entries(req@), ev, h)
                        =~= InferredSchema::sv_entries(kept0) + (seq![(kv, sub.sv())]
                        + merge_kept(InferredSchema::sv_entries(req@), ev, h)));
                }
            },
            Option::None => {
                let ghost demoted0 = demoted@;
                demoted.push((k, s));
                proof {
                    lemma_sv_entries(demoted0);
                    lemma_sv_entries(demoted@);
                    assert(InferredSchema::sv_entries(demoted@) =~= InferredSchema::sv_entries(
                        demoted0,
                    ).push((kv, sv0)));
                    assert((InferredSchema::sv_entries(demoted0) + seq![(kv, sv0)])
                        + demote_missing(InferredSchema::sv_entries(req@), ev)
                        =~= InferredSchema::sv_entries(demoted0) + (seq![(kv, sv0)]
                        + demote_missing(InferredSchema::sv_entries(req@), ev)));
                }
            },
        }
    }
    proof {
        lemma_sv_entries(req@);
        assert(InferredSchema::sv_entries(req@) =~= Seq::<(Seq<char>, Sv)>::empty());
        assert(InferredSchema::sv_entries(kept@) + merge_kept(
            InferredSchema::sv_entries(req@),
            ev,
            h,
        ) =~= InferredSchema::sv_entries(kept@));
        assert(InferredSchema::sv_entries(demoted@) + demote_missing(
            InferredSchema::sv_entries(req@),
            ev,
        ) =~= InferredSchema::sv_entries(demoted@));
    }
    // The optional entries: the demoted ones first, then the prior optional
    // entries merged where their key occurs, then the new keys.
    let mut opt = opt;
    let mut newopt = demoted;
    proof {
        assert(demote_missing(rv0, ev) + merge_opt(InferredSchema::sv_entries(opt@), ev, h)
            =~= InferredSchema::sv_entries(newopt@) + merge_opt(
            InferredSchema::sv_entries(opt@),
            ev,
            h,
        ));
    }
    while opt.len() > 0
        invariant
            ev == Json::jv_entries(entries@),
            h == opt_hv(hints),
            ev.len() == entries@.len(),
            forall|j: int| 0 <= j < ev.len() ==> ev[j] == (entries@[j].0@, entries@[j].1.jv()),
            demote_missing(rv0, ev) + merge_opt(ov0, ev, h) == InferredSchema::sv_entries(
                newopt@,
            ) + merge_opt(InferredSchema::sv_entries(opt@), ev, h),
        decreases opt@.len(),
    {
        let ghost oq_before = opt@;
        proof {
            lemma_sv_entries(opt@);
            lemma_sv_entries(opt@.drop_first());
            assert(InferredSchema::sv_entries(opt@).drop_first()
                =~= InferredSchema::sv_entries(opt@.drop_first()));
        }
        let pair = opt.remove(0);
        proof {
            assert(opt@ =~= oq_before.drop_first());
        }
        let (k, s) = pair;
        let ghost kv = k@;
        let ghost sv0 = s.sv();
        let ghost newopt0 = newopt@;
        match find_entry(entries, &k) {
            Option::Some(idx) => {
                proof {
                    lemma_map_get_at(ev, kv, idx as int);
                    lemma_get_val_size(ev, kv);
                }
                let hc = child_hint(hints, k.as_str());
                let e = &entries[idx];
                let sub = s.infer(&e.1, hc);
                newopt.push((k, sub));
                proof {
                    lemma_sv_entries(newopt0);
                    lemma_sv_entries(newopt@);
                    assert(InferredSchema::sv_entries(newopt@) =~= InferredSchema::sv_entries(
                        newopt0,
                    ).push((kv, sub.sv())));
                    assert((InferredSchema::sv_entries(newopt0) + seq![(kv, sub.sv())])
                        + merge_opt(InferredSchema::sv_entries(opt@), ev, h)
                        =~= InferredSchema::sv_entries(newopt0) + (seq![(kv, sub.sv())]
                        + merge_opt(InferredSchema::sv_entries(opt@), ev, h)));
                }
            },
            Option::None => {
                newopt.push((k, s));
                proof {
                    lemma_sv_entries(newopt0);
                    lemma_sv_entries(newopt@);
                    assert(InferredSchema::sv_entries(newopt@) =~= InferredSchema::sv_entries(
                        newopt0,
                    ).push((kv, sv0)));
                    assert((InferredSchema::sv_entries(newopt0) + seq![(kv, sv0)])
                        + merge_opt(InferredSchema::sv_entries(opt@), ev, h)
                        =~= InferredSchema::sv_entries(newopt0) + (seq![(kv, sv0)]
                        + merge_opt(InferredSchema::sv_entries(opt@), ev, h)));
                }
            },
        }
    }
    proof {
        lemma_sv_entries(opt@);
        assert(InferredSchema::sv_entries(opt@) =~= Seq::<(Seq<char>, Sv)>::empty());
        assert(InferredSchema::sv_entries(newopt@) + merge_opt(
            InferredSchema::sv_entries(opt@),
            ev,
            h,
        ) =~= InferredSchema::sv_entries(newopt@));
    }
    // The new keys of the observed record.
    let ghost k0 = map_key_set(rv0).union(map_key_set(ov0));
    let ghost base = InferredSchema::sv_entries(newopt@);
    proof {
        assert(ev.skip(0) =~= ev);
        assert forall|x: Seq<char>|
            k0.contains(x) == (map_has(InferredSchema::sv_entries(kept@), x) || map_has(
                InferredSchema::sv_entries(newopt@),
                x,
            )) by {
            lemma_merge_kept_keys(rv0, ev, h, x);
            lemma_demote_keys(rv0, ev, x);
            lemma_merge_opt_keys(ov0, ev, h, x);
            lemma_map_has_concat(demote_missing(rv0, ev), merge_opt(ov0, ev, h), x);
        }
        assert(k0 =~= kcur(kept@, newopt@));
        assert(base + fresh_entries(ev.skip(0), k0, h) =~= base + fresh_entries(ev, k0, h));
    }
    let n = entries.len();
    let mut i: usize = 0;
    while i < n
        invariant
            n == entries@.len(),
            i <= n,
            ev == Json::jv_entries(entries@),
            h == opt_hv(hints),
            ev.len() == n,
            forall|j: int| 0 <= j < n ==> ev[j] == (entries@[j].0@, entries@[j].1.jv()),
            base + fresh_entries(ev, k0, h) == InferredSchema::sv_entries(newopt@)
                + fresh_entries(ev.skip(i as int), kcur(kept@, newopt@), h),
            forall|x: Seq<char>|
                kcur(kept@, newopt@).contains(x) == (map_has(
                    InferredSchema::sv_entries(kept@),
                    x,
                ) || map_has(InferredSchema::sv_entries(newopt@), x)),
        decreases n - i,
    {
        let ghost known = kcur(kept@, newopt@);
        proof {
            crate::value::lemma_obj_val_size(ev, i as int);
            assert(ev.skip(i as int)[0] == ev[i as int]);
            assert(ev.skip(i as int).drop_first() =~= ev.skip(i as int + 1));
        }
        let e = &entries[i];
        let in_kept = contains_shape_key(&kept, &e.0);
        let in_opt = contains_shape_key(&newopt, &e.0);
        if in_kept || in_opt {
            proof {
                assert(known.contains(ev[i as int].0));
            }
        } else {
            let hc = child_hint(hints, e.0.as_str());
            let sub = InferredSchema::Unknown.infer(&e.1, hc);
            let ghost newopt0 = newopt@;
            newopt.push((e.0.clone(), sub));
            proof {
                lemma_sv_entries(newopt0);
                lemma_sv_entries(newopt@);
                assert(InferredSchema::sv_entries(newopt@) =~= InferredSchema::sv_entries(
                    newopt0,
                ).push((ev[i as int].0, sub.sv())));
                assert forall|x: Seq<char>|
                    map_has(InferredSchema::sv_entries(newopt@), x) == (map_has(
                        InferredSchema::sv_entries(newopt0),
                        x,
                    ) || x == ev[i as int].0) by {
                    let a = InferredSchema::sv_entries(newopt0);
                    let b = InferredSchema::sv_entries(newopt@);
                    if map_has(a, x) {
                        let j = choose|j: int| 0 <= j < a.len() && a[j].0 == x;
                        assert(b[j] == a[j]);
                    }
                    if map_has(b, x) {
                        let j = choose|j: int| 0 <= j < b.len() && b[j].0 == x;
                        if j < a.len() {
                            assert(a[j] == b[j]);
                        }
                    }
                    assert(b[a.len() as int].0 == ev[i as int].0);
                }
                assert(kcur(kept@, newopt@) =~= known.insert(ev[i as int].0));
                assert((InferredSchema::sv_entries(newopt0) + seq![(ev[i as int].0, sub.sv())])
                    + fresh_entries(ev.skip(i as int + 1), known.insert(ev[i as int].0), h)
                    =~= InferredSchema::sv_entries(newopt0) + (seq![(ev[i as int].0, sub.sv())]
                    + fresh_entries(ev.skip(i as int + 1), known.insert(ev[i as int].0), h)));
            }
        }
        i = i + 1;
    }
    proof {
        assert(ev.skip(n as int) =~= Seq::<(Seq<char>, Jv)>::empty());
        assert(InferredSchema::sv_entries(newopt@) + fresh_entries(
            ev.skip(n as int),
            kcur(kept@, newopt@),
            h,
        ) =~= InferredSchema::sv_entries(newopt@));
    }
    InferredSchema::Properties(kept, newopt)
}

/// The keys already taken: those of the kept required entries and those of
/// the optional entries gathered so far.
spec fn kcur(
    kept: Seq<(String, InferredSchema)>,
    newopt: Seq<(String, InferredSchema)>,
) -> Set<Seq<char>> {
    map_key_set(InferredSchema::sv_entries(kept)).union(
        map_key_set(InferredSchema::sv_entries(newopt)),
    )
}

/// Merges a record into a tagged-union shape: the tag entry selects the
/// variant, the remainder merges into that variant's shape; a record
/// without a string tag falsifies the hint and collapses to `Any`.
fn infer_disc(
    tag: String,
    mapping: Vec<(String, InferredSchema)>,
    entries: &Vec<(String, Json)>,
    hints: Option<&InferHints>,
) -> (r: InferredSchema)
    ensures
        r.sv() == spec_merge(
            Sv::Discriminator(tag@, InferredSchema::sv_entries(mapping@)),
            Jv::Object(Json::jv_entries(entries@)),
            opt_hv(hints),
        ),
    decreases obj_size(Json::jv_entries(entries@)), 2int,
{
    let ghost ev = Json::jv_entries(entries@);
    let ghost h = opt_hv(hints);
    let ghost m0 = InferredSchema::sv_entries(mapping@);
    match find_entry(entries, &tag) {
        Option::None => InferredSchema::Any,
        Option::Some(i) => {
            proof {
                lemma_jv_entries(entries@);
                lemma_map_get_at(ev, tag@, i as int);
            }
            let e = &entries[i];
            match &e.1 {
                Json::Str(tv) => {
                    proof {
                        lemma_remove_key_size(ev, tag@);
                        lemma_jsize_pos(map_get(ev, tag@));
                        lemma_sv_entries(mapping@);
                    }
                    let rest = clone_entries_except(entries, &tag);
                    let rest_obj = Json::Object(rest);
                    let mut mapping = mapping;
                    match find_shape(&mapping, tv) {
                        Option::Some(j) => {
                            proof {
                                lemma_map_get_at(m0, tv@, j as int);
                            }
                            let ghost ma = mapping@;
                            let pair = mapping.remove(j);
                            let (kk, prior_sub) = pair;
                            let merged = prior_sub.infer(&rest_obj, hints);
                            mapping.insert(j, (kk, merged));
                            proof {
                                assert(mapping@ =~= ma.update(j as int, (ma[j as int].0, merged)));
                                lemma_sv_entries(ma);
                                lemma_sv_entries(mapping@);
                                lemma_map_put_at(m0, tv@, merged.sv(), j as int);
                                assert(InferredSchema::sv_entries(mapping@) =~= m0.update(
                                    j as int,
                                    (tv@, merged.sv()),
                                ));
                            }
                            InferredSchema::Discriminator(tag, mapping)
                        },
                        Option::None => {
                            let merged = InferredSchema::Unknown.infer(&rest_obj, hints);
                            let ghost ma = mapping@;
                            mapping.push((tv.clone(), merged));
                            proof {
                                lemma_sv_entries(ma);
                                lemma_sv_entries(mapping@);
                                lemma_map_put_absent(m0, tv@, merged.sv());
                                assert(InferredSchema::sv_entries(mapping@) =~= m0.push(
                                    (tv@, merged.sv()),
                                ));
                            }
                            InferredSchema::Discriminator(tag, mapping)
                        },
                    }
                },
                _ => InferredSchema::Any,
            }
        },
    }
}

} // verus!
