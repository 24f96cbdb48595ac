//! The lattice laws: proved properties of the merge operation.

use vstd::prelude::*;
use crate::hints::{hint_child, Hv};
use crate::rfc3339::is_rfc3339;
use crate::shape::{
    demote_missing, fresh_entries, lemma_demote_keys, lemma_map_has_concat,
    lemma_merge_kept_keys, lemma_merge_opt_keys, merge_opt, spec_merge, Sv,
};
use crate::value::{
    lemma_map_has_single, lemma_map_has_unfold, lemma_map_put_keys, map_get, map_has,
    map_key_set, remove_key, Jv,
};

verus! {

/// Whether a value is a scalar: it nests no further values.
pub open spec fn is_scalar(v: Jv) -> bool {
    !(v is Array) && !(v is Object)
}

/// The entries of a record value, and nothing for any other value.
pub open spec fn obj_entries(v: Jv) -> Seq<(Seq<char>, Jv)> {
    match v {
        Jv::Object(es) => es,
        _ => Seq::empty(),
    }
}

/// Folds the merge over a sequence of observed values, in order.
pub open spec fn fold_merge(s: Sv, vs: Seq<Jv>, h: Option<Hv>) -> Sv
    decreases vs.len(),
{
    if vs.len() == 0 {
        s
    } else {
        fold_merge(spec_merge(s, vs[0], h), vs.drop_first(), h)
    }
}

/// Absorption: once a shape has generalized to `Any`, merging any further
/// value leaves it at `Any`.
pub proof fn lemma_absorption(v: Jv, h: Option<Hv>)
    ensures
        spec_merge(Sv::Any, v, h) == Sv::Any,
{
}

/// Idempotence on scalars: once one scalar observation has settled the
/// shape, observing the identical value again changes nothing.
pub proof fn lemma_scalar_idempotent(v: Jv, h: Option<Hv>)
    requires
        is_scalar(v),
    ensures
        spec_merge(spec_merge(Sv::Unknown, v, h), v, h) == spec_merge(Sv::Unknown, v, h),
{
}

/// A shape that stands at `Str` or `Any` stays in that pair under every
/// further merge; in particular it never becomes `Timestamp` again.
pub proof fn lemma_no_timestamp_revival(s: Sv, vs: Seq<Jv>, h: Option<Hv>)
    requires
        s == Sv::Str || s == Sv::Any,
    ensures
        fold_merge(s, vs, h) == Sv::Str || fold_merge(s, vs, h) == Sv::Any,
    decreases vs.len(),
{
    if vs.len() > 0 {
        lemma_no_timestamp_revival(spec_merge(s, vs[0], h), vs.drop_first(), h);
    }
}

/// Timestamp demotion is one-way: once a string that does not parse as a
/// timestamp has been merged into a `Timestamp` shape, no sequence of
/// later values at that path can restore `Timestamp`.
pub proof fn lemma_timestamp_demotion_one_way(s0: Seq<char>, vs: Seq<Jv>, h: Option<Hv>)
    requires
        !is_rfc3339(s0),
    ensures
        spec_merge(Sv::Timestamp, Jv::Str(s0), h) == Sv::Str,
        fold_merge(spec_merge(Sv::Timestamp, Jv::Str(s0), h), vs, h) != Sv::Timestamp,
{
    lemma_no_timestamp_revival(Sv::Str, vs, h);
}

/// The fresh entries carry exactly the record's keys that were not yet
/// known.
pub proof fn lemma_fresh_keys(
    es: Seq<(Seq<char>, Jv)>,
    known: Set<Seq<char>>,
    h: Option<Hv>,
    x: Seq<char>,
)
    ensures
        map_has(fresh_entries(es, known, h), x) == (map_has(es, x) && !known.contains(x)),
    decreases es.len(),
{
    if es.len() > 0 {
        lemma_map_has_unfold(es, x);
        if known.contains(es[0].0) {
            lemma_fresh_keys(es.drop_first(), known, h, x);
        } else {
            lemma_fresh_keys(es.drop_first(), known.insert(es[0].0), h, x);
            let head = (es[0].0, spec_merge(Sv::Unknown, es[0].1, hint_child(h, es[0].0)));
            lemma_map_has_concat(
                seq![head],
                fresh_entries(es.drop_first(), known.insert(es[0].0), h),
                x,
            );
            lemma_map_has_single(head, x);
        }
    }
}

/// The first record seen without a hint: every key of the record is
/// required, and nothing is optional.
pub proof fn lemma_first_record_keys(es: Seq<(Seq<char>, Jv)>, x: Seq<char>)
    ensures
        spec_merge(Sv::Unknown, Jv::Object(es), Option::None) is Properties,
        map_has(
            spec_merge(Sv::Unknown, Jv::Object(es), Option::None)->Properties_0,
            x,
        ) == map_has(es, x),
        !map_has(spec_merge(Sv::Unknown, Jv::Object(es), Option::None)->Properties_1, x),
{
    lemma_fresh_keys(es, Set::empty(), Option::None, x);
    assert(spec_merge(Sv::Unknown, Jv::Object(es), Option::None) == crate::shape::props_new(
        es,
        Option::None,
    ));
    assert(crate::shape::props_new(es, Option::None) == Sv::Properties(
        fresh_entries(es, Set::empty(), Option::None),
        Seq::empty(),
    ));
    assert(!Set::<Seq<char>>::empty().contains(x));
}

/// One record merged into a record shape: a key stays required exactly
/// when it was required and occurs in the record, and a key is known
/// afterwards exactly when it was known before or occurs in the record.
pub proof fn lemma_props_merge_keys(
    req: Seq<(Seq<char>, Sv)>,
    opt: Seq<(Seq<char>, Sv)>,
    es: Seq<(Seq<char>, Jv)>,
    h: Option<Hv>,
    x: Seq<char>,
)
    ensures
        spec_merge(Sv::Properties(req, opt), Jv::Object(es), h) is Properties,
        map_has(spec_merge(Sv::Properties(req, opt), Jv::Object(es), h)->Properties_0, x) == (
        map_has(req, x) && map_has(es, x)),
        (map_has(spec_merge(Sv::Properties(req, opt), Jv::Object(es), h)->Properties_0, x)
            || map_has(
            spec_merge(Sv::Properties(req, opt), Jv::Object(es), h)->Properties_1,
            x,
        )) == (map_has(req, x) || map_has(opt, x) || map_has(es, x)),
{
    lemma_merge_kept_keys(req, es, h, x);
    lemma_demote_keys(req, es, x);
    lemma_merge_opt_keys(opt, es, h, x);
    let k0 = map_key_set(req).union(map_key_set(opt));
    lemma_fresh_keys(es, k0, h, x);
    lemma_map_has_concat(demote_missing(req, es), merge_opt(opt, es, h), x);
    lemma_map_has_concat(
        demote_missing(req, es) + merge_opt(opt, es, h),
        fresh_entries(es, k0, h),
        x,
    );
}

/// Folding records into a record shape: a key is required at the end
/// exactly when it was required and occurs in every record, and known at
/// the end exactly when it was known or occurs in some record.
pub proof fn lemma_fold_props_keys(s: Sv, vs: Seq<Jv>, x: Seq<char>)
    requires
        s is Properties,
        forall|i: int| 0 <= i < vs.len() ==> vs[i] is Object,
    ensures
        fold_merge(s, vs, Option::None) is Properties,
        map_has(fold_merge(s, vs, Option::None)->Properties_0, x) == (map_has(
            s->Properties_0,
            x,
        ) && forall|i: int| 0 <= i < vs.len() ==> map_has(obj_entries(vs[i]), x)),
        (map_has(fold_merge(s, vs, Option::None)->Properties_0, x) || map_has(
            fold_merge(s, vs, Option::None)->Properties_1,
            x,
        )) == (map_has(s->Properties_0, x) || map_has(s->Properties_1, x) || exists|i: int|
            0 <= i < vs.len() && map_has(obj_entries(vs[i]), x)),
    decreases vs.len(),
{
    if vs.len() > 0 {
        assert(vs[0] == Jv::Object(obj_entries(vs[0])));
        lemma_props_merge_keys(s->Properties_0, s->Properties_1, obj_entries(vs[0]), Option::None, x);
        assert forall|i: int| 0 <= i < vs.drop_first().len() implies vs.drop_first()[i]
            is Object by {
            assert(vs.drop_first()[i] == vs[i + 1]);
        }
        lemma_fold_props_keys(spec_merge(s, vs[0], Option::None), vs.drop_first(), x);
        assert((forall|i: int| 0 <= i < vs.len() ==> map_has(obj_entries(vs[i]), x)) == (map_has(
            obj_entries(vs[0]),
            x,
        ) && forall|i: int| 0 <= i < vs.drop_first().len() ==> map_has(
            obj_entries(vs.drop_first()[i]),
            x,
        ))) by {
            if map_has(obj_entries(vs[0]), x) && (forall|i: int|
                0 <= i < vs.drop_first().len() ==> map_has(obj_entries(vs.drop_first()[i]), x)) {
                assert forall|i: int| 0 <= i < vs.len() implies map_has(obj_entries(vs[i]), x) by {
                    if i > 0 {
                        assert(vs.drop_first()[i - 1] == vs[i]);
                    }
                }
            }
            if forall|i: int| 0 <= i < vs.len() ==> map_has(obj_entries(vs[i]), x) {
                assert forall|i: int| 0 <= i < vs.drop_first().len() implies map_has(
                    obj_entries(vs.drop_first()[i]),
                    x,
                ) by {
                    assert(vs.drop_first()[i] == vs[i + 1]);
                }
            }
        }
        assert((exists|i: int| 0 <= i < vs.len() && map_has(obj_entries(vs[i]), x)) == (map_has(
            obj_entries(vs[0]),
            x,
        ) || exists|i: int|
            0 <= i < vs.drop_first().len() && map_has(obj_entries(vs.drop_first()[i]), x))) by {
            if exists|i: int| 0 <= i < vs.len() && map_has(obj_entries(vs[i]), x) {
                let i = choose|i: int| 0 <= i < vs.len() && map_has(obj_entries(vs[i]), x);
                if i > 0 {
                    assert(vs.drop_first()[i - 1] == vs[i]);
                }
            }
            if exists|i: int|
                0 <= i < vs.drop_first().len() && map_has(obj_entries(vs.drop_first()[i]), x) {
                let i = choose|i: int|
                    0 <= i < vs.drop_first().len() && map_has(obj_entries(vs.drop_first()[i]), x);
                assert(vs.drop_first()[i] == vs[i + 1]);
            }
        }
    }
}

/// The record-shape invariant is preserved: when no key is both required
/// and optional, merging another record leaves no key both required and
/// optional.
pub proof fn lemma_required_optional_disjoint(
    req: Seq<(Seq<char>, Sv)>,
    opt: Seq<(Seq<char>, Sv)>,
    es: Seq<(Seq<char>, Jv)>,
    h: Option<Hv>,
    x: Seq<char>,
)
    requires
        !(map_has(req, x) && map_has(opt, x)),
    ensures
        !(map_has(spec_merge(Sv::Properties(req, opt), Jv::Object(es), h)->Properties_0, x)
            && map_has(
            spec_merge(Sv::Properties(req, opt), Jv::Object(es), h)->Properties_1,
            x,
        )),
{
    lemma_merge_kept_keys(req, es, h, x);
    lemma_demote_keys(req, es, x);
    lemma_merge_opt_keys(opt, es, h, x);
    let k0 = map_key_set(req).union(map_key_set(opt));
    lemma_fresh_keys(es, k0, h, x);
    lemma_map_has_concat(demote_missing(req, es), merge_opt(opt, es, h), x);
    lemma_map_has_concat(
        demote_missing(req, es) + merge_opt(opt, es, h),
        fresh_entries(es, k0, h),
        x,
    );
}

/// The merge never returns to the bottom of the lattice: once a value has
/// been observed at a path, the shape there is never `Unknown` again.
pub proof fn lemma_never_unknown(s: Sv, v: Jv, h: Option<Hv>)
    ensures
        spec_merge(s, v, h) != Sv::Unknown,
{
    match v {
        Jv::Object(es) => {
            assert(crate::shape::props_new(es, h) is Properties);
        },
        _ => {},
    }
}

/// A tagged union only grows: when a record that carries the tag as a
/// string is merged in, every tag value already mapped stays mapped, and
/// the observed tag value is mapped afterwards.
pub proof fn lemma_discriminator_grows(
    tag: Seq<char>,
    mapping: Seq<(Seq<char>, Sv)>,
    es: Seq<(Seq<char>, Jv)>,
    h: Option<Hv>,
    y: Seq<char>,
)
    requires
        map_has(es, tag),
        map_get(es, tag) is Str,
    ensures
        spec_merge(Sv::Discriminator(tag, mapping), Jv::Object(es), h) is Discriminator,
        spec_merge(Sv::Discriminator(tag, mapping), Jv::Object(es), h)->Discriminator_0 == tag,
        map_has(mapping, y) ==> map_has(
            spec_merge(Sv::Discriminator(tag, mapping), Jv::Object(es), h)->Discriminator_1,
            y,
        ),
        map_has(
            spec_merge(Sv::Discriminator(tag, mapping), Jv::Object(es), h)->Discriminator_1,
            map_get(es, tag)->Str_0,
        ),
{
    let tv = map_get(es, tag)->Str_0;
    let merged = spec_merge(
        if map_has(mapping, tv) {
            map_get(mapping, tv)
        } else {
            Sv::Unknown
        },
        Jv::Object(remove_key(es, tag)),
        h,
    );
    lemma_map_put_keys(mapping, tv, merged, y);
    lemma_map_put_keys(mapping, tv, merged, tv);
}

/// Monotonic key-set law: folding record values, with no hints, from
/// `Unknown` yields a record shape whose required keys are exactly the
/// keys present in every record, and whose known keys (required or
/// optional) are exactly the keys present in some record.  Both sides
/// quantify symmetrically over the records, so the outcome does not
/// depend on the order in which they were presented.
pub proof fn lemma_key_set_law(vs: Seq<Jv>, x: Seq<char>)
    requires
        vs.len() > 0,
        forall|i: int| 0 <= i < vs.len() ==> vs[i] is Object,
    ensures
        fold_merge(Sv::Unknown, vs, Option::None) is Properties,
        map_has(fold_merge(Sv::Unknown, vs, Option::None)->Properties_0, x) <==> (forall|i: int|
            0 <= i < vs.len() ==> map_has(obj_entries(vs[i]), x)),
        (map_has(fold_merge(Sv::Unknown, vs, Option::None)->Properties_0, x) || map_has(
            fold_merge(Sv::Unknown, vs, Option::None)->Properties_1,
            x,
        )) <==> (exists|i: int| 0 <= i < vs.len() && map_has(obj_entries(vs[i]), x)),
{
    assert(vs[0] == Jv::Object(obj_entries(vs[0])));
    lemma_first_record_keys(obj_entries(vs[0]), x);
    assert forall|i: int| 0 <= i < vs.drop_first().len() implies vs.drop_first()[i] is Object by {
        assert(vs.drop_first()[i] == vs[i + 1]);
    }
    lemma_fold_props_keys(spec_merge(Sv::Unknown, vs[0], Option::None), vs.drop_first(), x);
    assert((forall|i: int| 0 <= i < vs.len() ==> map_has(obj_entries(vs[i]), x)) == (map_has(
        obj_entries(vs[0]),
        x,
    ) && forall|i: int| 0 <= i < vs.drop_first().len() ==> map_has(
        obj_entries(vs.drop_first()[i]),
        x,
    ))) by {
        if map_has(obj_entries(vs[0]), x) && (forall|i: int|
            0 <= i < vs.drop_first().len() ==> map_has(obj_entries(vs.drop_first()[i]), x)) {
            assert forall|i: int| 0 <= i < vs.len() implies map_has(obj_entries(vs[i]), x) by {
                if i > 0 {
                    assert(vs.drop_first()[i - 1] == vs[i]);
                }
            }
        }
        if forall|i: int| 0 <= i < vs.len() ==> map_has(obj_entries(vs[i]), x) {
            assert forall|i: int| 0 <= i < vs.drop_first().len() implies map_has(
                obj_entries(vs.drop_first()[i]),
                x,
            ) by {
                assert(vs.drop_first()[i] == vs[i + 1]);
            }
        }
    }
    assert((exists|i: int| 0 <= i < vs.len() && map_has(obj_entries(vs[i]), x)) == (map_has(
        obj_entries(vs[0]),
        x,
    ) || exists|i: int|
        0 <= i < vs.drop_first().len() && map_has(obj_entries(vs.drop_first()[i]), x))) by {
        if exists|i: int| 0 <= i < vs.len() && map_has(obj_entries(vs[i]), x) {
            let i = choose|i: int| 0 <= i < vs.len() && map_has(obj_entries(vs[i]), x);
            if i > 0 {
                assert(vs.drop_first()[i - 1] == vs[i]);
            }
        }
        if exists|i: int|
            0 <= i < vs.drop_first().len() && map_has(obj_entries(vs.drop_first()[i]), x) {
            let i = choose|i: int|
                0 <= i < vs.drop_first().len() && map_has(obj_entries(vs.drop_first()[i]), x);
            assert(vs.drop_first()[i] == vs[i + 1]);
        }
    }
}

} // verus!
