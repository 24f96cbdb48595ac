//! The shape exporter: the one-way step from an inferred shape to the
//! final schema document.

use vstd::prelude::*;
use crate::shape::{lemma_sv_entries, InferredSchema, Sv};

verus! {

/// An exported schema document: one form per node.  `Empty` accepts
/// anything, so a shape that never saw data exports the same as one that
/// generalized to the top.
#[derive(Debug)]
pub enum SchemaForm {
    /// Accepts all data.
    Empty,
    /// A boolean.
    Boolean,
    /// A number.
    Number,
    /// A string.
    Str,
    /// An RFC 3339 timestamp string.
    Timestamp,
    /// A list whose elements all match the nested form.
    Elements(Box<SchemaForm>),
    /// A record: required properties, optional properties, and whether any
    /// property is required.
    Properties(Vec<(String, SchemaForm)>, Vec<(String, SchemaForm)>, bool),
    /// A record whose values all match the nested form.
    Values(Box<SchemaForm>),
    /// A tagged union: the tag field and one form per tag value.
    Discriminator(String, Vec<(String, SchemaForm)>),
}

/// The mathematical model of a schema document.
#[verifier::ext_equal]
pub enum Fv {
    Empty,
    Boolean,
    Number,
    Str,
    Timestamp,
    Elements(Box<Fv>),
    Properties(Seq<(Seq<char>, Fv)>, Seq<(Seq<char>, Fv)>, bool),
    Values(Box<Fv>),
    Discriminator(Seq<char>, Seq<(Seq<char>, Fv)>),
}

impl SchemaForm {
    /// The model of this document.
    pub open spec fn fv(self) -> Fv
        decreases self,
    {
        match self {
            SchemaForm::Empty => Fv::Empty,
            SchemaForm::Boolean => Fv::Boolean,
            SchemaForm::Number => Fv::Number,
            SchemaForm::Str => Fv::Str,
            SchemaForm::Timestamp => Fv::Timestamp,
            SchemaForm::Elements(sub) => Fv::Elements(Box::new(sub.fv())),
            SchemaForm::Properties(req, opt, has_req) => Fv::Properties(
                SchemaForm::fv_entries(req@),
                SchemaForm::fv_entries(opt@),
                has_req,
            ),
            SchemaForm::Values(sub) => Fv::Values(Box::new(sub.fv())),
            SchemaForm::Discriminator(tag, mapping) => Fv::Discriminator(
                tag@,
                SchemaForm::fv_entries(mapping@),
            ),
        }
    }

    /// The models of a sequence of keyed document entries.
    pub open spec fn fv_entries(entries: Seq<(String, SchemaForm)>) -> Seq<(Seq<char>, Fv)>
        decreases entries,
    {
        if entries.len() == 0 {
            Seq::empty()
        } else {
            seq![(entries[0].0@, entries[0].1.fv())] + SchemaForm::fv_entries(
                entries.drop_first(),
            )
        }
    }
}

/// The pointwise model of a keyed document entry list.
pub proof fn lemma_fv_entries(entries: Seq<(String, SchemaForm)>)
    ensures
        SchemaForm::fv_entries(entries).len() == entries.len(),
        forall|i: int| 0 <= i < entries.len() ==> SchemaForm::fv_entries(entries)[i] == (
            entries[i].0@,
            entries[i].1.fv(),
        ),
    decreases entries.len(),
{
    if entries.len() > 0 {
        lemma_fv_entries(entries.drop_first());
        assert forall|i: int| 0 <= i < entries.len() implies SchemaForm::fv_entries(entries)[i]
            == (entries[i].0@, entries[i].1.fv()) by {
            if i > 0 {
                assert(entries.drop_first()[i - 1] == entries[i]);
            }
        }
    }
}

/// The size of a shape: every node and entry counts one.  It is the
/// termination measure of the export.
pub open spec fn ssize(s: Sv) -> nat
    decreases s,
{
    match s {
        Sv::Array(sub) => 1 + ssize(*sub),
        Sv::Values(sub) => 1 + ssize(*sub),
        Sv::Properties(req, opt) => 1 + sentries_size(req) + sentries_size(opt),
        Sv::Discriminator(_, mapping) => 1 + sentries_size(mapping),
        _ => 1,
    }
}

/// The summed size of a sequence of shape entries.
pub open spec fn sentries_size(entries: Seq<(Seq<char>, Sv)>) -> nat
    decreases entries,
{
    if entries.len() == 0 {
        0
    } else {
        1 + ssize(entries[0].1) + sentries_size(entries.drop_first())
    }
}

/// An entry's shape counts strictly less than the whole entry list.
pub proof fn lemma_sentry_size(entries: Seq<(Seq<char>, Sv)>, i: int)
    requires
        0 <= i < entries.len(),
    ensures
        ssize(entries[i].1) < sentries_size(entries),
    decreases entries.len(),
{
    if i > 0 {
        lemma_sentry_size(entries.drop_first(), i - 1);
        assert(entries.drop_first()[i - 1] == entries[i]);
    }
}

/// The exported document of a shape.  `Unknown` and `Any` both export to
/// the form that accepts anything; record forms export their entries
/// verbatim, recursively.
pub open spec fn spec_export(s: Sv) -> Fv
    decreases ssize(s), 0int,
{
    match s {
        Sv::Unknown => Fv::Empty,
        Sv::Any => Fv::Empty,
        Sv::Bool => Fv::Boolean,
        Sv::Number => Fv::Number,
        Sv::Str => Fv::Str,
        Sv::Timestamp => Fv::Timestamp,
        Sv::Array(sub) => Fv::Elements(Box::new(spec_export(*sub))),
        Sv::Properties(req, opt) => Fv::Properties(
            export_entries(req),
            export_entries(opt),
            req.len() != 0,
        ),
        Sv::Values(sub) => Fv::Values(Box::new(spec_export(*sub))),
        Sv::Discriminator(tag, mapping) => Fv::Discriminator(tag, export_entries(mapping)),
    }
}

/// The exported documents of a sequence of shape entries.
pub open spec fn export_entries(entries: Seq<(Seq<char>, Sv)>) -> Seq<(Seq<char>, Fv)>
    decreases sentries_size(entries), 1int,
{
    if entries.len() == 0 {
        Seq::empty()
    } else {
        seq![(entries[0].0, spec_export(entries[0].1))] + export_entries(entries.drop_first())
    }
}

/// The exported entries, entry by entry.
pub proof fn lemma_export_entries(entries: Seq<(Seq<char>, Sv)>)
    ensures
        export_entries(entries).len() == entries.len(),
        forall|i: int| 0 <= i < entries.len() ==> export_entries(entries)[i] == (
            entries[i].0,
            spec_export(entries[i].1),
        ),
    decreases entries.len(),
{
    if entries.len() > 0 {
        lemma_export_entries(entries.drop_first());
        assert forall|i: int| 0 <= i < entries.len() implies export_entries(entries)[i] == (
            entries[i].0,
            spec_export(entries[i].1),
        ) by {
            if i > 0 {
                assert(entries.drop_first()[i - 1] == entries[i]);
            }
        }
    }
}

impl InferredSchema {
    /// Exports this shape as a schema document.  Total and one-way: every
    /// shape has a document, and an inference that never saw data exports
    /// the same as one that generalized to the top.
    pub fn into_schema(&self) -> (r: SchemaForm)
        ensures
            r.fv() == spec_export(self.sv()),
        decreases ssize(self.sv()), 0int,
    {
        match self {
            InferredSchema::Unknown => SchemaForm::Empty,
            InferredSchema::Any => SchemaForm::Empty,
            InferredSchema::Bool => SchemaForm::Boolean,
            InferredSchema::Number => SchemaForm::Number,
            InferredSchema::Timestamp => SchemaForm::Timestamp,
            InferredSchema::Str => SchemaForm::Str,
            InferredSchema::Array(sub) => SchemaForm::Elements(Box::new(sub.into_schema())),
            InferredSchema::Properties(req, opt) => {
                proof {
                    lemma_sv_entries(req@);
                }
                let has_req = req.len() > 0;
                let req_out = export_shape_entries(req);
                let opt_out = export_shape_entries(opt);
                SchemaForm::Properties(req_out, opt_out, has_req)
            },
            InferredSchema::Values(sub) => SchemaForm::Values(Box::new(sub.into_schema())),
            InferredSchema::Discriminator(tag, mapping) => SchemaForm::Discriminator(
                tag.clone(),
                export_shape_entries(mapping),
            ),
        }
    }
}

/// Exports each entry of a keyed shape list.
fn export_shape_entries(entries: &Vec<(String, InferredSchema)>) -> (r: Vec<(String, SchemaForm)>)
    ensures
        SchemaForm::fv_entries(r@) == export_entries(InferredSchema::sv_entries(entries@)),
    decreases sentries_size(InferredSchema::sv_entries(entries@)), 1int,
{
    let ghost sv = InferredSchema::sv_entries(entries@);
    proof {
        lemma_sv_entries(entries@);
    }
    let mut out: Vec<(String, SchemaForm)> = Vec::new();
    let n = entries.len();
    let mut i: usize = 0;
    while i < n
        invariant
            n == entries@.len(),
            i <= n,
            sv == InferredSchema::sv_entries(entries@),
            sv.len() == n,
            forall|j: int| 0 <= j < n ==> sv[j] == (entries@[j].0@, entries@[j].1.sv()),
            out@.len() == i,
            forall|j: int| 0 <= j < i ==> out@[j].0@ == sv[j].0 && out@[j].1.fv() == spec_export(
                sv[j].1,
            ),
        decreases n - i,
    {
        proof {
            lemma_sentry_size(sv, i as int);
        }
        let e = &entries[i];
        let sub = e.1.into_schema();
        out.push((e.0.clone(), sub));
        i = i + 1;
    }
    proof {
        lemma_fv_entries(out@);
        lemma_export_entries(sv);
        assert(SchemaForm::fv_entries(out@) =~= export_entries(sv));
    }
    out
}

} // verus!
