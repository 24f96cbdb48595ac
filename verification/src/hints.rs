//! The hint tree: a read-only side structure that mirrors the path shape of
//! the observed values and biases how ambiguous record-shaped values are
//! classified at chosen paths.

use vstd::prelude::*;
use crate::value::{map_get, map_has, map_put};

verus! {

/// A hint node.  `values` asks that a record at this path be treated as a
/// homogeneous key-to-value map; `discriminator_tag` asks that it be treated
/// as a tagged union keyed by that field.  Children are keyed by path
/// segment; the segment `-` addresses every element of a list.
#[derive(Debug)]
pub struct InferHints {
    pub values: bool,
    pub discriminator_tag: Option<String>,
    pub children: Vec<(String, InferHints)>,
}

/// The mathematical model of a hint node.
#[verifier::ext_equal]
pub struct Hv {
    pub values: bool,
    pub tag: Option<Seq<char>>,
    pub children: Seq<(Seq<char>, Hv)>,
}

impl InferHints {
    /// The model of this hint node.
    pub open spec fn hv(self) -> Hv
        decreases self,
    {
        Hv {
            values: self.values,
            tag: match self.discriminator_tag {
                Option::Some(t) => Option::Some(t@),
                Option::None => Option::None,
            },
            children: InferHints::hv_children(self.children@),
        }
    }

    /// The models of a sequence of child hint entries.
    pub open spec fn hv_children(children: Seq<(String, InferHints)>) -> Seq<(Seq<char>, Hv)>
        decreases children,
    {
        if children.len() == 0 {
            Seq::empty()
        } else {
            seq![(children[0].0@, children[0].1.hv())] + InferHints::hv_children(
                children.drop_first(),
            )
        }
    }
}

/// The hint node with no directive and no children.
pub open spec fn empty_hv() -> Hv {
    Hv { values: false, tag: Option::None, children: Seq::empty() }
}

/// The model of an optional borrowed hint node.
pub open spec fn opt_hv(hints: Option<&InferHints>) -> Option<Hv> {
    match hints {
        Option::Some(h) => Option::Some(h.hv()),
        Option::None => Option::None,
    }
}

/// Whether the hint asks for the homogeneous map form.
pub open spec fn hint_values(h: Option<Hv>) -> bool {
    match h {
        Option::Some(hh) => hh.values,
        Option::None => false,
    }
}

/// The tag field the hint asks to discriminate on, if any.
pub open spec fn hint_tag(h: Option<Hv>) -> Option<Seq<char>> {
    match h {
        Option::Some(hh) => hh.tag,
        Option::None => Option::None,
    }
}

/// The hint node one path segment below `h`.
pub open spec fn hint_child(h: Option<Hv>, k: Seq<char>) -> Option<Hv> {
    match h {
        Option::Some(hh) => if map_has(hh.children, k) {
            Option::Some(map_get(hh.children, k))
        } else {
            Option::None
        },
        Option::None => Option::None,
    }
}

/// The model of a hint path: each segment as a character sequence.
pub open spec fn path_view(path: Seq<String>) -> Seq<Seq<char>> {
    Seq::new(path.len(), |i: int| path[i]@)
}

/// The hint tree after a values hint has been recorded at `path`:
/// the node at the end of the path gets `values`, and the nodes along the
/// path are created where missing.
pub open spec fn spec_add_values(h: Hv, path: Seq<Seq<char>>) -> Hv
    decreases path.len(),
{
    if path.len() == 0 {
        Hv { values: true, ..h }
    } else {
        let child = if map_has(h.children, path[0]) {
            map_get(h.children, path[0])
        } else {
            empty_hv()
        };
        Hv {
            children: map_put(h.children, path[0], spec_add_values(child, path.drop_first())),
            ..h
        }
    }
}

/// The hint tree after a discriminator hint with tag `tag` has been
/// recorded at `path`.
pub open spec fn spec_add_discriminator(h: Hv, path: Seq<Seq<char>>, tag: Seq<char>) -> Hv
    decreases path.len(),
{
    if path.len() == 0 {
        Hv { tag: Option::Some(tag), ..h }
    } else {
        let child = if map_has(h.children, path[0]) {
            map_get(h.children, path[0])
        } else {
            empty_hv()
        };
        Hv {
            children: map_put(
                h.children,
                path[0],
                spec_add_discriminator(child, path.drop_first(), tag),
            ),
            ..h
        }
    }
}

/// The pointwise model of a child list.
pub proof fn lemma_hv_children(children: Seq<(String, InferHints)>)
    ensures
        InferHints::hv_children(children).len() == children.len(),
        forall|i: int| 0 <= i < children.len() ==> InferHints::hv_children(children)[i] == (
            children[i].0@,
            children[i].1.hv(),
        ),
    decreases children.len(),
{
    if children.len() > 0 {
        lemma_hv_children(children.drop_first());
        assert forall|i: int| 0 <= i < children.len() implies InferHints::hv_children(children)[i]
            == (children[i].0@, children[i].1.hv()) by {
            if i > 0 {
                assert(children.drop_first()[i - 1] == children[i]);
            }
        }
    }
}

/// The value of the first entry keyed `k`, located by its index.
pub proof fn lemma_map_get_at<T>(entries: Seq<(Seq<char>, T)>, k: Seq<char>, i: int)
    requires
        0 <= i < entries.len(),
        entries[i].0 == k,
        forall|j: int| 0 <= j < i ==> entries[j].0 != k,
    ensures
        map_has(entries, k),
        map_get(entries, k) == entries[i].1,
    decreases i,
{
    if i > 0 {
        assert forall|j: int| 0 <= j < i - 1 implies entries.drop_first()[j].0 != k by {
            assert(entries.drop_first()[j] == entries[j + 1]);
        }
        assert(entries.drop_first()[i - 1] == entries[i]);
        lemma_map_get_at(entries.drop_first(), k, i - 1);
    }
}

/// A keyed update lands on the first entry with the key.
pub proof fn lemma_map_put_at<T>(entries: Seq<(Seq<char>, T)>, k: Seq<char>, x: T, i: int)
    requires
        0 <= i < entries.len(),
        entries[i].0 == k,
        forall|j: int| 0 <= j < i ==> entries[j].0 != k,
    ensures
        map_put(entries, k, x) =~= entries.update(i, (entries[i].0, x)),
    decreases i,
{
    if i > 0 {
        assert forall|j: int| 0 <= j < i - 1 implies entries.drop_first()[j].0 != k by {
            assert(entries.drop_first()[j] == entries[j + 1]);
        }
        assert(entries.drop_first()[i - 1] == entries[i]);
        lemma_map_put_at(entries.drop_first(), k, x, i - 1);
        assert(entries.update(i, (entries[i].0, x)).drop_first() =~= entries.drop_first().update(
            i - 1,
            (entries[i].0, x),
        ));
    }
}

/// A keyed update with an absent key appends the entry.
pub proof fn lemma_map_put_absent<T>(entries: Seq<(Seq<char>, T)>, k: Seq<char>, x: T)
    requires
        !map_has(entries, k),
    ensures
        map_put(entries, k, x) =~= entries.push((k, x)),
    decreases entries.len(),
{
    if entries.len() > 0 {
        assert(entries[0].0 != k);
        assert forall|j: int| 0 <= j < entries.drop_first().len() implies entries.drop_first()[j].0
            != k by {
            assert(entries.drop_first()[j] == entries[j + 1]);
        }
        lemma_map_put_absent(entries.drop_first(), k, x);
    }
}

/// Looks up the hint node one path segment below `hints`.
pub fn child_hint<'a>(hints: Option<&'a InferHints>, k: &str) -> (r: Option<&'a InferHints>)
    ensures
        opt_hv(r) == hint_child(opt_hv(hints), k@),
{
    match hints {
        Option::None => Option::None,
        Option::Some(h) => {
            proof {
                lemma_hv_children(h.children@);
            }
            let ghost cv = InferHints::hv_children(h.children@);
            let n = h.children.len();
            let mut i: usize = 0;
            while i < n
                invariant
                    hints == Option::Some(h),
                    n == h.children@.len(),
                    i <= n,
                    cv == InferHints::hv_children(h.children@),
                    cv.len() == n,
                    forall|j: int| 0 <= j < n ==> cv[j] == (
                        h.children@[j].0@,
                        h.children@[j].1.hv(),
                    ),
                    forall|j: int| 0 <= j < i ==> cv[j].0 != k@,
                decreases n - i,
            {
                let entry = &h.children[i];
                if str_eq(entry.0.as_str(), k) {
                    proof {
                        lemma_map_get_at(cv, k@, i as int);
                        assert(hint_child(opt_hv(hints), k@) == Option::Some(cv[i as int].1));
                    }
                    return Option::Some(&entry.1);
                }
                i = i + 1;
            }
            assert(!map_has(h.hv().children, k@));
            Option::None
        },
    }
}

/// Relies on `str`'s `PartialEq`: string slices compare equal exactly when
/// their character sequences do.
#[verifier::external_body]
pub(crate) fn str_eq(a: &str, b: &str) -> (r: bool)
    ensures
        r == (a@ == b@),
{
    a == b
}

impl InferHints {
    /// Makes the empty hint tree: no directives anywhere.
    pub fn new() -> (r: InferHints)
        ensures
            r.hv() == empty_hv(),
    {
        let r = InferHints {
            values: false,
            discriminator_tag: Option::None,
            children: Vec::new(),
        };
        proof {
            assert(r.hv().children =~= empty_hv().children);
            assert(r.hv() =~= empty_hv());
        }
        r
    }

    /// Records a values hint at `path` below this node.
    pub fn add_values_hint(&mut self, path: &[String])
        ensures
            final(self).hv() == spec_add_values(old(self).hv(), path_view(path@)),
        decreases path@.len(),
    {
        if path.len() == 0 {
            self.values = true;
            proof {
                assert(self.hv() =~= spec_add_values(old(self).hv(), path_view(path@)));
            }
        } else {
            let ghost h0 = self.hv();
            let ghost m0 = InferHints::hv_children(self.children@);
            let seg = vstd::slice::slice_index_get(path, 0);
            let idx = self.child_index(seg);
            let ghost ca = self.children@;
            let ghost m1 = InferHints::hv_children(ca);
            let rest = vstd::slice::slice_subrange(path, 1, path.len());
            proof {
                assert(path_view(rest@) =~= path_view(path@).drop_first());
                lemma_hv_children(ca);
            }
            let mut entry = self.children.remove(idx);
            let ghost child0 = entry.1.hv();
            entry.1.add_values_hint(rest);
            self.children.insert(idx, entry);
            proof {
                let ghost pv = path_view(path@);
                let ghost newhv = spec_add_values(child0, pv.drop_first());
                assert(self.children@ =~= ca.update(idx as int, (ca[idx as int].0, entry.1)));
                lemma_hv_children(self.children@);
                assert(InferHints::hv_children(self.children@) =~= m1.update(
                    idx as int,
                    (pv[0], newhv),
                ));
                if map_has(m0, pv[0]) {
                    lemma_map_get_at(m0, pv[0], idx as int);
                    lemma_map_put_at(m0, pv[0], newhv, idx as int);
                } else {
                    lemma_map_put_absent(m0, pv[0], newhv);
                    assert(m1.update(idx as int, (pv[0], newhv)) =~= m0.push((pv[0], newhv)));
                }
                assert(self.hv() =~= spec_add_values(h0, pv));
            }
        }
    }

    /// Records a discriminator hint with tag `tag` at `path` below this node.
    pub fn add_discriminator_hint(&mut self, path: &[String], tag: String)
        ensures
            final(self).hv() == spec_add_discriminator(old(self).hv(), path_view(path@), tag@),
        decreases path@.len(),
    {
        if path.len() == 0 {
            self.discriminator_tag = Option::Some(tag);
            proof {
                assert(self.hv() =~= spec_add_discriminator(
                    old(self).hv(),
                    path_view(path@),
                    tag@,
                ));
            }
        } else {
            let ghost h0 = self.hv();
            let ghost m0 = InferHints::hv_children(self.children@);
            let seg = vstd::slice::slice_index_get(path, 0);
            let idx = self.child_index(seg);
            let ghost ca = self.children@;
            let ghost m1 = InferHints::hv_children(ca);
            let rest = vstd::slice::slice_subrange(path, 1, path.len());
            proof {
                assert(path_view(rest@) =~= path_view(path@).drop_first());
                lemma_hv_children(ca);
            }
            let mut entry = self.children.remove(idx);
            let ghost child0 = entry.1.hv();
            entry.1.add_discriminator_hint(rest, tag);
            self.children.insert(idx, entry);
            proof {
                let ghost pv = path_view(path@);
                let ghost newhv = spec_add_discriminator(child0, pv.drop_first(), tag@);
                assert(self.children@ =~= ca.update(idx as int, (ca[idx as int].0, entry.1)));
                lemma_hv_children(self.children@);
                assert(InferHints::hv_children(self.children@) =~= m1.update(
                    idx as int,
                    (pv[0], newhv),
                ));
                if map_has(m0, pv[0]) {
                    lemma_map_get_at(m0, pv[0], idx as int);
                    lemma_map_put_at(m0, pv[0], newhv, idx as int);
                } else {
                    lemma_map_put_absent(m0, pv[0], newhv);
                    assert(m1.update(idx as int, (pv[0], newhv)) =~= m0.push((pv[0], newhv)));
                }
                assert(self.hv() =~= spec_add_discriminator(h0, pv, tag@));
            }
        }
    }

    /// Finds the child slot for segment `seg`, creating an empty child at
    /// the end when none exists yet; returns its index.
    fn child_index(&mut self, seg: &String) -> (idx: usize)
        ensures
            idx < final(self).children@.len(),
            final(self).values == old(self).values,
            final(self).discriminator_tag == old(self).discriminator_tag,
            InferHints::hv_children(final(self).children@)[idx as int].0 == seg@,
            InferHints::hv_children(final(self).children@)[idx as int].1 == final(self).children@[
                idx as int
            ].1.hv(),
            final(self).children@[idx as int].0@ == seg@,
            forall|j: int|
                0 <= j < idx ==> InferHints::hv_children(final(self).children@)[j].0 != seg@,
            map_has(InferHints::hv_children(old(self).children@), seg@) ==> final(self).children@
                == old(self).children@,
            !map_has(InferHints::hv_children(old(self).children@), seg@) ==> (idx == old(
                self,
            ).children@.len() && InferHints::hv_children(final(self).children@)
                == InferHints::hv_children(old(self).children@).push((seg@, empty_hv()))
                && InferHints::hv_children(final(self).children@)[idx as int].1 == empty_hv()),
    {
        proof {
            lemma_hv_children(self.children@);
        }
        let ghost m0 = InferHints::hv_children(self.children@);
        let n = self.children.len();
        let mut i: usize = 0;
        while i < n
            invariant
                n == self.children@.len(),
                i <= n,
                m0 == InferHints::hv_children(self.children@),
                m0.len() == n,
                forall|j: int| 0 <= j < n ==> m0[j] == (
                    self.children@[j].0@,
                    self.children@[j].1.hv(),
                ),
                forall|j: int| 0 <= j < i ==> m0[j].0 != seg@,
            decreases n - i,
        {
            let entry = &self.children[i];
            if str_eq(entry.0.as_str(), seg.as_str()) {
                return i;
            }
            i = i + 1;
        }
        assert(!map_has(m0, seg@));
        let fresh = InferHints {
            values: false,
            discriminator_tag: Option::None,
            children: Vec::new(),
        };
        proof {
            assert(fresh.hv().children =~= empty_hv().children);
            assert(fresh.hv() =~= empty_hv());
        }
        self.children.push((seg.clone(), fresh));
        proof {
            lemma_hv_children(self.children@);
            assert(InferHints::hv_children(self.children@) =~= m0.push((seg@, empty_hv())));
        }
        n
    }
}

} // verus!
