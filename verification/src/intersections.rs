//! Ray-shape intersections: a parameter `t` paired with the shape that was
//! struck, an ordered collection kept sorted ascending by `t`, and the hit
//! rule: the intersection with the smallest nonnegative `t`.
use crate::frac::{feq, fle, flt, fzero, lemma_order_trans};
use crate::scalar::Scalar;
use crate::sphere::Sphere;
use vstd::prelude::*;
use vstd::multiset::Multiset;
use vstd::seq_lib::to_multiset_insert;

verus! {

/// The closed set of shapes a ray can strike.
#[derive(Debug)]
pub enum Intersectable {
    Sphere(Sphere),
}

impl Intersectable {
    /// Well-formed: the carried shape is well-formed.
    pub open spec fn wf(self) -> bool {
        match self {
            Intersectable::Sphere(s) => s.wf(),
        }
    }
}

/// A ray parameter paired with the shape it strikes there.
#[derive(Debug)]
pub struct Intersection {
    pub t: Scalar,
    pub intersectable: Intersectable,
}

impl Intersection {
    /// Well-formed: the parameter and the shape are well-formed.
    pub open spec fn wf(self) -> bool {
        self.t.wf() && self.intersectable.wf()
    }

    /// An intersection from its parameter and shape.
    pub fn new(t: Scalar, intersectable: Intersectable) -> (r: Intersection)
        requires
            t.wf(),
            intersectable.wf(),
        ensures
            r.wf(),
            r.t == t,
            r.intersectable == intersectable,
    {
        Intersection { t, intersectable }
    }
}

/// Ascending order on the stored parameters.
pub open spec fn sorted_by_t(s: Seq<Intersection>) -> bool {
    forall|i: int, j: int| 0 <= i < j < s.len() ==> fle(#[trigger] s[i].t@, #[trigger] s[j].t@)
}

/// An ordered collection of intersections, always sorted ascending by `t`.
pub struct Intersections {
    pub data: Vec<Intersection>,
}

impl Intersections {
    /// Well-formed: every element is well-formed and the order is ascending.
    pub open spec fn wf(self) -> bool {
        &&& forall|k: int| 0 <= k < self.data@.len() ==> (#[trigger] self.data@[k]).wf()
        &&& sorted_by_t(self.data@)
    }

    /// Builds the collection from intersections in any order; the result holds
    /// the same intersections, sorted ascending by `t`. The relative order of
    /// intersections with equal `t` is not specified.
    pub fn new(intersections: Vec<Intersection>) -> (r: Intersections)
        requires
            forall|k: int|
                0 <= k < intersections@.len() ==> (#[trigger] intersections@[k]).wf(),
        ensures
            r.wf(),
            r.data@.to_multiset() == intersections@.to_multiset(),
            r.data@.len() == intersections@.len(),
    {
        let mut rest = intersections;
        let mut out: Vec<Intersection> = Vec::new();
        proof {
            broadcast use vstd::multiset::group_multiset_axioms;

            out@.to_multiset_ensures();
            rest@.to_multiset_ensures();
            vstd::multiset::lemma_multiset_empty_len(out@.to_multiset());
            assert(out@.to_multiset().add(rest@.to_multiset()) =~= intersections@.to_multiset());
        }
        while rest.len() > 0
            invariant
                forall|k: int| 0 <= k < rest@.len() ==> (#[trigger] rest@[k]).wf(),
                forall|k: int| 0 <= k < out@.len() ==> (#[trigger] out@[k]).wf(),
                sorted_by_t(out@),
                out@.to_multiset().add(rest@.to_multiset()) == intersections@.to_multiset(),
                out@.len() + rest@.len() == intersections@.len(),
            decreases rest@.len(),
        {
            let ghost old_rest = rest@;
            let ghost old_out = out@;
            let item = rest.remove(0);
            proof {
                broadcast use vstd::multiset::group_multiset_axioms;

                old_rest.to_multiset_ensures();
                assert(old_rest.contains(item));
                assert(rest@ == old_rest.remove(0));
                assert(rest@.to_multiset() == old_rest.to_multiset().remove(item));
            }
            let mut k: usize = 0;
            while k < out.len() && out[k].t.le(&item.t)
                invariant
                    k <= out@.len(),
                    forall|u: int| 0 <= u < k as int ==> fle(#[trigger] out@[u].t@, item.t@),
                    sorted_by_t(out@),
                    forall|u: int| 0 <= u < out@.len() ==> (#[trigger] out@[u]).wf(),
                    item.wf(),
                decreases out@.len() - k,
            {
                k = k + 1;
            }
            out.insert(k, item);
            proof {
                broadcast use vstd::multiset::group_multiset_axioms;

                old_out.insert_ensures(k as int, item);
                to_multiset_insert(old_out, k as int, item);
                assert(out@.to_multiset().add(rest@.to_multiset()) =~= intersections@.to_multiset());
                assert forall|i: int, j: int| 0 <= i < j < out@.len() implies fle(
                    #[trigger] out@[i].t@,
                    #[trigger] out@[j].t@,
                ) by {
                    if i == k as int {
                        // item before a shifted tail element: the old element at
                        // position k is not below item, and the tail is sorted.
                        assert(out@[j] == old_out[j - 1]);
                        assert(!fle(old_out[k as int].t@, item.t@));
                        assert(flt(item.t@, old_out[k as int].t@));
                        if j - 1 > k as int {
                            assert(fle(old_out[k as int].t@, old_out[j - 1].t@));
                        }
                        lemma_order_trans(item.t@, old_out[k as int].t@, old_out[j - 1].t@);
                    } else if j == k as int {
                        assert(out@[i] == old_out[i]);
                        assert(fle(old_out[i].t@, item.t@));
                    } else if i < k as int && j > k as int {
                        assert(out@[i] == old_out[i]);
                        assert(out@[j] == old_out[j - 1]);
                        if j - 1 == k as int {
                            assert(fle(out@[i].t@, item.t@));
                            assert(flt(item.t@, old_out[k as int].t@));
                        }
                    } else if j < k as int {
                        assert(out@[i] == old_out[i] && out@[j] == old_out[j]);
                    } else {
                        assert(out@[i] == old_out[i - 1] && out@[j] == old_out[j - 1]);
                    }
                }
            }
        }
        proof {
            broadcast use vstd::multiset::group_multiset_axioms;

            rest@.to_multiset_ensures();
            out@.to_multiset_ensures();
            intersections@.to_multiset_ensures();
            vstd::multiset::lemma_multiset_empty_len(rest@.to_multiset());
            assert(out@.to_multiset() =~= intersections@.to_multiset());
        }
        Intersections { data: out }
    }

    /// How many intersections the collection holds.
    pub fn count(&self) -> (r: usize)
        ensures
            r == self.data@.len(),
    {
        self.data.len()
    }

    /// The intersection at a position of the ascending order.
    pub fn at(&self, i: usize) -> (r: &Intersection)
        requires
            i < self.data@.len(),
        ensures
            *r == self.data@[i as int],
    {
        &self.data[i]
    }

    /// The hit: the intersection with the smallest nonnegative `t`, or none
    /// when every `t` is negative. Because the collection is sorted, this is
    /// the first entry with `t >= 0`.
    pub fn hit(&self) -> (r: Option<&Intersection>)
        requires
            self.wf(),
        ensures
            match r {
                Some(x) => {
                    &&& exists|k: int| 0 <= k < self.data@.len() && *x == #[trigger] self.data@[k]
                    &&& fle(fzero(), x.t@)
                    &&& forall|k: int|
                        0 <= k < self.data@.len() && fle(fzero(), (#[trigger] self.data@[k]).t@)
                            ==> fle(x.t@, self.data@[k].t@)
                },
                None => forall|k: int|
                    0 <= k < self.data@.len() ==> flt((#[trigger] self.data@[k]).t@, fzero()),
            },
    {
        let mut k: usize = 0;
        while k < self.data.len()
            invariant
                self.wf(),
                k <= self.data@.len(),
                forall|u: int| 0 <= u < k as int ==> flt((#[trigger] self.data@[u]).t@, fzero()),
            decreases self.data@.len() - k,
        {
            let x = &self.data[k];
            if x.t.is_nonneg() {
                proof {
                    assert(fle(fzero(), x.t@));
                    assert forall|u: int|
                        0 <= u < self.data@.len() && fle(
                            fzero(),
                            (#[trigger] self.data@[u]).t@,
                        ) implies fle(x.t@, self.data@[u].t@) by {
                        if u < k as int {
                            assert(flt(self.data@[u].t@, fzero()));
                        } else if u > k as int {
                            assert(fle(self.data@[k as int].t@, self.data@[u].t@));
                        }
                    }
                }
                return Some(x);
            }
            proof {
                assert(x.t@.n < 0);
                assert(flt(x.t@, fzero()));
            }
            k = k + 1;
        }
        None
    }
}

/// A sequence with the same contents as a two-element sequence is that pair,
/// in one of the two orders.
pub proof fn lemma_two_perm(s: Seq<Intersection>, a: Intersection, b: Intersection)
    requires
        s.to_multiset() == seq![a, b].to_multiset(),
    ensures
        s.len() == 2,
        (s[0] == a && s[1] == b) || (s[0] == b && s[1] == a),
{
    broadcast use vstd::multiset::group_multiset_axioms;

    let pair = seq![a, b];
    let e = Seq::<Intersection>::empty();
    s.to_multiset_ensures();
    pair.to_multiset_ensures();
    e.to_multiset_ensures();
    vstd::multiset::lemma_multiset_empty_len(e.to_multiset());
    assert(e.push(a) =~= seq![a]);
    e.push(a).to_multiset_ensures();
    assert(seq![a].push(b) =~= pair);
    assert(pair.to_multiset() == Multiset::<Intersection>::empty().insert(a).insert(b));
    assert(s.len() == 2);
    assert(e.push(s[0]) =~= seq![s[0]]);
    e.push(s[0]).to_multiset_ensures();
    assert(seq![s[0]].push(s[1]) =~= s);
    assert(s.to_multiset() == Multiset::<Intersection>::empty().insert(s[0]).insert(s[1]));
    let m = Multiset::<Intersection>::empty().insert(a).insert(b);
    assert(m.count(a) >= 1 && m.count(b) >= 1);
    assert(s.to_multiset().count(s[0]) >= 1 && s.to_multiset().count(s[1]) >= 1);
    if s[0] == a {
        if a == b {
            assert(m.count(a) == 2);
            assert(s[1] == a);
        } else {
            assert(m.count(b) == 1);
            assert(s[1] == b);
        }
    } else {
        assert(s[0] == b);
        assert(s[1] == a);
    }
}

/// Two shapes denote the same values.
pub open spec fn intersectable_eqv(a: Intersectable, b: Intersectable) -> bool {
    match (a, b) {
        (Intersectable::Sphere(x), Intersectable::Sphere(y)) => crate::sphere::sphere_eqv(x, y),
    }
}

impl PartialEq for Intersectable {
    /// Shapes are equal when they are the same kind and their shapes compare
    /// equal by value.
    fn eq(&self, other: &Intersectable) -> (r: bool) {
        match (self, other) {
            (Intersectable::Sphere(a), Intersectable::Sphere(b)) => a == b,
        }
    }
}

impl vstd::std_specs::cmp::PartialEqSpecImpl for Intersectable {
    open spec fn obeys_eq_spec() -> bool {
        true
    }

    open spec fn eq_spec(&self, other: &Intersectable) -> bool {
        intersectable_eqv(*self, *other)
    }
}

impl PartialEq for Intersection {
    /// Intersections are equal when the parameters and the shapes compare
    /// equal by value.
    fn eq(&self, other: &Intersection) -> (r: bool) {
        self.t == other.t && self.intersectable == other.intersectable
    }
}

impl vstd::std_specs::cmp::PartialEqSpecImpl for Intersection {
    open spec fn obeys_eq_spec() -> bool {
        true
    }

    open spec fn eq_spec(&self, other: &Intersection) -> bool {
        feq(self.t@, other.t@) && intersectable_eqv(self.intersectable, other.intersectable)
    }
}

} // verus!
