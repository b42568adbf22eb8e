//! A surface's lobes, and the choice among them.
//!
//! A `BSDF` is an ordered list of lobes that share one shading frame. It holds
//! no geometry. To evaluate it is to add up the lobes that match a request;
//! to sample it is to pick one of the matching lobes. Which lobes those are
//! is decided here; what a lobe scatters is the lobe's own business.
use vstd::prelude::*;
use crate::bxdf::flags::{Type, DIFFUSE, REFLECTION, SPECULAR, TRANSMISSION};

verus! {

/// A single lobe of reflectance or transmission, as far as choosing among
/// lobes goes: it has a type.
pub trait BxDF {
    /// The type of the lobe, as a function of the lobe.
    spec fn type_spec(&self) -> Type;

    /// Returns the type of this lobe.
    fn get_type(&self) -> (t: Type)
        ensures
            t == self.type_spec(),
    ;

    /// Whether the lobe matches the request `t`: whether each of its flags is
    /// admitted.
    fn is_type(&self, t: Type) -> (r: bool)
        ensures
            r == self.type_spec().within(t),
    {
        let st = self.get_type();
        st.intersection(t).bits == st.bits
    }
}

/// The lobes that there are.
#[derive(Clone, Copy, Debug, PartialEq, Eq, Structural)]
pub enum BSDFType {
    /// Lambertian reflection.
    LReflection,
    /// Lambertian transmission.
    LTransmission,
    /// Rough diffuse reflection after Oren and Nayar.
    OrenNayar,
    /// Mirror reflection.
    SReflection,
    /// Refraction.
    STransmission,
    /// Mirror reflection and refraction, weighed by the Fresnel reflectance.
    SFresnel,
}

impl BxDF for BSDFType {
    open spec fn type_spec(&self) -> Type {
        match self {
            BSDFType::LReflection => Type { bits: DIFFUSE | REFLECTION },
            BSDFType::LTransmission => Type { bits: DIFFUSE | TRANSMISSION },
            BSDFType::OrenNayar => Type { bits: DIFFUSE | REFLECTION },
            BSDFType::SReflection => Type { bits: SPECULAR | REFLECTION },
            BSDFType::STransmission => Type { bits: SPECULAR | TRANSMISSION },
            BSDFType::SFresnel => Type { bits: SPECULAR | REFLECTION | TRANSMISSION },
        }
    }

    fn get_type(&self) -> (t: Type) {
        match self {
            BSDFType::LReflection => Type { bits: DIFFUSE | REFLECTION },
            BSDFType::LTransmission => Type { bits: DIFFUSE | TRANSMISSION },
            BSDFType::OrenNayar => Type { bits: DIFFUSE | REFLECTION },
            BSDFType::SReflection => Type { bits: SPECULAR | REFLECTION },
            BSDFType::STransmission => Type { bits: SPECULAR | TRANSMISSION },
            BSDFType::SFresnel => Type { bits: SPECULAR | REFLECTION | TRANSMISSION },
        }
    }
}

/// The indices, among the first `i` lobes, of those that match the request
/// `t`, in their order.
pub open spec fn matching<B: BxDF>(lobes: Seq<B>, t: Type, i: int) -> Seq<int>
    decreases i,
{
    if i <= 0 {
        Seq::empty()
    } else if lobes[i - 1].type_spec().within(t) {
        matching(lobes, t, i - 1).push(i - 1)
    } else {
        matching(lobes, t, i - 1)
    }
}

/// The matching indices are indices of lobes that match, in rising order, and
/// no matching lobe is left out.
pub proof fn lemma_matching<B: BxDF>(lobes: Seq<B>, t: Type, i: int)
    requires
        0 <= i <= lobes.len(),
    ensures
        matching(lobes, t, i).len() <= i,
        forall|k: int|
            0 <= k < matching(lobes, t, i).len() ==> {
                let j = #[trigger] matching(lobes, t, i)[k];
                0 <= j < i && lobes[j].type_spec().within(t)
            },
        forall|a: int, b: int|
            0 <= a < b < matching(lobes, t, i).len() ==> matching(lobes, t, i)[a] < matching(
                lobes,
                t,
                i,
            )[b],
        forall|j: int|
            0 <= j < i && (#[trigger] lobes[j]).type_spec().within(t) ==> matching(
                lobes,
                t,
                i,
            ).contains(j),
    decreases i,
{
    if i > 0 {
        lemma_matching(lobes, t, i - 1);
        let prev = matching(lobes, t, i - 1);
        let cur = matching(lobes, t, i);
        assert forall|j: int| 0 <= j < i && (#[trigger] lobes[j]).type_spec().within(
            t,
        ) implies cur.contains(j) by {
            if j < i - 1 {
                let k = choose|k: int| 0 <= k < prev.len() && prev[k] == j;
                assert(cur[k] == j);
            } else {
                assert(cur[cur.len() - 1] == j);
            }
        }
    }
}

/// An ordered collection of lobes.
pub struct BSDF<B: BxDF> {
    pub bxdfs: Vec<B>,
}

impl<B: BxDF> BSDF<B> {
    /// The indices of the lobes that match the request `t`.
    pub open spec fn matching_spec(&self, t: Type) -> Seq<int> {
        matching(self.bxdfs@, t, self.bxdfs@.len() as int)
    }

    /// A surface without lobes: it scatters nothing.
    pub fn empty() -> (s: Self)
        ensures
            s.bxdfs@.len() == 0,
    {
        BSDF { bxdfs: Vec::new() }
    }

    /// A surface with these lobes, in this order.
    pub fn new(bxdfs: Vec<B>) -> (s: Self)
        ensures
            s.bxdfs == bxdfs,
    {
        BSDF { bxdfs }
    }

    /// The number of lobes.
    pub fn size(&self) -> (n: usize)
        ensures
            n == self.bxdfs@.len(),
    {
        self.bxdfs.len()
    }

    /// Whether there is no lobe.
    pub fn is_empty(&self) -> (r: bool)
        ensures
            r == (self.bxdfs@.len() == 0),
    {
        self.size() == 0
    }

    /// The number of lobes that match the request `t`.
    pub fn num_types(&self, t: Type) -> (n: usize)
        ensures
            n == self.matching_spec(t).len(),
    {
        let mut n: usize = 0;
        let mut i: usize = 0;
        while i < self.bxdfs.len()
            invariant
                i <= self.bxdfs@.len(),
                n == matching(self.bxdfs@, t, i as int).len(),
                n <= i,
            decreases self.bxdfs@.len() - i,
        {
            if self.bxdfs[i].is_type(t) {
                n += 1;
            }
            i += 1;
        }
        n
    }

    /// The positions in the list of the lobes that match the request `t`, in
    /// their order.
    pub fn matching_lobes(&self, t: Type) -> (r: Vec<usize>)
        ensures
            r@.len() == self.matching_spec(t).len(),
            forall|k: int| 0 <= k < r@.len() ==> #[trigger] r@[k] == self.matching_spec(t)[k],
    {
        let mut r: Vec<usize> = Vec::new();
        let mut i: usize = 0;
        while i < self.bxdfs.len()
            invariant
                i <= self.bxdfs@.len(),
                r@.len() == matching(self.bxdfs@, t, i as int).len(),
                forall|k: int|
                    0 <= k < r@.len() ==> #[trigger] r@[k] == matching(self.bxdfs@, t, i as int)[k],
            decreases self.bxdfs@.len() - i,
        {
            if self.bxdfs[i].is_type(t) {
                r.push(i);
            }
            i += 1;
        }
        r
    }

    /// The lobe to sample: of the lobes that match the request `t`, the one
    /// at place `index`, counting from 0. `None` where fewer lobes match.
    ///
    /// A caller with a uniform sample `u` in `[0, 1)` picks uniformly by
    /// passing the whole part of `u * num_types(t)`.
    pub fn random_matching_bxdf(&self, t: Type, index: usize) -> (r: Option<&B>)
        ensures
            r is Some <==> index < self.matching_spec(t).len(),
            r matches Some(b) ==> *b == self.bxdfs@[self.matching_spec(t)[index as int]],
    {
        let mut seen: usize = 0;
        let mut i: usize = 0;
        while i < self.bxdfs.len()
            invariant
                i <= self.bxdfs@.len(),
                seen == matching(self.bxdfs@, t, i as int).len(),
                seen <= i,
                seen <= index,
            decreases self.bxdfs@.len() - i,
        {
            if self.bxdfs[i].is_type(t) {
                if seen == index {
                    proof {
                        lemma_matching_prefix(
                            self.bxdfs@,
                            t,
                            i as int + 1,
                            self.bxdfs@.len() as int,
                        );
                    }
                    return Some(&self.bxdfs[i]);
                }
                seen += 1;
            }
            i += 1;
        }
        None
    }

    /// The share of each matching lobe in the density of a sample: one over
    /// the number of lobes that match, as numerator and denominator. Where no
    /// lobe matches, the density is zero and the denominator is 1.
    pub fn pdf_share(&self, t: Type) -> (r: (usize, usize))
        ensures
            self.matching_spec(t).len() == 0 ==> r == (0usize, 1usize),
            self.matching_spec(t).len() > 0 ==> r.0 == 1 && r.1 == self.matching_spec(t).len(),
    {
        let num = self.num_types(t);
        if num > 0 {
            (1, num)
        } else {
            (0, 1)
        }
    }
}

/// The matching indices among more lobes begin with those among fewer.
pub proof fn lemma_matching_prefix<B: BxDF>(lobes: Seq<B>, t: Type, i: int, j: int)
    requires
        0 <= i <= j <= lobes.len(),
    ensures
        matching(lobes, t, i).len() <= matching(lobes, t, j).len(),
        forall|k: int|
            0 <= k < matching(lobes, t, i).len() ==> #[trigger] matching(lobes, t, j)[k]
                == matching(lobes, t, i)[k],
    decreases j - i,
{
    if i < j {
        lemma_matching_prefix(lobes, t, i, j - 1);
    }
}

} // verus!
