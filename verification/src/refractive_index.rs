//! Refractive indices of materials.
//!
//! The refractive index of a material says how fast light travels through
//! it, and it differs from wavelength to wavelength. Some materials come with
//! an extinction coefficient as well, which says how strongly they absorb.
//! Where a material has no closed formula, its index is looked up in a table
//! of wavelengths; the search for the place in the table is here.
use vstd::prelude::*;
use crate::scalar::Scalar;

verus! {

/// The materials.
#[derive(Clone, Copy, Debug)]
pub enum RefractiveType {
    Air,
    Vacuum,
    Water,
    Glass,
    Sapphire,
    /// An index that rises in a straight line over the spectrum, from
    /// `n_min` at its long end to `n_max` at its short end.
    Linear { n_min: Scalar, n_max: Scalar },
}

/// How a quantity of a material is had at a wavelength.
#[derive(Clone, Copy, Debug, PartialEq, Eq, Structural)]
pub enum Source {
    /// The same at every wavelength.
    Constant,
    /// By the Sellmeier equation of the material.
    Sellmeier,
    /// By search in the table of the material, and interpolation between
    /// its entries.
    Table,
    /// By interpolation between the two ends of the spectrum.
    Linear,
}

/// The bits of 1.00029, the index of air.
pub const N_AIR: u32 = 0x3f80_0981;

/// The bits of 1, the index of the vacuum.
pub const N_VACUUM: u32 = 0x3f80_0000;

/// The bits of 1.3325, the index of water.
pub const N_WATER: u32 = 0x3faa_8f5c;

/// The bits of 1.5168, the index of glass.
pub const N_GLASS: u32 = 0x3fc2_2681;

/// The bits of 1.7490, the index of sapphire.
pub const N_SAPPHIRE: u32 = 0x3fdf_df3b;

/// The bits of 7.2792e-9, the extinction coefficient of water.
pub const K_WATER: u32 = 0x31fa_1c85;

/// The bits of 9.7525e-9, the extinction coefficient of glass.
pub const K_GLASS: u32 = 0x3227_8bf3;

/// The bits of 0.020900, the extinction coefficient of sapphire.
pub const K_SAPPHIRE: u32 = 0x3cab_367a;

impl RefractiveType {
    /// The refractive index, the same for every wavelength.
    pub open spec fn n_uniform_spec(self) -> Scalar {
        match self {
            RefractiveType::Air => Scalar { bits: N_AIR },
            RefractiveType::Vacuum => Scalar { bits: N_VACUUM },
            RefractiveType::Water => Scalar { bits: N_WATER },
            RefractiveType::Glass => Scalar { bits: N_GLASS },
            RefractiveType::Sapphire => Scalar { bits: N_SAPPHIRE },
            RefractiveType::Linear { n_min, n_max } => n_min,
        }
    }

    /// The extinction coefficient, the same for every wavelength, of the
    /// materials that have one.
    pub open spec fn k_uniform_spec(self) -> Option<Scalar> {
        match self {
            RefractiveType::Water => Some(Scalar { bits: K_WATER }),
            RefractiveType::Glass => Some(Scalar { bits: K_GLASS }),
            RefractiveType::Sapphire => Some(Scalar { bits: K_SAPPHIRE }),
            _ => None,
        }
    }

    /// Returns the refractive index (inaccurate for different wavelengths).
    /// Of a linear material it is the lower index.
    pub fn n_uniform(&self) -> (n: Scalar)
        ensures
            n == self.n_uniform_spec(),
    {
        match self {
            RefractiveType::Air => Scalar { bits: N_AIR },
            RefractiveType::Vacuum => Scalar { bits: N_VACUUM },
            RefractiveType::Water => Scalar { bits: N_WATER },
            RefractiveType::Glass => Scalar { bits: N_GLASS },
            RefractiveType::Sapphire => Scalar { bits: N_SAPPHIRE },
            RefractiveType::Linear { n_min, n_max } => *n_min,
        }
    }

    /// Returns the extinction coefficient (if it exists).
    pub fn k_uniform(&self) -> (k: Option<Scalar>)
        ensures
            k == self.k_uniform_spec(),
    {
        match self {
            RefractiveType::Water => Some(Scalar { bits: K_WATER }),
            RefractiveType::Glass => Some(Scalar { bits: K_GLASS }),
            RefractiveType::Sapphire => Some(Scalar { bits: K_SAPPHIRE }),
            _ => None,
        }
    }

    /// How the refractive index at a wavelength is had.
    pub fn n_source(&self) -> (s: Source)
        ensures
            s == (match *self {
                RefractiveType::Vacuum => Source::Constant,
                RefractiveType::Water => Source::Table,
                RefractiveType::Linear { .. } => Source::Linear,
                _ => Source::Sellmeier,
            }),
    {
        match self {
            RefractiveType::Air => Source::Sellmeier,
            RefractiveType::Vacuum => Source::Constant,
            RefractiveType::Water => Source::Table,
            RefractiveType::Glass => Source::Sellmeier,
            RefractiveType::Sapphire => Source::Sellmeier,
            RefractiveType::Linear { .. } => Source::Linear,
        }
    }

    /// How the extinction coefficient at a wavelength is had, for the
    /// materials that have one: always from a table.
    pub fn k_source(&self) -> (s: Option<Source>)
        ensures
            s is Some <==> self.k_uniform_spec() is Some,
            s matches Some(source) ==> source == Source::Table,
    {
        match self {
            RefractiveType::Water => Some(Source::Table),
            RefractiveType::Glass => Some(Source::Table),
            RefractiveType::Sapphire => Some(Source::Table),
            _ => None,
        }
    }
}

/// Whether the numbers rise strictly from entry to entry.
pub open spec fn ascending(s: Seq<Scalar>) -> bool {
    forall|i: int, j: int| 0 <= i < j < s.len() ==> (#[trigger] s[i]).lt_spec(#[trigger] s[j])
}

/// Whether `a` and `v` take the same place: neither is below the other. For
/// numbers that is to be equal; what is not a number takes every place.
pub open spec fn same_place(a: Scalar, v: Scalar) -> bool {
    !a.lt_spec(v) && !v.lt_spec(a)
}

/// Searches for the index of a given value inside a given slice. If no such
/// value is found, it returns the indices below and above the value, for an
/// interpolation between the two. The index above is the length of the slice
/// where the value lies above all entries.
///
/// The slice has to be ascending, and the value not below its first entry.
pub fn search_index(slice: &[Scalar], value: Scalar) -> (r: Result<usize, (usize, usize)>)
    requires
        ascending(slice@),
        slice@.len() > 0,
        !value.lt_spec(slice@[0]),
    ensures
        r is Ok <==> exists|i: int| 0 <= i < slice@.len() && same_place(#[trigger] slice@[i], value),
        r matches Ok(i) ==> i < slice@.len() && same_place(slice@[i as int], value),
        r matches Err((below, above)) ==> {
            &&& above == below + 1
            &&& above <= slice@.len()
            &&& slice@[below as int].lt_spec(value)
            &&& above < slice@.len() ==> value.lt_spec(slice@[above as int])
        },
{
    let mut lo: usize = 0;
    let mut hi: usize = slice.len();
    while lo < hi
        invariant
            lo <= hi <= slice@.len(),
            ascending(slice@),
            forall|k: int| 0 <= k < lo ==> (#[trigger] slice@[k]).lt_spec(value),
            forall|k: int| hi <= k < slice@.len() ==> value.lt_spec(#[trigger] slice@[k]),
        decreases hi - lo,
    {
        let mid = lo + (hi - lo) / 2;
        let a = slice[mid];
        if a.lt(value) {
            proof {
                assert forall|k: int| 0 <= k < mid + 1 implies (#[trigger] slice@[k]).lt_spec(
                    value,
                ) by {
                    if k < mid {
                        assert(slice@[k].lt_spec(slice@[mid as int]));
                    }
                }
            }
            lo = mid + 1;
        } else if value.lt(a) {
            proof {
                assert forall|k: int| mid <= k < slice@.len() implies value.lt_spec(
                    #[trigger] slice@[k],
                ) by {
                    if k > mid {
                        assert(slice@[mid as int].lt_spec(slice@[k]));
                    }
                }
            }
            hi = mid;
        } else {
            return Ok(mid);
        }
    }
    proof {
        assert forall|i: int| 0 <= i < slice@.len() implies !same_place(
            #[trigger] slice@[i],
            value,
        ) by {
            if i < lo {
                assert(slice@[i].lt_spec(value));
            } else {
                assert(value.lt_spec(slice@[i]));
            }
        }
    }
    Err((lo - 1, lo))
}

/// Where a value is had from a table.
#[derive(Clone, Copy, Debug, PartialEq, Eq, Structural)]
pub enum Entry {
    /// The value at this index.
    At(usize),
    /// Between the values at these two indices, one after the other.
    Between(usize, usize),
}

/// The place in a table of `values` entries at which the quantity for
/// `wavelength` is had, where `index_slice` holds the wavelengths of the
/// entries, one for each: the entry of the wavelength itself where it is there, else the
/// two entries around it, and the last entry for a wavelength beyond the
/// table.
pub fn search_entry(index_slice: &[Scalar], values: usize, wavelength: Scalar) -> (e: Entry)
    requires
        ascending(index_slice@),
        index_slice@.len() > 0,
        !wavelength.lt_spec(index_slice@[0]),
        values == index_slice@.len(),
    ensures
        e matches Entry::At(i) ==> i < index_slice@.len() && (same_place(
            index_slice@[i as int],
            wavelength,
        ) || (i == index_slice@.len() - 1 && index_slice@[i as int].lt_spec(wavelength))),
        e matches Entry::Between(below, above) ==> above == below + 1 && above
            < index_slice@.len() && index_slice@[below as int].lt_spec(wavelength)
            && wavelength.lt_spec(index_slice@[above as int]),
        e is Between <==> exists|k: int|
            0 <= k < index_slice@.len() - 1 && (#[trigger] index_slice@[k]).lt_spec(wavelength)
                && wavelength.lt_spec(index_slice@[k + 1]),
{
    match search_index(index_slice, wavelength) {
        Ok(i) => {
            proof {
                assert forall|k: int|
                    0 <= k < index_slice@.len() - 1 && (#[trigger] index_slice@[k]).lt_spec(
                        wavelength,
                    ) implies !wavelength.lt_spec(index_slice@[k + 1]) by {
                    if k + 1 <= i {
                        if k + 1 < i {
                            assert(index_slice@[k + 1].lt_spec(index_slice@[i as int]));
                        }
                    } else {
                        if k > i {
                            assert(index_slice@[i as int].lt_spec(index_slice@[k]));
                        }
                    }
                }
            }
            Entry::At(i)
        },
        Err((min, max)) => {
            if max >= values {
                proof {
                    assert forall|k: int|
                        0 <= k < index_slice@.len() - 1 && (#[trigger] index_slice@[k]).lt_spec(
                            wavelength,
                        ) implies !wavelength.lt_spec(index_slice@[k + 1]) by {
                        if k + 1 < min {
                            assert(index_slice@[k + 1].lt_spec(index_slice@[min as int]));
                        }
                    }
                }
                Entry::At(min)
            } else {
                Entry::Between(min, max)
            }
        },
    }
}

} // verus!
