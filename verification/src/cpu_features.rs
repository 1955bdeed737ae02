//! A list of CPU features known to be present.
use vstd::prelude::*;

verus! {

/// Compares two byte slices for equality.
pub fn const_slice_eq(a: &[u8], b: &[u8]) -> (r: bool)
    ensures
        r == (a@ == b@),
{
    if a.len() != b.len() {
        return false;
    }
    let mut i: usize = 0;
    while i < a.len()
        invariant
            a@.len() == b@.len(),
            0 <= i <= a@.len(),
            forall|j: int| 0 <= j < i ==> a@[j] == b@[j],
        decreases a@.len() - i,
    {
        if a[i] != b[i] {
            return false;
        }
        i += 1;
    }
    assert(a@ =~= b@);
    true
}

} // verus!

verus! {

/// A set of CPU features, held as the list of their names.
pub struct CpuFeatures(&'static [&'static str]);

impl CpuFeatures {
    /// The names of the features, as character sequences.
    pub closed spec fn names(&self) -> Seq<Seq<char>> {
        self.0@.map_values(|s: &'static str| s@)
    }

    /// Whether `feature` is one of the listed names.
    pub open spec fn spec_supports(&self, feature: Seq<char>) -> bool {
        self.names().contains(feature)
    }

    /// A set with no features.
    pub fn none() -> (r: Self)
        ensures
            r.names() == Seq::<Seq<char>>::empty(),
    {
        let no_features: &'static [&'static str] = &[];
        let r = CpuFeatures(no_features);
        assert(r.names() =~= Seq::<Seq<char>>::empty());
        r
    }

    /// A set holding exactly the given features.
    ///
    /// The caller asserts that the CPU supports each of them.
    pub fn new(features: &'static [&'static str]) -> (r: Self)
        ensures
            r.names() == features@.map_values(|s: &'static str| s@),
    {
        CpuFeatures(features)
    }

    /// Whether the set holds a feature of the given name.
    pub fn supports(&self, feature: &str) -> (r: bool)
        ensures
            r == self.spec_supports(feature@),
    {
        let mut i: usize = 0;
        while i < self.0.len()
            invariant
                0 <= i <= self.0@.len(),
                forall|j: int| 0 <= j < i ==> self.0@[j]@ != feature@,
            decreases self.0@.len() - i,
        {
            if crate::strings::eq(self.0[i], feature) {
                assert(self.names()[i as int] == feature@);
                return true;
            }
            i += 1;
        }
        assert(!self.names().contains(feature@)) by {
            if self.names().contains(feature@) {
                let k = choose|k: int| 0 <= k < self.names().len() && self.names()[k] == feature@;
                assert(self.0@[k]@ == feature@);
            }
        }
        false
    }
}

} // verus!
