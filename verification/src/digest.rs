use vstd::prelude::*;

verus! {

/// Structural view of a [`Digest`]: the two character sequences that make
/// up a content identifier.
pub struct DigestView {
    pub algorithm: Seq<char>,
    pub hex: Seq<char>,
}

/// A structured content identifier: a hash algorithm name together with the
/// hex rendering of the hash value. Equality is structural; a digest is the
/// identity of a blob and the seed of its storage key.
#[derive(Debug, Clone)]
pub struct Digest {
    pub algorithm: String,
    pub hex: String,
}

impl View for Digest {
    type V = DigestView;

    open spec fn view(&self) -> DigestView {
        DigestView { algorithm: self.algorithm@, hex: self.hex@ }
    }
}

impl Digest {
    pub fn new(algorithm: String, hex: String) -> (d: Digest)
        ensures
            d@.algorithm == algorithm@,
            d@.hex == hex@,
    {
        Digest { algorithm, hex }
    }

    pub fn algorithm(&self) -> (a: &String)
        ensures
            a@ == self@.algorithm,
    {
        &self.algorithm
    }

    pub fn hex(&self) -> (h: &String)
        ensures
            h@ == self@.hex,
    {
        &self.hex
    }

    /// The wire rendering of the digest: `algorithm:hex`.
    pub fn to_text(&self) -> (t: String)
        ensures
            t@ == self@.algorithm + seq![':'] + self@.hex,
    {
        let mut t = self.algorithm.clone();
        t.append(":");
        t.append(self.hex.as_str());
        proof {
            reveal_strlit(":");
            assert(t@ =~= self@.algorithm + seq![':'] + self@.hex);
        }
        t
    }
}

impl PartialEq for Digest {
    fn eq(&self, other: &Digest) -> (r: bool) {
        self.algorithm == other.algorithm && self.hex == other.hex
    }
}

impl vstd::std_specs::cmp::PartialEqSpecImpl for Digest {
    open spec fn obeys_eq_spec() -> bool {
        true
    }

    open spec fn eq_spec(&self, other: &Digest) -> bool {
        self@.algorithm == other@.algorithm && self@.hex == other@.hex
    }
}

} // verus!
