use vstd::prelude::*;

verus! {

/// The bit that stands for the "below" class.
pub const DOWN_BIT: u8 = 0b001;

/// The bit that stands for the "within" class.
pub const MIDDLE_BIT: u8 = 0b010;

/// The bit that stands for the "above" class.
pub const UP_BIT: u8 = 0b100;

/// The bits of all three classes.
pub const ALL_BITS: u8 = 0b111;

/// A set of mark classes: any of "above", "within" and "below".
///
/// The set is kept as three bits. No other bit is ever set, so two values are
/// equal exactly when they hold the same classes.
#[derive(Copy, Clone, Debug, Hash, PartialEq, Eq, Structural, PartialOrd, Ord)]
pub struct CharKind {
    bits: u8,
}

impl CharKind {
    /// The bits of the set.
    pub closed spec fn spec_bits(&self) -> u8 {
        self.bits
    }

    /// Only the three class bits may be set.
    #[verifier::type_invariant]
    pub open spec fn wf(&self) -> bool {
        self.spec_bits() <= ALL_BITS
    }

    /// Whether the set holds the "above" class.
    pub open spec fn has_up(&self) -> bool {
        self.spec_bits() & UP_BIT == UP_BIT
    }

    /// Whether the set holds the "within" class.
    pub open spec fn has_middle(&self) -> bool {
        self.spec_bits() & MIDDLE_BIT == MIDDLE_BIT
    }

    /// Whether the set holds the "below" class.
    pub open spec fn has_down(&self) -> bool {
        self.spec_bits() & DOWN_BIT == DOWN_BIT
    }

    /// Whether every class of `other` is in the set.
    pub open spec fn spec_contains(&self, other: CharKind) -> bool {
        self.spec_bits() & other.spec_bits() == other.spec_bits()
    }

    /// Two sets with the same bits are the same set.
    pub proof fn lemma_equal_by_bits(a: CharKind, b: CharKind)
        requires
            a.spec_bits() == b.spec_bits(),
        ensures
            a == b,
    {
    }

    /// The set without any class.
    pub fn empty() -> (kind: CharKind)
        ensures
            kind.spec_bits() == 0,
            !kind.has_up() && !kind.has_middle() && !kind.has_down(),
    {
        assert(0u8 & 4 != 4 && 0u8 & 2 != 2 && 0u8 & 1 != 1) by (bit_vector);
        CharKind { bits: 0 }
    }

    /// The set of all three classes.
    pub fn all() -> (kind: CharKind)
        ensures
            kind.spec_bits() == ALL_BITS,
            kind.has_up() && kind.has_middle() && kind.has_down(),
    {
        assert(7u8 & 4 == 4 && 7u8 & 2 == 2 && 7u8 & 1 == 1) by (bit_vector);
        CharKind { bits: ALL_BITS }
    }

    /// The set that holds the "above" class alone.
    pub fn up() -> (kind: CharKind)
        ensures
            kind.spec_bits() == UP_BIT,
            kind.has_up() && !kind.has_middle() && !kind.has_down(),
    {
        assert(4u8 & 4 == 4 && 4u8 & 2 != 2 && 4u8 & 1 != 1) by (bit_vector);
        CharKind { bits: UP_BIT }
    }

    /// The set that holds the "within" class alone.
    pub fn middle() -> (kind: CharKind)
        ensures
            kind.spec_bits() == MIDDLE_BIT,
            !kind.has_up() && kind.has_middle() && !kind.has_down(),
    {
        assert(2u8 & 4 != 4 && 2u8 & 2 == 2 && 2u8 & 1 != 1) by (bit_vector);
        CharKind { bits: MIDDLE_BIT }
    }

    /// The set that holds the "below" class alone.
    pub fn down() -> (kind: CharKind)
        ensures
            kind.spec_bits() == DOWN_BIT,
            !kind.has_up() && !kind.has_middle() && kind.has_down(),
    {
        assert(1u8 & 4 != 4 && 1u8 & 2 != 2 && 1u8 & 1 == 1) by (bit_vector);
        CharKind { bits: DOWN_BIT }
    }

    /// The bits of the set: 1 for "below", 2 for "within", 4 for "above".
    #[verifier::when_used_as_spec(spec_bits)]
    pub fn bits(&self) -> (bits: u8)
        ensures
            bits == self.spec_bits(),
            bits <= ALL_BITS,
    {
        proof {
            use_type_invariant(self);
        }
        self.bits
    }

    /// The set with the given bits, unless a bit outside the three classes is
    /// set.
    pub fn from_bits(bits: u8) -> (kind: Option<CharKind>)
        ensures
            bits <= ALL_BITS ==> kind is Some && kind->0.spec_bits() == bits,
            bits > ALL_BITS ==> kind is None,
    {
        assert((bits & !7u8 == 0) == (bits <= 7)) by (bit_vector);
        if bits & !ALL_BITS == 0 {
            Some(CharKind { bits })
        } else {
            None
        }
    }

    /// The set with the given bits, any bit outside the three classes dropped.
    pub fn from_bits_truncate(bits: u8) -> (kind: CharKind)
        ensures
            kind.spec_bits() == bits & ALL_BITS,
    {
        assert(bits & 7u8 <= 7) by (bit_vector);
        CharKind { bits: bits & ALL_BITS }
    }

    /// Whether the set holds no class.
    pub fn is_empty(&self) -> (none: bool)
        ensures
            none == (self.spec_bits() == 0),
            none == (!self.has_up() && !self.has_middle() && !self.has_down()),
    {
        proof {
            use_type_invariant(self);
        }
        let bits = self.bits;
        assert(bits <= 7 ==> ((bits == 0) == (bits & 4 != 4 && bits & 2 != 2 && bits & 1 != 1)))
            by (bit_vector);
        bits == 0
    }

    /// Whether the set holds all three classes.
    pub fn is_all(&self) -> (every: bool)
        ensures
            every == (self.spec_bits() == ALL_BITS),
            every == (self.has_up() && self.has_middle() && self.has_down()),
    {
        proof {
            use_type_invariant(self);
        }
        let bits = self.bits;
        assert(bits <= 7 ==> ((bits == 7) == (bits & 4 == 4 && bits & 2 == 2 && bits & 1 == 1)))
            by (bit_vector);
        bits == ALL_BITS
    }

    /// Whether every class of `other` is in the set.
    #[verifier::when_used_as_spec(spec_contains)]
    pub fn contains(&self, other: CharKind) -> (within: bool)
        ensures
            within == self.spec_contains(other),
            within == ((other.has_up() ==> self.has_up()) && (other.has_middle()
                ==> self.has_middle()) && (other.has_down() ==> self.has_down())),
    {
        proof {
            use_type_invariant(self);
            use_type_invariant(&other);
        }
        let a = self.bits;
        let b = other.bits;
        assert(a <= 7 && b <= 7 ==> ((a & b == b) == ((b & 4 == 4 ==> a & 4 == 4) && (b & 2 == 2
            ==> a & 2 == 2) && (b & 1 == 1 ==> a & 1 == 1)))) by (bit_vector);
        a & b == b
    }

    /// Whether the two sets share a class.
    pub fn intersects(&self, other: CharKind) -> (shared: bool)
        ensures
            shared == (self.spec_bits() & other.spec_bits() != 0),
            shared == ((self.has_up() && other.has_up()) || (self.has_middle()
                && other.has_middle()) || (self.has_down() && other.has_down())),
    {
        proof {
            use_type_invariant(self);
            use_type_invariant(&other);
        }
        let a = self.bits;
        let b = other.bits;
        assert(a <= 7 && b <= 7 ==> ((a & b != 0) == ((a & 4 == 4 && b & 4 == 4) || (a & 2 == 2
            && b & 2 == 2) || (a & 1 == 1 && b & 1 == 1)))) by (bit_vector);
        a & b != 0
    }

    /// The classes that are in either set.
    pub closed spec fn spec_union(self, other: CharKind) -> CharKind {
        CharKind { bits: self.bits | other.bits }
    }

    /// The classes that are in both sets.
    pub closed spec fn spec_intersection(self, other: CharKind) -> CharKind {
        CharKind { bits: self.bits & other.bits }
    }

    /// The classes, of the three, that are not in the set.
    pub closed spec fn spec_complement(self) -> CharKind {
        CharKind { bits: !self.bits & ALL_BITS }
    }

    /// The classes of the set that are not in `other`.
    pub closed spec fn spec_difference(self, other: CharKind) -> CharKind {
        CharKind { bits: self.bits & !other.bits }
    }

    /// What the union holds, by bits and class by class.
    pub proof fn lemma_union(a: CharKind, b: CharKind)
        requires
            a.wf(),
            b.wf(),
        ensures
            a.spec_union(b).wf(),
            a.spec_union(b).spec_bits() == a.spec_bits() | b.spec_bits(),
            a.spec_union(b).has_up() == (a.has_up() || b.has_up()),
            a.spec_union(b).has_middle() == (a.has_middle() || b.has_middle()),
            a.spec_union(b).has_down() == (a.has_down() || b.has_down()),
    {
        let x = a.bits;
        let y = b.bits;
        assert(x <= 7 && y <= 7 ==> (x | y) <= 7 && ((x | y) & 4 == 4) == (x & 4 == 4 || y & 4
            == 4) && ((x | y) & 2 == 2) == (x & 2 == 2 || y & 2 == 2) && ((x | y) & 1 == 1) == (x
            & 1 == 1 || y & 1 == 1)) by (bit_vector);
    }

    /// What the intersection holds, by bits and class by class.
    pub proof fn lemma_intersection(a: CharKind, b: CharKind)
        requires
            a.wf(),
            b.wf(),
        ensures
            a.spec_intersection(b).wf(),
            a.spec_intersection(b).spec_bits() == a.spec_bits() & b.spec_bits(),
            a.spec_intersection(b).has_up() == (a.has_up() && b.has_up()),
            a.spec_intersection(b).has_middle() == (a.has_middle() && b.has_middle()),
            a.spec_intersection(b).has_down() == (a.has_down() && b.has_down()),
    {
        let x = a.bits;
        let y = b.bits;
        assert(x <= 7 && y <= 7 ==> (x & y) <= 7 && ((x & y) & 4 == 4) == (x & 4 == 4 && y & 4
            == 4) && ((x & y) & 2 == 2) == (x & 2 == 2 && y & 2 == 2) && ((x & y) & 1 == 1) == (x
            & 1 == 1 && y & 1 == 1)) by (bit_vector);
    }

    /// What the complement holds, by bits and class by class.
    pub proof fn lemma_complement(a: CharKind)
        requires
            a.wf(),
        ensures
            a.spec_complement().wf(),
            a.spec_complement().spec_bits() == !a.spec_bits() & ALL_BITS,
            a.spec_complement().has_up() == !a.has_up(),
            a.spec_complement().has_middle() == !a.has_middle(),
            a.spec_complement().has_down() == !a.has_down(),
            a.spec_complement().spec_complement() == a,
    {
        let x = a.bits;
        assert(x <= 7 ==> (!x & 7) <= 7 && ((!x & 7) & 4 == 4) == !(x & 4 == 4) && ((!x & 7) & 2
            == 2) == !(x & 2 == 2) && ((!x & 7) & 1 == 1) == !(x & 1 == 1) && (!(!x & 7) & 7)
            == x) by (bit_vector);
    }

    /// What the difference holds, by bits and class by class.
    pub proof fn lemma_difference(a: CharKind, b: CharKind)
        requires
            a.wf(),
            b.wf(),
        ensures
            a.spec_difference(b).wf(),
            a.spec_difference(b).spec_bits() == a.spec_bits() & !b.spec_bits(),
            a.spec_difference(b).has_up() == (a.has_up() && !b.has_up()),
            a.spec_difference(b).has_middle() == (a.has_middle() && !b.has_middle()),
            a.spec_difference(b).has_down() == (a.has_down() && !b.has_down()),
    {
        let x = a.bits;
        let y = b.bits;
        assert(x <= 7 && y <= 7 ==> (x & !y) <= 7 && ((x & !y) & 4 == 4) == (x & 4 == 4 && !(y
            & 4 == 4)) && ((x & !y) & 2 == 2) == (x & 2 == 2 && !(y & 2 == 2)) && ((x & !y) & 1
            == 1) == (x & 1 == 1 && !(y & 1 == 1))) by (bit_vector);
    }

    /// The classes that are in either set.
    #[verifier::when_used_as_spec(spec_union)]
    pub fn union(self, other: CharKind) -> (kind: CharKind)
        ensures
            kind == self.spec_union(other),
            kind.spec_bits() == self.spec_bits() | other.spec_bits(),
            kind.has_up() == (self.has_up() || other.has_up()),
            kind.has_middle() == (self.has_middle() || other.has_middle()),
            kind.has_down() == (self.has_down() || other.has_down()),
    {
        proof {
            use_type_invariant(&self);
            use_type_invariant(&other);
            Self::lemma_union(self, other);
        }
        CharKind { bits: self.bits | other.bits }
    }

    /// The classes that are in both sets.
    #[verifier::when_used_as_spec(spec_intersection)]
    pub fn intersection(self, other: CharKind) -> (kind: CharKind)
        ensures
            kind == self.spec_intersection(other),
            kind.spec_bits() == self.spec_bits() & other.spec_bits(),
            kind.has_up() == (self.has_up() && other.has_up()),
            kind.has_middle() == (self.has_middle() && other.has_middle()),
            kind.has_down() == (self.has_down() && other.has_down()),
    {
        proof {
            use_type_invariant(&self);
            use_type_invariant(&other);
            Self::lemma_intersection(self, other);
        }
        CharKind { bits: self.bits & other.bits }
    }

    /// The classes, of the three, that are not in the set.
    #[verifier::when_used_as_spec(spec_complement)]
    pub fn complement(self) -> (kind: CharKind)
        ensures
            kind == self.spec_complement(),
            kind.spec_bits() == !self.spec_bits() & ALL_BITS,
            kind.has_up() == !self.has_up(),
            kind.has_middle() == !self.has_middle(),
            kind.has_down() == !self.has_down(),
    {
        proof {
            use_type_invariant(&self);
            Self::lemma_complement(self);
        }
        CharKind { bits: !self.bits & ALL_BITS }
    }

    /// The classes of the set that are not in `other`.
    #[verifier::when_used_as_spec(spec_difference)]
    pub fn difference(self, other: CharKind) -> (kind: CharKind)
        ensures
            kind == self.spec_difference(other),
            kind.spec_bits() == self.spec_bits() & !other.spec_bits(),
            kind.has_up() == (self.has_up() && !other.has_up()),
            kind.has_middle() == (self.has_middle() && !other.has_middle()),
            kind.has_down() == (self.has_down() && !other.has_down()),
    {
        proof {
            use_type_invariant(&self);
            use_type_invariant(&other);
            Self::lemma_difference(self, other);
        }
        CharKind { bits: self.bits & !other.bits }
    }

    /// Adds the classes of `other` to the set.
    pub fn insert(&mut self, other: CharKind)
        ensures
            *final(self) == old(self).spec_union(other),
    {
        *self = self.union(other);
    }

    /// Takes the classes of `other` out of the set.
    pub fn remove(&mut self, other: CharKind)
        ensures
            *final(self) == old(self).spec_difference(other),
    {
        *self = self.difference(other);
    }
    /// The set for three switches, one for each class. Where all three are
    /// off, the classes within and below are taken.
    pub fn from_switches(up: bool, middle: bool, down: bool) -> (kind: CharKind)
        ensures
            up || middle || down ==> kind.has_up() == up && kind.has_middle() == middle
                && kind.has_down() == down,
            !up && !middle && !down ==> !kind.has_up() && kind.has_middle() && kind.has_down(),
    {
        let mut kind = CharKind::empty();
        if up {
            kind = kind.union(CharKind::up());
        }
        if middle {
            kind = kind.union(CharKind::middle());
        }
        if down {
            kind = kind.union(CharKind::down());
        }
        if kind.is_empty() {
            kind = CharKind::middle().union(CharKind::down());
        }
        kind
    }
}

impl core::ops::BitOr for CharKind {
    type Output = CharKind;

    fn bitor(self, other: CharKind) -> (kind: CharKind) {
        self.union(other)
    }
}

impl vstd::std_specs::ops::BitOrSpecImpl for CharKind {
    open spec fn obeys_bitor_spec() -> bool {
        true
    }

    open spec fn bitor_req(self, other: CharKind) -> bool {
        true
    }

    open spec fn bitor_spec(self, other: CharKind) -> CharKind {
        self.spec_union(other)
    }
}

impl core::ops::BitAnd for CharKind {
    type Output = CharKind;

    fn bitand(self, other: CharKind) -> (kind: CharKind) {
        self.intersection(other)
    }
}

impl vstd::std_specs::ops::BitAndSpecImpl for CharKind {
    open spec fn obeys_bitand_spec() -> bool {
        true
    }

    open spec fn bitand_req(self, other: CharKind) -> bool {
        true
    }

    open spec fn bitand_spec(self, other: CharKind) -> CharKind {
        self.spec_intersection(other)
    }
}

impl core::ops::Sub for CharKind {
    type Output = CharKind;

    fn sub(self, other: CharKind) -> (kind: CharKind) {
        self.difference(other)
    }
}

impl vstd::std_specs::ops::SubSpecImpl for CharKind {
    open spec fn obeys_sub_spec() -> bool {
        true
    }

    open spec fn sub_req(self, other: CharKind) -> bool {
        true
    }

    open spec fn sub_spec(self, other: CharKind) -> CharKind {
        self.spec_difference(other)
    }
}

impl core::ops::Not for CharKind {
    type Output = CharKind;

    fn not(self) -> (kind: CharKind) {
        self.complement()
    }
}

impl vstd::std_specs::ops::NotSpecImpl for CharKind {
    open spec fn obeys_not_spec() -> bool {
        true
    }

    open spec fn not_req(self) -> bool {
        true
    }

    open spec fn not_spec(self) -> CharKind {
        self.spec_complement()
    }
}

} // verus!
