//! The canonical combining class of a code point, and its compressed form.

use crate::codepoint::PropertiesError;
use crate::text;
use crate::text::radix;
use vstd::prelude::*;

verus! {

/// A canonical combining class: the number by which combining marks are
/// ordered after the character they belong to.
#[derive(Debug, Clone, Copy, PartialEq, Eq, PartialOrd, Ord, Structural)]
pub struct CanonicalCombiningClass(pub u8);

/// The classes that have a name, by their numbers.
#[allow(non_upper_case_globals)]
impl CanonicalCombiningClass {
    pub const NotReordered: u8 = 0;
    pub const Overlay: u8 = 1;
    pub const HanReading: u8 = 6;
    pub const Nukta: u8 = 7;
    pub const KanaVoicing: u8 = 8;
    pub const Virama: u8 = 9;
    pub const AttachedBelowLeft: u8 = 200;
    pub const AttachedBelow: u8 = 202;
    pub const AttachedAbove: u8 = 214;
    pub const AttachedAboveRight: u8 = 216;
    pub const BelowLeft: u8 = 218;
    pub const Below: u8 = 220;
    pub const BelowRight: u8 = 222;
    pub const Left: u8 = 224;
    pub const Right: u8 = 226;
    pub const AboveLeft: u8 = 228;
    pub const Above: u8 = 230;
    pub const AboveRight: u8 = 232;
    pub const DoubleBelow: u8 = 233;
    pub const DoubleAbove: u8 = 234;
    pub const IotaSubscript: u8 = 240;
}

impl CanonicalCombiningClass {
    /// Whether a code point of this class starts a combining sequence.
    pub fn is_starter(&self) -> (r: bool)
        ensures
            r == (self.0 == 0),
    {
        self.0 == 0
    }

    /// Whether a code point of this class is reordered after a starter.
    pub fn is_nonstarter(&self) -> (r: bool)
        ensures
            r == (self.0 != 0),
    {
        self.0 != 0
    }

    /// The class as a number.
    pub fn u8(&self) -> (r: u8)
        ensures
            r == self.0,
    {
        self.0
    }

    /// The class in six bits: its index among the classes of the database,
    /// in ascending order. A class that no code point of the database has
    /// is an unknown value.
    pub fn compressed(&self, classes: &CompressedClasses) -> (r: Result<u8, PropertiesError>)
        ensures
            strictly_increasing(classes@),
            match r {
                Ok(i) => classes@.contains(self.0) && i == compressed_of(classes@, self.0),
                Err(e) => e == PropertiesError::UnknownPropertyValue && !classes@.contains(self.0),
            },
    {
        let r = classes.index_of(self.0);
        proof {
            use_type_invariant(classes);
            lemma_compression_is_order_isomorphism(classes@);
        }
        r
    }
}

impl From<u8> for CanonicalCombiningClass {
    fn from(value: u8) -> (r: Self) {
        CanonicalCombiningClass(value)
    }
}

impl vstd::std_specs::convert::FromSpecImpl<u8> for CanonicalCombiningClass {
    open spec fn obeys_from_spec() -> bool {
        true
    }

    open spec fn from_spec(value: u8) -> Self {
        CanonicalCombiningClass(value)
    }
}

impl From<CanonicalCombiningClass> for u8 {
    fn from(value: CanonicalCombiningClass) -> (r: Self) {
        value.0
    }
}

impl vstd::std_specs::convert::FromSpecImpl<CanonicalCombiningClass> for u8 {
    open spec fn obeys_from_spec() -> bool {
        true
    }

    open spec fn from_spec(value: CanonicalCombiningClass) -> Self {
        value.0
    }
}

/// The class that a decimal numeral denotes; any other text is an unknown
/// value.
impl<'a> TryFrom<&'a str> for CanonicalCombiningClass {
    type Error = PropertiesError;

    fn try_from(value: &'a str) -> (r: Result<Self, PropertiesError>) {
        let chars = text::to_chars(value);
        match radix::parse_decimal_u8(chars.as_slice()) {
            Some(n) => Ok(CanonicalCombiningClass(n)),
            None => Err(PropertiesError::UnknownPropertyValue),
        }
    }
}

impl<'a> vstd::std_specs::convert::TryFromSpecImpl<&'a str> for CanonicalCombiningClass {
    open spec fn obeys_try_from_spec() -> bool {
        true
    }

    open spec fn try_from_spec(value: &'a str) -> Result<Self, PropertiesError> {
        match radix::decimal_u8(value@) {
            Some(n) => Ok(CanonicalCombiningClass(n)),
            None => Err(PropertiesError::UnknownPropertyValue),
        }
    }
}

/// Whether each element is greater than the one before it.
pub open spec fn strictly_increasing(s: Seq<u8>) -> bool {
    forall|i: int, j: int| 0 <= i < j < s.len() ==> s[i] < s[j]
}

/// The classes of a database: the distinct numbers among the given classes,
/// in ascending order.
pub open spec fn is_compression_of(table: Seq<u8>, classes: Seq<CanonicalCombiningClass>) -> bool {
    &&& strictly_increasing(table)
    &&& forall|v: u8|
        table.contains(v) <==> exists|i: int|
            0 <= i < classes.len() && (#[trigger] classes[i]).0 == v
}

/// The compressed form of a class that the table holds: its index.
pub open spec fn compressed_of(table: Seq<u8>, class: u8) -> int {
    choose|i: int| 0 <= i < table.len() && table[i] == class
}

/// The classes that occur in a database, in ascending order, each with its
/// index as its compressed form.
pub struct CompressedClasses {
    raw: Vec<u8>,
    slots: Vec<Option<u8>>,
}

impl View for CompressedClasses {
    type V = Seq<u8>;

    closed spec fn view(&self) -> Seq<u8> {
        self.raw@
    }
}

impl CompressedClasses {
    /// Every class has a slot, which holds the index of the class if the
    /// table holds the class.
    #[verifier::type_invariant]
    spec fn indexed(&self) -> bool {
        &&& strictly_increasing(self.raw@)
        &&& self.slots@.len() == 256
        &&& self.raw@.len() <= 256
        &&& forall|v: int|
            0 <= v < 256 ==> match (#[trigger] self.slots@[v]) {
                Some(i) => i < self.raw@.len() && self.raw@[i as int] == v,
                None => !self.raw@.contains(v as u8),
            }
    }

    /// The number of classes.
    pub fn len(&self) -> (n: usize)
        ensures
            n == self@.len(),
    {
        self.raw.len()
    }

    /// The class with the compressed form `i`.
    pub fn raw(&self, i: u8) -> (r: u8)
        requires
            i < self@.len(),
        ensures
            r == self@[i as int],
    {
        self.raw[i as usize]
    }

    /// The index of a class.
    fn index_of(&self, class: u8) -> (r: Result<u8, PropertiesError>)
        ensures
            match r {
                Ok(i) => i < self@.len() && self@[i as int] == class,
                Err(e) => e == PropertiesError::UnknownPropertyValue && !self@.contains(class),
            },
    {
        proof {
            use_type_invariant(self);
        }
        match self.slots[class as usize] {
            Some(i) => Ok(i),
            None => Err(PropertiesError::UnknownPropertyValue),
        }
    }
}

/// Builds the table of compressed classes from the classes of all code
/// points of a database.
pub fn compressed_ccc(classes: &[CanonicalCombiningClass]) -> (r: CompressedClasses)
    ensures
        is_compression_of(r@, classes@),
{
    let mut present: Vec<bool> = Vec::new();
    let mut v: usize = 0;
    while v < 256
        invariant
            v <= 256,
            present@.len() == v,
            forall|k: int| 0 <= k < v ==> !(#[trigger] present@[k]),
        decreases 256 - v,
    {
        present.push(false);
        v += 1;
    }
    let mut i: usize = 0;
    while i < classes.len()
        invariant
            i <= classes.len(),
            present@.len() == 256,
            forall|k: int|
                0 <= k < 256 ==> ((#[trigger] present@[k]) <==> exists|j: int|
                    0 <= j < i && (#[trigger] classes@[j]).0 == k),
        decreases classes.len() - i,
    {
        let class = classes[i].0;
        present.set(class as usize, true);
        proof {
            assert forall|k: int| 0 <= k < 256 implies ((#[trigger] present@[k]) <==> exists|j: int|
                0 <= j < i + 1 && (#[trigger] classes@[j]).0 == k) by {
                if k == class {
                    assert(classes@[i as int].0 == k);
                }
            }
        }
        i += 1;
    }
    let mut raw: Vec<u8> = Vec::new();
    let mut slots: Vec<Option<u8>> = Vec::new();
    let mut v: usize = 0;
    while v < 256
        invariant
            v <= 256,
            present@.len() == 256,
            slots@.len() == v,
            raw@.len() <= v,
            strictly_increasing(raw@),
            forall|k: int| 0 <= k < raw@.len() ==> (#[trigger] raw@[k]) < v,
            forall|k: int|
                0 <= k < v ==> match (#[trigger] slots@[k]) {
                    Some(n) => n < raw@.len() && raw@[n as int] == k && present@[k],
                    None => !raw@.contains(k as u8) && !present@[k],
                },
        decreases 256 - v,
    {
        let ghost before = raw@;
        if present[v] {
            let n = raw.len();
            raw.push(v as u8);
            slots.push(Some(n as u8));
            proof {
                assert forall|k: int| 0 <= k < v + 1 implies match (#[trigger] slots@[k]) {
                    Some(n) => n < raw@.len() && raw@[n as int] == k && present@[k],
                    None => !raw@.contains(k as u8) && !present@[k],
                } by {
                    if k < v {
                        if slots@[k] is None {
                            if raw@.contains(k as u8) {
                                let at = choose|at: int|
                                    0 <= at < raw@.len() && raw@[at] == k as u8;
                                assert(before[at] == k as u8);
                            }
                        }
                    }
                }
            }
        } else {
            slots.push(None);
            proof {
                if raw@.contains(v as u8) {
                    let at = choose|at: int| 0 <= at < raw@.len() && raw@[at] == v as u8;
                    assert(raw@[at] < v);
                }
            }
        }
        v += 1;
    }
    proof {
        assert forall|value: u8| raw@.contains(value) <==> exists|j: int|
            0 <= j < classes@.len() && (#[trigger] classes@[j]).0 == value by {
            if raw@.contains(value) {
                let at = choose|at: int| 0 <= at < raw@.len() && raw@[at] == value;
                assert(slots@[value as int] is Some || slots@[value as int] is None);
                assert(present@[value as int]);
            }
            if exists|j: int| 0 <= j < classes@.len() && (#[trigger] classes@[j]).0 == value {
                assert(present@[value as int]);
                assert(slots@[value as int] is Some);
            }
        }
    }
    CompressedClasses { raw, slots }
}

/// Compression keeps the order of the classes and leaves no gap: of two
/// classes of the table the smaller has the smaller compressed form, and
/// the compressed forms are the numbers from 0 to one less than the number
/// of classes, each the form of one class.
pub proof fn lemma_compression_is_order_isomorphism(table: Seq<u8>)
    requires
        strictly_increasing(table),
    ensures
        forall|i: int| 0 <= i < table.len() ==> compressed_of(table, #[trigger] table[i]) == i,
        forall|a: u8|
            table.contains(a) ==> 0 <= #[trigger] compressed_of(table, a) < table.len()
                && table[compressed_of(table, a)] == a,
        forall|a: u8, b: u8|
            table.contains(a) && table.contains(b) && a < b ==> #[trigger] compressed_of(table, a)
                < #[trigger] compressed_of(table, b),
{
    assert forall|a: u8| table.contains(a) implies 0 <= #[trigger] compressed_of(table, a)
        < table.len() && table[compressed_of(table, a)] == a by {
        let at = choose|at: int| 0 <= at < table.len() && table[at] == a;
    }
    assert forall|i: int| 0 <= i < table.len() implies compressed_of(
        table,
        #[trigger] table[i],
    ) == i by {
        assert(table.contains(table[i]));
        let j = compressed_of(table, table[i]);
        if j < i {
            assert(table[j] < table[i]);
        } else if i < j {
            assert(table[i] < table[j]);
        }
    }
    assert forall|a: u8, b: u8|
        table.contains(a) && table.contains(b) && a < b implies #[trigger] compressed_of(table, a)
        < #[trigger] compressed_of(table, b) by {
        let i = compressed_of(table, a);
        let j = compressed_of(table, b);
        if j < i {
            assert(table[j] < table[i]);
        }
    }
}

} // verus!
