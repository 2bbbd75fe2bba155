//! In-memory representation of decoded values.

use vstd::prelude::*;

mod integer;

pub use integer::IntValue;
pub use integer::lemma_int_value_canonical_identity;

verus! {

/// Represents a floating-point number, carried bit-exactly: the fields hold
/// the IEEE 754 bit patterns. Equality is bit equality; the codec never
/// promotes or normalizes.
#[derive(Copy, Clone, PartialEq, Eq, Debug, Structural)]
pub enum FloatValue {
    /// A single-precision float, as its 32 raw bits.
    Single(u32),
    /// A double-precision float, as its 64 raw bits.
    Double(u64),
}

/// Represents a string: an owned UTF-8 byte sequence.
#[derive(Clone, Debug)]
pub struct StringValue(pub Vec<u8>);

impl StringValue {
    /// True when the owned bytes are valid UTF-8, as every constructed
    /// string's are.
    pub open spec fn wf(&self) -> bool {
        vstd::utf8::valid_utf8(self.0@)
    }

    /// The string's UTF-8 bytes.
    pub fn as_bytes(&self) -> (r: &Vec<u8>)
        ensures
            r@ == self.0@,
    {
        &self.0
    }
}

/// Represents a byte array.
#[derive(Clone, Debug)]
pub struct BytesValue(pub Vec<u8>);

impl From<Vec<u8>> for BytesValue {
    fn from(value: Vec<u8>) -> (r: Self) {
        BytesValue(value)
    }
}

impl vstd::std_specs::convert::FromSpecImpl<Vec<u8>> for BytesValue {
    open spec fn obeys_from_spec() -> bool {
        true
    }

    open spec fn from_spec(value: Vec<u8>) -> Self {
        BytesValue(value)
    }
}

/// Represents a boolean.
#[derive(Copy, Clone, PartialEq, Eq, Debug, Structural)]
pub struct BoolValue(pub bool);

/// Represents a unit value.
#[derive(Copy, Clone, PartialEq, Eq, Debug, Structural)]
pub struct UnitValue;

/// Represents a null value.
#[derive(Copy, Clone, PartialEq, Eq, Debug, Structural)]
pub struct NullValue;

/// Represents a sequence of values.
#[derive(Debug)]
pub struct SeqValue(pub Vec<Value>);

impl SeqValue {
    /// Appends a value to the end of the sequence.
    pub fn push(&mut self, value: Value)
        ensures
            final(self).0@ == old(self).0@.push(value),
    {
        self.0.push(value);
    }

    /// The number of elements.
    pub fn len(&self) -> (r: usize)
        ensures
            r == self.0@.len(),
    {
        self.0.len()
    }
}

impl Default for SeqValue {
    /// The empty sequence.
    fn default() -> (r: Self)
        ensures
            r.0@ == Seq::<Value>::empty(),
    {
        SeqValue(Vec::new())
    }
}

/// Represents a map of key-value pairs, in insertion order. The wire format
/// preserves the entry order verbatim; on lookup the last occurrence of a
/// key wins.
#[derive(Debug)]
pub struct MapValue(pub Vec<(Value, Value)>);

impl MapValue {
    /// Appends an entry to the end of the map.
    pub fn push(&mut self, key: Value, value: Value)
        ensures
            final(self).0@ == old(self).0@.push((key, value)),
    {
        self.0.push((key, value));
    }

    /// The number of entries.
    pub fn len(&self) -> (r: usize)
        ensures
            r == self.0@.len(),
    {
        self.0.len()
    }
}

impl Default for MapValue {
    /// The empty map.
    fn default() -> (r: Self)
        ensures
            r.0@ == Seq::<(Value, Value)>::empty(),
    {
        MapValue(Vec::new())
    }
}

/// A value tree: the in-memory form of one encoded value.
#[derive(Debug)]
pub enum Value {
    /// Represents an integer number.
    Int(IntValue),
    /// Represents a string.
    String(StringValue),
    /// Represents a sequence of values.
    Sequence(SeqValue),
    /// Represents a map of key-value pairs.
    Mapping(MapValue),
    /// Represents a floating-point number.
    Float(FloatValue),
    /// Represents a byte array.
    Bytes(BytesValue),
    /// Represents a boolean.
    Bool(BoolValue),
    /// Represents a unit value.
    Unit(UnitValue),
    /// Represents a null value.
    Null(NullValue),
}

/// The mathematical shape of a [`Value`]: integers as mathematical
/// integers (so that representation width cannot matter), strings and byte
/// arrays as byte sequences, containers as sequences of shapes.
pub enum ValueSpec {
    /// An integer, as its mathematical value.
    Int(int),
    /// A string, as its UTF-8 bytes.
    String(Seq<u8>),
    /// A sequence of values.
    Sequence(Seq<ValueSpec>),
    /// A map: its entries, in order.
    Mapping(Seq<(ValueSpec, ValueSpec)>),
    /// A float, as its bit pattern.
    Float(FloatValue),
    /// A byte array.
    Bytes(Seq<u8>),
    /// A boolean.
    Bool(bool),
    /// The unit value.
    Unit,
    /// The null value.
    Null,
}

impl Value {
    /// The value's mathematical shape.
    pub open spec fn deep_view(&self) -> ValueSpec
        decreases self, 0int, 0int,
    {
        match self {
            Value::Int(i) => ValueSpec::Int(i.as_int()),
            Value::String(s) => ValueSpec::String(s.0@),
            Value::Sequence(s) => ValueSpec::Sequence(Self::deep_view_seq(s.0@)),
            Value::Mapping(m) => ValueSpec::Mapping(Self::deep_view_pairs(m.0@)),
            Value::Float(f) => ValueSpec::Float(*f),
            Value::Bytes(b) => ValueSpec::Bytes(b.0@),
            Value::Bool(b) => ValueSpec::Bool(b.0),
            Value::Unit(_) => ValueSpec::Unit,
            Value::Null(_) => ValueSpec::Null,
        }
    }

    /// The shapes of a sequence of values.
    pub open spec fn deep_view_seq(s: Seq<Value>) -> Seq<ValueSpec>
        decreases s, 1int, s.len(),
    {
        if s.len() == 0 {
            Seq::empty()
        } else {
            seq![s[0].deep_view()] + Self::deep_view_seq(s.drop_first())
        }
    }

    /// The shapes of a sequence of value pairs.
    pub open spec fn deep_view_pairs(s: Seq<(Value, Value)>) -> Seq<(ValueSpec, ValueSpec)>
        decreases s, 1int, s.len(),
    {
        if s.len() == 0 {
            Seq::empty()
        } else {
            seq![(s[0].0.deep_view(), s[0].1.deep_view())] + Self::deep_view_pairs(s.drop_first())
        }
    }

    /// True when every string in the tree holds valid UTF-8, as every
    /// decoded or properly constructed value does.
    pub open spec fn wf(&self) -> bool {
        self.deep_view().wf()
    }
}

/// The shapes of the elements, element by element.
pub proof fn lemma_deep_view_seq(s: Seq<Value>)
    ensures
        Value::deep_view_seq(s).len() == s.len(),
        forall|i: int| 0 <= i < s.len() ==> Value::deep_view_seq(s)[i] == s[i].deep_view(),
    decreases s.len(),
{
    if s.len() > 0 {
        lemma_deep_view_seq(s.drop_first());
    }
}

/// The shapes of the entries, entry by entry.
pub proof fn lemma_deep_view_pairs(s: Seq<(Value, Value)>)
    ensures
        Value::deep_view_pairs(s).len() == s.len(),
        forall|i: int| 0 <= i < s.len() ==> Value::deep_view_pairs(s)[i] == (
        s[i].0.deep_view(),
        s[i].1.deep_view(),
        ),
    decreases s.len(),
{
    if s.len() > 0 {
        lemma_deep_view_pairs(s.drop_first());
    }
}

impl ValueSpec {
    /// True when the shape is one a value tree can hold: integers within
    /// the signed-to-unsigned 64-bit range, lengths addressable, and every
    /// string valid UTF-8.
    pub open spec fn wf(&self) -> bool
        decreases self, 0int, 0int,
    {
        match self {
            ValueSpec::Int(i) => -0x8000_0000_0000_0000 <= *i <= 0xffff_ffff_ffff_ffff,
            ValueSpec::String(s) => vstd::utf8::valid_utf8(*s) && s.len() <= usize::MAX,
            ValueSpec::Bytes(s) => s.len() <= usize::MAX,
            ValueSpec::Sequence(s) => s.len() <= usize::MAX && Self::wf_seq(*s),
            ValueSpec::Mapping(m) => m.len() <= usize::MAX && Self::wf_pairs(*m),
            _ => true,
        }
    }

    /// True when every element is well-formed.
    pub open spec fn wf_seq(s: Seq<ValueSpec>) -> bool
        decreases s, 1int, s.len(),
    {
        s.len() == 0 || (s[0].wf() && Self::wf_seq(s.drop_first()))
    }

    /// True when every entry is well-formed.
    pub open spec fn wf_pairs(s: Seq<(ValueSpec, ValueSpec)>) -> bool
        decreases s, 1int, s.len(),
    {
        s.len() == 0 || (s[0].0.wf() && s[0].1.wf() && Self::wf_pairs(s.drop_first()))
    }
}

/// A sequence of shapes is well-formed exactly when each element is.
pub proof fn lemma_wf_seq(s: Seq<ValueSpec>)
    ensures
        ValueSpec::wf_seq(s) <==> (forall|i: int| 0 <= i < s.len() ==> s[i].wf()),
    decreases s.len(),
{
    if s.len() > 0 {
        lemma_wf_seq(s.drop_first());
        assert(forall|i: int| 1 <= i < s.len() ==> s[i] == s.drop_first()[i - 1]);
    }
}

/// A sequence of entry shapes is well-formed exactly when each entry is.
pub proof fn lemma_wf_pairs(s: Seq<(ValueSpec, ValueSpec)>)
    ensures
        ValueSpec::wf_pairs(s) <==> (forall|i: int|
            0 <= i < s.len() ==> s[i].0.wf() && s[i].1.wf()),
    decreases s.len(),
{
    if s.len() > 0 {
        lemma_wf_pairs(s.drop_first());
        assert(forall|i: int| 1 <= i < s.len() ==> s[i] == s.drop_first()[i - 1]);
    }
}

/// Byte-sequence equality, element by element.
fn bytes_eq(a: &Vec<u8>, b: &Vec<u8>) -> (r: bool)
    ensures
        r == (a@ == b@),
{
    if a.len() != b.len() {
        proof {
            assert(a@.len() != b@.len());
        }
        return false;
    }
    let n = a.len();
    let mut i: usize = 0;
    while i < n
        invariant
            n == a@.len(),
            n == b@.len(),
            i <= n,
            forall|j: int| 0 <= j < i ==> a@[j] == b@[j],
        decreases n - i,
    {
        if a[i] != b[i] {
            return false;
        }
        i = i + 1;
    }
    proof {
        assert(a@ =~= b@);
    }
    true
}

impl Value {
    /// Deep equality of two value trees: integers compare by mathematical
    /// value, floats by bit pattern, containers element by element.
    fn deep_eq(&self, other: &Value) -> (r: bool)
        ensures
            r == (self.deep_view() == other.deep_view()),
        decreases self,
    {
        match (self, other) {
            (Value::Int(a), Value::Int(b)) => a.eq(b),
            (Value::String(a), Value::String(b)) => bytes_eq(&a.0, &b.0),
            (Value::Bytes(a), Value::Bytes(b)) => bytes_eq(&a.0, &b.0),
            (Value::Float(a), Value::Float(b)) => a == b,
            (Value::Bool(a), Value::Bool(b)) => a.0 == b.0,
            (Value::Unit(_), Value::Unit(_)) => true,
            (Value::Null(_), Value::Null(_)) => true,
            (Value::Sequence(a), Value::Sequence(b)) => {
                proof {
                    lemma_deep_view_seq(a.0@);
                    lemma_deep_view_seq(b.0@);
                }
                if a.0.len() != b.0.len() {
                    return false;
                }
                let n = a.0.len();
                let mut i: usize = 0;
                while i < n
                    invariant
                        n == a.0@.len(),
                        n == b.0@.len(),
                        i <= n,
                        Value::deep_view_seq(a.0@).len() == n,
                        Value::deep_view_seq(b.0@).len() == n,
                        forall|j: int|
                            0 <= j < n ==> Value::deep_view_seq(a.0@)[j] == a.0@[j].deep_view(),
                        forall|j: int|
                            0 <= j < n ==> Value::deep_view_seq(b.0@)[j] == b.0@[j].deep_view(),
                        forall|j: int| 0 <= j < i ==> a.0@[j].deep_view() == b.0@[j].deep_view(),
                        *self == Value::Sequence(*a),
                        self.deep_view() == ValueSpec::Sequence(Value::deep_view_seq(a.0@)),
                        other.deep_view() == ValueSpec::Sequence(Value::deep_view_seq(b.0@)),
                    decreases n - i,
                {
                    proof {
                        vstd::std_specs::vec::axiom_vec_index_decreases(a.0, i as int);
                    }
                    if !a.0[i].deep_eq(&b.0[i]) {
                        proof {
                            assert(Value::deep_view_seq(a.0@)[i as int] != Value::deep_view_seq(
                                b.0@,
                            )[i as int]);
                        }
                        return false;
                    }
                    i = i + 1;
                }
                proof {
                    assert(Value::deep_view_seq(a.0@) =~= Value::deep_view_seq(b.0@));
                }
                true
            },
            (Value::Mapping(a), Value::Mapping(b)) => {
                proof {
                    lemma_deep_view_pairs(a.0@);
                    lemma_deep_view_pairs(b.0@);
                }
                if a.0.len() != b.0.len() {
                    return false;
                }
                let n = a.0.len();
                let mut i: usize = 0;
                while i < n
                    invariant
                        n == a.0@.len(),
                        n == b.0@.len(),
                        i <= n,
                        Value::deep_view_pairs(a.0@).len() == n,
                        Value::deep_view_pairs(b.0@).len() == n,
                        forall|j: int|
                            0 <= j < n ==> Value::deep_view_pairs(a.0@)[j] == (
                            a.0@[j].0.deep_view(),
                            a.0@[j].1.deep_view(),
                            ),
                        forall|j: int|
                            0 <= j < n ==> Value::deep_view_pairs(b.0@)[j] == (
                            b.0@[j].0.deep_view(),
                            b.0@[j].1.deep_view(),
                            ),
                        forall|j: int|
                            0 <= j < i ==> a.0@[j].0.deep_view() == b.0@[j].0.deep_view()
                                && a.0@[j].1.deep_view() == b.0@[j].1.deep_view(),
                        *self == Value::Mapping(*a),
                        self.deep_view() == ValueSpec::Mapping(Value::deep_view_pairs(a.0@)),
                        other.deep_view() == ValueSpec::Mapping(Value::deep_view_pairs(b.0@)),
                    decreases n - i,
                {
                    proof {
                        vstd::std_specs::vec::axiom_vec_index_decreases(a.0, i as int);
                    }
                    let entry_eq = {
                        let ka = &a.0[i].0;
                        let kb = &b.0[i].0;
                        ka.deep_eq(kb)
                    };
                    if !entry_eq {
                        proof {
                            assert(Value::deep_view_pairs(a.0@)[i as int]
                                != Value::deep_view_pairs(b.0@)[i as int]);
                        }
                        return false;
                    }
                    let value_eq = {
                        let va = &a.0[i].1;
                        let vb = &b.0[i].1;
                        va.deep_eq(vb)
                    };
                    if !value_eq {
                        proof {
                            assert(Value::deep_view_pairs(a.0@)[i as int]
                                != Value::deep_view_pairs(b.0@)[i as int]);
                        }
                        return false;
                    }
                    i = i + 1;
                }
                proof {
                    assert(Value::deep_view_pairs(a.0@) =~= Value::deep_view_pairs(b.0@));
                }
                true
            },
            _ => {
                proof {
                    assert(self.deep_view() != other.deep_view());
                }
                false
            },
        }
    }
}

impl PartialEq for Value {
    /// Deep, representation-independent equality.
    fn eq(&self, other: &Value) -> (r: bool) {
        self.deep_eq(other)
    }
}

impl Eq for Value {

}

impl vstd::std_specs::cmp::PartialEqSpecImpl for Value {
    open spec fn obeys_eq_spec() -> bool {
        true
    }

    open spec fn eq_spec(&self, other: &Value) -> bool {
        self.deep_view() == other.deep_view()
    }
}

} // verus!
