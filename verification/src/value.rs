//! The universal model of foreign values that the generated adapters work
//! on: a foreign value is a struct (a row of field values) or a sum-type
//! variant (a declaration index plus a row of field values), and each field
//! value is one of a small set of plain shapes.

use vstd::prelude::*;

verus! {

/// One field's runtime value.
#[derive(Debug, PartialEq, Eq)]
pub enum FieldValue {
    /// A single byte.
    Byte(u8),
    /// A machine integer.
    Int(u64),
    /// A byte string (paths and strings are carried as their bytes).
    Bytes(Vec<u8>),
    /// A list of machine integers.
    Ints(Vec<u64>),
    /// A list of byte strings.
    Texts(Vec<Vec<u8>>),
    /// An optional machine integer (a niche-friendly shape).
    OptInt(Option<u64>),
}

/// The mathematical model of a [`FieldValue`].
#[verifier::ext_equal]
pub enum FieldValueModel {
    Byte(u8),
    Int(u64),
    Bytes(Seq<u8>),
    Ints(Seq<u64>),
    Texts(Seq<Seq<u8>>),
    OptInt(Option<u64>),
}

impl View for FieldValue {
    type V = FieldValueModel;

    open spec fn view(&self) -> FieldValueModel {
        match self {
            FieldValue::Byte(b) => FieldValueModel::Byte(*b),
            FieldValue::Int(x) => FieldValueModel::Int(*x),
            FieldValue::Bytes(v) => FieldValueModel::Bytes(v@),
            FieldValue::Ints(v) => FieldValueModel::Ints(v@),
            FieldValue::Texts(v) => FieldValueModel::Texts(v.deep_view()),
            FieldValue::OptInt(o) => FieldValueModel::OptInt(*o),
        }
    }
}

impl DeepView for FieldValue {
    type V = FieldValueModel;

    open spec fn deep_view(&self) -> FieldValueModel {
        self.view()
    }
}

/// A whole foreign value: either a struct or one variant of a sum type,
/// identified by its declaration index.
#[derive(Debug, PartialEq, Eq)]
pub enum ForeignValue {
    /// A struct value (a unit struct is a struct with no fields).
    Struct(Vec<FieldValue>),
    /// A sum-type value: the variant's declaration index and its fields.
    Variant(usize, Vec<FieldValue>),
}

/// The mathematical model of a [`ForeignValue`].
#[verifier::ext_equal]
pub enum ForeignValueModel {
    Struct(Seq<FieldValueModel>),
    Variant(int, Seq<FieldValueModel>),
}

impl View for ForeignValue {
    type V = ForeignValueModel;

    open spec fn view(&self) -> ForeignValueModel {
        match self {
            ForeignValue::Struct(fs) => ForeignValueModel::Struct(fs.deep_view()),
            ForeignValue::Variant(i, fs) => ForeignValueModel::Variant(*i as int, fs.deep_view()),
        }
    }
}

/// Copies a byte string.
fn copy_bytes(v: &Vec<u8>) -> (r: Vec<u8>)
    ensures
        r@ == v@,
{
    let mut r: Vec<u8> = Vec::new();
    let mut i: usize = 0;
    while i < v.len()
        invariant
            i <= v.len(),
            r@ == v@.subrange(0, i as int),
        decreases v.len() - i,
    {
        r.push(v[i]);
        i = i + 1;
    }
    assert(r@ =~= v@);
    r
}

/// Copies a list of machine integers.
fn copy_ints(v: &Vec<u64>) -> (r: Vec<u64>)
    ensures
        r@ == v@,
{
    let mut r: Vec<u64> = Vec::new();
    let mut i: usize = 0;
    while i < v.len()
        invariant
            i <= v.len(),
            r@ == v@.subrange(0, i as int),
        decreases v.len() - i,
    {
        r.push(v[i]);
        i = i + 1;
    }
    assert(r@ =~= v@);
    r
}

/// Copies a list of byte strings.
fn copy_texts(v: &Vec<Vec<u8>>) -> (r: Vec<Vec<u8>>)
    ensures
        r.deep_view() == v.deep_view(),
{
    let mut r: Vec<Vec<u8>> = Vec::new();
    let mut i: usize = 0;
    while i < v.len()
        invariant
            i <= v.len(),
            r.len() == i,
            forall|j: int| 0 <= j < i ==> r.deep_view()[j] == v.deep_view()[j],
        decreases v.len() - i,
    {
        r.push(copy_bytes(&v[i]));
        i = i + 1;
    }
    assert(r.deep_view() =~= v.deep_view());
    r
}

impl FieldValue {
    /// Duplicates the value; this is the model of the foreign type's own
    /// duplication support that the owned accessor mode requires.
    pub fn duplicate(&self) -> (r: FieldValue)
        ensures
            r@ == self@,
    {
        match self {
            FieldValue::Byte(b) => FieldValue::Byte(*b),
            FieldValue::Int(x) => FieldValue::Int(*x),
            FieldValue::Bytes(v) => FieldValue::Bytes(copy_bytes(v)),
            FieldValue::Ints(v) => FieldValue::Ints(copy_ints(v)),
            FieldValue::Texts(v) => FieldValue::Texts(copy_texts(v)),
            FieldValue::OptInt(o) => FieldValue::OptInt(*o),
        }
    }
}

/// Copies a row of field values.
fn copy_fields(v: &Vec<FieldValue>) -> (r: Vec<FieldValue>)
    ensures
        r.deep_view() == v.deep_view(),
{
    let mut r: Vec<FieldValue> = Vec::new();
    let mut i: usize = 0;
    while i < v.len()
        invariant
            i <= v.len(),
            r.len() == i,
            forall|j: int| 0 <= j < i ==> r.deep_view()[j] == v.deep_view()[j],
        decreases v.len() - i,
    {
        r.push(v[i].duplicate());
        i = i + 1;
    }
    assert(r.deep_view() =~= v.deep_view());
    r
}

impl ForeignValue {
    /// Duplicates the whole foreign value (the foreign type's duplication
    /// support, used by the owned accessor mode).
    pub fn duplicate(&self) -> (r: ForeignValue)
        ensures
            r@ == self@,
    {
        match self {
            ForeignValue::Struct(fs) => ForeignValue::Struct(copy_fields(fs)),
            ForeignValue::Variant(i, fs) => ForeignValue::Variant(*i, copy_fields(fs)),
        }
    }
}

} // verus!
