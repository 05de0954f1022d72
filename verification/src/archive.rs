//! The archive synthesizer. Resolving pairs a foreign value with the
//! resolver its serialization produced and lays out the fixed
//! representation: for a sum type the tag — the variant's declaration
//! index — comes first, then one archived field per declared field, in
//! declaration order. The resolver and the value must denote the same
//! variant; here that is an explicit, checked precondition surfaced as a
//! result rather than an assumed impossibility.

use vstd::prelude::*;

use crate::plan::value_fits;
use crate::plan::Plan;
use crate::serialize::FieldResolver;
use crate::serialize::Resolver;
use crate::serialize::ResolverModel;
use crate::value::ForeignValue;
use crate::value::ForeignValueModel;

verus! {

/// One archived field: the fixed-layout reference to the field's bytes.
#[derive(Debug, PartialEq, Eq)]
pub struct ArchivedField {
    /// The position of the field's bytes in the serialized buffer.
    pub pos: usize,
    /// The length of the field's bytes.
    pub len: usize,
}

impl View for ArchivedField {
    type V = (int, int);

    open spec fn view(&self) -> (int, int) {
        (self.pos as int, self.len as int)
    }
}

impl DeepView for ArchivedField {
    type V = (int, int);

    open spec fn deep_view(&self) -> (int, int) {
        self.view()
    }
}

/// The fixed-layout archived representation of a value: for a sum type the
/// tag first, then the fields in declaration order.
#[derive(Debug, PartialEq, Eq)]
pub enum ArchivedValue {
    /// An archived struct.
    Struct(Vec<ArchivedField>),
    /// An archived sum-type value: the tag — the variant's declaration
    /// index — then the variant's fields.
    Variant(usize, Vec<ArchivedField>),
}

/// The mathematical model of an [`ArchivedValue`].
#[verifier::ext_equal]
pub enum ArchivedModel {
    Struct(Seq<(int, int)>),
    Variant(int, Seq<(int, int)>),
}

impl View for ArchivedValue {
    type V = ArchivedModel;

    open spec fn view(&self) -> ArchivedModel {
        match self {
            ArchivedValue::Struct(fs) => ArchivedModel::Struct(fs.deep_view()),
            ArchivedValue::Variant(t, fs) => ArchivedModel::Variant(*t as int, fs.deep_view()),
        }
    }
}

/// The error resolving fails with when the resolver and the value denote
/// different variants: an internal-consistency violation, surfaced instead
/// of assumed away.
#[derive(Debug, PartialEq, Eq)]
pub struct VariantMismatch;

/// What resolving a value with a resolver lays out, when the two agree:
/// the value's variant index as the tag, and the resolver's slots as the
/// archived fields, in declaration order.
pub open spec fn spec_resolved(vm: ForeignValueModel, rm: ResolverModel) -> Option<ArchivedModel> {
    match (vm, rm) {
        (ForeignValueModel::Struct(_), ResolverModel::Struct(slots)) => Option::Some(
            ArchivedModel::Struct(slots),
        ),
        (ForeignValueModel::Variant(t, _), ResolverModel::Variant(rt, slots)) => if t == rt {
            Option::Some(ArchivedModel::Variant(t, slots))
        } else {
            Option::None
        },
        _ => Option::None,
    }
}

/// Converts resolver slots into archived fields, one for one, in order.
fn slots_to_archived(slots: Vec<FieldResolver>) -> (r: Vec<ArchivedField>)
    ensures
        r.deep_view() == slots.deep_view(),
{
    let mut r: Vec<ArchivedField> = Vec::new();
    let mut i: usize = 0;
    #[verifier::loop_isolation(false)]
    while i < slots.len()
        invariant
            i <= slots@.len(),
            r@.len() == i,
            forall|j: int| 0 <= j < i ==> #[trigger] r.deep_view()[j] == slots.deep_view()[j],
        decreases slots@.len() - i,
    {
        let s: &FieldResolver = &slots[i];
        let ghost r0 = r.deep_view();
        r.push(ArchivedField { pos: s.pos, len: s.len });
        proof {
            assert forall|j: int| 0 <= j < i + 1 implies #[trigger] r.deep_view()[j]
                == slots.deep_view()[j] by {
                assert(r.deep_view()[j] == r@[j].deep_view());
                if j < i {
                    assert(r.deep_view()[j] == r0[j]);
                }
            }
        }
        i = i + 1;
    }
    assert(r.deep_view() =~= slots.deep_view());
    r
}

/// Resolves a foreign value with the resolver its serialization produced,
/// laying out the archived representation: the tag — the value's variant
/// declaration index — first, then each field's archived reference in
/// declaration order. Fails exactly when the resolver and the value denote
/// different variants or shapes.
pub fn resolve_with(plan: &Plan, value: &ForeignValue, resolver: Resolver) -> (r: Result<
    ArchivedValue,
    VariantMismatch,
>)
    requires
        plan.wf(),
        value_fits(*plan, value@),
    ensures
        r matches Ok(a) ==> spec_resolved(value@, resolver@) == Option::Some(a@),
        r is Err <==> spec_resolved(value@, resolver@) is None,
{
    match (value, resolver) {
        (ForeignValue::Struct(_), Resolver::Struct(slots)) => Result::Ok(
            ArchivedValue::Struct(slots_to_archived(slots)),
        ),
        (ForeignValue::Variant(t, _), Resolver::Variant(rt, slots)) => {
            if *t == rt {
                Result::Ok(ArchivedValue::Variant(rt, slots_to_archived(slots)))
            } else {
                Result::Err(VariantMismatch)
            }
        },
        (ForeignValue::Struct(_), Resolver::Variant(_, _)) => Result::Err(VariantMismatch),
        (ForeignValue::Variant(_, _), Resolver::Struct(_)) => Result::Err(VariantMismatch),
    }
}

} // verus!
