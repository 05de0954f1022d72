//! The deserialize synthesizer: the mirror of the serialize half. It walks
//! the archived representation in the same shape, invokes the nested
//! deserialize protocol for every field — which yields the chain's outer
//! wrapper value — applies the unwrap builder the declared number of
//! times, and reassembles the foreign value with the type's own
//! constructor shape. For a sum type the archived tag selects the variant
//! constructor.

use vstd::prelude::*;

use crate::archive::ArchivedField;
use crate::archive::ArchivedModel;
use crate::archive::ArchivedValue;
use crate::chain::spec_unwrap_n;
use crate::chain::spec_wrap;
use crate::chain::wrap_value;
use crate::chain::WrappedValue;
use crate::codec::dec_field;
use crate::codec::decode_field;
use crate::plan::Plan;
use crate::plan::PlanField;
use crate::plan::PlanShape;
use crate::plan::PlanVariant;
use crate::value::FieldValue;
use crate::value::FieldValueModel;
use crate::value::ForeignValue;
use crate::value::ForeignValueModel;

verus! {

/// Why deserializing an archived representation fails.
#[derive(Debug, PartialEq, Eq, Clone, Copy)]
pub enum DeserializeError {
    /// The archived shape is not the plan's shape.
    ShapeMismatch,
    /// The archived tag names no declared variant.
    UnknownTag,
    /// An archived field points outside the serialized buffer.
    OutOfBounds,
    /// An archived field's bytes hold no valid encoding.
    BadEncoding,
    /// The unwrap steps did not recover the declared field type.
    ChainMismatch,
}

/// What the nested deserialize protocol followed by the unwrap builder
/// recovers for one field: the field's bytes decoded under the chain's
/// wrapper layers, then exactly the carried number of unwrap steps, which
/// must strip the layers completely.
pub open spec fn spec_field_deserialize(pf: PlanField, slot: (int, int), bytes: Seq<u8>) -> Result<
    FieldValueModel,
    DeserializeError,
> {
    if !(0 <= slot.0 && 0 <= slot.1 && slot.0 + slot.1 <= bytes.len()) {
        Result::Err(DeserializeError::OutOfBounds)
    } else {
        match dec_field(bytes.subrange(slot.0, slot.0 + slot.1)) {
            Option::None => Result::Err(DeserializeError::BadEncoding),
            Option::Some(core) => {
                let w = spec_wrap(pf.chain.layers@, core);
                match spec_unwrap_n(w, pf.chain.unwrap_count as nat) {
                    Option::None => Result::Err(DeserializeError::ChainMismatch),
                    Option::Some(w2) => if w2.layers.len() == 0 {
                        Result::Ok(w2.inner)
                    } else {
                        Result::Err(DeserializeError::ChainMismatch)
                    },
                }
            },
        }
    }
}

/// What deserializing a row of archived fields recovers: one slot per plan
/// field, each field in declaration order, with the first field's failure
/// reported.
pub open spec fn spec_fields_deserialize(
    pfs: Seq<PlanField>,
    slots: Seq<(int, int)>,
    bytes: Seq<u8>,
) -> Result<Seq<FieldValueModel>, DeserializeError>
    decreases pfs.len(),
{
    if pfs.len() != slots.len() {
        Result::Err(DeserializeError::ShapeMismatch)
    } else if pfs.len() == 0 {
        Result::Ok(Seq::empty())
    } else {
        match spec_field_deserialize(pfs[0], slots[0], bytes) {
            Result::Ok(m) => match spec_fields_deserialize(
                pfs.drop_first(),
                slots.drop_first(),
                bytes,
            ) {
                Result::Ok(rest) => Result::Ok(seq![m] + rest),
                Result::Err(e) => Result::Err(e),
            },
            Result::Err(e) => Result::Err(e),
        }
    }
}

/// What deserializing an archived representation recovers: the foreign
/// value of the plan's shape, with the archived tag selecting the variant.
pub open spec fn spec_deserialize(p: Plan, am: ArchivedModel, bytes: Seq<u8>) -> Result<
    ForeignValueModel,
    DeserializeError,
> {
    match (p.shape, am) {
        (PlanShape::Struct(_, pfs), ArchivedModel::Struct(slots)) => match spec_fields_deserialize(
            pfs@,
            slots,
            bytes,
        ) {
            Result::Ok(fs) => Result::Ok(ForeignValueModel::Struct(fs)),
            Result::Err(e) => Result::Err(e),
        },
        (PlanShape::Sum(vars), ArchivedModel::Variant(t, slots)) => if 0 <= t < vars@.len() {
            match spec_fields_deserialize(vars@[t].fields@, slots, bytes) {
                Result::Ok(fs) => Result::Ok(ForeignValueModel::Variant(t, fs)),
                Result::Err(e) => Result::Err(e),
            }
        } else {
            Result::Err(DeserializeError::UnknownTag)
        },
        _ => Result::Err(DeserializeError::ShapeMismatch),
    }
}

/// Deserializes one row of archived fields against its plan fields.
fn deserialize_fields(pfs: &Vec<PlanField>, slots: &Vec<ArchivedField>, bytes: &Vec<u8>) -> (r:
    Result<Vec<FieldValue>, DeserializeError>)
    ensures
        match r {
            Result::Ok(fs) => spec_fields_deserialize(pfs@, slots.deep_view(), bytes@)
                == Result::<Seq<FieldValueModel>, DeserializeError>::Ok(fs.deep_view()),
            Result::Err(e) => spec_fields_deserialize(pfs@, slots.deep_view(), bytes@)
                == Result::<Seq<FieldValueModel>, DeserializeError>::Err(e),
        },
{
    let total: usize = bytes.len();
    if pfs.len() != slots.len() {
        return Result::Err(DeserializeError::ShapeMismatch);
    }
    let mut out: Vec<FieldValue> = Vec::new();
    let mut i: usize = 0;
    proof {
        assert(pfs@.skip(0) =~= pfs@);
        assert(slots.deep_view().skip(0) =~= slots.deep_view());
        assert(out.deep_view() =~= Seq::<FieldValueModel>::empty());
        assert forall|rest: Seq<FieldValueModel>| out.deep_view() + rest =~= rest by {}
    }
    #[verifier::loop_isolation(false)]
    while i < pfs.len()
        invariant
            i <= pfs@.len(),
            out@.len() == i,
            spec_fields_deserialize(pfs@, slots.deep_view(), bytes@) == (match
                spec_fields_deserialize(
                pfs@.skip(i as int),
                slots.deep_view().skip(i as int),
                bytes@,
            ) {
                Result::Ok(rest) => Result::<Seq<FieldValueModel>, DeserializeError>::Ok(
                    out.deep_view() + rest,
                ),
                Result::Err(e) => Result::<Seq<FieldValueModel>, DeserializeError>::Err(e),
            }),
        decreases pfs@.len() - i,
    {
        let ghost pf_tail = pfs@.skip(i as int);
        let ghost slot_tail = slots.deep_view().skip(i as int);
        proof {
            assert(pf_tail[0] == pfs@[i as int]);
            assert(slot_tail[0] == slots.deep_view()[i as int]);
            assert(pf_tail.drop_first() =~= pfs@.skip(i as int + 1));
            assert(slot_tail.drop_first() =~= slots.deep_view().skip(i as int + 1));
        }
        let pf: &PlanField = &pfs[i];
        let slot: &ArchivedField = &slots[i];
        proof {
            assert(slots.deep_view()[i as int] == slots@[i as int].deep_view());
        }
        if !(slot.pos <= total && slot.len <= total - slot.pos) {
            return Result::Err(DeserializeError::OutOfBounds);
        }
        let core: FieldValue = match decode_field(bytes, slot.pos, slot.len) {
            Option::Some(v) => v,
            Option::None => {
                return Result::Err(DeserializeError::BadEncoding);
            },
        };
        let w: WrappedValue = wrap_value(&pf.chain, core);
        let w2: WrappedValue = match w.unwrap_layers(pf.chain.unwrap_count) {
            Option::Some(w2) => w2,
            Option::None => {
                return Result::Err(DeserializeError::ChainMismatch);
            },
        };
        if w2.layers.len() != 0 {
            return Result::Err(DeserializeError::ChainMismatch);
        }
        let ghost out0 = out.deep_view();
        let ghost m = w2.inner@;
        out.push(w2.inner);
        proof {
            assert(spec_field_deserialize(pfs@[i as int], slots.deep_view()[i as int], bytes@)
                == Result::<FieldValueModel, DeserializeError>::Ok(m));
            assert(out.deep_view() =~= out0.push(m)) by {
                assert(out.deep_view().len() == out0.len() + 1);
                assert forall|j: int| 0 <= j < out0.len() implies out.deep_view()[j] == out0[j] by {
                    assert(out.deep_view()[j] == out@[j].deep_view());
                }
                assert(out.deep_view()[out0.len() as int] == m);
            }
            assert forall|rest: Seq<FieldValueModel>| out0 + (seq![m] + rest) =~= out.deep_view()
                + rest by {}
        }
        i = i + 1;
    }
    proof {
        assert(pfs@.skip(i as int).len() == 0);
        assert(slots.deep_view().skip(i as int).len() == 0);
        assert(out.deep_view() + Seq::<FieldValueModel>::empty() =~= out.deep_view());
    }
    Result::Ok(out)
}

/// Reconstructs the foreign value from its archived representation: the
/// same walk as the serialize half, inverted, with the archived tag
/// selecting the variant constructor. Succeeds exactly when the archived
/// representation is consistent with the plan and the buffer, and
/// otherwise reports exactly the first inconsistency found.
pub fn deserialize_with(plan: &Plan, archived: &ArchivedValue, bytes: &Vec<u8>) -> (r: Result<
    ForeignValue,
    DeserializeError,
>)
    ensures
        match r {
            Result::Ok(v) => spec_deserialize(*plan, archived@, bytes@) == Result::<
                ForeignValueModel,
                DeserializeError,
            >::Ok(v@),
            Result::Err(e) => spec_deserialize(*plan, archived@, bytes@) == Result::<
                ForeignValueModel,
                DeserializeError,
            >::Err(e),
        },
{
    match (&plan.shape, archived) {
        (PlanShape::Struct(_, pfs), ArchivedValue::Struct(slots)) => {
            match deserialize_fields(pfs, slots, bytes) {
                Result::Ok(fs) => Result::Ok(ForeignValue::Struct(fs)),
                Result::Err(e) => Result::Err(e),
            }
        },
        (PlanShape::Sum(vars), ArchivedValue::Variant(t, slots)) => {
            if *t >= vars.len() {
                return Result::Err(DeserializeError::UnknownTag);
            }
            let pv: &PlanVariant = &vars[*t];
            match deserialize_fields(&pv.fields, slots, bytes) {
                Result::Ok(fs) => Result::Ok(ForeignValue::Variant(*t, fs)),
                Result::Err(e) => Result::Err(e),
            }
        },
        (PlanShape::Struct(_, _), ArchivedValue::Variant(_, _)) => Result::Err(
            DeserializeError::ShapeMismatch,
        ),
        (PlanShape::Sum(_), ArchivedValue::Struct(_)) => Result::Err(
            DeserializeError::ShapeMismatch,
        ),
    }
}

} // verus!
