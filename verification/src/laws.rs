//! The laws the three adapter halves obey together. The synthesizers are
//! proved individually against their specifications; these proofs state
//! what the specifications give jointly: serializing, resolving and
//! deserializing recovers every valid value of every supported shape, a
//! transformation chain of any length is undone by exactly as many unwrap
//! steps, and the accessor modes never change the serialized bytes.

use vstd::prelude::*;

use crate::archive::spec_resolved;
use crate::chain::lemma_unwrap_n;
use crate::chain::spec_unwrap_n;
use crate::chain::spec_wrap;
use crate::chain::Chain;
use crate::codec::enc_field;
use crate::codec::field_model_wf;
use crate::codec::lemma_dec_enc_field;
use crate::deserialize::spec_deserialize;
use crate::deserialize::spec_field_deserialize;
use crate::deserialize::spec_fields_deserialize;
use crate::plan::plan_field_wf;
use crate::plan::value_fits;
use crate::plan::Plan;
use crate::plan::PlanField;
use crate::plan::PlanShape;
use crate::serialize::fields_of;
use crate::serialize::offset_of;
use crate::serialize::payload_fields;
use crate::serialize::payload_plan;
use crate::serialize::lemma_payload_plan_is_payload;
use crate::serialize::slots_fields;
use crate::serialize::spec_payload;
use crate::serialize::spec_resolver;
use crate::value::FieldValueModel;
use crate::value::ForeignValueModel;

verus! {

/// Deserializing a row of fields from the bytes its serialization wrote,
/// at the slots its resolver recorded, recovers the row exactly.
proof fn lemma_fields_round_trip(
    pfs: Seq<PlanField>,
    fs: Seq<FieldValueModel>,
    bytes: Seq<u8>,
    start: int,
)
    requires
        pfs.len() == fs.len(),
        forall|i: int| 0 <= i < pfs.len() ==> plan_field_wf(#[trigger] pfs[i]),
        forall|i: int| 0 <= i < fs.len() ==> field_model_wf(#[trigger] fs[i]),
        0 <= start,
        start + payload_fields(fs).len() <= bytes.len(),
        bytes.subrange(start, start + payload_fields(fs).len() as int) == payload_fields(fs),
    ensures
        spec_fields_deserialize(pfs, slots_fields(fs, start), bytes) == Result::<
            Seq<FieldValueModel>,
            crate::deserialize::DeserializeError,
        >::Ok(fs),
    decreases fs.len(),
{
    let slots = slots_fields(fs, start);
    if fs.len() == 0 {
        assert(spec_fields_deserialize(pfs, slots, bytes) == Result::<
            Seq<FieldValueModel>,
            crate::deserialize::DeserializeError,
        >::Ok(Seq::<FieldValueModel>::empty()));
        assert(fs =~= Seq::<FieldValueModel>::empty());
    } else {
        let l0 = enc_field(fs[0]).len() as int;
        assert(payload_fields(fs) == enc_field(fs[0]) + payload_fields(fs.drop_first()));
        assert(fs.take(0) =~= Seq::<FieldValueModel>::empty());
        assert(payload_fields(Seq::<FieldValueModel>::empty()) == Seq::<u8>::empty());
        assert(offset_of(fs, 0) == 0);
        assert(slots[0] == (start, l0));

        // field 0's bytes are its encoding
        assert(bytes.subrange(start, start + l0) =~= enc_field(fs[0]));
        lemma_dec_enc_field(fs[0]);

        // the carried unwrap count strips the chain's layers completely
        let w = spec_wrap(pfs[0].chain.layers@, fs[0]);
        lemma_unwrap_n(w, pfs[0].chain.unwrap_count as nat);
        assert(pfs[0].chain.layers@.skip(pfs[0].chain.layers@.len() as int) =~= Seq::<
            String,
        >::empty());
        assert(spec_field_deserialize(pfs[0], slots[0], bytes) == Result::<
            FieldValueModel,
            crate::deserialize::DeserializeError,
        >::Ok(fs[0]));

        // the rest of the row, one field further in
        let rest = payload_fields(fs.drop_first());
        assert forall|k: int| 0 <= k < rest.len() implies bytes.subrange(
            start + l0,
            start + l0 + rest.len() as int,
        )[k] == rest[k] by {
            assert(bytes[start + l0 + k] == bytes.subrange(
                start,
                start + payload_fields(fs).len() as int,
            )[l0 + k]);
            assert(payload_fields(fs)[l0 + k] == rest[k]);
        }
        assert(bytes.subrange(start + l0, start + l0 + rest.len() as int) =~= rest);
        lemma_fields_round_trip(pfs.drop_first(), fs.drop_first(), bytes, start + l0);

        assert(slots.drop_first() =~= slots_fields(fs.drop_first(), start + l0)) by {
            assert forall|j: int| 0 <= j < fs.len() - 1 implies slots.drop_first()[j]
                == slots_fields(fs.drop_first(), start + l0)[j] by {
                assert(fs.take(j + 1)[0] == fs[0]);
                assert(fs.take(j + 1).drop_first() =~= fs.drop_first().take(j));
                assert(payload_fields(fs.take(j + 1)) == enc_field(fs[0]) + payload_fields(
                    fs.drop_first().take(j),
                ));
                assert(offset_of(fs, j + 1) == l0 + offset_of(fs.drop_first(), j));
            }
        }
        assert(spec_fields_deserialize(pfs, slots, bytes) == Result::<
            Seq<FieldValueModel>,
            crate::deserialize::DeserializeError,
        >::Ok(seq![fs[0]] + fs.drop_first()));
        assert(seq![fs[0]] + fs.drop_first() =~= fs);
    }
}

/// Round trip: for every supported shape — named, positional or unit
/// struct, or a sum type with any mix of variant shapes — and every value
/// that fits the plan, serializing the value, resolving the archived
/// representation with the resolver the serialization produced, and
/// deserializing from the written bytes recovers the value exactly,
/// wherever in the buffer the payload starts.
pub proof fn lemma_round_trip(plan: Plan, vm: ForeignValueModel, prefix: Seq<u8>)
    requires
        plan.wf(),
        value_fits(plan, vm),
    ensures
        spec_resolved(vm, spec_resolver(vm, prefix.len() as int)) is Some,
        spec_deserialize(
            plan,
            spec_resolved(vm, spec_resolver(vm, prefix.len() as int))->Some_0,
            prefix + spec_payload(vm),
        ) == Result::<ForeignValueModel, crate::deserialize::DeserializeError>::Ok(vm),
{
    let fs = fields_of(vm);
    let start = prefix.len() as int;
    let bytes = prefix + spec_payload(vm);
    let slots = slots_fields(fs, start);
    assert(bytes.subrange(start, start + payload_fields(fs).len() as int) =~= payload_fields(fs));
    match vm {
        ForeignValueModel::Struct(_) => {
            match plan.shape {
                PlanShape::Struct(_, pfs) => {
                    assert(forall|i: int|
                        0 <= i < pfs@.len() ==> plan_field_wf(#[trigger] pfs@[i]));
                    lemma_fields_round_trip(pfs@, fs, bytes, start);
                },
                PlanShape::Sum(_) => {
                    assert(false);
                },
            }
        },
        ForeignValueModel::Variant(t, _) => {
            match plan.shape {
                PlanShape::Sum(vars) => {
                    assert(crate::plan::plan_fields_wf(vars@[t].kind, vars@[t].fields@));
                    assert(forall|i: int|
                        0 <= i < vars@[t].fields@.len() ==> plan_field_wf(
                            #[trigger] vars@[t].fields@[i],
                        ));
                    lemma_fields_round_trip(vars@[t].fields@, fs, bytes, start);
                },
                PlanShape::Struct(_, _) => {
                    assert(false);
                },
            }
        },
    }
}

/// Chain inversion: viewing a value through a chain of `n` wrapper layers
/// and then applying exactly `n` unwrap steps — one per layer, however
/// long the chain — recovers the value with no layer left.
pub proof fn lemma_chain_inversion(layers: Seq<String>, core: FieldValueModel)
    ensures
        spec_unwrap_n(spec_wrap(layers, core), layers.len()) == Option::Some(
            spec_wrap(Seq::<String>::empty(), core),
        ),
{
    lemma_unwrap_n(spec_wrap(layers, core), layers.len());
    assert(layers.skip(layers.len() as int) =~= Seq::<String>::empty());
}

/// The unwrap count a resolved chain carries undoes exactly the layers it
/// composed: the deserialize half applies as many unwrap steps as the
/// chain declared wrappers.
pub proof fn lemma_chain_count_inverts(c: Chain, core: FieldValueModel)
    requires
        c.unwrap_count == c.layers@.len(),
    ensures
        spec_unwrap_n(spec_wrap(c.layers@, core), c.unwrap_count as nat) == Option::Some(
            spec_wrap(Seq::<String>::empty(), core),
        ),
{
    lemma_chain_inversion(c.layers@, core);
}

/// Accessor independence: two plans serving the same row — whatever their
/// accessor declarations and modes — write identical serialized bytes for
/// equal input values.
pub proof fn lemma_accessor_modes_agree(
    pfs1: Seq<PlanField>,
    pfs2: Seq<PlanField>,
    fs: Seq<FieldValueModel>,
)
    requires
        pfs1.len() == fs.len(),
        pfs2.len() == fs.len(),
    ensures
        payload_plan(pfs1, fs) == payload_plan(pfs2, fs),
        payload_plan(pfs1, fs) == payload_fields(fs),
{
    lemma_payload_plan_is_payload(pfs1, fs);
    lemma_payload_plan_is_payload(pfs2, fs);
}

} // verus!
