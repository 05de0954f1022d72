//! The serialize synthesizer. For each field in declaration order it
//! obtains the field's value via its accessor contract, views it through
//! the wrap builder, forwards it to the nested serialize protocol against
//! the active sink — propagating the first sink failure with no retry —
//! and assembles the returned resolver slots into a resolver of the same
//! shape as the type.

use vstd::prelude::*;

use crate::chain::wrap_value;
use crate::chain::WrappedValue;
use crate::codec::enc_field;
use crate::codec::encode_field;
use crate::plan::value_fits;
use crate::plan::Plan;
use crate::plan::PlanField;
use crate::plan::PlanShape;
use crate::plan::PlanVariant;
use crate::sink::ByteSink;
use crate::sink::SinkError;
use crate::value::FieldValue;
use crate::value::FieldValueModel;
use crate::value::ForeignValue;
use crate::value::ForeignValueModel;

verus! {

/// One slot of a resolver: where a field's out-of-line bytes went, and how
/// many they are. This is the nested resolver the nested protocol returns.
#[derive(Debug, PartialEq, Eq)]
pub struct FieldResolver {
    /// The position of the field's bytes in the sink.
    pub pos: usize,
    /// The length of the field's bytes.
    pub len: usize,
}

impl View for FieldResolver {
    type V = (int, int);

    open spec fn view(&self) -> (int, int) {
        (self.pos as int, self.len as int)
    }
}

impl DeepView for FieldResolver {
    type V = (int, int);

    open spec fn deep_view(&self) -> (int, int) {
        self.view()
    }
}

/// The deferred portion of a serialized value: one slot per field, in
/// declaration order, mirroring the type's shape; for a sum type, the
/// variant it was produced from.
#[derive(Debug, PartialEq, Eq)]
pub enum Resolver {
    /// The resolver of a struct.
    Struct(Vec<FieldResolver>),
    /// The resolver of one sum-type variant: the variant's declaration
    /// index and its slots.
    Variant(usize, Vec<FieldResolver>),
}

/// The mathematical model of a [`Resolver`].
#[verifier::ext_equal]
pub enum ResolverModel {
    Struct(Seq<(int, int)>),
    Variant(int, Seq<(int, int)>),
}

impl View for Resolver {
    type V = ResolverModel;

    open spec fn view(&self) -> ResolverModel {
        match self {
            Resolver::Struct(slots) => ResolverModel::Struct(slots.deep_view()),
            Resolver::Variant(t, slots) => ResolverModel::Variant(*t as int, slots.deep_view()),
        }
    }
}

/// The field row of a foreign value, whatever its shape.
pub open spec fn fields_of(vm: ForeignValueModel) -> Seq<FieldValueModel> {
    match vm {
        ForeignValueModel::Struct(fs) => fs,
        ForeignValueModel::Variant(_, fs) => fs,
    }
}

/// The bytes the serialize half writes for a row of fields: each field's
/// encoding, in declaration order.
pub open spec fn payload_fields(fs: Seq<FieldValueModel>) -> Seq<u8>
    decreases fs.len(),
{
    if fs.len() == 0 {
        Seq::empty()
    } else {
        enc_field(fs[0]) + payload_fields(fs.drop_first())
    }
}

/// The bytes the serialize half writes for a foreign value.
pub open spec fn spec_payload(vm: ForeignValueModel) -> Seq<u8> {
    payload_fields(fields_of(vm))
}

/// Where field `i`'s bytes begin within the row's payload.
pub open spec fn offset_of(fs: Seq<FieldValueModel>, i: int) -> int {
    payload_fields(fs.take(i)).len() as int
}

/// The resolver slots of a row serialized starting at `start`.
pub open spec fn slots_fields(fs: Seq<FieldValueModel>, start: int) -> Seq<(int, int)> {
    Seq::new(fs.len(), |i: int| (start + offset_of(fs, i), enc_field(fs[i]).len() as int))
}

/// The resolver of a foreign value serialized starting at `start`.
pub open spec fn spec_resolver(vm: ForeignValueModel, start: int) -> ResolverModel {
    match vm {
        ForeignValueModel::Struct(fs) => ResolverModel::Struct(slots_fields(fs, start)),
        ForeignValueModel::Variant(t, fs) => ResolverModel::Variant(t, slots_fields(fs, start)),
    }
}

/// How many leading fields of a row a sink with `avail` free bytes takes
/// before the first rejected write.
pub open spec fn fits_count(fs: Seq<FieldValueModel>, avail: int) -> nat
    decreases fs.len(),
{
    if fs.len() == 0 {
        0
    } else if enc_field(fs[0]).len() <= avail {
        (1 + fits_count(fs.drop_first(), avail - enc_field(fs[0]).len())) as nat
    } else {
        0
    }
}

/// A row's payload splits at any field boundary.
pub proof fn lemma_payload_split(fs: Seq<FieldValueModel>, k: int)
    requires
        0 <= k <= fs.len(),
    ensures
        payload_fields(fs) == payload_fields(fs.take(k)) + payload_fields(fs.skip(k)),
    decreases k,
{
    if k == 0 {
        assert(fs.take(0) =~= Seq::<FieldValueModel>::empty());
        assert(fs.skip(0) =~= fs);
        assert(payload_fields(fs.take(0)) == Seq::<u8>::empty());
        assert(payload_fields(fs) =~= payload_fields(fs.take(0)) + payload_fields(fs.skip(0)));
    } else {
        lemma_payload_split(fs.drop_first(), k - 1);
        assert(fs.take(k)[0] == fs[0]);
        assert(fs.take(k).drop_first() =~= fs.drop_first().take(k - 1));
        assert(fs.skip(k) =~= fs.drop_first().skip(k - 1));
        assert(payload_fields(fs.take(k)) == enc_field(fs[0]) + payload_fields(
            fs.drop_first().take(k - 1),
        ));
        assert(payload_fields(fs) == enc_field(fs[0]) + payload_fields(fs.drop_first()));
        assert(payload_fields(fs) =~= payload_fields(fs.take(k)) + payload_fields(fs.skip(k)));
    }
}

/// Extending a row by one field extends its payload by that field's
/// encoding.
pub proof fn lemma_payload_push(fs: Seq<FieldValueModel>, k: int)
    requires
        0 <= k < fs.len(),
    ensures
        payload_fields(fs.take(k + 1)) == payload_fields(fs.take(k)) + enc_field(fs[k]),
{
    lemma_payload_split(fs.take(k + 1), k);
    assert(fs.take(k + 1).take(k) =~= fs.take(k));
    assert(fs.take(k + 1).skip(k) =~= seq![fs[k]]);
    assert(payload_fields(seq![fs[k]]) == enc_field(fs[k]) + payload_fields(
        seq![fs[k]].drop_first(),
    ));
    assert(seq![fs[k]].drop_first() =~= Seq::<FieldValueModel>::empty());
    assert(payload_fields(fs.take(k + 1)) =~= payload_fields(fs.take(k)) + enc_field(fs[k]));
}

/// The field values under a row of wrapped values.
pub open spec fn inners_of(ws: Seq<crate::chain::WrappedModel>) -> Seq<FieldValueModel> {
    Seq::new(ws.len(), |i: int| ws[i].inner)
}

/// What a plan field's accessor contract yields for field `i` of a row:
/// direct access by reference, a user accessor on a borrow, and a user
/// accessor on a duplicate all yield the field's logical value.
pub open spec fn spec_extract(
    pf: PlanField,
    fs: Seq<FieldValueModel>,
    i: int,
) -> FieldValueModel {
    match pf.getter {
        Option::Some(g) => if g.owned_self {
            fs[i]
        } else {
            fs[i]
        },
        Option::None => fs[i],
    }
}

/// The bytes serialized for a row under a plan's fields: each field's
/// value as its accessor obtains it, encoded in declaration order.
pub open spec fn payload_plan(pfs: Seq<PlanField>, fs: Seq<FieldValueModel>) -> Seq<u8>
    decreases pfs.len(),
{
    if pfs.len() == 0 || fs.len() == 0 {
        Seq::empty()
    } else {
        enc_field(spec_extract(pfs[0], fs, 0)) + payload_plan(pfs.drop_first(), fs.drop_first())
    }
}

/// A row's payload under any plan of its length is the row's payload: the
/// accessors only choose how a field is reached, never what it holds.
pub proof fn lemma_payload_plan_is_payload(pfs: Seq<PlanField>, fs: Seq<FieldValueModel>)
    requires
        pfs.len() == fs.len(),
    ensures
        payload_plan(pfs, fs) == payload_fields(fs),
    decreases fs.len(),
{
    if fs.len() == 0 {
    } else {
        lemma_payload_plan_is_payload(pfs.drop_first(), fs.drop_first());
    }
}

/// Obtains one struct field's value via its accessor contract: direct
/// access by reference by default; through the user-declared accessor
/// otherwise, on a borrowed foreign value or — in owned mode — on a
/// duplicate of it. Every mode yields the field's logical value.
fn obtain_field(pf: &PlanField, value: &ForeignValue, fields: &Vec<FieldValue>, i: usize) -> (r:
    FieldValue)
    requires
        i < fields@.len(),
        value@ matches ForeignValueModel::Struct(fm) && fm == fields.deep_view(),
    ensures
        r@ == fields.deep_view()[i as int],
{
    proof {
        assert(fields.deep_view()[i as int] == fields@[i as int]@);
    }
    match &pf.getter {
        Option::None => fields[i].duplicate(),
        Option::Some(g) => {
            if g.owned_self {
                let dup: ForeignValue = value.duplicate();
                match dup {
                    ForeignValue::Struct(mut dfs) => {
                        proof {
                            assert(dfs.deep_view() == fields.deep_view());
                            assert(dfs.deep_view()[i as int] == dfs@[i as int]@);
                        }
                        dfs.remove(i)
                    },
                    ForeignValue::Variant(_, _) => {
                        proof {
                            assert(false);
                        }
                        vstd::pervasive::unreached()
                    },
                }
            } else {
                fields[i].duplicate()
            }
        },
    }
}

/// Obtains and wraps every field of a struct, in declaration order.
fn obtain_wrapped_struct(pfs: &Vec<PlanField>, value: &ForeignValue, fields: &Vec<FieldValue>) -> (
    r: Vec<WrappedValue>)
    requires
        pfs@.len() == fields@.len(),
        value@ matches ForeignValueModel::Struct(fm) && fm == fields.deep_view(),
    ensures
        inners_of(r.deep_view()) == fields.deep_view(),
        r.deep_view().len() == fields@.len(),
{
    let mut r: Vec<WrappedValue> = Vec::new();
    let mut i: usize = 0;
    #[verifier::loop_isolation(false)]
    while i < fields.len()
        invariant
            i <= fields@.len(),
            r@.len() == i,
            forall|j: int|
                0 <= j < i ==> (#[trigger] r.deep_view()[j]).inner == fields.deep_view()[j],
        decreases fields@.len() - i,
    {
        let fv: FieldValue = obtain_field(&pfs[i], value, fields, i);
        let w: WrappedValue = wrap_value(&pfs[i].chain, fv);
        let ghost r0 = r.deep_view();
        r.push(w);
        proof {
            assert forall|j: int| 0 <= j < i + 1 implies (#[trigger] r.deep_view()[j]).inner
                == fields.deep_view()[j] by {
                assert(r.deep_view()[j] == r@[j].deep_view());
                if j < i {
                    assert(r.deep_view()[j] == r0[j]);
                }
            }
        }
        i = i + 1;
    }
    assert(inners_of(r.deep_view()) =~= fields.deep_view());
    r
}

/// Binds and wraps every field of one sum-type variant, in declaration
/// order.
fn obtain_wrapped_variant(pfs: &Vec<PlanField>, fields: &Vec<FieldValue>) -> (r: Vec<WrappedValue>)
    requires
        pfs@.len() == fields@.len(),
    ensures
        inners_of(r.deep_view()) == fields.deep_view(),
        r.deep_view().len() == fields@.len(),
{
    let mut r: Vec<WrappedValue> = Vec::new();
    let mut i: usize = 0;
    #[verifier::loop_isolation(false)]
    while i < fields.len()
        invariant
            i <= fields@.len(),
            r@.len() == i,
            forall|j: int|
                0 <= j < i ==> (#[trigger] r.deep_view()[j]).inner == fields.deep_view()[j],
        decreases fields@.len() - i,
    {
        proof {
            assert(fields.deep_view()[i as int] == fields@[i as int]@);
        }
        let fv: FieldValue = fields[i].duplicate();
        let w: WrappedValue = wrap_value(&pfs[i].chain, fv);
        let ghost r0 = r.deep_view();
        r.push(w);
        proof {
            assert forall|j: int| 0 <= j < i + 1 implies (#[trigger] r.deep_view()[j]).inner
                == fields.deep_view()[j] by {
                assert(r.deep_view()[j] == r@[j].deep_view());
                if j < i {
                    assert(r.deep_view()[j] == r0[j]);
                }
            }
        }
        i = i + 1;
    }
    assert(inners_of(r.deep_view()) =~= fields.deep_view());
    r
}

/// Writes each wrapped field's bytes through the sink in declaration
/// order, stopping at the first rejected write, and collects the resolver
/// slots.
fn write_all(ws: &Vec<WrappedValue>, serializer: &mut ByteSink) -> (r: Result<
    Vec<FieldResolver>,
    SinkError,
>)
    ensures
        final(serializer).capacity() == old(serializer).capacity(),
        r is Ok <==> old(serializer).accepts(
            payload_fields(inners_of(ws.deep_view())).len() as int,
        ),
        r matches Ok(slots) ==> final(serializer).bytes() == old(serializer).bytes()
            + payload_fields(inners_of(ws.deep_view())) && slots.deep_view() == slots_fields(
            inners_of(ws.deep_view()),
            old(serializer).bytes().len() as int,
        ),
        r is Err ==> (old(serializer).capacity() matches Option::Some(cap) && final(serializer).bytes() == old(serializer).bytes() + payload_fields(
            inners_of(ws.deep_view()).take(
                fits_count(
                    inners_of(ws.deep_view()),
                    cap - old(serializer).bytes().len(),
                ) as int,
            ),
        )),
{
    let ghost fsm = inners_of(ws.deep_view());
    let ghost start = serializer.bytes().len() as int;
    let mut slots: Vec<FieldResolver> = Vec::new();
    let mut i: usize = 0;
    proof {
        assert(fsm.take(0) =~= Seq::<FieldValueModel>::empty());
        assert(payload_fields(Seq::<FieldValueModel>::empty()) == Seq::<u8>::empty());
        assert(serializer.bytes() =~= old(serializer).bytes() + payload_fields(fsm.take(0)));
        assert(fsm.skip(0) =~= fsm);
    }
    #[verifier::loop_isolation(false)]
    while i < ws.len()
        invariant
            i <= ws@.len(),
            slots@.len() == i,
            serializer.bytes() == old(serializer).bytes() + payload_fields(fsm.take(i as int)),
            serializer.capacity() == old(serializer).capacity(),
            forall|j: int| 0 <= j < i ==> slots.deep_view()[j] == slots_fields(fsm, start)[j],
            match old(serializer).capacity() {
                Option::Some(cap) => fits_count(fsm, cap - start) == i + fits_count(
                    fsm.skip(i as int),
                    cap - serializer.bytes().len(),
                ),
                Option::None => true,
            },
        decreases ws@.len() - i,
    {
        let w: &WrappedValue = &ws[i];
        proof {
            assert(fsm[i as int] == ws.deep_view()[i as int].inner);
            assert(ws.deep_view()[i as int] == ws@[i as int].deep_view());
        }
        let mut tmp: Vec<u8> = Vec::new();
        encode_field(&w.inner, &mut tmp);
        let pos: usize = serializer.pos();
        let ghost len_before = serializer.bytes().len() as int;
        let ghost tail = fsm.skip(i as int);
        proof {
            assert(tail[0] == fsm[i as int]);
            assert(tail.drop_first() =~= fsm.skip(i as int + 1));
        }
        match serializer.write(&tmp) {
            Result::Ok(()) => {
                let ghost slots0 = slots.deep_view();
                slots.push(FieldResolver { pos, len: tmp.len() });
                proof {
                    lemma_payload_push(fsm, i as int);
                    assert(slots.deep_view()[i as int] == (pos as int, tmp@.len() as int));
                    assert(offset_of(fsm, i as int) == len_before - start);
                    assert(slots_fields(fsm, start)[i as int] == (
                        start + offset_of(fsm, i as int),
                        enc_field(fsm[i as int]).len() as int,
                    ));
                    assert forall|j: int| 0 <= j < i + 1 implies slots.deep_view()[j]
                        == slots_fields(fsm, start)[j] by {
                        if j < i {
                            assert(slots.deep_view()[j] == slots0[j]);
                        }
                    }
                    match old(serializer).capacity() {
                        Option::Some(cap) => {
                            assert(fits_count(tail, cap - len_before) == 1 + fits_count(
                                fsm.skip(i as int + 1),
                                cap - serializer.bytes().len(),
                            ));
                        },
                        Option::None => {},
                    }
                }
                i = i + 1;
            },
            Result::Err(_) => {
                proof {
                    let cap = old(serializer).capacity()->Some_0 as int;
                    assert(len_before + tmp@.len() > cap);
                    assert(fits_count(tail, cap - len_before) == 0);
                    assert(fits_count(fsm, cap - start) == i as int);
                    assert(fsm.take(fits_count(fsm, cap - start) as int) =~= fsm.take(i as int));
                    lemma_payload_split(fsm, i as int);
                    assert(payload_fields(fsm).len() >= payload_fields(fsm.take(i as int)).len()
                        + enc_field(fsm[i as int]).len());
                    assert(!old(serializer).accepts(payload_fields(fsm).len() as int));
                }
                return Result::Err(SinkError);
            },
        }
    }
    let end_pos: usize = serializer.pos();
    proof {
        assert(fsm.take(ws@.len() as int) =~= fsm);
        assert(slots.deep_view() =~= slots_fields(fsm, start));
        match old(serializer).capacity() {
            Option::Some(cap) => {
                assert(serializer.bytes().len() <= cap);
                assert(old(serializer).accepts(payload_fields(fsm).len() as int));
            },
            Option::None => {},
        }
    }
    Result::Ok(slots)
}

/// Serializes a foreign value against the plan: every field in declaration
/// order, each through its accessor and wrap chain, with the first sink
/// failure propagated at once; returns the resolver mirroring the type's
/// shape. Succeeds exactly when the sink accepts the value's whole
/// payload.
pub fn serialize_with(plan: &Plan, value: &ForeignValue, serializer: &mut ByteSink) -> (r: Result<
    Resolver,
    SinkError,
>)
    requires
        plan.wf(),
        value_fits(*plan, value@),
    ensures
        final(serializer).capacity() == old(serializer).capacity(),
        r is Ok <==> old(serializer).accepts(spec_payload(value@).len() as int),
        r matches Ok(res) ==> final(serializer).bytes() == old(serializer).bytes() + spec_payload(
            value@,
        ) && res@ == spec_resolver(value@, old(serializer).bytes().len() as int),
        r is Err ==> (old(serializer).capacity() matches Option::Some(cap) && final(serializer).bytes() == old(serializer).bytes() + payload_fields(
            fields_of(value@).take(
                fits_count(fields_of(value@), cap - old(serializer).bytes().len()) as int,
            ),
        )),
{
    match value {
        ForeignValue::Struct(fs) => {
            let pfs: &Vec<PlanField> = match &plan.shape {
                PlanShape::Struct(_, pfs) => pfs,
                PlanShape::Sum(_) => {
                    proof {
                        assert(false);
                    }
                    vstd::pervasive::unreached()
                },
            };
            let ws: Vec<WrappedValue> = obtain_wrapped_struct(pfs, value, fs);
            proof {
                assert(inners_of(ws.deep_view()) == fields_of(value@));
            }
            match write_all(&ws, serializer) {
                Result::Ok(slots) => {
                    proof {
                        assert(slots.deep_view() == slots_fields(
                            fields_of(value@),
                            old(serializer).bytes().len() as int,
                        ));
                    }
                    Result::Ok(Resolver::Struct(slots))
                },
                Result::Err(e) => Result::Err(e),
            }
        },
        ForeignValue::Variant(t, fs) => {
            match &plan.shape {
                PlanShape::Sum(vars) => {
                    let pv: &PlanVariant = &vars[*t];
                    let ws: Vec<WrappedValue> = obtain_wrapped_variant(&pv.fields, fs);
                    proof {
                        assert(inners_of(ws.deep_view()) == fields_of(value@));
                    }
                    match write_all(&ws, serializer) {
                        Result::Ok(slots) => {
                            proof {
                                assert(slots.deep_view() == slots_fields(
                                    fields_of(value@),
                                    old(serializer).bytes().len() as int,
                                ));
                            }
                            Result::Ok(Resolver::Variant(*t, slots))
                        },
                        Result::Err(e) => Result::Err(e),
                    }
                },
                PlanShape::Struct(_, _) => {
                    proof {
                        assert(false);
                    }
                    vstd::pervasive::unreached()
                },
            }
        },
    }
}

} // verus!
