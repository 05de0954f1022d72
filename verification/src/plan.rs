//! The generation driver and the shape classifier. One generation request
//! takes a type description, validates its configuration — the foreign-type
//! list must be present, a union is rejected outright, every field's
//! attribute record must be well formed — and produces a plan: the
//! normalized shape with every field's transformation chain resolved. The
//! plan is the generated module the three adapter halves run from.

use vstd::prelude::*;

use crate::chain::chain_ok;
use crate::chain::resolve_chain;
use crate::chain::spec_base;
use crate::chain::spec_layers;
use crate::chain::Chain;
use crate::codec::field_model_wf;
use crate::desc::DataDescription;
use crate::desc::DeriveError;
use crate::desc::FieldDescription;
use crate::desc::FieldsDescription;
use crate::desc::FieldsKind;
use crate::desc::Getter;
use crate::desc::TypeDescription;
use crate::desc::VariantDescription;
use crate::value::ForeignValueModel;

verus! {

/// One field of a plan: its name, its accessor, and its resolved chain.
#[derive(Debug)]
pub struct PlanField {
    /// The field's name; `None` for a positional field.
    pub ident: Option<String>,
    /// The user-declared accessor, if any.
    pub getter: Option<Getter>,
    /// The field's resolved transformation chain.
    pub chain: Chain,
}

/// One variant of a sum-type plan.
#[derive(Debug)]
pub struct PlanVariant {
    /// The variant's name.
    pub ident: String,
    /// The variant's field layout.
    pub kind: FieldsKind,
    /// The variant's fields, in declaration order.
    pub fields: Vec<PlanField>,
}

/// The normalized shape of a plan.
#[derive(Debug)]
pub enum PlanShape {
    /// A struct with the given layout and fields.
    Struct(FieldsKind, Vec<PlanField>),
    /// A sum type; a variant's tag is its index in this list.
    Sum(Vec<PlanVariant>),
}

/// A validated generation result: everything the three adapter halves need,
/// agreed on once.
#[derive(Debug)]
pub struct Plan {
    /// The local type's identifier.
    pub ident: String,
    /// The foreign types the adapters serve; never empty.
    pub from_tys: Vec<String>,
    /// The normalized shape with resolved chains.
    pub shape: PlanShape,
}

/// A plan field carries the chain invariant: the unwrap count equals the
/// number of layers.
pub open spec fn plan_field_wf(f: PlanField) -> bool {
    f.chain.unwrap_count == f.chain.layers@.len()
}

/// Well-formed plan fields under a layout kind: a unit layout has no
/// fields, and every chain carries its invariant.
pub open spec fn plan_fields_wf(kind: FieldsKind, fs: Seq<PlanField>) -> bool {
    &&& (kind is Unit ==> fs.len() == 0)
    &&& (forall|i: int| 0 <= i < fs.len() ==> plan_field_wf(#[trigger] fs[i]))
}

impl Plan {
    /// The plan invariant every generated plan satisfies.
    pub open spec fn wf(&self) -> bool {
        &&& self.from_tys@.len() > 0
        &&& match self.shape {
            PlanShape::Struct(kind, fs) => plan_fields_wf(kind, fs@),
            PlanShape::Sum(vars) => forall|i: int|
                0 <= i < vars@.len() ==> plan_fields_wf(
                    (#[trigger] vars@[i]).kind,
                    vars@[i].fields@,
                ),
        }
    }
}

/// Whether a field's accessor record is well formed: a declared accessor
/// must have a non-empty path.
pub open spec fn getter_ok(f: FieldDescription) -> bool {
    match f.getter {
        Option::Some(g) => g.path@.len() > 0,
        Option::None => true,
    }
}

/// Whether a field's whole attribute record is well formed.
pub open spec fn field_rec_ok(f: FieldDescription) -> bool {
    chain_ok(f) && getter_ok(f)
}

/// The error one field's record fails with, its chain checked before its
/// accessor; `None` for a well-formed record.
pub open spec fn spec_field_error(f: FieldDescription) -> Option<DeriveError> {
    if !chain_ok(f) {
        Option::Some(DeriveError::EmptyViaChain)
    } else if !getter_ok(f) {
        Option::Some(DeriveError::EmptyGetterPath)
    } else {
        Option::None
    }
}

/// The first field error of a row, in declaration order.
pub open spec fn spec_fields_error(fds: Seq<FieldDescription>) -> Option<DeriveError>
    decreases fds.len(),
{
    if fds.len() == 0 {
        Option::None
    } else {
        match spec_field_error(fds[0]) {
            Option::Some(e) => Option::Some(e),
            Option::None => spec_fields_error(fds.drop_first()),
        }
    }
}

/// The first field error of a variant list, variants in declaration order.
pub open spec fn spec_variants_error(vds: Seq<VariantDescription>) -> Option<DeriveError>
    decreases vds.len(),
{
    if vds.len() == 0 {
        Option::None
    } else {
        match spec_fields_error(vds[0].fields.spec_fields()) {
            Option::Some(e) => Option::Some(e),
            Option::None => spec_variants_error(vds.drop_first()),
        }
    }
}

/// The first field error of the whole data definition.
pub open spec fn spec_data_error(d: DataDescription) -> Option<DeriveError> {
    match d {
        DataDescription::Struct(fd) => spec_fields_error(fd.spec_fields()),
        DataDescription::Enum(vds) => spec_variants_error(vds@),
        DataDescription::Union => Option::None,
    }
}

/// A row's first field error sits past any well-formed prefix.
proof fn lemma_fields_error_skip(fds: Seq<FieldDescription>, i: int)
    requires
        0 <= i <= fds.len(),
        forall|j: int| 0 <= j < i ==> field_rec_ok(#[trigger] fds[j]),
    ensures
        spec_fields_error(fds) == spec_fields_error(fds.skip(i)),
    decreases i,
{
    if i == 0 {
        assert(fds.skip(0) =~= fds);
    } else {
        assert(field_rec_ok(fds[0]));
        assert(forall|j: int|
            0 <= j < i - 1 ==> field_rec_ok(#[trigger] fds.drop_first()[j]));
        lemma_fields_error_skip(fds.drop_first(), i - 1);
        assert(fds.drop_first().skip(i - 1) =~= fds.skip(i));
    }
}

/// A variant list's first field error sits past any well-formed prefix.
proof fn lemma_variants_error_skip(vds: Seq<VariantDescription>, i: int)
    requires
        0 <= i <= vds.len(),
        forall|j: int|
            0 <= j < i ==> spec_fields_error((#[trigger] vds[j]).fields.spec_fields()) is None,
    ensures
        spec_variants_error(vds) == spec_variants_error(vds.skip(i)),
    decreases i,
{
    if i == 0 {
        assert(vds.skip(0) =~= vds);
    } else {
        assert(forall|j: int|
            0 <= j < i - 1 ==> spec_fields_error(
                (#[trigger] vds.drop_first()[j]).fields.spec_fields(),
            ) is None);
        lemma_variants_error_skip(vds.drop_first(), i - 1);
        assert(vds.drop_first().skip(i - 1) =~= vds.skip(i));
    }
}

/// Whether every field of a shape has a well-formed record.
pub open spec fn fields_rec_ok(fd: FieldsDescription) -> bool {
    forall|i: int|
        0 <= i < fd.spec_fields().len() ==> field_rec_ok(#[trigger] fd.spec_fields()[i])
}

/// Whether every field of the whole data definition has a well-formed
/// record.
pub open spec fn data_rec_ok(d: DataDescription) -> bool {
    match d {
        DataDescription::Struct(fd) => fields_rec_ok(fd),
        DataDescription::Enum(vds) => forall|i: int|
            0 <= i < vds@.len() ==> fields_rec_ok((#[trigger] vds@[i]).fields),
        DataDescription::Union => true,
    }
}

/// Whether a plan field is the faithful resolution of a field description.
pub open spec fn field_matches(pf: PlanField, fd: FieldDescription) -> bool {
    &&& pf.ident == fd.ident
    &&& pf.getter == fd.getter
    &&& pf.chain.base == spec_base(fd)
    &&& pf.chain.layers@ == spec_layers(fd)
    &&& pf.chain.unwrap_count == spec_layers(fd).len()
}

/// Whether a row of plan fields faithfully resolves a row of descriptions.
pub open spec fn fields_match(pfs: Seq<PlanField>, fds: Seq<FieldDescription>) -> bool {
    pfs.len() == fds.len() && forall|i: int|
        0 <= i < pfs.len() ==> field_matches(#[trigger] pfs[i], fds[i])
}

/// Whether a plan variant faithfully resolves a variant description.
pub open spec fn variant_matches(pv: PlanVariant, vd: VariantDescription) -> bool {
    &&& pv.ident == vd.ident
    &&& pv.kind == vd.fields.spec_kind()
    &&& fields_match(pv.fields@, vd.fields.spec_fields())
}

/// Whether a plan faithfully resolves the data definition: same shape kind,
/// same field and variant order, every chain resolved by the declared
/// resolution order.
pub open spec fn plan_matches(p: Plan, input: TypeDescription) -> bool {
    &&& p.ident == input.ident
    &&& p.from_tys@ == input.from_tys@
    &&& match (p.shape, input.data) {
        (PlanShape::Struct(kind, pfs), DataDescription::Struct(fd)) => kind == fd.spec_kind()
            && fields_match(pfs@, fd.spec_fields()),
        (PlanShape::Sum(pvs), DataDescription::Enum(vds)) => pvs@.len() == vds@.len() && (forall|
            i: int,
        |
            0 <= i < pvs@.len() ==> variant_matches(#[trigger] pvs@[i], vds@[i])),
        _ => false,
    }
}

/// Whether a foreign value has the shape a plan serves: the right field
/// count for the struct, or a declared variant with its field count; and
/// every field value's lengths fit the encoding.
pub open spec fn value_fits(p: Plan, vm: ForeignValueModel) -> bool {
    match (p.shape, vm) {
        (PlanShape::Struct(_, pfs), ForeignValueModel::Struct(fs)) => fs.len() == pfs@.len() && (
        forall|i: int| 0 <= i < fs.len() ==> field_model_wf(#[trigger] fs[i])),
        (PlanShape::Sum(vars), ForeignValueModel::Variant(t, fs)) => 0 <= t < vars@.len()
            && fs.len() == vars@[t as int].fields@.len() && (forall|i: int|
            0 <= i < fs.len() ==> field_model_wf(#[trigger] fs[i])),
        _ => false,
    }
}

/// Copies an optional field name.
fn copy_opt_name(v: &Option<String>) -> (r: Option<String>)
    ensures
        r == *v,
{
    match v {
        Option::Some(s) => Option::Some(s.clone()),
        Option::None => Option::None,
    }
}

/// Copies an optional accessor record.
fn copy_opt_getter(v: &Option<Getter>) -> (r: Option<Getter>)
    ensures
        r == *v,
{
    match v {
        Option::Some(g) => Option::Some(g.duplicate()),
        Option::None => Option::None,
    }
}

/// Resolves one field row: every chain by the resolution order, failing on
/// the first malformed record.
fn resolve_fields(fields: &Vec<FieldDescription>) -> (r: Result<Vec<PlanField>, DeriveError>)
    ensures
        r is Ok <==> (forall|i: int|
            0 <= i < fields@.len() ==> field_rec_ok(#[trigger] fields@[i])),
        r matches Ok(pfs) ==> fields_match(pfs@, fields@),
        r matches Err(e) ==> spec_fields_error(fields@) == Option::Some(e),
        r matches Err(e) ==> e == DeriveError::EmptyViaChain || e == DeriveError::EmptyGetterPath,
{
    let mut out: Vec<PlanField> = Vec::new();
    let mut i: usize = 0;
    while i < fields.len()
        invariant
            i <= fields.len(),
            out@.len() == i,
            forall|j: int| 0 <= j < i ==> field_matches(#[trigger] out@[j], fields@[j]),
            forall|j: int| 0 <= j < i ==> field_rec_ok(#[trigger] fields@[j]),
        decreases fields.len() - i,
    {
        let f: &FieldDescription = &fields[i];
        proof {
            lemma_fields_error_skip(fields@, i as int);
            assert(fields@.skip(i as int)[0] == fields@[i as int]);
        }
        let chain: Chain = match resolve_chain(f) {
            Result::Ok(c) => c,
            Result::Err(e) => {
                assert(!field_rec_ok(fields@[i as int]));
                assert(spec_fields_error(fields@) == Option::Some(DeriveError::EmptyViaChain));
                return Result::Err(e);
            },
        };
        match &f.getter {
            Option::Some(g) => {
                if g.path.as_str().is_empty() {
                    assert(!getter_ok(fields@[i as int]));
                    assert(spec_fields_error(fields@) == Option::Some(
                        DeriveError::EmptyGetterPath,
                    ));
                    return Result::Err(DeriveError::EmptyGetterPath);
                }
            },
            Option::None => {},
        }
        assert(field_rec_ok(fields@[i as int]));
        out.push(
            PlanField { ident: copy_opt_name(&f.ident), getter: copy_opt_getter(&f.getter), chain },
        );
        i = i + 1;
    }
    Result::Ok(out)
}

/// Classifies one field layout into its kind and its resolved field row.
fn classify_fields(fd: &FieldsDescription) -> (r: Result<(FieldsKind, Vec<PlanField>), DeriveError>)
    ensures
        r is Ok <==> fields_rec_ok(*fd),
        r matches Ok(kf) ==> kf.0 == fd.spec_kind() && fields_match(kf.1@, fd.spec_fields()),
        r matches Err(e) ==> spec_fields_error(fd.spec_fields()) == Option::Some(e),
        r matches Err(e) ==> e == DeriveError::EmptyViaChain || e == DeriveError::EmptyGetterPath,
{
    match fd {
        FieldsDescription::Named(fs) => match resolve_fields(fs) {
            Result::Ok(pfs) => {
                proof {
                    assert forall|i: int| 0 <= i < fd.spec_fields().len() implies field_rec_ok(
                        #[trigger] fd.spec_fields()[i],
                    ) by {
                        assert(fd.spec_fields()[i] == fs@[i]);
                    }
                }
                Result::Ok((FieldsKind::Named, pfs))
            },
            Result::Err(e) => {
                proof {
                    let k = choose|k: int| 0 <= k < fs@.len() && !field_rec_ok(#[trigger] fs@[k]);
                    assert(!field_rec_ok(fd.spec_fields()[k]));
                }
                Result::Err(e)
            },
        },
        FieldsDescription::Unnamed(fs) => match resolve_fields(fs) {
            Result::Ok(pfs) => {
                proof {
                    assert forall|i: int| 0 <= i < fd.spec_fields().len() implies field_rec_ok(
                        #[trigger] fd.spec_fields()[i],
                    ) by {
                        assert(fd.spec_fields()[i] == fs@[i]);
                    }
                }
                Result::Ok((FieldsKind::Unnamed, pfs))
            },
            Result::Err(e) => {
                proof {
                    let k = choose|k: int| 0 <= k < fs@.len() && !field_rec_ok(#[trigger] fs@[k]);
                    assert(!field_rec_ok(fd.spec_fields()[k]));
                }
                Result::Err(e)
            },
        },
        FieldsDescription::Unit => Result::Ok((FieldsKind::Unit, Vec::new())),
    }
}

/// One generation request: validates the configuration and produces the
/// plan all three adapter halves agree on.
///
/// Generation fails, with a single descriptive error and nothing produced,
/// exactly when the foreign-type list is absent, the type is a union, or a
/// field's attribute record is malformed.
pub fn derive(input: &TypeDescription) -> (r: Result<Plan, DeriveError>)
    ensures
        r matches Err(e) && e == DeriveError::MissingFrom <==> input.from_tys@.len() == 0,
        r matches Err(e) && e == DeriveError::UnionUnsupported <==> input.from_tys@.len() > 0
            && input.data is Union,
        r is Ok <==> input.from_tys@.len() > 0 && !(input.data is Union) && data_rec_ok(input.data),
        r matches Err(e) ==> ((e == DeriveError::EmptyViaChain || e
            == DeriveError::EmptyGetterPath) ==> spec_data_error(input.data) == Option::Some(e)),
        r matches Ok(p) ==> plan_matches(p, *input) && p.wf(),
{
    if input.from_tys.len() == 0 {
        return Result::Err(DeriveError::MissingFrom);
    }
    let shape: PlanShape = match &input.data {
        DataDescription::Union => {
            return Result::Err(DeriveError::UnionUnsupported);
        },
        DataDescription::Struct(fd) => match classify_fields(fd) {
            Result::Ok((kind, pfs)) => PlanShape::Struct(kind, pfs),
            Result::Err(e) => {
                return Result::Err(e);
            },
        },
        DataDescription::Enum(vds) => {
            let mut vars: Vec<PlanVariant> = Vec::new();
            let mut i: usize = 0;
            #[verifier::loop_isolation(false)]
            while i < vds.len()
                invariant
                    i <= vds.len(),
                    vars@.len() == i,
                    forall|j: int| 0 <= j < i ==> variant_matches(#[trigger] vars@[j], vds@[j]),
                    forall|j: int| 0 <= j < i ==> fields_rec_ok((#[trigger] vds@[j]).fields),
                decreases vds.len() - i,
            {
                let vd: &VariantDescription = &vds[i];
                proof {
                    assert forall|j: int| 0 <= j < i implies spec_fields_error(
                        (#[trigger] vds@[j]).fields.spec_fields(),
                    ) is None by {
                        let fds = vds@[j].fields.spec_fields();
                        lemma_fields_error_skip(fds, fds.len() as int);
                        assert(fds.skip(fds.len() as int).len() == 0);
                    }
                    lemma_variants_error_skip(vds@, i as int);
                    assert(vds@.skip(i as int)[0] == vds@[i as int]);
                }
                match classify_fields(&vd.fields) {
                    Result::Ok((kind, pfs)) => {
                        vars.push(PlanVariant { ident: vd.ident.clone(), kind, fields: pfs });
                    },
                    Result::Err(e) => {
                        assert(!fields_rec_ok(vds@[i as int].fields));
                        assert(!data_rec_ok(input.data));
                        assert(spec_variants_error(vds@) == Option::Some(e));
                        return Result::Err(e);
                    },
                }
                i = i + 1;
            }
            assert(data_rec_ok(input.data));
            PlanShape::Sum(vars)
        },
    };
    let p = Plan { ident: input.ident.clone(), from_tys: crate::chain::copy_names(&input.from_tys), shape };
    proof {
        assert(p.wf()) by {
            match p.shape {
                PlanShape::Struct(kind, fs) => {
                    assert(plan_fields_wf(kind, fs@));
                },
                PlanShape::Sum(vars) => {
                    assert(forall|i: int|
                        0 <= i < vars@.len() ==> plan_fields_wf(
                            (#[trigger] vars@[i]).kind,
                            vars@[i].fields@,
                        ));
                },
            }
        }
    }
    Result::Ok(p)
}

} // verus!
