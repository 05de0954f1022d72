//! The transformation-chain resolver. From a field's attribute record it
//! computes the effective wrapped type — a base type under an ordered stack
//! of wrapper layers — together with the number of unwrap steps the
//! deserialize half must apply. That count is a contract value carried in
//! the resolved chain, not re-derived, and it always equals the number of
//! layers, which is the symmetry the round-trip laws rest on.

use vstd::prelude::*;

use crate::desc::DeriveError;
use crate::desc::FieldDescription;
use crate::value::FieldValue;
use crate::value::FieldValueModel;

verus! {

/// A field's resolved transformation chain: the effective wrapped type is
/// `base` under `layers` (outermost first), and `unwrap_count` unwrap steps
/// recover the declared field type.
#[derive(Debug)]
pub struct Chain {
    /// The type at the root of the chain: the foreign override when one is
    /// declared, the field's own declared type otherwise.
    pub base: String,
    /// The wrapper layers, outermost first.
    pub layers: Vec<String>,
    /// How many unwrap steps the deserialize half must apply.
    pub unwrap_count: usize,
}

/// The base type the resolution order picks for a field.
pub open spec fn spec_base(f: FieldDescription) -> String {
    match f.from {
        Option::Some(from_ty) => from_ty,
        Option::None => f.ty,
    }
}

/// The wrapper layers the resolution order picks for a field, outermost
/// first. First match wins: `from` and `via` compose `via` onto the foreign
/// type; `from` alone makes the declared type itself the single wrapper;
/// `via` alone composes onto the declared type; with neither, the anonymous
/// wrapper chain applies, possibly empty.
pub open spec fn spec_layers(f: FieldDescription) -> Seq<String> {
    match f.via {
        Option::Some(via) => via@,
        Option::None => match f.from {
            Option::Some(_) => seq![f.ty],
            Option::None => f.with_chain@,
        },
    }
}

/// Whether the field's chain record is well formed: a declared `via` chain
/// must hold at least one wrapper.
pub open spec fn chain_ok(f: FieldDescription) -> bool {
    match f.via {
        Option::Some(via) => via@.len() > 0,
        Option::None => true,
    }
}

/// Copies a list of names.
pub(crate) fn copy_names(v: &Vec<String>) -> (r: Vec<String>)
    ensures
        r@ == v@,
{
    let mut r: Vec<String> = Vec::new();
    let mut i: usize = 0;
    while i < v.len()
        invariant
            i <= v.len(),
            r@ == v@.subrange(0, i as int),
        decreases v.len() - i,
    {
        r.push(v[i].clone());
        assert(r@ =~= v@.subrange(0, i as int + 1));
        i = i + 1;
    }
    assert(r@ =~= v@);
    r
}

/// Resolves a field's transformation chain by the declared resolution
/// order, or fails the generation on a malformed chain record.
pub fn resolve_chain(f: &FieldDescription) -> (r: Result<Chain, DeriveError>)
    ensures
        r is Ok <==> chain_ok(*f),
        r matches Err(e) ==> e == DeriveError::EmptyViaChain,
        r matches Ok(c) ==> c.base == spec_base(*f) && c.layers@ == spec_layers(*f)
            && c.unwrap_count == spec_layers(*f).len(),
{
    let layers: Vec<String> = match &f.via {
        Option::Some(via) => {
            if via.len() == 0 {
                return Result::Err(DeriveError::EmptyViaChain);
            }
            copy_names(via)
        },
        Option::None => match &f.from {
            Option::Some(_) => {
                let mut one: Vec<String> = Vec::new();
                one.push(f.ty.clone());
                assert(one@ =~= seq![f.ty]);
                one
            },
            Option::None => copy_names(&f.with_chain),
        },
    };
    let base: String = match &f.from {
        Option::Some(from_ty) => from_ty.clone(),
        Option::None => f.ty.clone(),
    };
    let unwrap_count: usize = layers.len();
    Result::Ok(Chain { base, layers, unwrap_count })
}

/// A field value viewed through its chain's wrapper layers: the runtime
/// shape the nested protocols exchange.
pub struct WrappedValue {
    /// The wrapper layers still to be unwrapped, outermost first.
    pub layers: Vec<String>,
    /// The value under the layers.
    pub inner: FieldValue,
}

/// The mathematical model of a [`WrappedValue`].
#[verifier::ext_equal]
pub struct WrappedModel {
    pub layers: Seq<String>,
    pub inner: FieldValueModel,
}

impl View for WrappedValue {
    type V = WrappedModel;

    open spec fn view(&self) -> WrappedModel {
        WrappedModel { layers: self.layers@, inner: self.inner@ }
    }
}

impl DeepView for WrappedValue {
    type V = WrappedModel;

    open spec fn deep_view(&self) -> WrappedModel {
        self.view()
    }
}

/// Viewing a value through a chain's layers.
pub open spec fn spec_wrap(layers: Seq<String>, core: FieldValueModel) -> WrappedModel {
    WrappedModel { layers, inner: core }
}

/// Peeling one wrapper layer; impossible when no layer is left.
pub open spec fn spec_unwrap(w: WrappedModel) -> Option<WrappedModel> {
    if w.layers.len() == 0 {
        Option::None
    } else {
        Option::Some(WrappedModel { layers: w.layers.drop_first(), inner: w.inner })
    }
}

/// Peeling exactly `n` wrapper layers.
pub open spec fn spec_unwrap_n(w: WrappedModel, n: nat) -> Option<WrappedModel>
    decreases n,
{
    if n == 0 {
        Option::Some(w)
    } else {
        match spec_unwrap(w) {
            Option::Some(w2) => spec_unwrap_n(w2, (n - 1) as nat),
            Option::None => Option::None,
        }
    }
}

/// Peeling `n` layers succeeds exactly when at least `n` layers are there,
/// and leaves the layers beyond `n` with the inner value untouched.
pub proof fn lemma_unwrap_n(w: WrappedModel, n: nat)
    ensures
        spec_unwrap_n(w, n) is Some <==> n <= w.layers.len(),
        n <= w.layers.len() ==> spec_unwrap_n(w, n) == Option::Some(
            WrappedModel { layers: w.layers.skip(n as int), inner: w.inner },
        ),
    decreases n,
{
    if n == 0 {
        assert(w.layers.skip(0) =~= w.layers);
    } else {
        if w.layers.len() == 0 {
        } else {
            let w2 = WrappedModel { layers: w.layers.drop_first(), inner: w.inner };
            lemma_unwrap_n(w2, (n - 1) as nat);
            if n <= w.layers.len() {
                assert(w2.layers.skip(n - 1) =~= w.layers.skip(n as int));
            }
        }
    }
}

/// Views a field value through the chain's wrapper layers: the cast the
/// serialize half applies before the nested protocol call.
pub fn wrap_value(chain: &Chain, core: FieldValue) -> (w: WrappedValue)
    ensures
        w@ == spec_wrap(chain.layers@, core@),
{
    WrappedValue { layers: copy_names(&chain.layers), inner: core }
}

impl WrappedValue {
    /// Peels one wrapper layer off.
    pub fn into_inner(self) -> (r: Option<WrappedValue>)
        ensures
            match r {
                Option::Some(w) => spec_unwrap(self@) == Option::Some(w@),
                Option::None => spec_unwrap(self@) is None,
            },
    {
        if self.layers.len() == 0 {
            Option::None
        } else {
            let mut layers: Vec<String> = self.layers;
            let ghost before = layers@;
            layers.remove(0);
            assert(layers@ =~= before.drop_first());
            Option::Some(WrappedValue { layers, inner: self.inner })
        }
    }

    /// Applies exactly `n` unwrap steps, as the deserialize half does with
    /// the chain's carried unwrap count.
    pub fn unwrap_layers(self, n: usize) -> (r: Option<WrappedValue>)
        ensures
            match r {
                Option::Some(w) => spec_unwrap_n(self@, n as nat) == Option::Some(w@),
                Option::None => spec_unwrap_n(self@, n as nat) is None,
            },
    {
        let ghost orig = self@;
        let mut cur: WrappedValue = self;
        let mut i: usize = 0;
        #[verifier::loop_isolation(false)]
        while i < n
            invariant
                i <= n,
                spec_unwrap_n(orig, n as nat) == spec_unwrap_n(cur@, (n - i) as nat),
            decreases n - i,
        {
            let ghost cur0 = cur@;
            match cur.into_inner() {
                Option::Some(w) => {
                    proof {
                        assert(spec_unwrap_n(cur0, (n - i) as nat) == spec_unwrap_n(
                            w@,
                            (n - i - 1) as nat,
                        ));
                    }
                    cur = w;
                },
                Option::None => {
                    proof {
                        assert(spec_unwrap_n(cur0, (n - i) as nat) is None);
                    }
                    return Option::None;
                },
            }
            i = i + 1;
        }
        Option::Some(cur)
    }
}

} // verus!
