//! The structured description of an annotated type, as the host hands it
//! over: the identifier and generic parameters, the foreign types the local
//! type adapts to, the struct or sum-type data with its fields, and each
//! field's attribute record (foreign-type override, wrapper chain, accessor,
//! anonymous wrapper chain). Attribute syntax itself is the host's concern;
//! generation starts from these records.

use vstd::prelude::*;

verus! {

/// A user-declared accessor for a field whose direct access is unavailable.
#[derive(Debug)]
pub struct Getter {
    /// The path of the accessor function.
    pub path: String,
    /// Whether the accessor takes the foreign value by value; the foreign
    /// type must then support duplication.
    pub owned_self: bool,
}

/// The accessor call expression a getter stands for, over the foreign
/// type it is called on.
pub open spec fn spec_make_expr(g: Getter, from_ty: Seq<char>) -> Seq<char> {
    if g.owned_self {
        g.path@ + "(<"@ + from_ty + " as Clone>::clone(field))"@
    } else {
        g.path@ + "(field)"@
    }
}

impl Getter {
    /// Duplicates the record.
    pub fn duplicate(&self) -> (r: Getter)
        ensures
            r == *self,
    {
        Getter { path: self.path.clone(), owned_self: self.owned_self }
    }

    /// The accessor call expression: the path applied to the borrowed
    /// foreign value or, in owned mode, to a duplicate of it.
    pub fn make_expr(&self, from_ty: &String) -> (r: String)
        ensures
            r@ == spec_make_expr(*self, from_ty@),
    {
        if self.owned_self {
            self.path.clone().concat("(<").concat(from_ty.as_str()).concat(
                " as Clone>::clone(field))",
            )
        } else {
            self.path.clone().concat("(field)")
        }
    }
}

/// One field of a shape, together with its attribute record.
pub struct FieldDescription {
    /// The field's name; `None` for a positional field.
    pub ident: Option<String>,
    /// The field's declared type.
    pub ty: String,
    /// The foreign-type override declared with `from`.
    pub from: Option<String>,
    /// The wrapper chain declared with `via`, outermost first.
    pub via: Option<Vec<String>>,
    /// The user-declared accessor, if any.
    pub getter: Option<Getter>,
    /// The anonymous wrapper chain declared field-scoped under a separate
    /// name, outermost first; consulted only when neither `from` nor `via`
    /// is declared.
    pub with_chain: Vec<String>,
}

/// The three field layouts a struct or a variant can have.
#[derive(Debug, PartialEq, Eq, Clone, Copy)]
pub enum FieldsKind {
    /// Curly-brace fields with names.
    Named,
    /// Parenthesized fields addressed by position.
    Unnamed,
    /// No fields at all.
    Unit,
}

/// The fields of a struct or of one variant.
pub enum FieldsDescription {
    /// Named fields.
    Named(Vec<FieldDescription>),
    /// Positional fields.
    Unnamed(Vec<FieldDescription>),
    /// No fields.
    Unit,
}

impl FieldsDescription {
    /// The layout kind of these fields.
    pub open spec fn spec_kind(&self) -> FieldsKind {
        match self {
            FieldsDescription::Named(_) => FieldsKind::Named,
            FieldsDescription::Unnamed(_) => FieldsKind::Unnamed,
            FieldsDescription::Unit => FieldsKind::Unit,
        }
    }

    /// The fields in declaration order (none for a unit shape).
    pub open spec fn spec_fields(&self) -> Seq<FieldDescription> {
        match self {
            FieldsDescription::Named(fs) => fs@,
            FieldsDescription::Unnamed(fs) => fs@,
            FieldsDescription::Unit => Seq::empty(),
        }
    }
}

/// One variant of a sum type. Order is significant: a variant's tag is its
/// declaration index.
pub struct VariantDescription {
    /// The variant's name.
    pub ident: String,
    /// The variant's fields.
    pub fields: FieldsDescription,
}

/// The data of the annotated type definition.
pub enum DataDescription {
    /// A struct with the given fields.
    Struct(FieldsDescription),
    /// A sum type with the given variants, in declaration order.
    Enum(Vec<VariantDescription>),
    /// A union: untagged overlapping storage, which generation rejects.
    Union,
}

/// The annotated type being processed: one generation request's input.
pub struct TypeDescription {
    /// The local type's identifier.
    pub ident: String,
    /// The local type's generic parameters, with their bounds, as written.
    pub generics: Vec<String>,
    /// The foreign types this local type adapts to, from the type-level
    /// attribute; generation fails when the list is empty.
    pub from_tys: Vec<String>,
    /// The struct or sum-type data.
    pub data: DataDescription,
}

/// Why a generation request fails. Every failure is reported before any
/// adapter is produced, and one request's failure never affects another.
#[derive(Debug, PartialEq, Eq, Clone, Copy)]
pub enum DeriveError {
    /// The type-level attribute naming the foreign types is absent.
    MissingFrom,
    /// The type-level attribute holds a key other than the foreign-type
    /// list.
    UnexpectedTopMeta,
    /// Generation was requested for a union, which has no discriminant to
    /// drive tag synthesis.
    UnionUnsupported,
    /// A field declares a wrapper chain with no wrappers in it: the record
    /// of an unparseable chain.
    EmptyViaChain,
    /// A field declares an accessor with an empty path: the record of an
    /// unparseable accessor path.
    EmptyGetterPath,
}

/// The diagnostic text of a generation failure.
pub open spec fn spec_message(e: DeriveError) -> Seq<char> {
    match e {
        DeriveError::MissingFrom => "requires top level attribute `from`"@,
        DeriveError::UnexpectedTopMeta => "expected `from`"@,
        DeriveError::UnionUnsupported => "cannot be derived for unions"@,
        DeriveError::EmptyViaChain => "expected at least one wrapper in `via`"@,
        DeriveError::EmptyGetterPath => "expected a path in `getter`"@,
    }
}

impl DeriveError {
    /// A single descriptive message for the failure.
    pub fn message(&self) -> (r: String)
        ensures
            r@ == spec_message(*self),
    {
        match self {
            DeriveError::MissingFrom => String::from_str("requires top level attribute `from`"),
            DeriveError::UnexpectedTopMeta => String::from_str("expected `from`"),
            DeriveError::UnionUnsupported => String::from_str("cannot be derived for unions"),
            DeriveError::EmptyViaChain => String::from_str(
                "expected at least one wrapper in `via`",
            ),
            DeriveError::EmptyGetterPath => String::from_str("expected a path in `getter`"),
        }
    }
}

/// One meta entry of the type-level attribute, as the host parsed it.
pub enum TopMeta {
    /// A `from(...)` list of foreign types.
    From(Vec<String>),
    /// Any other key, which the type-level attribute does not accept.
    Other,
}

/// The foreign-type lists of the type-level attribute entries,
/// concatenated in order.
pub open spec fn spec_top_from(attrs: Seq<TopMeta>) -> Seq<String>
    decreases attrs.len(),
{
    if attrs.len() == 0 {
        Seq::empty()
    } else {
        spec_top_from(attrs.drop_last()) + (match attrs.last() {
            TopMeta::From(tys) => tys@,
            TopMeta::Other => Seq::empty(),
        })
    }
}

/// Whether every type-level entry is a foreign-type list.
pub open spec fn top_attrs_ok(attrs: Seq<TopMeta>) -> bool {
    forall|i: int| 0 <= i < attrs.len() ==> (#[trigger] attrs[i]) is From
}

/// Collects the foreign types of the type-level attribute entries,
/// appending the lists in order; any other key fails the generation.
pub fn parse_top_attrs(attrs: &Vec<TopMeta>) -> (r: Result<Vec<String>, DeriveError>)
    ensures
        r is Ok <==> top_attrs_ok(attrs@),
        r matches Ok(tys) ==> tys@ == spec_top_from(attrs@),
        r matches Err(e) ==> e == DeriveError::UnexpectedTopMeta,
{
    let mut out: Vec<String> = Vec::new();
    let mut i: usize = 0;
    proof {
        assert(attrs@.take(0) =~= Seq::<TopMeta>::empty());
    }
    #[verifier::loop_isolation(false)]
    while i < attrs.len()
        invariant
            i <= attrs@.len(),
            out@ == spec_top_from(attrs@.take(i as int)),
            forall|j: int| 0 <= j < i ==> (#[trigger] attrs@[j]) is From,
        decreases attrs@.len() - i,
    {
        match &attrs[i] {
            TopMeta::From(tys) => {
                let ghost before = out@;
                let mut j: usize = 0;
                while j < tys.len()
                    invariant
                        j <= tys@.len(),
                        out@ == before + tys@.subrange(0, j as int),
                    decreases tys@.len() - j,
                {
                    out.push(tys[j].clone());
                    assert(out@ =~= before + tys@.subrange(0, j as int + 1));
                    j = j + 1;
                }
                proof {
                    assert(tys@.subrange(0, tys@.len() as int) =~= tys@);
                    assert(attrs@.take(i as int + 1).drop_last() =~= attrs@.take(i as int));
                    assert(attrs@.take(i as int + 1).last() == attrs@[i as int]);
                }
            },
            TopMeta::Other => {
                assert(!((attrs@[i as int]) is From));
                return Result::Err(DeriveError::UnexpectedTopMeta);
            },
        }
        i = i + 1;
    }
    assert(attrs@.take(attrs@.len() as int) =~= attrs@);
    Result::Ok(out)
}

/// One meta entry of a field's attribute, as the host parsed it.
pub enum FieldMeta {
    /// A `from(...)` foreign-type override.
    From(String),
    /// A `via(...)` wrapper chain, outermost first.
    Via(Vec<String>),
    /// A `getter = "..."` accessor path.
    Getter(String),
    /// The flag that makes the accessor take the foreign value by value.
    GetterOwned,
    /// Any other key, which a field's attribute silently ignores.
    Other,
}

/// The last declared foreign-type override, if any.
pub open spec fn spec_last_from(attrs: Seq<FieldMeta>) -> Option<String>
    decreases attrs.len(),
{
    if attrs.len() == 0 {
        Option::None
    } else {
        match attrs.last() {
            FieldMeta::From(t) => Option::Some(t),
            _ => spec_last_from(attrs.drop_last()),
        }
    }
}

/// The last declared wrapper chain, if any.
pub open spec fn spec_last_via(attrs: Seq<FieldMeta>) -> Option<Seq<String>>
    decreases attrs.len(),
{
    if attrs.len() == 0 {
        Option::None
    } else {
        match attrs.last() {
            FieldMeta::Via(ws) => Option::Some(ws@),
            _ => spec_last_via(attrs.drop_last()),
        }
    }
}

/// The last declared accessor path, if any.
pub open spec fn spec_last_getter(attrs: Seq<FieldMeta>) -> Option<String>
    decreases attrs.len(),
{
    if attrs.len() == 0 {
        Option::None
    } else {
        match attrs.last() {
            FieldMeta::Getter(p) => Option::Some(p),
            _ => spec_last_getter(attrs.drop_last()),
        }
    }
}

/// Whether the owned flag was declared anywhere.
pub open spec fn spec_getter_owned(attrs: Seq<FieldMeta>) -> bool
    decreases attrs.len(),
{
    if attrs.len() == 0 {
        false
    } else {
        attrs.last() is GetterOwned || spec_getter_owned(attrs.drop_last())
    }
}

/// Whether one field meta entry is well formed: a declared chain holds a
/// wrapper and a declared accessor holds a path.
pub open spec fn field_meta_ok(m: FieldMeta) -> bool {
    match m {
        FieldMeta::Via(ws) => ws@.len() > 0,
        FieldMeta::Getter(p) => p@.len() > 0,
        _ => true,
    }
}

/// Whether every field meta entry is well formed.
pub open spec fn field_attrs_ok(attrs: Seq<FieldMeta>) -> bool {
    forall|i: int| 0 <= i < attrs.len() ==> field_meta_ok(#[trigger] attrs[i])
}

/// The error one meta entry fails with; `None` for a well-formed entry.
pub open spec fn spec_meta_error(m: FieldMeta) -> Option<DeriveError> {
    match m {
        FieldMeta::Via(ws) => if ws@.len() == 0 {
            Option::Some(DeriveError::EmptyViaChain)
        } else {
            Option::None
        },
        FieldMeta::Getter(p) => if p@.len() == 0 {
            Option::Some(DeriveError::EmptyGetterPath)
        } else {
            Option::None
        },
        _ => Option::None,
    }
}

/// The first entry error of a field's meta list, in declaration order.
pub open spec fn spec_metas_error(attrs: Seq<FieldMeta>) -> Option<DeriveError>
    decreases attrs.len(),
{
    if attrs.len() == 0 {
        Option::None
    } else {
        match spec_meta_error(attrs[0]) {
            Option::Some(e) => Option::Some(e),
            Option::None => spec_metas_error(attrs.drop_first()),
        }
    }
}

/// A meta list's first entry error sits past any well-formed prefix.
proof fn lemma_metas_error_skip(attrs: Seq<FieldMeta>, i: int)
    requires
        0 <= i <= attrs.len(),
        forall|j: int| 0 <= j < i ==> field_meta_ok(#[trigger] attrs[j]),
    ensures
        spec_metas_error(attrs) == spec_metas_error(attrs.skip(i)),
    decreases i,
{
    if i == 0 {
        assert(attrs.skip(0) =~= attrs);
    } else {
        assert(field_meta_ok(attrs[0]));
        assert(forall|j: int| 0 <= j < i - 1 ==> field_meta_ok(#[trigger] attrs.drop_first()[j]));
        lemma_metas_error_skip(attrs.drop_first(), i - 1);
        assert(attrs.drop_first().skip(i - 1) =~= attrs.skip(i));
    }
}

/// A field's attribute record, folded from its meta entries: of repeated
/// keys the last declaration wins, and the owned flag is kept once seen.
#[derive(Debug)]
pub struct ParsedAttributes {
    /// The foreign-type override declared with `from`.
    pub from: Option<String>,
    /// The wrapper chain declared with `via`, outermost first.
    pub via: Option<Vec<String>>,
    /// The user-declared accessor.
    pub getter: Option<Getter>,
}

impl ParsedAttributes {
    /// Folds a field's meta entries into its attribute record, failing the
    /// generation on the first malformed entry.
    pub fn new(attrs: &Vec<FieldMeta>) -> (r: Result<ParsedAttributes, DeriveError>)
        ensures
            r is Ok <==> field_attrs_ok(attrs@),
            r matches Err(e) ==> spec_metas_error(attrs@) == Option::Some(e),
            r matches Ok(p) ==> {
                &&& p.from == spec_last_from(attrs@)
                &&& (match p.via {
                    Option::Some(v) => spec_last_via(attrs@) == Option::Some(v@),
                    Option::None => spec_last_via(attrs@) is None,
                })
                &&& (match p.getter {
                    Option::Some(g) => spec_last_getter(attrs@) == Option::Some(g.path)
                        && g.owned_self == spec_getter_owned(attrs@),
                    Option::None => spec_last_getter(attrs@) is None,
                })
            },
    {
        let mut from: Option<String> = Option::None;
        let mut via: Option<Vec<String>> = Option::None;
        let mut getter_path: Option<String> = Option::None;
        let mut getter_owned: bool = false;
        let mut i: usize = 0;
        proof {
            assert(attrs@.take(0) =~= Seq::<FieldMeta>::empty());
        }
        #[verifier::loop_isolation(false)]
        while i < attrs.len()
            invariant
                i <= attrs@.len(),
                from == spec_last_from(attrs@.take(i as int)),
                match via {
                    Option::Some(v) => spec_last_via(attrs@.take(i as int)) == Option::Some(v@),
                    Option::None => spec_last_via(attrs@.take(i as int)) is None,
                },
                getter_path == spec_last_getter(attrs@.take(i as int)),
                getter_owned == spec_getter_owned(attrs@.take(i as int)),
                forall|j: int| 0 <= j < i ==> field_meta_ok(#[trigger] attrs@[j]),
            decreases attrs@.len() - i,
        {
            proof {
                assert(attrs@.take(i as int + 1).drop_last() =~= attrs@.take(i as int));
                assert(attrs@.take(i as int + 1).last() == attrs@[i as int]);
                lemma_metas_error_skip(attrs@, i as int);
                assert(attrs@.skip(i as int)[0] == attrs@[i as int]);
            }
            match &attrs[i] {
                FieldMeta::From(t) => {
                    from = Option::Some(t.clone());
                },
                FieldMeta::Via(ws) => {
                    if ws.len() == 0 {
                        assert(!field_meta_ok(attrs@[i as int]));
                        assert(spec_metas_error(attrs@) == Option::Some(
                            DeriveError::EmptyViaChain,
                        ));
                        return Result::Err(DeriveError::EmptyViaChain);
                    }
                    let mut copied: Vec<String> = Vec::new();
                    let mut j: usize = 0;
                    while j < ws.len()
                        invariant
                            j <= ws@.len(),
                            copied@ == ws@.subrange(0, j as int),
                        decreases ws@.len() - j,
                    {
                        copied.push(ws[j].clone());
                        assert(copied@ =~= ws@.subrange(0, j as int + 1));
                        j = j + 1;
                    }
                    assert(copied@ =~= ws@);
                    via = Option::Some(copied);
                },
                FieldMeta::Getter(p) => {
                    if p.as_str().is_empty() {
                        assert(!field_meta_ok(attrs@[i as int]));
                        assert(spec_metas_error(attrs@) == Option::Some(
                            DeriveError::EmptyGetterPath,
                        ));
                        return Result::Err(DeriveError::EmptyGetterPath);
                    }
                    getter_path = Option::Some(p.clone());
                },
                FieldMeta::GetterOwned => {
                    getter_owned = true;
                },
                FieldMeta::Other => {},
            }
            i = i + 1;
        }
        assert(attrs@.take(attrs@.len() as int) =~= attrs@);
        let getter: Option<Getter> = match getter_path {
            Option::Some(path) => Option::Some(Getter { path, owned_self: getter_owned }),
            Option::None => Option::None,
        };
        Result::Ok(ParsedAttributes { from, via, getter })
    }
}

/// What stripping a raw-identifier prefix leaves.
pub open spec fn strip_raw_spec(s: Seq<char>) -> Seq<char> {
    if s.len() >= 2 && s[0] == 'r' && s[1] == '#' {
        s.skip(2)
    } else {
        s
    }
}

/// Strips the raw-identifier prefix from an identifier, if present.
pub fn strip_raw(ident: &String) -> (r: String)
    ensures
        r@ == strip_raw_spec(ident@),
{
    let s: &str = ident.as_str();
    let n: usize = s.unicode_len();
    if n >= 2 {
        let c0: char = s.get_char(0);
        let c1: char = s.get_char(1);
        if c0 == 'r' && c1 == '#' {
            let rest: &str = s.substring_char(2, n);
            assert(rest@ =~= strip_raw_spec(ident@));
            return rest.to_owned();
        }
    }
    ident.clone()
}

} // verus!
