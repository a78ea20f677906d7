use vstd::prelude::*;
use vstd::string::StringExecFns;

verus! {

/// One field of a variant: its name, if the variant has named fields, and its
/// type as source text.
pub struct Field {
    pub ident: Option<String>,
    pub ty: String,
}

/// The field shape of one variant.
pub enum Fields {
    Unit,
    Unnamed(Vec<Field>),
    Named(Vec<Field>),
}

/// One case of an enum declaration.
pub struct Variant {
    pub ident: String,
    pub fields: Fields,
}

/// What kind of type a declaration introduces; variants are kept in
/// declaration order.
pub enum Data {
    Enum(Vec<Variant>),
    Struct,
    Union,
}

/// A type declaration that the derivation is asked to process.
pub struct DeriveInput {
    pub ident: String,
    pub data: Data,
}

/// Why a derivation was refused.
pub enum DeriveError {
    /// The declaration is not an enum.
    NotAnEnum,
    /// The variant has named fields, or a number of unnamed fields other than one.
    UnsupportedVariant { enum_ident: String, variant_ident: String },
    /// The variant carries the same payload type as an earlier variant.
    DuplicatePayload { enum_ident: String, variant_ident: String, payload: String },
}

/// `DeriveError` with its names as character sequences.
pub ghost enum DeriveErrorView {
    NotAnEnum,
    UnsupportedVariant { enum_ident: Seq<char>, variant_ident: Seq<char> },
    DuplicatePayload { enum_ident: Seq<char>, variant_ident: Seq<char>, payload: Seq<char> },
}

impl View for DeriveError {
    type V = DeriveErrorView;

    open spec fn view(&self) -> DeriveErrorView {
        match self {
            DeriveError::NotAnEnum => DeriveErrorView::NotAnEnum,
            DeriveError::UnsupportedVariant { enum_ident, variant_ident } =>
                DeriveErrorView::UnsupportedVariant {
                    enum_ident: enum_ident@,
                    variant_ident: variant_ident@,
                },
            DeriveError::DuplicatePayload { enum_ident, variant_ident, payload } =>
                DeriveErrorView::DuplicatePayload {
                    enum_ident: enum_ident@,
                    variant_ident: variant_ident@,
                    payload: payload@,
                },
        }
    }
}

/// A unit variant: it is skipped.
pub open spec fn is_unit(v: Variant) -> bool {
    v.fields is Unit
}

/// A variant with exactly one unnamed field: it gets an implementation.
pub open spec fn is_eligible(v: Variant) -> bool {
    match v.fields {
        Fields::Unnamed(fs) => fs@.len() == 1,
        _ => false,
    }
}

/// The payload type of an eligible variant.
pub open spec fn payload_of(v: Variant) -> Seq<char>
    recommends
        is_eligible(v),
{
    match v.fields {
        Fields::Unnamed(fs) => fs@[0].ty@,
        _ => Seq::empty(),
    }
}

/// The payload types of the eligible variants among `vs`, in order.
pub open spec fn payloads(vs: Seq<Variant>) -> Seq<Seq<char>>
    decreases vs.len(),
{
    if vs.len() == 0 {
        Seq::empty()
    } else {
        let last = vs.last();
        payloads(vs.drop_last()) + if is_eligible(last) {
            seq![payload_of(last)]
        } else {
            Seq::empty()
        }
    }
}

/// Variant `j` carries the payload type of an eligible variant before it.
pub open spec fn repeats_payload(vs: Seq<Variant>, j: int) -> bool {
    is_eligible(vs[j]) && payloads(vs.subrange(0, j)).contains(payload_of(vs[j]))
}

/// Variant `j` stops the derivation: its shape is not supported, or its
/// payload type was already used.
pub open spec fn is_problem(vs: Seq<Variant>, j: int) -> bool {
    (!is_unit(vs[j]) && !is_eligible(vs[j])) || repeats_payload(vs, j)
}

/// The index of the first variant that stops the derivation, if any.
pub open spec fn first_problem(vs: Seq<Variant>) -> Option<int>
    decreases vs.len(),
{
    if vs.len() == 0 {
        None
    } else {
        match first_problem(vs.drop_last()) {
            Some(j) => Some(j),
            None => if is_problem(vs, vs.len() - 1) {
                Some(vs.len() - 1)
            } else {
                None
            },
        }
    }
}

/// The source text of the implementation for variant `variant` of enum `e`,
/// whose payload type is `ty`.
pub open spec fn impl_text(e: Seq<char>, variant: Seq<char>, ty: Seq<char>) -> Seq<char> {
    "impl ::derive_insert::GetOrInsert<"@ + ty + "> for "@ + e
        + " { fn insert(&mut self, value: "@ + ty + ") -> &mut "@ + ty
        + " { *self = "@ + e + "::"@ + variant + "(value); match self { "@
        + e + "::"@ + variant + "(inner) => inner, _ => unreachable!(), } }"@
        + " fn get_or_insert_with<F: FnOnce() -> "@ + ty + ">(&mut self, f: F) -> &mut "@ + ty
        + " { match self { "@ + e + "::"@ + variant
        + "(inner) => inner, _ => self.insert(f()), } } }"@
}

/// The implementations for the variants `vs` of enum `e`, in variant order;
/// variants that are not eligible contribute nothing.
pub open spec fn generated(e: Seq<char>, vs: Seq<Variant>) -> Seq<char>
    decreases vs.len(),
{
    if vs.len() == 0 {
        Seq::empty()
    } else {
        let last = vs.last();
        generated(e, vs.drop_last()) + if is_eligible(last) {
            impl_text(e, last.ident@, payload_of(last))
        } else {
            Seq::empty()
        }
    }
}

/// The error that variant `j` of enum `e` stops the derivation with.
pub open spec fn problem_error(e: Seq<char>, vs: Seq<Variant>, j: int) -> DeriveErrorView {
    if is_eligible(vs[j]) {
        DeriveErrorView::DuplicatePayload {
            enum_ident: e,
            variant_ident: vs[j].ident@,
            payload: payload_of(vs[j]),
        }
    } else {
        DeriveErrorView::UnsupportedVariant { enum_ident: e, variant_ident: vs[j].ident@ }
    }
}

/// What deriving `GetOrInsert` for `input` gives: the source text of the
/// implementations, or the error.
pub open spec fn derive_outcome(input: DeriveInput) -> Result<Seq<char>, DeriveErrorView> {
    match input.data {
        Data::Enum(vs) => match first_problem(vs@) {
            Some(j) => Err(problem_error(input.ident@, vs@, j)),
            None => Ok(generated(input.ident@, vs@)),
        },
        _ => Err(DeriveErrorView::NotAnEnum),
    }
}

/// The diagnostic text for a refused derivation.
pub open spec fn message_text(e: DeriveErrorView) -> Seq<char> {
    match e {
        DeriveErrorView::NotAnEnum => "GetOrInsert can only be derived for enums"@,
        DeriveErrorView::UnsupportedVariant { enum_ident, variant_ident } =>
            "Error in "@ + enum_ident + "::"@ + variant_ident
                + ": GetOrInsert only supports a tuple-like, single item enum variants."@,
        DeriveErrorView::DuplicatePayload { enum_ident, variant_ident, payload } =>
            "Error in "@ + enum_ident + "::"@ + variant_ident
                + ": GetOrInsert needs distinct payload types, and "@ + payload
                + " is already carried by an earlier variant."@,
    }
}

impl DeriveError {
    /// The diagnostic that names the enum and the variant involved.
    pub fn message(&self) -> (r: String)
        ensures
            r@ == message_text(self@),
    {
        let mut r = String::new();
        match self {
            DeriveError::NotAnEnum => {
                r.append("GetOrInsert can only be derived for enums");
            },
            DeriveError::UnsupportedVariant { enum_ident, variant_ident } => {
                r.append("Error in ");
                r.append(enum_ident.as_str());
                r.append("::");
                r.append(variant_ident.as_str());
                r.append(": GetOrInsert only supports a tuple-like, single item enum variants.");
            },
            DeriveError::DuplicatePayload { enum_ident, variant_ident, payload } => {
                r.append("Error in ");
                r.append(enum_ident.as_str());
                r.append("::");
                r.append(variant_ident.as_str());
                r.append(": GetOrInsert needs distinct payload types, and ");
                r.append(payload.as_str());
                r.append(" is already carried by an earlier variant.");
            },
        }
        r
    }
}

/// An eligible variant, with what its implementation is written from.
pub struct VariantData {
    pub ident: String,
    pub enum_ident: String,
    pub payload: String,
}

impl VariantData {
    /// Classifies `variant` of enum `enum_ident`: `Ok(None)` for a unit
    /// variant, `Ok(Some(_))` for one with a single unnamed field, `Err(())`
    /// for any other shape.
    pub fn try_from_variant(variant: &Variant, enum_ident: &String) -> (r: Result<
        Option<VariantData>,
        (),
    >)
        ensures
            is_unit(*variant) ==> r == Ok::<Option<VariantData>, ()>(None),
            is_eligible(*variant) ==> (r matches Ok(Some(d)) && d.ident@ == variant.ident@
                && d.enum_ident@ == enum_ident@ && d.payload@ == payload_of(*variant)),
            !is_unit(*variant) && !is_eligible(*variant) ==> r is Err,
    {
        match &variant.fields {
            Fields::Unit => Ok(None),
            Fields::Named(_) => Err(()),
            Fields::Unnamed(fields) => {
                if fields.len() != 1 {
                    return Err(());
                }
                Ok(
                    Some(
                        VariantData {
                            ident: variant.ident.clone(),
                            enum_ident: enum_ident.clone(),
                            payload: fields[0].ty.clone(),
                        },
                    ),
                )
            },
        }
    }

    /// The source text of this variant's `GetOrInsert` implementation.
    pub fn to_tokens(&self) -> (r: String)
        ensures
            r@ == impl_text(self.enum_ident@, self.ident@, self.payload@),
    {
        let e = self.enum_ident.as_str();
        let v = self.ident.as_str();
        let ty = self.payload.as_str();
        let mut r = String::new();
        r.append("impl ::derive_insert::GetOrInsert<");
        r.append(ty);
        r.append("> for ");
        r.append(e);
        r.append(" { fn insert(&mut self, value: ");
        r.append(ty);
        r.append(") -> &mut ");
        r.append(ty);
        r.append(" { *self = ");
        r.append(e);
        r.append("::");
        r.append(v);
        r.append("(value); match self { ");
        r.append(e);
        r.append("::");
        r.append(v);
        r.append("(inner) => inner, _ => unreachable!(), } }");
        r.append(" fn get_or_insert_with<F: FnOnce() -> ");
        r.append(ty);
        r.append(">(&mut self, f: F) -> &mut ");
        r.append(ty);
        r.append(" { match self { ");
        r.append(e);
        r.append("::");
        r.append(v);
        r.append("(inner) => inner, _ => self.insert(f()), } } }");
        r
    }
}

/// The payload types that `datas` carry, in order.
pub open spec fn payloads_of(datas: Seq<VariantData>) -> Seq<Seq<char>> {
    datas.map_values(|d: VariantData| d.payload@)
}

/// Whether one of `datas` carries payload type `payload`.
fn payload_seen(datas: &Vec<VariantData>, payload: &String) -> (r: bool)
    ensures
        r == payloads_of(datas@).contains(payload@),
{
    let mut m: usize = 0;
    while m < datas.len()
        invariant
            m <= datas@.len(),
            forall|n: int| 0 <= n < m ==> (#[trigger] datas@[n]).payload@ != payload@,
        decreases datas@.len() - m,
    {
        if datas[m].payload == *payload {
            proof {
                assert(payloads_of(datas@)[m as int] == payload@);
            }
            return true;
        }
        m += 1;
    }
    proof {
        if payloads_of(datas@).contains(payload@) {
            let n = choose|n: int| 0 <= n < datas@.len() && payloads_of(datas@)[n] == payload@;
            assert(datas@[n].payload@ == payload@);
        }
    }
    false
}

/// Once a prefix of `vs` has a first problem, `vs` has the same one.
proof fn lemma_first_problem_extends(vs: Seq<Variant>, n: int)
    requires
        0 <= n <= vs.len(),
        first_problem(vs.subrange(0, n)) is Some,
    ensures
        first_problem(vs) == first_problem(vs.subrange(0, n)),
    decreases vs.len(),
{
    if n == vs.len() {
        assert(vs.subrange(0, n) =~= vs);
    } else {
        assert(vs.drop_last().subrange(0, n) =~= vs.subrange(0, n));
        lemma_first_problem_extends(vs.drop_last(), n);
    }
}

/// The derivation of enum `input` stops at variant `k` when nothing before it
/// is a problem and `k` is one.
proof fn lemma_stops_at(input: DeriveInput, vs: Seq<Variant>, k: int)
    requires
        input.data is Enum,
        input.data->Enum_0@ == vs,
        0 <= k < vs.len(),
        first_problem(vs.subrange(0, k)) is None,
        is_problem(vs, k),
    ensures
        derive_outcome(input) == Err::<Seq<char>, DeriveErrorView>(problem_error(input.ident@, vs, k)),
{
    let sub = vs.subrange(0, k + 1);
    assert(sub.drop_last() =~= vs.subrange(0, k));
    assert(sub.subrange(0, k) =~= vs.subrange(0, k));
    assert(first_problem(sub) == Some(k));
    lemma_first_problem_extends(vs, k + 1);
}

/// One more variant that is no problem extends the generated text and the
/// payload types as the loop of `implementation` does.
proof fn lemma_step(e: Seq<char>, vs: Seq<Variant>, k: int)
    requires
        0 <= k < vs.len(),
        first_problem(vs.subrange(0, k)) is None,
        !is_problem(vs, k),
    ensures
        first_problem(vs.subrange(0, k + 1)) is None,
        generated(e, vs.subrange(0, k + 1)) == generated(e, vs.subrange(0, k)) + if is_eligible(vs[k]) {
            impl_text(e, vs[k].ident@, payload_of(vs[k]))
        } else {
            Seq::empty()
        },
        payloads(vs.subrange(0, k + 1)) == payloads(vs.subrange(0, k)) + if is_eligible(vs[k]) {
            seq![payload_of(vs[k])]
        } else {
            Seq::empty()
        },
{
    let sub = vs.subrange(0, k + 1);
    assert(sub.drop_last() =~= vs.subrange(0, k));
    assert(sub.subrange(0, k) =~= vs.subrange(0, k));
    assert(is_problem(sub, k) == is_problem(vs, k));
}

/// Derives `GetOrInsert` for `input`: one implementation for each variant with
/// a single unnamed field, in declaration order, unit variants skipped.
/// Refuses a declaration that is not an enum, a variant of another shape, and
/// a variant whose payload type an earlier variant already carries; the first
/// such variant decides the error.
pub fn implementation(input: &DeriveInput) -> (r: Result<String, DeriveError>)
    ensures
        match r {
            Ok(s) => derive_outcome(*input) == Ok::<Seq<char>, DeriveErrorView>(s@),
            Err(e) => derive_outcome(*input) == Err::<Seq<char>, DeriveErrorView>(e@),
        },
{
    let vs = match &input.data {
        Data::Enum(vs) => vs,
        _ => {
            return Err(DeriveError::NotAnEnum);
        },
    };
    let enum_ident = &input.ident;
    let mut datas: Vec<VariantData> = Vec::new();
    let mut out = String::new();
    let mut k: usize = 0;
    while k < vs.len()
        invariant
            k <= vs@.len(),
            input.data == Data::Enum(*vs),
            enum_ident@ == input.ident@,
            first_problem(vs@.subrange(0, k as int)) is None,
            out@ == generated(input.ident@, vs@.subrange(0, k as int)),
            payloads_of(datas@) == payloads(vs@.subrange(0, k as int)),
        decreases vs@.len() - k,
    {
        let variant = &vs[k];
        match VariantData::try_from_variant(variant, enum_ident) {
            Err(()) => {
                proof {
                    lemma_stops_at(*input, vs@, k as int);
                }
                return Err(
                    DeriveError::UnsupportedVariant {
                        enum_ident: enum_ident.clone(),
                        variant_ident: variant.ident.clone(),
                    },
                );
            },
            Ok(None) => {
                proof {
                    lemma_step(input.ident@, vs@, k as int);
                }
            },
            Ok(Some(d)) => {
                if payload_seen(&datas, &d.payload) {
                    proof {
                        lemma_stops_at(*input, vs@, k as int);
                    }
                    return Err(
                        DeriveError::DuplicatePayload {
                            enum_ident: d.enum_ident,
                            variant_ident: d.ident,
                            payload: d.payload,
                        },
                    );
                }
                proof {
                    lemma_step(input.ident@, vs@, k as int);
                }
                let text = d.to_tokens();
                out.append(text.as_str());
                let ghost before = datas@;
                datas.push(d);
                proof {
                    assert(payloads_of(datas@) =~= payloads_of(before) + seq![d.payload@]);
                }
            },
        }
        k += 1;
    }
    proof {
        assert(vs@.subrange(0, vs@.len() as int) =~= vs@);
    }
    Ok(out)
}

/// The first problem is the index of a variant.
proof fn lemma_first_problem_in_bounds(vs: Seq<Variant>)
    ensures
        first_problem(vs) matches Some(j) ==> 0 <= j < vs.len(),
    decreases vs.len(),
{
    if vs.len() > 0 {
        lemma_first_problem_in_bounds(vs.drop_last());
    }
}

/// Where variant `k` is a problem, the first problem comes no later than `k`.
proof fn lemma_first_problem_at_most(vs: Seq<Variant>, k: int)
    requires
        0 <= k < vs.len(),
        is_problem(vs, k),
    ensures
        first_problem(vs) matches Some(j) && 0 <= j <= k,
    decreases vs.len(),
{
    lemma_first_problem_in_bounds(vs.drop_last());
    if k < vs.len() - 1 {
        assert(vs.drop_last().subrange(0, k) =~= vs.subrange(0, k));
        assert(vs.drop_last()[k] == vs[k]);
        lemma_first_problem_at_most(vs.drop_last(), k);
    }
}

/// Deriving for an enum whose variants are all unit variants succeeds and
/// generates no implementation.
pub proof fn lemma_unit_variants_generate_nothing(input: DeriveInput)
    requires
        input.data is Enum,
        forall|i: int|
            0 <= i < input.data->Enum_0@.len() ==> is_unit(#[trigger] input.data->Enum_0@[i]),
    ensures
        derive_outcome(input) == Ok::<Seq<char>, DeriveErrorView>(Seq::empty()),
{
    lemma_unit_prefix(input.ident@, input.data->Enum_0@, input.data->Enum_0@.len() as int);
    assert(input.data->Enum_0@.subrange(0, input.data->Enum_0@.len() as int)
        =~= input.data->Enum_0@);
}

/// Every prefix of an enum of unit variants is no problem and generates nothing.
proof fn lemma_unit_prefix(e: Seq<char>, vs: Seq<Variant>, n: int)
    requires
        0 <= n <= vs.len(),
        forall|i: int| 0 <= i < vs.len() ==> is_unit(#[trigger] vs[i]),
    ensures
        first_problem(vs.subrange(0, n)) is None,
        generated(e, vs.subrange(0, n)) == Seq::<char>::empty(),
    decreases n,
{
    if n > 0 {
        lemma_unit_prefix(e, vs, n - 1);
        assert(is_unit(vs[n - 1]));
        lemma_step(e, vs, n - 1);
    }
}

/// Deriving for an enum with a variant `k` that has named fields, or a number
/// of unnamed fields other than one, fails with an error that names the enum
/// and a variant no later than `k`; it names `k` itself where no earlier
/// variant stops the derivation.
pub proof fn lemma_unsupported_variant_fails(input: DeriveInput, k: int)
    requires
        input.data is Enum,
        0 <= k < input.data->Enum_0@.len(),
        !is_unit(input.data->Enum_0@[k]),
        !is_eligible(input.data->Enum_0@[k]),
    ensures
        exists|j: int|
            0 <= j <= k && derive_outcome(input) == Err::<Seq<char>, DeriveErrorView>(
                problem_error(input.ident@, input.data->Enum_0@, j),
            ),
        first_problem(input.data->Enum_0@.subrange(0, k)) is None ==> derive_outcome(input)
            == Err::<Seq<char>, DeriveErrorView>(
            DeriveErrorView::UnsupportedVariant {
                enum_ident: input.ident@,
                variant_ident: input.data->Enum_0@[k].ident@,
            },
        ),
{
    let vs = input.data->Enum_0@;
    lemma_first_problem_at_most(vs, k);
    let j = first_problem(vs)->Some_0;
    assert(derive_outcome(input) == Err::<Seq<char>, DeriveErrorView>(
        problem_error(input.ident@, vs, j),
    ));
    if first_problem(vs.subrange(0, k)) is None {
        lemma_stops_at(input, vs, k);
    }
}

} // verus!
