//! Dispatch over the kind of a type: one fragment for a product type, one
//! arm per variant for a sum type, and nothing for an overlay of fields.

use vstd::prelude::*;
use crate::attrs::{Attribute, Report};
use crate::error::Error;
use crate::fragment::{Fragment, FragmentView};
use crate::impl_struct::{Scope, StructGen};
use crate::shape::{Data, DeriveInput, Variant};

verus! {

/// The body of a generated rendering function.
#[derive(Clone, Debug, PartialEq, Eq)]
pub enum Body {
    /// The fragment of a product type.
    Product(Fragment),
    /// A dispatch over the variants of a sum type: one arm for each, in
    /// their order.
    Sum(Vec<Fragment>),
}

/// The mathematical content of a [`Body`].
pub enum BodyView {
    Product(FragmentView),
    Sum(Seq<FragmentView>),
}

/// The contents of a run of fragments.
pub open spec fn fragments(arms: Seq<Fragment>) -> Seq<FragmentView> {
    arms.map_values(|f: Fragment| f@)
}

impl View for Body {
    type V = BodyView;

    open spec fn view(&self) -> BodyView {
        match *self {
            Body::Product(f) => BodyView::Product(f@),
            Body::Sum(arms) => BodyView::Sum(fragments(arms@)),
        }
    }
}

/// A generated implementation: the capability, the type it is for, and the
/// body of its rendering function.
#[derive(Clone, Debug, PartialEq, Eq)]
pub struct Implementation {
    pub trait_name: String,
    pub ty_name: String,
    pub body: Body,
}

/// The mathematical content of an [`Implementation`].
pub struct ImplementationView {
    pub trait_name: Seq<char>,
    pub ty_name: Seq<char>,
    pub body: BodyView,
}

impl View for Implementation {
    type V = ImplementationView;

    open spec fn view(&self) -> ImplementationView {
        ImplementationView { trait_name: self.trait_name@, ty_name: self.ty_name@, body: self.body@ }
    }
}

/// The scope in which the one shape of a product type is generated.
pub open spec fn product_scope(input: DeriveInput, marker: Seq<char>) -> Scope {
    Scope {
        ident: input.ident.name@,
        span: input.ident.span,
        lists: seq![input.attrs@],
        marker,
        prefix: "let Self"@,
        midfix: "= self;"@,
    }
}

/// The scope in which one variant of a sum type is generated: under the
/// annotations of the type, then its own.
pub open spec fn variant_scope(input: DeriveInput, variant: Variant, marker: Seq<char>) -> Scope {
    Scope {
        ident: variant.ident.name@,
        span: variant.ident.span,
        lists: seq![input.attrs@, variant.attrs@],
        marker,
        prefix: "Self::"@ + variant.ident.name@,
        midfix: "=>"@,
    }
}

/// The arms of the variants from index `from` on, after those in `acc`; the
/// first failure ends the walk.
pub open spec fn arms_from(
    input: DeriveInput,
    marker: Seq<char>,
    variants: Seq<Variant>,
    from: int,
    acc: Seq<FragmentView>,
) -> Result<Seq<FragmentView>, Report>
    decreases variants.len() - from,
{
    if from < 0 || from >= variants.len() {
        Ok(acc)
    } else {
        match variant_scope(input, variants[from], marker).fragment(variants[from].fields) {
            Err(e) => Err(e),
            Ok(f) => arms_from(input, marker, variants, from + 1, acc.push(f)),
        }
    }
}

/// What is generated for a type under the annotations written with
/// `marker`.
pub open spec fn derived(input: DeriveInput, trait_name: Seq<char>, marker: Seq<char>) -> Result<
    ImplementationView,
    Report,
> {
    match input.data {
        Data::Struct(fields) => match product_scope(input, marker).fragment(fields) {
            Err(e) => Err(e),
            Ok(f) => Ok(
                ImplementationView {
                    trait_name,
                    ty_name: input.ident.name@,
                    body: BodyView::Product(f),
                },
            ),
        },
        Data::Enum(variants) => match arms_from(input, marker, variants@, 0, Seq::empty()) {
            Err(e) => Err(e),
            Ok(arms) => Ok(
                ImplementationView { trait_name, ty_name: input.ident.name@, body: BodyView::Sum(arms) },
            ),
        },
        Data::Union(span) => Err(seq![(span, "not supported"@)]),
    }
}

/// Generates the human-facing rendering of a type, from the annotations
/// written under `display`.
pub fn derive_display(input: &DeriveInput) -> (r: Result<Implementation, Error>)
    ensures
        match derived(*input, "Display"@, "display"@) {
            Ok(v) => r is Ok && r->Ok_0@ == v,
            Err(e) => r is Err && r->Err_0@ == e,
        },
{
    derive_debug_or_display(input, "Display", "display")
}

/// Generates the diagnostic rendering of a type, from the annotations
/// written under `debug`.
pub fn derive_debug(input: &DeriveInput) -> (r: Result<Implementation, Error>)
    ensures
        match derived(*input, "Debug"@, "debug"@) {
            Ok(v) => r is Ok && r->Ok_0@ == v,
            Err(e) => r is Err && r->Err_0@ == e,
        },
{
    derive_debug_or_display(input, "Debug", "debug")
}

/// Generates the implementation of the capability `trait_name` for a type,
/// from the annotations written under `attr_name`.
pub fn derive_debug_or_display(input: &DeriveInput, trait_name: &str, attr_name: &str) -> (r: Result<
    Implementation,
    Error,
>)
    ensures
        match derived(*input, trait_name@, attr_name@) {
            Ok(v) => r is Ok && r->Ok_0@ == v,
            Err(e) => r is Err && r->Err_0@ == e,
        },
{
    let body = match &input.data {
        Data::Struct(fields) => {
            let lists: [&[Attribute]; 1] = [input.attrs.as_slice()];
            let gen = StructGen {
                ident: &input.ident,
                attrs: &lists,
                attr_name,
                prefix: String::from_str("let Self"),
                midfix: String::from_str("= self;"),
            };
            assert(gen@.lists =~= seq![input.attrs@]);
            match gen.generate(fields) {
                Err(e) => {
                    return Err(e);
                },
                Ok(f) => Body::Product(f),
            }
        },
        Data::Enum(variants) => {
            let ghost whole = arms_from(*input, attr_name@, variants@, 0, Seq::empty());
            let mut arms: Vec<Fragment> = Vec::new();
            assert(fragments(arms@) =~= Seq::empty());
            let mut i: usize = 0;
            while i < variants.len()
                invariant
                    i <= variants.len(),
                    input.data == Data::Enum(*variants),
                    whole == arms_from(*input, attr_name@, variants@, 0, Seq::empty()),
                    arms_from(*input, attr_name@, variants@, i as int, fragments(arms@)) == whole,
                decreases variants.len() - i,
            {
                let variant = &variants[i];
                let lists: [&[Attribute]; 2] = [input.attrs.as_slice(), variant.attrs.as_slice()];
                let mut prefix = String::from_str("Self::");
                prefix.append(variant.ident.name.as_str());
                let gen = StructGen {
                    ident: &variant.ident,
                    attrs: &lists,
                    attr_name,
                    prefix,
                    midfix: String::from_str("=>"),
                };
                assert(gen@.lists =~= seq![input.attrs@, variant.attrs@]);
                assert(gen@ == variant_scope(*input, *variant, attr_name@));
                let ghost before = fragments(arms@);
                match gen.generate(&variant.fields) {
                    Err(e) => {
                        return Err(e);
                    },
                    Ok(f) => {
                        arms.push(f);
                        assert(fragments(arms@) =~= before.push(f@));
                    },
                }
                i += 1;
            }
            Body::Sum(arms)
        },
        Data::Union(span) => {
            return Err(Error::at(*span, "not supported"));
        },
    };
    Ok(
        Implementation {
            trait_name: String::from_str(trait_name),
            ty_name: input.ident.name.clone(),
            body,
        },
    )
}

} // verus!
