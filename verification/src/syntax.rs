//! The calls into the parser: everything that `syn`, `quote` and
//! `proc_macro2` do for the library.
//!
//! Verus takes these functions on trust and does not read their bodies. A
//! syntax tree is opaque to the proofs, so none of them promises anything
//! about its result: what is read here is handed on as plain text, and the
//! functions that decide are verified for every text.

use crate::cache_it::{AttrText, FnModel, FnParts};
use crate::from_hashmap::{ItemShape, RawFieldModel};
use quote::ToTokens;
use vstd::prelude::*;

verus! {

#[verifier::external_type_specification]
#[verifier::external_body]
pub struct ExTokenStream(proc_macro2::TokenStream);

#[verifier::external_type_specification]
#[verifier::external_body]
pub struct ExSynError(syn::Error);

#[verifier::external_type_specification]
#[verifier::external_body]
pub struct ExDeriveInput(syn::DeriveInput);

#[verifier::external_type_specification]
#[verifier::external_body]
pub struct ExField(syn::Field);

/// What `syn::parse2` at `syn::DeriveInput` makes of tokens: the item that
/// they spell, or nothing where they spell none.
pub uninterp spec fn parsed_item(tokens: proc_macro2::TokenStream) -> Option<syn::DeriveInput>;

/// The name of an item, printed.
pub uninterp spec fn item_name(input: syn::DeriveInput) -> Seq<char>;

/// The kind of an item.
pub uninterp spec fn item_shape(input: syn::DeriveInput) -> ItemShape;

/// The fields of an item that is a struct with named fields, printed, in
/// the order of their declaration.
pub uninterp spec fn item_fields(input: syn::DeriveInput) -> Seq<RawFieldModel>;

/// A field, printed.
pub uninterp spec fn field_model(field: syn::Field) -> RawFieldModel;

/// What `syn::parse2` at `syn::ItemFn` makes of tokens, printed part by
/// part: the function that they spell, or nothing where they spell none.
pub uninterp spec fn item_fn_parts(tokens: proc_macro2::TokenStream) -> Option<FnModel>;

/// What stands behind the name of an item that a derive is put on.
pub enum StructBody {
    /// A struct with named fields, and those fields.
    Named(Vec<syn::Field>),
    /// A tuple struct.
    Unnamed,
    /// A unit struct.
    Unit,
    /// An enum.
    Enum,
    /// A union.
    Union,
}

/// A field as the parser prints it.
pub struct RawField {
    /// The field's name, if it has one.
    pub name: Option<String>,
    /// The printed path of the field's type, where the type is a path.
    pub path_text: Option<String>,
    /// The printed type of the field.
    pub type_text: String,
}

/// `syn::parse2` at `syn::DeriveInput`: the item that the tokens spell, or
/// the parser's error. The parser reads nothing but the tokens.
#[verifier::external_body]
pub(crate) fn parse_derive_input(tokens: proc_macro2::TokenStream) -> (r: Result<
    syn::DeriveInput,
    syn::Error,
>)
    ensures
        match r {
            Ok(item) => parsed_item(tokens) == Some(item),
            Err(_) => parsed_item(tokens) is None,
        },
{
    syn::parse2::<syn::DeriveInput>(tokens)
}

/// The `ident` of a `syn::DeriveInput`, printed.
#[verifier::external_body]
pub(crate) fn declared_name(input: &syn::DeriveInput) -> (r: String)
    ensures
        r@ == item_name(*input),
{
    input.ident.to_string()
}

/// The `data` of a `syn::DeriveInput`, told apart by its variants; the named
/// fields are copied out of their `Punctuated`, in order.
#[verifier::external_body]
pub(crate) fn declared_body(input: &syn::DeriveInput) -> (r: StructBody)
    ensures
        match r {
            StructBody::Named(fields) => item_shape(*input) == ItemShape::NamedStruct
                && item_fields(*input) == fields@.map_values(|f: syn::Field| field_model(f)),
            StructBody::Unnamed => item_shape(*input) == ItemShape::TupleStruct,
            StructBody::Unit => item_shape(*input) == ItemShape::UnitStruct,
            StructBody::Enum => item_shape(*input) == ItemShape::Enum,
            StructBody::Union => item_shape(*input) == ItemShape::Union,
        },
{
    match &input.data {
        syn::Data::Struct(data) => match &data.fields {
            syn::Fields::Named(fields) => StructBody::Named(fields.named.iter().cloned().collect()),
            syn::Fields::Unnamed(_) => StructBody::Unnamed,
            syn::Fields::Unit => StructBody::Unit,
        },
        syn::Data::Enum(_) => StructBody::Enum,
        syn::Data::Union(_) => StructBody::Union,
    }
}

/// The `ident` and the `ty` of a `syn::Field`, printed by
/// `ToTokens::to_token_stream` and `to_string`; for a `syn::Type::Path` also
/// its `path`.
#[verifier::external_body]
pub(crate) fn field_decl(field: &syn::Field) -> (r: RawField)
    ensures
        r@ == field_model(*field),
{
    RawField {
        name: match &field.ident {
            Some(ident) => Some(ident.to_string()),
            None => None,
        },
        path_text: match &field.ty {
            syn::Type::Path(path) => Some(path.path.to_token_stream().to_string()),
            _ => None,
        },
        type_text: field.ty.to_token_stream().to_string(),
    }
}

/// `syn::parse2` at `syn::ItemFn`, and the function's `attrs`, `vis`, `sig`
/// and `block` printed by `ToTokens::to_token_stream` and `to_string`, with
/// the style of each attribute and whether the signature has `asyncness`;
/// or the parser's error. The parser reads nothing but the tokens.
#[verifier::external_body]
pub(crate) fn item_fn(tokens: proc_macro2::TokenStream) -> (r: Result<FnParts, syn::Error>)
    ensures
        match r {
            Ok(parts) => item_fn_parts(tokens) == Some(parts@),
            Err(_) => item_fn_parts(tokens) is None,
        },
{
    let item = syn::parse2::<syn::ItemFn>(tokens)?;
    Ok(FnParts {
        attrs: item.attrs.iter().map(|a| AttrText {
            inner: matches!(a.style, syn::AttrStyle::Inner(_)),
            text: a.to_token_stream().to_string(),
        }).collect(),
        vis: item.vis.to_token_stream().to_string(),
        sig: item.sig.to_token_stream().to_string(),
        block: item.block.to_token_stream().to_string(),
        is_async: item.sig.asyncness.is_some(),
    })
}

/// The first message of a `syn::Error`, as its `Display` gives it.
#[verifier::external_body]
pub(crate) fn error_text(error: &syn::Error) -> String {
    error.to_string()
}

} // verus!
