//! The derive `FromHashMap`: for a struct with named fields, the source of an
//! `impl From<HashMap<String, String>>` that fills each field from the
//! mapping.
//!
//! How a field is filled is decided from the text of its type alone. The
//! type is never resolved: a type whose text holds `u8` counts as `u8`. The
//! decision is `kind_of`, the emitted text is `impl_text`, and the executable
//! functions are proved to compute exactly those.

use crate::syntax::{
    declared_body, declared_name, error_text, field_decl, field_model, item_fields, item_name,
    item_shape, parse_derive_input, parsed_item, RawField, StructBody,
};
use crate::text::{chars_of, contains, has_prefix, has_substring, starts_with};
use vstd::prelude::*;

verus! {

/// The text with which the path of a list type begins.
pub const LIST_OPENING: &'static str = "Vec <";

/// The name that marks an optional type.
pub const OPTIONAL_NAME: &'static str = "Option";

/// The names of the types that are filled from one value.
pub const TEXT_NAME: &'static str = "String";

pub const U8_NAME: &'static str = "u8";

pub const U16_NAME: &'static str = "u16";

pub const I32_NAME: &'static str = "i32";

pub const F64_NAME: &'static str = "f64";

pub const BOOL_NAME: &'static str = "bool";

/// The pieces of the emitted text. A field's name stands before `GET_OPEN` or
/// `NESTED_OPEN`, and its name as a string literal wherever the mapping is
/// asked for a key.
pub const GET_OPEN: &'static str = ": fields.get(";

pub const TEXT_CLOSE: &'static str = ").cloned().unwrap_or_default(),";

pub const OPTIONAL_CLOSE: &'static str = ").cloned(),";

pub const U8_CLOSE: &'static str = ").and_then(|val| val.parse::<u8>().ok()).unwrap_or_default(),";

pub const I32_CLOSE: &'static str =
    ").and_then(|val| val.parse::<i32>().ok()).unwrap_or_default(),";

pub const F64_CLOSE: &'static str =
    ").and_then(|val| val.parse::<f64>().ok()).unwrap_or_default(),";

pub const LIST_CLOSE: &'static str =
    ").map(|val| val.split(',').filter_map(|s| s.trim().parse().ok()).collect()).unwrap_or_default(),";

pub const OPTION_LIST_CLOSE: &'static str =
    ").map(|val| val.split(',').map(|s| { let trimmed = s.trim(); if trimmed.is_empty() { None } else { trimmed.parse().ok() } }).collect::<Vec<Option<_>>>()).unwrap_or_default(),";

pub const NESTED_OPEN: &'static str = ": fields.iter().filter(|(k, _)| k.starts_with(&(";

pub const NESTED_MIDDLE: &'static str =
    ".to_string() + \".\"))).map(|(k, v)| (k.trim_start_matches(&(";

pub const NESTED_CLOSE: &'static str =
    ".to_string() + \".\")).to_string(), v.clone())).collect::<std::collections::HashMap<String, String>>().into(),";

pub const IMPL_HEAD: &'static str = "impl From<std::collections::HashMap<String, String>> for ";

pub const IMPL_MIDDLE: &'static str =
    " { fn from(fields: std::collections::HashMap<String, String>) -> Self { Self {";

pub const IMPL_TAIL: &'static str = " } } }";

pub const QUOTE: &'static str = "\"";

pub const SPACE: &'static str = " ";

/// The messages of the two refusals.
pub const NOT_A_STRUCT: &'static str = "FromHashMap can only be derived on structs.";

pub const NO_NAMED_FIELDS: &'static str =
    "FromHashMap can only be derived on structs with named fields.";

/// The rule by which a field is filled.
#[derive(Clone, Copy, Debug, PartialEq, Eq, Structural)]
pub enum FieldKind {
    /// The items of a comma-separated value, each read as the item type;
    /// items that cannot be read are left out.
    List,
    /// The items of a comma-separated value, an empty or unreadable item
    /// being absent.
    ListOfOptions,
    /// The entries whose keys begin with the field's name and a dot, as a
    /// mapping of its own, handed to the field's type.
    Nested,
    /// The value, if there is one.
    Optional,
    /// The value read as `u8`, or the default.
    U8,
    /// The value read as `i32`, or the default.
    I32,
    /// The value read as `f64`, or the default.
    F64,
    /// The value as it stands, or the default.
    Text,
}

/// A named field, as the derive reads it.
pub struct FieldDecl {
    /// The field's name.
    pub name: String,
    /// The text of the path of the field's type, where the type is a path.
    pub path_text: Option<String>,
    /// The text of the field's type.
    pub type_text: String,
}

/// A struct with named fields, as the derive reads it.
pub struct StructDecl {
    /// The struct's name.
    pub name: String,
    /// Its fields, in the order of their declaration.
    pub fields: Vec<FieldDecl>,
}

/// What a `FieldDecl` holds.
pub struct FieldModel {
    pub name: Seq<char>,
    pub path_text: Option<Seq<char>>,
    pub type_text: Seq<char>,
}

/// What a `StructDecl` holds.
pub struct StructModel {
    pub name: Seq<char>,
    pub fields: Seq<FieldModel>,
}

impl View for FieldDecl {
    type V = FieldModel;

    open spec fn view(&self) -> FieldModel {
        FieldModel {
            name: self.name@,
            path_text: match self.path_text {
                Some(p) => Some(p@),
                None => None,
            },
            type_text: self.type_text@,
        }
    }
}

impl View for StructDecl {
    type V = StructModel;

    open spec fn view(&self) -> StructModel {
        StructModel { name: self.name@, fields: self.fields@.map_values(|f: FieldDecl| f@) }
    }
}

/// Why no impl can be derived.
pub enum DeriveError {
    /// The input is no item that a derive can stand on.
    Syntax(syn::Error),
    /// The item is an enum or a union.
    NotAStruct,
    /// The struct is a tuple struct or a unit struct.
    NoNamedFields,
}

/// The text of a path names one of the types that are filled from one value.
pub open spec fn names_plain_type(path: Seq<char>) -> bool {
    ||| has_substring(path, TEXT_NAME@)
    ||| has_substring(path, U8_NAME@)
    ||| has_substring(path, U16_NAME@)
    ||| has_substring(path, I32_NAME@)
    ||| has_substring(path, F64_NAME@)
    ||| has_substring(path, BOOL_NAME@)
    ||| has_substring(path, OPTIONAL_NAME@)
}

/// The rule for a type that is filled from one value. The names are looked
/// for in this order, and the first that the text holds decides.
pub open spec fn plain_kind(type_text: Seq<char>) -> FieldKind {
    if has_substring(type_text, OPTIONAL_NAME@) {
        FieldKind::Optional
    } else if has_substring(type_text, U8_NAME@) {
        FieldKind::U8
    } else if has_substring(type_text, I32_NAME@) {
        FieldKind::I32
    } else if has_substring(type_text, F64_NAME@) {
        FieldKind::F64
    } else {
        FieldKind::Text
    }
}

/// The rule for a field. A path that begins as a list type is a list, of
/// options where it holds the optional name. Any other path that names no
/// plain type is nested. Everything else goes by `plain_kind` of the whole
/// type.
pub open spec fn kind_of(path_text: Option<Seq<char>>, type_text: Seq<char>) -> FieldKind {
    match path_text {
        Some(path) => if has_prefix(path, LIST_OPENING@) {
            if has_substring(path, OPTIONAL_NAME@) {
                FieldKind::ListOfOptions
            } else {
                FieldKind::List
            }
        } else if !names_plain_type(path) {
            FieldKind::Nested
        } else {
            plain_kind(type_text)
        },
        None => plain_kind(type_text),
    }
}

/// A field's name as a string literal.
pub open spec fn quoted(name: Seq<char>) -> Seq<char> {
    QUOTE@ + name + QUOTE@
}

/// The text that fills one field: the name, a colon, the expression of the
/// field's rule, and a comma.
pub open spec fn initializer_text(kind: FieldKind, name: Seq<char>) -> Seq<char> {
    match kind {
        FieldKind::List => name + GET_OPEN@ + quoted(name) + LIST_CLOSE@,
        FieldKind::ListOfOptions => name + GET_OPEN@ + quoted(name) + OPTION_LIST_CLOSE@,
        FieldKind::Nested => name + NESTED_OPEN@ + quoted(name) + NESTED_MIDDLE@ + quoted(name)
            + NESTED_CLOSE@,
        FieldKind::Optional => name + GET_OPEN@ + quoted(name) + OPTIONAL_CLOSE@,
        FieldKind::U8 => name + GET_OPEN@ + quoted(name) + U8_CLOSE@,
        FieldKind::I32 => name + GET_OPEN@ + quoted(name) + I32_CLOSE@,
        FieldKind::F64 => name + GET_OPEN@ + quoted(name) + F64_CLOSE@,
        FieldKind::Text => name + GET_OPEN@ + quoted(name) + TEXT_CLOSE@,
    }
}

/// The texts that fill the fields, in order, a space before each.
pub open spec fn initializers_text(fields: Seq<FieldModel>) -> Seq<char>
    decreases fields.len(),
{
    if fields.len() == 0 {
        Seq::empty()
    } else {
        let last = fields.last();
        initializers_text(fields.drop_last()) + SPACE@ + initializer_text(
            kind_of(last.path_text, last.type_text),
            last.name,
        )
    }
}

/// The source of the impl for a struct.
pub open spec fn impl_text(decl: StructModel) -> Seq<char> {
    IMPL_HEAD@ + decl.name + IMPL_MIDDLE@ + initializers_text(decl.fields) + IMPL_TAIL@
}

/// Tells whether the text of a path names one of the plain types.
fn path_names_plain_type(path: &Vec<char>) -> (b: bool)
    ensures
        b == names_plain_type(path@),
{
    contains(path, &chars_of(TEXT_NAME)) || contains(path, &chars_of(U8_NAME)) || contains(
        path,
        &chars_of(U16_NAME),
    ) || contains(path, &chars_of(I32_NAME)) || contains(path, &chars_of(F64_NAME)) || contains(
        path,
        &chars_of(BOOL_NAME),
    ) || contains(path, &chars_of(OPTIONAL_NAME))
}

/// The rule for a type that is filled from one value.
fn plain_kind_of(type_text: &str) -> (k: FieldKind)
    ensures
        k == plain_kind(type_text@),
{
    let text = chars_of(type_text);
    if contains(&text, &chars_of(OPTIONAL_NAME)) {
        FieldKind::Optional
    } else if contains(&text, &chars_of(U8_NAME)) {
        FieldKind::U8
    } else if contains(&text, &chars_of(I32_NAME)) {
        FieldKind::I32
    } else if contains(&text, &chars_of(F64_NAME)) {
        FieldKind::F64
    } else {
        FieldKind::Text
    }
}

/// Decides how a field is filled, from the text of the path of its type
/// (where the type is a path) and the text of the type.
pub fn classify(path_text: Option<&str>, type_text: &str) -> (k: FieldKind)
    ensures
        k == kind_of(
            match path_text {
                Some(p) => Some(p@),
                None => None,
            },
            type_text@,
        ),
{
    match path_text {
        Some(p) => {
            let path = chars_of(p);
            if starts_with(&path, &chars_of(LIST_OPENING)) {
                if contains(&path, &chars_of(OPTIONAL_NAME)) {
                    FieldKind::ListOfOptions
                } else {
                    FieldKind::List
                }
            } else if !path_names_plain_type(&path) {
                FieldKind::Nested
            } else {
                plain_kind_of(type_text)
            }
        },
        None => plain_kind_of(type_text),
    }
}

/// Puts `name` as a string literal at the end of `s`.
fn append_quoted(s: &mut String, name: &str)
    ensures
        final(s)@ == old(s)@ + quoted(name@),
{
    s.append(QUOTE);
    s.append(name);
    s.append(QUOTE);
    assert(s@ =~= old(s)@ + quoted(name@));
}

/// Writes the text that fills the field `name` by the rule `kind`.
pub fn initializer(kind: FieldKind, name: &str) -> (r: String)
    ensures
        r@ == initializer_text(kind, name@),
{
    let mut s = String::from_str(name);
    match kind {
        FieldKind::Nested => {
            s.append(NESTED_OPEN);
            append_quoted(&mut s, name);
            s.append(NESTED_MIDDLE);
            append_quoted(&mut s, name);
            s.append(NESTED_CLOSE);
        },
        _ => {
            s.append(GET_OPEN);
            append_quoted(&mut s, name);
            s.append(
                match kind {
                    FieldKind::List => LIST_CLOSE,
                    FieldKind::ListOfOptions => OPTION_LIST_CLOSE,
                    FieldKind::Optional => OPTIONAL_CLOSE,
                    FieldKind::U8 => U8_CLOSE,
                    FieldKind::I32 => I32_CLOSE,
                    FieldKind::F64 => F64_CLOSE,
                    _ => TEXT_CLOSE,
                },
            );
        },
    }
    s
}

impl FieldDecl {
    /// The rule by which this field is filled.
    pub fn kind(&self) -> (k: FieldKind)
        ensures
            k == kind_of(self@.path_text, self@.type_text),
    {
        match &self.path_text {
            Some(p) => classify(Some(p.as_str()), self.type_text.as_str()),
            None => classify(None, self.type_text.as_str()),
        }
    }

    /// The text that fills this field.
    pub fn initializer(&self) -> (r: String)
        ensures
            r@ == initializer_text(kind_of(self@.path_text, self@.type_text), self@.name),
    {
        initializer(self.kind(), self.name.as_str())
    }
}

impl StructDecl {
    /// The source of the impl that fills this struct from a mapping.
    pub fn impl_source(&self) -> (r: String)
        ensures
            r@ == impl_text(self@),
    {
        let mut s = String::from_str(IMPL_HEAD);
        s.append(self.name.as_str());
        s.append(IMPL_MIDDLE);
        let ghost head = s@;
        let ghost fields = self@.fields;
        let n = self.fields.len();
        let mut i: usize = 0;
        assert(fields.take(0) =~= Seq::<FieldModel>::empty());
        assert(s@ =~= head + initializers_text(fields.take(0)));
        while i < n
            invariant
                i <= n,
                n == self.fields@.len(),
                fields == self@.fields,
                s@ == head + initializers_text(fields.take(i as int)),
            decreases n - i,
        {
            let text = self.fields[i].initializer();
            let ghost before = initializers_text(fields.take(i as int));
            s.append(SPACE);
            s.append(text.as_str());
            proof {
                assert(fields.take(i + 1).drop_last() =~= fields.take(i as int));
                assert(fields.take(i + 1).last() == self.fields@[i as int]@);
                assert(s@ =~= head + (before + SPACE@ + text@));
            }
            i += 1;
        }
        assert(fields.take(n as int) =~= fields);
        s.append(IMPL_TAIL);
        s
    }
}

impl DeriveError {
    /// The message of this refusal.
    pub fn message(&self) -> (r: String)
        ensures
            self is NotAStruct ==> r@ == NOT_A_STRUCT@,
            self is NoNamedFields ==> r@ == NO_NAMED_FIELDS@,
    {
        match self {
            DeriveError::Syntax(e) => error_text(e),
            DeriveError::NotAStruct => String::from_str(NOT_A_STRUCT),
            DeriveError::NoNamedFields => String::from_str(NO_NAMED_FIELDS),
        }
    }
}

/// What a `RawField` holds.
pub struct RawFieldModel {
    pub name: Option<Seq<char>>,
    pub path_text: Option<Seq<char>>,
    pub type_text: Seq<char>,
}

impl View for RawField {
    type V = RawFieldModel;

    open spec fn view(&self) -> RawFieldModel {
        RawFieldModel {
            name: match self.name {
                Some(n) => Some(n@),
                None => None,
            },
            path_text: match self.path_text {
                Some(p) => Some(p@),
                None => None,
            },
            type_text: self.type_text@,
        }
    }
}

/// The kind of item that a derive stands on.
#[derive(Clone, Copy, Debug, PartialEq, Eq, Structural)]
pub enum ItemShape {
    /// A struct with named fields.
    NamedStruct,
    /// A tuple struct.
    TupleStruct,
    /// A unit struct.
    UnitStruct,
    /// An enum.
    Enum,
    /// A union.
    Union,
}

/// The kind of a refusal.
pub enum Refusal {
    Syntax,
    NotAStruct,
    NoNamedFields,
}

/// The kind of an error.
pub open spec fn refusal(e: DeriveError) -> Refusal {
    match e {
        DeriveError::Syntax(_) => Refusal::Syntax,
        DeriveError::NotAStruct => Refusal::NotAStruct,
        DeriveError::NoNamedFields => Refusal::NoNamedFields,
    }
}

/// What a reading came to: the struct that was read, or the kind of refusal.
pub open spec fn outcome(r: Result<StructDecl, DeriveError>) -> Result<StructModel, Refusal> {
    match r {
        Ok(decl) => Ok(decl@),
        Err(e) => Err(refusal(e)),
    }
}

/// Every field has a name.
pub open spec fn all_named(fields: Seq<RawFieldModel>) -> bool {
    forall|i: int| 0 <= i < fields.len() ==> (#[trigger] fields[i]).name is Some
}

/// A field that has a name, as the derive reads it.
pub open spec fn named(field: RawFieldModel) -> FieldModel {
    FieldModel { name: field.name->0, path_text: field.path_text, type_text: field.type_text }
}

/// The struct that an item is read as. An enum or a union is refused as no
/// struct; a tuple struct, a unit struct, and a struct one of whose fields
/// has no name, as a struct without named fields. Anything else is read with
/// its name and its fields in their order.
pub open spec fn decl_of(name: Seq<char>, shape: ItemShape, fields: Seq<RawFieldModel>) -> Result<
    StructModel,
    Refusal,
> {
    match shape {
        ItemShape::Enum => Err(Refusal::NotAStruct),
        ItemShape::Union => Err(Refusal::NotAStruct),
        ItemShape::TupleStruct => Err(Refusal::NoNamedFields),
        ItemShape::UnitStruct => Err(Refusal::NoNamedFields),
        ItemShape::NamedStruct => if all_named(fields) {
            Ok(StructModel { name, fields: fields.map_values(|f: RawFieldModel| named(f)) })
        } else {
            Err(Refusal::NoNamedFields)
        },
    }
}

/// What the fields of a list hold.
pub open spec fn raw_fields(fields: Seq<RawField>) -> Seq<RawFieldModel> {
    fields.map_values(|f: RawField| f@)
}

/// A copy of an optional text.
fn copy_of(text: &Option<String>) -> (r: Option<String>)
    ensures
        match r {
            Some(t) => *text matches Some(s) && t@ == s@,
            None => *text is None,
        },
{
    match text {
        Some(s) => Some(s.clone()),
        None => None,
    }
}

/// Makes a struct declaration of what the parser printed of an item: its
/// name, its shape, and, for a struct with named fields, those fields.
pub fn struct_decl(name: String, shape: ItemShape, fields: &Vec<RawField>) -> (r: Result<
    StructDecl,
    DeriveError,
>)
    ensures
        outcome(r) == decl_of(name@, shape, raw_fields(fields@)),
{
    match shape {
        ItemShape::Enum => Err(DeriveError::NotAStruct),
        ItemShape::Union => Err(DeriveError::NotAStruct),
        ItemShape::TupleStruct => Err(DeriveError::NoNamedFields),
        ItemShape::UnitStruct => Err(DeriveError::NoNamedFields),
        ItemShape::NamedStruct => {
            let ghost raw = raw_fields(fields@);
            let mut decls: Vec<FieldDecl> = Vec::new();
            let n = fields.len();
            let mut i: usize = 0;
            while i < n
                invariant
                    i <= n,
                    n == fields@.len(),
                    raw == raw_fields(fields@),
                    shape is NamedStruct,
                    decls@.len() == i,
                    forall|j: int|
                        0 <= j < i ==> (#[trigger] raw[j]).name is Some && decls@[j]@ == named(
                            raw[j],
                        ),
                decreases n - i,
            {
                let field = &fields[i];
                assert(raw[i as int] == field@);
                match &field.name {
                    Some(field_name) => {
                        decls.push(
                            FieldDecl {
                                name: field_name.clone(),
                                path_text: copy_of(&field.path_text),
                                type_text: field.type_text.clone(),
                            },
                        );
                    },
                    None => {
                        assert(raw[i as int].name is None);
                        return Err(DeriveError::NoNamedFields);
                    },
                }
                i += 1;
            }
            let decl = StructDecl { name, fields: decls };
            assert(decl@.fields =~= raw.map_values(|f: RawFieldModel| named(f)));
            Ok(decl)
        },
    }
}

/// Reads the struct that a derive stands on: the parser prints the item's
/// name and fields, and `struct_decl` makes the declaration of them. An enum
/// or a union is refused as no struct; a tuple struct, a unit struct, and a
/// struct with a nameless field, as a struct without named fields.
pub fn read_struct(input: &syn::DeriveInput) -> (r: Result<StructDecl, DeriveError>)
    ensures
        outcome(r) == decl_of(item_name(*input), item_shape(*input), item_fields(*input)),
{
    let name = declared_name(input);
    let mut printed: Vec<RawField> = Vec::new();
    let shape = match declared_body(input) {
        StructBody::Named(fields) => {
            let n = fields.len();
            let mut i: usize = 0;
            while i < n
                invariant
                    i <= n,
                    n == fields@.len(),
                    printed@.len() == i,
                    forall|j: int| 0 <= j < i ==> (#[trigger] printed@[j])@ == field_model(fields@[j]),
                decreases n - i,
            {
                printed.push(field_decl(&fields[i]));
                i += 1;
            }
            assert(raw_fields(printed@) =~= fields@.map_values(|f: syn::Field| field_model(f)));
            ItemShape::NamedStruct
        },
        StructBody::Unnamed => ItemShape::TupleStruct,
        StructBody::Unit => ItemShape::UnitStruct,
        StructBody::Enum => ItemShape::Enum,
        StructBody::Union => ItemShape::Union,
    };
    struct_decl(name, shape, &printed)
}

/// What the derive makes of tokens: the parser's refusal where they spell no
/// item, the refusal of the reading where the item is no struct with named
/// fields, and otherwise the source of the impl for the struct that the item
/// is read as.
pub open spec fn derived(input: proc_macro2::TokenStream) -> Result<Seq<char>, Refusal> {
    match parsed_item(input) {
        Some(item) => match decl_of(item_name(item), item_shape(item), item_fields(item)) {
            Ok(decl) => Ok(impl_text(decl)),
            Err(kind) => Err(kind),
        },
        None => Err(Refusal::Syntax),
    }
}

/// The derive: from the tokens of the item to the source of its impl.
pub fn derive_from_hashmap_impl(input: proc_macro2::TokenStream) -> (r: Result<
    String,
    DeriveError,
>)
    ensures
        match r {
            Ok(source) => derived(input) == Ok::<Seq<char>, Refusal>(source@),
            Err(e) => derived(input) == Err::<Seq<char>, Refusal>(refusal(e)),
        },
{
    match parse_derive_input(input) {
        Ok(item) => match read_struct(&item) {
            Ok(decl) => Ok(decl.impl_source()),
            Err(e) => Err(e),
        },
        Err(e) => Err(DeriveError::Syntax(e)),
    }
}

} // verus!
