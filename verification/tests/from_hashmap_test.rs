use doless::flat_map::FlatMap;
use doless::from_hashmap::{
    classify, derive_from_hashmap_impl, initializer, read_struct, struct_decl, DeriveError,
    FieldDecl, FieldKind, ItemShape, StructDecl,
};
use doless::syntax::RawField;
use proc_macro2::{Delimiter, TokenStream, TokenTree};

fn tokens(source: &str) -> TokenStream {
    source.parse::<TokenStream>().expect("the source lexes")
}

fn spelled(stream: TokenStream, out: &mut Vec<String>) {
    for tree in stream {
        match tree {
            TokenTree::Group(group) => {
                let (open, close) = match group.delimiter() {
                    Delimiter::Parenthesis => ("(", ")"),
                    Delimiter::Brace => ("{", "}"),
                    Delimiter::Bracket => ("[", "]"),
                    Delimiter::None => ("", ""),
                };
                out.push(open.to_string());
                spelled(group.stream(), out);
                out.push(close.to_string());
            }
            TokenTree::Ident(ident) => out.push(ident.to_string()),
            TokenTree::Punct(punct) => out.push(punct.as_char().to_string()),
            TokenTree::Literal(literal) => out.push(literal.to_string()),
        }
    }
}

// The tokens of a source, one by one: two sources with the same tokens are
// the same code, however they are spaced.
fn normal(source: &str) -> String {
    let mut out = Vec::new();
    spelled(tokens(source), &mut out);
    out.join(" ")
}

fn declared(source: &str) -> StructDecl {
    let input = syn::parse_str::<syn::DeriveInput>(source).expect("the source is an item");
    match read_struct(&input) {
        Ok(decl) => decl,
        Err(e) => panic!("{}", e.message()),
    }
}

fn kinds(decl: &StructDecl) -> Vec<(String, FieldKind)> {
    decl.fields.iter().map(|f| (f.name.clone(), f.kind())).collect()
}

const CAR: &str = "struct Car {
    model: String,
    brand: String,
    an_option_field: Option<String>,
    number: u8,
    details: CarDetails,
}";

const CAR_DETAILS: &str = "struct CarDetails {
    name: String,
    description: String,
}";

const VEC_STRUCT: &str = "struct VecStruct {
    vec_string: Vec<String>,
    vec_u8: Vec<u8>,
    vec_option: Vec<Option<String>>,
}";

#[test]
fn test_from_hashmap() {
    let mut data = FlatMap::new();
    data.insert("model".to_string(), "GT-R".to_string());
    data.insert("brand".to_string(), "Nissan".to_string());
    data.insert("number".to_string(), "8".to_string());
    data.insert("details.name".to_string(), "v8engine".to_string());
    data.insert("details.description".to_string(), "500hp".to_string());

    let car = declared(CAR);
    assert_eq!(
        kinds(&car),
        vec![
            ("model".to_string(), FieldKind::Text),
            ("brand".to_string(), FieldKind::Text),
            ("an_option_field".to_string(), FieldKind::Optional),
            ("number".to_string(), FieldKind::U8),
            ("details".to_string(), FieldKind::Nested),
        ]
    );
    let car_details = declared(CAR_DETAILS);
    assert_eq!(
        kinds(&car_details),
        vec![("name".to_string(), FieldKind::Text), ("description".to_string(), FieldKind::Text)]
    );

    assert_eq!(data.text_or_default("model"), "GT-R");
    assert_eq!(data.text_or_default("brand"), "Nissan");
    assert_eq!(data.u8_or_default("number"), 0b1000);
    assert_eq!(data.optional_text("an_option_field"), None);
    let details = data.nested("details");
    assert_eq!(details.text_or_default("name"), "v8engine");
    assert_eq!(details.text_or_default("description"), "500hp");
}

#[test]
fn test_from_vec() {
    let mut data = FlatMap::new();
    data.insert("vec_string".to_string(), "hello, world, rust".to_string());
    data.insert("vec_u8".to_string(), "1, 2, 999".to_string());
    data.insert("vec_option".to_string(), "1,2,,".to_string());

    let vec_struct = declared(VEC_STRUCT);
    assert_eq!(
        kinds(&vec_struct),
        vec![
            ("vec_string".to_string(), FieldKind::List),
            ("vec_u8".to_string(), FieldKind::List),
            ("vec_option".to_string(), FieldKind::ListOfOptions),
        ]
    );

    let vec_string = data.list_of_text("vec_string");
    let vec_u8 = data.list_of_u8("vec_u8");
    let vec_option = data.list_of_optional_text("vec_option");
    println!("{:?} {:?} {:?}", vec_string, vec_u8, vec_option);
    assert_eq!(vec_string.len(), 3);
    assert_eq!(vec_string, vec!["hello", "world", "rust"]);
    assert_eq!(vec_u8, vec![1, 2]);
    assert_eq!(vec_option, vec![Some(String::from("1")), Some(String::from("2")), None, None]);
}

#[test]
fn derive_writes_the_impl_for_car() {
    let source = match derive_from_hashmap_impl(tokens(CAR)) {
        Ok(source) => source,
        Err(e) => panic!("{}", e.message()),
    };
    let expected = r#"
        impl From<std::collections::HashMap<String, String>> for Car {
            fn from(fields: std::collections::HashMap<String, String>) -> Self {
                Self {
                    model: fields.get("model").cloned().unwrap_or_default(),
                    brand: fields.get("brand").cloned().unwrap_or_default(),
                    an_option_field: fields.get("an_option_field").cloned(),
                    number: fields.get("number")
                        .and_then(|val| val.parse::<u8>().ok())
                        .unwrap_or_default(),
                    details: fields.iter()
                        .filter(|(k, _)| k.starts_with(&("details".to_string() + ".")))
                        .map(|(k, v)| (k.trim_start_matches(&("details".to_string() + ".")).to_string(), v.clone()))
                        .collect::<std::collections::HashMap<String, String>>()
                        .into(),
                }
            }
        }"#;
    assert_eq!(normal(&source), normal(expected));
}

#[test]
fn derive_writes_the_impl_for_lists() {
    let source = match derive_from_hashmap_impl(tokens(VEC_STRUCT)) {
        Ok(source) => source,
        Err(e) => panic!("{}", e.message()),
    };
    let expected = r#"
        impl From<std::collections::HashMap<String, String>> for VecStruct {
            fn from(fields: std::collections::HashMap<String, String>) -> Self {
                Self {
                    vec_string: fields.get("vec_string")
                        .map(|val| val.split(',')
                            .filter_map(|s| s.trim().parse().ok())
                            .collect()
                        ).unwrap_or_default(),
                    vec_u8: fields.get("vec_u8")
                        .map(|val| val.split(',')
                            .filter_map(|s| s.trim().parse().ok())
                            .collect()
                        ).unwrap_or_default(),
                    vec_option: fields.get("vec_option")
                        .map(|val| val.split(',')
                            .map(|s| {
                                let trimmed = s.trim();
                                if trimmed.is_empty() {
                                    None
                                } else {
                                    trimmed.parse().ok()
                                }
                            })
                            .collect::<Vec<Option<_>>>()
                        ).unwrap_or_default(),
                }
            }
        }"#;
    assert_eq!(normal(&source), normal(expected));
}

#[test]
fn impl_source_of_a_struct_without_fields() {
    let decl = StructDecl { name: "Empty".to_string(), fields: Vec::new() };
    assert_eq!(
        decl.impl_source(),
        "impl From<std::collections::HashMap<String, String>> for Empty { fn from(fields: std::collections::HashMap<String, String>) -> Self { Self { } } }"
    );
}

#[test]
fn initializer_of_each_kind() {
    assert_eq!(
        initializer(FieldKind::Text, "a"),
        "a: fields.get(\"a\").cloned().unwrap_or_default(),"
    );
    assert_eq!(initializer(FieldKind::Optional, "a"), "a: fields.get(\"a\").cloned(),");
    assert_eq!(
        initializer(FieldKind::U8, "a"),
        "a: fields.get(\"a\").and_then(|val| val.parse::<u8>().ok()).unwrap_or_default(),"
    );
    assert_eq!(
        initializer(FieldKind::I32, "a"),
        "a: fields.get(\"a\").and_then(|val| val.parse::<i32>().ok()).unwrap_or_default(),"
    );
    assert_eq!(
        initializer(FieldKind::F64, "a"),
        "a: fields.get(\"a\").and_then(|val| val.parse::<f64>().ok()).unwrap_or_default(),"
    );
    assert_eq!(
        normal(&initializer(FieldKind::List, "a")),
        normal("a: fields.get(\"a\").map(|val| val.split(',').filter_map(|s| s.trim().parse().ok()).collect()).unwrap_or_default(),")
    );
    assert!(initializer(FieldKind::ListOfOptions, "a").contains("collect::<Vec<Option<_>>>()"));
    assert!(initializer(FieldKind::Nested, "a").contains("k.trim_start_matches(&(\"a\".to_string() + \".\"))"));
}

#[test]
fn field_decl_writes_its_own_initializer() {
    let field = FieldDecl {
        name: "count".to_string(),
        path_text: Some("i32".to_string()),
        type_text: "i32".to_string(),
    };
    assert_eq!(field.kind(), FieldKind::I32);
    assert_eq!(field.initializer(), initializer(FieldKind::I32, "count"));
}

#[test]
fn classify_goes_by_the_text_of_the_type() {
    assert_eq!(classify(Some("String"), "String"), FieldKind::Text);
    assert_eq!(classify(Some("u8"), "u8"), FieldKind::U8);
    assert_eq!(classify(Some("i32"), "i32"), FieldKind::I32);
    assert_eq!(classify(Some("f64"), "f64"), FieldKind::F64);
    assert_eq!(classify(Some("Option < u8 >"), "Option < u8 >"), FieldKind::Optional);
    assert_eq!(classify(Some("CarDetails"), "CarDetails"), FieldKind::Nested);
    assert_eq!(classify(Some("Vec < u8 >"), "Vec < u8 >"), FieldKind::List);
    assert_eq!(classify(Some("Vec < CarDetails >"), "Vec < CarDetails >"), FieldKind::List);
    assert_eq!(
        classify(Some("Vec < Option < String > >"), "Vec < Option < String > >"),
        FieldKind::ListOfOptions
    );
}

#[test]
fn classify_edge_cases() {
    // Types that are named but have no rule of their own are filled as text.
    assert_eq!(classify(Some("u16"), "u16"), FieldKind::Text);
    assert_eq!(classify(Some("bool"), "bool"), FieldKind::Text);
    // A name inside a longer name counts.
    assert_eq!(classify(Some("Myu8Thing"), "Myu8Thing"), FieldKind::U8);
    // The list opening is looked for with its space.
    assert_eq!(classify(Some("Vec<u8>"), "Vec<u8>"), FieldKind::U8);
    assert_eq!(classify(Some("std :: vec :: Vec < u8 >"), "std :: vec :: Vec < u8 >"), FieldKind::U8);
    // A type that is no path is never nested.
    assert_eq!(classify(None, "(A , B)"), FieldKind::Text);
    assert_eq!(classify(None, "& 'static str"), FieldKind::Text);
    assert_eq!(classify(None, "[u8 ; 4]"), FieldKind::U8);
    // The optional name wins over the numbers.
    assert_eq!(classify(Some("Option < i32 >"), "Option < i32 >"), FieldKind::Optional);
    // The path decides on nesting, the whole type on the rest.
    assert_eq!(classify(Some("Out"), "< u8 as Trait > :: Out"), FieldKind::Nested);
    assert_eq!(classify(Some("String"), "Wrapper"), FieldKind::Text);
}

#[test]
fn derive_refuses_what_is_no_struct_with_named_fields() {
    assert!(matches!(derive_from_hashmap_impl(tokens("enum E { A, B }")), Err(DeriveError::NotAStruct)));
    assert!(matches!(
        derive_from_hashmap_impl(tokens("union U { a: u8, b: u8 }")),
        Err(DeriveError::NotAStruct)
    ));
    assert!(matches!(
        derive_from_hashmap_impl(tokens("struct T(u8, u8);")),
        Err(DeriveError::NoNamedFields)
    ));
    assert!(matches!(derive_from_hashmap_impl(tokens("struct U;")), Err(DeriveError::NoNamedFields)));
    assert!(matches!(derive_from_hashmap_impl(tokens("fn f() {}")), Err(DeriveError::Syntax(_))));
}

#[test]
fn derive_error_messages() {
    assert_eq!(DeriveError::NotAStruct.message(), "FromHashMap can only be derived on structs.");
    assert_eq!(
        DeriveError::NoNamedFields.message(),
        "FromHashMap can only be derived on structs with named fields."
    );
    match derive_from_hashmap_impl(tokens("fn f() {}")) {
        Err(e) => assert!(!e.message().is_empty()),
        Ok(_) => panic!("a function is no derive input"),
    }
}

#[test]
fn read_struct_prints_types_with_spaces() {
    let decl = declared("struct S { a: Vec<u8>, b: &'static str, c: std::string::String }");
    assert_eq!(decl.name, "S");
    assert_eq!(decl.fields.len(), 3);
    assert_eq!(decl.fields[0].path_text.as_deref(), Some("Vec < u8 >"));
    assert_eq!(decl.fields[0].type_text, "Vec < u8 >");
    assert_eq!(decl.fields[1].path_text, None);
    assert_eq!(decl.fields[2].path_text.as_deref(), Some("std :: string :: String"));
}

fn raw(name: Option<&str>, path: Option<&str>, ty: &str) -> RawField {
    RawField {
        name: name.map(|n| n.to_string()),
        path_text: path.map(|p| p.to_string()),
        type_text: ty.to_string(),
    }
}

#[test]
fn struct_decl_keeps_name_and_fields_in_order() {
    let fields = vec![raw(Some("a"), Some("u8"), "u8"), raw(Some("b"), None, "& str")];
    let decl = match struct_decl("S".to_string(), ItemShape::NamedStruct, &fields) {
        Ok(decl) => decl,
        Err(e) => panic!("{}", e.message()),
    };
    assert_eq!(decl.name, "S");
    assert_eq!(decl.fields.len(), 2);
    assert_eq!(decl.fields[0].name, "a");
    assert_eq!(decl.fields[0].path_text.as_deref(), Some("u8"));
    assert_eq!(decl.fields[0].type_text, "u8");
    assert_eq!(decl.fields[1].name, "b");
    assert_eq!(decl.fields[1].path_text, None);
    assert_eq!(decl.fields[1].type_text, "& str");
    let empty = match struct_decl("E".to_string(), ItemShape::NamedStruct, &Vec::new()) {
        Ok(decl) => decl,
        Err(e) => panic!("{}", e.message()),
    };
    assert_eq!(empty.name, "E");
    assert!(empty.fields.is_empty());
}

#[test]
fn struct_decl_refuses_by_shape_and_by_a_nameless_field() {
    let named = vec![raw(Some("a"), Some("u8"), "u8")];
    assert!(matches!(
        struct_decl("S".to_string(), ItemShape::Enum, &named),
        Err(DeriveError::NotAStruct)
    ));
    assert!(matches!(
        struct_decl("S".to_string(), ItemShape::Union, &named),
        Err(DeriveError::NotAStruct)
    ));
    assert!(matches!(
        struct_decl("S".to_string(), ItemShape::TupleStruct, &named),
        Err(DeriveError::NoNamedFields)
    ));
    assert!(matches!(
        struct_decl("S".to_string(), ItemShape::UnitStruct, &Vec::new()),
        Err(DeriveError::NoNamedFields)
    ));
    let nameless = vec![raw(Some("a"), Some("u8"), "u8"), raw(None, Some("u8"), "u8")];
    assert!(matches!(
        struct_decl("S".to_string(), ItemShape::NamedStruct, &nameless),
        Err(DeriveError::NoNamedFields)
    ));
}

#[test]
fn read_struct_is_struct_decl_of_what_the_parser_prints() {
    let read = declared(CAR);
    let printed = vec![
        raw(Some("model"), Some("String"), "String"),
        raw(Some("brand"), Some("String"), "String"),
        raw(Some("an_option_field"), Some("Option < String >"), "Option < String >"),
        raw(Some("number"), Some("u8"), "u8"),
        raw(Some("details"), Some("CarDetails"), "CarDetails"),
    ];
    let made = match struct_decl("Car".to_string(), ItemShape::NamedStruct, &printed) {
        Ok(decl) => decl,
        Err(e) => panic!("{}", e.message()),
    };
    assert_eq!(read.name, made.name);
    assert_eq!(read.fields.len(), made.fields.len());
    for (a, b) in read.fields.iter().zip(made.fields.iter()) {
        assert_eq!(a.name, b.name);
        assert_eq!(a.path_text, b.path_text);
        assert_eq!(a.type_text, b.type_text);
    }
    assert_eq!(read.impl_source(), made.impl_source());
}
