use simple_conf::annotation::{
    has_annotation, parse_attribute, AnnotationBody, DataShape, Declaration, Entry, Lit, NameValue,
    RawAnnotation, RawField,
};
use simple_conf::descriptor::{generate_options, parse_fields, ConfigAttributes, ConfigField, ConfigInputType};
use simple_conf::error::DeriveError;
use simple_conf::resolve::parse_meta_to_lit;

fn s(text: &str) -> Lit {
    Lit::Str(text.to_string())
}

fn pair(name: &str, lit: Lit) -> Entry {
    Entry::NameValue(NameValue { name: name.to_string(), lit })
}

fn list(name: &str, entries: Vec<Entry>) -> RawAnnotation {
    RawAnnotation { name: name.to_string(), body: AnnotationBody::List(entries) }
}

fn config(entries: Vec<Entry>) -> RawAnnotation {
    list("from_config", entries)
}

fn field(name: &str, annotations: Vec<RawAnnotation>) -> RawField {
    RawField { name: Some(name.to_string()), annotations }
}

fn declaration(annotations: Vec<RawAnnotation>, fields: Vec<RawField>) -> Declaration {
    Declaration { name: "Settings".to_string(), annotations, data: DataShape::Struct(fields) }
}

#[test]
fn path_source_with_plain_fields() {
    let decl = declaration(
        vec![config(vec![pair("path", s("app.cfg"))])],
        vec![field("a", vec![]), field("b", vec![]), field("c", vec![])],
    );
    let out = generate_options(&decl).unwrap();
    assert_eq!(out.name, "Settings");
    assert_eq!(out.attributes.input, ConfigInputType::Path(s("app.cfg")));
    assert_eq!(out.attributes.serializer, None);
    assert_eq!(out.attributes.deserializer, None);
    assert!(!out.attributes.is_structopt_present);
    assert_eq!(out.fields.len(), 3);
    for f in &out.fields {
        assert_eq!(f.save, None);
    }
}

#[test]
fn serialized_source_with_overrides() {
    let anns = vec![config(vec![
        pair("serialized", s("{}")),
        pair("serializer", s("custom_ser")),
        pair("deserializer", s("custom_de")),
    ])];
    let attrs = ConfigAttributes::new(&anns).unwrap();
    assert_eq!(attrs.input, ConfigInputType::Serialized(s("{}")));
    assert_eq!(attrs.serializer, Some(s("custom_ser")));
    assert_eq!(attrs.deserializer, Some(s("custom_de")));
}

#[test]
fn overrides_keep_their_slots_in_any_order() {
    let anns = vec![config(vec![
        pair("deserializer", s("de")),
        pair("path", s("p")),
        pair("serializer", s("ser")),
    ])];
    let attrs = ConfigAttributes::new(&anns).unwrap();
    assert_eq!(attrs.input, ConfigInputType::Path(s("p")));
    assert_eq!(attrs.serializer, Some(s("ser")));
    assert_eq!(attrs.deserializer, Some(s("de")));
}

#[test]
fn path_and_serialized_conflict() {
    let anns = vec![config(vec![pair("path", s("a")), pair("serialized", s("b"))])];
    assert_eq!(ConfigAttributes::new(&anns), Err(DeriveError::ConflictingInputSource));
}

#[test]
fn no_recognized_arguments_is_missing_source() {
    let anns = vec![config(vec![])];
    assert_eq!(ConfigAttributes::new(&anns), Err(DeriveError::MissingInputSource));
    let none: Vec<RawAnnotation> = vec![];
    assert_eq!(ConfigAttributes::new(&none), Err(DeriveError::MissingInputSource));
    let overrides_only = vec![config(vec![pair("serializer", s("x"))])];
    assert_eq!(ConfigAttributes::new(&overrides_only), Err(DeriveError::MissingInputSource));
}

#[test]
fn field_with_two_entries_has_too_many_arguments() {
    let f = field("a", vec![config(vec![pair("save", s("ignore")), pair("extra", s("x"))])]);
    assert_eq!(
        ConfigField::new(&f),
        Err(DeriveError::TooManyArguments { supplied: 2, recognized: 1 })
    );
    let decl = declaration(vec![config(vec![pair("path", s("p"))])], vec![f]);
    assert_eq!(
        generate_options(&decl).unwrap_err(),
        DeriveError::TooManyArguments { supplied: 2, recognized: 1 }
    );
}

#[test]
fn too_many_arguments_before_names_are_read() {
    let pairs = vec![
        NameValue { name: "nope".to_string(), lit: s("1") },
        NameValue { name: "nope".to_string(), lit: s("2") },
    ];
    assert_eq!(
        parse_meta_to_lit(pairs, vec!["save"]),
        Err(DeriveError::TooManyArguments { supplied: 2, recognized: 1 })
    );
    let anns = vec![config(vec![
        pair("path", s("a")),
        pair("serialized", s("b")),
        pair("serializer", s("c")),
        pair("deserializer", s("d")),
        pair("path", s("e")),
    ])];
    assert_eq!(
        ConfigAttributes::new(&anns),
        Err(DeriveError::TooManyArguments { supplied: 5, recognized: 4 })
    );
}

#[test]
fn unrecognized_argument_name() {
    let anns = vec![config(vec![pair("pth", s("a"))])];
    assert_eq!(
        ConfigAttributes::new(&anns),
        Err(DeriveError::UnrecognizedArgumentName("pth".to_string()))
    );
}

#[test]
fn names_are_case_sensitive() {
    let anns = vec![config(vec![pair("Path", s("a"))])];
    assert_eq!(
        ConfigAttributes::new(&anns),
        Err(DeriveError::UnrecognizedArgumentName("Path".to_string()))
    );
}

#[test]
fn duplicate_argument() {
    let anns = vec![config(vec![pair("path", s("a")), pair("path", s("b"))])];
    assert_eq!(
        ConfigAttributes::new(&anns),
        Err(DeriveError::DuplicateArgument("path".to_string()))
    );
}

#[test]
fn duplicate_across_two_annotations() {
    let anns = vec![config(vec![pair("path", s("a"))]), config(vec![pair("path", s("b"))])];
    assert_eq!(
        ConfigAttributes::new(&anns),
        Err(DeriveError::DuplicateArgument("path".to_string()))
    );
}

#[test]
fn annotations_are_flattened_in_order() {
    let anns = vec![
        config(vec![pair("serialized", s("{}"))]),
        list("doc", vec![Entry::Flag]),
        config(vec![pair("serializer", s("ser"))]),
    ];
    let attrs = ConfigAttributes::new(&anns).unwrap();
    assert_eq!(attrs.input, ConfigInputType::Serialized(s("{}")));
    assert_eq!(attrs.serializer, Some(s("ser")));
    let pairs = parse_attribute(&anns, "from_config").unwrap();
    assert_eq!(pairs.len(), 2);
    assert_eq!(pairs[0].name, "serialized");
    assert_eq!(pairs[1].name, "serializer");
}

#[test]
fn malformed_annotation_shape() {
    for body in [AnnotationBody::Word, AnnotationBody::Assign(s("x")), AnnotationBody::Unparsed] {
        let anns = vec![RawAnnotation { name: "from_config".to_string(), body }];
        assert_eq!(ConfigAttributes::new(&anns), Err(DeriveError::MalformedAnnotationShape));
    }
}

#[test]
fn other_annotations_are_not_inspected() {
    let anns = vec![
        RawAnnotation { name: "serde".to_string(), body: AnnotationBody::Unparsed },
        config(vec![pair("path", s("p"))]),
    ];
    assert!(ConfigAttributes::new(&anns).is_ok());
}

#[test]
fn unsupported_annotation_entry() {
    for entry in [Entry::Flag, Entry::Nested, Entry::Literal(s("x"))] {
        let anns = vec![config(vec![pair("path", s("p")), entry])];
        assert_eq!(ConfigAttributes::new(&anns), Err(DeriveError::UnsupportedAnnotationEntry));
    }
}

#[test]
fn first_error_in_order_wins() {
    let anns = vec![
        config(vec![Entry::Flag]),
        RawAnnotation { name: "from_config".to_string(), body: AnnotationBody::Word },
    ];
    assert_eq!(parse_attribute(&anns, "from_config").unwrap_err(), DeriveError::UnsupportedAnnotationEntry);
}

#[test]
fn structopt_presence_sets_cli_flag() {
    let anns = vec![
        config(vec![pair("path", s("p"))]),
        RawAnnotation { name: "StructOpt".to_string(), body: AnnotationBody::Unparsed },
    ];
    assert!(ConfigAttributes::new(&anns).unwrap().is_structopt_present);
    assert!(has_annotation(&anns, "StructOpt"));
    assert!(!has_annotation(&anns, "structopt"));
}

#[test]
fn unnamed_field_fails_regardless_of_others() {
    let fields = vec![
        field("a", vec![config(vec![pair("bogus", s("x"))])]),
        RawField { name: None, annotations: vec![] },
        RawField { name: None, annotations: vec![] },
    ];
    let decl = declaration(vec![config(vec![pair("path", s("p"))])], fields);
    assert_eq!(
        generate_options(&decl).unwrap_err(),
        DeriveError::UnnamedFieldUnsupported { index: 1 }
    );
}

#[test]
fn non_struct_is_unsupported() {
    assert_eq!(parse_fields(&DataShape::Enum), Err(DeriveError::UnsupportedDataShape));
    assert_eq!(parse_fields(&DataShape::Union), Err(DeriveError::UnsupportedDataShape));
}

#[test]
fn type_errors_come_before_field_errors() {
    let decl = Declaration {
        name: "E".to_string(),
        annotations: vec![config(vec![])],
        data: DataShape::Enum,
    };
    assert_eq!(generate_options(&decl).unwrap_err(), DeriveError::MissingInputSource);
}

#[test]
fn field_order_and_save_values_are_kept() {
    let fields = vec![
        field("zeta", vec![]),
        field("alpha", vec![config(vec![pair("save", s("ignore"))])]),
        field("mid", vec![config(vec![pair("save", Lit::Bool(false))])]),
    ];
    let out = parse_fields(&DataShape::Struct(fields)).unwrap();
    assert_eq!(
        out,
        vec![
            ConfigField { name: "zeta".to_string(), save: None },
            ConfigField { name: "alpha".to_string(), save: Some(s("ignore")) },
            ConfigField { name: "mid".to_string(), save: Some(Lit::Bool(false)) },
        ]
    );
}

#[test]
fn unit_struct_has_no_fields() {
    assert_eq!(parse_fields(&DataShape::Struct(vec![])), Ok(vec![]));
}

#[test]
fn deriving_twice_gives_the_same_descriptor() {
    let decl = declaration(
        vec![config(vec![pair("path", Lit::Int("7".to_string()))])],
        vec![field("x", vec![config(vec![pair("save", Lit::Float("1.5".to_string()))])])],
    );
    let a = generate_options(&decl).unwrap();
    let b = generate_options(&decl).unwrap();
    assert_eq!(a.name, b.name);
    assert_eq!(a.attributes, b.attributes);
    assert_eq!(a.fields, b.fields);
}

#[test]
fn resolved_slots_follow_recognized_names() {
    let pairs = vec![
        NameValue { name: "c".to_string(), lit: s("3") },
        NameValue { name: "a".to_string(), lit: s("1") },
    ];
    assert_eq!(parse_meta_to_lit(pairs, vec!["a", "b", "c"]), Ok(vec![Some(s("1")), None, Some(s("3"))]));
}

#[test]
fn duplicate_copies_literal() {
    let l = Lit::Int("42".to_string());
    assert_eq!(l.duplicate(), l);
}
