use micro_cms::cache::Cache;
use micro_cms::entity::{Entity, FieldData, FieldType};
use micro_cms::error::{DecodeError, NotFoundError, ValidationError};
use micro_cms::parse::FromKeyAndVal;
use micro_cms::schema::{EntityDeclaration, FieldDeclaration, FromFieldData};

fn person_decl() -> EntityDeclaration {
    EntityDeclaration::from_str("name = \"string\"\nage = \"number\"\n").unwrap()
}

fn field<'a>(e: &'a Entity, name: &str) -> &'a FieldData {
    &e.fields.iter().find(|p| p.0 == name).unwrap().1
}

#[test]
fn entity_decodes_strings_and_numbers() {
    let e = Entity::from_str("name = \"Alice\"\nage = 30\n").unwrap();
    match field(&e, "name") {
        FieldData::Str(s) => assert_eq!(s, "Alice"),
        other => panic!("name decoded to {:?}", std::mem::discriminant(other)),
    }
    match field(&e, "age") {
        FieldData::Num(bits) => assert_eq!(*bits, (30.0f64).to_bits()),
        _ => panic!("age did not decode to a number"),
    }
    let frac = Entity::from_str("score = 2.5\n").unwrap();
    match field(&frac, "score") {
        FieldData::Num(bits) => assert_eq!(*bits, (2.5f64).to_bits()),
        _ => panic!("score did not decode to a number"),
    }
}

#[test]
fn entity_rejects_malformed_documents() {
    assert_eq!(Entity::from_str("not valid toml ===").unwrap_err(), DecodeError::Syntax);
    assert_eq!(Entity::from_str("flag = true\n").unwrap_err(), DecodeError::Malformed);
}

#[test]
fn schema_short_and_expanded_forms_agree() {
    let d = EntityDeclaration::from_str(
        "title = \"string\"\nauthor = { type = \"person\", required = true }\n",
    )
    .unwrap();
    let title = &d.fields.iter().find(|p| p.0 == "title").unwrap().1;
    assert_eq!(title.name, "title");
    assert!(!title.required);
    assert!(!title.mutable);
    assert!(matches!(title.ty, FieldType::Str));
    let author = &d.fields.iter().find(|p| p.0 == "author").unwrap().1;
    assert_eq!(author.name, "author");
    assert!(author.required);
    assert!(!author.mutable);
    match &author.ty {
        FieldType::Ref(t) => assert_eq!(t, "person"),
        _ => panic!("author is not a reference"),
    }
}

#[test]
fn every_type_token_is_recognised() {
    let d = EntityDeclaration::from_str(
        "a = \"string\"\nb = \"str\"\nc = \"binary\"\nd = \"bin\"\ne = \"number\"\nf = \"num\"\ng = \"anything-else\"\n",
    )
    .unwrap();
    let ty_of = |k: &str| &d.fields.iter().find(|p| p.0 == k).unwrap().1.ty;
    assert!(matches!(ty_of("a"), FieldType::Str));
    assert!(matches!(ty_of("b"), FieldType::Str));
    assert!(matches!(ty_of("c"), FieldType::Bin));
    assert!(matches!(ty_of("d"), FieldType::Bin));
    assert!(matches!(ty_of("e"), FieldType::Num));
    assert!(matches!(ty_of("f"), FieldType::Num));
    match ty_of("g") {
        FieldType::Ref(t) => assert_eq!(t, "anything-else"),
        _ => panic!("unreserved token is not a reference"),
    }
}

#[test]
fn empty_cache_validates() {
    assert!(Cache::new().validated().is_ok());
}

#[test]
fn schema_rejects_malformed_documents() {
    assert_eq!(
        EntityDeclaration::from_str("title = 5\n").unwrap_err(),
        DecodeError::Malformed
    );
    assert_eq!(
        EntityDeclaration::from_str("a = { required = true }\n").unwrap_err(),
        DecodeError::Malformed
    );
    assert_eq!(EntityDeclaration::from_str("=== nope").unwrap_err(), DecodeError::Syntax);
}

#[test]
fn validated_accepts_matching_tags() {
    let mut cache = Cache::new();
    cache.add_type("person", person_decl());
    cache.add_entity("person", "a", Entity::from_str("name = \"Alice\"\nage = 30\n").unwrap()).unwrap();
    assert!(cache.validated().is_ok());
}

#[test]
fn validated_rejects_type_mismatch() {
    let mut cache = Cache::new();
    cache.add_type("person", person_decl());
    cache.add_entity("person", "a", Entity::from_str("age = \"thirty\"\n").unwrap()).unwrap();
    assert_eq!(cache.validated().unwrap_err(), ValidationError::TypeMismatch);
}

#[test]
fn validated_rejects_dangling_reference() {
    let mut cache = Cache::new();
    cache.add_type("person", person_decl());
    let book_decl = EntityDeclaration::from_str("author = \"person\"\n").unwrap();
    cache.add_type("book", book_decl);
    cache.add_entity("book", "b", Entity::from_str("author = \"ghost\"\n").unwrap()).unwrap();
    assert_eq!(cache.validated().unwrap_err(), ValidationError::UnknownReferenceEntity);
}

#[test]
fn validated_rejects_reference_to_unknown_type() {
    let mut cache = Cache::new();
    let book_decl = EntityDeclaration::from_str("author = \"person\"\n").unwrap();
    cache.add_type("book", book_decl);
    cache.add_entity("book", "b", Entity::from_str("author = \"a\"\n").unwrap()).unwrap();
    assert_eq!(cache.validated().unwrap_err(), ValidationError::UnknownReferenceType);
}

#[test]
fn validated_resolves_good_references() {
    let mut cache = Cache::new();
    cache.add_type("person", person_decl());
    cache.add_entity("person", "a", Entity::from_str("name = \"Alice\"\n").unwrap()).unwrap();
    let book_decl = EntityDeclaration::from_str("author = \"person\"\n").unwrap();
    cache.add_type("book", book_decl);
    cache.add_entity("book", "b", Entity::from_str("author = \"a\"\n").unwrap()).unwrap();
    assert!(cache.validated().is_ok());
}

#[test]
fn unknown_field_is_tolerated() {
    let mut cache = Cache::new();
    cache.add_type("person", person_decl());
    cache.add_entity(
        "person",
        "a",
        Entity::from_str("name = \"Alice\"\nnickname = \"Al\"\n").unwrap(),
    ).unwrap();
    assert!(cache.validated().is_ok());
}

#[test]
fn lookups_report_what_is_missing() {
    let mut cache = Cache::new();
    cache.add_type("person", person_decl());
    cache.add_entity("person", "a", Entity::from_str("name = \"Alice\"\n").unwrap()).unwrap();
    assert_eq!(cache.get_group("animal").unwrap_err(), NotFoundError::UnknownType);
    let group = cache.get_group("person").unwrap();
    assert_eq!(group.get_entity("z").unwrap_err(), NotFoundError::UnknownEntity);
    assert!(group.get_entity("a").is_ok());
}

#[test]
fn storing_under_an_unknown_type_fails() {
    let mut cache = Cache::new();
    let err = cache
        .add_entity("person", "a", Entity::from_str("name = \"Alice\"\n").unwrap())
        .unwrap_err();
    assert_eq!(err, NotFoundError::UnknownType);
}

#[test]
fn string_error_keeps_its_message() {
    let e = micro_cms::error::StringError::new("lock poisoned");
    assert_eq!(e.message(), "lock poisoned");
}

#[test]
fn short_form_decode_names_by_key_and_defaults_flags() {
    let fd = FieldDeclaration::from_key_and_val(&"age".to_owned(), &"num".to_owned()).unwrap();
    assert_eq!(fd.name, "age");
    assert!(matches!(fd.ty, FieldType::Num));
    assert!(!fd.required);
    assert!(!fd.mutable);
    let mut fd = fd;
    fd.set_key(&"years".to_owned());
    assert_eq!(fd.name, "years");
    assert!(matches!(fd.ty, FieldType::Num));
    assert!(!fd.required);
    assert!(!fd.mutable);
}

#[test]
fn typed_reads_require_matching_tags() {
    let ty = FieldType::Str;
    let text = FieldData::Str("hello".to_owned());
    let num = FieldData::Num((1.0f64).to_bits());
    assert_eq!(String::from_field_data(&ty, &text), Some(&"hello".to_owned()));
    assert_eq!(String::from_field_data(&ty, &num), None);
    assert_eq!(String::from_field_data(&FieldType::Num, &text), None);
}

#[test]
fn settings_are_plain_values() {
    let args = micro_cms::cli::CliArgs {
        content_path: "content".to_owned(),
        address: "0.0.0.0".to_owned(),
        port: 8080,
    };
    let server = micro_cms::server::Server::new(micro_cms::server::ServerConfig {
        bind_address: args.address.clone(),
        port: args.port,
    });
    assert_eq!(server.config.bind_address, "0.0.0.0");
    assert_eq!(server.config.port, 8080);
}
