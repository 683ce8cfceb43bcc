use micro_cms::entity::FieldData;
use micro_cms::error::NotFoundError;
use micro_cms::providers::fs::{
    create_cache, is_decl_folder, is_ent_file, is_ent_folder, is_hidden, should_rebuild, FsNode,
    WatchEvent,
};
use micro_cms::server::{get_entity, get_field};

fn file(name: &str, content: &str) -> FsNode {
    FsNode::File { name: name.to_owned(), content: content.as_bytes().to_vec() }
}

fn file_bytes(name: &str, content: Vec<u8>) -> FsNode {
    FsNode::File { name: name.to_owned(), content }
}

fn dir(name: &str, children: Vec<FsNode>) -> FsNode {
    FsNode::Dir { name: name.to_owned(), children }
}

#[test]
fn single_file_entities_are_discovered() {
    let root = dir(
        "content",
        vec![dir(
            "person",
            vec![
                file("schema", "name = \"string\"\n"),
                file("a.ent", "name = \"Alice\"\n"),
                file("notes.txt", "ignored, wrong extension"),
            ],
        )],
    );
    let cache = create_cache(&root).unwrap().validated().unwrap();
    let group = cache.get_group("person").unwrap();
    assert_eq!(group.entities.len(), 1);
    assert!(group.get_entity("a").is_ok());
    assert_eq!(group.get_entity("notes").unwrap_err(), NotFoundError::UnknownEntity);
}

#[test]
fn folder_entity_composes_ent_and_sibling_files() {
    let root = dir(
        "content",
        vec![dir(
            "person",
            vec![
                file("schema", "name = \"string\"\n"),
                dir(
                    "a",
                    vec![file("ent", "name = \"Alice\"\n"), file("bio", "a short life story")],
                ),
            ],
        )],
    );
    let cache = create_cache(&root).unwrap().validated().unwrap();
    match get_field(&cache, "person", "a", "name").unwrap() {
        FieldData::Str(s) => assert_eq!(s, "Alice"),
        _ => panic!("name is not text"),
    }
    match get_field(&cache, "person", "a", "bio").unwrap() {
        FieldData::Str(s) => assert_eq!(s, "a short life story"),
        _ => panic!("bio is not text"),
    }
}

#[test]
fn folder_entity_keeps_binary_content_as_bytes() {
    let raw = vec![0u8, 159, 146, 150];
    let root = dir(
        "content",
        vec![dir(
            "person",
            vec![
                file("schema", "name = \"string\"\n"),
                dir(
                    "a",
                    vec![file("ent", "name = \"Alice\"\n"), file_bytes("photo", raw.clone())],
                ),
            ],
        )],
    );
    let cache = create_cache(&root).unwrap().validated().unwrap();
    match get_field(&cache, "person", "a", "photo").unwrap() {
        FieldData::Bin(b) => assert_eq!(b, raw),
        _ => panic!("photo is not bytes"),
    }
}

#[test]
fn one_malformed_schema_fails_the_whole_build() {
    let root = dir(
        "content",
        vec![
            dir(
                "person",
                vec![file("schema", "name = \"string\"\n"), file("a.ent", "name = \"Alice\"\n")],
            ),
            dir("broken", vec![file("schema", "=== not a schema")]),
        ],
    );
    assert!(create_cache(&root).is_err());
}

#[test]
fn non_utf8_ent_file_fails_the_build() {
    let root = dir(
        "content",
        vec![dir(
            "person",
            vec![
                file("schema", "name = \"string\"\n"),
                dir("a", vec![file_bytes("ent", vec![0xffu8, 0xfe, 0xfd])]),
            ],
        )],
    );
    assert!(create_cache(&root).is_err());
}

#[test]
fn entity_folder_of_a_declaration_is_not_a_declaration() {
    // The entity folder carries a stray file named `schema`; as an entity
    // child of a declaration folder it is consumed as an entity, not
    // discovered as a type of its own, and the stray file becomes a field.
    let root = dir(
        "content",
        vec![dir(
            "person",
            vec![
                file("schema", "name = \"string\"\n"),
                dir("a", vec![file("ent", "name = \"Alice\"\n"), file("schema", "stray")]),
            ],
        )],
    );
    let cache = create_cache(&root).unwrap().validated().unwrap();
    assert_eq!(cache.get_group("a").unwrap_err(), NotFoundError::UnknownType);
    match get_field(&cache, "person", "a", "schema").unwrap() {
        FieldData::Str(s) => assert_eq!(s, "stray"),
        _ => panic!("stray file is not a text field"),
    }
}

#[test]
fn hidden_names_are_ignored_everywhere() {
    let root = dir(
        "content",
        vec![
            dir(".hidden", vec![file("schema", "name = \"string\"\n")]),
            dir(
                "person",
                vec![
                    file("schema", "name = \"string\"\n"),
                    file(".draft.ent", "name = \"Nobody\"\n"),
                    file("a.ent", "name = \"Alice\"\n"),
                ],
            ),
        ],
    );
    let cache = create_cache(&root).unwrap().validated().unwrap();
    assert_eq!(cache.get_group(".hidden").unwrap_err(), NotFoundError::UnknownType);
    let group = cache.get_group("person").unwrap();
    assert_eq!(group.entities.len(), 1);
}

#[test]
fn declaration_folders_nest() {
    let root = dir(
        "content",
        vec![dir(
            "person",
            vec![
                file("schema", "name = \"string\"\n"),
                dir(
                    "pets",
                    vec![file("schema", "species = \"string\"\n"), file(
                        "rex.ent",
                        "species = \"dog\"\n",
                    )],
                ),
            ],
        )],
    );
    let cache = create_cache(&root).unwrap().validated().unwrap();
    assert!(cache.get_group("person").is_ok());
    let pets = cache.get_group("pets").unwrap();
    assert!(pets.get_entity("rex").is_ok());
}

#[test]
fn dotted_field_paths_use_their_head() {
    let root = dir(
        "content",
        vec![dir(
            "person",
            vec![file("schema", "name = \"string\"\n"), file("a.ent", "name = \"Alice\"\n")],
        )],
    );
    let cache = create_cache(&root).unwrap().validated().unwrap();
    match get_field(&cache, "person", "a", "name.anything").unwrap() {
        FieldData::Str(s) => assert_eq!(s, "Alice"),
        _ => panic!("name is not text"),
    }
    assert_eq!(
        get_field(&cache, "person", "a", "missing").unwrap_err(),
        NotFoundError::UnknownField
    );
}

#[test]
fn get_entity_projects_requested_fields() {
    let root = dir(
        "content",
        vec![dir(
            "person",
            vec![
                file("schema", "age = \"number\"\nname = \"string\"\n"),
                file("a.ent", "age = 30\nname = \"Alice\"\n"),
            ],
        )],
    );
    let cache = create_cache(&root).unwrap().validated().unwrap();
    let wanted = vec!["name".to_owned()];
    let rec = get_entity(&cache, "person", "a", Some(&wanted)).unwrap();
    assert_eq!(rec.id, "a");
    assert_eq!(rec.fields.len(), 1);
    assert_eq!(rec.fields[0].0, "name");
    let full = get_entity(&cache, "person", "a", None).unwrap();
    assert_eq!(full.fields.len(), 2);
}

#[test]
fn discovery_predicates_match_their_shapes() {
    let decl = dir("person", vec![file("schema", "")]);
    let ent_folder = dir("a", vec![file("ent", "")]);
    let plain = dir("misc", vec![file("readme", "")]);
    assert!(is_decl_folder(&decl));
    assert!(!is_decl_folder(&ent_folder));
    assert!(!is_decl_folder(&plain));
    assert!(is_ent_folder(&ent_folder));
    assert!(!is_ent_folder(&decl));
    assert!(is_hidden(&".git".to_owned()));
    assert!(!is_hidden(&"src".to_owned()));
    assert!(is_ent_file(&"a.ent".to_owned()));
    assert!(!is_ent_file(&"a.txt".to_owned()));
    assert!(!is_ent_file(&"ent".to_owned()));
}

#[test]
fn only_real_changes_trigger_a_rebuild() {
    assert!(should_rebuild(&WatchEvent::Write));
    assert!(should_rebuild(&WatchEvent::Create));
    assert!(should_rebuild(&WatchEvent::Remove));
    assert!(should_rebuild(&WatchEvent::Rename));
    assert!(should_rebuild(&WatchEvent::Rescan));
    assert!(!should_rebuild(&WatchEvent::Other));
}
