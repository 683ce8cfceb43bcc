use micro_cms::cache::Cache;
use micro_cms::entity::Entity;
use micro_cms::error::QueryError;
use micro_cms::query::{Query, QueryResultEntity, QueryResultFieldData};
use micro_cms::schema::EntityDeclaration;

fn sample_cache() -> Cache {
    let mut cache = Cache::new();
    let decl = EntityDeclaration::from_str("name = \"string\"\nage = \"number\"\n").unwrap();
    cache.add_type("person", decl);
    cache.add_entity("person", "a", Entity::from_str("name = \"Alice\"\nage = 30\n").unwrap()).unwrap();
    cache.add_entity("person", "b", Entity::from_str("name = \"Bob\"\nage = 40\n").unwrap()).unwrap();
    cache.add_entity("person", "c", Entity::from_str("name = \"Cleo\"\nage = 50\n").unwrap()).unwrap();
    cache.validated().unwrap()
}

fn ids(records: &Vec<QueryResultEntity>) -> Vec<String> {
    records.iter().map(|r| r.id.clone()).collect()
}

fn group<'a>(
    result: &'a micro_cms::query::QueryResult,
    ty: &str,
) -> &'a Vec<QueryResultEntity> {
    &result.groups.iter().find(|g| g.0 == ty).unwrap().1
}

#[test]
fn filter_on_id_selects_exactly_that_entity() {
    let cache = sample_cache();
    let q = Query::from_str(r#"{"person": {"filter": {"id": "b"}, "fields": ["name"]}}"#)
        .unwrap();
    let result = q.evaluate(&cache).unwrap();
    assert_eq!(ids(group(&result, "person")), vec!["b".to_owned()]);
}

#[test]
fn filter_without_id_key_selects_nothing() {
    let cache = sample_cache();
    let q = Query::from_str(r#"{"person": {"filter": {"other": "x"}, "fields": ["name"]}}"#)
        .unwrap();
    let result = q.evaluate(&cache).unwrap();
    assert_eq!(group(&result, "person").len(), 0);
}

#[test]
fn no_filter_selects_all() {
    let cache = sample_cache();
    let q = Query::from_str(r#"{"person": {"fields": ["name"]}}"#).unwrap();
    let result = q.evaluate(&cache).unwrap();
    assert_eq!(group(&result, "person").len(), 3);
}

#[test]
fn projection_keeps_only_requested_fields() {
    let cache = sample_cache();
    let q = Query::from_str(r#"{"person": {"filter": {"id": "a"}, "fields": ["name"]}}"#)
        .unwrap();
    let result = q.evaluate(&cache).unwrap();
    let rec = &group(&result, "person")[0];
    assert_eq!(rec.fields.len(), 1);
    assert_eq!(rec.fields[0].0, "name");
    match &rec.fields[0].1 {
        QueryResultFieldData::Str(s) => assert_eq!(s, "Alice"),
        _ => panic!("name is not a string"),
    }
}

#[test]
fn empty_projection_keeps_only_the_id() {
    let cache = sample_cache();
    let q = Query::from_str(r#"{"person": {"filter": {"id": "a"}, "fields": []}}"#).unwrap();
    let result = q.evaluate(&cache).unwrap();
    let rec = &group(&result, "person")[0];
    assert_eq!(rec.id, "a");
    assert_eq!(rec.fields.len(), 0);
}

#[test]
fn sort_orders_ascending_by_string_field() {
    let mut cache = Cache::new();
    let decl = EntityDeclaration::from_str("title = \"string\"\n").unwrap();
    cache.add_type("post", decl);
    cache.add_entity("post", "p1", Entity::from_str("title = \"b\"\n").unwrap()).unwrap();
    cache.add_entity("post", "p2", Entity::from_str("title = \"a\"\n").unwrap()).unwrap();
    cache.add_entity("post", "p3", Entity::from_str("title = \"c\"\n").unwrap()).unwrap();
    let cache = cache.validated().unwrap();
    let q = Query::from_str(
        r#"{"post": {"sort": {"by": "title"}, "fields": ["title"]}}"#,
    )
    .unwrap();
    let result = q.evaluate(&cache).unwrap();
    let titles: Vec<String> = group(&result, "post")
        .iter()
        .map(|r| match &r.fields[0].1 {
            QueryResultFieldData::Str(s) => s.clone(),
            _ => panic!("title is not a string"),
        })
        .collect();
    assert_eq!(titles, vec!["a".to_owned(), "b".to_owned(), "c".to_owned()]);
}

#[test]
fn sort_on_number_field_fails() {
    let cache = sample_cache();
    let q = Query::from_str(
        r#"{"person": {"sort": {"by": "age"}, "fields": ["age"]}}"#,
    )
    .unwrap();
    assert_eq!(q.evaluate(&cache).unwrap_err(), QueryError::UnsortableField);
}

#[test]
fn unknown_type_fails_the_query() {
    let cache = sample_cache();
    let q = Query::from_str(r#"{"animal": {"fields": []}}"#).unwrap();
    assert_eq!(q.evaluate(&cache).unwrap_err(), QueryError::UnknownType);
}

#[test]
fn malformed_query_documents_are_rejected() {
    assert!(Query::from_str("not json").is_err());
    assert!(Query::from_str(r#"{"person": {}}"#).is_err());
    assert!(Query::from_str(r#"{"person": {"fields": [5]}}"#).is_err());
    assert!(Query::from_str(r#"{"person": {"fields": [], "filter": {"id": 3}}}"#).is_err());
    assert!(Query::from_str(r#"{"person": {"fields": [], "sort": {"order": "asc"}}}"#).is_err());
}

#[test]
fn filter_fields_keeps_record_order() {
    let cache = sample_cache();
    let q = Query::from_str(r#"{"person": {"filter": {"id": "a"}, "fields": ["age", "name"]}}"#)
        .unwrap();
    let result = q.evaluate(&cache).unwrap();
    let rec = &group(&result, "person")[0];
    let names: Vec<String> = rec.fields.iter().map(|f| f.0.clone()).collect();
    assert_eq!(names, vec!["age".to_owned(), "name".to_owned()]);
}
