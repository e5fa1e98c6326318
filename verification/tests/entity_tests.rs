use ekuke::entity::{get_or_create, merge_properties, set_property, Entity, Property, PropertyValue, Relationship};

fn text(v: &str) -> PropertyValue {
    PropertyValue::Text(v.to_string())
}

fn value_of(props: &[Property], key: &str) -> Option<String> {
    props.iter().find(|p| p.key == key).map(|p| match &p.value {
        PropertyValue::Text(s) => format!("T:{}", s),
        PropertyValue::Json(s) => format!("J:{}", s),
    })
}

#[test]
fn new_entity_fields() {
    let e = Entity::new("Domain", "example.com");
    assert_eq!(e.entity_type, "Domain");
    assert_eq!(e.label, "example.com");
    assert!(e.properties.is_empty());
    assert_eq!(e.created_at, e.updated_at);
    assert_eq!(e.id.len(), 36);
    assert_eq!(e.id.chars().filter(|c| *c == '-').count(), 4);
    assert_eq!(e.id.chars().nth(14), Some('4'));
    assert!(matches!(e.id.chars().nth(19), Some('8' | '9' | 'a' | 'b')));
    assert!(e.created_at.contains('T'));
}

#[test]
fn new_entities_get_distinct_ids() {
    let a = Entity::new("Email", "a@b.cd");
    let b = Entity::new("Email", "a@b.cd");
    assert_ne!(a.id, b.id);
}

#[test]
fn relationship_id_joins_ends_and_type() {
    let r = Relationship::new("resolves_to", "src-1", "tgt-2");
    assert_eq!(r.id, "src-1-resolves_to-tgt-2");
    assert_eq!(r.rel_type, "resolves_to");
    assert_eq!(r.source_id, "src-1");
    assert_eq!(r.target_id, "tgt-2");
    assert!(r.properties.is_empty());
}

#[test]
fn set_property_reads_back_and_replaces() {
    let mut props: Vec<Property> = Vec::new();
    set_property(&mut props, "a".to_string(), text("1"));
    set_property(&mut props, "b".to_string(), PropertyValue::Json("2".to_string()));
    set_property(&mut props, "a".to_string(), text("3"));
    assert_eq!(props.len(), 2);
    assert_eq!(value_of(&props, "a"), Some("T:3".to_string()));
    assert_eq!(value_of(&props, "b"), Some("J:2".to_string()));
    assert_eq!(props[0].key, "a");
}

#[test]
fn merge_properties_later_wins() {
    let mut props: Vec<Property> = Vec::new();
    set_property(&mut props, "keep".to_string(), text("k"));
    set_property(&mut props, "x".to_string(), text("old"));
    let extra = vec![
        Property { key: "x".to_string(), value: text("new") },
        Property { key: "y".to_string(), value: text("y1") },
    ];
    merge_properties(&mut props, &extra);
    assert_eq!(props.len(), 3);
    assert_eq!(value_of(&props, "keep"), Some("T:k".to_string()));
    assert_eq!(value_of(&props, "x"), Some("T:new".to_string()));
    assert_eq!(value_of(&props, "y"), Some("T:y1".to_string()));
}

#[test]
fn apply_update_keeps_identity() {
    let mut e = Entity::new("Person", "Alice");
    let id = e.id.clone();
    let created = e.created_at.clone();
    let extra = vec![Property { key: "role".to_string(), value: text("admin") }];
    e.apply_update("Alice B.".to_string(), &extra, "2030-01-01T00:00:00+00:00".to_string());
    assert_eq!(e.id, id);
    assert_eq!(e.created_at, created);
    assert_eq!(e.entity_type, "Person");
    assert_eq!(e.label, "Alice B.");
    assert_eq!(e.updated_at, "2030-01-01T00:00:00+00:00");
    assert_eq!(value_of(&e.properties, "role"), Some("T:admin".to_string()));
}

#[test]
fn writing_a_key_twice_keeps_the_last_value() {
    let mut once = vec![Property { key: "a".to_string(), value: PropertyValue::Text("1".to_string()) }];
    let mut twice = vec![Property { key: "a".to_string(), value: PropertyValue::Text("1".to_string()) }];
    set_property(&mut once, "b".to_string(), PropertyValue::Json("3".to_string()));
    set_property(&mut twice, "b".to_string(), PropertyValue::Json("2".to_string()));
    set_property(&mut twice, "b".to_string(), PropertyValue::Json("3".to_string()));
    let keys = |ps: &Vec<Property>| ps.iter().map(|p| p.key.clone()).collect::<Vec<_>>();
    assert_eq!(keys(&once), keys(&twice));
    assert_eq!(twice.len(), 2);
    match &twice[1].value {
        PropertyValue::Json(s) => assert_eq!(s, "3"),
        _ => panic!(),
    }
}

#[test]
fn get_or_create_reuses_or_makes() {
    let props = vec![Property { key: "k".to_string(), value: text("v") }];
    let old = Entity::new("Domain", "a.io");
    let old_id = old.id.clone();
    let (e, created) = get_or_create("Domain", "a.io", Some(old), &props);
    assert!(!created);
    assert_eq!(e.id, old_id);
    assert!(e.properties.is_empty());
    let (n, created) = get_or_create("Domain", "b.io", None, &props);
    assert!(created);
    assert_eq!(n.entity_type, "Domain");
    assert_eq!(n.label, "b.io");
    assert_eq!(value_of(&n.properties, "k"), Some("T:v".to_string()));
}
