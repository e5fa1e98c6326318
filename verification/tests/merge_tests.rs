use ekuke::entity::{Entity, Property, PropertyValue};
use ekuke::merge::{entities_to_insert, plan_merge};
use ekuke::plugin::{PartialEntity, PartialRelationship, PluginOutput};

fn pe(t: &str, l: &str) -> PartialEntity {
    PartialEntity { entity_type: t.to_string(), label: l.to_string(), properties: vec![] }
}

fn pr(ty: &str, st: &str, sl: &str, tt: &str, tl: &str) -> PartialRelationship {
    PartialRelationship {
        rel_type: ty.to_string(),
        source_type: st.to_string(),
        source_label: sl.to_string(),
        target_type: tt.to_string(),
        target_label: tl.to_string(),
        properties: vec![],
    }
}

#[test]
fn merge_creates_missing_and_links_resolved() {
    let mut source = Entity::new("Domain", "example.com");
    source.id = "S".to_string();
    let mut first = pe("IPv4", "1.2.3.4");
    first.properties.push(Property { key: "asn".to_string(), value: PropertyValue::Json("13335".to_string()) });
    let output = PluginOutput {
        entities: vec![first, pe("IPv4", "5.6.7.8"), pe("IPv4", "1.2.3.4")],
        relationships: vec![
            pr("resolves_to", "Domain", "example.com", "IPv4", "1.2.3.4"),
            pr("resolves_to", "Domain", "example.com", "IPv4", "5.6.7.8"),
            pr("resolves_to", "Domain", "example.com", "IPv4", "9.9.9.9"),
        ],
        error: None,
    };
    let existing = vec![None, Some("E2".to_string()), None];
    let plan = plan_merge(&source, &output, &existing);
    assert_eq!(plan.new_entities.len(), 1);
    let created = &plan.new_entities[0];
    assert_eq!(created.entity_type, "IPv4");
    assert_eq!(created.label, "1.2.3.4");
    assert_eq!(created.properties.len(), 1);
    assert_eq!(created.properties[0].key, "asn");
    assert_eq!(plan.partial_ids, vec![created.id.clone(), "E2".to_string(), created.id.clone()]);
    assert_eq!(plan.relationships.len(), 2);
    assert_eq!(plan.relationships[0].source_id, "S");
    assert_eq!(plan.relationships[0].target_id, created.id);
    assert_eq!(plan.relationships[0].id, format!("S-resolves_to-{}", created.id));
    assert_eq!(plan.relationships[1].target_id, "E2");
    assert_eq!(plan.relationships[1].id, "S-resolves_to-E2");
}

#[test]
fn rerun_on_unchanged_graph_creates_nothing() {
    let source = Entity::new("Domain", "a.io");
    let output = PluginOutput {
        entities: vec![pe("IPv4", "1.1.1.1"), pe("Email", "x@a.io")],
        relationships: vec![pr("mentions", "IPv4", "1.1.1.1", "Email", "x@a.io")],
        error: None,
    };
    let existing = vec![Some("I1".to_string()), Some("M1".to_string())];
    let plan = plan_merge(&source, &output, &existing);
    assert!(plan.new_entities.is_empty());
    assert_eq!(plan.partial_ids, vec!["I1".to_string(), "M1".to_string()]);
    assert_eq!(plan.relationships.len(), 1);
    assert_eq!(plan.relationships[0].id, "I1-mentions-M1");
}

#[test]
fn later_table_rows_win() {
    let mut source = Entity::new("Domain", "a.io");
    source.id = "S".to_string();
    let output = PluginOutput {
        entities: vec![pe("Domain", "a.io")],
        relationships: vec![pr("self", "Domain", "a.io", "Domain", "a.io")],
        error: None,
    };
    let plan = plan_merge(&source, &output, &vec![Some("OTHER".to_string())]);
    assert_eq!(plan.relationships[0].source_id, "OTHER");
}

#[test]
fn extracted_entities_are_deduplicated() {
    let es = vec![
        Entity::new("Email", "a@b.cd"),
        Entity::new("Domain", "b.cd"),
        Entity::new("Email", "a@b.cd"),
        Entity::new("Domain", "old.io"),
    ];
    let present = vec![false, false, false, true];
    assert_eq!(entities_to_insert(&es, &present), vec![0, 1]);
}

#[test]
fn second_extraction_import_inserts_nothing() {
    let es = vec![
        Entity::new("Domain", "a.io"),
        Entity::new("Email", "x@a.io"),
        Entity::new("Domain", "a.io"),
        Entity::new("IPv4", "1.2.3.4"),
    ];
    let present = vec![false, false, false, true];
    let first = entities_to_insert(&es, &present);
    assert_eq!(first, vec![0, 1]);
    let after: Vec<bool> = es
        .iter()
        .enumerate()
        .map(|(i, e)| {
            present[i]
                || first.iter().any(|&j| es[j].entity_type == e.entity_type && es[j].label == e.label)
        })
        .collect();
    assert!(after.iter().all(|p| *p));
    assert!(entities_to_insert(&es, &after).is_empty());
}
