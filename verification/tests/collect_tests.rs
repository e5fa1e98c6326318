use ekuke::collect::{
    contexts_on_boundaries, entities_from_matches, octets_ok_exec, parses_as_u8_exec, CollectError, Collector, Pattern,
};
use ekuke::entity::{Entity, PropertyValue};

fn summary(es: &[Entity]) -> Vec<(String, String, String)> {
    es.iter()
        .map(|e| {
            assert_eq!(e.properties.len(), 1);
            assert_eq!(e.properties[0].key, "source_text");
            let src = match &e.properties[0].value {
                PropertyValue::Text(s) => s.clone(),
                PropertyValue::Json(_) => panic!("source_text must be text"),
            };
            (e.entity_type.clone(), e.label.clone(), src)
        })
        .collect()
}

fn t(a: &str, b: &str, c: &str) -> (String, String, String) {
    (a.to_string(), b.to_string(), c.to_string())
}

#[test]
fn extracts_every_kind_in_order() {
    let text = "Contact john.doe@example.com or visit example.org. Server 192.168.1.10 and 999.1.1.1 today. Call +1 5551234567 now. Ping @alice_x please.";
    let es = Collector::new().extract_entities_from_text(text).unwrap();
    assert_eq!(
        summary(&es),
        vec![
            t("Email", "john.doe@example.com", "Contact john.doe@example.com"),
            t("IPv4", "192.168.1.10", "192.168.1.10"),
            t("Domain", "john.doe", "john.doe"),
            t("Domain", "example.com", "example.com"),
            t("Domain", "example.org", "example.org"),
            t("Phone", "5551234567", "5551234567"),
            t("Handle", "@example", "@example"),
            t("Handle", "@alice_x", "@alice_x"),
        ]
    );
}

#[test]
fn email_context_reaches_back_twenty_bytes() {
    let text = "Reach the team at ops@corp.io for help";
    let es = Collector::new().extract_entities_from_text(text).unwrap();
    assert_eq!(
        summary(&es),
        vec![
            t("Email", "ops@corp.io", "Reach the team at ops@corp.io"),
            t("Domain", "corp.io", "corp.io"),
            t("Handle", "@corp", "@corp"),
        ]
    );
    let text2 = "0123456789012345678901234567 me@site.org";
    let es2 = Collector::new().extract_entities_from_text(text2).unwrap();
    assert_eq!(es2[0].label, "me@site.org");
    match &es2[0].properties[0].value {
        PropertyValue::Text(s) => assert_eq!(s, "9012345678901234567 me@site.org"),
        _ => panic!(),
    }
}

#[test]
fn empty_text_gives_nothing() {
    let es = Collector::new().extract_entities_from_text("nothing to see").unwrap();
    assert!(es.is_empty());
}

#[test]
fn context_inside_a_character_is_an_error() {
    let text = format!("a{} cd@ef.gh", "é".repeat(12));
    let r = Collector::new().extract_entities_from_text(&text);
    assert_eq!(r.err(), Some(CollectError::ContextNotAtCharBoundary));
}

#[test]
fn domains_that_match_the_ipv4_pattern_are_skipped() {
    let text = "host 10.0.0.1 x";
    let es = entities_from_matches(
        text,
        &vec![],
        &vec![],
        &vec![(5, 13)],
        &vec![true],
        &vec![],
        &vec![],
    );
    assert!(es.is_empty());
    let es = entities_from_matches(text, &vec![], &vec![], &vec![(5, 13)], &vec![false], &vec![], &vec![]);
    assert_eq!(es[0].entity_type, "Domain");
    assert_eq!(es[0].label, "10.0.0.1");
}

#[test]
fn patterns_compile_or_not() {
    assert!(Pattern::new(r"\d+").is_some());
    assert!(Pattern::new("foo(bar").is_none());
}

#[test]
fn u8_parsing_matches_std() {
    for s in ["0", "255", "256", "+7", "-1", "", "+", "007", "1a", "999"] {
        let v: Vec<char> = s.chars().collect();
        assert_eq!(parses_as_u8_exec(&v), s.parse::<u8>().is_ok(), "{}", s);
    }
}

#[test]
fn octets_check() {
    assert!(octets_ok_exec("192.168.1.10"));
    assert!(!octets_ok_exec("999.1.1.1"));
    assert!(!octets_ok_exec("1..2"));
    assert!(octets_ok_exec("255"));
}

#[test]
fn domains_never_hold_at_signs_and_ips_are_in_range() {
    let text = "a.b@c.de 300.1.2.3 1.2.3.4 mail.example.net";
    let es = Collector::new().extract_entities_from_text(text).unwrap();
    for e in &es {
        if e.entity_type == "Domain" {
            assert!(!e.label.contains('@'));
        }
        if e.entity_type == "IPv4" {
            assert!(e.label.split('.').all(|o| o.parse::<u8>().is_ok()));
        }
    }
    assert!(es.iter().any(|e| e.entity_type == "IPv4" && e.label == "1.2.3.4"));
    assert!(!es.iter().any(|e| e.entity_type == "IPv4" && e.label == "300.1.2.3"));
}

#[test]
fn context_boundaries() {
    let text = format!("a{} cd@ef.gh", "é".repeat(12));
    let start = text.find("cd@").unwrap();
    assert!(!contexts_on_boundaries(&text, &vec![(start, text.len())]));
    assert!(contexts_on_boundaries("x cd@ef.gh", &vec![(2, 10)]));
    assert!(contexts_on_boundaries(&text, &vec![]));
}
