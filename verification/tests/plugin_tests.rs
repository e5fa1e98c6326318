use ekuke::entity::Entity;
use ekuke::plugin::{
    check_output, failure_message, find_manifest, PluginEngine, PluginManifest, PluginOutput,
};

fn manifest(id: &str, args: &[&str]) -> PluginManifest {
    PluginManifest {
        id: id.to_string(),
        name: format!("{} plugin", id),
        version: "1.0".to_string(),
        author: "me".to_string(),
        description: String::new(),
        input_types: vec!["Domain".to_string()],
        output_types: vec!["IPv4".to_string()],
        command: "python3".to_string(),
        args: args.iter().map(|a| a.to_string()).collect(),
        config_fields: Vec::new(),
    }
}

#[test]
fn args_get_placeholders_filled() {
    let engine = PluginEngine::new("/opt/plugins");
    let m = manifest("dns", &["run.py", "--target={input}", "{type}:{id}", "{input}{input}", "plain"]);
    let mut e = Entity::new("Domain", "example.com");
    e.id = "id-7".to_string();
    let args = engine.resolve_args(&m, &e);
    assert_eq!(
        args,
        vec!["run.py", "--target=example.com", "Domain:id-7", "example.comexample.com", "plain"]
    );
}

#[test]
fn placeholders_are_filled_in_order() {
    let engine = PluginEngine::new("/opt/plugins");
    let m = manifest("p", &["{input}"]);
    let mut e = Entity::new("T", "{type}");
    e.id = "X".to_string();
    // The label is inserted first; its own `{type}` is then replaced too.
    assert_eq!(engine.resolve_args(&m, &e), vec!["T"]);
}

#[test]
fn plugin_dir_is_under_plugins_dir() {
    let engine = PluginEngine::new("/opt/plugins");
    assert_eq!(engine.plugins_dir(), "/opt/plugins");
    assert_eq!(engine.plugin_dir(&manifest("whois", &[])), "/opt/plugins/whois");
}

#[test]
fn find_manifest_by_id() {
    let ms = vec![manifest("a", &[]), manifest("b", &[]), manifest("b", &["x"])];
    assert_eq!(find_manifest(&ms, "b"), Some(1));
    assert_eq!(find_manifest(&ms, "c"), None);
}

#[test]
fn reported_error_rejects_output() {
    let out = PluginOutput { entities: vec![], relationships: vec![], error: Some("rate limited".to_string()) };
    assert_eq!(check_output(out).err(), Some("Plugin error: rate limited".to_string()));
    let ok = PluginOutput { entities: vec![], relationships: vec![], error: None };
    assert!(check_output(ok).is_ok());
    assert_eq!(failure_message("boom"), "Plugin failed: boom");
}
