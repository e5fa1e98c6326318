use ekuke::ai::{
    after_response, answer_text, check_ai_available, check_create_args, completions_url, count_by_type,
    dispatch_tool, find_by_label_ignore_case, normalize_base_url, search_limit, shown, tool_specs,
    uses_bearer, AiError, ChatRounds, ChatStep, ToolError, ToolKind, MAX_TOOL_ROUNDS,
};
use ekuke::entity::Entity;

#[test]
fn base_url_normalization() {
    assert_eq!(normalize_base_url("https://api.openai.com/v1/"), "https://api.openai.com/v1");
    assert_eq!(normalize_base_url("http://x//"), "http://x");
    let once = normalize_base_url("http://h/v1///");
    assert_eq!(normalize_base_url(&once), once);
    assert_eq!(completions_url("http://h/v1"), "http://h/v1/chat/completions");
}

#[test]
fn availability_rules() {
    assert_eq!(check_ai_available(false, "k", "https://api"), Err(AiError::Disabled));
    assert_eq!(check_ai_available(true, "", "https://api.openai.com/v1"), Err(AiError::MissingApiKey));
    assert_eq!(check_ai_available(true, "", "http://localhost:11434/v1"), Ok(()));
    assert_eq!(check_ai_available(true, "", "http://127.0.0.1:1234"), Ok(()));
    assert_eq!(check_ai_available(true, "sk-1", "https://api.openai.com/v1"), Ok(()));
    assert!(uses_bearer("sk"));
    assert!(!uses_bearer(""));
}

#[test]
fn chat_loop_is_bounded() {
    let mut rounds = ChatRounds::new();
    let mut n = 0;
    while rounds.start_round() {
        n += 1;
    }
    assert_eq!(n, MAX_TOOL_ROUNDS);
    assert_eq!(after_response(true, true, true, 0), ChatStep::Answer);
    assert_eq!(after_response(true, true, true, 2), ChatStep::RunTools);
}

#[test]
fn response_handling() {
    assert_eq!(after_response(false, false, false, 0), ChatStep::ApiError);
    assert_eq!(after_response(false, true, true, 3), ChatStep::ApiError);
    assert_eq!(after_response(true, false, false, 0), ChatStep::InvalidJson);
    assert_eq!(after_response(true, true, false, 0), ChatStep::NoChoices);
    assert_eq!(answer_text(Some("hi")), "hi");
    assert_eq!(answer_text(None), "");
}

#[test]
fn tool_dispatch() {
    assert_eq!(dispatch_tool("case_summary", true, false), Ok(ToolKind::CaseSummary));
    assert_eq!(dispatch_tool("case_summary", false, true), Err(ToolError::NoCaseOpen));
    assert_eq!(dispatch_tool("list_plugins", false, true), Ok(ToolKind::ListPlugins));
    assert_eq!(dispatch_tool("list_plugins", true, false), Err(ToolError::PluginsDirUnavailable));
    assert_eq!(dispatch_tool("run_plugin", false, false), Err(ToolError::NoCaseOpen));
    assert_eq!(dispatch_tool("run_plugin", true, false), Err(ToolError::PluginsDirUnavailable));
    assert_eq!(dispatch_tool("delete_everything", true, true), Err(ToolError::UnknownTool));
    assert_eq!(check_create_args("Domain", ""), Err(ToolError::MissingTypeOrLabel));
    assert_eq!(check_create_args("Domain", "x.io"), Ok(()));
}

#[test]
fn every_offered_tool_dispatches() {
    let specs = tool_specs();
    assert_eq!(specs.len(), 7);
    for s in &specs {
        assert!(dispatch_tool(&s.name, true, true).is_ok(), "{}", s.name);
    }
}

#[test]
fn label_lookup_ignores_ascii_case() {
    let es = vec![Entity::new("Domain", "Example.COM"), Entity::new("Email", "example.com")];
    assert_eq!(find_by_label_ignore_case(&es, "example.com"), Some(0));
    assert_eq!(find_by_label_ignore_case(&es, "other"), None);
}

#[test]
fn counts_by_type() {
    let es = vec![
        Entity::new("Domain", "a"),
        Entity::new("Email", "b"),
        Entity::new("Domain", "c"),
        Entity::new("IPv4", "d"),
        Entity::new("Domain", "e"),
    ];
    let counts = count_by_type(&es);
    let pairs: Vec<(String, usize)> = counts.iter().map(|c| (c.entity_type.clone(), c.count)).collect();
    assert_eq!(
        pairs,
        vec![("Domain".to_string(), 3), ("Email".to_string(), 1), ("IPv4".to_string(), 1)]
    );
    assert_eq!(pairs.iter().map(|p| p.1).sum::<usize>(), es.len());
    assert!(count_by_type(&vec![]).is_empty());
}

#[test]
fn limits() {
    assert_eq!(search_limit(None), 20);
    assert_eq!(search_limit(Some(5)), 5);
    assert_eq!(shown(150, 100), 100);
    assert_eq!(shown(3, 100), 3);
}

#[test]
fn tool_parameters() {
    let specs = tool_specs();
    let create = &specs[2];
    assert_eq!(create.name, "create_entity");
    assert_eq!(create.description, "Create (or get existing) entity in the case graph");
    let ps: Vec<(String, String, bool)> =
        create.params.iter().map(|p| (p.name.clone(), p.param_type.clone(), p.required)).collect();
    assert_eq!(
        ps,
        vec![
            ("entity_type".to_string(), "string".to_string(), true),
            ("label".to_string(), "string".to_string(), true),
            ("properties".to_string(), "object".to_string(), false),
        ]
    );
    let link = &specs[3];
    assert_eq!(
        link.params[2].description.as_deref(),
        Some("e.g. resolves_to, owned_by, registered_to, mentions")
    );
    assert!(specs[5].params.is_empty());
    assert!(specs[6].params.is_empty());
    assert_eq!(specs[0].params.len(), 1);
    assert!(!specs[0].params[0].required);
}
