//! Decisions of the investigation assistant: endpoint handling, the
//! tool-calling loop, tool dispatch and the summaries its tools compute.

use vstd::prelude::*;
use crate::entity::Entity;
use crate::text::{
    concatenate, eq_ignore_ascii_case, eq_ignore_ascii_case_seq, seq_contains, str_contains, str_eq,
    trim_end_char, trim_end_seq,
};

verus! {

pub const SYSTEM_PROMPT: &'static str = "You are EKUKE AI, the assistant inside the EKUKE local-first OSINT investigation platform.
You help investigators run OSINT workflows on their current case graph.
You have tools to: list/search/create entities, link entities with relationships, run enrichment plugins, and summarize the case.
Rules:
- Use tools whenever the user asks you to find, add, link, or enrich anything.
- After tool calls, briefly report what you did (entity labels, relationship types, plugin results).
- Never invent data: if a plugin or search returns nothing, say so.
- This is for authorized investigative work. Be concise and technical.";

/// The most requests the assistant makes for one chat.
pub const MAX_TOOL_ROUNDS: usize = 8;

/// How many entities `list_entities` describes.
pub const LIST_LIMIT: usize = 100;

/// How many entities `search_entities` returns.
pub const TOOL_SEARCH_LIMIT: usize = 50;

/// How many entities `case_summary` samples.
pub const SAMPLE_SIZE: usize = 20;

/// The endpoint without trailing slashes.
pub fn normalize_base_url(base_url: &str) -> (r: String)
    ensures
        r@ == trim_end_seq(base_url@, '/'),
{
    trim_end_char(base_url, '/')
}

proof fn lemma_trim_end_properties(s: Seq<char>, c: char)
    ensures
        trim_end_seq(trim_end_seq(s, c), c) == trim_end_seq(s, c),
        trim_end_seq(s, c).len() > 0 ==> trim_end_seq(s, c).last() != c,
        trim_end_seq(s, c).len() <= s.len(),
        trim_end_seq(s, c) == s.take(trim_end_seq(s, c).len() as int),
    decreases s.len(),
{
    if s.len() > 0 && s.last() == c {
        lemma_trim_end_properties(s.drop_last(), c);
        let t = trim_end_seq(s, c);
        assert(s.drop_last().take(t.len() as int) =~= s.take(t.len() as int));
    } else {
        assert(s.take(s.len() as int) =~= s);
    }
}

/// A normalized endpoint has no trailing slash, is a prefix of the given
/// one, and normalizing it again changes nothing.
pub proof fn lemma_normalize_base_url(base_url: Seq<char>)
    ensures
        trim_end_seq(trim_end_seq(base_url, '/'), '/') == trim_end_seq(base_url, '/'),
        trim_end_seq(base_url, '/').len() > 0 ==> trim_end_seq(base_url, '/').last() != '/',
        base_url.take(trim_end_seq(base_url, '/').len() as int) == trim_end_seq(base_url, '/'),
{
    lemma_trim_end_properties(base_url, '/');
}

/// The chat-completions URL of an endpoint.
pub fn completions_url(base_url: &str) -> (r: String)
    ensures
        r@ == base_url@ + "/chat/completions"@,
{
    concatenate(base_url, "/chat/completions")
}

/// Why the assistant cannot be used.
#[derive(Debug, PartialEq, Eq, Structural)]
pub enum AiError {
    /// The assistant is switched off in the settings.
    Disabled,
    /// No API key is set and the endpoint is not local.
    MissingApiKey,
}

/// Whether the assistant may be used: it must be enabled, and it needs an
/// API key unless the endpoint mentions `localhost` or `127.0.0.1`.
pub fn check_ai_available(enabled: bool, api_key: &str, base_url: &str) -> (r: Result<(), AiError>)
    ensures
        !enabled ==> r == Err::<(), AiError>(AiError::Disabled),
        enabled && api_key@.len() == 0 && !seq_contains(base_url@, "localhost"@) && !seq_contains(
            base_url@,
            "127.0.0.1"@,
        ) ==> r == Err::<(), AiError>(AiError::MissingApiKey),
        enabled && !(api_key@.len() == 0 && !seq_contains(base_url@, "localhost"@)
            && !seq_contains(base_url@, "127.0.0.1"@)) ==> r == Ok::<(), AiError>(()),
{
    if !enabled {
        return Err(AiError::Disabled);
    }
    if api_key.is_empty() && !str_contains(base_url, "localhost") && !str_contains(
        base_url,
        "127.0.0.1",
    ) {
        return Err(AiError::MissingApiKey);
    }
    Ok(())
}

/// Whether requests carry the API key as a bearer token.
pub fn uses_bearer(api_key: &str) -> (r: bool)
    ensures
        r == (api_key@.len() > 0),
{
    !api_key.is_empty()
}

/// What the chat loop does with a model response.
#[derive(Debug, PartialEq, Eq, Structural)]
pub enum ChatStep {
    /// The endpoint answered with a status other than success: the chat
    /// fails with the status and the body.
    ApiError,
    /// The body is not JSON: the chat fails with the parse error.
    InvalidJson,
    /// The response holds no first choice: the chat fails.
    NoChoices,
    /// The reply holds no tool calls: its text is the answer.
    Answer,
    /// Run the tool calls, then ask again.
    RunTools,
}

/// The decision after a model response: a failed status first, then a body
/// that does not parse, then a missing first choice; otherwise the answer
/// when the message holds no tool calls, and the tool calls when it does.
pub fn after_response(status_ok: bool, body_parsed: bool, has_choice: bool, tool_calls: usize) -> (r:
    ChatStep)
    ensures
        r == (if !status_ok {
            ChatStep::ApiError
        } else if !body_parsed {
            ChatStep::InvalidJson
        } else if !has_choice {
            ChatStep::NoChoices
        } else if tool_calls == 0 {
            ChatStep::Answer
        } else {
            ChatStep::RunTools
        }),
{
    if !status_ok {
        ChatStep::ApiError
    } else if !body_parsed {
        ChatStep::InvalidJson
    } else if !has_choice {
        ChatStep::NoChoices
    } else if tool_calls == 0 {
        ChatStep::Answer
    } else {
        ChatStep::RunTools
    }
}

/// The text of an answer: the message content when it is a string, empty
/// otherwise.
pub fn answer_text(content: Option<&str>) -> (r: String)
    ensures
        r@ == match content {
            Some(c) => c@,
            None => Seq::<char>::empty(),
        },
{
    match content {
        Some(c) => c.to_owned(),
        None => String::new(),
    }
}

/// Counts the requests of one chat.
pub struct ChatRounds {
    used: usize,
}

impl ChatRounds {
    /// Requests made so far.
    pub closed spec fn used(&self) -> nat {
        self.used as nat
    }

    /// No request made yet.
    pub fn new() -> (r: ChatRounds)
        ensures
            r.used() == 0,
    {
        ChatRounds { used: 0 }
    }

    /// Starts another request if the limit allows it; `false` means the
    /// tool loop has run out of rounds.
    pub fn start_round(&mut self) -> (ok: bool)
        requires
            old(self).used() <= MAX_TOOL_ROUNDS,
        ensures
            ok == (old(self).used() < MAX_TOOL_ROUNDS),
            ok ==> final(self).used() == old(self).used() + 1,
            !ok ==> final(self).used() == old(self).used(),
            final(self).used() <= MAX_TOOL_ROUNDS,
    {
        if self.used < MAX_TOOL_ROUNDS {
            self.used = self.used + 1;
            true
        } else {
            false
        }
    }
}

/// The tools the assistant can call.
#[derive(Debug, PartialEq, Eq, Structural, Clone, Copy)]
pub enum ToolKind {
    ListEntities,
    SearchEntities,
    CreateEntity,
    LinkEntities,
    RunPlugin,
    ListPlugins,
    CaseSummary,
}

/// The tool a call names.
pub open spec fn tool_named(name: Seq<char>) -> Option<ToolKind> {
    if name == "list_entities"@ {
        Some(ToolKind::ListEntities)
    } else if name == "search_entities"@ {
        Some(ToolKind::SearchEntities)
    } else if name == "create_entity"@ {
        Some(ToolKind::CreateEntity)
    } else if name == "link_entities"@ {
        Some(ToolKind::LinkEntities)
    } else if name == "run_plugin"@ {
        Some(ToolKind::RunPlugin)
    } else if name == "list_plugins"@ {
        Some(ToolKind::ListPlugins)
    } else if name == "case_summary"@ {
        Some(ToolKind::CaseSummary)
    } else {
        None
    }
}

/// Each tool name calls the tool of that name, and no other name calls a
/// tool.
pub proof fn lemma_tool_names(name: Seq<char>)
    ensures
        tool_named("list_entities"@) == Some(ToolKind::ListEntities),
        tool_named("search_entities"@) == Some(ToolKind::SearchEntities),
        tool_named("create_entity"@) == Some(ToolKind::CreateEntity),
        tool_named("link_entities"@) == Some(ToolKind::LinkEntities),
        tool_named("run_plugin"@) == Some(ToolKind::RunPlugin),
        tool_named("list_plugins"@) == Some(ToolKind::ListPlugins),
        tool_named("case_summary"@) == Some(ToolKind::CaseSummary),
        tool_named(name) is Some ==> {
            ||| name == "list_entities"@
            ||| name == "search_entities"@
            ||| name == "create_entity"@
            ||| name == "link_entities"@
            ||| name == "run_plugin"@
            ||| name == "list_plugins"@
            ||| name == "case_summary"@
        },
{
    reveal_strlit("list_entities");
    reveal_strlit("search_entities");
    reveal_strlit("create_entity");
    reveal_strlit("link_entities");
    reveal_strlit("run_plugin");
    reveal_strlit("list_plugins");
    reveal_strlit("case_summary");
    assert("list_entities"@.len() != "search_entities"@.len());
    assert("list_entities"@[0] != "create_entity"@[0]);
    assert("search_entities"@.len() != "create_entity"@.len());
    assert("list_entities"@[2] != "link_entities"@[2]);
    assert("search_entities"@.len() != "link_entities"@.len());
    assert("create_entity"@[0] != "link_entities"@[0]);
    assert("list_entities"@.len() != "run_plugin"@.len());
    assert("search_entities"@.len() != "run_plugin"@.len());
    assert("create_entity"@.len() != "run_plugin"@.len());
    assert("link_entities"@.len() != "run_plugin"@.len());
    assert("list_entities"@.len() != "list_plugins"@.len());
    assert("search_entities"@.len() != "list_plugins"@.len());
    assert("create_entity"@.len() != "list_plugins"@.len());
    assert("link_entities"@.len() != "list_plugins"@.len());
    assert("run_plugin"@.len() != "list_plugins"@.len());
    assert("list_entities"@.len() != "case_summary"@.len());
    assert("search_entities"@.len() != "case_summary"@.len());
    assert("create_entity"@.len() != "case_summary"@.len());
    assert("link_entities"@.len() != "case_summary"@.len());
    assert("run_plugin"@.len() != "case_summary"@.len());
    assert("list_plugins"@[0] != "case_summary"@[0]);
}

/// Why a tool call fails before it touches the case.
#[derive(Debug, PartialEq, Eq, Structural)]
pub enum ToolError {
    /// The call names no known tool.
    UnknownTool,
    /// The tool needs an open case.
    NoCaseOpen,
    /// The tool needs the plugins directory.
    PluginsDirUnavailable,
    /// `create_entity` was called without a type or a label.
    MissingTypeOrLabel,
}

/// Which tool a call names, and whether what it needs is at hand: every
/// tool but `list_plugins` needs an open case (checked first), and the
/// plugin tools need the plugins directory.
pub fn dispatch_tool(name: &str, has_case: bool, has_plugins_dir: bool) -> (r: Result<
    ToolKind,
    ToolError,
>)
    ensures
        match tool_named(name@) {
            None => r == Err::<ToolKind, ToolError>(ToolError::UnknownTool),
            Some(k) => {
                if k != ToolKind::ListPlugins && !has_case {
                    r == Err::<ToolKind, ToolError>(ToolError::NoCaseOpen)
                } else if (k == ToolKind::ListPlugins || k == ToolKind::RunPlugin)
                    && !has_plugins_dir {
                    r == Err::<ToolKind, ToolError>(ToolError::PluginsDirUnavailable)
                } else {
                    r == Ok::<ToolKind, ToolError>(k)
                }
            },
        },
{
    let kind = if str_eq(name, "list_entities") {
        ToolKind::ListEntities
    } else if str_eq(name, "search_entities") {
        ToolKind::SearchEntities
    } else if str_eq(name, "create_entity") {
        ToolKind::CreateEntity
    } else if str_eq(name, "link_entities") {
        ToolKind::LinkEntities
    } else if str_eq(name, "run_plugin") {
        ToolKind::RunPlugin
    } else if str_eq(name, "list_plugins") {
        ToolKind::ListPlugins
    } else if str_eq(name, "case_summary") {
        ToolKind::CaseSummary
    } else {
        return Err(ToolError::UnknownTool);
    };
    if kind != ToolKind::ListPlugins && !has_case {
        return Err(ToolError::NoCaseOpen);
    }
    if (kind == ToolKind::ListPlugins || kind == ToolKind::RunPlugin) && !has_plugins_dir {
        return Err(ToolError::PluginsDirUnavailable);
    }
    Ok(kind)
}

/// `create_entity` needs a type and a label.
pub fn check_create_args(entity_type: &str, label: &str) -> (r: Result<(), ToolError>)
    ensures
        r is Ok <==> (entity_type@.len() > 0 && label@.len() > 0),
        r is Err ==> r == Err::<(), ToolError>(ToolError::MissingTypeOrLabel),
{
    if entity_type.is_empty() || label.is_empty() {
        Err(ToolError::MissingTypeOrLabel)
    } else {
        Ok(())
    }
}

/// The first entity whose label equals `label` up to ASCII case.
pub fn find_by_label_ignore_case(entities: &Vec<Entity>, label: &str) -> (r: Option<usize>)
    ensures
        match r {
            Some(i) => i < entities.len() && eq_ignore_ascii_case_seq(entities@[i as int].label@, label@)
                && forall|j: int|
                0 <= j < i ==> !eq_ignore_ascii_case_seq((#[trigger] entities@[j]).label@, label@),
            None => forall|j: int|
                0 <= j < entities.len() ==> !eq_ignore_ascii_case_seq(
                    (#[trigger] entities@[j]).label@,
                    label@,
                ),
        },
{
    let mut i: usize = 0;
    while i < entities.len()
        invariant
            i <= entities.len(),
            forall|j: int|
                0 <= j < i ==> !eq_ignore_ascii_case_seq((#[trigger] entities@[j]).label@, label@),
        decreases entities.len() - i,
    {
        if eq_ignore_ascii_case(entities[i].label.as_str(), label) {
            return Some(i);
        }
        i += 1;
    }
    None
}

/// How many entities have type `t`.
pub open spec fn count_type(types: Seq<Seq<char>>, t: Seq<char>) -> nat
    decreases types.len(),
{
    if types.len() == 0 {
        0
    } else {
        count_type(types.drop_last(), t) + if types.last() == t {
            1nat
        } else {
            0nat
        }
    }
}

/// The types of entities.
pub open spec fn types_of(es: Seq<Entity>) -> Seq<Seq<char>> {
    es.map_values(|e: Entity| e.entity_type@)
}

/// The number of entities of one type.
#[derive(Debug)]
pub struct TypeCount {
    pub entity_type: String,
    pub count: usize,
}

/// The counts as (type, count).
pub open spec fn counts_view(cs: Seq<TypeCount>) -> Seq<(Seq<char>, nat)> {
    cs.map_values(|c: TypeCount| (c.entity_type@, c.count as nat))
}

/// The sum of the counts.
pub open spec fn total(cs: Seq<(Seq<char>, nat)>) -> nat
    decreases cs.len(),
{
    if cs.len() == 0 {
        0
    } else {
        total(cs.drop_last()) + cs.last().1
    }
}

proof fn lemma_count_type_bound(types: Seq<Seq<char>>, t: Seq<char>)
    ensures
        count_type(types, t) <= types.len(),
    decreases types.len(),
{
    if types.len() > 0 {
        lemma_count_type_bound(types.drop_last(), t);
    }
}

proof fn lemma_count_type_zero(types: Seq<Seq<char>>, t: Seq<char>)
    requires
        forall|j: int| 0 <= j < types.len() ==> types[j] != t,
    ensures
        count_type(types, t) == 0,
    decreases types.len(),
{
    if types.len() > 0 {
        lemma_count_type_zero(types.drop_last(), t);
    }
}

/// Adding one more entity of a type already counted.
proof fn lemma_total_update(cs: Seq<(Seq<char>, nat)>, a: int)
    requires
        0 <= a < cs.len(),
    ensures
        total(cs.update(a, (cs[a].0, cs[a].1 + 1))) == total(cs) + 1,
    decreases cs.len(),
{
    let u = cs.update(a, (cs[a].0, cs[a].1 + 1));
    if a == cs.len() - 1 {
        assert(u.drop_last() =~= cs.drop_last());
    } else {
        lemma_total_update(cs.drop_last(), a);
        assert(u.drop_last() =~= cs.drop_last().update(a, (cs[a].0, cs[a].1 + 1)));
    }
}

/// The position of the first entry for type `t`, or -1.
pub open spec fn find_type(cs: Seq<(Seq<char>, nat)>, t: Seq<char>) -> int
    decreases cs.len(),
{
    if cs.len() == 0 {
        -1
    } else {
        let k = find_type(cs.drop_last(), t);
        if k >= 0 {
            k
        } else if cs.last().0 == t {
            cs.len() - 1
        } else {
            -1
        }
    }
}

/// The per-type counts of a sequence of types, each type once, in order of
/// first appearance.
pub open spec fn type_counts(types: Seq<Seq<char>>) -> Seq<(Seq<char>, nat)>
    decreases types.len(),
{
    if types.len() == 0 {
        seq![]
    } else {
        let cs = type_counts(types.drop_last());
        let t = types.last();
        let k = find_type(cs, t);
        if k >= 0 {
            cs.update(k, (t, cs[k].1 + 1))
        } else {
            cs.push((t, 1nat))
        }
    }
}

proof fn lemma_find_type(cs: Seq<(Seq<char>, nat)>, t: Seq<char>)
    ensures
        -1 <= find_type(cs, t) < cs.len(),
        find_type(cs, t) >= 0 ==> cs[find_type(cs, t)].0 == t,
        find_type(cs, t) >= 0 ==> forall|b: int| 0 <= b < find_type(cs, t) ==> cs[b].0 != t,
        find_type(cs, t) < 0 ==> forall|b: int| 0 <= b < cs.len() ==> cs[b].0 != t,
    decreases cs.len(),
{
    if cs.len() > 0 {
        let d = cs.drop_last();
        lemma_find_type(d, t);
        assert forall|b: int| 0 <= b < d.len() implies cs[b] == d[b] by {}
        let k = find_type(cs, t);
        if k >= 0 {
            assert forall|b: int| 0 <= b < k implies cs[b].0 != t by {
                assert(cs[b] == d[b]);
            }
        } else {
            assert forall|b: int| 0 <= b < cs.len() implies cs[b].0 != t by {
                if b < d.len() {
                    assert(cs[b] == d[b]);
                }
            }
        }
    }
}

/// Each type appears once among the counts.
pub open spec fn distinct_types(cs: Seq<(Seq<char>, nat)>) -> bool {
    forall|a: int, b: int| 0 <= a < b < cs.len() ==> (#[trigger] cs[a]).0 != (#[trigger] cs[b]).0
}

proof fn lemma_count_push(pre: Seq<Seq<char>>, t: Seq<char>, x: Seq<char>)
    ensures
        count_type(pre.push(t), x) == count_type(pre, x) + if x == t {
            1nat
        } else {
            0nat
        },
{
    assert(pre.push(t).drop_last() =~= pre);
}

/// The per-type counts: every type listed once, each with the number of
/// entities of that type, a type being listed exactly when some entity has
/// it, and the counts adding up to the number of entities.
pub proof fn lemma_type_counts(types: Seq<Seq<char>>)
    ensures
        distinct_types(type_counts(types)),
        forall|a: int|
            0 <= a < type_counts(types).len() ==> (#[trigger] type_counts(types)[a]).1 == count_type(
                types,
                type_counts(types)[a].0,
            ),
        forall|t: Seq<char>| count_type(types, t) > 0 ==> find_type(type_counts(types), t) >= 0,
        total(type_counts(types)) == types.len(),
    decreases types.len(),
{
    if types.len() > 0 {
        let pre = types.drop_last();
        let t = types.last();
        let cs = type_counts(pre);
        lemma_type_counts(pre);
        lemma_find_type(cs, t);
        assert(pre.push(t) =~= types);
        let k = find_type(cs, t);
        let r = type_counts(types);
        if k >= 0 {
            lemma_total_update(cs, k);
            assert forall|a: int| 0 <= a < r.len() implies (#[trigger] r[a]).1 == count_type(types, r[a].0) by {
                lemma_count_push(pre, t, cs[a].0);
                if a != k {
                    assert(cs[a].0 != cs[k].0);
                }
            }
            assert forall|x: int, y: int| 0 <= x < y < r.len() implies (#[trigger] r[x]).0 != (#[trigger] r[y]).0 by {
                assert(r[x].0 == cs[x].0);
                assert(r[y].0 == cs[y].0);
            }
            assert forall|u: Seq<char>| count_type(types, u) > 0 implies find_type(r, u) >= 0 by {
                lemma_count_push(pre, t, u);
                lemma_find_type(r, u);
                if count_type(pre, u) > 0 {
                    lemma_find_type(cs, u);
                    let j = find_type(cs, u);
                    assert(r[j].0 == u);
                } else {
                    assert(r[k].0 == u);
                }
            }
        } else {
            assert(r.drop_last() =~= cs);
            assert forall|j: int| 0 <= j < pre.len() implies pre[j] != t by {
                if pre[j] == t {
                    lemma_count_positive(pre, j);
                }
            }
            lemma_count_type_zero(pre, t);
            assert forall|a: int| 0 <= a < r.len() implies (#[trigger] r[a]).1 == count_type(types, r[a].0) by {
                lemma_count_push(pre, t, r[a].0);
                if a < cs.len() {
                    assert(r[a] == cs[a]);
                }
            }
            assert forall|x: int, y: int| 0 <= x < y < r.len() implies (#[trigger] r[x]).0 != (#[trigger] r[y]).0 by {
                assert(r[x] == cs[x]);
                if y < cs.len() {
                    assert(r[y] == cs[y]);
                }
            }
            assert forall|u: Seq<char>| count_type(types, u) > 0 implies find_type(r, u) >= 0 by {
                lemma_count_push(pre, t, u);
                lemma_find_type(r, u);
                if count_type(pre, u) > 0 {
                    lemma_find_type(cs, u);
                    let j = find_type(cs, u);
                    assert(r[j] == cs[j]);
                } else {
                    assert(r[cs.len() as int].0 == u);
                }
            }
        }
    }
}

proof fn lemma_count_positive(types: Seq<Seq<char>>, j: int)
    requires
        0 <= j < types.len(),
    ensures
        count_type(types, types[j]) > 0,
    decreases types.len(),
{
    if j < types.len() - 1 {
        lemma_count_positive(types.drop_last(), j);
    }
}

/// The number of entities of each type (`case_summary`), in order of first
/// appearance.
pub fn count_by_type(entities: &Vec<Entity>) -> (r: Vec<TypeCount>)
    ensures
        counts_view(r@) == type_counts(types_of(entities@)),
        distinct_types(counts_view(r@)),
        forall|a: int|
            0 <= a < r@.len() ==> (#[trigger] r@[a]).count == count_type(
                types_of(entities@),
                r@[a].entity_type@,
            ),
        total(counts_view(r@)) == entities@.len(),
{
    let ghost types = types_of(entities@);
    let mut out: Vec<TypeCount> = Vec::new();
    let mut i: usize = 0;
    assert(types.take(0) =~= Seq::<Seq<char>>::empty());
    assert(counts_view(out@) =~= Seq::empty());
    while i < entities.len()
        invariant
            i <= entities.len(),
            types == types_of(entities@),
            counts_view(out@) == type_counts(types.take(i as int)),
        decreases entities.len() - i,
    {
        let ghost pre = types.take(i as int);
        let ghost cv0 = counts_view(out@);
        assert(types.take(i + 1).drop_last() =~= pre);
        assert(types.take(i + 1).last() == entities@[i as int].entity_type@);
        let t = &entities[i].entity_type;
        let mut a: usize = 0;
        let mut found = false;
        while a < out.len()
            invariant_except_break
                !found,
            invariant
                a <= out.len(),
                forall|b: int| 0 <= b < a ==> (#[trigger] out@[b]).entity_type@ != t@,
            ensures
                found ==> a < out.len() && out@[a as int].entity_type@ == t@,
                !found ==> forall|b: int| 0 <= b < out.len() ==> (#[trigger] out@[b]).entity_type@ != t@,
            decreases out.len() - a,
        {
            if out[a].entity_type == *t {
                found = true;
                break;
            }
            a += 1;
        }
        proof {
            lemma_find_type(cv0, t@);
            lemma_type_counts(pre);
            lemma_count_type_bound(pre, t@);
        }
        if found {
            assert forall|b: int| 0 <= b < a implies cv0[b].0 != t@ by {
                assert(cv0[b].0 == out@[b].entity_type@);
            }
            assert(cv0[a as int].0 == t@);
            assert(find_type(cv0, t@) == a);
            assert(cv0[a as int].1 == count_type(pre, t@));
            let c = out[a].count + 1;
            let name = out[a].entity_type.clone();
            out.set(a, TypeCount { entity_type: name, count: c });
            assert(counts_view(out@) =~= cv0.update(a as int, (t@, cv0[a as int].1 + 1)));
        } else {
            assert forall|b: int| 0 <= b < cv0.len() implies cv0[b].0 != t@ by {
                assert(cv0[b].0 == out@[b].entity_type@);
            }
            assert(find_type(cv0, t@) < 0);
            out.push(TypeCount { entity_type: t.clone(), count: 1 });
            assert(counts_view(out@) =~= cv0.push((t@, 1nat)));
        }
        i += 1;
    }
    assert(types.take(i as int) =~= types);
    proof {
        lemma_type_counts(types);
        assert forall|a: int| 0 <= a < out@.len() implies (#[trigger] out@[a]).count == count_type(
            types,
            out@[a].entity_type@,
        ) by {
            assert(counts_view(out@)[a] == (out@[a].entity_type@, out@[a].count as nat));
        }
    }
    out
}

/// The number of results a label search returns: the given limit, 20 by
/// default.
pub fn search_limit(limit: Option<usize>) -> (r: usize)
    ensures
        r == match limit {
            Some(n) => n,
            None => 20,
        },
{
    match limit {
        Some(n) => n,
        None => 20,
    }
}

/// The number of items shown when at most `limit` of `len` are listed.
pub fn shown(len: usize, limit: usize) -> (r: usize)
    ensures
        r == if len < limit {
            len
        } else {
            limit
        },
{
    if len < limit {
        len
    } else {
        limit
    }
}

/// A parameter of a tool offered to the model.
#[derive(Debug)]
pub struct ToolParam {
    pub name: String,
    /// The JSON type of the parameter: `string` or `object`.
    pub param_type: String,
    pub description: Option<String>,
    pub required: bool,
}

/// A tool offered to the model.
#[derive(Debug)]
pub struct ToolSpec {
    pub name: String,
    pub description: String,
    pub params: Vec<ToolParam>,
}

/// Some offered tool dispatches to `k`.
pub open spec fn offers(specs: Seq<ToolSpec>, k: ToolKind) -> bool {
    exists|i: int| 0 <= i < specs.len() && tool_named((#[trigger] specs[i]).name@) == Some(k)
}

fn param(name: &str, param_type: &str, description: Option<&str>, required: bool) -> (p: ToolParam)
    ensures
        param_view(p) == (
            name@,
            param_type@,
            match description {
                Some(d) => Some(d@),
                None => None::<Seq<char>>,
            },
            required,
        ),
{
    ToolParam {
        name: name.to_owned(),
        param_type: param_type.to_owned(),
        description: match description {
            Some(d) => Some(d.to_owned()),
            None => None,
        },
        required,
    }
}

/// A parameter as (name, JSON type, description, required).
pub open spec fn param_view(p: ToolParam) -> (Seq<char>, Seq<char>, Option<Seq<char>>, bool) {
    (
        p.name@,
        p.param_type@,
        match p.description {
            Some(d) => Some(d@),
            None => None,
        },
        p.required,
    )
}

/// A tool as (name, description, parameters).
pub open spec fn tool_view(t: ToolSpec) -> (Seq<char>, Seq<char>, Seq<(Seq<char>, Seq<char>, Option<Seq<char>>, bool)>) {
    (t.name@, t.description@, t.params@.map_values(|p: ToolParam| param_view(p)))
}

/// The tools offered to the model, in order, each with its description
/// and parameters.
pub open spec fn offered_tools() -> Seq<(Seq<char>, Seq<char>, Seq<(Seq<char>, Seq<char>, Option<Seq<char>>, bool)>)> {
    seq![
        (
            "list_entities"@,
            "List entities in the current case, optionally filtered by type"@,
            seq![("entity_type"@, "string"@, Some("Optional type filter, e.g. Domain, Email, IPv4, Person"@), false)],
        ),
        (
            "search_entities"@,
            "Search entities by label substring"@,
            seq![("query"@, "string"@, None, true)],
        ),
        (
            "create_entity"@,
            "Create (or get existing) entity in the case graph"@,
            seq![
                ("entity_type"@, "string"@, None, true),
                ("label"@, "string"@, None, true),
                ("properties"@, "object"@, None, false),
            ],
        ),
        (
            "link_entities"@,
            "Create a relationship between two entities by their labels"@,
            seq![
                ("source_label"@, "string"@, None, true),
                ("target_label"@, "string"@, None, true),
                ("rel_type"@, "string"@, Some("e.g. resolves_to, owned_by, registered_to, mentions"@), true),
            ],
        ),
        (
            "run_plugin"@,
            "Run an installed enrichment plugin against an entity label"@,
            seq![("plugin_id"@, "string"@, None, true), ("entity_label"@, "string"@, None, true)],
        ),
        ("list_plugins"@, "List installed plugins with their ids"@, seq![]),
        ("case_summary"@, "Get counts and a sample of the current case graph"@, seq![]),
    ]
}

/// The tools offered to the model. Every tool is offered once, and every
/// offered name dispatches to the tool it describes.
pub fn tool_specs() -> (r: Vec<ToolSpec>)
    ensures
        r@.map_values(|t: ToolSpec| tool_view(t)) == offered_tools(),
        forall|i: int| 0 <= i < r@.len() ==> tool_named((#[trigger] r@[i]).name@) is Some,
        forall|i: int, j: int|
            0 <= i < j < r@.len() ==> tool_named((#[trigger] r@[i]).name@) != tool_named(
                (#[trigger] r@[j]).name@,
            ),
        forall|k: ToolKind| #[trigger] offers(r@, k),
{
    proof {
        reveal_strlit("list_entities");
        reveal_strlit("search_entities");
        reveal_strlit("create_entity");
        reveal_strlit("link_entities");
        reveal_strlit("run_plugin");
        reveal_strlit("list_plugins");
        reveal_strlit("case_summary");
        assert("list_entities"@.len() != "search_entities"@.len());
        assert("list_entities"@[0] != "create_entity"@[0]);
        assert("search_entities"@.len() != "create_entity"@.len());
        assert("list_entities"@[2] != "link_entities"@[2]);
        assert("search_entities"@.len() != "link_entities"@.len());
        assert("create_entity"@[0] != "link_entities"@[0]);
        assert("list_entities"@.len() != "run_plugin"@.len());
        assert("search_entities"@.len() != "run_plugin"@.len());
        assert("create_entity"@.len() != "run_plugin"@.len());
        assert("link_entities"@.len() != "run_plugin"@.len());
        assert("list_entities"@.len() != "list_plugins"@.len());
        assert("search_entities"@.len() != "list_plugins"@.len());
        assert("create_entity"@.len() != "list_plugins"@.len());
        assert("link_entities"@.len() != "list_plugins"@.len());
        assert("run_plugin"@.len() != "list_plugins"@.len());
        assert("list_entities"@.len() != "case_summary"@.len());
        assert("search_entities"@.len() != "case_summary"@.len());
        assert("create_entity"@.len() != "case_summary"@.len());
        assert("link_entities"@.len() != "case_summary"@.len());
        assert("run_plugin"@.len() != "case_summary"@.len());
        assert("list_plugins"@[0] != "case_summary"@[0]);
    }
    let mut r: Vec<ToolSpec> = Vec::new();
    let mut p0: Vec<ToolParam> = Vec::new();
    p0.push(param("entity_type", "string", Some("Optional type filter, e.g. Domain, Email, IPv4, Person"), false));
    r.push(ToolSpec {
        name: "list_entities".to_owned(),
        description: "List entities in the current case, optionally filtered by type".to_owned(),
        params: p0,
    });
    let mut p1: Vec<ToolParam> = Vec::new();
    p1.push(param("query", "string", None, true));
    r.push(ToolSpec {
        name: "search_entities".to_owned(),
        description: "Search entities by label substring".to_owned(),
        params: p1,
    });
    let mut p2: Vec<ToolParam> = Vec::new();
    p2.push(param("entity_type", "string", None, true));
    p2.push(param("label", "string", None, true));
    p2.push(param("properties", "object", None, false));
    r.push(ToolSpec {
        name: "create_entity".to_owned(),
        description: "Create (or get existing) entity in the case graph".to_owned(),
        params: p2,
    });
    let mut p3: Vec<ToolParam> = Vec::new();
    p3.push(param("source_label", "string", None, true));
    p3.push(param("target_label", "string", None, true));
    p3.push(param("rel_type", "string", Some("e.g. resolves_to, owned_by, registered_to, mentions"), true));
    r.push(ToolSpec {
        name: "link_entities".to_owned(),
        description: "Create a relationship between two entities by their labels".to_owned(),
        params: p3,
    });
    let mut p4: Vec<ToolParam> = Vec::new();
    p4.push(param("plugin_id", "string", None, true));
    p4.push(param("entity_label", "string", None, true));
    r.push(ToolSpec {
        name: "run_plugin".to_owned(),
        description: "Run an installed enrichment plugin against an entity label".to_owned(),
        params: p4,
    });
    r.push(ToolSpec {
        name: "list_plugins".to_owned(),
        description: "List installed plugins with their ids".to_owned(),
        params: Vec::new(),
    });
    r.push(ToolSpec {
        name: "case_summary".to_owned(),
        description: "Get counts and a sample of the current case graph".to_owned(),
        params: Vec::new(),
    });
    assert(r@.map_values(|t: ToolSpec| tool_view(t)) =~= offered_tools()) by {
        assert(p0@.map_values(|p: ToolParam| param_view(p)) =~= offered_tools()[0].2);
        assert(p1@.map_values(|p: ToolParam| param_view(p)) =~= offered_tools()[1].2);
        assert(p2@.map_values(|p: ToolParam| param_view(p)) =~= offered_tools()[2].2);
        assert(p3@.map_values(|p: ToolParam| param_view(p)) =~= offered_tools()[3].2);
        assert(p4@.map_values(|p: ToolParam| param_view(p)) =~= offered_tools()[4].2);
        assert(r@[5].params@.map_values(|p: ToolParam| param_view(p)) =~= offered_tools()[5].2);
        assert(r@[6].params@.map_values(|p: ToolParam| param_view(p)) =~= offered_tools()[6].2);
        assert(tool_view(r@[0]) == offered_tools()[0]);
        assert(tool_view(r@[1]) == offered_tools()[1]);
        assert(tool_view(r@[2]) == offered_tools()[2]);
        assert(tool_view(r@[3]) == offered_tools()[3]);
        assert(tool_view(r@[4]) == offered_tools()[4]);
        assert(tool_view(r@[5]) == offered_tools()[5]);
        assert(tool_view(r@[6]) == offered_tools()[6]);
    }
    assert(tool_named(r@[0].name@) == Some(ToolKind::ListEntities));
    assert(tool_named(r@[1].name@) == Some(ToolKind::SearchEntities));
    assert(tool_named(r@[2].name@) == Some(ToolKind::CreateEntity));
    assert(tool_named(r@[3].name@) == Some(ToolKind::LinkEntities));
    assert(tool_named(r@[4].name@) == Some(ToolKind::RunPlugin));
    assert(tool_named(r@[5].name@) == Some(ToolKind::ListPlugins));
    assert(tool_named(r@[6].name@) == Some(ToolKind::CaseSummary));
    assert forall|k: ToolKind| #[trigger] offers(r@, k) by {
        match k {
            ToolKind::ListEntities => assert(tool_named(r@[0].name@) == Some(k)),
            ToolKind::SearchEntities => assert(tool_named(r@[1].name@) == Some(k)),
            ToolKind::CreateEntity => assert(tool_named(r@[2].name@) == Some(k)),
            ToolKind::LinkEntities => assert(tool_named(r@[3].name@) == Some(k)),
            ToolKind::RunPlugin => assert(tool_named(r@[4].name@) == Some(k)),
            ToolKind::ListPlugins => assert(tool_named(r@[5].name@) == Some(k)),
            ToolKind::CaseSummary => assert(tool_named(r@[6].name@) == Some(k)),
        }
    }
    r
}

} // verus!
