//! Plugin manifests, plugin input and output, and the decisions the plugin
//! engine makes around running a plugin.

use vstd::prelude::*;
use crate::entity::{Entity, Property};
use crate::paths::{joined_path, path_join};
use crate::text::{concatenate, has_char_seq, replace_all, replace_seq, str_eq};

verus! {

/// A configuration field that a plugin declares.
#[derive(Debug)]
pub struct ConfigField {
    pub name: String,
    pub field_type: String,
    pub default: Option<String>,
    pub required: bool,
    pub description: String,
}

/// The manifest of an installed plugin.
#[derive(Debug)]
pub struct PluginManifest {
    pub id: String,
    pub name: String,
    pub version: String,
    pub author: String,
    pub description: String,
    pub input_types: Vec<String>,
    pub output_types: Vec<String>,
    pub command: String,
    pub args: Vec<String>,
    pub config_fields: Vec<ConfigField>,
}

/// What a plugin reads: the entity and the configuration values.
#[derive(Debug)]
pub struct PluginInput {
    pub entity: Entity,
    pub config: Vec<(String, String)>,
}

/// An entity that a plugin reports.
#[derive(Debug)]
pub struct PartialEntity {
    pub entity_type: String,
    pub label: String,
    pub properties: Vec<Property>,
}

/// A relationship that a plugin reports, between entities named by type
/// and label.
#[derive(Debug)]
pub struct PartialRelationship {
    pub rel_type: String,
    pub source_label: String,
    pub source_type: String,
    pub target_label: String,
    pub target_type: String,
    pub properties: Vec<Property>,
}

/// What a plugin writes back.
#[derive(Debug)]
pub struct PluginOutput {
    pub entities: Vec<PartialEntity>,
    pub relationships: Vec<PartialRelationship>,
    pub error: Option<String>,
}

/// `arg` with `{input}`, `{type}` and `{id}` replaced, in that order, by
/// the entity's label, type and id.
pub open spec fn resolved_arg(arg: Seq<char>, label: Seq<char>, ty: Seq<char>, id: Seq<char>) -> Seq<
    char,
> {
    replace_seq(
        replace_seq(replace_seq(arg, "{input}"@, label), "{type}"@, ty),
        "{id}"@,
        id,
    )
}

/// Runs installed plugins found under a directory.
pub struct PluginEngine {
    plugins_dir: String,
}

impl PluginEngine {
    /// The directory the engine looks in.
    pub closed spec fn dir(&self) -> Seq<char> {
        self.plugins_dir@
    }

    pub fn new(plugins_dir: &str) -> (r: PluginEngine)
        ensures
            r.dir() == plugins_dir@,
    {
        PluginEngine { plugins_dir: plugins_dir.to_owned() }
    }

    /// The directory the engine looks in.
    pub fn plugins_dir(&self) -> (r: &str)
        ensures
            r@ == self.dir(),
    {
        self.plugins_dir.as_str()
    }

    /// The directory a plugin runs in: its id under the plugins directory.
    pub fn plugin_dir(&self, manifest: &PluginManifest) -> (r: String)
        ensures
            r@ == joined_path(self.dir(), manifest.id@),
    {
        path_join(self.plugins_dir.as_str(), manifest.id.as_str())
    }

    /// The command-line arguments of a run on `entity`: each manifest
    /// argument with its placeholders filled in.
    pub fn resolve_args(&self, manifest: &PluginManifest, entity: &Entity) -> (r: Vec<String>)
        ensures
            r@.len() == manifest.args@.len(),
            forall|i: int|
                0 <= i < r@.len() ==> (#[trigger] r@[i])@ == resolved_arg(
                    manifest.args@[i]@,
                    entity.label@,
                    entity.entity_type@,
                    entity.id@,
                ),
    {
        proof {
            reveal_strlit("{input}");
            reveal_strlit("{type}");
            reveal_strlit("{id}");
        }
        let mut out: Vec<String> = Vec::new();
        let mut i: usize = 0;
        while i < manifest.args.len()
            invariant
                i <= manifest.args.len(),
                out@.len() == i,
                "{input}"@.len() > 0,
                "{type}"@.len() > 0,
                "{id}"@.len() > 0,
                forall|j: int|
                    0 <= j < i ==> (#[trigger] out@[j])@ == resolved_arg(
                        manifest.args@[j]@,
                        entity.label@,
                        entity.entity_type@,
                        entity.id@,
                    ),
            decreases manifest.args.len() - i,
        {
            let a = replace_all(manifest.args[i].as_str(), "{input}", entity.label.as_str());
            let b = replace_all(a.as_str(), "{type}", entity.entity_type.as_str());
            let c = replace_all(b.as_str(), "{id}", entity.id.as_str());
            out.push(c);
            i += 1;
        }
        out
    }
}

/// The input handed to a plugin.
pub fn plugin_input(entity: Entity, config: Vec<(String, String)>) -> (r: PluginInput)
    ensures
        r.entity == entity,
        r.config == config,
{
    PluginInput { entity, config }
}

/// The first manifest with the given id.
pub fn find_manifest(manifests: &Vec<PluginManifest>, id: &str) -> (r: Option<usize>)
    ensures
        match r {
            Some(i) => i < manifests.len() && manifests@[i as int].id@ == id@ && forall|j: int|
                0 <= j < i ==> (#[trigger] manifests@[j]).id@ != id@,
            None => forall|j: int| 0 <= j < manifests.len() ==> (#[trigger] manifests@[j]).id@ != id@,
        },
{
    let mut i: usize = 0;
    while i < manifests.len()
        invariant
            i <= manifests.len(),
            forall|j: int| 0 <= j < i ==> (#[trigger] manifests@[j]).id@ != id@,
        decreases manifests.len() - i,
    {
        if str_eq(manifests[i].id.as_str(), id) {
            return Some(i);
        }
        i += 1;
    }
    None
}

/// The message for a plugin process that exited unsuccessfully.
pub fn failure_message(stderr: &str) -> (m: String)
    ensures
        m@ == "Plugin failed: "@ + stderr@,
{
    concatenate("Plugin failed: ", stderr)
}

/// Accepts a plugin's output unless the plugin reported an error.
pub fn check_output(output: PluginOutput) -> (r: Result<PluginOutput, String>)
    ensures
        match output.error {
            Some(e) => r matches Err(m) && m@ == "Plugin error: "@ + e@,
            None => r == Ok::<PluginOutput, String>(output),
        },
{
    match &output.error {
        Some(e) => Err(concatenate("Plugin error: ", e.as_str())),
        None => Ok(output),
    }
}

/// Replacing a pattern that starts with `{` leaves text without `{` as it
/// is.
proof fn lemma_replace_without_brace(s: Seq<char>, from: Seq<char>, to: Seq<char>)
    requires
        from.len() > 0,
        from[0] == '{',
        !has_char_seq(s, '{'),
    ensures
        replace_seq(s, from, to) == s,
    decreases s.len(),
{
    if s.len() > 0 {
        assert(!crate::text::occurs_at(s, from, 0)) by {
            if s.len() >= from.len() && s.subrange(0, from.len() as int) == from {
                assert(s[0] == from[0]);
            }
        }
        assert(!has_char_seq(s.skip(1), '{')) by {
            if has_char_seq(s.skip(1), '{') {
                let k = choose|k: int| 0 <= k < s.skip(1).len() && s.skip(1)[k] == '{';
                assert(s[k + 1] == '{');
            }
        }
        lemma_replace_without_brace(s.skip(1), from, to);
        assert(seq![s[0]] + s.skip(1) =~= s);
    }
}

/// An argument without placeholders, indeed without `{`, reaches the
/// plugin unchanged whatever the entity.
pub proof fn lemma_plain_arg_unchanged(arg: Seq<char>, label: Seq<char>, ty: Seq<char>, id: Seq<char>)
    requires
        !has_char_seq(arg, '{'),
    ensures
        resolved_arg(arg, label, ty, id) == arg,
{
    reveal_strlit("{input}");
    reveal_strlit("{type}");
    reveal_strlit("{id}");
    lemma_replace_without_brace(arg, "{input}"@, label);
    lemma_replace_without_brace(arg, "{type}"@, ty);
    lemma_replace_without_brace(arg, "{id}"@, id);
}

} // verus!
