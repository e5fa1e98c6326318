//! Case metadata and the layout of a case on disk.

use vstd::prelude::*;
use crate::ids::{is_uuid_v4, new_uuid_string, now_rfc3339};
use crate::paths::{joined_path, path_join};
use crate::text::concatenate;

verus! {

/// The metadata of an investigation case.
#[derive(Debug)]
pub struct CaseMetadata {
    pub id: String,
    pub name: String,
    pub description: String,
    pub author: String,
    /// RFC 3339 time of creation.
    pub created_at: String,
    /// RFC 3339 time of the last change.
    pub updated_at: String,
    pub version: String,
}

impl CaseMetadata {
    /// A new case with a fresh random id, no description, equal creation
    /// and update times, at format version `0.1.0`.
    pub fn new(name: &str, author: &str) -> (m: CaseMetadata)
        ensures
            is_uuid_v4(m.id@),
            m.name@ == name@,
            m.author@ == author@,
            m.description@.len() == 0,
            m.created_at@ == m.updated_at@,
            m.version@ == "0.1.0"@,
    {
        let now = now_rfc3339();
        CaseMetadata {
            id: new_uuid_string(),
            name: name.to_owned(),
            description: String::new(),
            author: author.to_owned(),
            created_at: now.clone(),
            updated_at: now,
            version: "0.1.0".to_owned(),
        }
    }
}

/// Where the parts of a case live under its root directory.
#[derive(Debug)]
pub struct CasePaths {
    pub root: String,
    pub db: String,
    pub search: String,
    pub attachments: String,
}

impl CasePaths {
    /// The layout under `root`: the graph database at `data/ekuke.db`, the
    /// search index at `search.idx`, attachments in `attachments`.
    pub fn from_root(root: &str) -> (p: CasePaths)
        ensures
            p.root@ == root@,
            p.db@ == joined_path(joined_path(root@, "data"@), "ekuke.db"@),
            p.search@ == joined_path(root@, "search.idx"@),
            p.attachments@ == joined_path(root@, "attachments"@),
    {
        let data = path_join(root, "data");
        CasePaths {
            db: path_join(data.as_str(), "ekuke.db"),
            search: path_join(root, "search.idx"),
            attachments: path_join(root, "attachments"),
            root: root.to_owned(),
        }
    }
}

/// The root directory of a case: its id under the cases directory.
pub fn case_root(cases_dir: &str, case_id: &str) -> (r: String)
    ensures
        r@ == joined_path(cases_dir@, case_id@),
{
    path_join(cases_dir, case_id)
}

/// The metadata file of a case.
pub fn case_file(root: &str) -> (r: String)
    ensures
        r@ == joined_path(root@, "case.json"@),
{
    path_join(root, "case.json")
}

/// Where a case is exported: `<case id>.ekuke` in the cases directory.
pub fn export_path(cases_dir: &str, case_id: &str) -> (r: String)
    ensures
        r@ == joined_path(cases_dir@, case_id@ + ".ekuke"@),
{
    let name = concatenate(case_id, ".ekuke");
    path_join(cases_dir, name.as_str())
}

/// The status recorded for a case, `open` when none is recorded.
pub fn case_status(recorded: Option<&str>) -> (r: String)
    ensures
        match recorded {
            Some(s) => r@ == s@,
            None => r@ == "open"@,
        },
{
    match recorded {
        Some(s) => s.to_owned(),
        None => "open".to_owned(),
    }
}

} // verus!
