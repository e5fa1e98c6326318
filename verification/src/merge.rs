//! Planning how a plugin's output joins the case graph: which reported
//! entities are new, which ids they resolve to, and which relationships
//! are added.

use vstd::prelude::*;
use crate::entity::{
    copy_properties, is_uuid_v4_entity, keys_distinct, props_view, relationship_id, Entity,
    PropertyValueView, Relationship,
};
use crate::plugin::{PartialEntity, PartialRelationship, PluginOutput};

verus! {

/// The (type, label) key of a reported entity.
pub open spec fn pkey(p: PartialEntity) -> (Seq<char>, Seq<char>) {
    (p.entity_type@, p.label@)
}

/// The keys of reported entities.
pub open spec fn keys_of(ps: Seq<PartialEntity>) -> Seq<(Seq<char>, Seq<char>)> {
    ps.map_values(|p: PartialEntity| pkey(p))
}

/// The text of an optional string.
pub open spec fn opt_view(o: Option<String>) -> Option<Seq<char>> {
    match o {
        Some(s) => Some(s@),
        None => None,
    }
}

/// The texts of optional strings.
pub open spec fn opts_view(os: Seq<Option<String>>) -> Seq<Option<Seq<char>>> {
    os.map_values(|o: Option<String>| opt_view(o))
}

/// Reported entity `i` gets a new graph entity: none exists for its key,
/// and no earlier reported entity of the same key got one.
pub open spec fn creates(
    keys: Seq<(Seq<char>, Seq<char>)>,
    existing: Seq<Option<Seq<char>>>,
    i: int,
) -> bool {
    &&& existing[i] is None
    &&& forall|j: int| 0 <= j < i && keys[j] == keys[i] ==> existing[j] is Some
}

/// The reported entities, among the first `n`, that get new graph
/// entities, in order.
pub open spec fn created_list(
    keys: Seq<(Seq<char>, Seq<char>)>,
    existing: Seq<Option<Seq<char>>>,
    n: int,
) -> Seq<int>
    decreases n,
{
    if n <= 0 {
        seq![]
    } else {
        let p = created_list(keys, existing, n - 1);
        if creates(keys, existing, n - 1) {
            p.push(n - 1)
        } else {
            p
        }
    }
}

/// The id table: the source entity's key first, then each reported
/// entity's key with the id it resolved to.
pub open spec fn id_pairs(
    source_key: (Seq<char>, Seq<char>),
    source_id: Seq<char>,
    keys: Seq<(Seq<char>, Seq<char>)>,
    ids: Seq<Seq<char>>,
) -> Seq<((Seq<char>, Seq<char>), Seq<char>)> {
    seq![(source_key, source_id)] + Seq::new(keys.len(), |i: int| (keys[i], ids[i]))
}

/// The id of a key in the table, the last entry winning.
pub open spec fn lookup_last(
    pairs: Seq<((Seq<char>, Seq<char>), Seq<char>)>,
    key: (Seq<char>, Seq<char>),
) -> Option<Seq<char>>
    decreases pairs.len(),
{
    if pairs.len() == 0 {
        None
    } else if pairs.last().0 == key {
        Some(pairs.last().1)
    } else {
        lookup_last(pairs.drop_last(), key)
    }
}

/// The relationships to add, as (type, source id, target id): one for
/// each reported relationship whose two ends are in the table.
pub open spec fn planned_links(
    pairs: Seq<((Seq<char>, Seq<char>), Seq<char>)>,
    rels: Seq<PartialRelationship>,
) -> Seq<(Seq<char>, Seq<char>, Seq<char>)>
    decreases rels.len(),
{
    if rels.len() == 0 {
        seq![]
    } else {
        let prev = planned_links(pairs, rels.drop_last());
        let r = rels.last();
        match (
            lookup_last(pairs, (r.source_type@, r.source_label@)),
            lookup_last(pairs, (r.target_type@, r.target_label@)),
        ) {
            (Some(s), Some(t)) => prev.push((r.rel_type@, s, t)),
            _ => prev,
        }
    }
}

/// A relationship as (type, source id, target id).
pub open spec fn rel_view(r: Relationship) -> (Seq<char>, Seq<char>, Seq<char>) {
    (r.rel_type@, r.source_id@, r.target_id@)
}

/// The views of relationships.
pub open spec fn rels_view(rs: Seq<Relationship>) -> Seq<(Seq<char>, Seq<char>, Seq<char>)> {
    rs.map_values(|r: Relationship| rel_view(r))
}

/// A fresh relationship: its id is `source-type-target` and it has no
/// properties.
pub open spec fn fresh_rel(r: Relationship) -> bool {
    &&& r.id@ == relationship_id(r.source_id@, r.rel_type@, r.target_id@)
    &&& r.properties@.len() == 0
}

/// The graph changes for one plugin run.
#[derive(Debug)]
pub struct MergePlan {
    /// Entities to insert, in order.
    pub new_entities: Vec<Entity>,
    /// The id each reported entity resolved to.
    pub partial_ids: Vec<String>,
    /// Relationships to add, in order.
    pub relationships: Vec<Relationship>,
}

proof fn lemma_created_list_bounds(
    keys: Seq<(Seq<char>, Seq<char>)>,
    existing: Seq<Option<Seq<char>>>,
    n: int,
)
    ensures
        forall|k: int|
            0 <= k < created_list(keys, existing, n).len() ==> 0 <= #[trigger] created_list(
                keys,
                existing,
                n,
            )[k] < n,
    decreases n,
{
    if n > 0 {
        lemma_created_list_bounds(keys, existing, n - 1);
        let p = created_list(keys, existing, n - 1);
        let c = created_list(keys, existing, n);
        assert forall|k: int| 0 <= k < c.len() implies 0 <= #[trigger] c[k] < n by {
            if k < p.len() {
                assert(c[k] == p[k]);
            }
        }
    }
}

fn same_key(a: &PartialEntity, b: &PartialEntity) -> (r: bool)
    ensures
        r == (pkey(*a) == pkey(*b)),
{
    a.entity_type == b.entity_type && a.label == b.label
}

/// Resolves each reported entity to an id and creates the missing ones.
/// `existing[i]` is the id the graph held for the key of reported entity
/// `i` before the run.
fn resolve_partials(partials: &Vec<PartialEntity>, existing: &Vec<Option<String>>) -> (r: (
    Vec<Entity>,
    Vec<String>,
))
    requires
        existing.len() == partials.len(),
        forall|i: int| 0 <= i < partials.len() ==> keys_distinct(props_view(#[trigger] partials@[i].properties@)),
    ensures
        ({
            let (news, ids) = r;
            let keys = keys_of(partials@);
            let ex = opts_view(existing@);
            let cl = created_list(keys, ex, partials@.len() as int);
            &&& ids@.len() == partials@.len()
            &&& forall|i: int| 0 <= i < ids@.len() && #[trigger] ex[i] is Some ==> ids@[i]@ == ex[i]->0
            &&& forall|i: int, j: int|
                0 <= j < i < ids@.len() && keys[j] == keys[i] && ex[i] is None && ex[j] is None
                    ==> #[trigger] ids@[i]@ == #[trigger] ids@[j]@
            &&& news@.len() == cl.len()
            &&& forall|k: int|
                0 <= k < news@.len() ==> {
                    let i = cl[k];
                    &&& (#[trigger] news@[k]).entity_type@ == keys[i].0
                    &&& news@[k].label@ == keys[i].1
                    &&& props_view(news@[k].properties@) == props_view(partials@[i].properties@)
                    &&& news@[k].id@ == ids@[i]@
                    &&& is_uuid_v4_entity(news@[k])
                    &&& news@[k].created_at@ == news@[k].updated_at@
                    &&& news@[k].wf()
                }
        }),
{
    let ghost keys = keys_of(partials@);
    let ghost ex = opts_view(existing@);
    let n = partials.len();
    let mut ids: Vec<String> = Vec::new();
    let mut news: Vec<Entity> = Vec::new();
    let mut i: usize = 0;
    while i < n
        invariant
            n == partials.len(),
            existing.len() == n,
            keys == keys_of(partials@),
            ex == opts_view(existing@),
            forall|a: int| 0 <= a < partials.len() ==> keys_distinct(props_view(#[trigger] partials@[a].properties@)),
            i <= n,
            ids@.len() == i,
            forall|a: int| 0 <= a < i && #[trigger] ex[a] is Some ==> ids@[a]@ == ex[a]->0,
            forall|a: int, b: int|
                0 <= a < b < i && keys[a] == keys[b] && ex[b] is None && ex[a] is None
                    ==> #[trigger] ids@[b]@ == #[trigger] ids@[a]@,
            news@.len() == created_list(keys, ex, i as int).len(),
            forall|k: int|
                0 <= k < news@.len() ==> {
                    let a = created_list(keys, ex, i as int)[k];
                    &&& (#[trigger] news@[k]).entity_type@ == keys[a].0
                    &&& news@[k].label@ == keys[a].1
                    &&& props_view(news@[k].properties@) == props_view(partials@[a].properties@)
                    &&& news@[k].id@ == ids@[a]@
                    &&& is_uuid_v4_entity(news@[k])
                    &&& news@[k].created_at@ == news@[k].updated_at@
                    &&& news@[k].wf()
                },
        decreases n - i,
    {
        proof {
            lemma_created_list_bounds(keys, ex, i as int);
        }
        let ghost cl = created_list(keys, ex, i as int);
        let ghost ids0 = ids@;
        assert(ex[i as int] == opt_view(existing@[i as int]));
        assert(keys[i as int] == pkey(partials@[i as int]));
        match &existing[i] {
            Some(x) => {
                ids.push(x.clone());
                assert(!creates(keys, ex, i as int));
                assert(created_list(keys, ex, i + 1) == cl);
            },
            None => {
                let mut j: usize = 0;
                let mut found: Option<usize> = None;
                while j < i
                    invariant_except_break
                        found is None,
                    invariant
                        j <= i < n,
                        n == partials.len(),
                        existing.len() == n,
                        keys == keys_of(partials@),
                        ex == opts_view(existing@),
                        forall|b: int| 0 <= b < j ==> !(#[trigger] ex[b] is None && keys[b] == keys[i as int]),
                    ensures
                        found matches Some(f) ==> f < i && ex[f as int] is None && keys[f as int] == keys[i as int],
                        found is None ==> forall|b: int| 0 <= b < i ==> !(#[trigger] ex[b] is None && keys[b] == keys[i as int]),
                    decreases i - j,
                {
                    assert(ex[j as int] == opt_view(existing@[j as int]));
                    assert(keys[j as int] == pkey(partials@[j as int]));
                    if existing[j].is_none() && same_key(&partials[j], &partials[i]) {
                        found = Some(j);
                        break;
                    }
                    j += 1;
                }
                match found {
                    Some(f) => {
                        let id = ids[f].clone();
                        ids.push(id);
                        assert(!creates(keys, ex, i as int));
                        assert(created_list(keys, ex, i + 1) == cl);
                        assert forall|a: int, b: int|
                            0 <= a < b < i + 1 && keys[a] == keys[b] && ex[b] is None && ex[a] is None
                                implies #[trigger] ids@[b]@ == #[trigger] ids@[a]@ by {
                            if b == i {
                                assert(ids@[b]@ == ids0[f as int]@);
                                if a != f {
                                    assert(keys[a] == keys[f as int]);
                                }
                            }
                        }
                    },
                    None => {
                        let p = &partials[i];
                        let mut e = Entity::new(p.entity_type.as_str(), p.label.as_str());
                        e.properties = copy_properties(&p.properties);
                        let id = e.id.clone();
                        ids.push(id);
                        assert(creates(keys, ex, i as int));
                        assert(created_list(keys, ex, i + 1) == cl.push(i as int));
                        let ghost news0 = news@;
                        news.push(e);
                        assert forall|k: int| 0 <= k < news@.len() implies {
                            let a = created_list(keys, ex, i + 1)[k];
                            &&& (#[trigger] news@[k]).entity_type@ == keys[a].0
                            &&& news@[k].label@ == keys[a].1
                            &&& props_view(news@[k].properties@) == props_view(partials@[a].properties@)
                            &&& news@[k].id@ == ids@[a]@
                            &&& is_uuid_v4_entity(news@[k])
                            &&& news@[k].created_at@ == news@[k].updated_at@
                            &&& news@[k].wf()
                        } by {
                            if k < news0.len() {
                                assert(news@[k] == news0[k]);
                                assert(created_list(keys, ex, i + 1)[k] == cl[k]);
                            }
                        }
                    },
                }
            },
        }
        assert forall|k: int| 0 <= k < news@.len() implies #[trigger] created_list(keys, ex, i + 1)[k] < i + 1 by {
            lemma_created_list_bounds(keys, ex, i + 1);
        }
        i += 1;
    }
    (news, ids)
}

/// One row of the id table.
struct IdRow {
    entity_type: String,
    label: String,
    id: String,
}

spec fn row_view(r: IdRow) -> ((Seq<char>, Seq<char>), Seq<char>) {
    ((r.entity_type@, r.label@), r.id@)
}

spec fn rows_view(rs: Seq<IdRow>) -> Seq<((Seq<char>, Seq<char>), Seq<char>)> {
    rs.map_values(|r: IdRow| row_view(r))
}

/// The id the table holds for a key, the last row winning.
fn lookup_row(rows: &Vec<IdRow>, entity_type: &String, label: &String) -> (r: Option<String>)
    ensures
        opt_view(r) == lookup_last(rows_view(rows@), (entity_type@, label@)),
{
    let ghost key = (entity_type@, label@);
    let mut j: usize = rows.len();
    assert(rows_view(rows@).take(j as int) =~= rows_view(rows@));
    while j > 0
        invariant
            j <= rows.len(),
            key == (entity_type@, label@),
            lookup_last(rows_view(rows@).take(j as int), key) == lookup_last(rows_view(rows@), key),
        decreases j,
    {
        let ghost t = rows_view(rows@).take(j as int);
        assert(t.last() == row_view(rows@[j - 1]));
        assert(t.drop_last() =~= rows_view(rows@).take(j - 1));
        if rows[j - 1].entity_type == *entity_type && rows[j - 1].label == *label {
            return Some(rows[j - 1].id.clone());
        }
        j -= 1;
    }
    None
}

/// Plans how a plugin's output joins the graph. `source` is the entity the
/// plugin ran on; `existing[i]` is the id the graph held, before the run,
/// for the type and label of reported entity `i`, if any.
///
/// A reported entity resolves to the existing id of its key; otherwise to
/// the entity created for the first reported entity of its key, which is
/// new and carries that reported entity's properties. The relationships
/// are those reported relationships whose two ends resolve, through a table
/// holding the source entity's key and then every reported key (a later
/// row winning), each a fresh relationship between the resolved ids.
pub fn plan_merge(source: &Entity, output: &PluginOutput, existing: &Vec<Option<String>>) -> (plan:
    MergePlan)
    requires
        existing.len() == output.entities.len(),
        forall|i: int|
            0 <= i < output.entities.len() ==> keys_distinct(
                props_view(#[trigger] output.entities@[i].properties@),
            ),
    ensures
        ({
            let keys = keys_of(output.entities@);
            let ex = opts_view(existing@);
            let cl = created_list(keys, ex, output.entities@.len() as int);
            let ids = plan.partial_ids@;
            &&& ids.len() == output.entities@.len()
            &&& forall|i: int| 0 <= i < ids.len() && #[trigger] ex[i] is Some ==> ids[i]@ == ex[i]->0
            &&& forall|i: int, j: int|
                0 <= j < i < ids.len() && keys[j] == keys[i] && ex[i] is None && ex[j] is None
                    ==> #[trigger] ids[i]@ == #[trigger] ids[j]@
            &&& plan.new_entities@.len() == cl.len()
            &&& forall|k: int|
                0 <= k < plan.new_entities@.len() ==> {
                    let i = cl[k];
                    let e = #[trigger] plan.new_entities@[k];
                    &&& e.entity_type@ == keys[i].0
                    &&& e.label@ == keys[i].1
                    &&& props_view(e.properties@) == props_view(output.entities@[i].properties@)
                    &&& e.id@ == ids[i]@
                    &&& is_uuid_v4_entity(e)
                    &&& e.created_at@ == e.updated_at@
                    &&& e.wf()
                }
            &&& rels_view(plan.relationships@) == planned_links(
                id_pairs(
                    (source.entity_type@, source.label@),
                    source.id@,
                    keys,
                    ids.map_values(|s: String| s@),
                ),
                output.relationships@,
            )
            &&& forall|k: int| 0 <= k < plan.relationships@.len() ==> fresh_rel(#[trigger] plan.relationships@[k])
        }),
{
    let (news, ids) = resolve_partials(&output.entities, existing);
    let ghost keys = keys_of(output.entities@);
    let ghost pairs = id_pairs(
        (source.entity_type@, source.label@),
        source.id@,
        keys,
        ids@.map_values(|s: String| s@),
    );
    let mut rows: Vec<IdRow> = Vec::new();
    rows.push(IdRow {
        entity_type: source.entity_type.clone(),
        label: source.label.clone(),
        id: source.id.clone(),
    });
    let mut i: usize = 0;
    assert(rows_view(rows@) =~= pairs.take(1));
    while i < output.entities.len()
        invariant
            i <= output.entities.len(),
            ids@.len() == output.entities.len(),
            keys == keys_of(output.entities@),
            pairs == id_pairs(
                (source.entity_type@, source.label@),
                source.id@,
                keys,
                ids@.map_values(|s: String| s@),
            ),
            rows_view(rows@) == pairs.take(i + 1),
        decreases output.entities.len() - i,
    {
        let p = &output.entities[i];
        let row = IdRow {
            entity_type: p.entity_type.clone(),
            label: p.label.clone(),
            id: ids[i].clone(),
        };
        let ghost rows0 = rows@;
        rows.push(row);
        assert(keys[i as int] == pkey(output.entities@[i as int]));
        assert(ids@.map_values(|s: String| s@)[i as int] == ids@[i as int]@);
        assert(pairs.len() == output.entities.len() + 1);
        assert(pairs[i + 1] == (keys[i as int], ids@[i as int]@));
        assert(rows_view(rows@) =~= rows_view(rows0).push(row_view(row)));
        assert(rows_view(rows@) =~= pairs.take(i + 2));
        i += 1;
    }
    assert(rows_view(rows@) =~= pairs);
    let rels = &output.relationships;
    let mut out: Vec<Relationship> = Vec::new();
    let mut k: usize = 0;
    assert(rels@.take(0) =~= Seq::<PartialRelationship>::empty());
    assert(rels_view(out@) =~= Seq::empty());
    while k < rels.len()
        invariant
            k <= rels.len(),
            rows_view(rows@) == pairs,
            rels_view(out@) == planned_links(pairs, rels@.take(k as int)),
            forall|m: int| 0 <= m < out@.len() ==> fresh_rel(#[trigger] out@[m]),
        decreases rels.len() - k,
    {
        let r = &rels[k];
        assert(rels@.take(k + 1).drop_last() =~= rels@.take(k as int));
        assert(rels@.take(k + 1).last() == rels@[k as int]);
        let s = lookup_row(&rows, &r.source_type, &r.source_label);
        let t = lookup_row(&rows, &r.target_type, &r.target_label);
        match (s, t) {
            (Some(s), Some(t)) => {
                let rel = Relationship::new(r.rel_type.as_str(), s.as_str(), t.as_str());
                let ghost out0 = out@;
                out.push(rel);
                assert(rels_view(out@) =~= rels_view(out0).push(rel_view(rel)));
            },
            _ => {},
        }
        k += 1;
    }
    assert(rels@.take(k as int) =~= rels@);
    MergePlan { new_entities: news, partial_ids: ids, relationships: out }
}

/// When every reported key already has an entity, nothing is created: a
/// plugin run repeated on an unchanged graph adds no entities.
pub proof fn lemma_no_creation_when_all_exist(
    keys: Seq<(Seq<char>, Seq<char>)>,
    existing: Seq<Option<Seq<char>>>,
    n: int,
)
    requires
        0 <= n <= existing.len(),
        forall|i: int| 0 <= i < n ==> (#[trigger] existing[i]) is Some,
    ensures
        created_list(keys, existing, n).len() == 0,
    decreases n,
{
    if n > 0 {
        lemma_no_creation_when_all_exist(keys, existing, n - 1);
        assert(existing[n - 1] is Some);
    }
}

/// A key found in the table maps to one of the table's ids.
proof fn lemma_lookup_in_table(pairs: Seq<((Seq<char>, Seq<char>), Seq<char>)>, key: (Seq<char>, Seq<char>))
    ensures
        lookup_last(pairs, key) matches Some(id) ==> exists|i: int|
            0 <= i < pairs.len() && (#[trigger] pairs[i]) == (key, id),
    decreases pairs.len(),
{
    if pairs.len() > 0 && pairs.last().0 != key {
        lemma_lookup_in_table(pairs.drop_last(), key);
        if let Some(id) = lookup_last(pairs, key) {
            let i = choose|i: int| 0 <= i < pairs.drop_last().len() && (#[trigger] pairs.drop_last()[i]) == (key, id);
            assert(pairs[i] == pairs.drop_last()[i]);
        }
    } else if pairs.len() > 0 {
        assert(pairs[pairs.len() - 1] == (key, pairs.last().1));
    }
}

/// Every planned relationship joins two ids of the table, each stored
/// there under the type and label the plugin named for that end.
pub proof fn lemma_links_join_table_ids(
    pairs: Seq<((Seq<char>, Seq<char>), Seq<char>)>,
    rels: Seq<PartialRelationship>,
)
    ensures
        forall|k: int|
            0 <= k < planned_links(pairs, rels).len() ==> {
                let l = #[trigger] planned_links(pairs, rels)[k];
                &&& exists|i: int| 0 <= i < pairs.len() && pairs[i].1 == l.1
                &&& exists|i: int| 0 <= i < pairs.len() && pairs[i].1 == l.2
            },
    decreases rels.len(),
{
    if rels.len() > 0 {
        lemma_links_join_table_ids(pairs, rels.drop_last());
        let prev = planned_links(pairs, rels.drop_last());
        let cur = planned_links(pairs, rels);
        let r = rels.last();
        let sk = (r.source_type@, r.source_label@);
        let tk = (r.target_type@, r.target_label@);
        lemma_lookup_in_table(pairs, sk);
        lemma_lookup_in_table(pairs, tk);
        assert forall|k: int| 0 <= k < cur.len() implies {
            let l = #[trigger] cur[k];
            &&& exists|i: int| 0 <= i < pairs.len() && pairs[i].1 == l.1
            &&& exists|i: int| 0 <= i < pairs.len() && pairs[i].1 == l.2
        } by {
            if k < prev.len() {
                assert(cur[k] == prev[k]);
            } else {
                let s = lookup_last(pairs, sk)->0;
                let t = lookup_last(pairs, tk)->0;
                let i = choose|i: int| 0 <= i < pairs.len() && (#[trigger] pairs[i]) == (sk, s);
                let j = choose|j: int| 0 <= j < pairs.len() && (#[trigger] pairs[j]) == (tk, t);
                assert(pairs[i].1 == cur[k].1);
                assert(pairs[j].1 == cur[k].2);
            }
        }
    }
}

/// The (type, label) key of an entity.
pub open spec fn ekey(e: Entity) -> (Seq<char>, Seq<char>) {
    (e.entity_type@, e.label@)
}

/// Entity `i` is inserted: no entity of its key was present, and no earlier
/// entity of its key is inserted.
pub open spec fn inserts(keys: Seq<(Seq<char>, Seq<char>)>, present: Seq<bool>, i: int) -> bool {
    &&& !present[i]
    &&& forall|j: int| 0 <= j < i && keys[j] == keys[i] ==> present[j]
}

/// The inserted positions among the first `n`, in order.
pub open spec fn insert_list(keys: Seq<(Seq<char>, Seq<char>)>, present: Seq<bool>, n: int) -> Seq<int>
    decreases n,
{
    if n <= 0 {
        seq![]
    } else {
        let p = insert_list(keys, present, n - 1);
        if inserts(keys, present, n - 1) {
            p.push(n - 1)
        } else {
            p
        }
    }
}

fn same_entity_key(a: &Entity, b: &Entity) -> (r: bool)
    ensures
        r == (ekey(*a) == ekey(*b)),
{
    a.entity_type == b.entity_type && a.label == b.label
}

/// The positions of the extracted entities to insert, given whether the
/// graph held an entity of the same type and label before (`present`).
pub fn entities_to_insert(entities: &Vec<Entity>, present: &Vec<bool>) -> (r: Vec<usize>)
    requires
        present.len() == entities.len(),
    ensures
        r@.map_values(|x: usize| x as int) == insert_list(
            entities@.map_values(|e: Entity| ekey(e)),
            present@,
            entities@.len() as int,
        ),
{
    let ghost keys = entities@.map_values(|e: Entity| ekey(e));
    let mut out: Vec<usize> = Vec::new();
    let mut i: usize = 0;
    assert(out@.map_values(|x: usize| x as int) =~= Seq::<int>::empty());
    while i < entities.len()
        invariant
            i <= entities.len(),
            present.len() == entities.len(),
            keys == entities@.map_values(|e: Entity| ekey(e)),
            out@.map_values(|x: usize| x as int) == insert_list(keys, present@, i as int),
        decreases entities.len() - i,
    {
        let mut take = !present[i];
        let mut j: usize = 0;
        while j < i
            invariant
                j <= i < entities.len(),
                present.len() == entities.len(),
                keys == entities@.map_values(|e: Entity| ekey(e)),
                take == (!present@[i as int] && forall|b: int| 0 <= b < j && keys[b] == keys[i as int] ==> present@[b]),
            decreases i - j,
        {
            assert(keys[j as int] == ekey(entities@[j as int]));
            assert(keys[i as int] == ekey(entities@[i as int]));
            if !present[j] && same_entity_key(&entities[j], &entities[i]) {
                take = false;
            }
            j += 1;
        }
        let ghost before = out@;
        if take {
            out.push(i);
            assert(out@.map_values(|x: usize| x as int) =~= before.map_values(|x: usize| x as int).push(i as int));
        }
        i += 1;
    }
    out
}

/// A plugin run creates at most one entity per (type, label), and only for
/// keys the graph did not hold.
pub proof fn lemma_created_keys_distinct(
    keys: Seq<(Seq<char>, Seq<char>)>,
    existing: Seq<Option<Seq<char>>>,
    n: int,
)
    requires
        0 <= n <= keys.len(),
        n <= existing.len(),
    ensures
        forall|k: int|
            0 <= k < created_list(keys, existing, n).len() ==> existing[#[trigger] created_list(
                keys,
                existing,
                n,
            )[k]] is None,
        forall|a: int, b: int|
            0 <= a < b < created_list(keys, existing, n).len() ==> keys[#[trigger] created_list(
                keys,
                existing,
                n,
            )[a]] != keys[#[trigger] created_list(keys, existing, n)[b]],
    decreases n,
{
    if n > 0 {
        lemma_created_keys_distinct(keys, existing, n - 1);
        lemma_created_list_bounds(keys, existing, n - 1);
        let p = created_list(keys, existing, n - 1);
        let c = created_list(keys, existing, n);
        assert forall|k: int| 0 <= k < c.len() implies existing[#[trigger] c[k]] is None by {
            if k < p.len() {
                assert(c[k] == p[k]);
            }
        }
        assert forall|a: int, b: int| 0 <= a < b < c.len() implies keys[#[trigger] c[a]] != keys[#[trigger] c[b]] by {
            assert(c[a] == p[a]);
            if b < p.len() {
                assert(c[b] == p[b]);
            } else {
                assert(c[b] == n - 1);
                assert(existing[p[a]] is None);
                assert(0 <= p[a] < n - 1);
            }
        }
    }
}

proof fn lemma_insert_list_bounds(keys: Seq<(Seq<char>, Seq<char>)>, present: Seq<bool>, n: int)
    ensures
        forall|k: int|
            0 <= k < insert_list(keys, present, n).len() ==> 0 <= #[trigger] insert_list(
                keys,
                present,
                n,
            )[k] < n,
    decreases n,
{
    if n > 0 {
        lemma_insert_list_bounds(keys, present, n - 1);
        let p = insert_list(keys, present, n - 1);
        let c = insert_list(keys, present, n);
        assert forall|k: int| 0 <= k < c.len() implies 0 <= #[trigger] c[k] < n by {
            if k < p.len() {
                assert(c[k] == p[k]);
            }
        }
    }
}

/// Extraction never inserts two entities of the same type and label, nor
/// one whose type and label the graph already held.
pub proof fn lemma_inserted_keys_distinct(keys: Seq<(Seq<char>, Seq<char>)>, present: Seq<bool>, n: int)
    requires
        0 <= n <= keys.len(),
        n <= present.len(),
    ensures
        forall|k: int|
            0 <= k < insert_list(keys, present, n).len() ==> !present[#[trigger] insert_list(
                keys,
                present,
                n,
            )[k]],
        forall|a: int, b: int|
            0 <= a < b < insert_list(keys, present, n).len() ==> keys[#[trigger] insert_list(
                keys,
                present,
                n,
            )[a]] != keys[#[trigger] insert_list(keys, present, n)[b]],
    decreases n,
{
    if n > 0 {
        lemma_inserted_keys_distinct(keys, present, n - 1);
        lemma_insert_list_bounds(keys, present, n - 1);
        let p = insert_list(keys, present, n - 1);
        let c = insert_list(keys, present, n);
        assert forall|k: int| 0 <= k < c.len() implies !present[#[trigger] c[k]] by {
            if k < p.len() {
                assert(c[k] == p[k]);
            }
        }
        assert forall|a: int, b: int| 0 <= a < b < c.len() implies keys[#[trigger] c[a]] != keys[#[trigger] c[b]] by {
            assert(c[a] == p[a]);
            if b < p.len() {
                assert(c[b] == p[b]);
            } else {
                assert(c[b] == n - 1);
                assert(!present[p[a]]);
                assert(0 <= p[a] < n - 1);
            }
        }
    }
}

/// Whether the graph holds an entity of key `i` after a run over the first
/// `n` entities: it held one before, or the run inserted one of that key.
pub open spec fn present_after(keys: Seq<(Seq<char>, Seq<char>)>, present: Seq<bool>, n: int) -> Seq<bool> {
    Seq::new(
        present.len(),
        |i: int| present[i] || exists|j: int| 0 <= j < n && inserts(keys, present, j) && #[trigger] keys[j] == keys[i],
    )
}

/// A key the graph lacked is inserted at its first occurrence.
proof fn lemma_lacking_key_inserted(keys: Seq<(Seq<char>, Seq<char>)>, present: Seq<bool>, i: int)
    requires
        0 <= i < keys.len(),
        i < present.len(),
        !present[i],
    ensures
        exists|j: int| 0 <= j <= i && inserts(keys, present, j) && #[trigger] keys[j] == keys[i],
    decreases i,
{
    if inserts(keys, present, i) {
        assert(keys[i] == keys[i]);
    } else {
        let j = choose|j: int| 0 <= j < i && keys[j] == keys[i] && !present[j];
        lemma_lacking_key_inserted(keys, present, j);
        let j2 = choose|j2: int| 0 <= j2 <= j && inserts(keys, present, j2) && #[trigger] keys[j2] == keys[j];
        assert(keys[j2] == keys[i]);
    }
}

/// An inserted position appears in the list of inserted positions.
proof fn lemma_insert_list_has(keys: Seq<(Seq<char>, Seq<char>)>, present: Seq<bool>, n: int, j: int)
    requires
        0 <= j < n,
        inserts(keys, present, j),
    ensures
        exists|k: int| 0 <= k < insert_list(keys, present, n).len() && #[trigger] insert_list(keys, present, n)[k] == j,
    decreases n,
{
    let c = insert_list(keys, present, n);
    if j == n - 1 {
        assert(c[c.len() - 1] == j);
    } else {
        lemma_insert_list_has(keys, present, n - 1, j);
        let p = insert_list(keys, present, n - 1);
        let k = choose|k: int| 0 <= k < p.len() && #[trigger] p[k] == j;
        assert(c[k] == p[k]);
    }
}

/// Nothing is inserted when no position inserts.
proof fn lemma_insert_list_empty(keys: Seq<(Seq<char>, Seq<char>)>, present: Seq<bool>, n: int)
    requires
        forall|i: int| 0 <= i < n ==> !inserts(keys, present, i),
    ensures
        insert_list(keys, present, n).len() == 0,
    decreases n,
{
    if n > 0 {
        lemma_insert_list_empty(keys, present, n - 1);
    }
}

/// Importing the same extraction twice: the first run inserts an entity
/// for every type and label the graph lacked (each once, by
/// `lemma_inserted_keys_distinct`), and a second run over the graph the
/// first one left inserts nothing.
pub proof fn lemma_second_extraction_inserts_nothing(
    keys: Seq<(Seq<char>, Seq<char>)>,
    present: Seq<bool>,
    n: int,
)
    requires
        0 <= n <= keys.len(),
        n <= present.len(),
    ensures
        forall|i: int|
            0 <= i < n && !present[i] ==> exists|k: int|
                0 <= k < insert_list(keys, present, n).len() && keys[#[trigger] insert_list(keys, present, n)[k]]
                    == keys[i],
        forall|i: int| 0 <= i < n ==> #[trigger] present_after(keys, present, n)[i],
        insert_list(keys, present_after(keys, present, n), n).len() == 0,
{
    let after = present_after(keys, present, n);
    let c = insert_list(keys, present, n);
    assert forall|i: int| 0 <= i < n && !present[i] implies exists|k: int|
        0 <= k < c.len() && keys[#[trigger] c[k]] == keys[i] by {
        lemma_lacking_key_inserted(keys, present, i);
        let j = choose|j: int| 0 <= j <= i && inserts(keys, present, j) && #[trigger] keys[j] == keys[i];
        lemma_insert_list_has(keys, present, n, j);
        let k = choose|k: int| 0 <= k < c.len() && #[trigger] c[k] == j;
        assert(keys[c[k]] == keys[i]);
    }
    assert forall|i: int| 0 <= i < n implies #[trigger] after[i] by {
        if !present[i] {
            lemma_lacking_key_inserted(keys, present, i);
            let j = choose|j: int| 0 <= j <= i && inserts(keys, present, j) && #[trigger] keys[j] == keys[i];
            assert(0 <= j < n && inserts(keys, present, j) && keys[j] == keys[i]);
        }
    }
    assert forall|i: int| 0 <= i < n implies !inserts(keys, after, i) by {
        assert(after[i]);
    }
    lemma_insert_list_empty(keys, after, n);
}

/// The id table answers a key with the id of its last row, and with
/// nothing exactly when no row has that key.
pub proof fn lemma_lookup_last_is_last_row(
    pairs: Seq<((Seq<char>, Seq<char>), Seq<char>)>,
    key: (Seq<char>, Seq<char>),
)
    ensures
        lookup_last(pairs, key) is None <==> forall|i: int| 0 <= i < pairs.len() ==> (#[trigger] pairs[i]).0 != key,
        lookup_last(pairs, key) matches Some(id) ==> exists|i: int|
            0 <= i < pairs.len() && #[trigger] pairs[i] == (key, id) && forall|j: int|
                i < j < pairs.len() ==> (#[trigger] pairs[j]).0 != key,
    decreases pairs.len(),
{
    if pairs.len() > 0 {
        let d = pairs.drop_last();
        lemma_lookup_last_is_last_row(d, key);
        assert forall|i: int| 0 <= i < d.len() implies d[i] == pairs[i] by {}
        let n = pairs.len() - 1;
        if pairs.last().0 == key {
            assert(pairs[n] == (key, pairs.last().1));
            assert(pairs[n].0 == key);
        } else {
            if let Some(id) = lookup_last(pairs, key) {
                let i = choose|i: int|
                    0 <= i < d.len() && #[trigger] d[i] == (key, id) && forall|j: int|
                        i < j < d.len() ==> (#[trigger] d[j]).0 != key;
                assert(pairs[i] == (key, id));
                assert forall|j: int| i < j < pairs.len() implies (#[trigger] pairs[j]).0 != key by {
                    if j < n {
                        assert(pairs[j] == d[j]);
                    }
                }
            }
            assert((forall|i: int| 0 <= i < pairs.len() ==> (#[trigger] pairs[i]).0 != key) <==> (forall|i: int|
                0 <= i < d.len() ==> (#[trigger] d[i]).0 != key)) by {
                if forall|i: int| 0 <= i < d.len() ==> (#[trigger] d[i]).0 != key {
                    assert forall|i: int| 0 <= i < pairs.len() implies (#[trigger] pairs[i]).0 != key by {
                        if i < n {
                            assert(pairs[i] == d[i]);
                        }
                    }
                }
            }
        }
    }
}

/// Each reported relationship is judged on its own two ends: the links
/// planned for two runs of reported relationships one after the other are
/// the links of the first followed by the links of the second.
pub proof fn lemma_planned_links_append(
    pairs: Seq<((Seq<char>, Seq<char>), Seq<char>)>,
    a: Seq<PartialRelationship>,
    b: Seq<PartialRelationship>,
)
    ensures
        planned_links(pairs, a + b) == planned_links(pairs, a) + planned_links(pairs, b),
    decreases b.len(),
{
    if b.len() == 0 {
        assert(a + b =~= a);
        assert(planned_links(pairs, a) + planned_links(pairs, b) =~= planned_links(pairs, a));
    } else {
        lemma_planned_links_append(pairs, a, b.drop_last());
        assert((a + b).drop_last() =~= a + b.drop_last());
        assert((a + b).last() == b.last());
        let pa = planned_links(pairs, a);
        let pb = planned_links(pairs, b.drop_last());
        let r = b.last();
        match (
            lookup_last(pairs, (r.source_type@, r.source_label@)),
            lookup_last(pairs, (r.target_type@, r.target_label@)),
        ) {
            (Some(s), Some(t)) => {
                assert((pa + pb).push((r.rel_type@, s, t)) =~= pa + pb.push((r.rel_type@, s, t)));
            },
            _ => {},
        }
    }
}

/// One reported relationship gives one link, between the ids its source
/// and target keys resolve to, when both resolve, and none otherwise.
pub proof fn lemma_planned_link_single(
    pairs: Seq<((Seq<char>, Seq<char>), Seq<char>)>,
    r: PartialRelationship,
)
    ensures
        planned_links(pairs, seq![r]) == match (
            lookup_last(pairs, (r.source_type@, r.source_label@)),
            lookup_last(pairs, (r.target_type@, r.target_label@)),
        ) {
            (Some(s), Some(t)) => seq![(r.rel_type@, s, t)],
            _ => Seq::<(Seq<char>, Seq<char>, Seq<char>)>::empty(),
        },
{
    assert(seq![r].drop_last() =~= Seq::<PartialRelationship>::empty());
    assert(seq![r].last() == r);
    let e = Seq::<(Seq<char>, Seq<char>, Seq<char>)>::empty();
    assert(planned_links(pairs, Seq::<PartialRelationship>::empty()) == e);
    match (
        lookup_last(pairs, (r.source_type@, r.source_label@)),
        lookup_last(pairs, (r.target_type@, r.target_label@)),
    ) {
        (Some(s), Some(t)) => {
            assert(e.push((r.rel_type@, s, t)) =~= seq![(r.rel_type@, s, t)]);
        },
        _ => {},
    }
}

} // verus!
