//! Entities and relationships of a case graph, with their properties.

use vstd::prelude::*;
use crate::ids::{is_uuid_v4, new_uuid_string, now_rfc3339};
use crate::text::concatenate;

verus! {

/// A property value: a JSON string, or any other JSON value kept as its
/// JSON text.
#[derive(Debug)]
pub enum PropertyValue {
    Text(String),
    Json(String),
}

/// The mathematical value of a property.
pub enum PropertyValueView {
    Text(Seq<char>),
    Json(Seq<char>),
}

impl View for PropertyValue {
    type V = PropertyValueView;

    open spec fn view(&self) -> PropertyValueView {
        match self {
            PropertyValue::Text(s) => PropertyValueView::Text(s@),
            PropertyValue::Json(s) => PropertyValueView::Json(s@),
        }
    }
}

impl PropertyValue {
    /// A copy with the same value.
    pub fn duplicate(&self) -> (r: PropertyValue)
        ensures
            r@ == self@,
    {
        match self {
            PropertyValue::Text(s) => PropertyValue::Text(s.clone()),
            PropertyValue::Json(s) => PropertyValue::Json(s.clone()),
        }
    }
}

/// One named property of an entity or relationship.
#[derive(Debug)]
pub struct Property {
    pub key: String,
    pub value: PropertyValue,
}

impl View for Property {
    type V = (Seq<char>, PropertyValueView);

    open spec fn view(&self) -> (Seq<char>, PropertyValueView) {
        (self.key@, self.value@)
    }
}

impl Property {
    /// A copy with the same key and value.
    pub fn duplicate(&self) -> (r: Property)
        ensures
            r@ == self@,
    {
        Property { key: self.key.clone(), value: self.value.duplicate() }
    }
}

/// The key/value pairs of a property list.
pub open spec fn props_view(ps: Seq<Property>) -> Seq<(Seq<char>, PropertyValueView)> {
    ps.map_values(|p: Property| p@)
}

/// No key occurs twice.
pub open spec fn keys_distinct(ps: Seq<(Seq<char>, PropertyValueView)>) -> bool {
    forall|i: int, j: int| 0 <= i < j < ps.len() ==> #[trigger] ps[i].0 != #[trigger] ps[j].0
}

/// The key occurs in the list.
pub open spec fn has_key(ps: Seq<(Seq<char>, PropertyValueView)>, k: Seq<char>) -> bool {
    exists|i: int| 0 <= i < ps.len() && #[trigger] ps[i].0 == k
}

/// The position of a key that occurs in the list.
pub open spec fn key_pos(ps: Seq<(Seq<char>, PropertyValueView)>, k: Seq<char>) -> int {
    choose|i: int| 0 <= i < ps.len() && #[trigger] ps[i].0 == k
}

/// The value stored under a key, if any.
pub open spec fn prop_get(ps: Seq<(Seq<char>, PropertyValueView)>, k: Seq<char>) -> Option<
    PropertyValueView,
> {
    if has_key(ps, k) {
        Some(ps[key_pos(ps, k)].1)
    } else {
        None
    }
}

/// Inserting a key/value pair: replaces the value of an existing key in
/// place, or appends a new pair.
pub open spec fn prop_set(
    ps: Seq<(Seq<char>, PropertyValueView)>,
    k: Seq<char>,
    v: PropertyValueView,
) -> Seq<(Seq<char>, PropertyValueView)> {
    if has_key(ps, k) {
        ps.update(key_pos(ps, k), (k, v))
    } else {
        ps.push((k, v))
    }
}

/// Inserting every pair of `extra`, in order.
pub open spec fn prop_merge(
    ps: Seq<(Seq<char>, PropertyValueView)>,
    extra: Seq<(Seq<char>, PropertyValueView)>,
) -> Seq<(Seq<char>, PropertyValueView)>
    decreases extra.len(),
{
    if extra.len() == 0 {
        ps
    } else {
        let pre = prop_merge(ps, extra.drop_last());
        prop_set(pre, extra.last().0, extra.last().1)
    }
}

/// Inserting keeps keys distinct.
pub proof fn lemma_prop_set_distinct(
    ps: Seq<(Seq<char>, PropertyValueView)>,
    k: Seq<char>,
    v: PropertyValueView,
)
    requires
        keys_distinct(ps),
    ensures
        keys_distinct(prop_set(ps, k, v)),
{
    let r = prop_set(ps, k, v);
    if has_key(ps, k) {
        let p = key_pos(ps, k);
        assert forall|i: int, j: int| 0 <= i < j < r.len() implies #[trigger] r[i].0
            != #[trigger] r[j].0 by {
            assert(r[i].0 == ps[i].0);
            assert(r[j].0 == ps[j].0);
        }
    } else {
        assert forall|i: int, j: int| 0 <= i < j < r.len() implies #[trigger] r[i].0
            != #[trigger] r[j].0 by {
            if j == ps.len() {
                assert(ps[i].0 != k);
            }
        }
    }
}

/// Read after write: the key just written reads back its value, and every
/// other key reads as before.
pub proof fn lemma_prop_get_after_set(
    ps: Seq<(Seq<char>, PropertyValueView)>,
    k: Seq<char>,
    v: PropertyValueView,
    other: Seq<char>,
)
    requires
        keys_distinct(ps),
    ensures
        prop_get(prop_set(ps, k, v), k) == Some(v),
        other != k ==> prop_get(prop_set(ps, k, v), other) == prop_get(ps, other),
{
    let r = prop_set(ps, k, v);
    lemma_prop_set_distinct(ps, k, v);
    if has_key(ps, k) {
        let p = key_pos(ps, k);
        assert(r[p].0 == k);
        assert(has_key(r, k));
        assert(key_pos(r, k) == p);
        if other != k {
            if has_key(ps, other) {
                let q = key_pos(ps, other);
                assert(r[q].0 == other);
                assert(key_pos(r, other) == q);
            } else {
                assert forall|i: int| 0 <= i < r.len() implies #[trigger] r[i].0 != other by {
                    if i != p {
                        assert(r[i] == ps[i]);
                    }
                }
            }
        }
    } else {
        let n = ps.len() as int;
        assert(r[n].0 == k);
        assert(has_key(r, k));
        assert(key_pos(r, k) == n);
        if other != k {
            if has_key(ps, other) {
                let q = key_pos(ps, other);
                assert(r[q].0 == other);
                assert(key_pos(r, other) == q);
            } else {
                assert forall|i: int| 0 <= i < r.len() implies #[trigger] r[i].0 != other by {
                    if i < n {
                        assert(r[i] == ps[i]);
                    }
                }
            }
        }
    }
}

/// Writing a key twice leaves what writing the second value alone leaves:
/// the later write wins, and the list keeps its order and length.
pub proof fn lemma_prop_set_twice(
    ps: Seq<(Seq<char>, PropertyValueView)>,
    k: Seq<char>,
    v1: PropertyValueView,
    v2: PropertyValueView,
)
    requires
        keys_distinct(ps),
    ensures
        prop_set(prop_set(ps, k, v1), k, v2) == prop_set(ps, k, v2),
{
    let r = prop_set(ps, k, v1);
    lemma_prop_set_distinct(ps, k, v1);
    if has_key(ps, k) {
        let p = key_pos(ps, k);
        assert(r[p].0 == k);
        assert(has_key(r, k));
        assert(key_pos(r, k) == p);
        assert(r.update(p, (k, v2)) =~= ps.update(p, (k, v2)));
    } else {
        let n = ps.len() as int;
        assert(r[n].0 == k);
        assert(has_key(r, k));
        assert(key_pos(r, k) == n);
        assert(r.update(n, (k, v2)) =~= ps.push((k, v2)));
    }
}

/// Merging keeps keys distinct.
pub proof fn lemma_prop_merge_distinct(
    ps: Seq<(Seq<char>, PropertyValueView)>,
    extra: Seq<(Seq<char>, PropertyValueView)>,
)
    requires
        keys_distinct(ps),
    ensures
        keys_distinct(prop_merge(ps, extra)),
    decreases extra.len(),
{
    if extra.len() > 0 {
        lemma_prop_merge_distinct(ps, extra.drop_last());
        lemma_prop_set_distinct(prop_merge(ps, extra.drop_last()), extra.last().0, extra.last().1);
    }
}

/// Sets `key` to `value` in a property list (`HashMap::insert`).
pub fn set_property(props: &mut Vec<Property>, key: String, value: PropertyValue)
    requires
        keys_distinct(props_view(old(props)@)),
    ensures
        props_view(final(props)@) == prop_set(props_view(old(props)@), key@, value@),
        keys_distinct(props_view(final(props)@)),
{
    let ghost pv = props_view(props@);
    proof {
        lemma_prop_set_distinct(pv, key@, value@);
    }
    let mut i: usize = 0;
    while i < props.len()
        invariant
            i <= props.len(),
            props_view(props@) == pv,
            pv == props_view(old(props)@),
            keys_distinct(pv),
            forall|j: int| 0 <= j < i ==> pv[j].0 != key@,
        decreases props.len() - i,
    {
        if props[i].key == key {
            assert(pv[i as int].0 == key@);
            assert(has_key(pv, key@));
            assert(key_pos(pv, key@) == i);
            let ghost kv = key@;
            let ghost vv = value@;
            props.set(i, Property { key, value });
            assert(props_view(props@) =~= pv.update(i as int, (kv, vv)));
            assert(props_view(props@) == prop_set(pv, kv, vv));
            return;
        }
        i += 1;
    }
    assert(!has_key(pv, key@));
    props.push(Property { key, value });
    assert(props_view(props@) =~= pv.push((key@, value@)));
}

/// Inserts every property of `extra` in order, later ones winning.
pub fn merge_properties(props: &mut Vec<Property>, extra: &Vec<Property>)
    requires
        keys_distinct(props_view(old(props)@)),
    ensures
        props_view(final(props)@) == prop_merge(props_view(old(props)@), props_view(extra@)),
        keys_distinct(props_view(final(props)@)),
{
    let ghost start = props_view(props@);
    let mut k: usize = 0;
    assert(props_view(extra@).take(0) =~= Seq::<(Seq<char>, PropertyValueView)>::empty());
    while k < extra.len()
        invariant
            k <= extra.len(),
            keys_distinct(start),
            keys_distinct(props_view(props@)),
            props_view(props@) == prop_merge(start, props_view(extra@).take(k as int)),
        decreases extra.len() - k,
    {
        let p = extra[k].duplicate();
        set_property(props, p.key, p.value);
        assert(props_view(extra@).take(k + 1).drop_last() =~= props_view(extra@).take(k as int));
        k += 1;
    }
    assert(props_view(extra@).take(k as int) =~= props_view(extra@));
}

/// Copies a property list.
pub fn copy_properties(props: &Vec<Property>) -> (r: Vec<Property>)
    ensures
        props_view(r@) == props_view(props@),
{
    let mut r: Vec<Property> = Vec::new();
    let mut k: usize = 0;
    while k < props.len()
        invariant
            k <= props.len(),
            props_view(r@) == props_view(props@).take(k as int),
        decreases props.len() - k,
    {
        let ghost before = r@;
        let p = props[k].duplicate();
        r.push(p);
        assert(r@ == before.push(p));
        assert(props_view(r@) =~= props_view(before).push(p@));
        assert(props_view(r@) =~= props_view(props@).take(k + 1));
        k += 1;
    }
    assert(props_view(props@).take(k as int) =~= props_view(props@));
    r
}

/// A node of the case graph.
#[derive(Debug)]
pub struct Entity {
    pub id: String,
    pub entity_type: String,
    pub label: String,
    pub properties: Vec<Property>,
    /// RFC 3339 time of creation.
    pub created_at: String,
    /// RFC 3339 time of the last change.
    pub updated_at: String,
}

impl Entity {
    /// Property keys are distinct.
    pub open spec fn wf(&self) -> bool {
        keys_distinct(props_view(self.properties@))
    }

    /// A new entity with a fresh random id, no properties, and equal creation
    /// and update times.
    pub fn new(entity_type: &str, label: &str) -> (e: Entity)
        ensures
            e.entity_type@ == entity_type@,
            e.label@ == label@,
            e.properties@.len() == 0,
            e.created_at@ == e.updated_at@,
            is_uuid_v4(e.id@),
            e.wf(),
    {
        let now = now_rfc3339();
        Entity {
            id: new_uuid_string(),
            entity_type: entity_type.to_owned(),
            label: label.to_owned(),
            properties: Vec::new(),
            created_at: now.clone(),
            updated_at: now,
        }
    }

    /// A copy with the same fields.
    pub fn duplicate(&self) -> (r: Entity)
        ensures
            r.id@ == self.id@,
            r.entity_type@ == self.entity_type@,
            r.label@ == self.label@,
            props_view(r.properties@) == props_view(self.properties@),
            r.created_at@ == self.created_at@,
            r.updated_at@ == self.updated_at@,
    {
        Entity {
            id: self.id.clone(),
            entity_type: self.entity_type.clone(),
            label: self.label.clone(),
            properties: copy_properties(&self.properties),
            created_at: self.created_at.clone(),
            updated_at: self.updated_at.clone(),
        }
    }

    /// An edit of an entity: a new label, the given properties inserted over
    /// the old ones, and a new update time. Id, type and creation time stay.
    pub fn apply_update(&mut self, label: String, props: &Vec<Property>, now: String)
        requires
            old(self).wf(),
        ensures
            final(self).wf(),
            final(self).id@ == old(self).id@,
            final(self).entity_type@ == old(self).entity_type@,
            final(self).created_at@ == old(self).created_at@,
            final(self).label@ == label@,
            final(self).updated_at@ == now@,
            props_view(final(self).properties@) == prop_merge(
                props_view(old(self).properties@),
                props_view(props@),
            ),
    {
        self.label = label;
        merge_properties(&mut self.properties, props);
        self.updated_at = now;
    }
}

/// The entity a create request ends with: the entity the graph already
/// holds for the type and label, unchanged, or else a new entity of that
/// type and label carrying the given properties. The flag tells whether it
/// is new and so still has to be stored.
pub fn get_or_create(entity_type: &str, label: &str, existing: Option<Entity>, props: &Vec<Property>) -> (r: (
    Entity,
    bool,
))
    ensures
        match existing {
            Some(e) => r.0 == e && !r.1,
            None => {
                &&& r.1
                &&& r.0.entity_type@ == entity_type@
                &&& r.0.label@ == label@
                &&& props_view(r.0.properties@) == prop_merge(seq![], props_view(props@))
                &&& is_uuid_v4(r.0.id@)
                &&& r.0.created_at@ == r.0.updated_at@
                &&& r.0.wf()
            },
        },
{
    match existing {
        Some(e) => (e, false),
        None => {
            let mut e = Entity::new(entity_type, label);
            assert(props_view(e.properties@) =~= seq![]);
            merge_properties(&mut e.properties, props);
            (e, true)
        },
    }
}

/// The entity's id is a version-4 UUID in hyphenated form.
pub open spec fn is_uuid_v4_entity(e: Entity) -> bool {
    is_uuid_v4(e.id@)
}

/// The id of the relationship `rel_type` from `source` to `target`.
pub open spec fn relationship_id(source: Seq<char>, rel_type: Seq<char>, target: Seq<char>) -> Seq<
    char,
> {
    source + seq!['-'] + rel_type + seq!['-'] + target
}

/// A directed, typed edge of the case graph.
#[derive(Debug)]
pub struct Relationship {
    pub id: String,
    pub rel_type: String,
    pub source_id: String,
    pub target_id: String,
    pub properties: Vec<Property>,
    /// RFC 3339 time of creation.
    pub created_at: String,
}

impl Relationship {
    /// Property keys are distinct.
    pub open spec fn wf(&self) -> bool {
        keys_distinct(props_view(self.properties@))
    }

    /// A new relationship; its id is `source-type-target`.
    pub fn new(rel_type: &str, source_id: &str, target_id: &str) -> (r: Relationship)
        ensures
            r.id@ == relationship_id(source_id@, rel_type@, target_id@),
            r.rel_type@ == rel_type@,
            r.source_id@ == source_id@,
            r.target_id@ == target_id@,
            r.properties@.len() == 0,
            r.wf(),
    {
        let a = concatenate(source_id, "-");
        let b = concatenate(a.as_str(), rel_type);
        let c = concatenate(b.as_str(), "-");
        let id = concatenate(c.as_str(), target_id);
        proof {
            reveal_strlit("-");
        }
        assert(id@ =~= relationship_id(source_id@, rel_type@, target_id@));
        Relationship {
            id,
            rel_type: rel_type.to_owned(),
            source_id: source_id.to_owned(),
            target_id: target_id.to_owned(),
            properties: Vec::new(),
            created_at: now_rfc3339(),
        }
    }
}

/// Entities and relationships produced together.
#[derive(Debug)]
pub struct TransformResult {
    pub entities: Vec<Entity>,
    pub relationships: Vec<Relationship>,
}

} // verus!
