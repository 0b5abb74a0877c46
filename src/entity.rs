use vstd::prelude::*;

verus! {

/// A participant record: `id` is the identity that owns it, `name` its display name.
#[derive(Debug, Clone, PartialEq, Eq)]
pub struct Entity {
    pub id: String,
    pub name: String,
}

/// The mathematical value of an [`Entity`].
pub ghost struct EntityView {
    pub id: Seq<char>,
    pub name: Seq<char>,
}

impl View for Entity {
    type V = EntityView;

    open spec fn view(&self) -> EntityView {
        EntityView { id: self.id@, name: self.name@ }
    }
}

/// The views of a sequence of entities, in order.
pub open spec fn entity_views(es: Seq<Entity>) -> Seq<EntityView> {
    es.map_values(|e: Entity| e@)
}

/// The view of one stored record: `None` stands for a record that could not be decoded.
pub open spec fn record_view(r: Option<Entity>) -> Option<EntityView> {
    match r {
        Some(e) => Some(e@),
        None => None,
    }
}

/// The views of a sequence of stored records, in order.
pub open spec fn record_views(rs: Seq<Option<Entity>>) -> Seq<Option<EntityView>> {
    rs.map_values(|r: Option<Entity>| record_view(r))
}

impl Entity {
    pub fn new(id: String, name: String) -> (r: Entity)
        ensures
            r.id@ == id@,
            r.name@ == name@,
    {
        Entity { id, name }
    }

    /// A copy with the same identity and name.
    pub fn duplicate(&self) -> (r: Entity)
        ensures
            r@ == self@,
    {
        Entity { id: self.id.clone(), name: self.name.clone() }
    }
}

} // verus!
