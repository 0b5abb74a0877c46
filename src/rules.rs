use vstd::prelude::*;

use crate::entity::{entity_views, record_views, Entity, EntityView};
use crate::error::{QueueError, Violation};

verus! {

/// The store key of a queue: `"queue:"` followed by its identifier.
pub open spec fn key_of(queue: Seq<char>) -> Seq<char> {
    seq!['q', 'u', 'e', 'u', 'e', ':'] + queue
}

/// A caller identity that is present and not empty.
pub open spec fn is_authenticated(identity: Option<Seq<char>>) -> bool {
    identity is Some && identity->Some_0.len() > 0
}

/// The view of an optional identity.
pub open spec fn identity_view(identity: Option<String>) -> Option<Seq<char>> {
    match identity {
        Some(s) => Some(s@),
        None => None,
    }
}

/// How many of `es` carry the identity `caller`.
pub open spec fn owned_count(caller: Seq<char>, es: Seq<EntityView>) -> nat
    decreases es.len(),
{
    if es.len() == 0 {
        0
    } else {
        owned_count(caller, es.drop_last()) + if es.last().id == caller {
            1nat
        } else {
            0nat
        }
    }
}

/// `es` holds a record equal to `e` in both identity and name.
pub open spec fn contains_exact(es: Seq<EntityView>, e: EntityView) -> bool {
    exists|j: int| 0 <= j < es.len() && es[j] == e
}

/// `es` holds a record with identity `id`.
pub open spec fn contains_id(es: Seq<EntityView>, id: Seq<char>) -> bool {
    exists|j: int| 0 <= j < es.len() && es[j].id == id
}

/// Every submitted record of another identity was already present, unchanged.
pub open spec fn adds_only_own(
    caller: Seq<char>,
    submitted: Seq<EntityView>,
    existing: Seq<EntityView>,
) -> bool {
    forall|i: int|
        0 <= i < submitted.len() && submitted[i].id != caller ==> contains_exact(
            existing,
            #[trigger] submitted[i],
        )
}

/// Every existing record of another identity is still submitted.
pub open spec fn removes_only_own(
    caller: Seq<char>,
    submitted: Seq<EntityView>,
    existing: Seq<EntityView>,
) -> bool {
    forall|i: int|
        0 <= i < existing.len() && existing[i].id != caller ==> contains_id(
            submitted,
            #[trigger] existing[i].id,
        )
}

/// The verdict on a change from `existing` to `submitted` by `caller`, once the
/// caller is known to hold at most one submitted record.
pub open spec fn change_verdict(
    caller: Seq<char>,
    submitted: Seq<EntityView>,
    existing: Seq<EntityView>,
) -> Result<(), QueueError> {
    if !adds_only_own(caller, submitted, existing) {
        Err(QueueError::PermissionDenied(Violation::AddedOrModified))
    } else if !removes_only_own(caller, submitted, existing) {
        Err(QueueError::PermissionDenied(Violation::Removed))
    } else {
        Ok(())
    }
}

/// The verdict on a whole replace request, checked in order: identity, the
/// caller's own count, additions and changes, removals.
pub open spec fn set_verdict(
    identity: Option<Seq<char>>,
    submitted: Seq<EntityView>,
    existing: Seq<EntityView>,
) -> Result<(), QueueError> {
    if !is_authenticated(identity) {
        Err(QueueError::Unauthenticated)
    } else if owned_count(identity->Some_0, submitted) > 1 {
        Err(QueueError::InvalidArgument)
    } else {
        change_verdict(identity->Some_0, submitted, existing)
    }
}

/// The records that decode, in stored order; the others are dropped.
pub open spec fn readable(rs: Seq<Option<EntityView>>) -> Seq<EntityView>
    decreases rs.len(),
{
    if rs.len() == 0 {
        Seq::empty()
    } else {
        let init = readable(rs.drop_last());
        match rs.last() {
            Some(e) => init.push(e),
            None => init,
        }
    }
}

/// Every record of `es` decodes.
pub open spec fn all_readable(es: Seq<EntityView>) -> Seq<Option<EntityView>> {
    es.map_values(|e: EntityView| Some(e))
}

/// Builds the store key of `queue`.
pub fn queue_key(queue: String) -> (r: String)
    ensures
        r@ == key_of(queue@),
{
    let prefix = String::from_str("queue:");
    proof {
        reveal_strlit("queue:");
        assert(prefix@ =~= seq!['q', 'u', 'e', 'u', 'e', ':']);
    }
    prefix.concat(queue.as_str())
}

/// The caller identity, if it is present and not empty.
pub fn authenticate(identity: Option<String>) -> (r: Result<String, QueueError>)
    ensures
        is_authenticated(identity_view(identity)) ==> r is Ok && identity_view(identity)
            == Some(r->Ok_0@),
        !is_authenticated(identity_view(identity)) ==> r == Err::<String, QueueError>(
            QueueError::Unauthenticated,
        ),
{
    match identity {
        Some(s) => {
            if s.as_str().is_empty() {
                Err(QueueError::Unauthenticated)
            } else {
                Ok(s)
            }
        },
        None => Err(QueueError::Unauthenticated),
    }
}

/// Counts the entities that carry the identity `caller`.
pub fn count_owned(caller: &String, entities: &Vec<Entity>) -> (r: usize)
    ensures
        r == owned_count(caller@, entity_views(entities@)),
{
    let mut n: usize = 0;
    let mut i: usize = 0;
    while i < entities.len()
        invariant
            i <= entities.len(),
            n == owned_count(caller@, entity_views(entities@).take(i as int)),
            n <= i,
        decreases entities.len() - i,
    {
        proof {
            let vs = entity_views(entities@);
            assert(vs.take(i + 1).drop_last() =~= vs.take(i as int));
        }
        if entities[i].id == *caller {
            n = n + 1;
        }
        i = i + 1;
    }
    proof {
        assert(entity_views(entities@).take(i as int) =~= entity_views(entities@));
    }
    n
}

/// Rejects a submission in which the caller holds more than one record.
pub fn check_submission(caller: &String, submitted: &Vec<Entity>) -> (r: Result<(), QueueError>)
    ensures
        owned_count(caller@, entity_views(submitted@)) > 1 ==> r == Err::<(), QueueError>(
            QueueError::InvalidArgument,
        ),
        owned_count(caller@, entity_views(submitted@)) <= 1 ==> r is Ok,
{
    if count_owned(caller, submitted) > 1 {
        Err(QueueError::InvalidArgument)
    } else {
        Ok(())
    }
}

/// Whether `es` holds a record with the identity and name of `e`.
fn has_exact(es: &Vec<Entity>, e: &Entity) -> (r: bool)
    ensures
        r == contains_exact(entity_views(es@), e@),
{
    let mut i: usize = 0;
    while i < es.len()
        invariant
            i <= es.len(),
            forall|j: int| 0 <= j < i ==> entity_views(es@)[j] != e@,
        decreases es.len() - i,
    {
        if es[i].id == e.id && es[i].name == e.name {
            assert(entity_views(es@)[i as int] == e@);
            return true;
        }
        i = i + 1;
    }
    false
}

/// Whether `es` holds a record with identity `id`.
fn has_id(es: &Vec<Entity>, id: &String) -> (r: bool)
    ensures
        r == contains_id(entity_views(es@), id@),
{
    let mut i: usize = 0;
    while i < es.len()
        invariant
            i <= es.len(),
            forall|j: int| 0 <= j < i ==> entity_views(es@)[j].id != id@,
        decreases es.len() - i,
    {
        if es[i].id == *id {
            assert(entity_views(es@)[i as int].id == id@);
            return true;
        }
        i = i + 1;
    }
    false
}

/// Checks that replacing `existing` by `submitted` touches no record of an
/// identity other than `caller`: no foreign record is added, renamed or dropped.
pub fn check_changes(caller: &String, submitted: &Vec<Entity>, existing: &Vec<Entity>) -> (r:
    Result<(), QueueError>)
    ensures
        r == change_verdict(caller@, entity_views(submitted@), entity_views(existing@)),
{
    let ghost sv = entity_views(submitted@);
    let ghost ev = entity_views(existing@);
    let mut i: usize = 0;
    while i < submitted.len()
        invariant
            i <= submitted.len(),
            sv == entity_views(submitted@),
            ev == entity_views(existing@),
            forall|k: int| 0 <= k < i && sv[k].id != caller@ ==> contains_exact(ev, #[trigger] sv[k]),
        decreases submitted.len() - i,
    {
        let e = &submitted[i];
        if e.id != *caller {
            if !has_exact(existing, e) {
                assert(sv[i as int] == e@);
                return Err(QueueError::PermissionDenied(Violation::AddedOrModified));
            }
        }
        i = i + 1;
    }
    assert(adds_only_own(caller@, sv, ev));
    let mut j: usize = 0;
    while j < existing.len()
        invariant
            j <= existing.len(),
            sv == entity_views(submitted@),
            ev == entity_views(existing@),
            adds_only_own(caller@, sv, ev),
            forall|k: int| 0 <= k < j && ev[k].id != caller@ ==> contains_id(sv, #[trigger] ev[k].id),
        decreases existing.len() - j,
    {
        let x = &existing[j];
        if x.id != *caller {
            if !has_id(submitted, &x.id) {
                assert(ev[j as int].id == x.id@);
                return Err(QueueError::PermissionDenied(Violation::Removed));
            }
        }
        j = j + 1;
    }
    Ok(())
}

/// Keeps the records that decoded, in stored order, and drops the others.
pub fn keep_readable(records: Vec<Option<Entity>>) -> (r: Vec<Entity>)
    ensures
        entity_views(r@) == readable(record_views(records@)),
{
    let mut out: Vec<Entity> = Vec::new();
    let mut i: usize = 0;
    while i < records.len()
        invariant
            i <= records.len(),
            entity_views(out@) == readable(record_views(records@).take(i as int)),
        decreases records.len() - i,
    {
        proof {
            let rv = record_views(records@);
            assert(rv.take(i + 1).drop_last() =~= rv.take(i as int));
        }
        match &records[i] {
            Some(e) => {
                out.push(e.duplicate());
                proof {
                    assert(entity_views(out@) =~= readable(record_views(records@).take(i as int)).push(e@));
                }
            },
            None => {},
        }
        i = i + 1;
    }
    proof {
        assert(record_views(records@).take(i as int) =~= record_views(records@));
    }
    out
}

} // verus!
