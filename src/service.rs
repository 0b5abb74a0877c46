use vstd::prelude::*;

use crate::entity::{entity_views, record_view, record_views, Entity, EntityView};
use crate::error::QueueError;
use crate::rules::{
    all_readable, authenticate, check_changes, check_submission, keep_readable, identity_view,
    is_authenticated, key_of, queue_key, readable, set_verdict,
};
use crate::store::{replaced, stored, QueueStore, StoreView};

verus! {

/// What GetQueue answers on store `s`: the readable records of the queue, in
/// stored order, once the caller is authenticated.
pub open spec fn get_outcome(s: StoreView, queue: Seq<char>, identity: Option<Seq<char>>) -> Result<
    Seq<EntityView>,
    QueueError,
> {
    if !is_authenticated(identity) {
        Err(QueueError::Unauthenticated)
    } else {
        Ok(readable(stored(s, key_of(queue))))
    }
}

/// The store after SetQueue on `s`: the submitted records replace the queue when
/// the request is accepted; otherwise nothing changes.
pub open spec fn set_store(
    s: StoreView,
    queue: Seq<char>,
    identity: Option<Seq<char>>,
    submitted: Seq<EntityView>,
) -> StoreView {
    if set_outcome(s, queue, identity, submitted) is Ok {
        replaced(s, key_of(queue), all_readable(submitted))
    } else {
        s
    }
}

/// What SetQueue answers on store `s`.
pub open spec fn set_outcome(
    s: StoreView,
    queue: Seq<char>,
    identity: Option<Seq<char>>,
    submitted: Seq<EntityView>,
) -> Result<(), QueueError> {
    set_verdict(identity, submitted, readable(stored(s, key_of(queue))))
}

/// The view of a GetQueue answer.
pub open spec fn answer_view(r: Result<Vec<Entity>, QueueError>) -> Result<
    Seq<EntityView>,
    QueueError,
> {
    match r {
        Ok(v) => Ok(entity_views(v@)),
        Err(e) => Err(e),
    }
}

/// The queue service over an in-memory store: reads and ownership-checked
/// replacement of queues.
pub struct QueueService {
    store: QueueStore,
}

impl QueueService {
    pub closed spec fn well_formed(&self) -> bool {
        self.store.well_formed()
    }

    /// The lists held under every key.
    pub closed spec fn view(&self) -> StoreView {
        self.store.view()
    }

    /// A service over `store`.
    pub fn new(store: QueueStore) -> (r: QueueService)
        requires
            store.well_formed(),
        ensures
            r.well_formed(),
            r.view() == store.view(),
    {
        QueueService { store }
    }

    /// The entities of queue `queue_id` that decode, in stored order.
    pub fn get_queue(&self, queue_id: String, identity: Option<String>) -> (r: Result<
        Vec<Entity>,
        QueueError,
    >)
        requires
            self.well_formed(),
        ensures
            answer_view(r) == get_outcome(self.view(), queue_id@, identity_view(identity)),
    {
        match authenticate(identity) {
            Err(e) => Err(e),
            Ok(_) => {
                let key = queue_key(queue_id);
                let records = self.store.read_all(&key);
                Ok(keep_readable(records))
            },
        }
    }

    /// Replaces queue `queue_id` by `entities` on behalf of the caller
    /// `identity`, after checking that only the caller's own record changes.
    /// A rejected request leaves the store as it was.
    pub fn set_queue(&mut self, queue_id: String, identity: Option<String>, entities: Vec<Entity>) -> (r:
        Result<(), QueueError>)
        requires
            old(self).well_formed(),
        ensures
            final(self).well_formed(),
            r == set_outcome(old(self).view(), queue_id@, identity_view(identity), entity_views(entities@)),
            final(self).view() == set_store(old(self).view(), queue_id@, identity_view(identity), entity_views(entities@)),
    {
        let caller = match authenticate(identity) {
            Err(e) => return Err(e),
            Ok(c) => c,
        };
        match check_submission(&caller, &entities) {
            Err(e) => return Err(e),
            Ok(()) => {},
        }
        let key = queue_key(queue_id);
        let existing = keep_readable(self.store.read_all(&key));
        match check_changes(&caller, &entities, &existing) {
            Err(e) => return Err(e),
            Ok(()) => {},
        }
        let records = as_records(entities);
        self.store.replace_all(key, records);
        Ok(())
    }
}

/// Each entity as a readable record, in order.
fn as_records(entities: Vec<Entity>) -> (r: Vec<Option<Entity>>)
    ensures
        record_views(r@) == all_readable(entity_views(entities@)),
{
    let mut out: Vec<Option<Entity>> = Vec::new();
    let mut i: usize = 0;
    while i < entities.len()
        invariant
            i <= entities@.len(),
            record_views(out@) =~= all_readable(entity_views(entities@)).take(i as int),
        decreases entities@.len() - i,
    {
        let e = entities[i].duplicate();
        proof {
            let rs = all_readable(entity_views(entities@));
            assert(rs.take(i + 1) =~= rs.take(i as int).push(record_view(Some(e))));
        }
        out.push(Some(e));
        i = i + 1;
    }
    proof {
        assert(all_readable(entity_views(entities@)).take(i as int) =~= all_readable(
            entity_views(entities@),
        ));
    }
    out
}

} // verus!
