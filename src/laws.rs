use vstd::prelude::*;

use crate::entity::EntityView;
use crate::error::{QueueError, Violation};
use crate::rules::{
    adds_only_own, all_readable, contains_id, is_authenticated, key_of, owned_count, readable,
    removes_only_own, set_verdict,
};
use crate::service::{get_outcome, set_outcome, set_store};
use crate::store::{stored, StoreView};

verus! {

/// Records written as readable come back, all of them and in order.
pub proof fn lemma_readable_all(es: Seq<EntityView>)
    ensures
        readable(all_readable(es)) == es,
    decreases es.len(),
{
    if es.len() > 0 {
        lemma_readable_all(es.drop_last());
        assert(all_readable(es).drop_last() =~= all_readable(es.drop_last()));
        assert(readable(all_readable(es)) =~= es.drop_last().push(es.last()));
    }
}

/// Two distinct positions that both carry `caller` make a count above one.
pub proof fn lemma_two_owned(caller: Seq<char>, es: Seq<EntityView>, i: int, j: int)
    requires
        0 <= i < j < es.len(),
        es[i].id == caller,
        es[j].id == caller,
    ensures
        owned_count(caller, es) > 1,
    decreases es.len(),
{
    if j == es.len() - 1 {
        lemma_one_owned(caller, es.drop_last(), i);
    } else {
        lemma_two_owned(caller, es.drop_last(), i, j);
    }
}

/// One position that carries `caller` makes a count of at least one.
pub proof fn lemma_one_owned(caller: Seq<char>, es: Seq<EntityView>, i: int)
    requires
        0 <= i < es.len(),
        es[i].id == caller,
    ensures
        owned_count(caller, es) >= 1,
    decreases es.len(),
{
    if i < es.len() - 1 {
        lemma_one_owned(caller, es.drop_last(), i);
    }
}

/// Reading a queue that holds no records gives the empty sequence to any
/// authenticated caller; in particular a queue that was never written.
pub proof fn law_unwritten_queue_is_empty(s: StoreView, queue: Seq<char>, identity: Option<Seq<char>>)
    requires
        is_authenticated(identity),
        stored(s, key_of(queue)).len() == 0,
    ensures
        get_outcome(s, queue, identity) == Ok::<Seq<EntityView>, QueueError>(Seq::empty()),
{
    assert(readable(stored(s, key_of(queue))) =~= Seq::<EntityView>::empty());
}

/// Clearing a queue succeeds, and a later read gives the empty sequence,
/// exactly when no record of another identity was in it; otherwise it is
/// refused as a removal and the store is unchanged.
pub proof fn law_clear_queue(s: StoreView, queue: Seq<char>, identity: Option<Seq<char>>)
    requires
        is_authenticated(identity),
    ensures
        ({
            let u = identity->Some_0;
            let existing = readable(stored(s, key_of(queue)));
            let s2 = set_store(s, queue, identity, Seq::empty());
            if forall|k: int| 0 <= k < existing.len() ==> #[trigger] existing[k].id == u {
                &&& set_outcome(s, queue, identity, Seq::empty()) is Ok
                &&& get_outcome(s2, queue, identity) == Ok::<Seq<EntityView>, QueueError>(Seq::empty())
            } else {
                &&& set_outcome(s, queue, identity, Seq::empty()) == Err::<(), QueueError>(
                    QueueError::PermissionDenied(Violation::Removed),
                )
                &&& s2 == s
            }
        }),
{
    let u = identity->Some_0;
    let empty = Seq::<EntityView>::empty();
    let existing = readable(stored(s, key_of(queue)));
    assert(owned_count(u, empty) == 0);
    assert(adds_only_own(u, empty, existing));
    if forall|k: int| 0 <= k < existing.len() ==> #[trigger] existing[k].id == u {
        assert(removes_only_own(u, empty, existing));
        lemma_readable_all(empty);
    } else {
        let k = choose|k: int| 0 <= k < existing.len() && existing[k].id != u;
        assert(!contains_id(empty, existing[k].id));
    }
}

/// A submission that holds two records with the caller's identity is refused
/// as invalid, and the store is unchanged.
pub proof fn law_two_own_records_rejected(
    s: StoreView,
    queue: Seq<char>,
    identity: Option<Seq<char>>,
    submitted: Seq<EntityView>,
    i: int,
    j: int,
)
    requires
        is_authenticated(identity),
        0 <= i < j < submitted.len(),
        submitted[i].id == identity->Some_0,
        submitted[j].id == identity->Some_0,
    ensures
        set_outcome(s, queue, identity, submitted) == Err::<(), QueueError>(
            QueueError::InvalidArgument,
        ),
        set_store(s, queue, identity, submitted) == s,
{
    lemma_two_owned(identity->Some_0, submitted, i, j);
}

/// A submission that keeps the ownership rules for its caller is stored, and a
/// later read gives back exactly the submitted records, in the same order.
pub proof fn law_round_trip(
    s: StoreView,
    queue: Seq<char>,
    identity: Option<Seq<char>>,
    submitted: Seq<EntityView>,
)
    requires
        set_verdict(identity, submitted, readable(stored(s, key_of(queue)))) is Ok,
    ensures
        set_outcome(s, queue, identity, submitted) is Ok,
        get_outcome(set_store(s, queue, identity, submitted), queue, identity)
            == Ok::<Seq<EntityView>, QueueError>(submitted),
{
    lemma_readable_all(submitted);
}

} // verus!
