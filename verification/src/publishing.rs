use vstd::prelude::*;
use crate::database::Database;
use crate::domain_events::{
    awaited_by, awaits, lemma_push_to_set, unpublished, DomainEvent, DomainEventLog, DomainEventPublisher,
    PublisherView,
};
use crate::errors::{DatabaseError, DomainActionError};

verus! {

/// How many events the publication loop takes up for one publisher in one
/// turn.
pub const PUBLICATION_BATCH: usize = 10;

/// An event that is to be delivered for a publisher.
#[derive(Debug, PartialEq, Eq)]
pub struct Delivery {
    pub publisher: DomainEventPublisher,
    pub event: DomainEvent,
}

/// The publications a list of deliveries stands for: for each delivery the
/// id of the publisher and the id of the event.
pub open spec fn publications(plan: Seq<Delivery>) -> Seq<(u128, u128)> {
    plan.map_values(|d: Delivery| (d.publisher.id, d.event.id))
}

/// The publications a publisher owes for a list of events: one for each
/// event, in the order of the list.
pub open spec fn owed_by(publisher_id: u128, events: Seq<DomainEvent>) -> Seq<(u128, u128)> {
    events.map_values(|event: DomainEvent| (publisher_id, event.id))
}

/// The publications that one turn of the publication loop has to make:
/// for each publisher in turn, its next unpublished events, the oldest
/// first, no more than `limit` for each publisher.
pub open spec fn owed(
    events: Seq<DomainEvent>,
    publishers: Seq<PublisherView>,
    published: Set<(u128, u128)>,
    limit: usize,
) -> Seq<(u128, u128)>
    decreases publishers.len(),
{
    if publishers.len() == 0 {
        Seq::empty()
    } else {
        owed(events, publishers.drop_last(), published, limit) + owed_by(
            publishers.last().id,
            unpublished(events, publishers.last(), published, limit),
        )
    }
}

/// How many of the deliveries of a turn were made: all those before the
/// first that failed.
pub open spec fn made(results: Seq<Result<(), DatabaseError>>) -> nat
    decreases results.len(),
{
    if results.len() == 0 {
        0
    } else {
        let before = made(results.drop_last());
        if before == results.len() - 1 && results.last() is Ok {
            results.len()
        } else {
            before
        }
    }
}

/// No delivery before the `made(results)`th has failed, and that one has,
/// if there is one.
pub proof fn lemma_made(results: Seq<Result<(), DatabaseError>>)
    ensures
        made(results) <= results.len(),
        forall|k: int| 0 <= k < made(results) ==> (#[trigger] results[k]) is Ok,
        made(results) < results.len() ==> results[made(results) as int] is Err,
    decreases results.len(),
{
    if results.len() > 0 {
        lemma_made(results.drop_last());
        let before = made(results.drop_last());
        assert forall|k: int| 0 <= k < made(results) implies (#[trigger] results[k]) is Ok by {
            if k < results.len() - 1 {
                assert(results.drop_last()[k] is Ok);
            }
        }
        if before < results.len() - 1 {
            assert(results.drop_last()[before as int] is Err);
        }
    }
}

/// Every delivery of the plan is of an event of the log for a publisher of
/// the log that is told of the event and has not published it.
pub open spec fn awaited(
    plan: Seq<Delivery>,
    events: Seq<DomainEvent>,
    publishers: Seq<PublisherView>,
    published: Set<(u128, u128)>,
) -> bool {
    forall|k: int|
        0 <= k < plan.len() ==> {
            let d = #[trigger] plan[k];
            &&& publishers.contains(d.publisher@)
            &&& events.contains(d.event)
            &&& awaits(d.publisher@, published, d.event)
        }
}

/// The events that publishers have yet to publish, each with its
/// publisher: for each publisher in turn, its next unpublished events, the
/// oldest first, no more than `PUBLICATION_BATCH` for each publisher.
pub fn find_events_to_publish(database: &Database) -> (plan: Vec<Delivery>)
    ensures
        publications(plan@) == owed(
            database.domain_events.events(),
            database.domain_events.publishers(),
            database.domain_events.published(),
            PUBLICATION_BATCH,
        ),
        awaited(
            plan@,
            database.domain_events.events(),
            database.domain_events.publishers(),
            database.domain_events.published(),
        ),
{
    broadcast use vstd::seq_lib::group_filter_ensures;

    let ghost events = database.domain_events.events();
    let ghost publishers = database.domain_events.publishers();
    let ghost published = database.domain_events.published();
    let found = database.domain_events.find_with_unpublished_domain_events(PUBLICATION_BATCH);
    let mut plan: Vec<Delivery> = Vec::new();
    let mut i: usize = 0;
    proof {
        assert(publishers.take(0) =~= Seq::<PublisherView>::empty());
        assert(publications(plan@) =~= Seq::<(u128, u128)>::empty());
    }
    while i < found.len()
        invariant
            i <= found.len(),
            found@.len() == publishers.len(),
            events == database.domain_events.events(),
            publishers == database.domain_events.publishers(),
            published == database.domain_events.published(),
            forall|k: int|
                0 <= k < found@.len() ==> (#[trigger] found@[k]).0@ == publishers[k] && found@[k].1@
                    == unpublished(events, publishers[k], published, PUBLICATION_BATCH),
            publications(plan@) == owed(
                events,
                publishers.take(i as int),
                published,
                PUBLICATION_BATCH,
            ),
            forall|k: int|
                0 <= k < plan@.len() ==> {
                    let d = #[trigger] plan@[k];
                    &&& publishers.contains(d.publisher@)
                    &&& events.contains(d.event)
                    &&& awaits(d.publisher@, published, d.event)
                },
        decreases found.len() - i,
    {
        let publisher = &found[i].0;
        let waiting = &found[i].1;
        let ghost done = publications(plan@);
        let ghost mine = owed_by(publisher.id, waiting@);
        proof {
            assert(publishers.take(i + 1).drop_last() =~= publishers.take(i as int));
            assert(publishers.take(i + 1).last() == publishers[i as int]);
            assert(owed(events, publishers.take(i + 1), published, PUBLICATION_BATCH) == done
                + mine);
            assert(done + mine.take(0) =~= done);
            assert(publishers[i as int] == publisher@);
        }
        let mut j: usize = 0;
        while j < waiting.len()
            invariant
                j <= waiting.len(),
                i < found.len(),
                publisher == &found@[i as int].0,
                waiting == &found@[i as int].1,
                publishers.contains(publisher@),
                waiting@ == unpublished(events, publisher@, published, PUBLICATION_BATCH),
                mine == owed_by(publisher.id, waiting@),
                publications(plan@) == done + mine.take(j as int),
                forall|k: int|
                    0 <= k < plan@.len() ==> {
                        let d = #[trigger] plan@[k];
                        &&& publishers.contains(d.publisher@)
                        &&& events.contains(d.event)
                        &&& awaits(d.publisher@, published, d.event)
                    },
            decreases waiting.len() - j,
        {
            let ghost listed = plan@;
            let delivery = Delivery { publisher: publisher.clone(), event: waiting[j].clone() };
            proof {
                let wanted = awaited_by(publisher@, published);
                let all = events.filter(wanted);
                assert(waiting@[j as int] == all[j as int]);
                assert(wanted(all[j as int]));
                assert(all.contains(all[j as int]));
                events.lemma_filter_contains_rev(wanted, all[j as int]);
            }
            plan.push(delivery);
            proof {
                assert(publications(plan@) =~= publications(listed).push(
                    (publisher.id, waiting@[j as int].id),
                ));
                assert(publications(plan@) =~= done + mine.take(j + 1));
                assert forall|k: int| 0 <= k < plan@.len() implies {
                    let d = #[trigger] plan@[k];
                    &&& publishers.contains(d.publisher@)
                    &&& events.contains(d.event)
                    &&& awaits(d.publisher@, published, d.event)
                } by {
                    if k < listed.len() {
                        assert(plan@[k] == listed[k]);
                    }
                }
            }
            j += 1;
        }
        proof {
            assert(mine.take(j as int) =~= mine);
        }
        i += 1;
    }
    proof {
        assert(publishers.take(i as int) =~= publishers);
    }
    plan
}

/// Records what came of the delivery of an event for a publisher: a
/// delivery that was made is put on record as a publication; one that
/// failed leaves the record as it is and is reported with its error.
pub fn record_delivery(
    log: &mut DomainEventLog,
    publisher_id: u128,
    event_id: u128,
    delivery: Result<(), DatabaseError>,
) -> (error: Option<DomainActionError>)
    requires
        old(log).wf(),
    ensures
        final(log).wf(),
        final(log).events() == old(log).events(),
        final(log).publishers() == old(log).publishers(),
        match delivery {
            Ok(()) => error is None && final(log).published() == old(log).published().insert(
                (publisher_id, event_id),
            ),
            Err(e) => error == Some(DomainActionError::Database(e)) && final(log).published()
                == old(log).published(),
        },
{
    match delivery {
        Ok(()) => {
            log.record_publication(publisher_id, event_id);
            None
        },
        Err(e) => Some(DomainActionError::Database(e)),
    }
}

/// Which delivery of the plan is to be tried next, given what came of
/// those tried so far: the one after the last, as long as none has failed
/// and the plan is not at its end. `None` ends the deliveries of the turn.
pub fn next_delivery(plan: &Vec<Delivery>, results: &Vec<Result<(), DatabaseError>>) -> (next: Option<
    usize,
>)
    ensures
        next == if made(results@) == results@.len() && results@.len() < plan@.len() {
            Some(results@.len() as usize)
        } else {
            None
        },
{
    let mut i: usize = 0;
    proof {
        assert(results@.take(0) =~= Seq::<Result<(), DatabaseError>>::empty());
    }
    while i < results.len()
        invariant
            i <= results.len(),
            made(results@.take(i as int)) == i,
        decreases results.len() - i,
    {
        proof {
            assert(results@.take(i + 1).drop_last() =~= results@.take(i as int));
            assert(results@.take(i + 1).last() == results@[i as int]);
        }
        if results[i].is_err() {
            proof {
                lemma_made_stops(results@, i as int);
            }
            return None;
        }
        i += 1;
    }
    proof {
        assert(results@.take(i as int) =~= results@);
    }
    if results.len() < plan.len() {
        Some(results.len())
    } else {
        None
    }
}

/// What one turn of the publication loop has done.
#[derive(Debug, PartialEq, Eq)]
pub struct PublicationReport {
    /// The publications that were made and recorded, in the order in which
    /// they were made: each the id of the publisher and the id of the event.
    pub published: Vec<(u128, u128)>,
    /// The error of the delivery that ended the turn before all
    /// publications were made, if one did.
    pub error: Option<DomainActionError>,
}

/// Records what came of the deliveries of a turn. `results` holds, for the
/// deliveries of the plan in their order, what came of each, up to the
/// first that failed or that was not tried. The deliveries that were made
/// are put on record as publications; the first that failed ends the turn
/// with its error, and what comes after it is left for a later turn.
pub fn record_deliveries(
    log: &mut DomainEventLog,
    plan: &Vec<Delivery>,
    results: &Vec<Result<(), DatabaseError>>,
) -> (report: PublicationReport)
    requires
        old(log).wf(),
        results@.len() <= plan@.len(),
    ensures
        final(log).wf(),
        final(log).events() == old(log).events(),
        final(log).publishers() == old(log).publishers(),
        final(log).published() == old(log).published().union(report.published@.to_set()),
        report.published@ == publications(plan@).take(made(results@) as int),
        report.error == if made(results@) < results@.len() {
            Some(DomainActionError::Database(results@[made(results@) as int].unwrap_err()))
        } else {
            None
        },
{
    let ghost before = log.published();
    let mut published: Vec<(u128, u128)> = Vec::new();
    let mut i: usize = 0;
    proof {
        assert(before.union(published@.to_set()) =~= before);
        assert(results@.take(0) =~= Seq::<Result<(), DatabaseError>>::empty());
        assert(publications(plan@).take(0) =~= published@);
    }
    while i < results.len()
        invariant
            i <= results.len(),
            results@.len() <= plan@.len(),
            log.wf(),
            log.events() == old(log).events(),
            log.publishers() == old(log).publishers(),
            before == old(log).published(),
            log.published() == before.union(published@.to_set()),
            made(results@.take(i as int)) == i,
            published@ == publications(plan@).take(i as int),
        decreases results.len() - i,
    {
        let delivery = &plan[i];
        let ghost listed = published@;
        proof {
            assert(results@.take(i + 1).drop_last() =~= results@.take(i as int));
            assert(results@.take(i + 1).last() == results@[i as int]);
        }
        let result = match &results[i] {
            Ok(()) => Ok(()),
            Err(e) => Err(*e),
        };
        match record_delivery(log, delivery.publisher.id, delivery.event.id, result) {
            None => {
                published.push((delivery.publisher.id, delivery.event.id));
                proof {
                    lemma_push_to_set(listed, (delivery.publisher.id, delivery.event.id));
                    assert(before.union(published@.to_set()) =~= before.union(
                        listed.to_set(),
                    ).insert((delivery.publisher.id, delivery.event.id)));
                    assert(published@ =~= publications(plan@).take(i + 1));
                }
            },
            Some(error) => {
                proof {
                    lemma_made_stops(results@, i as int);
                }
                return PublicationReport { published, error: Some(error) };
            },
        }
        i += 1;
    }
    proof {
        assert(results@.take(i as int) =~= results@);
    }
    PublicationReport { published, error: None }
}

/// Once a delivery has failed, no later one counts as made.
pub proof fn lemma_made_stops(results: Seq<Result<(), DatabaseError>>, n: int)
    requires
        0 <= n < results.len(),
        made(results.take(n)) == n,
        results[n] is Err,
    ensures
        made(results) == n,
{
    lemma_made(results);
    let m = made(results);
    if m > n {
        assert(results[n] is Ok);
    } else if m < n {
        lemma_made(results.take(n));
        assert(results.take(n)[m as int] is Ok);
        assert(results[m as int] is Err);
    }
}

/// What the publication loop does after a turn.
#[derive(Clone, Copy, Debug, PartialEq, Eq, Structural)]
pub enum PublicationStep {
    /// The turn has failed and the loop ends with its error.
    Failed(DomainActionError),
    /// Sleep for that many seconds, then poll again.
    Sleep(u64),
}

/// The top of a turn of the loop that publishes domain events. If the loop
/// was asked to stop, the turn is not made and the loop ends. Otherwise the
/// turn is made on the deliveries that are returned: see
/// `find_events_to_publish`.
pub fn begin_publication_turn(database: &Database, stop_requested: bool) -> (plan: Option<
    Vec<Delivery>,
>)
    ensures
        stop_requested <==> plan is None,
        plan matches Some(deliveries) ==> publications(deliveries@) == owed(
            database.domain_events.events(),
            database.domain_events.publishers(),
            database.domain_events.published(),
            PUBLICATION_BATCH,
        ) && awaited(
            deliveries@,
            database.domain_events.events(),
            database.domain_events.publishers(),
            database.domain_events.published(),
        ),
{
    if stop_requested {
        None
    } else {
        Some(find_events_to_publish(database))
    }
}

/// What the loop that publishes domain events does after a turn: it ends
/// with the error of a turn that failed, and otherwise sleeps for
/// `interval` seconds, whether or not there was anything to publish, so
/// that publishers are not called at more than that rate.
pub fn publication_step(report: &PublicationReport, interval: u64) -> (next: PublicationStep)
    ensures
        next == match report.error {
            Some(e) => PublicationStep::Failed(e),
            None => PublicationStep::Sleep(interval),
        },
{
    match report.error {
        Some(e) => PublicationStep::Failed(e),
        None => PublicationStep::Sleep(interval),
    }
}

} // verus!
