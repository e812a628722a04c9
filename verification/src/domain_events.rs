use vstd::prelude::*;
use crate::action_store::first_n;
use crate::domain_actions::Tables;
use crate::errors::{DatabaseError, ErrorCode};
use crate::ids::{is_random_id, random_id};

verus! {

/// What can happen in the business domain.
#[derive(Clone, Copy, Debug, PartialEq, Eq, Hash, Structural)]
pub enum DomainEventTypes {
    EventCreated,
    EventUpdated,
    EventDeleted,
    EventPublished,
    EventUnpublished,
    EventCancelled,
    GenresUpdated,
    BroadcastCreated,
}

/// An entry of the log of what happened in the business domain. An entry
/// is never changed.
#[derive(Debug, PartialEq, Eq)]
pub struct DomainEvent {
    pub id: u128,
    pub event_type: DomainEventTypes,
    /// What happened, in words.
    pub display_text: String,
    /// The business table the entry is about.
    pub main_table: Tables,
    /// The row of `main_table` the entry is about.
    pub main_table_id: Option<u128>,
    /// The user who brought it about, where one did.
    pub user_id: Option<u128>,
    pub created_at: i64,
}

impl Clone for DomainEvent {
    fn clone(&self) -> (copy: DomainEvent)
        ensures
            copy == *self,
    {
        DomainEvent {
            id: self.id,
            event_type: self.event_type,
            display_text: self.display_text.clone(),
            main_table: self.main_table,
            main_table_id: self.main_table_id,
            user_id: self.user_id,
            created_at: self.created_at,
        }
    }
}

/// An entry that has not been written to the log yet.
#[derive(Debug, PartialEq, Eq)]
pub struct NewDomainEvent {
    pub event_type: DomainEventTypes,
    pub display_text: String,
    pub main_table: Tables,
    pub main_table_id: Option<u128>,
    pub user_id: Option<u128>,
}

/// The entry that writing `new` under `id` at `now` adds to the log.
pub open spec fn logged(new: NewDomainEvent, id: u128, now: i64) -> DomainEvent {
    DomainEvent {
        id,
        event_type: new.event_type,
        display_text: new.display_text,
        main_table: new.main_table,
        main_table_id: new.main_table_id,
        user_id: new.user_id,
        created_at: now,
    }
}

impl DomainEvent {
    /// Describes an entry for the log.
    pub fn create(
        event_type: DomainEventTypes,
        display_text: String,
        main_table: Tables,
        main_table_id: Option<u128>,
        user_id: Option<u128>,
    ) -> (new: NewDomainEvent)
        ensures
            new == (NewDomainEvent { event_type, display_text, main_table, main_table_id, user_id }),
    {
        NewDomainEvent { event_type, display_text, main_table, main_table_id, user_id }
    }
}

/// A party that is told of domain events: of those of the types it has
/// subscribed to, each once.
#[derive(Debug, PartialEq, Eq)]
pub struct DomainEventPublisher {
    pub id: u128,
    /// The types of event the publisher is told of.
    pub event_types: Vec<DomainEventTypes>,
    /// Where the publisher sends what it is told.
    pub webhook_url: String,
}

/// What a publisher is: its lists as sequences.
pub struct PublisherView {
    pub id: u128,
    pub event_types: Seq<DomainEventTypes>,
    pub webhook_url: Seq<char>,
}

impl View for DomainEventPublisher {
    type V = PublisherView;

    open spec fn view(&self) -> PublisherView {
        PublisherView { id: self.id, event_types: self.event_types@, webhook_url: self.webhook_url@ }
    }
}

impl Clone for DomainEventPublisher {
    fn clone(&self) -> (copy: DomainEventPublisher)
        ensures
            copy@ == self@,
    {
        let mut event_types: Vec<DomainEventTypes> = Vec::new();
        let mut i: usize = 0;
        while i < self.event_types.len()
            invariant
                i <= self.event_types.len(),
                event_types@ == self.event_types@.take(i as int),
            decreases self.event_types.len() - i,
        {
            event_types.push(self.event_types[i]);
            i += 1;
            assert(event_types@ =~= self.event_types@.take(i as int));
        }
        assert(self.event_types@.take(i as int) =~= self.event_types@);
        DomainEventPublisher { id: self.id, event_types, webhook_url: self.webhook_url.clone() }
    }
}

impl DomainEventPublisher {
    /// Whether the publisher is told of events of the given type.
    pub fn subscribes_to(&self, event_type: DomainEventTypes) -> (yes: bool)
        ensures
            yes == self@.event_types.contains(event_type),
    {
        let mut i: usize = 0;
        while i < self.event_types.len()
            invariant
                i <= self.event_types.len(),
                forall|k: int| 0 <= k < i ==> self.event_types@[k] != event_type,
            decreases self.event_types.len() - i,
        {
            if self.event_types[i] == event_type {
                return true;
            }
            i += 1;
        }
        false
    }
}

/// The publisher is told of the event and has not published it yet.
pub open spec fn awaits(
    publisher: PublisherView,
    published: Set<(u128, u128)>,
    event: DomainEvent,
) -> bool {
    publisher.event_types.contains(event.event_type) && !published.contains(
        (publisher.id, event.id),
    )
}

/// The events a publisher has yet to publish, as a predicate.
pub open spec fn awaited_by(publisher: PublisherView, published: Set<(u128, u128)>) -> spec_fn(
    DomainEvent,
) -> bool {
    |event: DomainEvent| awaits(publisher, published, event)
}

/// The next events a publisher has to publish: those of the log that it is
/// told of and has not published, the oldest first, no more than `limit`.
pub open spec fn unpublished(
    events: Seq<DomainEvent>,
    publisher: PublisherView,
    published: Set<(u128, u128)>,
    limit: usize,
) -> Seq<DomainEvent> {
    first_n(events.filter(awaited_by(publisher, published)), Some(limit))
}

/// Some entry of the log has the id.
pub open spec fn is_logged(events: Seq<DomainEvent>, id: u128) -> bool {
    exists|i: int| 0 <= i < events.len() && (#[trigger] events[i]).id == id
}

/// The log holds an entry under an id of the random format. Nothing else
/// can keep an id that is freshly drawn from being free.
pub open spec fn logs_random_id(events: Seq<DomainEvent>) -> bool {
    exists|taken: u128| is_random_id(taken) && #[trigger] is_logged(events, taken)
}

/// No two entries of the log share an id.
pub open spec fn distinct_events(events: Seq<DomainEvent>) -> bool {
    forall|i: int, j: int|
        0 <= i < j < events.len() ==> (#[trigger] events[i]).id != (#[trigger] events[j]).id
}

/// The publishers of a list, each as what it is.
pub open spec fn publisher_views(publishers: Seq<DomainEventPublisher>) -> Seq<PublisherView> {
    publishers.map_values(|p: DomainEventPublisher| p@)
}

/// The members of a list that has grown by one item are those it had and
/// the new one.
pub proof fn lemma_push_to_set(pairs: Seq<(u128, u128)>, pair: (u128, u128))
    ensures
        pairs.push(pair).to_set() == pairs.to_set().insert(pair),
{
    let grown = pairs.push(pair);
    assert forall|x: (u128, u128)| grown.to_set().contains(x) <==> pairs.to_set().insert(
        pair,
    ).contains(x) by {
        if grown.contains(x) {
            let k = choose|k: int| 0 <= k < grown.len() && grown[k] == x;
            if k < pairs.len() {
                assert(pairs[k] == x);
            }
        }
        if pairs.contains(x) {
            let k = choose|k: int| 0 <= k < pairs.len() && pairs[k] == x;
            assert(grown[k] == x);
        }
        if x == pair {
            assert(grown[pairs.len() as int] == x);
        }
    }
    assert(grown.to_set() =~= pairs.to_set().insert(pair));
}

/// The log of domain events, the publishers that are told of them, and the
/// record of which publisher has published which event.
pub struct DomainEventLog {
    events: Vec<DomainEvent>,
    publishers: Vec<DomainEventPublisher>,
    published: Vec<(u128, u128)>,
}

impl DomainEventLog {
    /// The entries of the log, the oldest first.
    pub closed spec fn events(&self) -> Seq<DomainEvent> {
        self.events@
    }

    /// The publishers, in the order in which they were added.
    pub closed spec fn publishers(&self) -> Seq<PublisherView> {
        publisher_views(self.publishers@)
    }

    /// The pairs of a publisher's id and an event's id for which a
    /// publication is on record.
    pub closed spec fn published(&self) -> Set<(u128, u128)> {
        self.published@.to_set()
    }

    /// The invariant of the log: no two entries share an id.
    pub open spec fn wf(&self) -> bool {
        distinct_events(self.events())
    }

    /// A log without entries, publishers or publications.
    pub fn new() -> (log: DomainEventLog)
        ensures
            log.wf(),
            log.events() == Seq::<DomainEvent>::empty(),
            log.publishers() == Seq::<PublisherView>::empty(),
            log.published() == Set::<(u128, u128)>::empty(),
    {
        let log = DomainEventLog { events: Vec::new(), publishers: Vec::new(), published: Vec::new() };
        assert(log.publishers() =~= Seq::<PublisherView>::empty());
        assert(log.published() =~= Set::<(u128, u128)>::empty());
        log
    }

    /// How many entries the log has.
    pub fn len(&self) -> (n: usize)
        ensures
            n == self.events().len(),
    {
        self.events.len()
    }

    /// Copies of all entries, the oldest first.
    pub fn all(&self) -> (entries: Vec<DomainEvent>)
        ensures
            entries@ == self.events(),
    {
        let mut entries: Vec<DomainEvent> = Vec::new();
        let mut i: usize = 0;
        while i < self.events.len()
            invariant
                i <= self.events.len(),
                entries@ == self.events@.take(i as int),
            decreases self.events.len() - i,
        {
            entries.push(self.events[i].clone());
            i += 1;
            assert(entries@ =~= self.events@.take(i as int));
        }
        assert(self.events@.take(i as int) =~= self.events@);
        entries
    }

    /// Adds a publisher.
    pub fn add_publisher(&mut self, publisher: DomainEventPublisher)
        requires
            old(self).wf(),
        ensures
            final(self).wf(),
            final(self).events() == old(self).events(),
            final(self).published() == old(self).published(),
            final(self).publishers() == old(self).publishers().push(publisher@),
    {
        self.publishers.push(publisher);
        assert(self.publishers() =~= old(self).publishers().push(publisher@));
    }

    fn holds(&self, id: u128) -> (yes: bool)
        ensures
            yes == is_logged(self.events(), id),
    {
        let mut i: usize = 0;
        while i < self.events.len()
            invariant
                i <= self.events.len(),
                forall|k: int| 0 <= k < i ==> (#[trigger] self.events@[k]).id != id,
            decreases self.events.len() - i,
        {
            if self.events[i].id == id {
                return true;
            }
            i += 1;
        }
        false
    }

    /// Appends an entry under the id the caller has drawn for it. Refused
    /// with `DuplicateKeyError` where the id is taken.
    pub fn append(&mut self, new: NewDomainEvent, id: u128, now: i64) -> (outcome: Result<
        DomainEvent,
        DatabaseError,
    >)
        requires
            old(self).wf(),
        ensures
            final(self).wf(),
            final(self).publishers() == old(self).publishers(),
            final(self).published() == old(self).published(),
            match outcome {
                Ok(event) => !is_logged(old(self).events(), id) && event == logged(new, id, now)
                    && final(self).events() == old(self).events().push(event),
                Err(e) => is_logged(old(self).events(), id) && e.error_code
                    == ErrorCode::DuplicateKeyError && final(self).events() == old(self).events(),
            },
    {
        if self.holds(id) {
            return Err(DatabaseError::new(ErrorCode::DuplicateKeyError));
        }
        let event = DomainEvent {
            id,
            event_type: new.event_type,
            display_text: new.display_text,
            main_table: new.main_table,
            main_table_id: new.main_table_id,
            user_id: new.user_id,
            created_at: now,
        };
        let copy = event.clone();
        self.events.push(event);
        Ok(copy)
    }

    /// Whether a publication of the event by the publisher is on record.
    pub fn is_published(&self, publisher_id: u128, event_id: u128) -> (yes: bool)
        ensures
            yes == self.published().contains((publisher_id, event_id)),
    {
        let mut i: usize = 0;
        while i < self.published.len()
            invariant
                i <= self.published.len(),
                forall|k: int| 0 <= k < i ==> self.published@[k] != (publisher_id, event_id),
            decreases self.published.len() - i,
        {
            let pair = self.published[i];
            if pair.0 == publisher_id && pair.1 == event_id {
                assert(self.published@[i as int] == (publisher_id, event_id));
                return true;
            }
            i += 1;
        }
        false
    }

    /// Puts on record that the publisher has published the event.
    pub fn record_publication(&mut self, publisher_id: u128, event_id: u128)
        requires
            old(self).wf(),
        ensures
            final(self).wf(),
            final(self).events() == old(self).events(),
            final(self).publishers() == old(self).publishers(),
            final(self).published() == old(self).published().insert((publisher_id, event_id)),
    {
        let ghost before = self.published@;
        self.published.push((publisher_id, event_id));
        proof {
            lemma_push_to_set(before, (publisher_id, event_id));
        }
    }

    fn unpublished_for(&self, publisher: &DomainEventPublisher, limit: usize) -> (found: Vec<
        DomainEvent,
    >)
        ensures
            found@ == unpublished(self.events(), publisher@, self.published(), limit),
    {
        let ghost wanted = awaited_by(publisher@, self.published());
        let mut found: Vec<DomainEvent> = Vec::new();
        let n = self.events.len();
        let mut i: usize = 0;
        let mut full: bool = limit == 0;
        proof {
            reveal(Seq::filter);
            assert(self.events@.take(0).filter(wanted) =~= Seq::<DomainEvent>::empty());
        }
        while i < n && !full
            invariant
                n == self.events.len(),
                i <= n,
                wanted == awaited_by(publisher@, self.published()),
                found@ == self.events@.take(i as int).filter(wanted),
                found.len() <= limit,
                full == (found.len() >= limit),
            decreases n - i,
        {
            proof {
                reveal(Seq::filter);
                assert(self.events@.take(i + 1).drop_last() =~= self.events@.take(i as int));
                assert(self.events@.take(i + 1).last() == self.events@[i as int]);
            }
            let event = &self.events[i];
            if publisher.subscribes_to(event.event_type) && !self.is_published(
                publisher.id,
                event.id,
            ) {
                found.push(event.clone());
                full = found.len() >= limit;
            }
            i += 1;
        }
        proof {
            let all = self.events@.filter(wanted);
            let head = self.events@.take(i as int);
            let tail = self.events@.skip(i as int);
            assert(head + tail =~= self.events@);
            Seq::filter_distributes_over_add(head, tail, wanted);
            if i == n {
                tail.lemma_filter_len(wanted);
                assert(all =~= head.filter(wanted));
            } else {
                assert(all.take(limit as int) =~= head.filter(wanted));
                if !(limit < all.len()) {
                    assert(all =~= head.filter(wanted));
                }
            }
        }
        found
    }

    /// For each publisher, in the order in which they were added, the next
    /// events it has to publish: see `unpublished`.
    pub fn find_with_unpublished_domain_events(&self, limit: usize) -> (found: Vec<
        (DomainEventPublisher, Vec<DomainEvent>),
    >)
        ensures
            found@.len() == self.publishers().len(),
            forall|k: int|
                0 <= k < found@.len() ==> (#[trigger] found@[k]).0@ == self.publishers()[k]
                    && found@[k].1@ == unpublished(
                    self.events(),
                    self.publishers()[k],
                    self.published(),
                    limit,
                ),
    {
        let mut found: Vec<(DomainEventPublisher, Vec<DomainEvent>)> = Vec::new();
        let mut i: usize = 0;
        while i < self.publishers.len()
            invariant
                i <= self.publishers.len(),
                found@.len() == i,
                forall|k: int|
                    0 <= k < i ==> (#[trigger] found@[k]).0@ == self.publishers()[k]
                        && found@[k].1@ == unpublished(
                        self.events(),
                        self.publishers()[k],
                        self.published(),
                        limit,
                    ),
            decreases self.publishers.len() - i,
        {
            let publisher = self.publishers[i].clone();
            let events = self.unpublished_for(&publisher, limit);
            found.push((publisher, events));
            i += 1;
        }
        found
    }
}

impl NewDomainEvent {
    /// Appends the entry to the log under a fresh id. The id that was drawn
    /// being taken already is the only way to fail, so the entry is written
    /// for certain where the log holds no id of the random format.
    pub fn commit(self, log: &mut DomainEventLog, now: i64) -> (outcome: Result<
        DomainEvent,
        DatabaseError,
    >)
        requires
            old(log).wf(),
        ensures
            final(log).wf(),
            outcome is Err ==> logs_random_id(old(log).events()),
            final(log).publishers() == old(log).publishers(),
            final(log).published() == old(log).published(),
            match outcome {
                Ok(event) => is_random_id(event.id) && !is_logged(old(log).events(), event.id)
                    && event == logged(self, event.id, now) && final(log).events() == old(
                    log,
                ).events().push(event),
                Err(e) => e.error_code == ErrorCode::DuplicateKeyError && final(log).events()
                    == old(log).events(),
            },
    {
        let id = random_id();
        log.append(self, id, now)
    }
}

} // verus!
