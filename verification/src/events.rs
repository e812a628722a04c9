use vstd::prelude::*;
use vstd::string::StringExecFns;
use crate::action_store::{
    cancelled_where, count_open_answers, holds_random_id, insert_result, ActionStore, Query,
};
use crate::database::Database;
use crate::domain_actions::{
    stored, ActionPayload, ActionPayloadView, DomainAction, DomainActionStatus, DomainActionTypes,
    DomainActionView, NewDomainActionView, ProcessTransferDripPayload, SourceOrDestination, Tables,
};
use crate::domain_events::{logs_random_id, DomainEvent, DomainEventTypes};
use crate::errors::{DatabaseError, ErrorCode};
use crate::ids::{is_random_id, random_id};

verus! {

/// Where the system runs. In staging, drip notifications are counted in
/// minutes before the event instead of days, so that they can be tried out.
#[derive(Clone, Copy, Debug, PartialEq, Eq, Structural)]
pub enum Environment {
    Development,
    Production,
    Staging,
    Test,
}

/// Where an event stands with the public.
#[derive(Clone, Copy, Debug, PartialEq, Eq, Structural)]
pub enum EventStatus {
    Draft,
    Closed,
    Published,
    Offline,
}

/// Which side of the present a search looks at.
#[derive(Clone, Copy, Debug, PartialEq, Eq, Structural)]
pub enum PastOrUpcoming {
    Past,
    Upcoming,
}

/// How many hours before an event the last drip notification goes out.
pub const TRANSFER_DRIP_NOTIFICATION_HOURS_PRIOR_TO_EVENT: i64 = 3;

/// The earliest time a search looks back to: noon of 1 January 1900.
pub const BEGINNING_OF_TIME: i64 = -2_208_945_600;

/// The latest time a search looks ahead to: noon of 1 January 3100.
pub const END_OF_TIME: i64 = 35_659_396_800;

pub const SECONDS_PER_MINUTE: i64 = 60;

pub const SECONDS_PER_HOUR: i64 = 3_600;

pub const SECONDS_PER_DAY: i64 = 86_400;

/// An event for which tickets are sold, as far as the action queue has to
/// do with it. Times are seconds of the store's clock.
#[derive(Debug, PartialEq, Eq)]
pub struct Event {
    pub id: u128,
    pub name: String,
    pub organization_id: u128,
    pub venue_id: Option<u128>,
    pub event_start: Option<i64>,
    pub door_time: Option<i64>,
    pub event_end: Option<i64>,
    pub status: EventStatus,
    pub publish_date: Option<i64>,
    pub promo_image_url: Option<String>,
    pub cancelled_at: Option<i64>,
    pub updated_at: i64,
}

impl Clone for Event {
    fn clone(&self) -> (copy: Event)
        ensures
            copy == *self,
    {
        let promo_image_url = match &self.promo_image_url {
            Some(url) => Some(url.clone()),
            None => None,
        };
        Event {
            id: self.id,
            name: self.name.clone(),
            organization_id: self.organization_id,
            venue_id: self.venue_id,
            event_start: self.event_start,
            door_time: self.door_time,
            event_end: self.event_end,
            status: self.status,
            publish_date: self.publish_date,
            promo_image_url,
            cancelled_at: self.cancelled_at,
            updated_at: self.updated_at,
        }
    }
}

/// The number of days until an event that starts at `start`, seen from
/// `now`. Notifications are sent relative to the start of the event and may
/// run a little late, so an hour is given away: from 23 hours on, a day
/// counts as full. An event that has started is that many full days away,
/// counted below zero.
pub open spec fn days_until(start: i64, now: i64) -> int {
    if start >= now {
        (start - now + SECONDS_PER_HOUR) / (SECONDS_PER_DAY as int)
    } else {
        -((now - start) / (SECONDS_PER_DAY as int))
    }
}

/// The number of minutes until an event that starts at `start`, seen from
/// `now`. From 40 seconds on, a minute counts as full. An event that has
/// started is that many full minutes away, counted below zero.
pub open spec fn minutes_until(start: i64, now: i64) -> int {
    if start >= now {
        (start - now + 20) / (SECONDS_PER_MINUTE as int)
    } else {
        -((now - start) / (SECONDS_PER_MINUTE as int))
    }
}

/// The next notification to send, as the number of days (in staging:
/// minutes) before the event at which it goes out: a week before, a day
/// before and on the day, whichever comes first for an event that is
/// `until` days away. `None` when the last one is past.
pub open spec fn drip_threshold(until: int) -> Option<int> {
    if until > 7 {
        Some(7)
    } else if until > 1 {
        Some(1)
    } else if until > 0 {
        Some(0)
    } else {
        None
    }
}

/// When the next drip notification for an event that starts at `start` goes
/// out, seen from `now`: that many days before the start as `drip_threshold`
/// says, the one on the day itself three hours before the start; in
/// staging, that many minutes before the start. `None` for an event that
/// has started, and when the last notification is past.
pub open spec fn drip_date(start: i64, environment: Environment, now: i64) -> Option<int> {
    if start < now {
        None
    } else if environment == Environment::Staging {
        match drip_threshold(minutes_until(start, now)) {
            Some(minutes) => Some(start - minutes * SECONDS_PER_MINUTE),
            None => None,
        }
    } else {
        match drip_threshold(days_until(start, now)) {
            Some(days) => Some(
                if days == 0 {
                    start - TRANSFER_DRIP_NOTIFICATION_HOURS_PRIOR_TO_EVENT * SECONDS_PER_HOUR
                } else {
                    start - days * SECONDS_PER_DAY
                },
            ),
            None => None,
        }
    }
}

fn next_threshold(until: i64) -> (threshold: Option<i64>)
    ensures
        match drip_threshold(until as int) {
            Some(t) => threshold == Some(t as i64),
            None => threshold is None,
        },
{
    if until > 7 {
        Some(7)
    } else if until > 1 {
        Some(1)
    } else if until > 0 {
        Some(0)
    } else {
        None
    }
}

/// The later of two times.
pub open spec fn later_of(a: i64, b: i64) -> i64 {
    if a >= b {
        a
    } else {
        b
    }
}

/// The earlier of two times.
pub open spec fn earlier_of(a: i64, b: i64) -> i64 {
    if a <= b {
        a
    } else {
        b
    }
}

/// The request for the action that recomputes the drip notifications of an
/// event.
pub open spec fn regeneration_request(event_id: u128) -> NewDomainActionView {
    NewDomainActionView {
        domain_action_type: DomainActionTypes::RegenerateDripActions,
        payload: ActionPayloadView::Empty,
        main_table: Some(Tables::Events),
        main_table_id: Some(event_id),
        scheduled_at: None,
    }
}

/// The request for the action that sends the drip notification of an event
/// that is due at `at`.
pub open spec fn drip_request(event_id: u128, at: i64) -> NewDomainActionView {
    NewDomainActionView {
        domain_action_type: DomainActionTypes::ProcessTransferDrip,
        payload: ActionPayloadView::ProcessTransferDrip(
            ProcessTransferDripPayload {
                event_id,
                source_or_destination: SourceOrDestination::Destination,
            },
        ),
        main_table: Some(Tables::Events),
        main_table_id: Some(event_id),
        scheduled_at: Some(at),
    }
}

/// The drip notifications of an event that wait to be sent.
pub open spec fn pending_drips(event_id: u128) -> Query {
    Query::Resource {
        main_table: Tables::Events,
        main_table_id: event_id,
        action_type: DomainActionTypes::ProcessTransferDrip,
        status: DomainActionStatus::Pending,
    }
}

impl Event {
    /// The number of days until the event starts, seen from `now`: see
    /// `days_until`. `None` for an event without a start.
    pub fn days_until_event(&self, now: i64) -> (days: Option<i64>)
        ensures
            match self.event_start {
                Some(start) => days matches Some(d) && d == days_until(start, now),
                None => days is None,
            },
    {
        match self.event_start {
            Some(start) => {
                let delta: i128 = start as i128 - now as i128;
                let hours_until_event: i128 = delta / 3_600;
                let mut days_until_event: i128 = hours_until_event / 24;
                if days_until_event >= 0 && hours_until_event % 24 == 23 {
                    days_until_event += 1;
                }
                Some(days_until_event as i64)
            },
            None => None,
        }
    }

    /// The number of minutes until the event starts, seen from `now`: see
    /// `minutes_until`. `None` for an event without a start.
    pub fn minutes_until_event(&self, now: i64) -> (minutes: Option<i64>)
        ensures
            match self.event_start {
                Some(start) => minutes matches Some(m) && m == minutes_until(start, now),
                None => minutes is None,
            },
    {
        match self.event_start {
            Some(start) => {
                let seconds_until_event: i128 = start as i128 - now as i128;
                let mut minutes_until_event: i128 = seconds_until_event / 60;
                if minutes_until_event >= 0 && seconds_until_event % 60 >= 40 {
                    minutes_until_event += 1;
                }
                Some(minutes_until_event as i64)
            },
            None => None,
        }
    }

    /// When the next drip notification for the event goes out, seen from
    /// `now`: see `drip_date`. `None` for an event without a start.
    pub fn next_drip_date(&self, environment: Environment, now: i64) -> (date: Option<i64>)
        requires
            self.event_start matches Some(start) ==> start - 7 * SECONDS_PER_DAY >= i64::MIN,
        ensures
            match self.event_start {
                Some(start) => match drip_date(start, environment, now) {
                    Some(at) => date == Some(at as i64) && at <= start,
                    None => date is None,
                },
                None => date is None,
            },
    {
        let start = match self.event_start {
            Some(start) => start,
            None => {
                return None;
            },
        };
        if start < now {
            return None;
        }
        match environment {
            Environment::Staging => {
                let minutes = match self.minutes_until_event(now) {
                    Some(minutes) => minutes,
                    None => {
                        return None;
                    },
                };
                match next_threshold(minutes) {
                    Some(before) => Some(start - before * SECONDS_PER_MINUTE),
                    None => None,
                }
            },
            _ => {
                let days = match self.days_until_event(now) {
                    Some(days) => days,
                    None => {
                        return None;
                    },
                };
                match next_threshold(days) {
                    Some(before) => if before == 0 {
                        Some(start - TRANSFER_DRIP_NOTIFICATION_HOURS_PRIOR_TO_EVENT * SECONDS_PER_HOUR)
                    } else {
                        Some(start - before * SECONDS_PER_DAY)
                    },
                    None => None,
                }
            },
        }
    }

    /// Whether the event is open to the public at `now`: it has a publish
    /// date, and that date is past.
    pub fn is_published(&self, now: i64) -> (published: bool)
        ensures
            published == (self.publish_date matches Some(date) && date < now),
    {
        match self.publish_date {
            None => false,
            Some(date) => date < now,
        }
    }

    /// The span of time a search looks at. A search for upcoming events
    /// looks from the start asked for, but not from before `now`, to the
    /// end asked for, but not beyond the end of time. A search for past
    /// events looks from the start asked for, but not from before the
    /// beginning of time, to the end asked for, but not beyond `now`.
    pub fn dates_by_past_or_upcoming(
        start_time: Option<i64>,
        end_time: Option<i64>,
        past_or_upcoming: PastOrUpcoming,
        now: i64,
    ) -> (span: (i64, i64))
        ensures
            past_or_upcoming == PastOrUpcoming::Upcoming ==> span == (
                later_of(start_time.unwrap_or(now), now),
                earlier_of(end_time.unwrap_or(END_OF_TIME), END_OF_TIME),
            ),
            past_or_upcoming == PastOrUpcoming::Past ==> span == (
                later_of(start_time.unwrap_or(BEGINNING_OF_TIME), BEGINNING_OF_TIME),
                earlier_of(end_time.unwrap_or(now), now),
            ),
    {
        match past_or_upcoming {
            PastOrUpcoming::Upcoming => {
                let from = match start_time {
                    Some(start) => if start >= now {
                        start
                    } else {
                        now
                    },
                    None => now,
                };
                let to = match end_time {
                    Some(end) => if end <= END_OF_TIME {
                        end
                    } else {
                        END_OF_TIME
                    },
                    None => END_OF_TIME,
                };
                (from, to)
            },
            PastOrUpcoming::Past => {
                let from = match start_time {
                    Some(start) => if start >= BEGINNING_OF_TIME {
                        start
                    } else {
                        BEGINNING_OF_TIME
                    },
                    None => BEGINNING_OF_TIME,
                };
                let to = match end_time {
                    Some(end) => if end <= now {
                        end
                    } else {
                        now
                    },
                    None => now,
                };
                (from, to)
            },
        }
    }

    /// Queues the action that recomputes the drip notifications of the
    /// event, due at once. The id that was drawn for the action being taken
    /// already is the only way to fail.
    pub fn regenerate_drip_actions(&self, store: &mut ActionStore, now: i64) -> (outcome: Result<
        DomainAction,
        DatabaseError,
    >)
        requires
            old(store).wf(),
        ensures
            final(store).wf(),
            outcome is Err ==> holds_random_id(old(store)@),
            outcome is Err ==> holds_random_id(old(store)@),
            match outcome {
                Ok(action) => insert_result(
                    old(store)@,
                    regeneration_request(self.id),
                    action.id,
                    now,
                ) == Ok::<Seq<DomainActionView>, ErrorCode>(final(store)@) && action@
                    == stored(regeneration_request(self.id), action.id, now),
                Err(e) => final(store)@ == old(store)@ && e.error_code
                    == ErrorCode::DuplicateKeyError,
            },
    {
        DomainAction::create(
            DomainActionTypes::RegenerateDripActions,
            ActionPayload::Empty,
            Some(Tables::Events),
            Some(self.id),
        ).commit(store, now)
    }

    /// Calls off the drip notifications of the event that wait to be sent,
    /// and says how many there were.
    pub fn clear_pending_drip_actions(
        &self,
        store: &mut ActionStore,
        now: i64,
    ) -> (called_off: usize)
        requires
            old(store).wf(),
        ensures
            final(store).wf(),
            final(store)@ == cancelled_where(old(store)@, pending_drips(self.id), now),
            called_off == count_open_answers(old(store)@, pending_drips(self.id)),
    {
        store.cancel_matching(
            Query::Resource {
                main_table: Tables::Events,
                main_table_id: self.id,
                action_type: DomainActionTypes::ProcessTransferDrip,
                status: DomainActionStatus::Pending,
            },
            now,
        )
    }

    /// Queues the next drip notification of the event for the time at which
    /// it goes out: see `drip_date`. Nothing is queued, and `Ok(None)`
    /// returned, when there is no such time. The id that was drawn for the
    /// action being taken already is the only way to fail.
    pub fn create_next_transfer_drip_action(
        &self,
        environment: Environment,
        store: &mut ActionStore,
        now: i64,
    ) -> (outcome: Result<Option<DomainAction>, DatabaseError>)
        requires
            old(store).wf(),
            self.event_start matches Some(start) ==> start - 7 * SECONDS_PER_DAY >= i64::MIN,
        ensures
            final(store).wf(),
            outcome is Err ==> holds_random_id(old(store)@),
            outcome is Err ==> holds_random_id(old(store)@),
            match outcome {
                Ok(Some(action)) => self.event_start matches Some(start) && drip_date(
                    start,
                    environment,
                    now,
                ) matches Some(at) && insert_result(
                    old(store)@,
                    drip_request(self.id, at as i64),
                    action.id,
                    now,
                ) == Ok::<Seq<DomainActionView>, ErrorCode>(final(store)@) && action@
                    == stored(
                    drip_request(self.id, at as i64),
                    action.id,
                    now,
                ),
                Ok(None) => final(store)@ == old(store)@ && (self.event_start matches Some(start)
                    ==> drip_date(start, environment, now) is None),
                Err(e) => {
                    &&& final(store)@ == old(store)@
                    &&& e.error_code == ErrorCode::DuplicateKeyError
                    &&& self.event_start matches Some(start)
                    &&& drip_date(start, environment, now) is Some
                },
            },
    {
        match self.next_drip_date(environment, now) {
            Some(next_drip_day) => {
                let mut action = DomainAction::create(
                    DomainActionTypes::ProcessTransferDrip,
                    ActionPayload::ProcessTransferDrip(
                        ProcessTransferDripPayload {
                            event_id: self.id,
                            source_or_destination: SourceOrDestination::Destination,
                        },
                    ),
                    Some(Tables::Events),
                    Some(self.id),
                );
                action.schedule_at(next_drip_day);
                match action.commit(store, now) {
                    Ok(stored) => Ok(Some(stored)),
                    Err(e) => Err(e),
                }
            },
            None => Ok(None),
        }
    }

    /// Queues the recomputation of the drip notifications where an update
    /// calls for it: the event is published and the update has moved its
    /// start. `self` is the event before the update, `updated` the event
    /// after it.
    pub fn regenerate_after_update(
        &self,
        updated: &Event,
        store: &mut ActionStore,
        now: i64,
    ) -> (outcome: Result<Option<DomainAction>, DatabaseError>)
        requires
            old(store).wf(),
        ensures
            final(store).wf(),
            outcome is Err ==> holds_random_id(old(store)@),
            outcome is Err ==> holds_random_id(old(store)@),
            match outcome {
                Ok(Some(action)) => self.event_start != updated.event_start && self.status
                    == EventStatus::Published && insert_result(
                    old(store)@,
                    regeneration_request(updated.id),
                    action.id,
                    now,
                ) == Ok::<Seq<DomainActionView>, ErrorCode>(final(store)@),
                Ok(None) => final(store)@ == old(store)@ && !(self.event_start
                    != updated.event_start && self.status == EventStatus::Published),
                Err(e) => final(store)@ == old(store)@ && e.error_code
                    == ErrorCode::DuplicateKeyError && self.event_start != updated.event_start
                    && self.status == EventStatus::Published,
            },
    {
        let moved = match (self.event_start, updated.event_start) {
            (Some(before), Some(after)) => before != after,
            (None, None) => false,
            _ => true,
        };
        if moved && matches!(self.status, EventStatus::Published) {
            match updated.regenerate_drip_actions(store, now) {
                Ok(action) => Ok(Some(action)),
                Err(e) => Err(e),
            }
        } else {
            Ok(None)
        }
    }
}

/// What keeps an event from being published or unpublished.
#[derive(Clone, Copy, Debug, PartialEq, Eq, Structural)]
pub enum EventIssue {
    /// An event cannot be published without a venue.
    VenueRequired,
    /// An event cannot be published without a promo image.
    PromoImageRequired,
    /// An event cannot be unpublished unless it is published.
    EventMustBePublished,
    /// An event cannot end before it starts.
    EventEndBeforeEventStart,
}

/// Why a change of an event was refused.
#[derive(Debug, PartialEq, Eq)]
pub enum EventError {
    /// The event is not fit for the change: the issues, in the order in
    /// which they are checked.
    Validation(Vec<EventIssue>),
    /// The store failed or refused.
    Database(DatabaseError),
}

/// The issues that keep an event from being published.
pub open spec fn publish_issues(event: Event) -> Seq<EventIssue> {
    (if event.venue_id is None {
        seq![EventIssue::VenueRequired]
    } else {
        Seq::<EventIssue>::empty()
    }) + (if event.promo_image_url is None {
        seq![EventIssue::PromoImageRequired]
    } else {
        Seq::<EventIssue>::empty()
    })
}

/// The event once it has been published at `now`: it keeps the publish date
/// it has, or gets `now` for one.
pub open spec fn published_at(event: Event, now: i64) -> Event {
    Event {
        status: EventStatus::Published,
        publish_date: Some(
            match event.publish_date {
                Some(date) => date,
                None => now,
            },
        ),
        updated_at: now,
        ..event
    }
}

/// The event once it has been unpublished at `now`: a draft without a
/// publish date.
pub open spec fn unpublished_at(event: Event, now: i64) -> Event {
    Event { status: EventStatus::Draft, publish_date: None, updated_at: now, ..event }
}

/// What the log says of the publication of an event.
pub open spec fn publication_text(name: Seq<char>) -> Seq<char> {
    "Event "@ + name + " published"@
}

/// The entry is one of the given type about the event, brought about by
/// the given user at `now`.
pub open spec fn is_entry_about(
    entry: DomainEvent,
    event_type: DomainEventTypes,
    event_id: u128,
    user_id: Option<u128>,
    now: i64,
) -> bool {
    &&& entry.event_type == event_type
    &&& entry.main_table == Tables::Events
    &&& entry.main_table_id == Some(event_id)
    &&& entry.user_id == user_id
    &&& entry.created_at == now
}

impl Event {
    /// Publishes the event at `now` and returns it as it then is. An event
    /// that is published already is returned as it is. An event without a
    /// venue or without a promo image is refused. Otherwise the event is
    /// published, the recomputation of its drip notifications is queued, and
    /// the publication is written to the log of domain events. If the store
    /// refuses the action, nothing has changed; if the log refuses the
    /// entry, the action stays queued.
    pub fn publish(
        &self,
        current_user_id: Option<u128>,
        database: &mut Database,
        now: i64,
    ) -> (outcome: Result<Event, EventError>)
        requires
            old(database).wf(),
        ensures
            final(database).wf(),
            (outcome matches Err(EventError::Database(_))) ==> holds_random_id(
                old(database).actions@,
            ) || logs_random_id(old(database).domain_events.events()),
            self.status != EventStatus::Published && publish_issues(*self).len() == 0
                && !holds_random_id(old(database).actions@) && !logs_random_id(
                old(database).domain_events.events(),
            ) ==> outcome is Ok,
            (outcome matches Err(EventError::Database(_))) ==> holds_random_id(
                old(database).actions@,
            ) || logs_random_id(old(database).domain_events.events()),
            final(database).connection_pool == old(database).connection_pool,
            final(database).domain_events.publishers() == old(database).domain_events.publishers(),
            final(database).domain_events.published() == old(database).domain_events.published(),
            self.status == EventStatus::Published ==> outcome == Ok::<Event, EventError>(*self)
                && *final(database) == *old(database),
            self.status != EventStatus::Published && publish_issues(*self).len() > 0 ==> {
                &&& outcome matches Err(EventError::Validation(issues))
                &&& issues@ == publish_issues(*self)
                &&& *final(database) == *old(database)
            },
            self.status != EventStatus::Published && publish_issues(*self).len() == 0 ==> {
                match outcome {
                    Ok(event) => {
                        &&& event == published_at(*self, now)
                        &&& exists|action_id: u128|
                            insert_result(
                                old(database).actions@,
                                regeneration_request(self.id),
                                action_id,
                                now,
                            ) == Ok::<Seq<DomainActionView>, ErrorCode>(final(database).actions@)
                        &&& final(database).domain_events.events().len() == old(
                            database,
                        ).domain_events.events().len() + 1
                        &&& final(database).domain_events.events().drop_last() == old(
                            database,
                        ).domain_events.events()
                        &&& is_entry_about(
                            final(database).domain_events.events().last(),
                            DomainEventTypes::EventPublished,
                            self.id,
                            current_user_id,
                            now,
                        )
                        &&& final(database).domain_events.events().last().display_text@
                            == publication_text(self.name@)
                    },
                    Err(EventError::Database(e)) => {
                        &&& e.error_code == ErrorCode::DuplicateKeyError
                        &&& final(database).domain_events.events() == old(
                            database,
                        ).domain_events.events()
                        &&& final(database).actions@ == old(database).actions@ || exists|
                            action_id: u128,
                        |
                            insert_result(
                                old(database).actions@,
                                regeneration_request(self.id),
                                action_id,
                                now,
                            ) == Ok::<Seq<DomainActionView>, ErrorCode>(final(database).actions@)
                    },
                    Err(EventError::Validation(_)) => false,
                }
            },
    {
        if matches!(self.status, EventStatus::Published) {
            return Ok(self.clone());
        }
        let mut issues: Vec<EventIssue> = Vec::new();
        if self.venue_id.is_none() {
            issues.push(EventIssue::VenueRequired);
        }
        if self.promo_image_url.is_none() {
            issues.push(EventIssue::PromoImageRequired);
        }
        proof {
            assert(issues@ =~= publish_issues(*self));
        }
        if issues.len() > 0 {
            return Err(EventError::Validation(issues));
        }
        let copy = self.clone();
        let published = Event {
            id: copy.id,
            name: copy.name,
            organization_id: copy.organization_id,
            venue_id: copy.venue_id,
            event_start: copy.event_start,
            door_time: copy.door_time,
            event_end: copy.event_end,
            status: EventStatus::Published,
            publish_date: match copy.publish_date {
                Some(date) => Some(date),
                None => Some(now),
            },
            promo_image_url: copy.promo_image_url,
            cancelled_at: copy.cancelled_at,
            updated_at: now,
        };
        match self.regenerate_drip_actions(&mut database.actions, now) {
            Ok(_) => {},
            Err(e) => {
                return Err(EventError::Database(e));
            },
        }
        let text = String::from_str("Event ").concat(self.name.as_str()).concat(" published");
        let entry = DomainEvent::create(
            DomainEventTypes::EventPublished,
            text,
            Tables::Events,
            Some(self.id),
            current_user_id,
        );
        match entry.commit(&mut database.domain_events, now) {
            Ok(written) => {
                proof {
                    let log = database.domain_events.events();
                    assert(log.last() == written);
                    assert(log.drop_last() =~= old(database).domain_events.events());
                }
                Ok(published)
            },
            Err(e) => Err(EventError::Database(e)),
        }
    }

    /// Unpublishes the event at `now` and returns it as it then is: a draft
    /// without a publish date. An event that is not published is refused.
    /// Otherwise the drip notifications of the event that wait to be sent
    /// are called off and the change is written to the log of domain
    /// events. If the log refuses the entry, nothing has changed.
    pub fn unpublish(
        &self,
        current_user_id: Option<u128>,
        database: &mut Database,
        now: i64,
    ) -> (outcome: Result<Event, EventError>)
        requires
            old(database).wf(),
        ensures
            final(database).wf(),
            (outcome matches Err(EventError::Database(_))) ==> logs_random_id(
                old(database).domain_events.events(),
            ),
            self.status == EventStatus::Published && !logs_random_id(
                old(database).domain_events.events(),
            ) ==> outcome is Ok,
            (outcome matches Err(EventError::Database(_))) ==> logs_random_id(
                old(database).domain_events.events(),
            ),
            final(database).connection_pool == old(database).connection_pool,
            final(database).domain_events.publishers() == old(database).domain_events.publishers(),
            final(database).domain_events.published() == old(database).domain_events.published(),
            self.status != EventStatus::Published ==> {
                &&& outcome matches Err(EventError::Validation(issues))
                &&& issues@ == seq![EventIssue::EventMustBePublished]
                &&& *final(database) == *old(database)
            },
            self.status == EventStatus::Published ==> {
                match outcome {
                    Ok(event) => {
                        &&& event == unpublished_at(*self, now)
                        &&& final(database).actions@ == cancelled_where(
                            old(database).actions@,
                            pending_drips(self.id),
                            now,
                        )
                        &&& final(database).domain_events.events().len() == old(
                            database,
                        ).domain_events.events().len() + 1
                        &&& final(database).domain_events.events().drop_last() == old(
                            database,
                        ).domain_events.events()
                        &&& is_entry_about(
                            final(database).domain_events.events().last(),
                            DomainEventTypes::EventUnpublished,
                            self.id,
                            current_user_id,
                            now,
                        )
                        &&& final(database).domain_events.events().last().display_text@
                            == "Event was unpublished"@
                    },
                    Err(EventError::Database(e)) => {
                        &&& e.error_code == ErrorCode::DuplicateKeyError
                        &&& final(database).actions == old(database).actions
                        &&& final(database).domain_events.events() == old(
                            database,
                        ).domain_events.events()
                    },
                    Err(EventError::Validation(_)) => false,
                }
            },
    {
        if !matches!(self.status, EventStatus::Published) {
            let mut issues: Vec<EventIssue> = Vec::new();
            issues.push(EventIssue::EventMustBePublished);
            proof {
                assert(issues@ =~= seq![EventIssue::EventMustBePublished]);
            }
            return Err(EventError::Validation(issues));
        }
        let copy = self.clone();
        let draft = Event {
            id: copy.id,
            name: copy.name,
            organization_id: copy.organization_id,
            venue_id: copy.venue_id,
            event_start: copy.event_start,
            door_time: copy.door_time,
            event_end: copy.event_end,
            status: EventStatus::Draft,
            publish_date: None,
            promo_image_url: copy.promo_image_url,
            cancelled_at: copy.cancelled_at,
            updated_at: now,
        };
        let entry = DomainEvent::create(
            DomainEventTypes::EventUnpublished,
            String::from_str("Event was unpublished"),
            Tables::Events,
            Some(self.id),
            current_user_id,
        );
        match entry.commit(&mut database.domain_events, now) {
            Ok(written) => {
                proof {
                    let log = database.domain_events.events();
                    assert(log.last() == written);
                    assert(log.drop_last() =~= old(database).domain_events.events());
                }
            },
            Err(e) => {
                return Err(EventError::Database(e));
            },
        }
        self.clear_pending_drip_actions(&mut database.actions, now);
        Ok(draft)
    }
}

/// An event that has not been stored yet.
#[derive(Debug, PartialEq, Eq)]
pub struct NewEvent {
    pub name: String,
    pub organization_id: u128,
    pub venue_id: Option<u128>,
    pub event_start: Option<i64>,
    pub door_time: Option<i64>,
    pub event_end: Option<i64>,
    pub status: EventStatus,
    pub publish_date: Option<i64>,
    pub promo_image_url: Option<String>,
}

/// The changes to make to an event. `None` leaves a field as it is; for the
/// publish date and the promo image, `Some(None)` clears the field.
#[derive(Debug, PartialEq, Eq)]
pub struct EventEditableAttributes {
    pub name: Option<String>,
    pub venue_id: Option<u128>,
    pub event_start: Option<i64>,
    pub door_time: Option<i64>,
    pub event_end: Option<i64>,
    pub publish_date: Option<Option<i64>>,
    pub promo_image_url: Option<Option<String>>,
    pub cancelled_at: Option<i64>,
}

/// An event that has both a start and an end does not end before it
/// starts.
pub open spec fn dates_are_valid(event_start: Option<i64>, event_end: Option<i64>) -> bool {
    !(event_start matches Some(start) && event_end matches Some(end) && end < start)
}

/// The first of two values that is there.
pub open spec fn or_else<A>(first: Option<A>, second: Option<A>) -> Option<A> {
    match first {
        Some(_) => first,
        None => second,
    }
}

/// When a new event ends: when it says, or else a day after its start.
pub open spec fn end_of_new(new: NewEvent) -> Option<i64> {
    match (new.event_end, new.event_start) {
        (None, Some(start)) => Some((start + SECONDS_PER_DAY) as i64),
        _ => new.event_end,
    }
}

/// When the doors of a new event open: when it says, or else an hour
/// before its start.
pub open spec fn doors_of_new(new: NewEvent) -> Option<i64> {
    match (new.door_time, new.event_start) {
        (None, Some(start)) => Some((start - SECONDS_PER_HOUR) as i64),
        _ => new.door_time,
    }
}

/// The event that storing `new` under `id` at `now` brings into being.
pub open spec fn stored_event(new: NewEvent, id: u128, now: i64) -> Event {
    Event {
        id,
        name: new.name,
        organization_id: new.organization_id,
        venue_id: new.venue_id,
        event_start: new.event_start,
        door_time: doors_of_new(new),
        event_end: end_of_new(new),
        status: new.status,
        publish_date: new.publish_date,
        promo_image_url: new.promo_image_url,
        cancelled_at: None,
        updated_at: now,
    }
}

/// What the log says of the creation of an event.
pub open spec fn creation_text(name: Seq<char>) -> Seq<char> {
    "Event '"@ + name + "' created"@
}

/// What the log says of the cancellation of an event.
pub open spec fn cancellation_text(name: Seq<char>) -> Seq<char> {
    "Event '"@ + name + "' cancelled"@
}

/// The publish date an update sets. An update that clears the publish date
/// of a published event sets it to `now` instead: a published event has a
/// publish date.
pub open spec fn publish_date_after(event: Event, attributes: EventEditableAttributes, now: i64) -> Option<
    i64,
> {
    match attributes.publish_date {
        Some(Some(date)) => Some(date),
        Some(None) => if event.status == EventStatus::Published {
            Some(now)
        } else {
            None
        },
        None => event.publish_date,
    }
}

/// The event once the changes have been made at `now`.
pub open spec fn updated_event(event: Event, attributes: EventEditableAttributes, now: i64) -> Event {
    Event {
        id: event.id,
        name: match attributes.name {
            Some(name) => name,
            None => event.name,
        },
        organization_id: event.organization_id,
        venue_id: or_else(attributes.venue_id, event.venue_id),
        event_start: or_else(attributes.event_start, event.event_start),
        door_time: or_else(attributes.door_time, event.door_time),
        event_end: or_else(attributes.event_end, event.event_end),
        status: event.status,
        publish_date: publish_date_after(event, attributes, now),
        promo_image_url: match attributes.promo_image_url {
            Some(url) => url,
            None => event.promo_image_url,
        },
        cancelled_at: or_else(attributes.cancelled_at, event.cancelled_at),
        updated_at: now,
    }
}

fn first_of(first: Option<i64>, second: Option<i64>) -> (chosen: Option<i64>)
    ensures
        chosen == or_else(first, second),
{
    match first {
        Some(_) => first,
        None => second,
    }
}

fn check_dates(event_start: Option<i64>, event_end: Option<i64>) -> (valid: bool)
    ensures
        valid == dates_are_valid(event_start, event_end),
{
    match (event_start, event_end) {
        (Some(start), Some(end)) => !(end < start),
        _ => true,
    }
}

fn one_issue(issue: EventIssue) -> (issues: Vec<EventIssue>)
    ensures
        issues@ == seq![issue],
{
    let mut issues: Vec<EventIssue> = Vec::new();
    issues.push(issue);
    assert(issues@ =~= seq![issue]);
    issues
}

fn copy_of_text(text: &Option<String>) -> (copy: Option<String>)
    ensures
        copy == *text,
{
    match text {
        Some(t) => Some(t.clone()),
        None => None,
    }
}

impl NewEvent {
    /// The status of an event for which none is given.
    pub fn default_status() -> (status: EventStatus)
        ensures
            status == EventStatus::Draft,
    {
        EventStatus::Draft
    }

    /// Stores the event under the id the caller has drawn for it and writes
    /// its creation to the log of domain events. An event with a start and
    /// no end ends a day after its start; one with a start and no door time
    /// opens its doors an hour before. An event that ends before it starts
    /// is refused. If the log refuses the entry, the event is not stored.
    ///
    /// The formats of the fields are the caller's to check.
    pub fn commit_as(
        &self,
        id: u128,
        current_user_id: Option<u128>,
        database: &mut Database,
        now: i64,
    ) -> (outcome: Result<Event, EventError>)
        requires
            old(database).wf(),
            self.event_start matches Some(start) ==> i64::MIN <= start - SECONDS_PER_HOUR && start
                + SECONDS_PER_DAY <= i64::MAX,
        ensures
            final(database).wf(),
            (outcome matches Err(EventError::Database(_))) ==> logs_random_id(
                old(database).domain_events.events(),
            ),
            (outcome matches Err(EventError::Database(_))) ==> logs_random_id(
                old(database).domain_events.events(),
            ),
            final(database).actions == old(database).actions,
            final(database).connection_pool == old(database).connection_pool,
            final(database).domain_events.publishers() == old(database).domain_events.publishers(),
            final(database).domain_events.published() == old(database).domain_events.published(),
            !dates_are_valid(self.event_start, end_of_new(*self)) ==> {
                &&& outcome matches Err(EventError::Validation(issues))
                &&& issues@ == seq![EventIssue::EventEndBeforeEventStart]
                &&& *final(database) == *old(database)
            },
            dates_are_valid(self.event_start, end_of_new(*self)) ==> {
                match outcome {
                    Ok(event) => {
                        &&& event == stored_event(*self, id, now)
                        &&& final(database).domain_events.events().len() == old(
                            database,
                        ).domain_events.events().len() + 1
                        &&& final(database).domain_events.events().drop_last() == old(
                            database,
                        ).domain_events.events()
                        &&& is_entry_about(
                            final(database).domain_events.events().last(),
                            DomainEventTypes::EventCreated,
                            id,
                            current_user_id,
                            now,
                        )
                        &&& final(database).domain_events.events().last().display_text@
                            == creation_text(self.name@)
                    },
                    Err(EventError::Database(e)) => {
                        &&& e.error_code == ErrorCode::DuplicateKeyError
                        &&& final(database).domain_events.events() == old(
                            database,
                        ).domain_events.events()
                    },
                    Err(EventError::Validation(_)) => false,
                }
            },
    {
        let mut event_end = self.event_end;
        let mut door_time = self.door_time;
        match self.event_start {
            Some(event_start) => {
                if event_end.is_none() {
                    event_end = Some(event_start + SECONDS_PER_DAY);
                }
                if door_time.is_none() {
                    door_time = Some(event_start - SECONDS_PER_HOUR);
                }
            },
            None => {},
        }
        if !check_dates(self.event_start, event_end) {
            return Err(EventError::Validation(one_issue(EventIssue::EventEndBeforeEventStart)));
        }
        let event = Event {
            id,
            name: self.name.clone(),
            organization_id: self.organization_id,
            venue_id: self.venue_id,
            event_start: self.event_start,
            door_time,
            event_end,
            status: self.status,
            publish_date: self.publish_date,
            promo_image_url: copy_of_text(&self.promo_image_url),
            cancelled_at: None,
            updated_at: now,
        };
        let text = String::from_str("Event '").concat(self.name.as_str()).concat("' created");
        let entry = DomainEvent::create(
            DomainEventTypes::EventCreated,
            text,
            Tables::Events,
            Some(id),
            current_user_id,
        );
        match entry.commit(&mut database.domain_events, now) {
            Ok(written) => {
                proof {
                    let log = database.domain_events.events();
                    assert(log.last() == written);
                    assert(log.drop_last() =~= old(database).domain_events.events());
                }
                Ok(event)
            },
            Err(e) => Err(EventError::Database(e)),
        }
    }

    /// Stores the event under a fresh id: see `commit_as`.
    pub fn commit(&self, current_user_id: Option<u128>, database: &mut Database, now: i64) -> (outcome: Result<
        Event,
        EventError,
    >)
        requires
            old(database).wf(),
            self.event_start matches Some(start) ==> i64::MIN <= start - SECONDS_PER_HOUR && start
                + SECONDS_PER_DAY <= i64::MAX,
        ensures
            final(database).wf(),
            (outcome matches Err(EventError::Database(_))) ==> logs_random_id(
                old(database).domain_events.events(),
            ),
            (outcome matches Err(EventError::Database(_))) ==> logs_random_id(
                old(database).domain_events.events(),
            ),
            final(database).actions == old(database).actions,
            final(database).connection_pool == old(database).connection_pool,
            final(database).domain_events.publishers() == old(database).domain_events.publishers(),
            final(database).domain_events.published() == old(database).domain_events.published(),
            !dates_are_valid(self.event_start, end_of_new(*self)) ==> {
                &&& outcome matches Err(EventError::Validation(issues))
                &&& issues@ == seq![EventIssue::EventEndBeforeEventStart]
                &&& *final(database) == *old(database)
            },
            dates_are_valid(self.event_start, end_of_new(*self)) ==> {
                match outcome {
                    Ok(event) => {
                        &&& is_random_id(event.id)
                        &&& event == stored_event(*self, event.id, now)
                        &&& final(database).domain_events.events().len() == old(
                            database,
                        ).domain_events.events().len() + 1
                        &&& final(database).domain_events.events().drop_last() == old(
                            database,
                        ).domain_events.events()
                        &&& is_entry_about(
                            final(database).domain_events.events().last(),
                            DomainEventTypes::EventCreated,
                            event.id,
                            current_user_id,
                            now,
                        )
                        &&& final(database).domain_events.events().last().display_text@
                            == creation_text(self.name@)
                    },
                    Err(EventError::Database(e)) => {
                        &&& e.error_code == ErrorCode::DuplicateKeyError
                        &&& final(database).domain_events.events() == old(
                            database,
                        ).domain_events.events()
                    },
                    Err(EventError::Validation(_)) => false,
                }
            },
    {
        let id = random_id();
        self.commit_as(id, current_user_id, database, now)
    }
}

impl Event {
    /// Describes a new event.
    pub fn create(
        name: String,
        status: EventStatus,
        organization_id: u128,
        venue_id: Option<u128>,
        event_start: Option<i64>,
        door_time: Option<i64>,
        publish_date: Option<i64>,
        event_end: Option<i64>,
    ) -> (new: NewEvent)
        ensures
            new == (NewEvent {
                name,
                organization_id,
                venue_id,
                event_start,
                door_time,
                event_end,
                status,
                publish_date,
                promo_image_url: None,
            }),
    {
        NewEvent {
            name,
            organization_id,
            venue_id,
            event_start,
            door_time,
            event_end,
            status,
            publish_date,
            promo_image_url: None,
        }
    }

    /// Makes the changes at `now` and returns the event as it then is. An
    /// update that would leave the event ending before it starts is
    /// refused. Where the event is published and the update has moved its
    /// start, the recomputation of its drip notifications is queued. Nothing
    /// is written to the log of domain events.
    ///
    /// The formats of the fields are the caller's to check.
    pub fn update(
        &self,
        _current_user_id: Option<u128>,
        attributes: EventEditableAttributes,
        store: &mut ActionStore,
        now: i64,
    ) -> (outcome: Result<Event, EventError>)
        requires
            old(store).wf(),
        ensures
            final(store).wf(),
            (outcome matches Err(EventError::Database(_))) ==> holds_random_id(old(store)@),
            (outcome matches Err(EventError::Database(_))) ==> holds_random_id(old(store)@),
            !dates_are_valid(
                or_else(attributes.event_start, self.event_start),
                or_else(attributes.event_end, self.event_end),
            ) ==> {
                &&& outcome matches Err(EventError::Validation(issues))
                &&& issues@ == seq![EventIssue::EventEndBeforeEventStart]
                &&& final(store)@ == old(store)@
            },
            dates_are_valid(
                or_else(attributes.event_start, self.event_start),
                or_else(attributes.event_end, self.event_end),
            ) ==> {
                let moved = self.status == EventStatus::Published && self.event_start != or_else(
                    attributes.event_start,
                    self.event_start,
                );
                match outcome {
                    Ok(event) => {
                        &&& event == updated_event(*self, attributes, now)
                        &&& !moved ==> final(store)@ == old(store)@
                        &&& moved ==> exists|action_id: u128|
                            insert_result(
                                old(store)@,
                                regeneration_request(self.id),
                                action_id,
                                now,
                            ) == Ok::<Seq<DomainActionView>, ErrorCode>(final(store)@)
                    },
                    Err(EventError::Database(e)) => {
                        &&& moved
                        &&& e.error_code == ErrorCode::DuplicateKeyError
                        &&& final(store)@ == old(store)@
                    },
                    Err(EventError::Validation(_)) => false,
                }
            },
    {
        let event_start = first_of(attributes.event_start, self.event_start);
        let event_end = first_of(attributes.event_end, self.event_end);
        if !check_dates(event_start, event_end) {
            return Err(EventError::Validation(one_issue(EventIssue::EventEndBeforeEventStart)));
        }
        let publish_date = match attributes.publish_date {
            Some(Some(date)) => Some(date),
            Some(None) => if matches!(self.status, EventStatus::Published) {
                Some(now)
            } else {
                None
            },
            None => self.publish_date,
        };
        let result = Event {
            id: self.id,
            name: match attributes.name {
                Some(name) => name,
                None => self.name.clone(),
            },
            organization_id: self.organization_id,
            venue_id: match attributes.venue_id {
                Some(_) => attributes.venue_id,
                None => self.venue_id,
            },
            event_start,
            door_time: first_of(attributes.door_time, self.door_time),
            event_end,
            status: self.status,
            publish_date,
            promo_image_url: match attributes.promo_image_url {
                Some(url) => url,
                None => copy_of_text(&self.promo_image_url),
            },
            cancelled_at: first_of(attributes.cancelled_at, self.cancelled_at),
            updated_at: now,
        };
        match self.regenerate_after_update(&result, store, now) {
            Ok(_) => Ok(result),
            Err(e) => Err(EventError::Database(e)),
        }
    }

    /// Cancels the event at `now`, returns it as it then is, and writes the
    /// cancellation to the log of domain events. If the log refuses the
    /// entry, nothing has changed.
    pub fn cancel(
        self,
        current_user_id: Option<u128>,
        database: &mut Database,
        now: i64,
    ) -> (outcome: Result<Event, DatabaseError>)
        requires
            old(database).wf(),
        ensures
            final(database).wf(),
            outcome is Err ==> logs_random_id(old(database).domain_events.events()),
            outcome is Err ==> logs_random_id(old(database).domain_events.events()),
            final(database).actions == old(database).actions,
            final(database).connection_pool == old(database).connection_pool,
            final(database).domain_events.publishers() == old(database).domain_events.publishers(),
            final(database).domain_events.published() == old(database).domain_events.published(),
            match outcome {
                Ok(event) => {
                    &&& event == (Event { cancelled_at: Some(now), ..self })
                    &&& final(database).domain_events.events().len() == old(
                        database,
                    ).domain_events.events().len() + 1
                    &&& final(database).domain_events.events().drop_last() == old(
                        database,
                    ).domain_events.events()
                    &&& is_entry_about(
                        final(database).domain_events.events().last(),
                        DomainEventTypes::EventCancelled,
                        self.id,
                        current_user_id,
                        now,
                    )
                    &&& final(database).domain_events.events().last().display_text@
                        == cancellation_text(self.name@)
                },
                Err(e) => {
                    &&& e.error_code == ErrorCode::DuplicateKeyError
                    &&& final(database).domain_events.events() == old(
                        database,
                    ).domain_events.events()
                },
            },
    {
        let text = String::from_str("Event '").concat(self.name.as_str()).concat("' cancelled");
        let entry = DomainEvent::create(
            DomainEventTypes::EventCancelled,
            text,
            Tables::Events,
            Some(self.id),
            current_user_id,
        );
        match entry.commit(&mut database.domain_events, now) {
            Ok(written) => {
                proof {
                    let log = database.domain_events.events();
                    assert(log.last() == written);
                    assert(log.drop_last() =~= old(database).domain_events.events());
                }
                Ok(
                    Event {
                        id: self.id,
                        name: self.name,
                        organization_id: self.organization_id,
                        venue_id: self.venue_id,
                        event_start: self.event_start,
                        door_time: self.door_time,
                        event_end: self.event_end,
                        status: self.status,
                        publish_date: self.publish_date,
                        promo_image_url: self.promo_image_url,
                        cancelled_at: Some(now),
                        updated_at: self.updated_at,
                    },
                )
            },
            Err(e) => Err(e),
        }
    }
}

} // verus!
