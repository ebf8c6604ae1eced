//! Stop-time adjustment and the board query: filtering a stop's raw
//! stop-events against the calendar and the reference moment, and
//! ordering what remains by adjusted timestamp.
//!
//! A stop-event's offset counts seconds past midnight of its service-day
//! and may reach past 24 hours; the service-day of an event discovered
//! relative to a reference date is that date moved back by the whole
//! days contained in the offset, and the adjusted timestamp is midnight
//! of the service-day plus the offset.

use vstd::prelude::*;

use crate::dates::{Date, DateTime, SECONDS_PER_DAY};
use crate::index::{ScheduleError, ScheduleErrorModel, ServiceCalendarIndex};
use crate::parse::{parse_duration, parse_duration_spec};
use crate::service::{available, lemma_unavailable_before_day_one, ServiceModel};

verus! {

/// Which offset of a stop-event drives adjustment, filtering and order.
#[derive(Clone, Copy, PartialEq, Eq, Structural, Debug)]
pub enum BoardType {
    Arrival,
    Departure,
}

/// A scheduled visit of a trip at a stop, as fetched per query.
#[derive(Clone, Debug, PartialEq, Eq)]
pub struct StopEvent {
    pub trip_id: u32,
    pub service_id: u16,
    /// Seconds past midnight of the service-day; may exceed one day.
    pub arrival_offset: u32,
    pub departure_offset: u32,
    pub short_name: String,
    pub head_sign: String,
}

/// The offset the board type selects.
pub open spec fn spec_offset(e: StopEvent, board_type: BoardType) -> int {
    match board_type {
        BoardType::Arrival => e.arrival_offset as int,
        BoardType::Departure => e.departure_offset as int,
    }
}

/// The service-day of `e` relative to `reference_day`: the reference
/// date moved back by the whole days the offset contains.
pub open spec fn spec_service_day(e: StopEvent, board_type: BoardType, reference_day: int) -> int {
    reference_day - spec_offset(e, board_type) / (SECONDS_PER_DAY as int)
}

/// The absolute moment of `e`: midnight of its service-day plus its
/// offset, as seconds from midnight of day 0.
pub open spec fn spec_adjusted(e: StopEvent, board_type: BoardType, reference_day: int) -> int {
    spec_service_day(e, board_type, reference_day) * (SECONDS_PER_DAY as int) + spec_offset(
        e,
        board_type,
    )
}

/// Whether the board keeps `e`: its service runs on its service-day and
/// its adjusted moment is not before the reference moment.
pub open spec fn spec_keep(
    e: StopEvent,
    services: Map<u16, ServiceModel>,
    board_type: BoardType,
    reference: DateTime,
) -> bool {
    &&& available(services[e.service_id], spec_service_day(e, board_type, reference.date@))
    &&& spec_adjusted(e, board_type, reference.date@) >= reference.timestamp()
}

/// Non-decreasing by adjusted timestamp.
pub open spec fn sorted_by_adjusted(s: Seq<StopEvent>, board_type: BoardType, reference_day: int) -> bool {
    forall|i: int, j: int|
        0 <= i < j < s.len() ==> spec_adjusted(#[trigger] s[i], board_type, reference_day)
            <= spec_adjusted(#[trigger] s[j], board_type, reference_day)
}

/// `e` placed after every element of `acc` whose adjusted timestamp is
/// not greater: the insertion a stable sort makes.
pub open spec fn insert_sorted(
    acc: Seq<StopEvent>,
    e: StopEvent,
    board_type: BoardType,
    reference_day: int,
) -> Seq<StopEvent>
    decreases acc.len(),
{
    if acc.len() == 0 {
        seq![e]
    } else if spec_adjusted(acc.last(), board_type, reference_day) <= spec_adjusted(
        e,
        board_type,
        reference_day,
    ) {
        acc.push(e)
    } else {
        insert_sorted(acc.drop_last(), e, board_type, reference_day).push(acc.last())
    }
}

/// The board the events from position 0 on build on top of `acc`: each
/// event needs its service in the index (else its id is the error), a
/// kept event is inserted in order, a dropped one leaves no trace.
pub open spec fn board_fold(
    events: Seq<StopEvent>,
    acc: Seq<StopEvent>,
    services: Map<u16, ServiceModel>,
    board_type: BoardType,
    reference: DateTime,
) -> Result<Seq<StopEvent>, u16>
    decreases events.len(),
{
    if events.len() == 0 {
        Ok(acc)
    } else if !services.contains_key(events[0].service_id) {
        Err(events[0].service_id)
    } else {
        board_fold(
            events.drop_first(),
            if spec_keep(events[0], services, board_type, reference) {
                insert_sorted(acc, events[0], board_type, reference.date@)
            } else {
                acc
            },
            services,
            board_type,
            reference,
        )
    }
}

/// The displayable board of a raw stop-event collection.
pub open spec fn board_spec(
    events: Seq<StopEvent>,
    services: Map<u16, ServiceModel>,
    board_type: BoardType,
    reference: DateTime,
) -> Result<Seq<StopEvent>, u16> {
    board_fold(events, Seq::empty(), services, board_type, reference)
}

impl StopEvent {
    /// A stop-event from the textual fields of one raw stop-time row.
    /// The offsets must be `HH:MM:SS` strings; the first that is not
    /// (arrival before departure) is the error.
    pub fn from_row(
        arrival_time: &str,
        departure_time: &str,
        trip_id: u32,
        service_id: u16,
        short_name: String,
        head_sign: String,
    ) -> (r: Result<StopEvent, ScheduleError>)
        ensures
            match r {
                Ok(e) => {
                    &&& parse_duration_spec(arrival_time@) == Some(e.arrival_offset as int)
                    &&& parse_duration_spec(departure_time@) == Some(e.departure_offset as int)
                    &&& e.trip_id == trip_id
                    &&& e.service_id == service_id
                    &&& e.short_name == short_name
                    &&& e.head_sign == head_sign
                },
                Err(err) => {
                    ||| (parse_duration_spec(arrival_time@) is None && err@
                        == ScheduleErrorModel::MalformedTime(arrival_time@))
                    ||| (parse_duration_spec(arrival_time@) is Some && parse_duration_spec(
                        departure_time@,
                    ) is None && err@ == ScheduleErrorModel::MalformedTime(departure_time@))
                },
            },
    {
        let arrival_offset = match parse_duration(arrival_time) {
            Some(v) => v,
            None => {
                return Err(ScheduleError::MalformedTime(arrival_time.to_owned()));
            },
        };
        let departure_offset = match parse_duration(departure_time) {
            Some(v) => v,
            None => {
                return Err(ScheduleError::MalformedTime(departure_time.to_owned()));
            },
        };
        Ok(
            StopEvent {
                trip_id,
                service_id,
                arrival_offset,
                departure_offset,
                short_name,
                head_sign,
            },
        )
    }

    /// The offset the board type selects.
    pub fn offset(&self, board_type: BoardType) -> (r: u32)
        ensures
            r == spec_offset(*self, board_type),
    {
        match board_type {
            BoardType::Arrival => self.arrival_offset,
            BoardType::Departure => self.departure_offset,
        }
    }

    /// Day number of the event's service-day relative to `reference_date`.
    pub fn service_day(&self, board_type: BoardType, reference_date: &Date) -> (d: i64)
        requires
            reference_date.wf(),
        ensures
            d == spec_service_day(*self, board_type, reference_date@),
            d <= reference_date@,
    {
        let off = self.offset(board_type);
        reference_date.day - (off / SECONDS_PER_DAY) as i64
    }

    /// The event's absolute moment: midnight of its service-day plus its
    /// offset, as seconds from midnight of day 0.
    pub fn adjusted_timestamp(&self, board_type: BoardType, reference_date: &Date) -> (t: i64)
        requires
            reference_date.wf(),
        ensures
            t == spec_adjusted(*self, board_type, reference_date@),
    {
        let off = self.offset(board_type);
        let day: i64 = self.service_day(board_type, reference_date);
        day * 86400 + off as i64
    }

    /// Whether the event's adjusted moment is at or after `reference`.
    pub fn is_after_adjusted_time(&self, board_type: BoardType, reference: &DateTime) -> (b: bool)
        requires
            reference.wf(),
        ensures
            b == (spec_adjusted(*self, board_type, reference.date@) >= reference.timestamp()),
    {
        let t = self.adjusted_timestamp(board_type, &reference.date);
        let r: i64 = reference.date.day * 86400 + reference.seconds as i64;
        t >= r
    }
}

/// Characterizes `insert_sorted` by the insertion point: with every
/// element from `j` on greater than `e` and the one before `j` (if any)
/// not greater, `e` lands exactly at position `j`.
proof fn lemma_insert_sorted_at(
    acc: Seq<StopEvent>,
    e: StopEvent,
    board_type: BoardType,
    reference_day: int,
    j: int,
)
    requires
        0 <= j <= acc.len(),
        forall|k: int|
            j <= k < acc.len() ==> spec_adjusted(#[trigger] acc[k], board_type, reference_day)
                > spec_adjusted(e, board_type, reference_day),
        j > 0 ==> spec_adjusted(acc[j - 1], board_type, reference_day) <= spec_adjusted(
            e,
            board_type,
            reference_day,
        ),
    ensures
        insert_sorted(acc, e, board_type, reference_day) == acc.subrange(0, j).push(e)
            + acc.subrange(j, acc.len() as int),
    decreases acc.len(),
{
    if j == acc.len() {
        if acc.len() == 0 {
            assert(insert_sorted(acc, e, board_type, reference_day) =~= acc.subrange(0, j).push(e)
                + acc.subrange(j, acc.len() as int));
        } else {
            assert(insert_sorted(acc, e, board_type, reference_day) =~= acc.subrange(0, j).push(e)
                + acc.subrange(j, acc.len() as int));
        }
    } else {
        lemma_insert_sorted_at(acc.drop_last(), e, board_type, reference_day, j);
        assert(acc.drop_last().subrange(0, j) =~= acc.subrange(0, j));
        assert(acc.drop_last().subrange(j, acc.len() - 1) =~= acc.subrange(j, acc.len() - 1));
        assert(insert_sorted(acc, e, board_type, reference_day) =~= acc.subrange(0, j).push(e)
            + acc.subrange(j, acc.len() as int));
    }
}

/// The events of `s` whose adjusted timestamp is `k`, in the order `s`
/// holds them.
pub open spec fn events_at(
    s: Seq<StopEvent>,
    board_type: BoardType,
    reference_day: int,
    k: int,
) -> Seq<StopEvent>
    decreases s.len(),
{
    if s.len() == 0 {
        Seq::empty()
    } else {
        let rest = events_at(s.drop_first(), board_type, reference_day, k);
        if spec_adjusted(s[0], board_type, reference_day) == k {
            seq![s[0]] + rest
        } else {
            rest
        }
    }
}

/// The kept events of `events` whose adjusted timestamp is `k`, in the
/// order they were supplied.
pub open spec fn kept_at(
    events: Seq<StopEvent>,
    services: Map<u16, ServiceModel>,
    board_type: BoardType,
    reference: DateTime,
    k: int,
) -> Seq<StopEvent>
    decreases events.len(),
{
    if events.len() == 0 {
        Seq::empty()
    } else {
        let rest = kept_at(events.drop_first(), services, board_type, reference, k);
        if spec_keep(events[0], services, board_type, reference) && spec_adjusted(
            events[0],
            board_type,
            reference.date@,
        ) == k {
            seq![events[0]] + rest
        } else {
            rest
        }
    }
}

/// Appending one event extends its timestamp's slice by that event and
/// no other slice.
proof fn lemma_events_at_push(
    s: Seq<StopEvent>,
    x: StopEvent,
    board_type: BoardType,
    reference_day: int,
    k: int,
)
    ensures
        events_at(s.push(x), board_type, reference_day, k) == events_at(
            s,
            board_type,
            reference_day,
            k,
        ) + (if spec_adjusted(x, board_type, reference_day) == k {
            seq![x]
        } else {
            Seq::empty()
        }),
    decreases s.len(),
{
    let tail: Seq<StopEvent> = if spec_adjusted(x, board_type, reference_day) == k {
        seq![x]
    } else {
        Seq::empty()
    };
    if s.len() == 0 {
        assert(s.push(x).drop_first() =~= Seq::<StopEvent>::empty());
        assert(s.push(x)[0] == x);
        assert(events_at(s.push(x).drop_first(), board_type, reference_day, k)
            == Seq::<StopEvent>::empty());
        assert(events_at(s, board_type, reference_day, k) == Seq::<StopEvent>::empty());
        assert(events_at(s.push(x), board_type, reference_day, k) =~= events_at(
            s,
            board_type,
            reference_day,
            k,
        ) + tail);
    } else {
        assert(s.push(x).drop_first() =~= s.drop_first().push(x));
        lemma_events_at_push(s.drop_first(), x, board_type, reference_day, k);
        assert(s.push(x)[0] == s[0]);
        assert(events_at(s.push(x), board_type, reference_day, k) =~= events_at(
            s,
            board_type,
            reference_day,
            k,
        ) + tail);
    }
}

/// Stable insertion extends the inserted event's timestamp slice at its
/// end and leaves every other slice as it was.
proof fn lemma_insert_sorted_events_at(
    acc: Seq<StopEvent>,
    e: StopEvent,
    board_type: BoardType,
    reference_day: int,
    k: int,
)
    ensures
        events_at(insert_sorted(acc, e, board_type, reference_day), board_type, reference_day, k)
            == events_at(acc, board_type, reference_day, k) + (if spec_adjusted(
            e,
            board_type,
            reference_day,
        ) == k {
            seq![e]
        } else {
            Seq::empty()
        }),
    decreases acc.len(),
{
    let tail: Seq<StopEvent> = if spec_adjusted(e, board_type, reference_day) == k {
        seq![e]
    } else {
        Seq::empty()
    };
    if acc.len() == 0 {
        assert(insert_sorted(acc, e, board_type, reference_day) == seq![e]);
        assert(seq![e].drop_first() =~= Seq::<StopEvent>::empty());
        assert(seq![e][0] == e);
        assert(events_at(seq![e].drop_first(), board_type, reference_day, k)
            == Seq::<StopEvent>::empty());
        assert(events_at(acc, board_type, reference_day, k) == Seq::<StopEvent>::empty());
        assert(events_at(seq![e], board_type, reference_day, k) =~= events_at(
            acc,
            board_type,
            reference_day,
            k,
        ) + tail);
    } else if spec_adjusted(acc.last(), board_type, reference_day) <= spec_adjusted(
        e,
        board_type,
        reference_day,
    ) {
        lemma_events_at_push(acc, e, board_type, reference_day, k);
    } else {
        let inner = insert_sorted(acc.drop_last(), e, board_type, reference_day);
        lemma_events_at_push(inner, acc.last(), board_type, reference_day, k);
        lemma_insert_sorted_events_at(acc.drop_last(), e, board_type, reference_day, k);
        lemma_events_at_push(acc.drop_last(), acc.last(), board_type, reference_day, k);
        assert(acc.drop_last().push(acc.last()) =~= acc);
        let last_tail: Seq<StopEvent> = if spec_adjusted(acc.last(), board_type, reference_day)
            == k {
            seq![acc.last()]
        } else {
            Seq::empty()
        };
        assert(events_at(inner.push(acc.last()), board_type, reference_day, k) =~= events_at(
            acc,
            board_type,
            reference_day,
            k,
        ) + tail) by {
            if spec_adjusted(e, board_type, reference_day) == k {
                assert(last_tail =~= Seq::<StopEvent>::empty());
                assert((events_at(acc.drop_last(), board_type, reference_day, k) + tail)
                    + last_tail =~= (events_at(acc.drop_last(), board_type, reference_day, k)
                    + last_tail) + tail);
            } else {
                assert(tail =~= Seq::<StopEvent>::empty());
                assert((events_at(acc.drop_last(), board_type, reference_day, k) + tail)
                    + last_tail =~= (events_at(acc.drop_last(), board_type, reference_day, k)
                    + last_tail) + tail);
            }
        }
    }
}

/// The board built on `acc` holds, at each timestamp `k`, the slice of
/// `acc` followed by the kept input events at `k`, in supplied order.
proof fn lemma_board_fold_stable(
    events: Seq<StopEvent>,
    acc: Seq<StopEvent>,
    services: Map<u16, ServiceModel>,
    board_type: BoardType,
    reference: DateTime,
    out: Seq<StopEvent>,
    k: int,
)
    requires
        board_fold(events, acc, services, board_type, reference) == Ok::<_, u16>(out),
    ensures
        events_at(out, board_type, reference.date@, k) == events_at(
            acc,
            board_type,
            reference.date@,
            k,
        ) + kept_at(events, services, board_type, reference, k),
    decreases events.len(),
{
    let rd = reference.date@;
    if events.len() == 0 {
        assert(out == acc);
        assert(events_at(acc, board_type, rd, k) + kept_at(events, services, board_type, reference, k)
            =~= events_at(acc, board_type, rd, k));
    } else {
        let e = events[0];
        let acc1 = if spec_keep(e, services, board_type, reference) {
            insert_sorted(acc, e, board_type, rd)
        } else {
            acc
        };
        lemma_board_fold_stable(events.drop_first(), acc1, services, board_type, reference, out, k);
        if spec_keep(e, services, board_type, reference) {
            lemma_insert_sorted_events_at(acc, e, board_type, rd, k);
            if spec_adjusted(e, board_type, rd) == k {
                assert((events_at(acc, board_type, rd, k) + seq![e]) + kept_at(
                    events.drop_first(),
                    services,
                    board_type,
                    reference,
                    k,
                ) =~= events_at(acc, board_type, rd, k) + (seq![e] + kept_at(
                    events.drop_first(),
                    services,
                    board_type,
                    reference,
                    k,
                )));
            } else {
                assert(events_at(acc, board_type, rd, k) + Seq::<StopEvent>::empty() =~= events_at(
                    acc,
                    board_type,
                    rd,
                    k,
                ));
            }
        }
    }
}

/// Stability of the board order: for every adjusted timestamp `k`, the
/// board's events at `k` are exactly the kept input events at `k`, in
/// the order they were supplied. Together with `sorted_by_adjusted`
/// this pins the board sequence down: non-decreasing by adjusted
/// timestamp, ties in supplied order.
pub proof fn lemma_board_stable(
    events: Seq<StopEvent>,
    services: Map<u16, ServiceModel>,
    board_type: BoardType,
    reference: DateTime,
    out: Seq<StopEvent>,
    k: int,
)
    requires
        board_spec(events, services, board_type, reference) == Ok::<_, u16>(out),
    ensures
        events_at(out, board_type, reference.date@, k) == kept_at(
            events,
            services,
            board_type,
            reference,
            k,
        ),
{
    lemma_board_fold_stable(events, Seq::empty(), services, board_type, reference, out, k);
    assert(events_at(Seq::empty(), board_type, reference.date@, k) + kept_at(
        events,
        services,
        board_type,
        reference,
        k,
    ) =~= kept_at(events, services, board_type, reference, k));
}

/// Filters and orders raw stop-events into the displayable board for
/// `reference`: events of services not running on their service-day and
/// events already past are dropped, the rest is sorted non-decreasing by
/// adjusted timestamp, ties keeping their supplied order. An event whose
/// service id the index does not hold is a data-integrity error.
pub fn board(
    events: Vec<StopEvent>,
    reference: &DateTime,
    board_type: BoardType,
    index: &ServiceCalendarIndex,
) -> (r: Result<Vec<StopEvent>, ScheduleError>)
    requires
        reference.wf(),
        index.wf(),
    ensures
        match r {
            Ok(out) => board_spec(events@, index@, board_type, *reference) == Ok::<_, u16>(out@)
                && sorted_by_adjusted(out@, board_type, reference.date@) && forall|i: int|
                0 <= i < out@.len() ==> index@.contains_key((#[trigger] out@[i]).service_id)
                    && spec_keep(out@[i], index@, board_type, *reference),
            Err(e) => board_spec(events@, index@, board_type, *reference) matches Err(id)
                && e == ScheduleError::UnknownService(id),
        },
{
    let ghost all = events@;
    let mut remaining = events;
    let mut out: Vec<StopEvent> = Vec::new();
    proof {
        assert(out@ =~= Seq::<StopEvent>::empty());
    }
    while remaining.len() > 0
        invariant
            reference.wf(),
            index.wf(),
            all == events@,
            board_fold(all, Seq::empty(), index@, board_type, *reference) == board_fold(
                remaining@,
                out@,
                index@,
                board_type,
                *reference,
            ),
            sorted_by_adjusted(out@, board_type, reference.date@),
            forall|i: int|
                0 <= i < out@.len() ==> index@.contains_key((#[trigger] out@[i]).service_id)
                    && spec_keep(out@[i], index@, board_type, *reference),
        decreases remaining@.len(),
    {
        let ghost pre = remaining@;
        let e = remaining.remove(0);
        proof {
            assert(pre.remove(0) =~= pre.drop_first());
        }
        match index.lookup(e.service_id) {
            None => {
                proof {
                    assert(board_fold(pre, out@, index@, board_type, *reference) == Err::<
                        Seq<StopEvent>,
                        u16,
                    >(e.service_id));
                }
                return Err(ScheduleError::UnknownService(e.service_id));
            },
            Some(svc) => {
                let service_day: i64 = e.service_day(board_type, &reference.date);
                let runs: bool = if service_day < 1 {
                    proof {
                        lemma_unavailable_before_day_one(index@[e.service_id], service_day as int);
                    }
                    false
                } else {
                    let day = Date { day: service_day };
                    svc.is_available(&day)
                };
                if runs && e.is_after_adjusted_time(board_type, reference) {
                    let ghost key = spec_adjusted(e, board_type, reference.date@);
                    let mut j: usize = out.len();
                    while j > 0 && out[j - 1].adjusted_timestamp(board_type, &reference.date)
                        > e.adjusted_timestamp(board_type, &reference.date)
                        invariant
                            reference.wf(),
                            j <= out.len(),
                            key == spec_adjusted(e, board_type, reference.date@),
                            forall|k: int|
                                j <= k < out@.len() ==> spec_adjusted(
                                    #[trigger] out@[k],
                                    board_type,
                                    reference.date@,
                                ) > key,
                        decreases j,
                    {
                        j = j - 1;
                    }
                    proof {
                        lemma_insert_sorted_at(out@, e, board_type, reference.date@, j as int);
                    }
                    let ghost before = out@;
                    out.insert(j, e);
                    proof {
                        assert(out@ =~= insert_sorted(before, e, board_type, reference.date@));
                        assert(spec_keep(e, index@, board_type, *reference));
                        assert forall|p: int, q: int| 0 <= p < q < out@.len() implies spec_adjusted(
                            #[trigger] out@[p],
                            board_type,
                            reference.date@,
                        ) <= spec_adjusted(#[trigger] out@[q], board_type, reference.date@) by {
                            assert(out@ == before.subrange(0, j as int).push(e) + before.subrange(
                                j as int,
                                before.len() as int,
                            ));
                        }
                    }
                } else {
                    proof {
                        assert(!spec_keep(e, index@, board_type, *reference));
                    }
                }
            },
        }
    }
    proof {
        assert(board_fold(remaining@, out@, index@, board_type, *reference) == Ok::<_, u16>(out@));
    }
    Ok(out)
}

} // verus!
