use gtfs_board::board::{board, BoardType, StopEvent};
use gtfs_board::dates::{Date, DateTime};
use gtfs_board::index::{ScheduleError, ServiceCalendarIndex, ServiceRow};

fn weekday_row(service_id: u16) -> ServiceRow {
    ServiceRow {
        service_id,
        weekdays: [true, true, true, true, true, false, false],
        start_date: String::from("20240101"),
        end_date: String::from("20241231"),
        exception: None,
    }
}

fn event(service_id: u16, trip_id: u32, offset: u32) -> StopEvent {
    StopEvent {
        trip_id,
        service_id,
        arrival_offset: offset,
        departure_offset: offset,
        short_name: String::from("S1"),
        head_sign: String::from("Downtown"),
    }
}

fn monday_eight() -> DateTime {
    // Monday 2024-06-10 at 08:00:00.
    DateTime::new(Date::from_ymd(2024, 6, 10).unwrap(), 8 * 3600).unwrap()
}

#[test]
fn offset_rollover_shifts_the_service_day() {
    // 25:30:00 past midnight belongs to the previous service-day and
    // happens at 01:30 wall-clock of the reference date.
    let e = event(1, 7, 91800);
    let reference = Date::from_ymd(2024, 6, 10).unwrap();
    let day = e.service_day(BoardType::Departure, &reference);
    assert_eq!(day, reference.day - 1);
    let t = e.adjusted_timestamp(BoardType::Departure, &reference);
    assert_eq!(t, (reference.day - 1) * 86400 + 91800);
    assert_eq!(t, reference.day * 86400 + 90 * 60);
}

#[test]
fn short_offsets_stay_on_the_reference_day() {
    let e = event(1, 7, 25200);
    let reference = Date::from_ymd(2024, 6, 10).unwrap();
    assert_eq!(e.service_day(BoardType::Departure, &reference), reference.day);
}

#[test]
fn board_keeps_only_future_events() {
    let index = ServiceCalendarIndex::build(vec![weekday_row(1)]).unwrap();
    let events = vec![event(1, 10, 25200), event(1, 11, 33300)];
    let out = board(events, &monday_eight(), BoardType::Departure, &index).unwrap();
    assert_eq!(out.len(), 1);
    assert_eq!(out[0].trip_id, 11);
}

#[test]
fn board_keeps_an_event_at_the_reference_moment() {
    let index = ServiceCalendarIndex::build(vec![weekday_row(1)]).unwrap();
    let events = vec![event(1, 10, 8 * 3600)];
    let out = board(events, &monday_eight(), BoardType::Departure, &index).unwrap();
    assert_eq!(out.len(), 1);
}

#[test]
fn board_sorts_by_adjusted_timestamp() {
    let index = ServiceCalendarIndex::build(vec![weekday_row(1)]).unwrap();
    let events = vec![event(1, 10, 12 * 3600), event(1, 11, 9 * 3600), event(1, 12, 10 * 3600)];
    let out = board(events, &monday_eight(), BoardType::Departure, &index).unwrap();
    let trips: Vec<u32> = out.iter().map(|e| e.trip_id).collect();
    assert_eq!(trips, vec![11, 12, 10]);
}

#[test]
fn board_is_stable_on_ties() {
    let index = ServiceCalendarIndex::build(vec![weekday_row(1)]).unwrap();
    let events = vec![
        event(1, 10, 9 * 3600),
        event(1, 11, 9 * 3600),
        event(1, 12, 8 * 3600 + 1800),
        event(1, 13, 9 * 3600),
    ];
    let out = board(events, &monday_eight(), BoardType::Departure, &index).unwrap();
    let trips: Vec<u32> = out.iter().map(|e| e.trip_id).collect();
    assert_eq!(trips, vec![12, 10, 11, 13]);
}

#[test]
fn board_drops_services_not_running_that_day() {
    // Saturday 2024-06-15 at 06:00: the weekday service rests.
    let index = ServiceCalendarIndex::build(vec![weekday_row(1)]).unwrap();
    let reference = DateTime::new(Date::from_ymd(2024, 6, 15).unwrap(), 6 * 3600).unwrap();
    let events = vec![event(1, 10, 9 * 3600)];
    let out = board(events, &reference, BoardType::Departure, &index).unwrap();
    assert!(out.is_empty());
}

#[test]
fn board_availability_follows_the_service_day_of_the_offset() {
    // Saturday 2024-06-15 just after midnight: an offset of 25:30:00
    // belongs to Friday's service-day, so the weekday service runs.
    let index = ServiceCalendarIndex::build(vec![weekday_row(1)]).unwrap();
    let reference = DateTime::new(Date::from_ymd(2024, 6, 15).unwrap(), 3600).unwrap();
    let events = vec![event(1, 10, 91800)];
    let out = board(events, &reference, BoardType::Departure, &index).unwrap();
    assert_eq!(out.len(), 1);
}

#[test]
fn board_uses_the_selected_offset() {
    let index = ServiceCalendarIndex::build(vec![weekday_row(1)]).unwrap();
    let mut e = event(1, 10, 0);
    e.arrival_offset = 7 * 3600;
    e.departure_offset = 9 * 3600;
    let out = board(
        vec![e.clone()],
        &monday_eight(),
        BoardType::Arrival,
        &index,
    )
    .unwrap();
    assert!(out.is_empty());
    let out = board(vec![e], &monday_eight(), BoardType::Departure, &index).unwrap();
    assert_eq!(out.len(), 1);
}

#[test]
fn board_fails_loudly_on_an_unknown_service() {
    let index = ServiceCalendarIndex::build(vec![weekday_row(1)]).unwrap();
    let events = vec![event(1, 10, 9 * 3600), event(2, 11, 9 * 3600)];
    let r = board(events, &monday_eight(), BoardType::Departure, &index);
    assert_eq!(r, Err(ScheduleError::UnknownService(2)));
}

#[test]
fn builds_a_stop_event_from_raw_strings() {
    let e = StopEvent::from_row(
        "07:00:00",
        "25:30:00",
        7,
        1,
        String::from("S1"),
        String::from("Downtown"),
    )
    .unwrap();
    assert_eq!(e.arrival_offset, 25200);
    assert_eq!(e.departure_offset, 91800);
    assert_eq!(e.trip_id, 7);
    assert_eq!(e.service_id, 1);
    assert_eq!(e.short_name, "S1");
    assert_eq!(e.head_sign, "Downtown");
}

#[test]
fn rejects_a_malformed_time_string() {
    let r = StopEvent::from_row(
        "07:00:00",
        "25-30-00",
        7,
        1,
        String::from("S1"),
        String::from("Downtown"),
    );
    assert_eq!(r, Err(ScheduleError::MalformedTime(String::from("25-30-00"))));
    let r = StopEvent::from_row(
        "late",
        "25:30:00",
        7,
        1,
        String::from("S1"),
        String::from("Downtown"),
    );
    assert_eq!(r, Err(ScheduleError::MalformedTime(String::from("late"))));
}

#[test]
fn empty_input_gives_an_empty_board() {
    let index = ServiceCalendarIndex::build(vec![weekday_row(1)]).unwrap();
    let out = board(Vec::new(), &monday_eight(), BoardType::Departure, &index).unwrap();
    assert!(out.is_empty());
}
