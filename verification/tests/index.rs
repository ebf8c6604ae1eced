use gtfs_board::dates::Date;
use gtfs_board::index::{ExceptionRow, ScheduleError, ServiceCalendarIndex, ServiceRow};
use gtfs_board::service::ExceptionType;

fn base_row(service_id: u16) -> ServiceRow {
    ServiceRow {
        service_id,
        weekdays: [true, true, true, true, true, false, false],
        start_date: String::from("20240101"),
        end_date: String::from("20241231"),
        exception: None,
    }
}

#[test]
fn builds_a_service_from_its_base_row() {
    let index = ServiceCalendarIndex::build(vec![base_row(1)]).unwrap();
    let s = index.lookup(1).unwrap();
    assert_eq!(s.start_date, Date::from_ymd(2024, 1, 1).unwrap());
    assert_eq!(s.end_date, Date::from_ymd(2024, 12, 31).unwrap());
    assert_eq!(s.weekdays, [true, true, true, true, true, false, false]);
    assert!(s.exceptions.is_empty());
    assert!(index.lookup(2).is_none());
}

#[test]
fn appends_exceptions_in_row_order() {
    let mut row1 = base_row(1);
    row1.exception = Some(ExceptionRow {
        date: String::from("20240615"),
        exception_type: 1,
    });
    let mut row2 = base_row(1);
    row2.exception = Some(ExceptionRow {
        date: String::from("20240610"),
        exception_type: 2,
    });
    let index = ServiceCalendarIndex::build(vec![row1, row2]).unwrap();
    let s = index.lookup(1).unwrap();
    assert_eq!(s.exceptions.len(), 2);
    assert_eq!(s.exceptions[0].exception_date, Date::from_ymd(2024, 6, 15).unwrap());
    assert_eq!(s.exceptions[0].exception_type, ExceptionType::Added);
    assert_eq!(s.exceptions[1].exception_date, Date::from_ymd(2024, 6, 10).unwrap());
    assert_eq!(s.exceptions[1].exception_type, ExceptionType::Removed);
    // The exceptions override the weekly pattern in both directions.
    assert!(s.is_available(&Date::from_ymd(2024, 6, 15).unwrap()));
    assert!(!s.is_available(&Date::from_ymd(2024, 6, 10).unwrap()));
}

#[test]
fn first_base_row_of_a_service_wins() {
    let mut row2 = base_row(1);
    row2.start_date = String::from("20230101");
    let index = ServiceCalendarIndex::build(vec![base_row(1), row2]).unwrap();
    let s = index.lookup(1).unwrap();
    assert_eq!(s.start_date, Date::from_ymd(2024, 1, 1).unwrap());
}

#[test]
fn keeps_services_apart() {
    let mut row2 = base_row(2);
    row2.weekdays = [false, false, false, false, false, true, true];
    let index = ServiceCalendarIndex::build(vec![base_row(1), row2]).unwrap();
    assert!(index.lookup(1).unwrap().weekdays[0]);
    assert!(!index.lookup(2).unwrap().weekdays[0]);
}

#[test]
fn rejects_a_malformed_window_date() {
    let mut row = base_row(1);
    row.end_date = String::from("2024AB01");
    let r = ServiceCalendarIndex::build(vec![row]);
    assert_eq!(r.unwrap_err(), ScheduleError::MalformedDate(String::from("2024AB01")));
}

#[test]
fn rejects_a_malformed_exception_date() {
    let mut row = base_row(1);
    row.exception = Some(ExceptionRow {
        date: String::from("615"),
        exception_type: 1,
    });
    let r = ServiceCalendarIndex::build(vec![row]);
    assert_eq!(r.unwrap_err(), ScheduleError::MalformedDate(String::from("615")));
}

#[test]
fn rejects_an_unknown_exception_tag() {
    let mut row = base_row(1);
    row.exception = Some(ExceptionRow {
        date: String::from("20240615"),
        exception_type: 3,
    });
    let r = ServiceCalendarIndex::build(vec![row]);
    assert_eq!(r.unwrap_err(), ScheduleError::UnknownExceptionType(3));
}

#[test]
fn empty_rows_build_an_empty_index() {
    let index = ServiceCalendarIndex::build(Vec::new()).unwrap();
    assert!(index.lookup(1).is_none());
}
