//! The service-calendar index: the read-only mapping from service id to
//! `Service`, built once from raw calendar rows.
//!
//! Each raw row carries one service's base fields (weekday flags and a
//! validity window, its dates as `YYYYMMDD` strings) and at most one
//! exception. The first row of a service id establishes the service;
//! every row's exception, if present, is appended to that service's
//! exception sequence in row order.

use std::collections::HashMap;

use vstd::prelude::*;

use crate::dates::Date;
use crate::parse::{parse_date, parse_date_spec};
use crate::service::{ExceptionType, Service, ServiceException, ServiceModel, service_model_wf};

verus! {

broadcast use vstd::std_specs::hash::group_hash_axioms;

/// A raw exception attached to a calendar row: a `YYYYMMDD` date string
/// and the feed's numeric tag, `1` for added, `2` for removed.
#[derive(Clone, Debug)]
pub struct ExceptionRow {
    pub date: String,
    pub exception_type: u8,
}

/// One raw calendar row: a service's base fields joined with at most one
/// of its exceptions.
#[derive(Clone, Debug)]
pub struct ServiceRow {
    pub service_id: u16,
    pub weekdays: [bool; 7],
    pub start_date: String,
    pub end_date: String,
    pub exception: Option<ExceptionRow>,
}

/// An error of index construction or of a board query.
#[derive(Clone, Debug, PartialEq, Eq)]
pub enum ScheduleError {
    /// A date string that is not a calendar date written `YYYYMMDD`.
    MalformedDate(String),
    /// A time string that is not an offset written `HH:MM:SS`.
    MalformedTime(String),
    /// An exception tag other than `1` (added) or `2` (removed).
    UnknownExceptionType(u8),
    /// A stop-event referencing a service id absent from the index.
    UnknownService(u16),
}

/// Mathematical model of a `ScheduleError`.
pub ghost enum ScheduleErrorModel {
    MalformedDate(Seq<char>),
    MalformedTime(Seq<char>),
    UnknownExceptionType(u8),
    UnknownService(u16),
}

impl View for ScheduleError {
    type V = ScheduleErrorModel;

    open spec fn view(&self) -> ScheduleErrorModel {
        match self {
            ScheduleError::MalformedDate(s) => ScheduleErrorModel::MalformedDate(s@),
            ScheduleError::MalformedTime(s) => ScheduleErrorModel::MalformedTime(s@),
            ScheduleError::UnknownExceptionType(t) => ScheduleErrorModel::UnknownExceptionType(*t),
            ScheduleError::UnknownService(id) => ScheduleErrorModel::UnknownService(*id),
        }
    }
}

/// The exception a row contributes: none, a parsed exception, or the
/// error its fields force (date first, then tag).
pub open spec fn exception_of_row_spec(row: ServiceRow) -> Result<
    Option<ServiceException>,
    ScheduleErrorModel,
> {
    match row.exception {
        Option::None => Ok(Option::None),
        Option::Some(ex) => match parse_date_spec(ex.date@) {
            Option::None => Err(ScheduleErrorModel::MalformedDate(ex.date@)),
            Option::Some(d) => if ex.exception_type == 1 {
                Ok(
                    Option::Some(
                        ServiceException {
                            exception_date: Date { day: d as i64 },
                            exception_type: ExceptionType::Added,
                        },
                    ),
                )
            } else if ex.exception_type == 2 {
                Ok(
                    Option::Some(
                        ServiceException {
                            exception_date: Date { day: d as i64 },
                            exception_type: ExceptionType::Removed,
                        },
                    ),
                )
            } else {
                Err(ScheduleErrorModel::UnknownExceptionType(ex.exception_type))
            },
        },
    }
}

/// What one row does to the index under construction: the first row of a
/// service id parses the window and establishes the service; every row's
/// exception is appended to the service's exception sequence.
pub open spec fn row_step_spec(m: Map<u16, ServiceModel>, row: ServiceRow) -> Result<
    Map<u16, ServiceModel>,
    ScheduleErrorModel,
> {
    match exception_of_row_spec(row) {
        Err(e) => Err(e),
        Ok(exc) => {
            let base: Result<Map<u16, ServiceModel>, ScheduleErrorModel> = if m.contains_key(
                row.service_id,
            ) {
                Ok(m)
            } else {
                match parse_date_spec(row.start_date@) {
                    Option::None => Err(ScheduleErrorModel::MalformedDate(row.start_date@)),
                    Option::Some(sd) => match parse_date_spec(row.end_date@) {
                        Option::None => Err(ScheduleErrorModel::MalformedDate(row.end_date@)),
                        Option::Some(ed) => Ok(
                            m.insert(
                                row.service_id,
                                ServiceModel {
                                    start_day: sd,
                                    end_day: ed,
                                    weekdays: row.weekdays@,
                                    exceptions: Seq::empty(),
                                },
                            ),
                        ),
                    },
                }
            };
            match base {
                Err(e) => Err(e),
                Ok(m1) => Ok(
                    match exc {
                        Option::None => m1,
                        Option::Some(x) => m1.insert(
                            row.service_id,
                            ServiceModel {
                                exceptions: m1[row.service_id].exceptions.push(x),
                                ..m1[row.service_id]
                            },
                        ),
                    },
                ),
            }
        },
    }
}

/// The index the rows from position 0 on build on top of `acc`; the
/// first row whose fields are malformed decides the error.
pub open spec fn build_spec(rows: Seq<ServiceRow>, acc: Map<u16, ServiceModel>) -> Result<
    Map<u16, ServiceModel>,
    ScheduleErrorModel,
>
    decreases rows.len(),
{
    if rows.len() == 0 {
        Ok(acc)
    } else {
        match row_step_spec(acc, rows[0]) {
            Err(e) => Err(e),
            Ok(m) => build_spec(rows.drop_first(), m),
        }
    }
}

/// View of the underlying container as a mapping to service models.
pub open spec fn services_view(m: Map<u16, Service>) -> Map<u16, ServiceModel> {
    m.map_values(|s: Service| s@)
}

/// The process-wide mapping from service id to service, built once and
/// read-only afterwards.
#[derive(Debug)]
pub struct ServiceCalendarIndex {
    pub services: HashMap<u16, Service>,
}

impl View for ServiceCalendarIndex {
    type V = Map<u16, ServiceModel>;

    open spec fn view(&self) -> Map<u16, ServiceModel> {
        services_view(self.services@)
    }
}

impl ServiceCalendarIndex {
    pub open spec fn wf(self) -> bool {
        forall|k: u16| self@.contains_key(k) ==> service_model_wf(#[trigger] self@[k])
    }

    /// The service of `service_id`, if the index holds one.
    pub fn lookup(&self, service_id: u16) -> (r: Option<&Service>)
        ensures
            match r {
                Some(s) => self@.contains_key(service_id) && s@ == self@[service_id],
                None => !self@.contains_key(service_id),
            },
    {
        self.services.get(&service_id)
    }

    /// Builds the index from the complete set of raw calendar rows.
    pub fn build(rows: Vec<ServiceRow>) -> (r: Result<ServiceCalendarIndex, ScheduleError>)
        ensures
            match r {
                Ok(ix) => ix.wf() && build_spec(rows@, Map::empty()) == Ok::<
                    _,
                    ScheduleErrorModel,
                >(ix@),
                Err(e) => build_spec(rows@, Map::empty()) == Err::<
                    Map<u16, ServiceModel>,
                    _,
                >(e@),
            },
    {
        let mut services: HashMap<u16, Service> = HashMap::new();
        proof {
            assert(services_view(services@) =~= Map::<u16, ServiceModel>::empty());
            assert(rows@.skip(0) =~= rows@);
        }
        let mut idx: usize = 0;
        while idx < rows.len()
            invariant
                idx <= rows.len(),
                build_spec(rows@, Map::empty()) == build_spec(
                    rows@.skip(idx as int),
                    services_view(services@),
                ),
                forall|k: u16|
                    services_view(services@).contains_key(k) ==> service_model_wf(
                        #[trigger] services_view(services@)[k],
                    ),
            decreases rows.len() - idx,
        {
            let ghost pre = services_view(services@);
            let ghost rest = rows@.skip(idx as int);
            proof {
                assert(rest[0] == rows@[idx as int]);
                assert(rest.drop_first() =~= rows@.skip(idx as int + 1));
            }
            let row = &rows[idx];
            // The row's exception, parsed first as the raw feed is read.
            let exc: Option<ServiceException> = match &row.exception {
                None => None,
                Some(ex) => {
                    match parse_date(ex.date.as_str()) {
                        None => {
                            return Err(ScheduleError::MalformedDate(ex.date.clone()));
                        },
                        Some(d) => {
                            if ex.exception_type == 1 {
                                Some(
                                    ServiceException {
                                        exception_date: d,
                                        exception_type: ExceptionType::Added,
                                    },
                                )
                            } else if ex.exception_type == 2 {
                                Some(
                                    ServiceException {
                                        exception_date: d,
                                        exception_type: ExceptionType::Removed,
                                    },
                                )
                            } else {
                                return Err(
                                    ScheduleError::UnknownExceptionType(ex.exception_type),
                                );
                            }
                        },
                    }
                },
            };
            // The service the row belongs to: taken out of the container,
            // or established from the row's own base fields.
            let existing: Option<Service> = services.remove(&row.service_id);
            let ghost base = if pre.contains_key(row.service_id) {
                pre
            } else {
                row_base_model(pre, *row)
            };
            let mut svc: Service = match existing {
                Some(s) => s,
                None => {
                    let sd = match parse_date(row.start_date.as_str()) {
                        None => {
                            return Err(ScheduleError::MalformedDate(row.start_date.clone()));
                        },
                        Some(x) => x,
                    };
                    let ed = match parse_date(row.end_date.as_str()) {
                        None => {
                            return Err(ScheduleError::MalformedDate(row.end_date.clone()));
                        },
                        Some(x) => x,
                    };
                    Service::new(sd, ed, row.weekdays)
                },
            };
            if let Some(x) = exc {
                svc.exceptions.push(x);
            }
            services.insert(row.service_id, svc);
            proof {
                let post = services_view(services@);
                let stepped = row_step_spec(pre, *row);
                assert(stepped is Ok);
                assert(post =~= stepped->Ok_0);
                assert(build_spec(rest, pre) == build_spec(rest.drop_first(), post));
            }
            idx = idx + 1;
        }
        proof {
            assert(rows@.skip(rows@.len() as int) =~= Seq::<ServiceRow>::empty());
        }
        Ok(ServiceCalendarIndex { services })
    }
}

/// The model of a service as a row's base fields establish it.
pub open spec fn row_base_model(m: Map<u16, ServiceModel>, row: ServiceRow) -> Map<
    u16,
    ServiceModel,
> {
    m.insert(
        row.service_id,
        ServiceModel {
            start_day: parse_date_spec(row.start_date@)->Some_0,
            end_day: parse_date_spec(row.end_date@)->Some_0,
            weekdays: row.weekdays@,
            exceptions: Seq::empty(),
        },
    )
}

} // verus!
