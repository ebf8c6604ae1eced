//! Services: a weekly operating pattern, an inclusive validity window,
//! and date-specific exceptions that override both.

use vstd::prelude::*;

use crate::dates::{weekday_of, Date, MAX_DAY_NUMBER};

verus! {

/// A date-specific override: the service explicitly runs (`Added`) or
/// explicitly does not run (`Removed`) on the exception's date.
#[derive(Clone, Copy, PartialEq, Eq, Structural, Debug)]
pub enum ExceptionType {
    Added,
    Removed,
}

#[derive(Clone, Copy, PartialEq, Eq, Structural, Debug)]
pub struct ServiceException {
    pub exception_date: Date,
    pub exception_type: ExceptionType,
}

/// Mathematical model of a service.
pub ghost struct ServiceModel {
    pub start_day: int,
    pub end_day: int,
    pub weekdays: Seq<bool>,
    pub exceptions: Seq<ServiceException>,
}

/// A service: valid from `start_date` to `end_date` inclusive, on the
/// weekdays whose flag is set (index 0 = Monday .. 6 = Sunday), subject
/// to its exceptions. When several exceptions carry the same date, the
/// one latest in `exceptions` wins.
#[derive(Clone, Debug)]
pub struct Service {
    pub start_date: Date,
    pub end_date: Date,
    pub weekdays: [bool; 7],
    pub exceptions: Vec<ServiceException>,
}

impl View for Service {
    type V = ServiceModel;

    open spec fn view(&self) -> ServiceModel {
        ServiceModel {
            start_day: self.start_date@,
            end_day: self.end_date@,
            weekdays: self.weekdays@,
            exceptions: self.exceptions@,
        }
    }
}

pub open spec fn service_model_wf(s: ServiceModel) -> bool {
    &&& 1 <= s.start_day <= MAX_DAY_NUMBER
    &&& 1 <= s.end_day <= MAX_DAY_NUMBER
    &&& s.weekdays.len() == 7
    &&& forall|i: int|
        0 <= i < s.exceptions.len() ==> 1 <= (#[trigger] s.exceptions[i]).exception_date.day
            <= MAX_DAY_NUMBER
}

/// The exception governing day `d`, if any: the last one in `exs` whose
/// date is `d`.
pub open spec fn exception_on(exs: Seq<ServiceException>, d: int) -> Option<ExceptionType>
    decreases exs.len(),
{
    if exs.len() == 0 {
        None
    } else if exs.last().exception_date.day == d {
        Some(exs.last().exception_type)
    } else {
        exception_on(exs.drop_last(), d)
    }
}

/// Whether the service runs on day `d`: its governing exception decides
/// if there is one; otherwise `d` must lie in the validity window and on
/// an operating weekday.
pub open spec fn available(s: ServiceModel, d: int) -> bool {
    match exception_on(s.exceptions, d) {
        Some(t) => t is Added,
        None => s.start_day <= d <= s.end_day && s.weekdays[weekday_of(d)],
    }
}

/// If no exception of `exs` is dated `d`, none governs `d`.
pub proof fn lemma_exception_on_none(exs: Seq<ServiceException>, d: int)
    requires
        forall|i: int| 0 <= i < exs.len() ==> (#[trigger] exs[i]).exception_date.day != d,
    ensures
        exception_on(exs, d) is None,
    decreases exs.len(),
{
    if exs.len() > 0 {
        lemma_exception_on_none(exs.drop_last(), d);
    }
}

/// If the exception at `i` is dated `d` and no later one is, it governs `d`.
pub proof fn lemma_exception_on_last_match(exs: Seq<ServiceException>, i: int, d: int)
    requires
        0 <= i < exs.len(),
        exs[i].exception_date.day == d,
        forall|j: int| i < j < exs.len() ==> (#[trigger] exs[j]).exception_date.day != d,
    ensures
        exception_on(exs, d) == Some(exs[i].exception_type),
    decreases exs.len(),
{
    if i == exs.len() - 1 {
    } else {
        lemma_exception_on_last_match(exs.drop_last(), i, d);
    }
}

/// On a date no exception covers, availability is exactly the base rule:
/// inside the validity window and on an operating weekday.
pub proof fn lemma_base_rule(s: ServiceModel, d: int)
    requires
        forall|i: int| 0 <= i < s.exceptions.len() ==> (#[trigger] s.exceptions[i]).exception_date.day != d,
    ensures
        available(s, d) == (s.start_day <= d <= s.end_day && s.weekdays[weekday_of(d)]),
{
    lemma_exception_on_none(s.exceptions, d);
}

/// On a date its exception covers, availability is exactly whether that
/// exception adds the service — whatever the validity window and weekly
/// pattern say. Where several exceptions share the date, the last wins,
/// so the lemma speaks of the final one dated `d`.
pub proof fn lemma_exception_overrides(s: ServiceModel, i: int, d: int)
    requires
        0 <= i < s.exceptions.len(),
        s.exceptions[i].exception_date.day == d,
        forall|j: int| i < j < s.exceptions.len() ==> (#[trigger] s.exceptions[j]).exception_date.day != d,
    ensures
        available(s, d) == (s.exceptions[i].exception_type is Added),
{
    lemma_exception_on_last_match(s.exceptions, i, d);
}

/// Before day 1 a well-formed service never runs: every exception date
/// and the validity window lie at day 1 or later.
pub proof fn lemma_unavailable_before_day_one(s: ServiceModel, d: int)
    requires
        service_model_wf(s),
        d < 1,
    ensures
        !available(s, d),
{
    lemma_exception_on_none(s.exceptions, d);
}

impl Service {
    pub open spec fn wf(self) -> bool {
        service_model_wf(self@)
    }

    /// A service with no exceptions yet.
    pub fn new(start_date: Date, end_date: Date, weekdays: [bool; 7]) -> (s: Service)
        requires
            start_date.wf(),
            end_date.wf(),
        ensures
            s.wf(),
            s@ == (ServiceModel {
                start_day: start_date@,
                end_day: end_date@,
                weekdays: weekdays@,
                exceptions: Seq::empty(),
            }),
    {
        let s = Service { start_date, end_date, weekdays, exceptions: Vec::new() };
        proof {
            assert(s@.exceptions =~= Seq::<ServiceException>::empty());
        }
        s
    }

    /// Whether the service runs on `date`.
    pub fn is_available(&self, date: &Date) -> (b: bool)
        requires
            self.wf(),
            date.wf(),
        ensures
            b == available(self@, date@),
    {
        let d: i64 = date.day;
        let ghost exs = self.exceptions@;
        let mut i: usize = self.exceptions.len();
        proof {
            assert(exs.subrange(0, i as int) =~= exs);
        }
        while i > 0
            invariant
                i <= exs.len(),
                d == date.day,
                exs == self.exceptions@,
                exception_on(exs, d as int) == exception_on(exs.subrange(0, i as int), d as int),
            decreases i,
        {
            i = i - 1;
            let e = &self.exceptions[i];
            proof {
                assert(exs.subrange(0, i + 1).last() == exs[i as int]);
                assert(exs.subrange(0, i + 1).drop_last() =~= exs.subrange(0, i as int));
            }
            if e.exception_date.day == d {
                proof {
                    assert(exception_on(exs.subrange(0, i + 1), d as int) == Some(
                        exs[i as int].exception_type,
                    ));
                    assert(available(self@, date@) == (exs[i as int].exception_type
                        is Added));
                }
                return matches!(e.exception_type, ExceptionType::Added);
            }
        }
        proof {
            assert(exs.subrange(0, 0) =~= Seq::<ServiceException>::empty());
        }
        self.start_date.day <= d && d <= self.end_date.day && self.weekdays[date.weekday_index()]
    }
}

} // verus!
