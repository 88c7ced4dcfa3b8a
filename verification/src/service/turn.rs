//! What a reply leads a running job to.

use crate::jobs::{ReportView, StepReport};
use vstd::prelude::*;

verus! {

/// What one reply leads to.
#[derive(Debug)]
pub struct Turn {
    pub reports: Vec<StepReport>,
    pub result: Option<Result<String, String>>,
}

/// What a list of reports says.
pub open spec fn report_views(s: Seq<StepReport>) -> Seq<ReportView> {
    s.map_values(|x: StepReport| x@)
}

/// How a job ends, if it does.
pub open spec fn ending(r: Option<Result<String, String>>) -> Option<Result<Seq<char>, Seq<char>>> {
    match r {
        Some(x) => Some(crate::jobs::result_of(x)),
        None => None,
    }
}

/// No reports.
pub fn reports0() -> (r: Vec<StepReport>)
    ensures
        report_views(r@) == Seq::<ReportView>::empty(),
{
    let v: Vec<StepReport> = Vec::new();
    proof {
        assert(report_views(v@) =~= Seq::<ReportView>::empty());
    }
    v
}

/// One report.
pub fn reports1(a: StepReport) -> (r: Vec<StepReport>)
    ensures
        report_views(r@) == seq![a@],
{
    let mut v: Vec<StepReport> = Vec::new();
    v.push(a);
    proof {
        assert(report_views(v@) =~= seq![a@]);
    }
    v
}

/// Two reports.
pub fn reports2(a: StepReport, b: StepReport) -> (r: Vec<StepReport>)
    ensures
        report_views(r@) == seq![a@, b@],
{
    let mut v: Vec<StepReport> = Vec::new();
    v.push(a);
    v.push(b);
    proof {
        assert(report_views(v@) =~= seq![a@, b@]);
    }
    v
}

/// The job ends in failure.
pub fn fail(why: String) -> (r: Turn)
    ensures
        report_views(r.reports@) == Seq::<ReportView>::empty(),
        ending(r.result) == Some(Err::<Seq<char>, Seq<char>>(why@)),
{
    Turn { reports: reports0(), result: Some(Err(why)) }
}

/// The job goes on.
pub fn go(reports: Vec<StepReport>) -> (r: Turn)
    ensures
        r.reports == reports,
        r.result is None,
{
    Turn { reports, result: None }
}

} // verus!
