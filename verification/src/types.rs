//! Findings produced by the checks, and the system facts that every check reads.
use vstd::prelude::*;

verus! {

/// Outcome of a single check.
#[derive(Debug, Clone, Copy, PartialEq, Eq, Structural)]
pub enum Status {
    /// The check passed.
    Pass,
    Warn,
    Fail,
    Info,
}

pub open spec fn status_text(s: Status) -> Seq<char> {
    match s {
        Status::Pass => "OK  "@,
        Status::Warn => "WARN"@,
        Status::Fail => "FAIL"@,
        Status::Info => "INFO"@,
    }
}

impl Status {
    /// The status as a report column shows it.
    pub fn as_str(&self) -> (r: &'static str)
        ensures
            r@ == status_text(*self),
    {
        match self {
            Status::Pass => "OK  ",
            Status::Warn => "WARN",
            Status::Fail => "FAIL",
            Status::Info => "INFO",
        }
    }
}

/// A concrete change that would resolve a finding.
#[derive(Debug, Clone)]
pub struct Fix {
    pub description: String,
    pub file: String,
    pub content: String,
}

/// One finding of a check.
#[derive(Debug, Clone)]
pub struct CheckResult {
    pub status: Status,
    pub label: String,
    pub detail: String,
    pub fix: Option<Fix>,
}

/// Mathematical value of a [`Fix`].
pub struct FixView {
    pub description: Seq<char>,
    pub file: Seq<char>,
    pub content: Seq<char>,
}

/// Mathematical value of a [`CheckResult`].
pub struct Finding {
    pub status: Status,
    pub label: Seq<char>,
    pub detail: Seq<char>,
    pub fix: Option<FixView>,
}

impl View for Fix {
    type V = FixView;

    open spec fn view(&self) -> FixView {
        FixView { description: self.description@, file: self.file@, content: self.content@ }
    }
}

impl View for CheckResult {
    type V = Finding;

    open spec fn view(&self) -> Finding {
        Finding {
            status: self.status,
            label: self.label@,
            detail: self.detail@,
            fix: match self.fix {
                Some(f) => Some(f@),
                None => None,
            },
        }
    }
}

/// A finding without a fix.
pub open spec fn finding(status: Status, label: Seq<char>, detail: Seq<char>) -> Finding {
    Finding { status, label, detail, fix: None }
}

/// `f` with the given fix attached.
pub open spec fn fixed(f: Finding, description: Seq<char>, file: Seq<char>, content: Seq<char>) -> Finding {
    Finding { fix: Some(FixView { description, file, content }), ..f }
}

/// The findings held by a sequence of results.
pub open spec fn findings(rs: Seq<CheckResult>) -> Seq<Finding> {
    rs.map_values(|r: CheckResult| r@)
}

impl CheckResult {
    fn make(status: Status, label: &str, detail: &str) -> (r: Self)
        ensures
            r@ == finding(status, label@, detail@),
    {
        CheckResult {
            status,
            label: String::from_str(label),
            detail: String::from_str(detail),
            fix: None,
        }
    }

    pub fn ok(label: &str, detail: &str) -> (r: Self)
        ensures
            r@ == finding(Status::Pass, label@, detail@),
    {
        Self::make(Status::Pass, label, detail)
    }

    pub fn warn(label: &str, detail: &str) -> (r: Self)
        ensures
            r@ == finding(Status::Warn, label@, detail@),
    {
        Self::make(Status::Warn, label, detail)
    }

    pub fn fail(label: &str, detail: &str) -> (r: Self)
        ensures
            r@ == finding(Status::Fail, label@, detail@),
    {
        Self::make(Status::Fail, label, detail)
    }

    pub fn info(label: &str, detail: &str) -> (r: Self)
        ensures
            r@ == finding(Status::Info, label@, detail@),
    {
        Self::make(Status::Info, label, detail)
    }

    /// The same finding with a fix attached (replacing any earlier one).
    pub fn with_fix(self, description: &str, file: &str, content: &str) -> (r: Self)
        ensures
            r@ == fixed(self@, description@, file@, content@),
    {
        let mut r = self;
        r.fix = Some(
            Fix {
                description: String::from_str(description),
                file: String::from_str(file),
                content: String::from_str(content),
            },
        );
        r
    }
}

/// Appends a result, keeping the findings in order.
pub fn push_result(results: &mut Vec<CheckResult>, r: CheckResult)
    ensures
        findings(final(results)@) == findings(old(results)@).push(r@),
{
    results.push(r);
    assert(findings(results@) =~= findings(old(results)@).push(r@));
}

/// Whether any result failed (the run then exits with status 1).
pub fn has_failure(results: &[CheckResult]) -> (r: bool)
    ensures
        r <==> exists|i: int| 0 <= i < results@.len() && results@[i].status == Status::Fail,
{
    let mut i: usize = 0;
    while i < results.len()
        invariant
            i <= results@.len(),
            forall|j: int| 0 <= j < i ==> results@[j].status != Status::Fail,
        decreases results@.len() - i,
    {
        if results[i].status == Status::Fail {
            return true;
        }
        i += 1;
    }
    false
}

/// System context gathered once and passed to all checks.
#[derive(Debug, Clone)]
pub struct SystemContext {
    pub cpu_cores: usize,
    pub total_ram_mb: u64,
    pub available_ram_mb: u64,
    pub swap_used_mb: u64,
    pub mysql_running: bool,
    pub mysql_pid: Option<u32>,
    pub mysql_ram_mb: u64,
    pub redis_running: bool,
    pub redis_pid: Option<u32>,
    pub redis_ram_mb: u64,
    pub php_ram_budget_mb: u64,
    pub laravel_version: Option<String>,
    pub laravel_major: Option<u32>,
}

} // verus!
