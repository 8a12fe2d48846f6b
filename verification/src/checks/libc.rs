//! C library flavour and file-descriptor limit.
use vstd::prelude::*;
use crate::text::{
    contains_ignore_ascii_case, contains_ignore_ascii_case_exec, decimal, from_chars, lines,
    lines_exec, parse_u64, parse_unsigned, push_decimal, seqs_of, to_chars, trim, trim_slice,
};
use crate::types::{findings, finding, push_result, CheckResult, Finding, Status};

verus! {

/// Outcome of `ldd --version`.
pub enum LddOutcome {
    /// The command ran: its standard output followed by its standard error.
    Output { text: String },
    /// The command could not be run; whether a `/lib/ld-musl*` loader exists.
    Failed { musl_loader_found: bool },
}

pub open spec fn libc_finding(o: LddOutcome) -> Finding {
    match o {
        LddOutcome::Output { text } => {
            let t = text@;
            if contains_ignore_ascii_case(t, "musl"@) {
                finding(
                    Status::Fail,
                    "libc"@,
                    "musl detected — significantly slower for PHP-ZTS. Use a glibc-based distro (Debian, Ubuntu)"@,
                )
            } else if contains_ignore_ascii_case(t, "glibc"@) || contains_ignore_ascii_case(t, "gnu"@) {
                finding(Status::Pass, "libc"@, "glibc"@)
            } else {
                finding(
                    Status::Info,
                    "libc"@,
                    "Unknown: "@ + if lines(t).len() > 0 { lines(t)[0] } else { "?"@ },
                )
            }
        },
        LddOutcome::Failed { musl_loader_found } => if musl_loader_found {
            finding(Status::Fail, "libc"@, "musl detected — significantly slower for PHP-ZTS"@)
        } else {
            finding(Status::Pass, "libc"@, "glibc (assumed)"@)
        },
    }
}

/// musl (slow for PHP-ZTS) or glibc, from `ldd --version`; the
/// `to_lowercase().contains(..)` tests on its text are decided with ASCII
/// case folding, which agrees for these patterns.
pub fn libc_result(o: &LddOutcome) -> (r: CheckResult)
    ensures
        r@ == libc_finding(*o),
{
    match o {
        LddOutcome::Output { text } => {
            let t = to_chars(text.as_str());
            let musl = to_chars("musl");
            let glibc = to_chars("glibc");
            let gnu = to_chars("gnu");
            if contains_ignore_ascii_case_exec(t.as_slice(), musl.as_slice()) {
                CheckResult::fail(
                    "libc",
                    "musl detected — significantly slower for PHP-ZTS. Use a glibc-based distro (Debian, Ubuntu)",
                )
            } else if contains_ignore_ascii_case_exec(t.as_slice(), glibc.as_slice())
                || contains_ignore_ascii_case_exec(t.as_slice(), gnu.as_slice()) {
                CheckResult::ok("libc", "glibc")
            } else {
                let ls = lines_exec(t.as_slice());
                let mut d = String::from_str("Unknown: ");
                if ls.len() > 0 {
                    assert(seqs_of(ls@)[0] == ls@[0]@);
                    let first = from_chars(ls[0].as_slice());
                    d.append(first.as_str());
                } else {
                    d.append("?");
                }
                CheckResult::info("libc", d.as_str())
            }
        },
        LddOutcome::Failed { musl_loader_found } => if *musl_loader_found {
            CheckResult::fail("libc", "musl detected — significantly slower for PHP-ZTS")
        } else {
            CheckResult::ok("libc", "glibc (assumed)")
        },
    }
}

pub open spec fn ulimit_finding(output: Option<Seq<char>>) -> Finding {
    match output {
        Some(o) => match parse_unsigned(trim(o), u64::MAX as nat) {
            Some(n) => if n >= 65536 {
                finding(Status::Pass, "File Descriptors (ulimit -n)"@, decimal(n))
            } else {
                finding(
                    Status::Warn,
                    "File Descriptors (ulimit -n)"@,
                    decimal(n) + " — recommend ≥65536 for high-traffic servers"@,
                )
            },
            None => finding(Status::Info, "File Descriptors"@, "Could not read ulimit"@),
        },
        None => finding(Status::Info, "File Descriptors"@, "Could not read ulimit"@),
    }
}

/// The open-file limit from `ulimit -n` output (`None` when the shell could
/// not be run).
pub fn ulimit_result(output: &Option<String>) -> (r: CheckResult)
    ensures
        r@ == ulimit_finding(
            match output {
                Some(o) => Some(o@),
                None => None,
            },
        ),
{
    let n = match output {
        Some(o) => {
            let c = to_chars(o.as_str());
            parse_u64(trim_slice(c.as_slice()))
        },
        None => None,
    };
    match n {
        Some(n) => if n >= 65536 {
            let mut d = String::new();
            push_decimal(&mut d, n);
            CheckResult::ok("File Descriptors (ulimit -n)", d.as_str())
        } else {
            let mut d = String::new();
            push_decimal(&mut d, n);
            d.append(" — recommend ≥65536 for high-traffic servers");
            CheckResult::warn("File Descriptors (ulimit -n)", d.as_str())
        },
        None => CheckResult::info("File Descriptors", "Could not read ulimit"),
    }
}

/// libc and file-descriptor findings.
pub fn check(ldd: &LddOutcome, ulimit_output: &Option<String>) -> (results: Vec<CheckResult>)
    ensures
        findings(results@) == seq![
            libc_finding(*ldd),
            ulimit_finding(
                match ulimit_output {
                    Some(o) => Some(o@),
                    None => None,
                },
            ),
        ],
{
    let mut results: Vec<CheckResult> = Vec::new();
    push_result(&mut results, libc_result(ldd));
    push_result(&mut results, ulimit_result(ulimit_output));
    assert(findings(results@) =~= seq![
        libc_finding(*ldd),
        ulimit_finding(
            match ulimit_output {
                Some(o) => Some(o@),
                None => None,
            },
        ),
    ]);
    results
}

} // verus!
