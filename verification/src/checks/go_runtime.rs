//! Go runtime settings of the FrankenPHP process: `GODEBUG` and `GOMEMLIMIT`.
use vstd::prelude::*;
use crate::text::{
    contains, contains_exec, decimal, first_with_prefix, first_with_prefix_exec,
    first_with_suffix, first_with_suffix_exec, from_chars, lines, lines_exec, push_decimal,
    replace_char, replace_char_exec, seqs_of, split_ws, split_ws_exec, to_chars, trim_start_pat,
    trim_start_pat_slice,
};
use crate::types::{findings, finding, fixed, push_result, CheckResult, Finding, Status};

verus! {

/// The text of `/proc/<pid>/environ`, whose entries are separated by NUL
/// bytes, with one entry per line.
pub fn environ_text(raw: &str) -> (r: String)
    ensures
        r@ == replace_char(raw@, '\0', '\n'),
{
    let chars = to_chars(raw);
    let v = replace_char_exec(chars.as_slice(), '\0', '\n');
    from_chars(v.as_slice())
}

/// The systemd override file for the unit named on the first line of
/// `systemctl status <pid>` output (`● unit.service - Description`).
pub open spec fn service_override_of(status: Seq<char>) -> Option<Seq<char>> {
    if lines(status).len() == 0 {
        None
    } else {
        match first_with_suffix(split_ws(lines(status)[0]), ".service"@) {
            Some(unit) => Some("/etc/systemd/system/"@ + unit + ".d/override.conf"@),
            None => None,
        }
    }
}

pub fn service_override_from_status(status: &str) -> (r: Option<String>)
    ensures
        r matches Some(p) ==> service_override_of(status@) == Some(p@),
        r is None ==> service_override_of(status@) is None,
{
    let chars = to_chars(status);
    let ls = lines_exec(chars.as_slice());
    if ls.len() == 0 {
        return None;
    }
    let words = split_ws_exec(ls[0].as_slice());
    assert(seqs_of(ls@)[0] == ls@[0]@);
    let suffix = to_chars(".service");
    match first_with_suffix_exec(&words, suffix.as_slice()) {
        Some(i) => {
            let mut p = String::from_str("/etc/systemd/system/");
            let unit = from_chars(words[i].as_slice());
            p.append(unit.as_str());
            p.append(".d/override.conf");
            Some(p)
        },
        None => None,
    }
}

/// Facts about the running FrankenPHP process.
pub struct GoRuntimeFacts {
    /// The process environment, one `KEY=value` per line, when readable.
    pub frankenphp_env: Option<String>,
    /// The systemd override file of the FrankenPHP service, when identified.
    pub service_override: Option<String>,
    /// Recommended `GOMEMLIMIT` in GiB: the PHP RAM budget in GiB, rounded,
    /// and at least 1.
    pub recommended_gb: u64,
}

pub open spec fn godebug_finding(facts: GoRuntimeFacts) -> Finding {
    match facts.frankenphp_env {
        Some(env) if contains(env@, "GODEBUG=cgocheck=0"@) => finding(Status::Pass, "GODEBUG"@, "cgocheck=0 set"@),
        _ => {
            let detail = if facts.frankenphp_env is Some {
                "cgocheck=0 not found in FrankenPHP process environment"@
            } else {
                "Could not read FrankenPHP process environment — ensure GODEBUG=cgocheck=0 is set"@
            };
            let w = finding(Status::Warn, "GODEBUG"@, detail);
            match facts.service_override {
                Some(p) => fixed(w, "Add GODEBUG=cgocheck=0 to FrankenPHP service"@, p@, "Environment=GODEBUG=cgocheck=0"@),
                None => fixed(
                    w,
                    "Add GODEBUG=cgocheck=0 to Forge site environment"@,
                    "Forge Site → Environment"@,
                    "GODEBUG=cgocheck=0"@,
                ),
            }
        },
    }
}

pub open spec fn gomemlimit_finding(facts: GoRuntimeFacts) -> Finding {
    let gb = decimal(facts.recommended_gb as nat);
    match facts.frankenphp_env {
        Some(env) => match first_with_prefix(lines(env@), "GOMEMLIMIT="@) {
            Some(l) => finding(Status::Pass, "GOMEMLIMIT"@, trim_start_pat(l, "GOMEMLIMIT="@)),
            None => {
                let w = finding(Status::Warn, "GOMEMLIMIT"@, "Not set — recommend "@ + gb + "GiB based on PHP RAM budget"@);
                match facts.service_override {
                    Some(p) => fixed(w, "Set GOMEMLIMIT="@ + gb + "GiB"@, p@, "Environment=GOMEMLIMIT="@ + gb + "GiB"@),
                    None => fixed(w, "Set GOMEMLIMIT="@ + gb + "GiB"@, "Forge Site → Environment"@, "GOMEMLIMIT="@ + gb + "GiB"@),
                }
            },
        },
        None => finding(Status::Warn, "GOMEMLIMIT"@, "Could not check — recommend "@ + gb + "GiB"@),
    }
}

fn lit_num_lit(a: &str, n: u64, b: &str) -> (r: String)
    ensures
        r@ == a@ + decimal(n as nat) + b@,
{
    let mut r = String::from_str(a);
    push_decimal(&mut r, n);
    r.append(b);
    r
}

/// Go runtime findings: `GODEBUG=cgocheck=0` and `GOMEMLIMIT` in the
/// FrankenPHP process environment, with fixes for the service override (or
/// the Forge site environment when the service is unknown).
pub fn check(facts: &GoRuntimeFacts) -> (results: Vec<CheckResult>)
    ensures
        findings(results@) == seq![godebug_finding(*facts), gomemlimit_finding(*facts)],
{
    let mut results: Vec<CheckResult> = Vec::new();
    let godebug = to_chars("GODEBUG=cgocheck=0");
    let has_godebug = match &facts.frankenphp_env {
        Some(env) => {
            let e = to_chars(env.as_str());
            contains_exec(e.as_slice(), godebug.as_slice())
        },
        None => false,
    };
    if has_godebug {
        push_result(&mut results, CheckResult::ok("GODEBUG", "cgocheck=0 set"));
    } else {
        let detail = if facts.frankenphp_env.is_some() {
            "cgocheck=0 not found in FrankenPHP process environment"
        } else {
            "Could not read FrankenPHP process environment — ensure GODEBUG=cgocheck=0 is set"
        };
        let w = CheckResult::warn("GODEBUG", detail);
        let r = match &facts.service_override {
            Some(p) => w.with_fix("Add GODEBUG=cgocheck=0 to FrankenPHP service", p.as_str(), "Environment=GODEBUG=cgocheck=0"),
            None => w.with_fix(
                "Add GODEBUG=cgocheck=0 to Forge site environment",
                "Forge Site → Environment",
                "GODEBUG=cgocheck=0",
            ),
        };
        push_result(&mut results, r);
    }
    let gb = facts.recommended_gb;
    let r = match &facts.frankenphp_env {
        Some(env) => {
            let e = to_chars(env.as_str());
            let ls = lines_exec(e.as_slice());
            let prefix = to_chars("GOMEMLIMIT=");
            match first_with_prefix_exec(&ls, prefix.as_slice()) {
                Some(i) => {
                    let v = from_chars(trim_start_pat_slice(ls[i].as_slice(), prefix.as_slice()));
                    CheckResult::ok("GOMEMLIMIT", v.as_str())
                },
                None => {
                    let d = lit_num_lit("Not set — recommend ", gb, "GiB based on PHP RAM budget");
                    let w = CheckResult::warn("GOMEMLIMIT", d.as_str());
                    let desc = lit_num_lit("Set GOMEMLIMIT=", gb, "GiB");
                    match &facts.service_override {
                        Some(p) => {
                            let c = lit_num_lit("Environment=GOMEMLIMIT=", gb, "GiB");
                            w.with_fix(desc.as_str(), p.as_str(), c.as_str())
                        },
                        None => {
                            let c = lit_num_lit("GOMEMLIMIT=", gb, "GiB");
                            w.with_fix(desc.as_str(), "Forge Site → Environment", c.as_str())
                        },
                    }
                },
            }
        },
        None => {
            let d = lit_num_lit("Could not check — recommend ", gb, "GiB");
            CheckResult::warn("GOMEMLIMIT", d.as_str())
        },
    };
    push_result(&mut results, r);
    assert(findings(results@) =~= seq![godebug_finding(*facts), gomemlimit_finding(*facts)]);
    results
}

} // verus!
