//! What the report shows: results grouped into sections, the status
//! counts, the summary bars, and the recommended changes by file.
use vstd::prelude::*;
use colored::Colorize;
use crate::fixes::{add_to_group, fix_file, grouped_by_file, in_scope, Grouping};
use crate::text::{eq_chars, starts_with, starts_with_exec, to_chars};
use crate::types::{findings, CheckResult, Finding, Status};

verus! {

// ---------------------------------------------------------------------
// Status counts
// ---------------------------------------------------------------------

/// Number of findings with the given status.
pub open spec fn count_status(rs: Seq<Finding>, st: Status) -> nat
    decreases rs.len(),
{
    if rs.len() == 0 {
        0
    } else {
        count_status(rs.drop_last(), st) + if rs.last().status == st {
            1nat
        } else {
            0nat
        }
    }
}

/// Each summary count is the number of results with that status: passes
/// count as passes, warnings as warnings and failures as failures.
pub proof fn law_status_count_is_filter(rs: Seq<Finding>, st: Status)
    ensures
        count_status(rs, st) == rs.filter(|x: Finding| x.status == st).len(),
    decreases rs.len(),
{
    reveal(Seq::filter);
    if rs.len() > 0 {
        law_status_count_is_filter(rs.drop_last(), st);
    }
}

/// The numbers of passed, warned and failed results (informational ones
/// are not counted).
pub fn count_statuses(results: &[CheckResult]) -> (r: (usize, usize, usize))
    ensures
        r.0 == count_status(findings(results@), Status::Pass),
        r.1 == count_status(findings(results@), Status::Warn),
        r.2 == count_status(findings(results@), Status::Fail),
        r.0 == findings(results@).filter(|x: Finding| x.status == Status::Pass).len(),
        r.1 == findings(results@).filter(|x: Finding| x.status == Status::Warn).len(),
        r.2 == findings(results@).filter(|x: Finding| x.status == Status::Fail).len(),
{
    proof {
        law_status_count_is_filter(findings(results@), Status::Pass);
        law_status_count_is_filter(findings(results@), Status::Warn);
        law_status_count_is_filter(findings(results@), Status::Fail);
    }
    let ghost rs = findings(results@);
    let mut ok: usize = 0;
    let mut warn: usize = 0;
    let mut fail: usize = 0;
    let mut i: usize = 0;
    assert(rs.take(0) =~= Seq::<Finding>::empty());
    while i < results.len()
        invariant
            rs == findings(results@),
            i <= results@.len(),
            ok + warn + fail <= i,
            ok == count_status(rs.take(i as int), Status::Pass),
            warn == count_status(rs.take(i as int), Status::Warn),
            fail == count_status(rs.take(i as int), Status::Fail),
        decreases results@.len() - i,
    {
        assert(rs.take(i + 1).drop_last() =~= rs.take(i as int));
        assert(rs.take(i + 1).last() == results@[i as int]@);
        match results[i].status {
            Status::Pass => ok += 1,
            Status::Warn => warn += 1,
            Status::Fail => fail += 1,
            Status::Info => {},
        }
        i += 1;
    }
    assert(rs.take(results@.len() as int) =~= rs);
    (ok, warn, fail)
}

// ---------------------------------------------------------------------
// Sections
// ---------------------------------------------------------------------

/// Name of section `k` of the report; the last one, `Other`, takes the
/// results no earlier section claims.
pub open spec fn section_name(k: int) -> Seq<char> {
    if k == 0 {
        "System"@
    } else if k == 1 {
        "Runtime"@
    } else if k == 2 {
        "FrankenPHP"@
    } else if k == 3 {
        "PHP Extensions"@
    } else if k == 4 {
        "PHP Configuration"@
    } else if k == 5 {
        "Go Runtime"@
    } else if k == 6 {
        "Laravel Environment"@
    } else if k == 7 {
        "Laravel Application"@
    } else if k == 8 {
        "MySQL / MariaDB"@
    } else if k == 9 {
        "Redis"@
    } else {
        "Other"@
    }
}

/// The label prefixes that claim a result for section `k`.
pub open spec fn section_prefixes(k: int) -> Seq<Seq<char>> {
    if k == 0 {
        seq![
            "CPU Cores"@,
            "Memory"@,
            "Swap Usage"@,
            "PHP RAM Budget"@,
            "Laravel Version"@,
            "MySQL/MariaDB"@,
            "Redis"@,
        ]
    } else if k == 1 {
        seq!["libc"@]
    } else if k == 2 {
        seq!["FrankenPHP Binary"@, "FrankenPHP Version"@]
    } else if k == 3 {
        seq!["PHP-ZTS"@, "PHP ext:"@]
    } else if k == 4 {
        seq!["opcache."@, "realpath_cache"@, "memory_limit"@, "Worker Memory"@]
    } else if k == 5 {
        seq!["GODEBUG"@, "GOMEMLIMIT"@]
    } else if k == 6 {
        seq![
            "APP_ENV"@,
            "APP_DEBUG"@,
            "OCTANE_HTTPS"@,
            "CACHE_STORE"@,
            "QUEUE_CONNECTION"@,
            "SESSION_DRIVER"@,
            "LOG_CHANNEL"@,
        ]
    } else if k == 7 {
        seq!["Bootstrap Cache"@, "composer"@]
    } else if k == 8 {
        seq![
            "MySQL Version"@,
            "innodb_"@,
            "query_cache"@,
            "slow_query"@,
            "long_query"@,
            "max_connections"@,
            "tmp_table"@,
        ]
    } else if k == 9 {
        seq!["Redis"@]
    } else {
        seq![]
    }
}

pub open spec fn claims(k: int, label: Seq<char>) -> bool {
    exists|j: int| 0 <= j < section_prefixes(k).len() && starts_with(label, #[trigger] section_prefixes(k)[j])
}

/// The first section from `k` on that claims the label; `Other` (10) when
/// none does.
pub open spec fn section_from(label: Seq<char>, k: int) -> int
    decreases 10 - k,
{
    if k >= 10 {
        10
    } else if claims(k, label) {
        k
    } else {
        section_from(label, k + 1)
    }
}

/// The section a result with this label is shown in.
pub open spec fn section_of(label: Seq<char>) -> int {
    section_from(label, 0)
}

/// The results of section `k`, in order.
pub open spec fn members(rs: Seq<Finding>, k: int) -> Seq<Finding>
    decreases rs.len(),
{
    if rs.len() == 0 {
        seq![]
    } else {
        members(rs.drop_last(), k) + if section_of(rs.last().label) == k {
            seq![rs.last()]
        } else {
            seq![]
        }
    }
}

/// The sections from `k` on that hold results, with their results.
pub open spec fn sections_from(rs: Seq<Finding>, k: int) -> Seq<(Seq<char>, Seq<Finding>)>
    decreases 11 - k,
{
    if k > 10 || k < 0 {
        seq![]
    } else {
        (if members(rs, k).len() > 0 {
            seq![(section_name(k), members(rs, k))]
        } else {
            seq![]
        }) + sections_from(rs, k + 1)
    }
}

/// The report's sections: each section that holds results, in table order,
/// with its results in their order.
pub open spec fn sections(rs: Seq<Finding>) -> Seq<(Seq<char>, Seq<Finding>)> {
    sections_from(rs, 0)
}

pub open spec fn sections_view(v: Seq<(&str, Vec<&CheckResult>)>) -> Seq<(Seq<char>, Seq<Finding>)> {
    v.map_values(|s: (&str, Vec<&CheckResult>)| (s.0@, s.1@.map_values(|r: &CheckResult| r@)))
}

fn section_name_exec(k: usize) -> (r: &'static str)
    ensures
        r@ == section_name(k as int),
{
    if k == 0 {
        "System"
    } else if k == 1 {
        "Runtime"
    } else if k == 2 {
        "FrankenPHP"
    } else if k == 3 {
        "PHP Extensions"
    } else if k == 4 {
        "PHP Configuration"
    } else if k == 5 {
        "Go Runtime"
    } else if k == 6 {
        "Laravel Environment"
    } else if k == 7 {
        "Laravel Application"
    } else if k == 8 {
        "MySQL / MariaDB"
    } else if k == 9 {
        "Redis"
    } else {
        "Other"
    }
}

fn section_prefixes_exec(k: usize) -> (r: Vec<&'static str>)
    ensures
        r@.map_values(|s: &str| s@) == section_prefixes(k as int),
{
    let mut v: Vec<&'static str> = Vec::new();
    if k == 0 {
        v.push("CPU Cores");
        v.push("Memory");
        v.push("Swap Usage");
        v.push("PHP RAM Budget");
        v.push("Laravel Version");
        v.push("MySQL/MariaDB");
        v.push("Redis");
    } else if k == 1 {
        v.push("libc");
    } else if k == 2 {
        v.push("FrankenPHP Binary");
        v.push("FrankenPHP Version");
    } else if k == 3 {
        v.push("PHP-ZTS");
        v.push("PHP ext:");
    } else if k == 4 {
        v.push("opcache.");
        v.push("realpath_cache");
        v.push("memory_limit");
        v.push("Worker Memory");
    } else if k == 5 {
        v.push("GODEBUG");
        v.push("GOMEMLIMIT");
    } else if k == 6 {
        v.push("APP_ENV");
        v.push("APP_DEBUG");
        v.push("OCTANE_HTTPS");
        v.push("CACHE_STORE");
        v.push("QUEUE_CONNECTION");
        v.push("SESSION_DRIVER");
        v.push("LOG_CHANNEL");
    } else if k == 7 {
        v.push("Bootstrap Cache");
        v.push("composer");
    } else if k == 8 {
        v.push("MySQL Version");
        v.push("innodb_");
        v.push("query_cache");
        v.push("slow_query");
        v.push("long_query");
        v.push("max_connections");
        v.push("tmp_table");
    } else if k == 9 {
        v.push("Redis");
    }
    assert(v@.map_values(|s: &str| s@) =~= section_prefixes(k as int));
    v
}

fn claims_exec(k: usize, label: &[char]) -> (r: bool)
    ensures
        r == claims(k as int, label@),
{
    let ps = section_prefixes_exec(k);
    let ghost pv = ps@.map_values(|s: &str| s@);
    let mut j: usize = 0;
    while j < ps.len()
        invariant
            pv == ps@.map_values(|s: &str| s@),
            pv == section_prefixes(k as int),
            j <= ps@.len(),
            forall|m: int| 0 <= m < j ==> !starts_with(label@, #[trigger] pv[m]),
        decreases ps@.len() - j,
    {
        let p = to_chars(ps[j]);
        if starts_with_exec(label, p.as_slice()) {
            assert(pv[j as int] == p@);
            return true;
        }
        j += 1;
    }
    false
}

fn section_of_exec(label: &[char]) -> (r: usize)
    ensures
        r as int == section_of(label@),
        r <= 10,
{
    let mut k: usize = 0;
    while k < 10 && !claims_exec(k, label)
        invariant
            k <= 10,
            section_of(label@) == section_from(label@, k as int),
        decreases 10 - k,
    {
        k += 1;
    }
    k
}

/// Groups the results into the report's sections: a result goes to the
/// first section (in table order) with a prefix of its label, or to
/// `Other`; sections without results are left out.
pub fn group_by_section<'a>(results: &'a [CheckResult]) -> (r: Vec<(&'static str, Vec<&'a CheckResult>)>)
    ensures
        sections_view(r@) == sections(findings(results@)),
{
    let ghost rs = findings(results@);
    let mut sec: Vec<usize> = Vec::new();
    let mut i: usize = 0;
    while i < results.len()
        invariant
            rs == findings(results@),
            i <= results@.len(),
            sec@.len() == i,
            forall|j: int| 0 <= j < i ==> (#[trigger] sec@[j]) as int == section_of(rs[j].label),
        decreases results@.len() - i,
    {
        let label = to_chars(results[i].label.as_str());
        assert(rs[i as int] == results@[i as int]@);
        let s = section_of_exec(label.as_slice());
        sec.push(s);
        i += 1;
    }
    let mut out: Vec<(&'static str, Vec<&'a CheckResult>)> = Vec::new();
    let mut k: usize = 0;
    assert(sections_view(out@) =~= Seq::<(Seq<char>, Seq<Finding>)>::empty());
    assert(sections(rs) =~= sections_view(out@) + sections_from(rs, 0));
    while k <= 10
        invariant
            rs == findings(results@),
            sec@.len() == results@.len(),
            forall|j: int| 0 <= j < results@.len() ==> (#[trigger] sec@[j]) as int == section_of(rs[j].label),
            k <= 11,
            sections(rs) == sections_view(out@) + sections_from(rs, k as int),
        decreases 11 - k,
    {
        let mut list: Vec<&'a CheckResult> = Vec::new();
        let mut j: usize = 0;
        assert(rs.take(0) =~= Seq::<Finding>::empty());
        assert(list@.map_values(|r: &CheckResult| r@) =~= Seq::<Finding>::empty());
        while j < results.len()
            invariant
                rs == findings(results@),
                sec@.len() == results@.len(),
                forall|m: int| 0 <= m < results@.len() ==> (#[trigger] sec@[m]) as int == section_of(rs[m].label),
                j <= results@.len(),
                list@.map_values(|r: &CheckResult| r@) == members(rs.take(j as int), k as int),
            decreases results@.len() - j,
        {
            let ghost before = list@.map_values(|r: &CheckResult| r@);
            assert(rs.take(j + 1).drop_last() =~= rs.take(j as int));
            assert(rs.take(j + 1).last() == rs[j as int]);
            assert(rs[j as int] == results@[j as int]@);
            if sec[j] == k {
                list.push(&results[j]);
                assert(list@.map_values(|r: &CheckResult| r@) =~= before.push(rs[j as int]));
            } else {
                assert(members(rs.take(j + 1), k as int) =~= before);
            }
            j += 1;
        }
        assert(rs.take(results@.len() as int) =~= rs);
        let ghost mk = members(rs, k as int);
        let ghost prev = sections_view(out@);
        if list.len() > 0 {
            let name = section_name_exec(k);
            out.push((name, list));
            assert(sections_view(out@) =~= prev.push((section_name(k as int), mk)));
            assert(sections_from(rs, k as int) =~= seq![(section_name(k as int), mk)] + sections_from(rs, k + 1));
            assert(sections(rs) =~= sections_view(out@) + sections_from(rs, k + 1));
        } else {
            assert(sections_from(rs, k as int) =~= sections_from(rs, k + 1));
        }
        k += 1;
    }
    assert(sections_from(rs, 11) =~= Seq::<(Seq<char>, Seq<Finding>)>::empty());
    assert(sections_view(out@) + Seq::<(Seq<char>, Seq<Finding>)>::empty() =~= sections_view(out@));
    out
}

// ---------------------------------------------------------------------
// Every result is shown once
// ---------------------------------------------------------------------

/// The results of all listed sections, one section after the other.
pub open spec fn section_contents(secs: Seq<(Seq<char>, Seq<Finding>)>) -> Seq<Finding>
    decreases secs.len(),
{
    if secs.len() == 0 {
        seq![]
    } else {
        secs[0].1 + section_contents(secs.drop_first())
    }
}

/// The results of sections `k` to `Other`, one section after the other.
pub open spec fn members_from(rs: Seq<Finding>, k: int) -> Seq<Finding>
    decreases 11 - k,
{
    if k > 10 || k < 0 {
        seq![]
    } else {
        members(rs, k) + members_from(rs, k + 1)
    }
}

proof fn lemma_section_range(label: Seq<char>, k: int)
    requires
        0 <= k,
    ensures
        k <= section_from(label, k) <= 10 || (k > 10 && section_from(label, k) == 10),
    decreases 10 - k,
{
    if k < 10 && !claims(k, label) {
        lemma_section_range(label, k + 1);
    }
}

proof fn lemma_contents_from(rs: Seq<Finding>, k: int)
    requires
        0 <= k <= 11,
    ensures
        section_contents(sections_from(rs, k)) == members_from(rs, k),
    decreases 11 - k,
{
    if k <= 10 {
        lemma_contents_from(rs, k + 1);
        let head = if members(rs, k).len() > 0 {
            seq![(section_name(k), members(rs, k))]
        } else {
            Seq::<(Seq<char>, Seq<Finding>)>::empty()
        };
        let rest = sections_from(rs, k + 1);
        if members(rs, k).len() > 0 {
            assert((head + rest)[0] == (section_name(k), members(rs, k)));
            assert((head + rest).drop_first() =~= rest);
        } else {
            assert(head + rest =~= rest);
            assert(members(rs, k) =~= Seq::<Finding>::empty());
            assert(members_from(rs, k) =~= members_from(rs, k + 1));
        }
    } else {
        assert(sections_from(rs, k) =~= Seq::<(Seq<char>, Seq<Finding>)>::empty());
    }
}

proof fn lemma_members_from_push(rs: Seq<Finding>, x: Finding, k: int)
    requires
        0 <= k <= 11,
    ensures
        members_from(rs.push(x), k).to_multiset() == if section_of(x.label) >= k {
            members_from(rs, k).to_multiset().insert(x)
        } else {
            members_from(rs, k).to_multiset()
        },
    decreases 11 - k,
{
    broadcast use vstd::seq_lib::group_to_multiset_ensures;
    let t = rs.push(x);
    assert(t.drop_last() =~= rs);
    lemma_section_range(x.label, 0);
    if k <= 10 {
        lemma_members_from_push(rs, x, k + 1);
        vstd::seq_lib::lemma_multiset_commutative(members(t, k), members_from(t, k + 1));
        vstd::seq_lib::lemma_multiset_commutative(members(rs, k), members_from(rs, k + 1));
        if section_of(x.label) == k {
            assert(members(t, k) =~= members(rs, k).push(x));
        } else {
            assert(members(t, k) =~= members(rs, k) + Seq::<Finding>::empty());
        }
        assert(members_from(t, k).to_multiset() =~= (if section_of(x.label) >= k {
            members_from(rs, k).to_multiset().insert(x)
        } else {
            members_from(rs, k).to_multiset()
        }));
    }
}

proof fn lemma_members_from_all(rs: Seq<Finding>)
    ensures
        members_from(rs, 0).to_multiset() == rs.to_multiset(),
    decreases rs.len(),
{
    broadcast use vstd::seq_lib::group_to_multiset_ensures;
    if rs.len() == 0 {
        lemma_members_from_empty(rs, 0);
    } else {
        lemma_members_from_all(rs.drop_last());
        assert(rs.drop_last().push(rs.last()) =~= rs);
        lemma_members_from_push(rs.drop_last(), rs.last(), 0);
        lemma_section_range(rs.last().label, 0);
    }
}

proof fn lemma_members_from_empty(rs: Seq<Finding>, k: int)
    requires
        rs.len() == 0,
        0 <= k <= 11,
    ensures
        members_from(rs, k).len() == 0,
    decreases 11 - k,
{
    if k <= 10 {
        lemma_members_from_empty(rs, k + 1);
    }
}

/// Every result is shown exactly once: the sections of the report hold,
/// together, the same results as the run, as many times each.
pub proof fn law_sections_partition(rs: Seq<Finding>)
    ensures
        section_contents(sections(rs)).to_multiset() == rs.to_multiset(),
{
    lemma_contents_from(rs, 0);
    lemma_members_from_all(rs);
}

/// The sections of the table, from `k` on, that hold results.
pub open spec fn filled_sections(rs: Seq<Finding>, k: int) -> Seq<int>
    decreases 11 - k,
{
    if k > 10 || k < 0 {
        seq![]
    } else {
        (if members(rs, k).len() > 0 {
            seq![k]
        } else {
            seq![]
        }) + filled_sections(rs, k + 1)
    }
}

proof fn lemma_sections_from_shape(rs: Seq<Finding>, k: int)
    requires
        0 <= k <= 11,
    ensures
        sections_from(rs, k) == filled_sections(rs, k).map_values(
            |j: int| (section_name(j), members(rs, j)),
        ),
        forall|i: int|
            0 <= i < filled_sections(rs, k).len() ==> k <= #[trigger] filled_sections(rs, k)[i] <= 10
                && members(rs, filled_sections(rs, k)[i]).len() > 0,
        forall|i: int, j: int|
            0 <= i < j < filled_sections(rs, k).len() ==> #[trigger] filled_sections(rs, k)[i]
                < #[trigger] filled_sections(rs, k)[j],
    decreases 11 - k,
{
    if k <= 10 {
        lemma_sections_from_shape(rs, k + 1);
        let rest = filled_sections(rs, k + 1);
        let ks = filled_sections(rs, k);
        if members(rs, k).len() > 0 {
            assert(ks =~= seq![k] + rest);
            assert forall|i: int, j: int| 0 <= i < j < ks.len() implies #[trigger] ks[i] < #[trigger] ks[j] by {
                if i > 0 {
                    assert(ks[i] == rest[i - 1] && ks[j] == rest[j - 1]);
                } else {
                    assert(ks[j] == rest[j - 1]);
                }
            }
        } else {
            assert(ks =~= rest);
        }
        assert(sections_from(rs, k) =~= ks.map_values(|j: int| (section_name(j), members(rs, j))));
    } else {
        assert(sections_from(rs, k) =~= filled_sections(rs, k).map_values(
            |j: int| (section_name(j), members(rs, j)),
        ));
    }
}

/// The sections of the table have distinct names.
proof fn lemma_section_names_distinct(a: int, b: int)
    requires
        0 <= a < b <= 10,
    ensures
        section_name(a) != section_name(b),
{
    reveal_strlit("System");
    reveal_strlit("Runtime");
    reveal_strlit("FrankenPHP");
    reveal_strlit("PHP Extensions");
    reveal_strlit("PHP Configuration");
    reveal_strlit("Go Runtime");
    reveal_strlit("Laravel Environment");
    reveal_strlit("Laravel Application");
    reveal_strlit("MySQL / MariaDB");
    reveal_strlit("Redis");
    reveal_strlit("Other");
    let x = section_name(a);
    let y = section_name(b);
    if x == y {
        assert(x.len() == y.len());
        assert(x[0] == y[0]);
        assert(x[4] == y[4]);
        assert(x[8] == y[8]);
    }
}

/// The report's shape: its sections are the table's sections that hold
/// results, in table order and each once, named as in the table, and each
/// holds the results of its section in their order (a result belongs to
/// the first section one of whose prefixes starts its label, else to
/// `Other`). No two sections of the table share a name.
pub proof fn law_sections_shape(rs: Seq<Finding>)
    ensures
        sections(rs) == filled_sections(rs, 0).map_values(
            |j: int| (section_name(j), members(rs, j)),
        ),
        forall|i: int|
            0 <= i < filled_sections(rs, 0).len() ==> 0 <= #[trigger] filled_sections(rs, 0)[i] <= 10
                && members(rs, filled_sections(rs, 0)[i]).len() > 0,
        forall|i: int, j: int|
            0 <= i < j < filled_sections(rs, 0).len() ==> #[trigger] filled_sections(rs, 0)[i]
                < #[trigger] filled_sections(rs, 0)[j],
        forall|a: int, b: int| 0 <= a < b <= 10 ==> #[trigger] section_name(a) != #[trigger] section_name(b),
{
    lemma_sections_from_shape(rs, 0);
    assert forall|a: int, b: int| 0 <= a < b <= 10 implies #[trigger] section_name(a) != #[trigger] section_name(b) by {
        lemma_section_names_distinct(a, b);
    }
}

/// Every result has exactly one status: the passed, warned, failed and
/// informational results together are all of them.
pub proof fn law_status_counts_cover(rs: Seq<Finding>)
    ensures
        count_status(rs, Status::Pass) + count_status(rs, Status::Warn) + count_status(
            rs,
            Status::Fail,
        ) + count_status(rs, Status::Info) == rs.len(),
    decreases rs.len(),
{
    if rs.len() > 0 {
        law_status_counts_cover(rs.drop_last());
    }
}

// ---------------------------------------------------------------------
// Summary bars
// ---------------------------------------------------------------------

/// How many of the 8 cells of a summary bar are filled for `count` of
/// `total` results: the proportional share, rounded down, and at least one
/// cell when `count` is not zero.
pub open spec fn filled_cells(count: nat, total: nat) -> nat {
    if total > 0 {
        let share = (count * 8) / total;
        if share == 0 && count > 0 {
            1
        } else {
            share
        }
    } else {
        0
    }
}

/// A bar is full when every result has its status, empty when none has,
/// and never has more than its 8 cells.
pub proof fn law_bar_extremes(count: nat, total: nat)
    requires
        count <= total,
    ensures
        total > 0 ==> filled_cells(total, total) == 8,
        filled_cells(0, total) == 0,
        filled_cells(count, total) <= 8,
{
    if total > 0 {
        assert((total * 8) / total == 8) by (nonlinear_arith)
            requires
                total > 0,
        ;
        assert((count * 8) / total <= 8) by (nonlinear_arith)
            requires
                total > 0,
                count <= total,
        ;
        assert((0 * 8) / total == 0) by (nonlinear_arith)
            requires
                total > 0,
        ;
    }
}

/// A bar of 8 cells, `filled` of them full.
pub open spec fn bar_text(filled: nat) -> Seq<char> {
    Seq::new(filled, |i: int| '\u{2588}') + Seq::new((8 - filled) as nat, |i: int| '\u{2591}')
}

/// Colors of the summary bars.
#[derive(Debug, Clone, Copy, PartialEq, Eq, Structural)]
pub enum BarColor {
    Green,
    Yellow,
    Red,
}

pub open spec fn ansi_code(c: BarColor) -> Seq<char> {
    match c {
        BarColor::Green => "32"@,
        BarColor::Yellow => "33"@,
        BarColor::Red => "31"@,
    }
}

/// A text as the terminal shows it in a color: either as it is (when
/// colors are off) or between the color's escape sequence and the reset
/// sequence.
pub open spec fn painted(s: Seq<char>, c: BarColor, r: Seq<char>) -> bool {
    r == s || r == "\x1b["@ + ansi_code(c) + "m"@ + s + "\x1b[0m"@
}

/// Renders `s` green with the `colored` crate (`s.green()`, formatted).
/// Whether colors are on depends on the terminal and the environment, so
/// the result is one of the two forms of [`painted`]; for a text that holds
/// the reset sequence itself, `colored` also repeats the style after each
/// reset, which is left unsaid.
#[verifier::external_body]
fn paint_green(s: &str) -> (r: String)
    ensures
        !crate::text::contains(s@, "\x1b[0m"@) ==> painted(s@, BarColor::Green, r@),
{
    format!("{}", s.green())
}

/// Renders `s` yellow with the `colored` crate (`s.yellow()`, formatted);
/// what is claimed and left unsaid is as for [`paint_green`].
#[verifier::external_body]
fn paint_yellow(s: &str) -> (r: String)
    ensures
        !crate::text::contains(s@, "\x1b[0m"@) ==> painted(s@, BarColor::Yellow, r@),
{
    format!("{}", s.yellow())
}

/// Renders `s` red with the `colored` crate (`s.red()`, formatted); what
/// is claimed and left unsaid is as for [`paint_green`].
#[verifier::external_body]
fn paint_red(s: &str) -> (r: String)
    ensures
        !crate::text::contains(s@, "\x1b[0m"@) ==> painted(s@, BarColor::Red, r@),
{
    format!("{}", s.red())
}

/// The color a color name asks for; none for a name other than green,
/// yellow or red.
pub open spec fn bar_color(name: Seq<char>) -> Option<BarColor> {
    if name == "green"@ {
        Some(BarColor::Green)
    } else if name == "yellow"@ {
        Some(BarColor::Yellow)
    } else if name == "red"@ {
        Some(BarColor::Red)
    } else {
        None
    }
}

/// A summary bar of 8 cells for `count` of `total` results, in the named
/// color (green, yellow or red; uncolored for any other name). The share
/// must not exceed the 8 cells (as when `count <= total`).
pub fn make_bar(count: usize, total: usize, color: &str) -> (r: String)
    requires
        total == 0 || (count * 8) / (total as int) <= 8,
        total == 0 || count * 8 <= usize::MAX,
    ensures
        match bar_color(color@) {
            Some(c) => painted(bar_text(filled_cells(count as nat, total as nat)), c, r@),
            None => r@ == bar_text(filled_cells(count as nat, total as nat)),
        },
{
    let filled: usize = if total > 0 {
        let share = count * 8 / total;
        assert(share <= 8);
        if share == 0 && count > 0 {
            1
        } else {
            share
        }
    } else {
        0
    };
    assert(filled == filled_cells(count as nat, total as nat));
    let mut bar = String::new();
    let mut i: usize = 0;
    while i < 8
        invariant
            filled <= 8,
            i <= 8,
            bar@ == bar_text(filled as nat).take(i as int),
        decreases 8 - i,
    {
        let ch = if i < filled {
            '\u{2588}'
        } else {
            '\u{2591}'
        };
        crate::text::string_push(&mut bar, ch);
        assert(bar_text(filled as nat)[i as int] == ch);
        assert(bar_text(filled as nat).take(i + 1) =~= bar_text(filled as nat).take(i as int).push(ch));
        i += 1;
    }
    assert(bar_text(filled as nat).take(8) =~= bar_text(filled as nat));
    let cv = to_chars(color);
    let green = to_chars("green");
    let yellow = to_chars("yellow");
    let red = to_chars("red");
    let chosen = if eq_chars(cv.as_slice(), green.as_slice()) {
        Some(BarColor::Green)
    } else if eq_chars(cv.as_slice(), yellow.as_slice()) {
        Some(BarColor::Yellow)
    } else if eq_chars(cv.as_slice(), red.as_slice()) {
        Some(BarColor::Red)
    } else {
        None
    };
    match chosen {
        Some(c) => {
            proof {
                lemma_bar_has_no_escape(filled as nat);
            }
            match c {
                BarColor::Green => paint_green(bar.as_str()),
                BarColor::Yellow => paint_yellow(bar.as_str()),
                BarColor::Red => paint_red(bar.as_str()),
            }
        },
        None => bar,
    }
}

proof fn lemma_bar_has_no_escape(filled: nat)
    requires
        filled <= 8,
    ensures
        !crate::text::contains(bar_text(filled), "\x1b[0m"@),
{
    reveal_strlit("\x1b[0m");
    let b = bar_text(filled);
    assert forall|i: int| !#[trigger] crate::text::matches_at(b, "\x1b[0m"@, i) by {
        if crate::text::matches_at(b, "\x1b[0m"@, i) {
            assert(b.subrange(i, i + 4)[0] == b[i]);
            assert(b[i] == '\u{2588}' || b[i] == '\u{2591}');
        }
    }
}

// ---------------------------------------------------------------------
// Recommended changes
// ---------------------------------------------------------------------

/// The fix contents at the given positions, in order.
pub open spec fn contents_at(rs: Seq<Finding>, idx: Seq<int>) -> Seq<Seq<char>> {
    idx.map_values(|i: int| (rs[i].fix->0).content)
}

pub open spec fn changes_view(v: Seq<(String, Vec<String>)>) -> Seq<(Seq<char>, Seq<Seq<char>>)> {
    v.map_values(|c: (String, Vec<String>)| (c.0@, c.1@.map_values(|s: String| s@)))
}

/// The recommended changes of a run, by file: every result that carries a
/// fix, whatever its status, one entry per file (files in sorted order),
/// each with the fix contents in the order of the results.
pub fn recommended_changes(results: &[CheckResult]) -> (r: Vec<(String, Vec<String>)>)
    ensures
        crate::order::sorted_strict(changes_view(r@).map_values(|c: (Seq<char>, Seq<Seq<char>>)| c.0)),
        forall|k: int|
            0 <= k < r@.len() ==> (#[trigger] changes_view(r@)[k]).1 == contents_at(
                findings(results@),
                crate::fixes::indices_in_group(findings(results@), None, changes_view(r@)[k].0),
            ),
        forall|k: int| 0 <= k < r@.len() ==> (#[trigger] changes_view(r@)[k]).1.len() > 0,
        forall|i: int|
            0 <= i < results@.len() && (#[trigger] findings(results@)[i]).fix is Some ==> exists|k: int|
                0 <= k < r@.len() && (#[trigger] changes_view(r@)[k]).0 == fix_file(findings(results@)[i]),
{
    let ghost rs = findings(results@);
    let mut g = Grouping { keys: Vec::new(), groups: Vec::new() };
    let mut i: usize = 0;
    assert(rs.take(0) =~= Seq::<Finding>::empty());
    assert(crate::fixes::groups_of(g.groups@) =~= Seq::<(Seq<char>, Seq<int>)>::empty());
    while i < results.len()
        invariant
            rs == findings(results@),
            i <= results@.len(),
            g.wf(),
            grouped_by_file(rs.take(i as int), None, g.view_groups()),
        decreases results@.len() - i,
    {
        let r = &results[i];
        assert(rs[i as int] == r@);
        match &r.fix {
            Some(f) => {
                add_to_group(&mut g, Ghost(rs), Ghost(None), i, &f.file);
            },
            None => {
                proof {
                    crate::fixes::lemma_grouped_skip(rs, i as int, None, g.view_groups());
                }
            },
        }
        i += 1;
    }
    assert(rs.take(results@.len() as int) =~= rs);
    let ghost gs = g.view_groups();
    let mut out: Vec<(String, Vec<String>)> = Vec::new();
    let mut k: usize = 0;
    while k < g.groups.len()
        invariant
            rs == findings(results@),
            gs == g.view_groups(),
            grouped_by_file(rs, None, gs),
            k <= g.groups@.len(),
            out@.len() == k,
            forall|m: int| 0 <= m < k ==> (#[trigger] changes_view(out@)[m]).0 == gs[m].0
                && changes_view(out@)[m].1 == contents_at(rs, gs[m].1),
        decreases g.groups@.len() - k,
    {
        let grp = &g.groups[k];
        assert(gs[k as int] == grp@);
        let mut vals: Vec<String> = Vec::new();
        let mut j: usize = 0;
        while j < grp.entries.len()
            invariant
                rs == findings(results@),
                gs == g.view_groups(),
                grouped_by_file(rs, None, gs),
                0 <= k < gs.len(),
                gs[k as int] == grp@,
                j <= grp.entries@.len(),
                vals@.map_values(|s: String| s@) == contents_at(rs, gs[k as int].1).take(j as int),
            decreases grp.entries@.len() - j,
        {
            let idx = grp.entries[j];
            proof {
                lemma_group_entry(rs, gs, k as int, j as int);
            }
            assert(idx as int == gs[k as int].1[j as int]);
            let ghost before = vals@.map_values(|s: String| s@);
            match &results[idx].fix {
                Some(f) => {
                    assert(rs[idx as int] == results@[idx as int]@);
                    vals.push(f.content.clone());
                    assert(vals@.map_values(|s: String| s@) =~= before.push(f.content@));
                    assert(contents_at(rs, gs[k as int].1).take(j + 1) =~= contents_at(
                        rs,
                        gs[k as int].1,
                    ).take(j as int).push(f.content@));
                },
                None => {
                    assert(rs[idx as int] == results@[idx as int]@);
                    assert(false);
                },
            }
            j += 1;
        }
        assert(contents_at(rs, gs[k as int].1).take(j as int) =~= contents_at(rs, gs[k as int].1));
        let ghost prev = changes_view(out@);
        out.push((grp.file.clone(), vals));
        assert(changes_view(out@) =~= prev.push((gs[k as int].0, contents_at(rs, gs[k as int].1))));
        k += 1;
    }
    proof {
        let cv = changes_view(out@);
        assert(cv.map_values(|c: (Seq<char>, Seq<Seq<char>>)| c.0) =~= gs.map_values(
            |x: (Seq<char>, Seq<int>)| x.0,
        ));
        assert forall|m: int| 0 <= m < out@.len() implies (#[trigger] cv[m]).1.len() > 0 by {
            assert(gs[m].1.len() > 0);
        }
        assert forall|i: int|
            0 <= i < results@.len() && (#[trigger] rs[i]).fix is Some implies exists|m: int|
                0 <= m < out@.len() && (#[trigger] cv[m]).0 == fix_file(rs[i]) by {
            assert(in_scope(rs[i], None));
            let m = choose|m: int| 0 <= m < gs.len() && (#[trigger] gs[m]).0 == fix_file(rs[i]);
            assert(cv[m].0 == gs[m].0);
        }
    }
    out
}

/// An entry of a group is the position of a result whose fix names the
/// group's file.
proof fn lemma_group_entry(rs: Seq<Finding>, gs: Seq<(Seq<char>, Seq<int>)>, k: int, j: int)
    requires
        grouped_by_file(rs, None, gs),
        0 <= k < gs.len(),
        0 <= j < gs[k].1.len(),
    ensures
        0 <= gs[k].1[j] < rs.len(),
        rs[gs[k].1[j]].fix is Some,
        fix_file(rs[gs[k].1[j]]) == gs[k].0,
{
    assert(gs[k].1 == crate::fixes::indices_in_group(rs, None, gs[k].0));
    crate::fixes::lemma_indices_in_group_members(rs, None, gs[k].0, j);
}

} // verus!
