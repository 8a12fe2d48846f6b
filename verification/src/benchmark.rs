//! Which benchmark measures the effect of a fix.
use vstd::prelude::*;
use crate::text::{contains, contains_exec, ends_with, ends_with_exec, to_chars};

verus! {

/// What kind of fix is benchmarked; decides which benchmark runs.
#[derive(Debug, Clone, Copy, PartialEq, Eq, Structural)]
pub enum BenchmarkKind {
    /// PHP settings (OPcache, realpath, memory): PHP bootstrap and throughput.
    Php,
    /// MySQL settings: database query performance.
    Mysql,
    /// No meaningful benchmark (such as a `.env` change).
    NoBenchmark,
}

/// The benchmark for a fix to `file`: PHP for a `php.ini` or a php-zts
/// path, MySQL for a mysql path or any `.cnf`, none otherwise.
pub open spec fn kind_of_file(file: Seq<char>) -> BenchmarkKind {
    if contains(file, "php.ini"@) || contains(file, "php-zts"@) {
        BenchmarkKind::Php
    } else if contains(file, "mysql"@) || contains(file, ".cnf"@) {
        BenchmarkKind::Mysql
    } else {
        BenchmarkKind::NoBenchmark
    }
}

pub open spec fn kind_label(k: BenchmarkKind) -> Seq<char> {
    match k {
        BenchmarkKind::Php => "PHP Performance"@,
        BenchmarkKind::Mysql => "MySQL Performance"@,
        BenchmarkKind::NoBenchmark => ""@,
    }
}

impl BenchmarkKind {
    /// Determine the benchmark kind from the target file path.
    pub fn from_file(file: &str) -> (r: Self)
        ensures
            r == kind_of_file(file@),
    {
        let f = to_chars(file);
        let ini = to_chars("php.ini");
        let zts = to_chars("php-zts");
        let mysql = to_chars("mysql");
        let cnf = to_chars(".cnf");
        if contains_exec(f.as_slice(), ini.as_slice()) || contains_exec(f.as_slice(), zts.as_slice()) {
            BenchmarkKind::Php
        } else if contains_exec(f.as_slice(), mysql.as_slice()) || contains_exec(
            f.as_slice(),
            cnf.as_slice(),
        ) {
            BenchmarkKind::Mysql
        } else {
            BenchmarkKind::NoBenchmark
        }
    }

    pub fn label(&self) -> (r: &'static str)
        ensures
            r@ == kind_label(*self),
    {
        match self {
            BenchmarkKind::Php => "PHP Performance",
            BenchmarkKind::Mysql => "MySQL Performance",
            BenchmarkKind::NoBenchmark => "",
        }
    }
}

/// Whether the fixes to `file` can be measured by a benchmark: those to a
/// php.ini (an `.ini` file) or to a MySQL option file (a `.cnf` file). A
/// `.env` or a systemd unit is never measured.
pub open spec fn measurable_file(file: Seq<char>) -> bool {
    ends_with(file, ".ini"@) || ends_with(file, ".cnf"@)
}

/// The benchmark offered before the fixes to `file` are applied: the kind of
/// the file where it is a php.ini or a MySQL option file, none otherwise.
pub open spec fn fix_benchmark_of(file: Seq<char>) -> BenchmarkKind {
    if measurable_file(file) {
        kind_of_file(file)
    } else {
        BenchmarkKind::NoBenchmark
    }
}

/// The benchmark to offer before the fixes to `file` are applied.
pub fn fix_benchmark(file: &str) -> (r: BenchmarkKind)
    ensures
        r == fix_benchmark_of(file@),
{
    let f = to_chars(file);
    let ini = to_chars(".ini");
    let cnf = to_chars(".cnf");
    if ends_with_exec(f.as_slice(), ini.as_slice()) || ends_with_exec(f.as_slice(), cnf.as_slice()) {
        BenchmarkKind::from_file(file)
    } else {
        BenchmarkKind::NoBenchmark
    }
}

/// What to restart after a fix to `file` is written: FrankenPHP for PHP
/// settings, MySQL for MySQL settings, nothing otherwise.
pub open spec fn restart_hint_of(file: Seq<char>) -> Option<Seq<char>> {
    match kind_of_file(file) {
        BenchmarkKind::Php => Some("Restart FrankenPHP for changes to take effect."@),
        BenchmarkKind::Mysql => Some("Restart MySQL for changes to take effect."@),
        BenchmarkKind::NoBenchmark => None,
    }
}

/// The hint printed after fixes to `file` were written.
pub fn restart_hint(file: &str) -> (r: Option<&'static str>)
    ensures
        match r {
            Some(h) => restart_hint_of(file@) == Some(h@),
            None => restart_hint_of(file@) is None,
        },
{
    match BenchmarkKind::from_file(file) {
        BenchmarkKind::Php => Some("Restart FrankenPHP for changes to take effect."),
        BenchmarkKind::Mysql => Some("Restart MySQL for changes to take effect."),
        BenchmarkKind::NoBenchmark => None,
    }
}

} // verus!
