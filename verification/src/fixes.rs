//! Configuration fixes: how fix lines are written into configuration text,
//! how environment lines are written into a systemd override, and how the
//! fixes of a run are sorted into what can be applied and how.
use vstd::prelude::*;
use crate::line_edit::{
    clean_lines, join_lines, join_lines_exec, lemma_join_contains, lemma_join_lines_from,
    lemma_join_push,
    lemma_lines_from_bound_nonempty, lemma_lines_from_clean,
    lemma_lines_join_newline,
};
use crate::order::{find_slot, lemma_insert_sorted, sorted_strict, str_lt};
use crate::text::{
    contains_char, decimal, decimal_string, eq_chars, parse_u64, parse_unsigned, split_ws,
    split_ws_exec,
};
use crate::benchmark::{fix_benchmark, fix_benchmark_of, BenchmarkKind};
use crate::types::{findings, CheckResult, Finding, Status};
use crate::text::{
    contains, contains_exec, copy_chars, ends_with, ends_with_exec, first_index, first_index_exec,
    from_chars, is_ws, lemma_first_index, lemma_trim_end_keeps_prefix, lemma_trim_end_split,
    lemma_trim_end_last, lemma_trim_start_all_ws, lemma_trim_start_concat, lemma_trim_start_skip, lines, lines_exec, seqs_of, starts_with,
    starts_with_exec, to_chars, trim, trim_end, trim_slice, trim_start, trim_start_slice,
};

verus! {

// ---------------------------------------------------------------------
// Model of writing fix lines into a configuration file
// ---------------------------------------------------------------------

/// A MySQL or MariaDB option file: a `.cnf` whose path names mysql or mariadb.
pub open spec fn is_mysql_cnf(file: Seq<char>) -> bool {
    ends_with(file, ".cnf"@) && (contains(file, "mysql"@) || contains(file, "mariadb"@))
}

/// The text with a line feed added unless it is empty or already ends with one.
pub open spec fn terminated(c: Seq<char>) -> Seq<char> {
    if c.len() == 0 || c.last() == '\n' {
        c
    } else {
        c.push('\n')
    }
}

/// The text with a line feed added unless it already ends with one.
pub open spec fn newline_ended(c: Seq<char>) -> Seq<char> {
    if c.len() > 0 && c.last() == '\n' {
        c
    } else {
        c.push('\n')
    }
}

/// The text with a section header line appended when the header occurs
/// nowhere in it.
pub open spec fn with_section(content: Seq<char>, header: Seq<char>) -> Seq<char> {
    if contains(content, header) {
        content
    } else {
        terminated(content) + header + seq!['\n']
    }
}

/// A MySQL option file gets a `[mysqld]` section header, without which the
/// server ignores the settings; other files are left as they are.
pub open spec fn with_mysqld_header(file: Seq<char>, content: Seq<char>) -> Seq<char> {
    if is_mysql_cnf(file) {
        with_section(content, "[mysqld]"@)
    } else {
        content
    }
}

/// The key a fix line sets: the text before its first `=`, trimmed; none
/// when the line holds no `=`.
pub open spec fn fix_key(line: Seq<char>) -> Option<Seq<char>> {
    match first_index(line, '=') {
        Some(i) => Some(trim(line.take(i))),
        None => None,
    }
}

/// A configuration line that sets `key` (`key=…`, `key = …`), or a
/// commented-out setting of it (`;key…`, `; key…`).
pub open spec fn sets_key(l: Seq<char>, key: Seq<char>) -> bool {
    let t = trim(l);
    ||| starts_with(t, key) && starts_with(trim_start(t.skip(key.len() as int)), seq!['='])
    ||| starts_with(t, seq![';'] + key)
    ||| starts_with(t, seq![';', ' '] + key)
}

pub open spec fn has_setting(ls: Seq<Seq<char>>, key: Seq<char>) -> bool {
    exists|i: int| 0 <= i < ls.len() && #[trigger] sets_key(ls[i], key)
}

/// Every line setting `key` replaced by `line`.
pub open spec fn replace_setting(ls: Seq<Seq<char>>, key: Seq<char>, line: Seq<char>) -> Seq<
    Seq<char>,
> {
    ls.map_values(|l: Seq<char>| if sets_key(l, key) { line } else { l })
}

/// One fix line written into a configuration text: a `key=value` line
/// replaces every line that sets (or comments out) the key, and the lines
/// are written back, each ended by `\n`; when no line sets the key it is
/// appended on a line of its own. A line without `=` changes nothing.
pub open spec fn apply_fix_line(content: Seq<char>, line: Seq<char>) -> Seq<char> {
    match fix_key(line) {
        Some(key) => if has_setting(lines(content), key) {
            join_lines(replace_setting(lines(content), key, line)) + seq!['\n']
        } else {
            newline_ended(content) + line + seq!['\n']
        },
        None => content,
    }
}

/// Fix lines written one after the other.
pub open spec fn apply_fix_lines(content: Seq<char>, ls: Seq<Seq<char>>) -> Seq<char>
    decreases ls.len(),
{
    if ls.len() == 0 {
        content
    } else {
        apply_fix_line(apply_fix_lines(content, ls.drop_last()), ls.last())
    }
}

/// The lines of all fix contents, in order.
pub open spec fn fix_lines(fixes: Seq<Seq<char>>) -> Seq<Seq<char>>
    decreases fixes.len(),
{
    if fixes.len() == 0 {
        seq![]
    } else {
        fix_lines(fixes.drop_last()) + lines(fixes.last())
    }
}

/// Number of fix lines that set a key (hold a `=`).
pub open spec fn settings_count(ls: Seq<Seq<char>>) -> nat
    decreases ls.len(),
{
    if ls.len() == 0 {
        0
    } else {
        settings_count(ls.drop_last()) + if fix_key(ls.last()) is Some {
            1nat
        } else {
            0nat
        }
    }
}

/// The text of a configuration file after its fixes are written.
pub open spec fn fixed_content(file: Seq<char>, content: Seq<char>, fixes: Seq<Seq<char>>) -> Seq<
    char,
> {
    apply_fix_lines(with_mysqld_header(file, content), fix_lines(fixes))
}

pub open spec fn strs_of(v: Seq<String>) -> Seq<Seq<char>> {
    v.map_values(|s: String| s@)
}

// ---------------------------------------------------------------------
// Executable counterparts
// ---------------------------------------------------------------------

fn append_chars(r: &mut Vec<char>, s: &[char])
    ensures
        final(r)@ == old(r)@ + s@,
{
    let ghost r0 = r@;
    let mut i: usize = 0;
    while i < s.len()
        invariant
            i <= s@.len(),
            r@ == r0 + s@.take(i as int),
        decreases s@.len() - i,
    {
        r.push(s[i]);
        i += 1;
        assert(r@ =~= r0 + s@.take(i as int));
    }
    assert(s@.take(s@.len() as int) =~= s@);
}

pub fn is_mysql_cnf_exec(file: &str) -> (r: bool)
    ensures
        r == is_mysql_cnf(file@),
{
    let f = to_chars(file);
    let cnf = to_chars(".cnf");
    let my = to_chars("mysql");
    let maria = to_chars("mariadb");
    ends_with_exec(f.as_slice(), cnf.as_slice()) && (contains_exec(f.as_slice(), my.as_slice())
        || contains_exec(f.as_slice(), maria.as_slice()))
}

fn add_section(c: &mut Vec<char>, header: &[char])
    ensures
        final(c)@ == with_section(old(c)@, header@),
{
    if !contains_exec(c.as_slice(), header) {
        if c.len() > 0 && c[c.len() - 1] != '\n' {
            c.push('\n');
        }
        append_chars(c, header);
        c.push('\n');
    }
}

fn sets_key_exec(l: &[char], key: &[char]) -> (r: bool)
    ensures
        r == sets_key(l@, key@),
{
    let t = trim_slice(l);
    if starts_with_exec(t, key) {
        let rest = trim_start_slice(&t[key.len()..t.len()]);
        assert(t@.subrange(key@.len() as int, t@.len() as int) =~= t@.skip(key@.len() as int));
        if rest.len() > 0 && rest[0] == '=' {
            assert(rest@.subrange(0, 1) =~= seq!['=']);
            return true;
        }
        assert(!starts_with(rest@, seq!['='])) by {
            if rest@.len() >= 1 {
                assert(rest@.subrange(0, 1)[0] == rest@[0]);
            }
        }
    }
    let mut semi: Vec<char> = Vec::new();
    semi.push(';');
    append_chars(&mut semi, key);
    assert(semi@ =~= seq![';'] + key@);
    if starts_with_exec(t, semi.as_slice()) {
        return true;
    }
    let mut semi_sp: Vec<char> = Vec::new();
    semi_sp.push(';');
    semi_sp.push(' ');
    append_chars(&mut semi_sp, key);
    assert(semi_sp@ =~= seq![';', ' '] + key@);
    starts_with_exec(t, semi_sp.as_slice())
}

fn apply_fix_line_exec(content: &Vec<char>, line: &[char]) -> (r: Vec<char>)
    ensures
        r@ == apply_fix_line(content@, line@),
{
    match first_index_exec(line, '=') {
        None => copy_chars(content.as_slice()),
        Some(i) => {
            proof {
                lemma_first_index(line@, '=');
            }
            let key = trim_slice(&line[0..i]);
            assert(line@.subrange(0, i as int) =~= line@.take(i as int));
            let ls = lines_exec(content.as_slice());
            let ghost lv = seqs_of(ls@);
            let mut out: Vec<Vec<char>> = Vec::new();
            let mut found = false;
            let mut k: usize = 0;
            while k < ls.len()
                invariant
                    lv == seqs_of(ls@),
                    k <= ls@.len(),
                    seqs_of(out@) == replace_setting(lv.take(k as int), key@, line@),
                    found <==> exists|j: int| 0 <= j < k && #[trigger] sets_key(lv[j], key@),
                decreases ls@.len() - k,
            {
                let ghost before = seqs_of(out@);
                let hit = sets_key_exec(ls[k].as_slice(), key);
                if hit {
                    out.push(copy_chars(line));
                    found = true;
                } else {
                    out.push(copy_chars(ls[k].as_slice()));
                }
                proof {
                    assert(lv[k as int] == ls@[k as int]@);
                    assert(lv.take(k + 1) =~= lv.take(k as int).push(lv[k as int]));
                    assert(seqs_of(out@) =~= before.push(
                        if sets_key(lv[k as int], key@) {
                            line@
                        } else {
                            lv[k as int]
                        },
                    ));
                    assert(seqs_of(out@) =~= replace_setting(lv.take(k + 1), key@, line@));
                }
                k += 1;
            }
            assert(lv.take(ls@.len() as int) =~= lv);
            if found {
                let mut r = join_lines_exec(&out);
                assert(out@.map_values(|x: Vec<char>| x@) =~= seqs_of(out@));
                r.push('\n');
                r
            } else {
                let mut r = copy_chars(content.as_slice());
                if !(r.len() > 0 && r[r.len() - 1] == '\n') {
                    r.push('\n');
                }
                append_chars(&mut r, line);
                r.push('\n');
                r
            }
        },
    }
}

/// The lines of all fix contents, in order.
fn all_fix_lines(fixes: &[String]) -> (all: Vec<Vec<char>>)
    ensures
        seqs_of(all@) == fix_lines(strs_of(fixes@)),
{
    let ghost fv = strs_of(fixes@);
    // All fix lines, in order.
    let mut all: Vec<Vec<char>> = Vec::new();
    let mut i: usize = 0;
    assert(fv.take(0) =~= Seq::<Seq<char>>::empty());
    assert(seqs_of(all@) =~= fix_lines(fv.take(0)));
    while i < fixes.len()
        invariant
            fv == strs_of(fixes@),
            i <= fixes@.len(),
            seqs_of(all@) == fix_lines(fv.take(i as int)),
        decreases fixes@.len() - i,
    {
        let fc = to_chars(fixes[i].as_str());
        let ls = lines_exec(fc.as_slice());
        let ghost base = seqs_of(all@);
        let mut j: usize = 0;
        while j < ls.len()
            invariant
                j <= ls@.len(),
                seqs_of(all@) == base + seqs_of(ls@).take(j as int),
            decreases ls@.len() - j,
        {
            let ghost before = seqs_of(all@);
            let cp = copy_chars(ls[j].as_slice());
            all.push(cp);
            assert(seqs_of(all@) =~= before.push(ls@[j as int]@));
            assert(seqs_of(ls@).take(j + 1) =~= seqs_of(ls@).take(j as int).push(ls@[j as int]@));
            assert(seqs_of(all@) =~= base + seqs_of(ls@).take(j + 1));
            j += 1;
        }
        proof {
            assert(seqs_of(ls@).take(ls@.len() as int) =~= seqs_of(ls@));
            assert(fv.take(i + 1).drop_last() =~= fv.take(i as int));
            assert(fv[i as int] == fixes@[i as int]@);
            assert(fv.take(i + 1).last() == fv[i as int]);
        }
        i += 1;
    }
    assert(fv.take(fixes@.len() as int) =~= fv);
    all
}

/// Writes fix contents into the text of a configuration file, as the
/// file named `file` would hold it afterwards, and counts the settings
/// written. Each fix content may hold several lines; each `key=value`
/// line replaces the lines that set the key (or comment it out) or is
/// appended. A MySQL option file first gets a `[mysqld]` header if it has
/// none.
pub fn apply_fixes(file: &str, content: &str, fixes: &[String]) -> (r: (String, usize))
    ensures
        r.0@ == fixed_content(file@, content@, strs_of(fixes@)),
        r.1 == settings_count(fix_lines(strs_of(fixes@))),
{
    let all = all_fix_lines(fixes);
    let ghost fl = seqs_of(all@);
    let mut c = to_chars(content);
    if is_mysql_cnf_exec(file) {
        let header = to_chars("[mysqld]");
        add_section(&mut c, header.as_slice());
    }
    let ghost h = c@;
    let mut count: usize = 0;
    let mut k: usize = 0;
    assert(fl.take(0) =~= Seq::<Seq<char>>::empty());
    while k < all.len()
        invariant
            fl == seqs_of(all@),
            h == with_mysqld_header(file@, content@),
            k <= all@.len(),
            count <= k,
            c@ == apply_fix_lines(h, fl.take(k as int)),
            count == settings_count(fl.take(k as int)),
        decreases all@.len() - k,
    {
        let line = all[k].as_slice();
        proof {
            assert(fl.take(k + 1).drop_last() =~= fl.take(k as int));
            assert(fl.take(k + 1).last() == line@);
        }
        if first_index_exec(line, '=').is_some() {
            count += 1;
        }
        c = apply_fix_line_exec(&c, line);
        k += 1;
    }
    assert(fl.take(all@.len() as int) =~= fl);
    (from_chars(c.as_slice()), count)
}

// ---------------------------------------------------------------------
// Environment lines of a systemd service override
// ---------------------------------------------------------------------

/// For an environment line `Environment=KEY=value`, the prefix
/// `Environment=KEY=` that marks the lines setting the same variable; none
/// for a line of another shape.
pub open spec fn env_search(e: Seq<char>) -> Option<Seq<char>> {
    let prefix = "Environment="@;
    if starts_with(e, prefix) {
        let kv = e.skip(prefix.len() as int);
        match first_index(kv, '=') {
            Some(i) => Some(prefix + kv.take(i) + seq!['=']),
            None => None,
        }
    } else {
        None
    }
}

pub open spec fn sets_env(l: Seq<char>, search: Seq<char>) -> bool {
    starts_with(trim(l), search)
}

pub open spec fn has_env(ls: Seq<Seq<char>>, search: Seq<char>) -> bool {
    exists|i: int| 0 <= i < ls.len() && #[trigger] sets_env(ls[i], search)
}

pub open spec fn replace_env(ls: Seq<Seq<char>>, search: Seq<char>, e: Seq<char>) -> Seq<Seq<char>> {
    ls.map_values(|l: Seq<char>| if sets_env(l, search) { e } else { l })
}

/// One environment line written into an override: it replaces every line
/// that sets the same variable (and the text then ends with a line feed),
/// or is appended on a line of its own. A line of another shape changes
/// nothing.
pub open spec fn set_env_line(content: Seq<char>, e: Seq<char>) -> Seq<char> {
    match env_search(e) {
        Some(search) => if has_env(lines(content), search) {
            newline_ended(join_lines(replace_env(lines(content), search, e)))
        } else {
            newline_ended(content) + e + seq!['\n']
        },
        None => content,
    }
}

pub open spec fn set_env_lines(content: Seq<char>, es: Seq<Seq<char>>) -> Seq<char>
    decreases es.len(),
{
    if es.len() == 0 {
        content
    } else {
        set_env_line(set_env_lines(content, es.drop_last()), es.last())
    }
}

/// The text of a systemd override after the environment lines are written:
/// a `[Service]` section header first, if it has none.
pub open spec fn env_override_content(content: Seq<char>, es: Seq<Seq<char>>) -> Seq<char> {
    set_env_lines(with_section(content, "[Service]"@), es)
}

fn env_search_exec(e: &[char]) -> (r: Option<Vec<char>>)
    ensures
        match r {
            Some(v) => env_search(e@) == Some(v@),
            None => env_search(e@) is None,
        },
{
    let prefix = to_chars("Environment=");
    if !starts_with_exec(e, prefix.as_slice()) {
        return None;
    }
    let kv = &e[prefix.len()..e.len()];
    assert(kv@ =~= e@.skip(prefix@.len() as int));
    match first_index_exec(kv, '=') {
        None => None,
        Some(i) => {
            proof {
                lemma_first_index(kv@, '=');
            }
            let mut v = copy_chars(prefix.as_slice());
            append_chars(&mut v, &kv[0..i]);
            v.push('=');
            assert(kv@.subrange(0, i as int) =~= kv@.take(i as int));
            assert(v@ =~= prefix@ + kv@.take(i as int) + seq!['=']);
            Some(v)
        },
    }
}

fn set_env_line_exec(content: &Vec<char>, e: &[char]) -> (r: Vec<char>)
    ensures
        r@ == set_env_line(content@, e@),
{
    match env_search_exec(e) {
        None => copy_chars(content.as_slice()),
        Some(search) => {
            let ls = lines_exec(content.as_slice());
            let ghost lv = seqs_of(ls@);
            let mut out: Vec<Vec<char>> = Vec::new();
            let mut found = false;
            let mut k: usize = 0;
            while k < ls.len()
                invariant
                    lv == seqs_of(ls@),
                    k <= ls@.len(),
                    seqs_of(out@) == replace_env(lv.take(k as int), search@, e@),
                    found <==> exists|j: int| 0 <= j < k && #[trigger] sets_env(lv[j], search@),
                decreases ls@.len() - k,
            {
                let ghost before = seqs_of(out@);
                let hit = starts_with_exec(trim_slice(ls[k].as_slice()), search.as_slice());
                if hit {
                    out.push(copy_chars(e));
                    found = true;
                } else {
                    out.push(copy_chars(ls[k].as_slice()));
                }
                proof {
                    assert(lv[k as int] == ls@[k as int]@);
                    assert(lv.take(k + 1) =~= lv.take(k as int).push(lv[k as int]));
                    assert(seqs_of(out@) =~= before.push(
                        if sets_env(lv[k as int], search@) {
                            e@
                        } else {
                            lv[k as int]
                        },
                    ));
                    assert(seqs_of(out@) =~= replace_env(lv.take(k + 1), search@, e@));
                }
                k += 1;
            }
            assert(lv.take(ls@.len() as int) =~= lv);
            if found {
                let mut r = join_lines_exec(&out);
                assert(out@.map_values(|x: Vec<char>| x@) =~= seqs_of(out@));
                if !(r.len() > 0 && r[r.len() - 1] == '\n') {
                    r.push('\n');
                }
                r
            } else {
                let mut r = copy_chars(content.as_slice());
                if !(r.len() > 0 && r[r.len() - 1] == '\n') {
                    r.push('\n');
                }
                append_chars(&mut r, e);
                r.push('\n');
                r
            }
        },
    }
}

/// Writes `Environment=KEY=value` lines into the text of a systemd service
/// override, under a `[Service]` header added if the text has none.
pub fn apply_env_fixes(content: &str, env_lines: &[String]) -> (r: String)
    ensures
        r@ == env_override_content(content@, strs_of(env_lines@)),
{
    let ghost ev = strs_of(env_lines@);
    let mut c = to_chars(content);
    let header = to_chars("[Service]");
    add_section(&mut c, header.as_slice());
    let ghost h = c@;
    let mut k: usize = 0;
    assert(ev.take(0) =~= Seq::<Seq<char>>::empty());
    while k < env_lines.len()
        invariant
            ev == strs_of(env_lines@),
            h == with_section(content@, "[Service]"@),
            k <= env_lines@.len(),
            c@ == set_env_lines(h, ev.take(k as int)),
        decreases env_lines@.len() - k,
    {
        let e = to_chars(env_lines[k].as_str());
        proof {
            assert(ev.take(k + 1).drop_last() =~= ev.take(k as int));
            assert(ev.take(k + 1).last() == env_lines@[k as int]@);
        }
        c = set_env_line_exec(&c, e.as_slice());
        k += 1;
    }
    assert(ev.take(env_lines@.len() as int) =~= ev);
    from_chars(c.as_slice())
}

// ---------------------------------------------------------------------
// Sorting the fixes of a run
// ---------------------------------------------------------------------

/// How a fix gets applied, by the file it names.
#[derive(Debug, Clone, Copy, PartialEq, Eq, Structural)]
pub enum FixTarget {
    /// A configuration file, edited in place (an absolute path).
    File,
    /// A Redis setting, applied with `redis-cli CONFIG SET`.
    Redis,
    /// An environment line of a systemd service override.
    Systemd,
    /// Something to do by hand.
    Manual,
}

pub open spec fn fix_target(file: Seq<char>) -> FixTarget {
    if file == "redis-cli"@ {
        FixTarget::Redis
    } else if contains(file, "systemd"@) && ends_with(file, "override.conf"@) {
        FixTarget::Systemd
    } else if starts_with(file, seq!['/']) && !contains_char(file, '\u{2192}') {
        FixTarget::File
    } else {
        FixTarget::Manual
    }
}

/// The target of a fix that names `file`.
pub fn fix_target_of(file: &str) -> (r: FixTarget)
    ensures
        r == fix_target(file@),
{
    let f = to_chars(file);
    let redis = to_chars("redis-cli");
    let systemd = to_chars("systemd");
    let over = to_chars("override.conf");
    if crate::text::eq_chars(f.as_slice(), redis.as_slice()) {
        FixTarget::Redis
    } else if contains_exec(f.as_slice(), systemd.as_slice()) && ends_with_exec(
        f.as_slice(),
        over.as_slice(),
    ) {
        FixTarget::Systemd
    } else if f.len() > 0 && f[0] == '/' && !crate::text::contains_char_exec(
        f.as_slice(),
        '\u{2192}',
    ) {
        assert(f@.subrange(0, 1) =~= seq!['/']);
        FixTarget::File
    } else {
        assert(!starts_with(f@, seq!['/']) || contains_char(f@, '\u{2192}')) by {
            if f@.len() >= 1 && f@.subrange(0, 1) == seq!['/'] {
                assert(f@.subrange(0, 1)[0] == f@[0]);
            }
        }
        FixTarget::Manual
    }
}

/// A finding offered for fixing: a warning or failure that carries a fix.
pub open spec fn fixable(f: Finding) -> bool {
    f.fix is Some && (f.status == Status::Warn || f.status == Status::Fail)
}

pub open spec fn fix_file(f: Finding) -> Seq<char> {
    (f.fix->0).file
}

/// Which findings a grouping takes: with a target, the fixable findings
/// whose fix gets applied that way; without one, every finding with a fix.
pub open spec fn in_scope(f: Finding, scope: Option<FixTarget>) -> bool {
    match scope {
        Some(t) => fixable(f) && fix_target(fix_file(f)) == t,
        None => f.fix is Some,
    }
}

/// A file whose fixes a grouping can hold.
pub open spec fn file_in_scope(file: Seq<char>, scope: Option<FixTarget>) -> bool {
    match scope {
        Some(t) => fix_target(file) == t,
        None => true,
    }
}

/// Positions, in order, of the findings in scope whose fix names `file`.
pub open spec fn indices_in_group(rs: Seq<Finding>, scope: Option<FixTarget>, file: Seq<char>) -> Seq<int>
    decreases rs.len(),
{
    if rs.len() == 0 {
        seq![]
    } else {
        indices_in_group(rs.drop_last(), scope, file) + if in_scope(rs.last(), scope) && fix_file(
            rs.last(),
        ) == file {
            seq![rs.len() - 1]
        } else {
            seq![]
        }
    }
}

/// Positions, in order, of the fixable findings with the given target.
pub open spec fn indices_for_target(rs: Seq<Finding>, t: FixTarget) -> Seq<int>
    decreases rs.len(),
{
    if rs.len() == 0 {
        seq![]
    } else {
        indices_for_target(rs.drop_last(), t) + if fixable(rs.last()) && fix_target(
            fix_file(rs.last()),
        ) == t {
            seq![rs.len() - 1]
        } else {
            seq![]
        }
    }
}

/// The fixes for one file: the file, and the positions of its findings.
#[derive(Debug, Clone)]
pub struct FixGroup {
    pub file: String,
    pub entries: Vec<usize>,
}

impl View for FixGroup {
    type V = (Seq<char>, Seq<int>);

    open spec fn view(&self) -> (Seq<char>, Seq<int>) {
        (self.file@, self.entries@.map_values(|x: usize| x as int))
    }
}

pub open spec fn groups_of(gs: Seq<FixGroup>) -> Seq<(Seq<char>, Seq<int>)> {
    gs.map_values(|g: FixGroup| g@)
}

/// `gs` holds the findings in scope, one group per file, the files in
/// sorted order, each group listing the positions of its findings in order;
/// every group has at least one finding, so each file is named by a fix.
pub open spec fn grouped_by_file(rs: Seq<Finding>, scope: Option<FixTarget>, gs: Seq<(Seq<char>, Seq<int>)>) -> bool {
    &&& sorted_strict(gs.map_values(|g: (Seq<char>, Seq<int>)| g.0))
    &&& forall|k: int|
        0 <= k < gs.len() ==> file_in_scope((#[trigger] gs[k]).0, scope) && gs[k].1
            == indices_in_group(rs, scope, gs[k].0) && gs[k].1.len() > 0
    &&& forall|i: int|
        0 <= i < rs.len() && in_scope(#[trigger] rs[i], scope) ==> exists|k: int|
            0 <= k < gs.len() && (#[trigger] gs[k]).0 == fix_file(rs[i])
}

/// The fixes of a run sorted by how they get applied.
#[derive(Debug, Clone)]
pub struct FixPlan {
    /// Configuration files, each with its fixes.
    pub files: Vec<FixGroup>,
    /// Redis settings.
    pub redis: Vec<usize>,
    /// systemd overrides, each with its environment lines.
    pub systemd: Vec<FixGroup>,
    /// Manual actions, by the file (or place) they name.
    pub manual: Vec<FixGroup>,
}

/// Groups in the making: the same sorted files as character vectors, for
/// the search.
pub(crate) struct Grouping {
    pub(crate) keys: Vec<Vec<char>>,
    pub(crate) groups: Vec<FixGroup>,
}

impl Grouping {
    pub(crate) open spec fn wf(&self) -> bool {
        &&& self.keys@.len() == self.groups@.len()
        &&& forall|k: int| 0 <= k < self.keys@.len() ==> (#[trigger] self.keys@[k])@ == self.groups@[k].file@
    }

    pub(crate) open spec fn view_groups(&self) -> Seq<(Seq<char>, Seq<int>)> {
        groups_of(self.groups@)
    }
}

proof fn lemma_indices_in_group_none(rs: Seq<Finding>, scope: Option<FixTarget>, file: Seq<char>)
    requires
        forall|i: int|
            0 <= i < rs.len() ==> !(in_scope(#[trigger] rs[i], scope) && fix_file(rs[i]) == file),
    ensures
        indices_in_group(rs, scope, file) == Seq::<int>::empty(),
    decreases rs.len(),
{
    if rs.len() > 0 {
        assert forall|i: int| 0 <= i < rs.drop_last().len() implies !(in_scope(
            #[trigger] rs.drop_last()[i],
            scope,
        ) && fix_file(rs.drop_last()[i]) == file) by {
            assert(rs.drop_last()[i] == rs[i]);
        }
        lemma_indices_in_group_none(rs.drop_last(), scope, file);
        assert(rs[rs.len() - 1] == rs.last());
    }
}

/// The positions a group lists are those of findings in scope whose fix
/// names the group's file.
pub proof fn lemma_indices_in_group_members(rs: Seq<Finding>, scope: Option<FixTarget>, file: Seq<char>, j: int)
    requires
        0 <= j < indices_in_group(rs, scope, file).len(),
    ensures
        0 <= indices_in_group(rs, scope, file)[j] < rs.len(),
        in_scope(rs[indices_in_group(rs, scope, file)[j]], scope),
        fix_file(rs[indices_in_group(rs, scope, file)[j]]) == file,
    decreases rs.len(),
{
    let prev = indices_in_group(rs.drop_last(), scope, file);
    if j < prev.len() {
        lemma_indices_in_group_members(rs.drop_last(), scope, file, j);
        assert(indices_in_group(rs, scope, file)[j] == prev[j]);
        assert(rs.drop_last()[prev[j]] == rs[prev[j]]);
    } else {
        assert(indices_in_group(rs, scope, file)[j] == rs.len() - 1);
    }
}

proof fn lemma_take_step(rs: Seq<Finding>, i: int)
    requires
        0 <= i < rs.len(),
    ensures
        rs.take(i + 1).drop_last() == rs.take(i),
        rs.take(i + 1).last() == rs[i],
        rs.take(i + 1).len() == i + 1,
{
    assert(rs.take(i + 1).drop_last() =~= rs.take(i));
}

/// Adds finding `i`, whose fix names `file`, to the groups.
pub(crate) fn add_to_group(
    g: &mut Grouping,
    rs: Ghost<Seq<Finding>>,
    scope: Ghost<Option<FixTarget>>,
    i: usize,
    file: &String,
)
    requires
        old(g).wf(),
        0 <= i < rs@.len(),
        in_scope(rs@[i as int], scope@),
        fix_file(rs@[i as int]) == file@,
        grouped_by_file(rs@.take(i as int), scope@, old(g).view_groups()),
    ensures
        final(g).wf(),
        grouped_by_file(rs@.take(i + 1), scope@, final(g).view_groups()),
{
    let ghost t = scope@;
    let ghost r0 = rs@.take(i as int);
    let ghost r1 = rs@.take(i + 1);
    proof {
        lemma_take_step(rs@, i as int);
    }
    let ghost gs0 = g.view_groups();
    let ghost names0 = gs0.map_values(|x: (Seq<char>, Seq<int>)| x.0);
    assert(g.keys@.map_values(|k: Vec<char>| k@) =~= names0) by {
        assert forall|k: int| 0 <= k < names0.len() implies g.keys@.map_values(
            |k: Vec<char>| k@,
        )[k] == names0[k] by {
            assert(g.keys@[k]@ == g.groups@[k].file@);
        }
    }
    let fc = to_chars(file.as_str());
    let (pos, present) = find_slot(&g.keys, fc.as_slice());
    if present {
        let ghost groups0 = g.groups@;
        let mut grp = g.groups.remove(pos);
        let ghost before = grp@.1;
        assert(grp == groups0[pos as int]);
        grp.entries.push(i);
        assert(grp@.1 =~= before.push(i as int));
        assert(grp.file@ == file@) by {
            assert(g.keys@[pos as int]@ == groups0[pos as int].file@);
            assert(names0[pos as int] == g.keys@.map_values(|k: Vec<char>| k@)[pos as int]);
        }
        g.groups.insert(pos, grp);
        assert(g.groups@ =~= groups0.update(pos as int, grp));
        proof {
            let gs1 = g.view_groups();
            assert(gs1 =~= gs0.update(pos as int, (file@, before.push(i as int))));
            assert(gs1.map_values(|x: (Seq<char>, Seq<int>)| x.0) =~= names0);
            assert forall|k: int| 0 <= k < gs1.len() implies file_in_scope((#[trigger] gs1[k]).0, t)
                && gs1[k].1 == indices_in_group(r1, t, gs1[k].0) && gs1[k].1.len() > 0 by {
                assert(gs0[k].1 == indices_in_group(r0, t, gs0[k].0));
                if k == pos {
                } else {
                    assert(gs1[k] == gs0[k]);
                    assert(names0[k] != names0[pos as int]) by {
                        crate::order::lemma_str_lt_irreflexive(names0[k]);
                    }
                }
            }
            assert forall|j: int| 0 <= j < r1.len() && in_scope(#[trigger] r1[j], t) implies exists|k: int| 0 <= k < gs1.len() && (#[trigger] gs1[k]).0 == fix_file(
                r1[j],
            ) by {
                if j < i {
                    assert(r1[j] == r0[j]);
                    let k = choose|k: int| 0 <= k < gs0.len() && (#[trigger] gs0[k]).0 == fix_file(
                        r0[j],
                    );
                    assert(gs1[k].0 == gs0[k].0);
                } else {
                    assert(gs1[pos as int].0 == file@);
                }
            }
        }
        assert(g.wf()) by {
            assert forall|k: int| 0 <= k < g.keys@.len() implies (#[trigger] g.keys@[k])@
                == g.groups@[k].file@ by {
                if k != pos {
                    assert(g.groups@[k] == old(g).groups@[k]);
                }
            }
        }
    } else {
        proof {
            // No earlier fixable finding names this file.
            assert forall|j: int| 0 <= j < r0.len() implies !(in_scope(#[trigger] r0[j], t)
                && fix_file(r0[j]) == file@) by {
                if in_scope(r0[j], t) && fix_file(r0[j]) == file@ {
                    let k = choose|k: int| 0 <= k < gs0.len() && (#[trigger] gs0[k]).0
                        == fix_file(r0[j]);
                    assert(names0[k] == file@);
                    if k == pos {
                    } else if k < pos {
                        crate::order::lemma_str_lt_irreflexive(file@);
                    } else {
                        crate::order::lemma_str_lt_irreflexive(file@);
                    }
                }
            }
            lemma_indices_in_group_none(r0, t, file@);
            lemma_insert_sorted(names0, file@, pos as int);
        }
        let mut entries: Vec<usize> = Vec::new();
        entries.push(i);
        let grp = FixGroup { file: file.clone(), entries };
        assert(grp@ == (file@, seq![i as int])) by {
            assert(grp@.1 =~= seq![i as int]);
        }
        g.keys.insert(pos, fc);
        g.groups.insert(pos, grp);
        proof {
            let gs1 = g.view_groups();
            assert(gs1 =~= gs0.insert(pos as int, (file@, seq![i as int])));
            assert(gs1.map_values(|x: (Seq<char>, Seq<int>)| x.0) =~= names0.insert(
                pos as int,
                file@,
            ));
            assert(indices_in_group(r1, t, file@) =~= seq![i as int]);
            assert forall|k: int| 0 <= k < gs1.len() implies file_in_scope((#[trigger] gs1[k]).0, t)
                && gs1[k].1 == indices_in_group(r1, t, gs1[k].0) && gs1[k].1.len() > 0 by {
                if k < pos {
                    assert(gs1[k] == gs0[k]);
                    assert(str_lt(names0[k], file@));
                    crate::order::lemma_str_lt_irreflexive(file@);
                } else if k > pos {
                    assert(gs1[k] == gs0[k - 1]);
                    assert(str_lt(file@, names0[k - 1]));
                    crate::order::lemma_str_lt_irreflexive(file@);
                }
            }
            assert forall|j: int| 0 <= j < r1.len() && in_scope(#[trigger] r1[j], t) implies exists|k: int| 0 <= k < gs1.len() && (#[trigger] gs1[k]).0 == fix_file(
                r1[j],
            ) by {
                if j < i {
                    assert(r1[j] == r0[j]);
                    let k = choose|k: int| 0 <= k < gs0.len() && (#[trigger] gs0[k]).0 == fix_file(
                        r0[j],
                    );
                    if k < pos {
                        assert(gs1[k] == gs0[k]);
                    } else {
                        assert(gs1[k + 1] == gs0[k]);
                    }
                } else {
                    assert(gs1[pos as int].0 == file@);
                }
            }
        }
        assert(g.wf()) by {
            assert forall|k: int| 0 <= k < g.keys@.len() implies (#[trigger] g.keys@[k])@
                == g.groups@[k].file@ by {
                if k < pos {
                    assert(g.keys@[k] == old(g).keys@[k]);
                    assert(g.groups@[k] == old(g).groups@[k]);
                } else if k > pos {
                    assert(g.keys@[k] == old(g).keys@[k - 1]);
                    assert(g.groups@[k] == old(g).groups@[k - 1]);
                }
            }
        }
    }
}

/// A grouping stays right when a finding of another target is added.
pub(crate) proof fn lemma_grouped_skip(rs: Seq<Finding>, i: int, t: Option<FixTarget>, gs: Seq<(Seq<char>, Seq<int>)>)
    requires
        0 <= i < rs.len(),
        !in_scope(rs[i], t),
        grouped_by_file(rs.take(i), t, gs),
    ensures
        grouped_by_file(rs.take(i + 1), t, gs),
{
    lemma_take_step(rs, i);
    let r0 = rs.take(i);
    let r1 = rs.take(i + 1);
    assert forall|k: int| 0 <= k < gs.len() implies file_in_scope((#[trigger] gs[k]).0, t)
        && gs[k].1 == indices_in_group(r1, t, gs[k].0) && gs[k].1.len() > 0 by {
        assert(indices_in_group(r1, t, gs[k].0) =~= indices_in_group(r0, t, gs[k].0));
    }
    assert forall|j: int| 0 <= j < r1.len() && in_scope(#[trigger] r1[j], t) implies exists|k: int| 0 <= k < gs.len() && (#[trigger] gs[k]).0 == fix_file(r1[j]) by {
        if j < i {
            assert(r1[j] == r0[j]);
        }
    }
}

/// Sorts the fixes of a run by how they get applied: configuration files
/// and systemd overrides by file (in sorted order, each with its findings
/// in order), Redis settings in order, and manual actions by the file or
/// place they name. Only warnings and failures that carry a fix take part.
pub fn plan_fixes(results: &[CheckResult]) -> (p: FixPlan)
    ensures
        grouped_by_file(findings(results@), Some(FixTarget::File), groups_of(p.files@)),
        p.redis@.map_values(|x: usize| x as int) == indices_for_target(
            findings(results@),
            FixTarget::Redis,
        ),
        grouped_by_file(findings(results@), Some(FixTarget::Systemd), groups_of(p.systemd@)),
        grouped_by_file(findings(results@), Some(FixTarget::Manual), groups_of(p.manual@)),
{
    let ghost rs = findings(results@);
    let mut files = Grouping { keys: Vec::new(), groups: Vec::new() };
    let mut systemd = Grouping { keys: Vec::new(), groups: Vec::new() };
    let mut manual = Grouping { keys: Vec::new(), groups: Vec::new() };
    let mut redis: Vec<usize> = Vec::new();
    let mut i: usize = 0;
    assert(rs.take(0) =~= Seq::<Finding>::empty());
    assert(groups_of(files.groups@) =~= Seq::<(Seq<char>, Seq<int>)>::empty());
    assert(groups_of(systemd.groups@) =~= Seq::<(Seq<char>, Seq<int>)>::empty());
    assert(groups_of(manual.groups@) =~= Seq::<(Seq<char>, Seq<int>)>::empty());
    assert(redis@.map_values(|x: usize| x as int) =~= Seq::<int>::empty());
    while i < results.len()
        invariant
            rs == findings(results@),
            i <= results@.len(),
            files.wf(),
            systemd.wf(),
            manual.wf(),
            grouped_by_file(rs.take(i as int), Some(FixTarget::File), files.view_groups()),
            grouped_by_file(rs.take(i as int), Some(FixTarget::Systemd), systemd.view_groups()),
            grouped_by_file(rs.take(i as int), Some(FixTarget::Manual), manual.view_groups()),
            redis@.map_values(|x: usize| x as int) == indices_for_target(
                rs.take(i as int),
                FixTarget::Redis,
            ),
        decreases results@.len() - i,
    {
        let r = &results[i];
        assert(rs[i as int] == r@);
        proof {
            lemma_take_step(rs, i as int);
        }
        let ghost red0 = redis@.map_values(|x: usize| x as int);
        let offered = r.status == Status::Warn || r.status == Status::Fail;
        match &r.fix {
            Some(f) if offered => {
                let t = fix_target_of(f.file.as_str());
                assert(fixable(rs[i as int]) && fix_file(rs[i as int]) == f.file@);
                match t {
                    FixTarget::Redis => {
                        redis.push(i);
                        assert(redis@.map_values(|x: usize| x as int) =~= red0.push(i as int));
                        proof {
                            lemma_grouped_skip(rs, i as int, Some(FixTarget::File), files.view_groups());
                            lemma_grouped_skip(rs, i as int, Some(FixTarget::Systemd), systemd.view_groups());
                            lemma_grouped_skip(rs, i as int, Some(FixTarget::Manual), manual.view_groups());
                        }
                    },
                    FixTarget::File => {
                        proof {
                            lemma_grouped_skip(rs, i as int, Some(FixTarget::Systemd), systemd.view_groups());
                            lemma_grouped_skip(rs, i as int, Some(FixTarget::Manual), manual.view_groups());
                        }
                        add_to_group(&mut files, Ghost(rs), Ghost(Some(FixTarget::File)), i, &f.file);
                        assert(indices_for_target(rs.take(i + 1), FixTarget::Redis) =~= red0);
                    },
                    FixTarget::Systemd => {
                        proof {
                            lemma_grouped_skip(rs, i as int, Some(FixTarget::File), files.view_groups());
                            lemma_grouped_skip(rs, i as int, Some(FixTarget::Manual), manual.view_groups());
                        }
                        add_to_group(&mut systemd, Ghost(rs), Ghost(Some(FixTarget::Systemd)), i, &f.file);
                        assert(indices_for_target(rs.take(i + 1), FixTarget::Redis) =~= red0);
                    },
                    FixTarget::Manual => {
                        proof {
                            lemma_grouped_skip(rs, i as int, Some(FixTarget::File), files.view_groups());
                            lemma_grouped_skip(rs, i as int, Some(FixTarget::Systemd), systemd.view_groups());
                        }
                        add_to_group(&mut manual, Ghost(rs), Ghost(Some(FixTarget::Manual)), i, &f.file);
                        assert(indices_for_target(rs.take(i + 1), FixTarget::Redis) =~= red0);
                    },
                }
            },
            _ => {
                assert(!fixable(rs[i as int]));
                proof {
                    lemma_grouped_skip(rs, i as int, Some(FixTarget::File), files.view_groups());
                    lemma_grouped_skip(rs, i as int, Some(FixTarget::Systemd), systemd.view_groups());
                    lemma_grouped_skip(rs, i as int, Some(FixTarget::Manual), manual.view_groups());
                }
                assert(indices_for_target(rs.take(i + 1), FixTarget::Redis) =~= red0);
            },
        }
        i += 1;
    }
    assert(rs.take(results@.len() as int) =~= rs);
    FixPlan { files: files.groups, redis, systemd: systemd.groups, manual: manual.groups }
}

/// The manual actions of a run in the order of the findings.
pub fn manual_fixes(results: &[CheckResult]) -> (r: Vec<usize>)
    ensures
        r@.map_values(|x: usize| x as int) == indices_for_target(
            findings(results@),
            FixTarget::Manual,
        ),
{
    let ghost rs = findings(results@);
    let mut out: Vec<usize> = Vec::new();
    let mut i: usize = 0;
    assert(rs.take(0) =~= Seq::<Finding>::empty());
    assert(out@.map_values(|x: usize| x as int) =~= Seq::<int>::empty());
    while i < results.len()
        invariant
            rs == findings(results@),
            i <= results@.len(),
            out@.map_values(|x: usize| x as int) == indices_for_target(
                rs.take(i as int),
                FixTarget::Manual,
            ),
        decreases results@.len() - i,
    {
        let r = &results[i];
        assert(rs[i as int] == r@);
        proof {
            lemma_take_step(rs, i as int);
        }
        let ghost before = out@.map_values(|x: usize| x as int);
        let offered = r.status == Status::Warn || r.status == Status::Fail;
        match &r.fix {
            Some(f) if offered => {
                if fix_target_of(f.file.as_str()) == FixTarget::Manual {
                    out.push(i);
                    assert(out@.map_values(|x: usize| x as int) =~= before.push(i as int));
                } else {
                    assert(indices_for_target(rs.take(i + 1), FixTarget::Manual) =~= before);
                }
            },
            _ => {
                assert(indices_for_target(rs.take(i + 1), FixTarget::Manual) =~= before);
            },
        }
        i += 1;
    }
    assert(rs.take(results@.len() as int) =~= rs);
    out
}

/// Number of fixes of a run that can be applied without a hand: those for
/// configuration files, Redis and systemd overrides.
pub fn automatic_fix_count(results: &[CheckResult]) -> (n: usize)
    ensures
        n == indices_for_target(findings(results@), FixTarget::File).len() + indices_for_target(
            findings(results@),
            FixTarget::Redis,
        ).len() + indices_for_target(findings(results@), FixTarget::Systemd).len(),
{
    let ghost rs = findings(results@);
    let mut n: usize = 0;
    let mut i: usize = 0;
    assert(rs.take(0) =~= Seq::<Finding>::empty());
    while i < results.len()
        invariant
            rs == findings(results@),
            i <= results@.len(),
            n <= i,
            n == indices_for_target(rs.take(i as int), FixTarget::File).len() + indices_for_target(
                rs.take(i as int),
                FixTarget::Redis,
            ).len() + indices_for_target(rs.take(i as int), FixTarget::Systemd).len(),
        decreases results@.len() - i,
    {
        let r = &results[i];
        assert(rs[i as int] == r@);
        proof {
            lemma_take_step(rs, i as int);
        }
        let offered = r.status == Status::Warn || r.status == Status::Fail;
        match &r.fix {
            Some(f) if offered => {
                if fix_target_of(f.file.as_str()) != FixTarget::Manual {
                    n += 1;
                }
            },
            _ => {},
        }
        i += 1;
    }
    assert(rs.take(results@.len() as int) =~= rs);
    n
}

// ---------------------------------------------------------------------
// Decisions of the fix dialogs
// ---------------------------------------------------------------------

/// What to do with the fixes for one configuration file.
#[derive(Debug, Clone, Copy, PartialEq, Eq, Structural)]
pub enum FileFixAction {
    /// Benchmark, apply, benchmark again, then ask whether to keep the fix.
    BenchmarkFirst,
    /// Apply the fixes.
    Apply,
    /// Leave the file as it is.
    Skip,
}

/// The choices offered for the fixes of `file`: with a benchmark where one
/// measures them (see [`fix_benchmark_of`]).
pub open spec fn file_fix_choices_of(file: Seq<char>) -> Seq<Seq<char>> {
    if fix_benchmark_of(file) == BenchmarkKind::NoBenchmark {
        seq!["Apply"@, "Skip"@]
    } else {
        seq!["Try with benchmark"@, "Apply without benchmark"@, "Skip"@]
    }
}

pub fn file_fix_choices(file: &str) -> (r: Vec<&'static str>)
    ensures
        r@.map_values(|s: &str| s@) == file_fix_choices_of(file@),
{
    let mut r: Vec<&'static str> = Vec::new();
    if fix_benchmark(file) == BenchmarkKind::NoBenchmark {
        r.push("Apply");
        r.push("Skip");
    } else {
        r.push("Try with benchmark");
        r.push("Apply without benchmark");
        r.push("Skip");
    }
    assert(r@.map_values(|s: &str| s@) =~= file_fix_choices_of(file@));
    r
}

/// The action for the choice made among [`file_fix_choices_of`] (none when
/// the dialog was left without one): anything but a listed action skips.
pub open spec fn file_fix_action_of(file: Seq<char>, selection: Option<usize>) -> FileFixAction {
    if fix_benchmark_of(file) == BenchmarkKind::NoBenchmark {
        match selection {
            Some(0) => FileFixAction::Apply,
            _ => FileFixAction::Skip,
        }
    } else {
        match selection {
            Some(0) => FileFixAction::BenchmarkFirst,
            Some(1) => FileFixAction::Apply,
            _ => FileFixAction::Skip,
        }
    }
}

pub fn file_fix_action(file: &str, selection: Option<usize>) -> (r: FileFixAction)
    ensures
        r == file_fix_action_of(file@, selection),
{
    if fix_benchmark(file) == BenchmarkKind::NoBenchmark {
        match selection {
            Some(0) => FileFixAction::Apply,
            _ => FileFixAction::Skip,
        }
    } else {
        match selection {
            Some(0) => FileFixAction::BenchmarkFirst,
            Some(1) => FileFixAction::Apply,
            _ => FileFixAction::Skip,
        }
    }
}

/// What to restart after all fixes were kept in the full benchmark mode:
/// MySQL too, unless its settings were already applied at runtime.
pub fn restart_advice(runtime_applied: bool) -> (r: &'static str)
    ensures
        r@ == if runtime_applied {
            "MySQL runtime variables are already active. Restart FrankenPHP for remaining changes."@
        } else {
            "Restart FrankenPHP and MySQL for changes to take effect."@
        },
{
    if runtime_applied {
        "MySQL runtime variables are already active. Restart FrankenPHP for remaining changes."
    } else {
        "Restart FrankenPHP and MySQL for changes to take effect."
    }
}

// ---------------------------------------------------------------------
// MySQL settings applied at runtime
// ---------------------------------------------------------------------

/// Variables that can not be changed at runtime with `SET GLOBAL`; they
/// take effect only after a restart.
pub const STATIC_MYSQL_VARS: [&'static str; 1] = ["innodb_log_file_size"];

pub open spec fn is_static_var(key: Seq<char>) -> bool {
    STATIC_MYSQL_VARS@.map_values(|v: &str| v@).contains(key)
}

fn is_static_var_exec(key: &[char]) -> (r: bool)
    ensures
        r == is_static_var(key@),
{
    let ghost names = STATIC_MYSQL_VARS@.map_values(|v: &str| v@);
    let mut j: usize = 0;
    while j < STATIC_MYSQL_VARS.len()
        invariant
            names == STATIC_MYSQL_VARS@.map_values(|v: &str| v@),
            j <= STATIC_MYSQL_VARS@.len(),
            forall|k: int| 0 <= k < j ==> names[k] != key@,
        decreases STATIC_MYSQL_VARS@.len() - j,
    {
        let name = to_chars(STATIC_MYSQL_VARS[j]);
        if eq_chars(name.as_slice(), key) {
            assert(names[j as int] == key@);
            return true;
        }
        j += 1;
    }
    false
}

/// The number and the unit multiplier of a size written with a `G`, `M`
/// or `K` suffix; none for any other value.
pub open spec fn unit_bytes(v: Seq<char>) -> Option<(nat, nat)> {
    if v.len() > 0 && v.last() == 'G' && parse_unsigned(v.drop_last(), u64::MAX as nat) is Some {
        Some((parse_unsigned(v.drop_last(), u64::MAX as nat)->0, 1073741824nat))
    } else if v.len() > 0 && v.last() == 'M' && parse_unsigned(v.drop_last(), u64::MAX as nat) is Some {
        Some((parse_unsigned(v.drop_last(), u64::MAX as nat)->0, 1048576nat))
    } else if v.len() > 0 && v.last() == 'K' && parse_unsigned(v.drop_last(), u64::MAX as nat) is Some {
        Some((parse_unsigned(v.drop_last(), u64::MAX as nat)->0, 1024nat))
    } else {
        None
    }
}

/// An option-file value as `SET GLOBAL` takes it: a size with a unit
/// suffix in bytes, anything else as written (trimmed).
pub open spec fn set_global_value(value: Seq<char>) -> Seq<char> {
    let v = trim(value);
    match unit_bytes(v) {
        Some((n, m)) => decimal(n * m),
        None => v,
    }
}

/// The size in bytes fits in a `u64`.
pub open spec fn set_global_fits(value: Seq<char>) -> bool {
    match unit_bytes(trim(value)) {
        Some((n, m)) => n * m <= u64::MAX,
        None => true,
    }
}

fn unit_bytes_exec(v: &[char]) -> (r: Option<(u64, u64)>)
    ensures
        match r {
            Some((n, m)) => unit_bytes(v@) == Some((n as nat, m as nat)),
            None => unit_bytes(v@) is None,
        },
{
    if v.len() == 0 {
        return None;
    }
    let last = v[v.len() - 1];
    let num = &v[0..v.len() - 1];
    assert(num@ =~= v@.drop_last());
    match parse_u64(num) {
        Some(n) => {
            if last == 'G' {
                Some((n, 1073741824))
            } else if last == 'M' {
                Some((n, 1048576))
            } else if last == 'K' {
                Some((n, 1024))
            } else {
                None
            }
        },
        None => None,
    }
}

/// Whether [`cnf_value_to_set_global`] can convert `value`: its size in
/// bytes fits in a `u64`.
pub fn set_global_value_fits(value: &str) -> (r: bool)
    ensures
        r == set_global_fits(value@),
{
    let c = to_chars(value);
    let v = trim_slice(c.as_slice());
    match unit_bytes_exec(v) {
        Some((n, m)) => n.checked_mul(m).is_some(),
        None => true,
    }
}

/// Parse an option-file value with a `G`, `M` or `K` suffix into bytes for
/// `SET GLOBAL`; other values are returned trimmed.
pub fn cnf_value_to_set_global(value: &str) -> (r: String)
    requires
        set_global_fits(value@),
    ensures
        r@ == set_global_value(value@),
{
    let c = to_chars(value);
    let v = trim_slice(c.as_slice());
    match unit_bytes_exec(v) {
        Some((n, m)) => decimal_string(n * m),
        None => from_chars(v),
    }
}

/// The `(variable, value)` pair that `SET GLOBAL` applies for a fix line
/// `key=value` (both trimmed); none for a line without `=` or for a
/// variable that needs a restart.
pub open spec fn runtime_setting(line: Seq<char>) -> Option<(Seq<char>, Seq<char>)> {
    match first_index(line, '=') {
        Some(i) => {
            let key = trim(line.take(i));
            if is_static_var(key) {
                None
            } else {
                Some((key, trim(line.skip(i + 1))))
            }
        },
        None => None,
    }
}

pub open spec fn runtime_settings_of(ls: Seq<Seq<char>>) -> Seq<(Seq<char>, Seq<char>)>
    decreases ls.len(),
{
    if ls.len() == 0 {
        seq![]
    } else {
        runtime_settings_of(ls.drop_last()) + match runtime_setting(ls.last()) {
            Some(p) => seq![p],
            None => seq![],
        }
    }
}

pub open spec fn pairs_of(v: Seq<(String, String)>) -> Seq<(Seq<char>, Seq<char>)> {
    v.map_values(|p: (String, String)| (p.0@, p.1@))
}

/// The MySQL variables that fixes to an option file set and that can be
/// applied at once with `SET GLOBAL`, with their values, in order.
pub fn runtime_settings(fixes: &[String]) -> (r: Vec<(String, String)>)
    ensures
        pairs_of(r@) == runtime_settings_of(fix_lines(strs_of(fixes@))),
{
    let all = all_fix_lines(fixes);
    let ghost fl = seqs_of(all@);
    let mut out: Vec<(String, String)> = Vec::new();
    let mut k: usize = 0;
    assert(fl.take(0) =~= Seq::<Seq<char>>::empty());
    assert(pairs_of(out@) =~= Seq::<(Seq<char>, Seq<char>)>::empty());
    while k < all.len()
        invariant
            fl == seqs_of(all@),
            k <= all@.len(),
            pairs_of(out@) == runtime_settings_of(fl.take(k as int)),
        decreases all@.len() - k,
    {
        let line = all[k].as_slice();
        proof {
            assert(fl.take(k + 1).drop_last() =~= fl.take(k as int));
            assert(fl.take(k + 1).last() == line@);
        }
        let ghost before = pairs_of(out@);
        match first_index_exec(line, '=') {
            Some(i) => {
                proof {
                    lemma_first_index(line@, '=');
                }
                let n = line.len();
                assert(i < n);
                let key = trim_slice(&line[0..i]);
                let value = trim_slice(&line[i + 1..n]);
                assert(line@.subrange(0, i as int) =~= line@.take(i as int));
                assert(line@.subrange(i + 1, line@.len() as int) =~= line@.skip(i + 1));
                if !is_static_var_exec(key) {
                    out.push((from_chars(key), from_chars(value)));
                    assert(pairs_of(out@) =~= before.push((key@, value@)));
                } else {
                    assert(pairs_of(out@) =~= before + Seq::<(Seq<char>, Seq<char>)>::empty());
                }
            },
            None => {
                assert(pairs_of(out@) =~= before + Seq::<(Seq<char>, Seq<char>)>::empty());
            },
        }
        k += 1;
    }
    assert(fl.take(all@.len() as int) =~= fl);
    out
}

// ---------------------------------------------------------------------
// Redis fixes
// ---------------------------------------------------------------------

/// A Redis fix `name value` cut at its first space into the setting and
/// its value; none when it holds no space.
pub open spec fn redis_fix_parts(content: Seq<char>) -> Option<(Seq<char>, Seq<char>)> {
    match first_index(content, ' ') {
        Some(i) => Some((content.take(i), content.skip(i + 1))),
        None => None,
    }
}

/// Splits a Redis fix (`maxmemory 2397mb`) into the setting and its value
/// for `redis-cli CONFIG SET`.
pub fn split_redis_fix(content: &str) -> (r: Option<(String, String)>)
    ensures
        match r {
            Some((a, b)) => redis_fix_parts(content@) == Some((a@, b@)),
            None => redis_fix_parts(content@) is None,
        },
{
    let c = to_chars(content);
    match first_index_exec(c.as_slice(), ' ') {
        Some(i) => {
            proof {
                lemma_first_index(c@, ' ');
            }
            let cs = c.as_slice();
            let n = cs.len();
            assert(i < n);
            let a = from_chars(&cs[0..i]);
            let b = from_chars(&cs[i + 1..n]);
            assert(c@.subrange(0, i as int) =~= c@.take(i as int));
            assert(c@.subrange(i + 1, c@.len() as int) =~= c@.skip(i + 1));
            Some((a, b))
        },
        None => None,
    }
}

/// The setting a Redis fix changes (its first word), whose value is saved
/// before the fix so that it can be restored.
pub fn redis_backup_key(content: &str) -> (r: Option<String>)
    ensures
        match r {
            Some(k) => split_ws(content@).len() > 0 && k@ == split_ws(content@)[0],
            None => split_ws(content@).len() == 0,
        },
{
    let c = to_chars(content);
    let words = split_ws_exec(c.as_slice());
    if words.len() > 0 {
        assert(seqs_of(words@)[0] == words@[0]@);
        Some(from_chars(words[0].as_slice()))
    } else {
        None
    }
}

/// Whether redis-cli accepted one `CONFIG SET`: it ran, succeeded and
/// answered `OK` (blanks around the answer aside). `None` stands for a fix
/// that could not be split, or for a redis-cli that did not run or failed.
pub open spec fn redis_set_accepted(reply: Option<String>) -> bool {
    match reply {
        Some(answer) => trim(answer@) == "OK"@,
        None => false,
    }
}

/// Whether the answer of a successful `redis-cli CONFIG SET` is `OK`.
pub fn redis_answer_ok(answer: &str) -> (r: bool)
    ensures
        r == (trim(answer@) == "OK"@),
{
    let c = to_chars(answer);
    let ok = to_chars("OK");
    eq_chars(trim_slice(c.as_slice()), ok.as_slice())
}

/// Whether the Redis settings are persisted with `CONFIG REWRITE` once the
/// `CONFIG SET`s ran: only when every one of them was accepted.
pub fn redis_rewrite_due(replies: &[Option<String>]) -> (r: bool)
    ensures
        r == forall|i: int| 0 <= i < replies@.len() ==> #[trigger] redis_set_accepted(replies@[i]),
{
    let mut k: usize = 0;
    while k < replies.len()
        invariant
            k <= replies@.len(),
            forall|i: int| 0 <= i < k ==> #[trigger] redis_set_accepted(replies@[i]),
        decreases replies@.len() - k,
    {
        let accepted = match &replies[k] {
            Some(answer) => redis_answer_ok(answer.as_str()),
            None => false,
        };
        if !accepted {
            assert(!redis_set_accepted(replies@[k as int]));
            return false;
        }
        k += 1;
    }
    true
}

// ---------------------------------------------------------------------
// Laws of writing fix lines
// ---------------------------------------------------------------------

/// A fix line counts as a setting of its own key.
proof fn lemma_fix_line_sets_own_key(line: Seq<char>)
    requires
        fix_key(line) is Some,
    ensures
        sets_key(line, fix_key(line)->0),
{
    lemma_first_index(line, '=');
    let i = first_index(line, '=')->0;
    let a = line.take(i);
    let y = seq!['='] + line.skip(i + 1);
    assert(line =~= a + y);
    lemma_trim_start_concat(a, y);
    assert(!is_ws('='));
    assert(trim_start(y) == y);
    let a1 = trim_start(a);
    let s1 = trim_start(line);
    assert(s1 =~= a1 + y);
    let p = a1 + seq!['='];
    assert(s1.subrange(0, p.len() as int) =~= p);
    lemma_trim_end_keeps_prefix(s1, p);
    let t = trim(line);
    assert(t == trim_end(s1));
    assert(t.subrange(0, p.len() as int) == p);
    lemma_trim_end_split(a1);
    let key = trim_end(a1);
    let n = key.len();
    assert(fix_key(line)->0 == key);
    let w = a1.skip(n as int);
    assert forall|j: int| 0 <= j < w.len() implies is_ws(#[trigger] w[j]) by {
        assert(w[j] == a1[n + j]);
    }
    assert forall|j: int| 0 <= j < p.len() implies t[j] == p[j] by {
        assert(t.subrange(0, p.len() as int)[j] == t[j]);
    }
    assert(t.subrange(0, n as int) =~= key) by {
        assert forall|j: int| 0 <= j < n implies t.subrange(0, n as int)[j] == key[j] by {
            assert(t[j] == p[j]);
            assert(p[j] == a1[j]);
            assert(a1.take(n as int)[j] == a1[j]);
        }
    }
    let rest = seq!['='] + t.skip(p.len() as int);
    assert(t.skip(n as int) =~= w + rest) by {
        assert forall|j: int| 0 <= j < t.skip(n as int).len() implies t.skip(n as int)[j] == (w
            + rest)[j] by {
            if j < w.len() {
                assert(t[n + j] == p[n + j]);
            } else if j == w.len() {
                assert(t[n + j] == p[a1.len() as int]);
            }
        }
    }
    lemma_trim_start_concat(w, rest);
    lemma_trim_start_all_ws(w);
    assert(trim_start(rest) == rest);
    assert(rest.subrange(0, 1) =~= seq!['=']);
}

/// Every line of a text without carriage returns is clean, and so is a
/// text's lines after fix lines replaced some of them.
proof fn lemma_replaced_clean(content: Seq<char>, key: Seq<char>, line: Seq<char>)
    requires
        !contains_char(content, '\r'),
        !contains_char(line, '\r'),
        !contains_char(line, '\n'),
    ensures
        clean_lines(lines(content)),
        clean_lines(replace_setting(lines(content), key, line)),
{
    lemma_lines_from_clean(content, seq![]);
    let ls = lines(content);
    let m = replace_setting(ls, key, line);
    assert forall|i: int| 0 <= i < m.len() implies !contains_char(#[trigger] m[i], '\n')
        && !contains_char(m[i], '\r') by {
        assert(!contains_char(ls[i], '\n') && !contains_char(ls[i], '\r'));
    }
}

/// Writing a `key=value` line into a text that already sets the key keeps
/// every other line where it was and turns each line setting the key into
/// the fix line.
pub proof fn law_fix_line_keeps_other_lines(content: Seq<char>, line: Seq<char>)
    requires
        fix_key(line) is Some,
        has_setting(lines(content), fix_key(line)->0),
        !contains_char(content, '\r'),
        !contains_char(line, '\r'),
        !contains_char(line, '\n'),
    ensures
        lines(apply_fix_line(content, line)) == replace_setting(
            lines(content),
            fix_key(line)->0,
            line,
        ),
{
    let key = fix_key(line)->0;
    let m = replace_setting(lines(content), key, line);
    lemma_replaced_clean(content, key, line);
    lemma_lines_join_newline(m);
}

/// Writing the same `key=value` line a second time changes nothing once
/// the text already set the key.
pub proof fn law_fix_line_idempotent(content: Seq<char>, line: Seq<char>)
    requires
        fix_key(line) is Some,
        has_setting(lines(content), fix_key(line)->0),
        !contains_char(content, '\r'),
        !contains_char(line, '\r'),
        !contains_char(line, '\n'),
    ensures
        apply_fix_line(apply_fix_line(content, line), line) == apply_fix_line(content, line),
{
    let key = fix_key(line)->0;
    let ls = lines(content);
    let m = replace_setting(ls, key, line);
    law_fix_line_keeps_other_lines(content, line);
    let r1 = apply_fix_line(content, line);
    assert(lines(r1) == m);
    lemma_fix_line_sets_own_key(line);
    let i = choose|i: int| 0 <= i < ls.len() && #[trigger] sets_key(ls[i], key);
    assert(m[i] == line);
    assert(sets_key(m[i], key));
    assert(has_setting(m, key));
    assert(replace_setting(m, key, line) =~= m) by {
        assert forall|j: int| 0 <= j < m.len() implies replace_setting(m, key, line)[j] == m[j] by {
            if sets_key(ls[j], key) {
                assert(m[j] == line);
            } else {
                assert(m[j] == ls[j]);
            }
        }
    }
}

/// A `key=value` line for a key the text does not set becomes its last
/// line, after all the lines it had.
pub proof fn law_fix_line_appends(content: Seq<char>, line: Seq<char>)
    requires
        fix_key(line) is Some,
        !has_setting(lines(content), fix_key(line)->0),
        content.len() > 0,
        !contains_char(content, '\r'),
        !contains_char(line, '\r'),
        !contains_char(line, '\n'),
    ensures
        lines(apply_fix_line(content, line)) == lines(content).push(line),
{
    let ls = lines(content);
    lemma_replaced_clean(content, fix_key(line)->0, line);
    lemma_lines_from_bound_nonempty(content);
    assert(!contains_char(Seq::<char>::empty(), '\r'));
    assert(!contains_char(Seq::<char>::empty(), '\n'));
    lemma_join_lines_from(content, seq![]);
    assert(Seq::<char>::empty() + content =~= content);
    assert(join_lines(ls) + seq!['\n'] == newline_ended(content));
    lemma_join_push(ls, line);
    assert(clean_lines(ls.push(line))) by {
        assert forall|i: int| 0 <= i < ls.push(line).len() implies !contains_char(
            #[trigger] ls.push(line)[i],
            '\n',
        ) && !contains_char(ls.push(line)[i], '\r') by {
            if i < ls.len() {
                assert(ls.push(line)[i] == ls[i]);
            }
        }
    }
    lemma_lines_join_newline(ls.push(line));
    assert(newline_ended(content) + line + seq!['\n'] =~= join_lines(ls) + seq!['\n'] + line
        + seq!['\n']);
}

/// The last character of joined lines is that of the last line.
proof fn lemma_join_last(x: Seq<Seq<char>>)
    requires
        x.len() >= 1,
        x.last().len() > 0,
    ensures
        join_lines(x).len() > 0,
        join_lines(x).last() == x.last().last(),
{
    if x.len() > 1 {
        lemma_join_push(x.drop_last(), x.last());
        assert(x.drop_last().push(x.last()) =~= x);
    }
}

/// An environment line counts as setting its own variable.
proof fn lemma_env_line_sets_own(e: Seq<char>)
    requires
        env_search(e) is Some,
    ensures
        sets_env(e, env_search(e)->0),
        (env_search(e)->0).len() > 0,
        e.len() >= (env_search(e)->0).len(),
{
    reveal_strlit("Environment=");
    let prefix = "Environment="@;
    let kv = e.skip(prefix.len() as int);
    lemma_first_index(kv, '=');
    let i = first_index(kv, '=')->0;
    let search = prefix + kv.take(i) + seq!['='];
    assert(search == env_search(e)->0);
    assert(e.subrange(0, search.len() as int) =~= search) by {
        assert forall|j: int| 0 <= j < search.len() implies e.subrange(
            0,
            search.len() as int,
        )[j] == search[j] by {
            if j < prefix.len() {
                assert(e.subrange(0, prefix.len() as int)[j] == e[j]);
            } else {
                assert(e[j] == kv[j - prefix.len()]);
            }
        }
    }
    assert(e[0] == e.subrange(0, prefix.len() as int)[0]);
    assert(prefix[0] == 'E');
    assert(!is_ws(e[0]));
    assert(trim_start(e) == e);
    lemma_trim_end_keeps_prefix(e, search);
}

/// Writing the same environment line a second time changes nothing.
pub proof fn law_env_line_idempotent(content: Seq<char>, e: Seq<char>)
    requires
        env_search(e) is Some,
        !contains_char(content, '\r'),
        !contains_char(e, '\r'),
        !contains_char(e, '\n'),
        has_env(lines(content), env_search(e)->0) && lines(content).len() >= 2 ==> !(lines(
            content,
        ).last().len() == 0 && lines(content)[lines(content).len() - 2].len() == 0),
    ensures
        set_env_line(set_env_line(content, e), e) == set_env_line(content, e),
{
    let search = env_search(e)->0;
    let ls = lines(content);
    lemma_lines_from_clean(content, seq![]);
    lemma_env_line_sets_own(e);
    assert(e.len() > 0 && e.last() != '\n') by {
        assert(e.len() >= search.len());
        if e.last() == '\n' {
            assert(e[e.len() - 1] == '\n');
        }
    }
    let r1 = set_env_line(content, e);
    if has_env(ls, search) {
        let m = replace_env(ls, search, e);
        assert(clean_lines(m)) by {
            assert forall|j: int| 0 <= j < m.len() implies !contains_char(#[trigger] m[j], '\n')
                && !contains_char(m[j], '\r') by {
                assert(!contains_char(ls[j], '\n') && !contains_char(ls[j], '\r'));
            }
        }
        let i = choose|i: int| 0 <= i < ls.len() && #[trigger] sets_env(ls[i], search);
        assert(m[i] == e);
        if m.last().len() > 0 {
            lemma_join_last(m);
            assert(r1 == join_lines(m) + seq!['\n']);
            lemma_lines_join_newline(m);
            assert(sets_env(m[i], search));
            assert(has_env(m, search));
            assert(replace_env(m, search, e) =~= m) by {
                assert forall|j: int| 0 <= j < m.len() implies replace_env(m, search, e)[j]
                    == m[j] by {
                    if sets_env(ls[j], search) {
                        assert(m[j] == e);
                    } else {
                        assert(m[j] == ls[j]);
                    }
                }
            }
        } else {
            assert(i != m.len() - 1);
            let d = m.drop_last();
            lemma_join_push(d, m.last());
            assert(d.push(m.last()) =~= m);
            assert(join_lines(m) =~= join_lines(d) + seq!['\n']);
            assert(r1 == join_lines(d) + seq!['\n']);
            assert(clean_lines(d)) by {
                assert forall|j: int| 0 <= j < d.len() implies !contains_char(#[trigger] d[j], '\n')
                    && !contains_char(d[j], '\r') by {
                    assert(d[j] == m[j]);
                }
            }
            lemma_lines_join_newline(d);
            assert(d[i] == e);
            assert(sets_env(d[i], search));
            assert(has_env(d, search));
            assert(replace_env(d, search, e) =~= d) by {
                assert forall|j: int| 0 <= j < d.len() implies replace_env(d, search, e)[j]
                    == d[j] by {
                    if sets_env(ls[j], search) {
                        assert(m[j] == e);
                    } else {
                        assert(m[j] == ls[j]);
                    }
                }
            }
            assert(ls.last().len() == 0) by {
                if sets_env(ls.last(), search) {
                    assert(m.last() == e);
                }
            }
            assert(d.last().len() > 0) by {
                assert(d.last() == m[m.len() - 2]);
                if !sets_env(ls[ls.len() - 2], search) {
                    assert(m[m.len() - 2] == ls[ls.len() - 2]);
                }
            }
            lemma_join_last(d);
        }
    } else {
        let p = if content.len() > 0 {
            ls
        } else {
            seq![Seq::<char>::empty()]
        };
        assert(newline_ended(content) == join_lines(p) + seq!['\n']) by {
            if content.len() > 0 {
                assert(!contains_char(Seq::<char>::empty(), '\r'));
                assert(!contains_char(Seq::<char>::empty(), '\n'));
                lemma_join_lines_from(content, seq![]);
                assert(Seq::<char>::empty() + content =~= content);
            } else {
                assert(join_lines(p) == Seq::<char>::empty());
                assert(newline_ended(content) =~= seq!['\n']);
            }
        }
        assert(p.len() >= 1) by {
            if content.len() > 0 {
                lemma_lines_from_bound_nonempty(content);
            }
        }
        let q = p.push(e);
        lemma_join_push(p, e);
        assert(r1 =~= join_lines(q) + seq!['\n']);
        assert(clean_lines(q)) by {
            assert forall|j: int| 0 <= j < q.len() implies !contains_char(#[trigger] q[j], '\n')
                && !contains_char(q[j], '\r') by {
                if j < p.len() {
                    assert(q[j] == p[j]);
                    if content.len() == 0 {
                        assert(p[j] == Seq::<char>::empty());
                    }
                }
            }
        }
        lemma_lines_join_newline(q);
        assert(q[p.len() as int] == e);
        assert(sets_env(q[p.len() as int], search));
        assert(has_env(q, search));
        assert(replace_env(q, search, e) =~= q) by {
            assert forall|j: int| 0 <= j < q.len() implies replace_env(q, search, e)[j] == q[j] by {
                if j < p.len() {
                    assert(q[j] == p[j]);
                    if content.len() == 0 {
                        assert(trim_start(Seq::<char>::empty()) == Seq::<char>::empty());
                        assert(trim(p[j]) == Seq::<char>::empty());
                    }
                    assert(!sets_env(p[j], search));
                }
            }
        }
        lemma_join_last(q);
    }
}

/// A `[mysqld]` header line sets no key.
proof fn lemma_header_line_sets_nothing(key: Seq<char>)
    ensures
        !sets_key("[mysqld]"@, key),
{
    reveal_strlit("[mysqld]");
    let t = "[mysqld]"@;
    assert(!is_ws(t[0]) && !is_ws(t.last()));
    assert(trim_start(t) == t);
    assert(trim(t) == t);
    if starts_with(t, key) && starts_with(trim_start(t.skip(key.len() as int)), seq!['=']) {
        let u = t.skip(key.len() as int);
        let k = lemma_trim_start_skip(u);
        assert(trim_start(u).subrange(0, 1)[0] == '=');
        assert(trim_start(u)[0] == u[k]);
        assert(u[k] == t[key.len() + k]);
    }
    if starts_with(t, seq![';'] + key) {
        assert(t.subrange(0, key.len() + 1int)[0] == t[0]);
    }
    if starts_with(t, seq![';', ' '] + key) {
        assert(t.subrange(0, key.len() + 2int)[0] == t[0]);
    }
}

// ---------------------------------------------------------------------
// Writing several fix lines in turn
// ---------------------------------------------------------------------

/// Whether the configuration line `l` is replaced when the fix line `f` is
/// written: `f` sets a key, and `l` sets (or comments out) that key.
pub open spec fn replaced_by(l: Seq<char>, f: Seq<char>) -> bool {
    match fix_key(f) {
        Some(key) => sets_key(l, key),
        None => false,
    }
}

/// A configuration line after the first `t` fix lines of `fl` were written
/// in turn.
pub open spec fn rewritten_line(l: Seq<char>, fl: Seq<Seq<char>>, t: int) -> Seq<char>
    decreases t,
{
    if t <= 0 {
        l
    } else {
        let x = rewritten_line(l, fl, t - 1);
        if replaced_by(x, fl[t - 1]) {
            fl[t - 1]
        } else {
            x
        }
    }
}

/// The lines a text starts from when fix lines are written into it: its
/// lines, or a single empty line for the empty text (a line appended to it
/// comes after a line feed).
pub open spec fn start_lines(h: Seq<char>) -> Seq<Seq<char>> {
    if lines(h).len() == 0 {
        seq![Seq::<char>::empty()]
    } else {
        lines(h)
    }
}

/// The lines of a text after the first `t` fix lines of `fl` were written in
/// turn: a fix line that sets a key replaces the lines that set it, or is
/// appended when there are none.
pub open spec fn written_lines(ls: Seq<Seq<char>>, fl: Seq<Seq<char>>, t: int) -> Seq<Seq<char>>
    decreases t,
{
    if t <= 0 {
        ls
    } else {
        let p = written_lines(ls, fl, t - 1);
        let f = fl[t - 1];
        match fix_key(f) {
            Some(key) => if has_setting(p, key) {
                replace_setting(p, key, f)
            } else {
                p.push(f)
            },
            None => p,
        }
    }
}

/// Where each line of [`written_lines`] comes from: a line of the text, or
/// a fix line that was appended.
spec fn line_origins(ls: Seq<Seq<char>>, fl: Seq<Seq<char>>, t: int) -> Seq<Seq<char>>
    decreases t,
{
    if t <= 0 {
        ls
    } else {
        let p = line_origins(ls, fl, t - 1);
        let f = fl[t - 1];
        match fix_key(f) {
            Some(key) => if has_setting(written_lines(ls, fl, t - 1), key) {
                p
            } else {
                p.push(f)
            },
            None => p,
        }
    }
}

/// The text already ends its lines the way writing a fix leaves them: each
/// line, the last one too, ended by a line feed.
pub open spec fn rejoins(h: Seq<char>) -> bool {
    newline_ended(h) == join_lines(start_lines(h)) + seq!['\n']
}

/// The first fix line of `fl` that sets a key finds a line that sets it.
pub open spec fn first_setting_replaces(ls: Seq<Seq<char>>, fl: Seq<Seq<char>>) -> bool {
    forall|i: int|
        #![trigger fix_key(fl[i])]
        0 <= i < fl.len() && fix_key(fl[i]) is Some && (forall|j: int|
            0 <= j < i ==> (#[trigger] fix_key(fl[j])) is None) ==> has_setting(ls, fix_key(fl[i])->0)
}

/// No fix line of `fl` sets (or comments out) the key of another fix line,
/// unless the two keys are the same.
pub open spec fn fix_lines_independent(fl: Seq<Seq<char>>) -> bool {
    forall|i: int, j: int|
        0 <= i < fl.len() && 0 <= j < fl.len() && #[trigger] replaced_by(fl[i], fl[j]) ==> fix_key(
            fl[i],
        ) == fix_key(fl[j])
}

proof fn lemma_replaced_by_own(f: Seq<char>)
    requires
        fix_key(f) is Some,
    ensures
        replaced_by(f, f),
{
    lemma_fix_line_sets_own_key(f);
}

/// A line that none of the first `t` fix lines replaces stays as it was;
/// one that some replaces ends as a fix line that replaced it and whose key
/// no later one of them has.
proof fn lemma_rewritten_line(l: Seq<char>, fl: Seq<Seq<char>>, t: int)
    requires
        fix_lines_independent(fl),
        0 <= t <= fl.len(),
    ensures
        (forall|j: int| 0 <= j < t ==> !#[trigger] replaced_by(l, fl[j])) ==> rewritten_line(l, fl, t)
            == l,
        (exists|j: int| 0 <= j < t && #[trigger] replaced_by(l, fl[j])) ==> exists|m: int|
            0 <= m < t && rewritten_line(l, fl, t) == fl[m] && #[trigger] replaced_by(l, fl[m])
                && forall|i: int| m < i < t ==> fix_key(#[trigger] fl[i]) != fix_key(fl[m]),
    decreases t,
{
    if t > 0 {
        lemma_rewritten_line(l, fl, t - 1);
        let x = rewritten_line(l, fl, t - 1);
        let f = fl[t - 1];
        if exists|j: int| 0 <= j < t - 1 && #[trigger] replaced_by(l, fl[j]) {
            let m = choose|m: int|
                0 <= m < t - 1 && x == fl[m] && #[trigger] replaced_by(l, fl[m]) && forall|i: int|
                    m < i < t - 1 ==> fix_key(#[trigger] fl[i]) != fix_key(fl[m]);
            lemma_replaced_by_own(fl[m]);
            if replaced_by(fl[m], f) {
                assert(fix_key(fl[m]) == fix_key(f));
                assert(replaced_by(l, fl[t - 1]));
                assert(rewritten_line(l, fl, t) == fl[t - 1]);
            } else {
                assert(fix_key(f) != fix_key(fl[m]));
                assert(rewritten_line(l, fl, t) == fl[m]);
                assert(forall|i: int| m < i < t ==> fix_key(#[trigger] fl[i]) != fix_key(fl[m]));
            }
        } else {
            assert(x == l);
            if replaced_by(l, f) {
                assert(rewritten_line(l, fl, t) == fl[t - 1]);
            } else {
                assert(forall|j: int| 0 <= j < t ==> !#[trigger] replaced_by(l, fl[j]));
            }
        }
    }
}

/// A fix line whose key no later fix line has is left as it is by the
/// whole run.
proof fn lemma_last_of_key_stays(fl: Seq<Seq<char>>, m: int)
    requires
        fix_lines_independent(fl),
        0 <= m < fl.len(),
        fix_key(fl[m]) is Some,
        forall|i: int| m < i < fl.len() ==> fix_key(#[trigger] fl[i]) != fix_key(fl[m]),
    ensures
        rewritten_line(fl[m], fl, fl.len() as int) == fl[m],
{
    let n = fl.len() as int;
    lemma_replaced_by_own(fl[m]);
    lemma_rewritten_line(fl[m], fl, n);
    assert(replaced_by(fl[m], fl[m]));
    let k = choose|k: int|
        0 <= k < n && rewritten_line(fl[m], fl, n) == fl[k] && #[trigger] replaced_by(fl[m], fl[k])
            && forall|i: int| k < i < n ==> fix_key(#[trigger] fl[i]) != fix_key(fl[k]);
    assert(fix_key(fl[m]) == fix_key(fl[k]));
    if m < k {
        assert(fix_key(fl[k]) != fix_key(fl[m]));
    } else if k < m {
        assert(fix_key(fl[m]) != fix_key(fl[k]));
    }
}

/// Running all the fix lines again over a line they already ran over
/// changes nothing.
proof fn lemma_rewritten_line_stable(l: Seq<char>, fl: Seq<Seq<char>>)
    requires
        fix_lines_independent(fl),
    ensures
        rewritten_line(rewritten_line(l, fl, fl.len() as int), fl, fl.len() as int) == rewritten_line(
            l,
            fl,
            fl.len() as int,
        ),
{
    let n = fl.len() as int;
    lemma_rewritten_line(l, fl, n);
    if exists|j: int| 0 <= j < n && #[trigger] replaced_by(l, fl[j]) {
        let m = choose|m: int|
            0 <= m < n && rewritten_line(l, fl, n) == fl[m] && #[trigger] replaced_by(l, fl[m])
                && forall|i: int| m < i < n ==> fix_key(#[trigger] fl[i]) != fix_key(fl[m]);
        lemma_last_of_key_stays(fl, m);
    }
}

/// Once the fix line at `i` replaced a line, the line ends as a fix line
/// with the same key.
proof fn lemma_replaced_keeps_key(l: Seq<char>, fl: Seq<Seq<char>>, i: int, t: int)
    requires
        fix_lines_independent(fl),
        0 <= i < t <= fl.len(),
        replaced_by(rewritten_line(l, fl, i), fl[i]),
    ensures
        exists|m: int|
            i <= m < t && rewritten_line(l, fl, t) == #[trigger] fl[m] && fix_key(fl[m]) == fix_key(
                fl[i],
            ),
    decreases t,
{
    if t == i + 1 {
        assert(rewritten_line(l, fl, t) == fl[i]);
    } else {
        lemma_replaced_keeps_key(l, fl, i, t - 1);
        let m = choose|m: int|
            i <= m < t - 1 && rewritten_line(l, fl, t - 1) == #[trigger] fl[m] && fix_key(fl[m])
                == fix_key(fl[i]);
        if replaced_by(fl[m], fl[t - 1]) {
            assert(fix_key(fl[m]) == fix_key(fl[t - 1]));
            assert(rewritten_line(l, fl, t) == fl[t - 1]);
        } else {
            assert(rewritten_line(l, fl, t) == fl[m]);
        }
    }
}

/// A fix line, run over by the first `t` fix lines, still sets its key.
proof fn lemma_fix_line_keeps_own_key(fl: Seq<Seq<char>>, m: int, t: int)
    requires
        fix_lines_independent(fl),
        0 <= m < fl.len(),
        fix_key(fl[m]) is Some,
        0 <= t <= fl.len(),
    ensures
        replaced_by(rewritten_line(fl[m], fl, t), fl[m]),
{
    lemma_replaced_by_own(fl[m]);
    lemma_rewritten_line(fl[m], fl, t);
    if exists|j: int| 0 <= j < t && #[trigger] replaced_by(fl[m], fl[j]) {
        let k = choose|k: int|
            0 <= k < t && rewritten_line(fl[m], fl, t) == fl[k] && #[trigger] replaced_by(fl[m], fl[k])
                && forall|i: int| k < i < t ==> fix_key(#[trigger] fl[i]) != fix_key(fl[k]);
        assert(fix_key(fl[m]) == fix_key(fl[k]));
        lemma_replaced_by_own(fl[k]);
    }
}

/// An empty line sets no key.
proof fn lemma_empty_line_sets_nothing(key: Seq<char>)
    ensures
        !sets_key(Seq::<char>::empty(), key),
{
    let e = Seq::<char>::empty();
    assert(trim_start(e) == e);
    assert(trim(e) == e);
    if starts_with(e, key) {
        assert(key.len() == 0);
        assert(e.skip(0) =~= e);
    }
}

/// Each written line is its origin run over by the fix lines written so
/// far; the text's own lines come first, in their places.
proof fn lemma_written_origins(ls: Seq<Seq<char>>, fl: Seq<Seq<char>>, t: int)
    requires
        fix_lines_independent(fl),
        0 <= t <= fl.len(),
    ensures
        line_origins(ls, fl, t).len() == written_lines(ls, fl, t).len(),
        ls.len() <= line_origins(ls, fl, t).len(),
        forall|q: int| 0 <= q < ls.len() ==> line_origins(ls, fl, t)[q] == ls[q],
        forall|q: int|
            0 <= q < written_lines(ls, fl, t).len() ==> #[trigger] written_lines(ls, fl, t)[q]
                == rewritten_line(line_origins(ls, fl, t)[q], fl, t),
    decreases t,
{
    if t > 0 {
        lemma_written_origins(ls, fl, t - 1);
        let p = written_lines(ls, fl, t - 1);
        let o = line_origins(ls, fl, t - 1);
        let f = fl[t - 1];
        let w = written_lines(ls, fl, t);
        let o2 = line_origins(ls, fl, t);
        match fix_key(f) {
            Some(key) => {
                if has_setting(p, key) {
                    assert forall|q: int| 0 <= q < w.len() implies #[trigger] w[q] == rewritten_line(
                        o2[q],
                        fl,
                        t,
                    ) by {
                        assert(p[q] == rewritten_line(o[q], fl, t - 1));
                    }
                } else {
                    lemma_fix_line_keeps_own_key(fl, t - 1, t - 1);
                    assert forall|q: int| 0 <= q < w.len() implies #[trigger] w[q] == rewritten_line(
                        o2[q],
                        fl,
                        t,
                    ) by {
                        if q < p.len() {
                            assert(w[q] == p[q]);
                            assert(o2[q] == o[q]);
                            assert(p[q] == rewritten_line(o[q], fl, t - 1));
                            assert(!sets_key(p[q], key));
                        } else {
                            assert(w[q] == f);
                            assert(o2[q] == f);
                        }
                    }
                }
            },
            None => {
                assert forall|q: int| 0 <= q < w.len() implies #[trigger] w[q] == rewritten_line(
                    o2[q],
                    fl,
                    t,
                ) by {
                    assert(p[q] == rewritten_line(o[q], fl, t - 1));
                }
            },
        }
    }
}

/// The origins of fewer fix lines are a prefix of those of more.
proof fn lemma_origins_prefix(ls: Seq<Seq<char>>, fl: Seq<Seq<char>>, t1: int, t2: int)
    requires
        0 <= t1 <= t2,
    ensures
        line_origins(ls, fl, t1).len() <= line_origins(ls, fl, t2).len(),
        forall|q: int|
            0 <= q < line_origins(ls, fl, t1).len() ==> line_origins(ls, fl, t2)[q] == line_origins(
                ls,
                fl,
                t1,
            )[q],
    decreases t2,
{
    if t1 < t2 {
        lemma_origins_prefix(ls, fl, t1, t2 - 1);
    }
}

/// Once its turn comes, a fix line that sets a key has a line that it
/// replaces or that it is: one whose run until then it replaces.
proof fn lemma_fix_finds_line(ls: Seq<Seq<char>>, fl: Seq<Seq<char>>, i: int) -> (q: int)
    requires
        fix_lines_independent(fl),
        0 <= i < fl.len(),
        fix_key(fl[i]) is Some,
    ensures
        0 <= q < line_origins(ls, fl, i + 1).len(),
        replaced_by(rewritten_line(line_origins(ls, fl, i + 1)[q], fl, i), fl[i]),
{
    lemma_written_origins(ls, fl, i);
    let p = written_lines(ls, fl, i);
    let o = line_origins(ls, fl, i);
    let key = fix_key(fl[i])->0;
    if has_setting(p, key) {
        let q = choose|q: int| 0 <= q < p.len() && #[trigger] sets_key(p[q], key);
        assert(p[q] == rewritten_line(o[q], fl, i));
        q
    } else {
        lemma_fix_line_keeps_own_key(fl, i, i);
        assert(line_origins(ls, fl, i + 1) == o.push(fl[i]));
        o.len() as int
    }
}

/// After all fix lines were written once, each of them that sets a key
/// finds a line setting it when written again.
proof fn lemma_found_again(ls: Seq<Seq<char>>, fl: Seq<Seq<char>>)
    requires
        fix_lines_independent(fl),
    ensures
        forall|i: int|
            #![trigger fix_key(fl[i])]
            0 <= i < fl.len() && fix_key(fl[i]) is Some ==> has_setting(
                written_lines(written_lines(ls, fl, fl.len() as int), fl, i),
                fix_key(fl[i])->0,
            ),
{
    let n = fl.len() as int;
    let w1 = written_lines(ls, fl, n);
    assert forall|i: int|
        #![trigger fix_key(fl[i])]
        0 <= i < n && fix_key(fl[i]) is Some implies has_setting(
            written_lines(w1, fl, i),
            fix_key(fl[i])->0,
        ) by {
        let key = fix_key(fl[i])->0;
        let q = lemma_fix_finds_line(ls, fl, i);
        lemma_origins_prefix(ls, fl, i + 1, n);
        lemma_written_origins(ls, fl, n);
        let o = line_origins(ls, fl, n);
        assert(o[q] == line_origins(ls, fl, i + 1)[q]);
        lemma_replaced_keeps_key(o[q], fl, i, n);
        let m = choose|m: int|
            i <= m < n && rewritten_line(o[q], fl, n) == #[trigger] fl[m] && fix_key(fl[m])
                == fix_key(fl[i]);
        assert(w1[q] == fl[m]);
        lemma_fix_line_keeps_own_key(fl, m, i);
        lemma_written_origins(w1, fl, i);
        let w2 = written_lines(w1, fl, i);
        assert(w2[q] == rewritten_line(line_origins(w1, fl, i)[q], fl, i));
        assert(line_origins(w1, fl, i)[q] == w1[q]);
        assert(sets_key(w2[q], key));
    }
}

/// Where every fix line that sets a key finds a line setting it, no line is
/// appended: the lines come from the text alone.
proof fn lemma_origins_when_found(ls: Seq<Seq<char>>, fl: Seq<Seq<char>>, t: int)
    requires
        0 <= t <= fl.len(),
        forall|i: int|
            #![trigger fix_key(fl[i])]
            0 <= i < fl.len() && fix_key(fl[i]) is Some ==> has_setting(
                written_lines(ls, fl, i),
                fix_key(fl[i])->0,
            ),
    ensures
        line_origins(ls, fl, t) == ls,
    decreases t,
{
    if t > 0 {
        lemma_origins_when_found(ls, fl, t - 1);
        assert(fix_key(fl[t - 1]) is Some ==> has_setting(
            written_lines(ls, fl, t - 1),
            fix_key(fl[t - 1])->0,
        ));
    }
}

/// Writing the first `t` fix lines: the text is left as it is until a fix
/// line that sets a key is written, and from then on it is
/// [`written_lines`], each ended by a line feed.
proof fn lemma_fix_lines_write(h: Seq<char>, fl: Seq<Seq<char>>, t: int)
    requires
        clean_lines(lines(h)),
        clean_lines(fl),
        rejoins(h) || first_setting_replaces(lines(h), fl),
        0 <= t <= fl.len(),
    ensures
        clean_lines(written_lines(start_lines(h), fl, t)),
        written_lines(start_lines(h), fl, t).len() >= 1,
        (forall|j: int| 0 <= j < t ==> (#[trigger] fix_key(fl[j])) is None) ==> written_lines(
            start_lines(h),
            fl,
            t,
        ) == start_lines(h),
        (forall|j: int| 0 <= j < t ==> (#[trigger] fix_key(fl[j])) is None) ==> apply_fix_lines(
            h,
            fl.take(t),
        ) == h,
        (exists|j: int| 0 <= j < t && (#[trigger] fix_key(fl[j])) is Some) ==> apply_fix_lines(
            h,
            fl.take(t),
        ) == join_lines(written_lines(start_lines(h), fl, t)) + seq!['\n'],
    decreases t,
{
    let l0 = start_lines(h);
    if t == 0 {
        assert(fl.take(0) =~= Seq::<Seq<char>>::empty());
        assert(clean_lines(l0)) by {
            if lines(h).len() == 0 {
                assert(!contains_char(Seq::<char>::empty(), '\n'));
                assert(!contains_char(Seq::<char>::empty(), '\r'));
            }
        }
    } else {
        lemma_fix_lines_write(h, fl, t - 1);
        let s = apply_fix_lines(h, fl.take(t - 1));
        let w = written_lines(l0, fl, t - 1);
        let wn = written_lines(l0, fl, t);
        let f = fl[t - 1];
        assert(fl.take(t).drop_last() =~= fl.take(t - 1));
        assert(fl.take(t).last() == f);
        assert(apply_fix_lines(h, fl.take(t)) == apply_fix_line(s, f));
        assert(!contains_char(f, '\n') && !contains_char(f, '\r'));
        match fix_key(f) {
            None => {
                assert(apply_fix_line(s, f) == s);
                assert((forall|j: int| 0 <= j < t ==> (#[trigger] fix_key(fl[j])) is None) ==> (forall|
                    j: int,
                | 0 <= j < t - 1 ==> (#[trigger] fix_key(fl[j])) is None));
                assert((exists|j: int| 0 <= j < t && (#[trigger] fix_key(fl[j])) is Some) ==> (exists|
                    j: int,
                | 0 <= j < t - 1 && (#[trigger] fix_key(fl[j])) is Some));
            },
            Some(key) => {
                assert(fix_key(fl[t - 1]) is Some);
                if exists|j: int| 0 <= j < t - 1 && (#[trigger] fix_key(fl[j])) is Some {
                    assert(s == join_lines(w) + seq!['\n']);
                    lemma_lines_join_newline(w);
                    assert(lines(s) == w);
                    if !has_setting(w, key) {
                        assert(s.last() == '\n');
                        assert(newline_ended(s) == s);
                        lemma_join_push(w, f);
                        assert(apply_fix_line(s, f) =~= join_lines(wn) + seq!['\n']);
                    }
                } else {
                    assert(s == h);
                    assert(w == l0);
                    assert(has_setting(lines(h), key) == has_setting(l0, key)) by {
                        if lines(h).len() == 0 {
                            lemma_empty_line_sets_nothing(key);
                            assert(!has_setting(l0, key));
                        }
                    }
                    if !has_setting(lines(h), key) {
                        assert(rejoins(h)) by {
                            if !rejoins(h) {
                                assert(forall|j: int| 0 <= j < t - 1 ==> (#[trigger] fix_key(fl[j])) is None);
                            }
                        }
                        lemma_join_push(l0, f);
                        assert(apply_fix_line(s, f) =~= join_lines(wn) + seq!['\n']);
                    }
                }
                assert(clean_lines(wn)) by {
                    assert forall|q: int| 0 <= q < wn.len() implies !contains_char(#[trigger] wn[q], '\n')
                        && !contains_char(wn[q], '\r') by {
                        if q < w.len() && !sets_key(w[q], key) {
                            assert(wn[q] == w[q]);
                        }
                    }
                }
            },
        }
    }
}

/// The key of a fix line holds no `=`, and starts and ends with a character
/// other than whitespace when it is not empty.
proof fn lemma_fix_key_shape(f: Seq<char>)
    requires
        fix_key(f) is Some,
    ensures
        forall|j: int| 0 <= j < (fix_key(f)->0).len() ==> #[trigger] (fix_key(f)->0)[j] != '=',
        (fix_key(f)->0).len() > 0 ==> !is_ws((fix_key(f)->0)[0]) && !is_ws((fix_key(f)->0).last()),
{
    lemma_first_index(f, '=');
    let p = first_index(f, '=')->0;
    let x = f.take(p);
    let a = lemma_trim_start_skip(x);
    let s1 = trim_start(x);
    lemma_trim_end_split(s1);
    lemma_trim_end_last(s1);
    let k = trim_end(s1);
    assert(k == fix_key(f)->0);
    assert forall|j: int| 0 <= j < k.len() implies #[trigger] k[j] != '=' by {
        assert(k[j] == s1[j]);
        assert(s1[j] == x[a + j]);
    }
    if k.len() > 0 {
        assert(k[0] == s1[0]);
        assert(s1[0] == x[a]);
    }
}

/// A line that sets `key` in the `key = value` form, for a key without `=`
/// and without whitespace at its ends, is a fix line for that key.
proof fn lemma_setting_line_key(l: Seq<char>, key: Seq<char>)
    requires
        starts_with(trim(l), key),
        starts_with(trim_start(trim(l).skip(key.len() as int)), seq!['=']),
        forall|j: int| 0 <= j < key.len() ==> #[trigger] key[j] != '=',
        key.len() > 0 ==> !is_ws(key[0]) && !is_ws(key.last()),
    ensures
        fix_key(l) == Some(key),
{
    let a = lemma_trim_start_skip(l);
    let s1 = trim_start(l);
    lemma_trim_end_split(s1);
    let t = trim(l);
    let n = key.len() as int;
    let u = t.skip(n);
    let b = lemma_trim_start_skip(u);
    assert(trim_start(u).subrange(0, 1)[0] == '=');
    assert(u[b] == '=');
    let p = a + n + b;
    assert(t[n + b] == '=');
    assert(l[p] == '=') by {
        assert(t[n + b] == s1[n + b]);
        assert(s1[n + b] == l[a + n + b]);
    }
    assert(!is_ws('='));
    assert forall|j: int| 0 <= j < p implies l[j] != '=' by {
        if j < a {
            assert(is_ws(l[j]));
        } else if j < a + n {
            assert(t.subrange(0, n)[j - a] == key[j - a]);
            assert(t[j - a] == s1[j - a]);
            assert(s1[j - a] == l[j]);
        } else {
            assert(is_ws(u[j - a - n]));
            assert(u[j - a - n] == t[j - a]);
            assert(t[j - a] == s1[j - a]);
            assert(s1[j - a] == l[j]);
        }
    }
    lemma_first_index(l, '=');
    assert(first_index(l, '=') == Some(p)) by {
        match first_index(l, '=') {
            Some(i) => {
                if i < p {
                    assert(l[i] != '=');
                } else if i > p {
                    assert(l[p] != '=');
                }
            },
            None => {
                assert(l[p] != '=');
            },
        }
    }
    let x = l.take(p);
    assert forall|j: int| 0 <= j < x.len() && (j < a || j >= a + n) implies is_ws(#[trigger] x[j]) by {
        if j < a {
            assert(x[j] == l[j]);
        } else {
            assert(x[j] == l[j]);
            assert(u[j - a - n] == t[j - a]);
            assert(t[j - a] == s1[j - a]);
            assert(s1[j - a] == l[j]);
        }
    }
    assert forall|j: int| 0 <= j < n implies x[a + j] == #[trigger] key[j] by {
        assert(t.subrange(0, n)[j] == key[j]);
        assert(t[j] == s1[j]);
        assert(s1[j] == l[a + j]);
    }
    if n == 0 {
        lemma_trim_start_all_ws(x);
        assert(trim(x) =~= key);
    } else {
        let c = lemma_trim_start_skip(x);
        assert(!is_ws(x[a])) by {
            assert(x[a + 0] == key[0]);
        }
        if c < a {
            assert(is_ws(x[c]));
        }
        if c > a {
            assert(is_ws(x[a]));
        }
        let y = x.skip(a);
        assert(trim_start(x) == y);
        lemma_trim_end_split(y);
        lemma_trim_end_last(y);
        let m = trim_end(y).len() as int;
        assert(y[n - 1] == key.last()) by {
            assert(y[n - 1] == x[a + (n - 1)]);
        }
        if m < n {
            assert(is_ws(y[n - 1]));
        }
        if m > n {
            assert(trim_end(y).last() == y[m - 1]);
            assert(y[m - 1] == x[a + m - 1]);
            assert(is_ws(x[a + m - 1]));
        }
        assert(trim_end(y) =~= key) by {
            assert forall|j: int| 0 <= j < n implies trim_end(y)[j] == key[j] by {
                assert(trim_end(y)[j] == y[j]);
                assert(y[j] == x[a + j]);
            }
        }
    }
}

/// Fix lines that are not commented out (none starts with `;` once
/// trimmed) never set another fix line's key: each of them replaces only
/// lines that set its own key, whatever the order.
pub proof fn law_uncommented_fix_lines_independent(fl: Seq<Seq<char>>)
    requires
        forall|i: int| 0 <= i < fl.len() ==> !starts_with(trim(#[trigger] fl[i]), seq![';']),
    ensures
        fix_lines_independent(fl),
{
    assert forall|i: int, j: int|
        0 <= i < fl.len() && 0 <= j < fl.len() && #[trigger] replaced_by(fl[i], fl[j]) implies fix_key(
            fl[i],
        ) == fix_key(fl[j]) by {
        let key = fix_key(fl[j])->0;
        lemma_fix_key_shape(fl[j]);
        let t = trim(fl[i]);
        assert(!starts_with(t, seq![';']));
        if starts_with(t, seq![';'] + key) {
            assert(t.subrange(0, 1) =~= seq![';']) by {
                assert(t.subrange(0, (key.len() + 1) as int)[0] == ';');
            }
        }
        if starts_with(t, seq![';', ' '] + key) {
            assert(t.subrange(0, 1) =~= seq![';']) by {
                assert(t.subrange(0, (key.len() + 2) as int)[0] == ';');
            }
        }
        lemma_setting_line_key(fl[i], key);
    }
}

/// Writing the same fixes into a configuration file a second time changes
/// nothing, when no fix line sets another fix line's key (which holds
/// whenever no fix line is commented out, by
/// [`law_uncommented_fix_lines_independent`]). The fixes may hold several
/// lines each, and their lines may replace lines or be appended. The file
/// may end its lines with `\r\n` but holds no other carriage return; where
/// it does not already end its lines as writing leaves them ([`rejoins`]),
/// the first fix line that sets a key replaces a line; and a MySQL option
/// file has its `[mysqld]` header on a line of its own.
pub proof fn law_fixes_idempotent(file: Seq<char>, content: Seq<char>, fixes: Seq<Seq<char>>)
    requires
        clean_lines(fix_lines(fixes)),
        fix_lines_independent(fix_lines(fixes)),
        clean_lines(lines(with_mysqld_header(file, content))),
        rejoins(with_mysqld_header(file, content)) || first_setting_replaces(
            lines(with_mysqld_header(file, content)),
            fix_lines(fixes),
        ),
        is_mysql_cnf(file) ==> lines(with_mysqld_header(file, content)).contains("[mysqld]"@),
    ensures
        fixed_content(file, fixed_content(file, content, fixes), fixes) == fixed_content(
            file,
            content,
            fixes,
        ),
{
    let h = with_mysqld_header(file, content);
    let fl = fix_lines(fixes);
    let n = fl.len() as int;
    let l0 = start_lines(h);
    assert(fl.take(n) =~= fl);
    lemma_fix_lines_write(h, fl, n);
    let r1 = apply_fix_lines(h, fl);
    assert(fixed_content(file, content, fixes) == r1);
    if forall|j: int| 0 <= j < n ==> (#[trigger] fix_key(fl[j])) is None {
        assert(r1 == h);
        law_mysqld_header_once(file, content);
        assert(with_mysqld_header(file, r1) == r1);
        lemma_fix_lines_write(r1, fl, n);
    } else {
        let w1 = written_lines(l0, fl, n);
        assert(r1 == join_lines(w1) + seq!['\n']);
        lemma_lines_join_newline(w1);
        assert(lines(r1) == w1);
        lemma_written_origins(l0, fl, n);
        if is_mysql_cnf(file) {
            reveal_strlit("[mysqld]");
            let hdr = "[mysqld]"@;
            let j = choose|j: int| 0 <= j < lines(h).len() && lines(h)[j] == hdr;
            assert(l0 == lines(h));
            assert forall|i: int| 0 <= i < n implies !#[trigger] replaced_by(hdr, fl[i]) by {
                match fix_key(fl[i]) {
                    Some(key) => {
                        lemma_header_line_sets_nothing(key);
                    },
                    None => {},
                }
            }
            lemma_rewritten_line(hdr, fl, n);
            assert(w1[j] == rewritten_line(line_origins(l0, fl, n)[j], fl, n));
            assert(w1[j] == hdr);
            lemma_join_contains(w1, j);
            lemma_contains_extend(join_lines(w1), seq!['\n'], hdr);
        }
        assert(with_mysqld_header(file, r1) == r1);
        assert(start_lines(r1) == w1);
        assert(r1.last() == '\n');
        assert(rejoins(r1));
        lemma_fix_lines_write(r1, fl, n);
        lemma_found_again(l0, fl);
        lemma_origins_when_found(w1, fl, n);
        lemma_written_origins(w1, fl, n);
        assert(written_lines(w1, fl, n) =~= w1) by {
            assert forall|q: int| 0 <= q < w1.len() implies written_lines(w1, fl, n)[q] == w1[q] by {
                lemma_rewritten_line_stable(line_origins(l0, fl, n)[q], fl);
            }
        }
    }
}

/// The settings of each fix content added up: the `key=value` lines of
/// each one.
pub open spec fn settings_per_fix(fixes: Seq<Seq<char>>) -> nat
    decreases fixes.len(),
{
    if fixes.len() == 0 {
        0
    } else {
        settings_per_fix(fixes.drop_last()) + settings_count(lines(fixes.last()))
    }
}

proof fn lemma_settings_count_concat(a: Seq<Seq<char>>, b: Seq<Seq<char>>)
    ensures
        settings_count(a + b) == settings_count(a) + settings_count(b),
    decreases b.len(),
{
    if b.len() == 0 {
        assert(a + b =~= a);
    } else {
        lemma_settings_count_concat(a, b.drop_last());
        assert((a + b).drop_last() =~= a + b.drop_last());
        assert((a + b).last() == b.last());
    }
}

/// The number of settings written for several fixes is the sum over the
/// fixes of the `key=value` lines each holds: every such line counts once,
/// whether it replaced lines or was appended.
pub proof fn law_settings_count_per_fix(fixes: Seq<Seq<char>>)
    ensures
        settings_count(fix_lines(fixes)) == settings_per_fix(fixes),
    decreases fixes.len(),
{
    if fixes.len() > 0 {
        law_settings_count_per_fix(fixes.drop_last());
        lemma_settings_count_concat(fix_lines(fixes.drop_last()), lines(fixes.last()));
    }
}

proof fn lemma_contains_extend(x: Seq<char>, y: Seq<char>, p: Seq<char>)
    requires
        contains(x, p),
    ensures
        contains(x + y, p),
{
    let i = choose|i: int| #[trigger] crate::text::matches_at(x, p, i);
    assert((x + y).subrange(i, i + p.len()) =~= x.subrange(i, i + p.len()));
    assert(crate::text::matches_at(x + y, p, i));
}

/// Writing the same environment line into a systemd override a second time
/// changes nothing (once its `[Service]` header is a line of its own).
pub proof fn law_env_fixes_idempotent(content: Seq<char>, e: Seq<char>)
    requires
        env_search(e) is Some,
        !contains_char(content, '\r'),
        !contains_char(e, '\r'),
        !contains_char(e, '\n'),
        lines(with_section(content, "[Service]"@)).contains("[Service]"@),
        has_env(lines(with_section(content, "[Service]"@)), env_search(e)->0) && lines(
            with_section(content, "[Service]"@),
        ).len() >= 2 ==> !(lines(with_section(content, "[Service]"@)).last().len() == 0 && lines(
            with_section(content, "[Service]"@),
        )[lines(with_section(content, "[Service]"@)).len() - 2].len() == 0),
    ensures
        env_override_content(env_override_content(content, seq![e]), seq![e]) == env_override_content(
            content,
            seq![e],
        ),
{
    reveal_strlit("[Service]");
    reveal_strlit("Environment=");
    let header = "[Service]"@;
    let h = with_section(content, header);
    let search = env_search(e)->0;
    let one = seq![e];
    assert(one.drop_last() =~= Seq::<Seq<char>>::empty());
    assert(one.last() == e);
    assert(set_env_lines(h, Seq::<Seq<char>>::empty()) == h);
    assert(set_env_lines(h, one) == set_env_line(set_env_lines(h, one.drop_last()), one.last()));
    assert(env_override_content(content, one) == set_env_line(h, e));
    assert(!contains_char(h, '\r')) by {
        if contains_char(h, '\r') {
            let i = choose|i: int| 0 <= i < h.len() && h[i] == '\r';
            if h != content {
                let c = terminated(content);
                assert(h == c + header + seq!['\n']);
                if i < content.len() {
                    assert(c[i] == content[i]);
                    assert(contains_char(content, '\r'));
                }
            }
        }
    }
    let r1 = set_env_line(h, e);
    lemma_section_added(content, header);
    assert(contains(r1, header)) by {
        if has_env(lines(h), search) {
            let m = replace_env(lines(h), search, e);
            let j = choose|j: int| 0 <= j < lines(h).len() && lines(h)[j] == header;
            assert(!sets_env(header, search)) by {
                assert(!is_ws(header[0]) && !is_ws(header.last()));
                assert(trim_start(header) == header);
                assert(trim(header) == header);
                if starts_with(header, search) {
                    assert(search[0] == 'E');
                    assert(header.subrange(0, search.len() as int)[0] == header[0]);
                }
            }
            assert(m[j] == header);
            lemma_join_contains(m, j);
            if !(join_lines(m).len() > 0 && join_lines(m).last() == '\n') {
                lemma_contains_extend(join_lines(m), seq!['\n'], header);
                assert(join_lines(m).push('\n') =~= join_lines(m) + seq!['\n']);
            }
        } else {
            let base = newline_ended(h);
            if !(h.len() > 0 && h.last() == '\n') {
                lemma_contains_extend(h, seq!['\n'], header);
                assert(h.push('\n') =~= h + seq!['\n']);
            }
            lemma_contains_extend(base, e + seq!['\n'], header);
            assert(base + e + seq!['\n'] =~= base + (e + seq!['\n']));
        }
    }
    assert(with_section(r1, header) == r1);
    assert(set_env_lines(r1, Seq::<Seq<char>>::empty()) == r1);
    assert(set_env_lines(r1, one) == set_env_line(set_env_lines(r1, one.drop_last()), one.last()));
    assert(env_override_content(r1, one) == set_env_line(r1, e));
    law_env_line_idempotent(h, e);
}

/// The `[mysqld]` header is added at most once: a second pass finds it.
pub proof fn law_mysqld_header_once(file: Seq<char>, content: Seq<char>)
    ensures
        with_mysqld_header(file, with_mysqld_header(file, content)) == with_mysqld_header(
            file,
            content,
        ),
{
    law_section_header_once(content, "[mysqld]"@);
}

/// A section header (`[mysqld]`, `[Service]`) is added at most once: a
/// second pass finds the one the first pass added.
pub proof fn law_section_header_once(content: Seq<char>, header: Seq<char>)
    ensures
        with_section(with_section(content, header), header) == with_section(content, header),
{
    lemma_section_added(content, header);
}

proof fn lemma_section_added(content: Seq<char>, header: Seq<char>)
    ensures
        contains(with_section(content, header), header),
{
    if !contains(content, header) {
        let c = terminated(content);
        let r = c + header + seq!['\n'];
        assert(r.subrange(c.len() as int, (c.len() + header.len()) as int) =~= header);
        assert(crate::text::matches_at(r, header, c.len() as int));
    }
}

} // verus!
