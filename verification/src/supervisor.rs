//! Octane ports from the `artisan octane:start` command line, found among
//! the running processes or in Supervisor program configurations.
use vstd::prelude::*;
use crate::fixes::strs_of;
use crate::text::{
    contains, contains_exec, copy_chars, eq_chars, from_chars, lines, lines_exec, parse_u16,
    parse_unsigned, seqs_of, split_ws, split_ws_exec, starts_with, starts_with_exec, to_chars,
    trim, trim_slice,
};

verus! {

/// Ports extracted from a Forge/Supervisor octane:start command.
#[derive(Debug, Clone)]
pub struct OctanePorts {
    /// HTTP port (--port flag), e.g. 8000
    pub http_port: Option<u16>,
    /// Caddy admin API port (--admin-port flag), e.g. 2019
    pub admin_port: Option<u16>,
    /// Host (--host flag), e.g. 127.0.0.1
    pub host: Option<String>,
}

/// Mathematical value of [`OctanePorts`].
pub struct PortsView {
    pub http_port: Option<u16>,
    pub admin_port: Option<u16>,
    pub host: Option<Seq<char>>,
}

impl View for OctanePorts {
    type V = PortsView;

    open spec fn view(&self) -> PortsView {
        PortsView {
            http_port: self.http_port,
            admin_port: self.admin_port,
            host: match self.host {
                Some(h) => Some(h@),
                None => None,
            },
        }
    }
}

pub open spec fn no_ports() -> PortsView {
    PortsView { http_port: None, admin_port: None, host: None }
}

impl Default for OctanePorts {
    fn default() -> (r: Self)
        ensures
            r@ == no_ports(),
    {
        OctanePorts { http_port: None, admin_port: None, host: None }
    }
}

/// `str::parse::<u16>` as a value of the model.
pub open spec fn parse_u16_spec(s: Seq<char>) -> Option<u16> {
    match parse_unsigned(s, u16::MAX as nat) {
        Some(v) => Some(v as u16),
        None => None,
    }
}

/// A numeric flag `name` seen at word `part` (with `next` the following
/// word, if any): `name=value` sets it to the parsed value (none when it
/// does not parse), `name value` likewise; other words keep `cur`.
pub open spec fn number_flag(part: Seq<char>, next: Option<Seq<char>>, name: Seq<char>, cur: Option<u16>) -> Option<u16> {
    if starts_with(part, name + seq!['=']) {
        parse_u16_spec(part.skip(name.len() + 1int))
    } else if part == name {
        match next {
            Some(n) => parse_u16_spec(n),
            None => cur,
        }
    } else {
        cur
    }
}

/// A text flag `name`, read as [`number_flag`] reads a number.
pub open spec fn text_flag(part: Seq<char>, next: Option<Seq<char>>, name: Seq<char>, cur: Option<Seq<char>>) -> Option<Seq<char>> {
    if starts_with(part, name + seq!['=']) {
        Some(part.skip(name.len() + 1int))
    } else if part == name {
        match next {
            Some(n) => Some(n),
            None => cur,
        }
    } else {
        cur
    }
}

pub open spec fn next_word(ws: Seq<Seq<char>>, i: int) -> Option<Seq<char>> {
    if i + 1 < ws.len() {
        Some(ws[i + 1])
    } else {
        None
    }
}

/// The flags read from the first `n` words of a command.
pub open spec fn flags_upto(ws: Seq<Seq<char>>, n: int) -> PortsView
    decreases n,
{
    if n <= 0 {
        no_ports()
    } else {
        let st = flags_upto(ws, n - 1);
        let part = ws[n - 1];
        let next = next_word(ws, n - 1);
        PortsView {
            http_port: number_flag(part, next, "--port"@, st.http_port),
            admin_port: number_flag(part, next, "--admin-port"@, st.admin_port),
            host: text_flag(part, next, "--host"@, st.host),
        }
    }
}

/// The `--port`, `--admin-port` and `--host` flags of a command line; a
/// later flag overrides an earlier one.
pub open spec fn octane_flags(cmd: Seq<char>) -> PortsView {
    flags_upto(split_ws(cmd), split_ws(cmd).len() as int)
}

fn number_flag_exec(part: &[char], next: Option<&Vec<char>>, name: &[char], cur: Option<u16>) -> (r: Option<u16>)
    ensures
        r == number_flag(
            part@,
            match next {
                Some(n) => Some(n@),
                None => None,
            },
            name@,
            cur,
        ),
{
    let mut eq: Vec<char> = copy_chars(name);
    eq.push('=');
    assert(eq@ =~= name@ + seq!['=']);
    if starts_with_exec(part, eq.as_slice()) {
        let rest = &part[eq.len()..part.len()];
        assert(rest@ =~= part@.skip(name@.len() + 1int));
        return match parse_u16(rest) {
            Some(v) => Some(v),
            None => None,
        };
    }
    if eq_chars(part, name) {
        match next {
            Some(n) => match parse_u16(n.as_slice()) {
                Some(v) => Some(v),
                None => None,
            },
            None => cur,
        }
    } else {
        cur
    }
}

fn text_flag_exec(part: &[char], next: Option<&Vec<char>>, name: &[char], cur: Option<String>) -> (r: Option<String>)
    ensures
        match r {
            Some(s) => Some(s@),
            None => None,
        } == text_flag(
            part@,
            match next {
                Some(n) => Some(n@),
                None => None,
            },
            name@,
            match cur {
                Some(c) => Some(c@),
                None => None,
            },
        ),
{
    let mut eq: Vec<char> = copy_chars(name);
    eq.push('=');
    assert(eq@ =~= name@ + seq!['=']);
    if starts_with_exec(part, eq.as_slice()) {
        let rest = &part[eq.len()..part.len()];
        assert(rest@ =~= part@.skip(name@.len() + 1int));
        return Some(from_chars(rest));
    }
    if eq_chars(part, name) {
        match next {
            Some(n) => Some(from_chars(n.as_slice())),
            None => cur,
        }
    } else {
        cur
    }
}

/// Extract --port, --admin-port, and --host flags from an octane:start command line.
pub fn parse_octane_flags(cmd: &str) -> (r: OctanePorts)
    ensures
        r@ == octane_flags(cmd@),
{
    let c = to_chars(cmd);
    let parts = split_ws_exec(c.as_slice());
    let ghost ws = seqs_of(parts@);
    let port = to_chars("--port");
    let admin = to_chars("--admin-port");
    let host = to_chars("--host");
    let mut ports = OctanePorts::default();
    let mut i: usize = 0;
    while i < parts.len()
        invariant
            ws == seqs_of(parts@),
            ws == split_ws(cmd@),
            port@ == "--port"@,
            admin@ == "--admin-port"@,
            host@ == "--host"@,
            i <= parts@.len(),
            ports@ == flags_upto(ws, i as int),
        decreases parts@.len() - i,
    {
        let part = parts[i].as_slice();
        let next: Option<&Vec<char>> = if i + 1 < parts.len() {
            Some(&parts[i + 1])
        } else {
            None
        };
        proof {
            assert(ws[i as int] == part@);
            if i + 1 < parts@.len() {
                assert(ws[i + 1] == parts@[i + 1]@);
            }
        }
        let http_port = number_flag_exec(part, next, port.as_slice(), ports.http_port);
        let admin_port = number_flag_exec(part, next, admin.as_slice(), ports.admin_port);
        let h = text_flag_exec(part, next, host.as_slice(), ports.host);
        ports = OctanePorts { http_port, admin_port, host: h };
        i += 1;
    }
    ports
}

// ---------------------------------------------------------------------
// Finding the command
// ---------------------------------------------------------------------

/// The first of `xs` that satisfies `p`.
pub open spec fn first_where(xs: Seq<Seq<char>>, p: spec_fn(Seq<char>) -> bool) -> Option<Seq<char>>
    decreases xs.len(),
{
    if xs.len() == 0 {
        None
    } else if p(xs[0]) {
        Some(xs[0])
    } else {
        first_where(xs.drop_first(), p)
    }
}

proof fn lemma_first_where_step(xs: Seq<Seq<char>>, p: spec_fn(Seq<char>) -> bool, k: int)
    requires
        0 <= k < xs.len(),
        !p(xs[k]),
    ensures
        first_where(xs.skip(k), p) == first_where(xs.skip(k + 1), p),
{
    assert(xs.skip(k)[0] == xs[k]);
    assert(xs.skip(k).drop_first() =~= xs.skip(k + 1));
}

/// A process line that runs octane:start for the app: it names the app, or
/// artisan (any octane:start when no app is given).
pub open spec fn octane_process(line: Seq<char>, app: Seq<char>) -> bool {
    contains(line, "octane:start"@) && (app.len() == 0 || contains(line, app) || contains(
        line,
        "artisan"@,
    ))
}

/// The ports of the first running octane:start process for the app, from
/// the listing of process command lines (`ps -eo args`, one per line).
pub open spec fn ports_from_processes(ps: Seq<char>, app: Seq<char>) -> Option<PortsView> {
    match first_where(lines(ps), |l: Seq<char>| octane_process(l, app)) {
        Some(l) => Some(octane_flags(l)),
        None => None,
    }
}

proof fn lemma_first_where_found(xs: Seq<Seq<char>>, p: spec_fn(Seq<char>) -> bool, i: int)
    requires
        0 <= i < xs.len(),
        p(xs[i]),
    ensures
        first_where(xs, p) is Some,
        exists|j: int| 0 <= j <= i && first_where(xs, p) == Some(#[trigger] xs[j]) && p(xs[j]),
    decreases xs.len(),
{
    if !p(xs[0]) {
        assert(xs.drop_first()[i - 1] == xs[i]);
        lemma_first_where_found(xs.drop_first(), p, i - 1);
        let j = choose|j: int|
            0 <= j <= i - 1 && first_where(xs.drop_first(), p) == Some(#[trigger] xs.drop_first()[j])
                && p(xs.drop_first()[j]);
        assert(xs.drop_first()[j] == xs[j + 1]);
    } else {
        assert(first_where(xs, p) == Some(xs[0]));
    }
}

/// A running `octane:start` started through artisan, or naming the app (or
/// any one when no app is given), is always found, whatever the app path:
/// the ports come from the flags of a process line at or before it that
/// runs `octane:start`.
pub proof fn law_octane_process_found(ps: Seq<char>, app: Seq<char>, i: int)
    requires
        0 <= i < lines(ps).len(),
        contains(lines(ps)[i], "octane:start"@),
        contains(lines(ps)[i], "artisan"@) || contains(lines(ps)[i], app) || app.len() == 0,
    ensures
        ports_from_processes(ps, app) is Some,
        exists|j: int|
            0 <= j <= i && contains(#[trigger] lines(ps)[j], "octane:start"@) && ports_from_processes(ps, app)
                == Some(octane_flags(lines(ps)[j])),
{
    let p = |l: Seq<char>| octane_process(l, app);
    lemma_first_where_found(lines(ps), p, i);
    let j = choose|j: int|
        0 <= j <= i && first_where(lines(ps), p) == Some(#[trigger] lines(ps)[j]) && p(lines(ps)[j]);
    assert(contains(lines(ps)[j], "octane:start"@));
}

/// Parse octane:start flags from the listing of running processes.
pub fn detect_from_process(ps_output: &str, app_path: &str) -> (r: Option<OctanePorts>)
    ensures
        match r {
            Some(p) => ports_from_processes(ps_output@, app_path@) == Some(p@),
            None => ports_from_processes(ps_output@, app_path@) is None,
        },
{
    let c = to_chars(ps_output);
    let ls = lines_exec(c.as_slice());
    let ghost lv = seqs_of(ls@);
    let ghost p = |l: Seq<char>| octane_process(l, app_path@);
    let app = to_chars(app_path);
    let octane = to_chars("octane:start");
    let artisan = to_chars("artisan");
    let mut k: usize = 0;
    assert(lv.skip(0) =~= lv);
    while k < ls.len()
        invariant
            lv == seqs_of(ls@),
            lv == lines(ps_output@),
            app@ == app_path@,
            octane@ == "octane:start"@,
            artisan@ == "artisan"@,
            k <= ls@.len(),
            p == (|l: Seq<char>| octane_process(l, app_path@)),
            first_where(lv, p) == first_where(lv.skip(k as int), p),
        decreases ls@.len() - k,
    {
        let line = ls[k].as_slice();
        assert(lv[k as int] == line@);
        if contains_exec(line, octane.as_slice()) && (app.len() == 0 || contains_exec(
            line,
            app.as_slice(),
        ) || contains_exec(line, artisan.as_slice())) {
            assert(lv.skip(k as int)[0] == line@);
            let s = from_chars(line);
            return Some(parse_octane_flags(s.as_str()));
        }
        proof {
            lemma_first_where_step(lv, p, k as int);
        }
        k += 1;
    }
    assert(lv.skip(k as int).len() == 0);
    None
}

/// The commands of the `command=` lines of the given Supervisor program
/// configurations (lines trimmed; the text after `command=`), in order.
pub open spec fn supervisor_commands(files: Seq<Seq<char>>) -> Seq<Seq<char>>
    decreases files.len(),
{
    if files.len() == 0 {
        seq![]
    } else {
        supervisor_commands(files.drop_last()) + file_commands(lines(files.last()))
    }
}

pub open spec fn file_commands(ls: Seq<Seq<char>>) -> Seq<Seq<char>>
    decreases ls.len(),
{
    if ls.len() == 0 {
        seq![]
    } else {
        file_commands(ls.drop_last()) + if starts_with(trim(ls.last()), "command="@) {
            seq![trim(ls.last()).skip("command="@.len() as int)]
        } else {
            seq![]
        }
    }
}

/// A command that starts Octane for the app.
pub open spec fn app_octane_command(cmd: Seq<char>, app: Seq<char>) -> bool {
    contains(cmd, "octane:start"@) && contains(cmd, app)
}

/// A command that starts Octane with FrankenPHP.
pub open spec fn frankenphp_octane_command(cmd: Seq<char>) -> bool {
    contains(cmd, "octane:start"@) && contains(cmd, "frankenphp"@)
}

/// The ports of the first Supervisor command that starts Octane for the
/// app or, failing that, of the first one that starts Octane with
/// FrankenPHP.
pub open spec fn ports_from_supervisor(files: Seq<Seq<char>>, app: Seq<char>) -> Option<PortsView> {
    let cmds = supervisor_commands(files);
    match first_where(cmds, |c: Seq<char>| app_octane_command(c, app)) {
        Some(c) => Some(octane_flags(c)),
        None => match first_where(cmds, |c: Seq<char>| frankenphp_octane_command(c)) {
            Some(c) => Some(octane_flags(c)),
            None => None,
        },
    }
}

fn all_commands(files: &[String]) -> (r: Vec<Vec<char>>)
    ensures
        seqs_of(r@) == supervisor_commands(strs_of(files@)),
{
    let ghost fv = strs_of(files@);
    let prefix = to_chars("command=");
    let mut out: Vec<Vec<char>> = Vec::new();
    let mut i: usize = 0;
    assert(fv.take(0) =~= Seq::<Seq<char>>::empty());
    assert(seqs_of(out@) =~= supervisor_commands(fv.take(0)));
    while i < files.len()
        invariant
            fv == strs_of(files@),
            prefix@ == "command="@,
            i <= files@.len(),
            seqs_of(out@) == supervisor_commands(fv.take(i as int)),
        decreases files@.len() - i,
    {
        let fc = to_chars(files[i].as_str());
        let ls = lines_exec(fc.as_slice());
        let ghost lv = seqs_of(ls@);
        let ghost base = seqs_of(out@);
        let mut j: usize = 0;
        assert(lv.take(0) =~= Seq::<Seq<char>>::empty());
        assert(base + file_commands(lv.take(0)) =~= base);
        while j < ls.len()
            invariant
                lv == seqs_of(ls@),
                prefix@ == "command="@,
                j <= ls@.len(),
                seqs_of(out@) == base + file_commands(lv.take(j as int)),
            decreases ls@.len() - j,
        {
            let t = trim_slice(ls[j].as_slice());
            proof {
                assert(lv.take(j + 1).drop_last() =~= lv.take(j as int));
                assert(lv.take(j + 1).last() == ls@[j as int]@);
            }
            let ghost before = seqs_of(out@);
            if starts_with_exec(t, prefix.as_slice()) {
                let cmd = copy_chars(&t[prefix.len()..t.len()]);
                assert(cmd@ =~= t@.skip("command="@.len() as int));
                out.push(cmd);
                assert(seqs_of(out@) =~= before.push(cmd@));
                assert(seqs_of(out@) =~= base + file_commands(lv.take(j + 1)));
            } else {
                assert(file_commands(lv.take(j + 1)) =~= file_commands(lv.take(j as int)));
            }
            j += 1;
        }
        proof {
            assert(lv.take(ls@.len() as int) =~= lv);
            assert(fv.take(i + 1).drop_last() =~= fv.take(i as int));
            assert(fv.take(i + 1).last() == files@[i as int]@);
        }
        i += 1;
    }
    assert(fv.take(files@.len() as int) =~= fv);
    out
}

/// Scan the contents of the Supervisor program configurations
/// (`/etc/supervisor/conf.d/*`) for octane:start commands.
pub fn detect_from_supervisor_configs(files: &[String], app_path: &str) -> (r: Option<OctanePorts>)
    ensures
        match r {
            Some(p) => ports_from_supervisor(strs_of(files@), app_path@) == Some(p@),
            None => ports_from_supervisor(strs_of(files@), app_path@) is None,
        },
{
    let cmds = all_commands(files);
    let ghost cv = seqs_of(cmds@);
    let ghost p1 = |c: Seq<char>| app_octane_command(c, app_path@);
    let ghost p2 = |c: Seq<char>| frankenphp_octane_command(c);
    let app = to_chars(app_path);
    let octane = to_chars("octane:start");
    let frank = to_chars("frankenphp");
    let mut k: usize = 0;
    assert(cv.skip(0) =~= cv);
    while k < cmds.len()
        invariant
            cv == seqs_of(cmds@),
            cv == supervisor_commands(strs_of(files@)),
            app@ == app_path@,
            octane@ == "octane:start"@,
            k <= cmds@.len(),
            p1 == (|c: Seq<char>| app_octane_command(c, app_path@)),
            first_where(cv, p1) == first_where(cv.skip(k as int), p1),
        decreases cmds@.len() - k,
    {
        let cmd = cmds[k].as_slice();
        assert(cv[k as int] == cmd@);
        if contains_exec(cmd, octane.as_slice()) && contains_exec(cmd, app.as_slice()) {
            assert(cv.skip(k as int)[0] == cmd@);
            let s = from_chars(cmd);
            return Some(parse_octane_flags(s.as_str()));
        }
        proof {
            lemma_first_where_step(cv, p1, k as int);
        }
        k += 1;
    }
    assert(cv.skip(k as int).len() == 0);
    let mut k: usize = 0;
    assert(cv.skip(0) =~= cv);
    while k < cmds.len()
        invariant
            cv == seqs_of(cmds@),
            cv == supervisor_commands(strs_of(files@)),
            octane@ == "octane:start"@,
            frank@ == "frankenphp"@,
            k <= cmds@.len(),
            p2 == (|c: Seq<char>| frankenphp_octane_command(c)),
            first_where(cv, p1) is None,
            p1 == (|c: Seq<char>| app_octane_command(c, app_path@)),
            first_where(cv, p2) == first_where(cv.skip(k as int), p2),
        decreases cmds@.len() - k,
    {
        let cmd = cmds[k].as_slice();
        assert(cv[k as int] == cmd@);
        if contains_exec(cmd, octane.as_slice()) && contains_exec(cmd, frank.as_slice()) {
            assert(cv.skip(k as int)[0] == cmd@);
            let s = from_chars(cmd);
            return Some(parse_octane_flags(s.as_str()));
        }
        proof {
            lemma_first_where_step(cv, p2, k as int);
        }
        k += 1;
    }
    assert(cv.skip(k as int).len() == 0);
    None
}

/// The Octane ports: from the running processes first (most accurate),
/// then from the Supervisor configurations, else none known.
pub open spec fn octane_ports(ps: Option<Seq<char>>, files: Seq<Seq<char>>, app: Seq<char>) -> PortsView {
    let from_ps = match ps {
        Some(out) => ports_from_processes(out, app),
        None => None,
    };
    match from_ps {
        Some(p) => p,
        None => match ports_from_supervisor(files, app) {
            Some(p) => p,
            None => no_ports(),
        },
    }
}

/// Detect Octane ports from the running processes (`ps_output`, none when
/// `ps` could not run) and the Supervisor configurations (`files`).
pub fn detect_octane_ports(ps_output: &Option<String>, files: &[String], app_path: &str) -> (r: OctanePorts)
    ensures
        r@ == octane_ports(
            match ps_output {
                Some(s) => Some(s@),
                None => None,
            },
            strs_of(files@),
            app_path@,
        ),
{
    if let Some(out) = ps_output {
        if let Some(p) = detect_from_process(out.as_str(), app_path) {
            return p;
        }
    }
    match detect_from_supervisor_configs(files, app_path) {
        Some(p) => p,
        None => OctanePorts::default(),
    }
}

} // verus!
