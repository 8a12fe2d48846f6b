//! FrankenPHP: Caddyfile scanning, admin-API interpretation, and the
//! worker-mode, thread, log-level and symlink findings.
use vstd::prelude::*;
use crate::text::{
    contains, contains_exec, copy_chars, count_char, count_char_exec, eq_chars, is_ws,
    lemma_count_char_bound, lemma_lines_from_bound, lines, lines_exec, parse_u32, parse_u32_spec,
    seqs_of, split_ws, split_ws_exec, starts_with, starts_with_exec, to_chars, trim, trim_end,
    trim_slice, trim_start, eq_ignore_ascii_case, eq_ignore_ascii_case_exec, decimal,
    push_decimal, concat_str, from_chars,
};
use crate::types::{
    push_result, findings, finding, CheckResult, Finding, Status, SystemContext,
};

verus! {

/// Parsed configuration for a specific site from the Caddyfile.
#[derive(Debug, Clone, Copy, PartialEq, Eq, Structural)]
pub struct SiteConfig {
    pub has_worker: bool,
    pub worker_num: Option<u32>,
    pub num_threads: Option<u32>,
    pub has_php_server: bool,
}

impl Default for SiteConfig {
    fn default() -> (r: Self)
        ensures
            r == (SiteConfig { has_worker: false, worker_num: None, num_threads: None, has_php_server: false }),
    {
        SiteConfig { has_worker: false, worker_num: None, num_threads: None, has_php_server: false }
    }
}

/// State of the line-by-line Caddyfile scan.
pub struct ScanState {
    pub cfg: SiteConfig,
    /// Inside the site block whose `root` names the app.
    pub in_site: bool,
    /// Inside the global options block.
    pub in_global: bool,
    /// Current brace depth.
    pub depth: int,
    /// `num_threads` from the global options block.
    pub global_threads: Option<u32>,
    /// The matching site block has been closed; later lines are ignored.
    pub done: bool,
}

pub open spec fn scan_start() -> ScanState {
    ScanState {
        cfg: SiteConfig { has_worker: false, worker_num: None, num_threads: None, has_php_server: false },
        in_site: false,
        in_global: false,
        depth: 0,
        global_threads: None,
        done: false,
    }
}

/// The second whitespace-separated token of `parts`, parsed as `u32`,
/// when present and valid.
pub open spec fn token_u32(parts: Seq<Seq<char>>, i: int) -> Option<u32> {
    if 0 <= i < parts.len() {
        parse_u32_spec(parts[i])
    } else {
        None
    }
}

/// `old` replaced by the parsed token when it parses.
pub open spec fn or_token(parts: Seq<Seq<char>>, i: int, old: Option<u32>) -> Option<u32> {
    if token_u32(parts, i) is Some {
        token_u32(parts, i)
    } else {
        old
    }
}

/// A `root` directive whose path names the app (or its `public` dir).
pub open spec fn root_names_app(t: Seq<char>, app: Seq<char>) -> bool {
    let parts = split_ws(t);
    &&& starts_with(t, "root"@)
    &&& parts.len() > 0
    &&& (contains(parts.last(), app + "/public"@) || contains(parts.last(), app))
}

/// Effect of one Caddyfile line on the scan.
pub open spec fn scan_line(st: ScanState, line: Seq<char>, app: Seq<char>) -> ScanState {
    let t = trim(line);
    let opens = count_char(t, '{');
    let delta = opens - count_char(t, '}');
    let parts = split_ws(t);
    if st.done || starts_with(t, "#"@) || t.len() == 0 {
        st
    } else if st.depth == 0 && t == "{"@ {
        ScanState { in_global: true, depth: st.depth + delta, ..st }
    } else if st.in_global {
        let g = if starts_with(t, "num_threads"@) && parts.len() > 1 {
            token_u32(parts, 1)
        } else {
            st.global_threads
        };
        let is_worker = starts_with(t, "worker"@);
        let wn = if is_worker { or_token(parts, 2, st.cfg.worker_num) } else { st.cfg.worker_num };
        let wn = if starts_with(t, "num "@) { or_token(parts, 1, wn) } else { wn };
        let d = st.depth + delta;
        ScanState {
            cfg: SiteConfig { has_worker: st.cfg.has_worker || is_worker, worker_num: wn, ..st.cfg },
            global_threads: g,
            in_global: d > 0,
            depth: if d <= 0 { 0 } else { d },
            ..st
        }
    } else if st.depth == 0 && opens > 0 {
        ScanState { depth: st.depth + delta, in_site: false, ..st }
    } else if st.depth > 0 {
        let m = st.in_site || root_names_app(t, app);
        let php = st.cfg.has_php_server || (m && starts_with(t, "php_server"@));
        let is_worker = m && starts_with(t, "worker"@);
        let wn = if is_worker { or_token(parts, 2, st.cfg.worker_num) } else { st.cfg.worker_num };
        let is_num = m && starts_with(t, "num "@);
        let is_threads = m && !starts_with(t, "num "@) && starts_with(t, "num_threads"@);
        let wn = if is_num { or_token(parts, 1, wn) } else { wn };
        let nt = if is_threads { or_token(parts, 1, st.cfg.num_threads) } else { st.cfg.num_threads };
        let cfg = SiteConfig {
            has_worker: st.cfg.has_worker || is_worker,
            worker_num: wn,
            num_threads: nt,
            has_php_server: php,
        };
        let d = st.depth + delta;
        if d <= 0 && m {
            ScanState { cfg, in_site: m, depth: d, done: true, ..st }
        } else if d <= 0 {
            ScanState { cfg, in_site: false, depth: 0, ..st }
        } else {
            ScanState { cfg, in_site: m, depth: d, ..st }
        }
    } else {
        ScanState { depth: st.depth + delta, ..st }
    }
}

pub open spec fn scan_lines(ls: Seq<Seq<char>>, st: ScanState, app: Seq<char>) -> ScanState
    decreases ls.len(),
{
    if ls.len() == 0 {
        st
    } else {
        scan_lines(ls.drop_first(), scan_line(st, ls[0], app), app)
    }
}

/// The site configuration a Caddyfile gives the app at path `app`: the
/// scan's result, with the global `num_threads` as fallback.
pub open spec fn site_config_of(content: Seq<char>, app: Seq<char>) -> SiteConfig {
    let st = scan_lines(lines(content), scan_start(), app);
    SiteConfig {
        num_threads: if st.cfg.num_threads is None { st.global_threads } else { st.cfg.num_threads },
        ..st.cfg
    }
}

struct Scan {
    cfg: SiteConfig,
    in_site: bool,
    in_global: bool,
    depth: i64,
    global_threads: Option<u32>,
    done: bool,
}

impl View for Scan {
    type V = ScanState;

    closed spec fn view(&self) -> ScanState {
        ScanState {
            cfg: self.cfg,
            in_site: self.in_site,
            in_global: self.in_global,
            depth: self.depth as int,
            global_threads: self.global_threads,
            done: self.done,
        }
    }
}

struct Pats {
    hash: Vec<char>,
    brace: Vec<char>,
    num_threads: Vec<char>,
    worker: Vec<char>,
    num_sp: Vec<char>,
    root: Vec<char>,
    php_server: Vec<char>,
}

impl Pats {
    spec fn wf(&self) -> bool {
        &&& self.hash@ == "#"@
        &&& self.brace@ == "{"@
        &&& self.num_threads@ == "num_threads"@
        &&& self.worker@ == "worker"@
        &&& self.num_sp@ == "num "@
        &&& self.root@ == "root"@
        &&& self.php_server@ == "php_server"@
    }

    fn new() -> (p: Self)
        ensures
            p.wf(),
    {
        Pats {
            hash: to_chars("#"),
            brace: to_chars("{"),
            num_threads: to_chars("num_threads"),
            worker: to_chars("worker"),
            num_sp: to_chars("num "),
            root: to_chars("root"),
            php_server: to_chars("php_server"),
        }
    }
}

fn token_u32_exec(parts: &Vec<Vec<char>>, i: usize) -> (r: Option<u32>)
    ensures
        r == token_u32(seqs_of(parts@), i as int),
{
    if i < parts.len() {
        parse_u32(parts[i].as_slice())
    } else {
        None
    }
}

fn or_token_exec(parts: &Vec<Vec<char>>, i: usize, old: Option<u32>) -> (r: Option<u32>)
    ensures
        r == or_token(seqs_of(parts@), i as int, old),
{
    match token_u32_exec(parts, i) {
        Some(v) => Some(v),
        None => old,
    }
}

fn root_names_app_exec(t: &[char], parts: &Vec<Vec<char>>, app: &[char], public: &[char], pats: &Pats) -> (r: bool)
    requires
        pats.wf(),
        seqs_of(parts@) == split_ws(t@),
        public@ == app@ + "/public"@,
    ensures
        r == root_names_app(t@, app@),
{
    if starts_with_exec(t, pats.root.as_slice()) && parts.len() > 0 {
        let last = parts[parts.len() - 1].as_slice();
        assert(last@ == split_ws(t@).last());
        contains_exec(last, public) || contains_exec(last, app)
    } else {
        false
    }
}

fn scan_line_exec(st: Scan, line: &[char], app: &[char], public: &[char], pats: &Pats) -> (r: Scan)
    requires
        pats.wf(),
        public@ == app@ + "/public"@,
        line@.len() <= 0x7fff_ffff,
        -0x4000_0000_0000_0000 <= st.depth <= 0x4000_0000_0000_0000,
    ensures
        r@ == scan_line(st@, line@, app@),
        -0x4000_0000_0000_0000 - 0x8000_0000 <= r.depth <= 0x4000_0000_0000_0000 + 0x8000_0000,
        r.depth == 0 || -0x8000_0000 <= r.depth - st.depth <= 0x8000_0000,
{
    let t = trim_slice(line);
    if st.done || starts_with_exec(t, pats.hash.as_slice()) || t.len() == 0 {
        return st;
    }
    proof {
        lemma_count_char_bound(t@, '{');
        lemma_count_char_bound(t@, '}');
        assert(t@.len() <= line@.len()) by {
            lemma_trim_len(line@);
        }
    }
    let opens = count_char_exec(t, '{');
    let closes = count_char_exec(t, '}');
    let delta: i64 = opens as i64 - closes as i64;
    let parts = split_ws_exec(t);
    let mut st = st;
    if st.depth == 0 && eq_chars(t, pats.brace.as_slice()) {
        st.in_global = true;
        st.depth = st.depth + delta;
        return st;
    }
    if st.in_global {
        if starts_with_exec(t, pats.num_threads.as_slice()) && parts.len() > 1 {
            st.global_threads = token_u32_exec(&parts, 1);
        }
        let is_worker = starts_with_exec(t, pats.worker.as_slice());
        if is_worker {
            st.cfg.has_worker = true;
            st.cfg.worker_num = or_token_exec(&parts, 2, st.cfg.worker_num);
        }
        if starts_with_exec(t, pats.num_sp.as_slice()) {
            st.cfg.worker_num = or_token_exec(&parts, 1, st.cfg.worker_num);
        }
        let d = st.depth + delta;
        st.in_global = d > 0;
        st.depth = if d <= 0 { 0 } else { d };
        return st;
    }
    if st.depth == 0 && opens > 0 {
        st.depth = st.depth + delta;
        st.in_site = false;
        return st;
    }
    if st.depth > 0 {
        let m = st.in_site || root_names_app_exec(t, &parts, app, public, pats);
        if m && starts_with_exec(t, pats.php_server.as_slice()) {
            st.cfg.has_php_server = true;
        }
        if m && starts_with_exec(t, pats.worker.as_slice()) {
            st.cfg.has_worker = true;
            st.cfg.worker_num = or_token_exec(&parts, 2, st.cfg.worker_num);
        }
        let is_num = starts_with_exec(t, pats.num_sp.as_slice());
        if m && is_num {
            st.cfg.worker_num = or_token_exec(&parts, 1, st.cfg.worker_num);
        }
        if m && !is_num && starts_with_exec(t, pats.num_threads.as_slice()) {
            st.cfg.num_threads = or_token_exec(&parts, 1, st.cfg.num_threads);
        }
        let d = st.depth + delta;
        if d <= 0 && m {
            st.in_site = m;
            st.depth = d;
            st.done = true;
        } else if d <= 0 {
            st.in_site = false;
            st.depth = 0;
        } else {
            st.in_site = m;
            st.depth = d;
        }
        return st;
    }
    st.depth = st.depth + delta;
    st
}

proof fn lemma_trim_start_len(s: Seq<char>)
    ensures
        trim_start(s).len() <= s.len(),
    decreases s.len(),
{
    if s.len() > 0 && is_ws(s[0]) {
        lemma_trim_start_len(s.drop_first());
    }
}

proof fn lemma_trim_end_len(s: Seq<char>)
    ensures
        trim_end(s).len() <= s.len(),
    decreases s.len(),
{
    if s.len() > 0 && is_ws(s.last()) {
        lemma_trim_end_len(s.drop_last());
    }
}

proof fn lemma_trim_len(s: Seq<char>)
    ensures
        trim(s).len() <= s.len(),
{
    lemma_trim_start_len(s);
    lemma_trim_end_len(trim_start(s));
}

/// Parse the Caddyfile and extract configuration relevant to the given app.
/// Site blocks are matched by a `root` directive whose path contains the
/// app path; the global options block supplies `frankenphp` worker and
/// thread settings. Handles multiple site blocks for multi-app servers.
pub fn parse_site_config(content: &str, app_path: &str) -> (cfg: SiteConfig)
    requires
        content@.len() <= 0x7fff_ffff,
    ensures
        cfg == site_config_of(content@, app_path@),
{
    let pats = Pats::new();
    let chars = to_chars(content);
    let ls = lines_exec(chars.as_slice());
    let app = to_chars(app_path);
    let mut public = copy_chars(app.as_slice());
    let suffix = to_chars("/public");
    let mut i: usize = 0;
    while i < suffix.len()
        invariant
            i <= suffix@.len(),
            suffix@ == "/public"@,
            public@ == app@ + suffix@.subrange(0, i as int),
        decreases suffix@.len() - i,
    {
        public.push(suffix[i]);
        i += 1;
        assert(public@ =~= app@ + suffix@.subrange(0, i as int));
    }
    assert(suffix@.subrange(0, suffix@.len() as int) =~= suffix@);
    let ghost lv = lines(content@);
    proof {
        lemma_lines_from_bound(content@, seq![]);
    }
    let mut st = Scan {
        cfg: SiteConfig::default(),
        in_site: false,
        in_global: false,
        depth: 0,
        global_threads: None,
        done: false,
    };
    let mut k: usize = 0;
    assert(lv.skip(0) =~= lv);
    while k < ls.len()
        invariant
            pats.wf(),
            public@ == app@ + "/public"@,
            seqs_of(ls@) == lv,
            lv.len() <= content@.len() + 1,
            forall|j: int| 0 <= j < lv.len() ==> #[trigger] lv[j].len() <= content@.len(),
            content@.len() <= 0x7fff_ffff,
            k <= ls@.len(),
            -(k as int) * 0x8000_0000 <= st.depth <= (k as int) * 0x8000_0000,
            scan_lines(lv, scan_start(), app@) == scan_lines(lv.skip(k as int), st@, app@),
        decreases ls@.len() - k,
    {
        assert(lv[k as int] == ls[k as int]@);
        assert(lv.skip(k as int).drop_first() =~= lv.skip(k + 1));
        assert(lv.skip(k as int)[0] == lv[k as int]);
        st = scan_line_exec(st, ls[k].as_slice(), app.as_slice(), public.as_slice(), &pats);
        k += 1;
    }
    let fin = st.cfg;
    SiteConfig {
        num_threads: if fin.num_threads.is_none() { st.global_threads } else { fin.num_threads },
        ..fin
    }
}


// ---------------------------------------------------------------------
// Caddy admin API
// ---------------------------------------------------------------------

/// Configuration detected from the Caddy admin API.
#[derive(Debug, Clone, Copy, PartialEq, Eq, Structural)]
pub struct AdminApiConfig {
    pub has_worker: bool,
    pub worker_count: Option<u32>,
    pub num_threads: Option<u32>,
    pub reachable: bool,
}

impl Default for AdminApiConfig {
    fn default() -> (r: Self)
        ensures
            r == (AdminApiConfig { has_worker: false, worker_count: None, num_threads: None, reachable: false }),
    {
        AdminApiConfig { has_worker: false, worker_count: None, num_threads: None, reachable: false }
    }
}

/// What the checks read from the admin API's `/config/` JSON document:
/// the `num` of each entry of `apps.frankenphp.workers` (when that is an
/// array) and `apps.frankenphp.num_threads` (when it is an unsigned integer).
pub struct AdminJsonFields {
    pub workers: Option<Vec<Option<u64>>>,
    pub num_threads: Option<u64>,
}

impl View for AdminJsonFields {
    type V = (Option<Seq<Option<u64>>>, Option<u64>);

    open spec fn view(&self) -> (Option<Seq<Option<u64>>>, Option<u64>) {
        (
            match self.workers {
                Some(w) => Some(w@),
                None => None,
            },
            self.num_threads,
        )
    }
}

pub open spec fn fields_view(fields: Option<AdminJsonFields>) -> Option<(Option<Seq<Option<u64>>>, Option<u64>)> {
    match fields {
        Some(f) => Some(f@),
        None => None,
    }
}

/// The fields that `serde_json` reads from an admin API response body, or
/// `None` when the body is not valid JSON.
pub uninterp spec fn admin_json_fields(body: Seq<char>) -> Option<(Option<Seq<Option<u64>>>, Option<u64>)>;

/// Parses `body` with `serde_json::from_str` into a `serde_json::Value`
/// and picks `/apps/frankenphp/workers` (each entry's `num` via `as_u64`)
/// and `/apps/frankenphp/num_threads` (via `as_u64`). The contract claims
/// only that the outcome is determined by the body: it is named
/// `admin_json_fields`, and JSON parsing itself is not modelled.
#[verifier::external_body]
fn read_admin_json(body: &str) -> (r: Option<AdminJsonFields>)
    ensures
        match r {
            Some(f) => admin_json_fields(body@) == Some(f@),
            None => admin_json_fields(body@) is None,
        },
{
    let json: serde_json::Value = serde_json::from_str(body).ok()?;
    Some(AdminJsonFields {
        workers: json.pointer("/apps/frankenphp/workers").and_then(|v| v.as_array()).map(
            |ws| ws.iter().map(|w| w.get("num").and_then(|n| n.as_u64())).collect(),
        ),
        num_threads: json.pointer("/apps/frankenphp/num_threads").and_then(|v| v.as_u64()),
    })
}

/// Sum of the worker counts (each truncated to `u32`) that are present.
pub open spec fn worker_total(ws: Seq<Option<u64>>) -> nat
    decreases ws.len(),
{
    if ws.len() == 0 {
        0
    } else {
        worker_total(ws.drop_last()) + match ws.last() {
            Some(n) => (n as u32) as nat,
            None => 0nat,
        }
    }
}

/// The worker total fits the `u32` it is summed into.
pub open spec fn worker_total_fits(fields: Option<(Option<Seq<Option<u64>>>, Option<u64>)>) -> bool {
    match fields {
        Some((Some(ws), _)) => worker_total(ws) <= u32::MAX,
        _ => true,
    }
}

/// Configuration reported by a reachable admin API whose body yielded `fields`.
pub open spec fn admin_config_of(fields: Option<(Option<Seq<Option<u64>>>, Option<u64>)>) -> AdminApiConfig {
    match fields {
        None => AdminApiConfig { has_worker: false, worker_count: None, num_threads: None, reachable: true },
        Some((ws, nt)) => {
            let (has_worker, worker_count) = match ws {
                Some(w) if w.len() > 0 => (
                    true,
                    if worker_total(w) > 0 { Some(worker_total(w) as u32) } else { None },
                ),
                _ => (false, None),
            };
            AdminApiConfig {
                has_worker,
                worker_count,
                num_threads: match nt {
                    Some(n) => Some(n as u32),
                    None => None,
                },
                reachable: true,
            }
        },
    }
}

/// Interprets the JSON fields of a reachable admin API: workers are
/// configured when the workers array is non-empty, their count is the sum
/// of their `num` values (when positive), and `num_threads` is taken as is.
pub fn admin_config_from_fields(fields: Option<AdminJsonFields>) -> (r: AdminApiConfig)
    requires
        worker_total_fits(fields_view(fields)),
    ensures
        r == admin_config_of(fields_view(fields)),
{
    let mut config = AdminApiConfig::default();
    config.reachable = true;
    match fields {
        None => config,
        Some(f) => {
            let ghost fv = f@;
            match f.workers {
                Some(ws) => {
                    if ws.len() > 0 {
                        config.has_worker = true;
                        let mut total: u32 = 0;
                        let mut i: usize = 0;
                        assert(ws@.subrange(0, 0) =~= Seq::<Option<u64>>::empty());
                        while i < ws.len()
                            invariant
                                i <= ws@.len(),
                                worker_total(ws@) <= u32::MAX,
                                total == worker_total(ws@.subrange(0, i as int)),
                            decreases ws@.len() - i,
                        {
                            assert(ws@.subrange(0, i + 1).drop_last() =~= ws@.subrange(0, i as int));
                            proof {
                                lemma_worker_total_prefix(ws@, i + 1);
                            }
                            match ws[i] {
                                Some(n) => {
                                    total = total + n as u32;
                                },
                                None => {},
                            }
                            i += 1;
                        }
                        assert(ws@.subrange(0, ws@.len() as int) =~= ws@);
                        if total > 0 {
                            config.worker_count = Some(total);
                        }
                    }
                },
                None => {},
            }
            match f.num_threads {
                Some(nt) => {
                    config.num_threads = Some(nt as u32);
                },
                None => {},
            }
            config
        },
    }
}

proof fn lemma_worker_total_prefix(ws: Seq<Option<u64>>, k: int)
    requires
        0 <= k <= ws.len(),
    ensures
        worker_total(ws.subrange(0, k)) <= worker_total(ws),
    decreases ws.len() - k,
{
    if k < ws.len() {
        lemma_worker_total_prefix(ws, k + 1);
        assert(ws.subrange(0, k + 1).drop_last() =~= ws.subrange(0, k));
    } else {
        assert(ws.subrange(0, k) =~= ws);
    }
}

/// The local ports on which the admin API is looked for, in turn: Caddy's
/// default first, then the one that Octane configures.
pub fn admin_api_ports() -> (r: [u16; 2])
    ensures
        r@ == seq![2019u16, 2020u16],
{
    let r: [u16; 2] = [2019, 2020];
    assert(r@ =~= seq![2019u16, 2020u16]);
    r
}

/// The configuration reported by a reachable admin API that answered
/// `body`, or `None` where the worker counts overflow the `u32` sum (where
/// the unchecked sum would abort).
pub fn admin_config_from_body(body: &str) -> (r: Option<AdminApiConfig>)
    ensures
        worker_total_fits(admin_json_fields(body@)) ==> r == Some(admin_config_of(admin_json_fields(body@))),
        !worker_total_fits(admin_json_fields(body@)) ==> r is None,
{
    let fields = read_admin_json(body);
    let fits = match &fields {
        Some(f) => match &f.workers {
            Some(ws) => worker_total_fits_exec(ws),
            None => true,
        },
        None => true,
    };
    if fits {
        proof {
            assert(fields_view(fields) == admin_json_fields(body@));
        }
        Some(admin_config_from_fields(fields))
    } else {
        None
    }
}

fn worker_total_fits_exec(ws: &Vec<Option<u64>>) -> (r: bool)
    ensures
        r == (worker_total(ws@) <= u32::MAX),
{
    let mut total: u64 = 0;
    let mut i: usize = 0;
    assert(ws@.subrange(0, 0) =~= Seq::<Option<u64>>::empty());
    while i < ws.len()
        invariant
            i <= ws@.len(),
            total == worker_total(ws@.subrange(0, i as int)),
            total <= u32::MAX,
        decreases ws@.len() - i,
    {
        assert(ws@.subrange(0, i + 1).drop_last() =~= ws@.subrange(0, i as int));
        let add: u64 = match ws[i] {
            Some(n) => (n as u32) as u64,
            None => 0,
        };
        if total + add > u32::MAX as u64 {
            proof {
                lemma_worker_total_prefix(ws@, i + 1);
            }
            return false;
        }
        total = total + add;
        i += 1;
    }
    assert(ws@.subrange(0, ws@.len() as int) =~= ws@);
    true
}

// ---------------------------------------------------------------------
// Findings
// ---------------------------------------------------------------------

pub open spec fn worker_mode_finding(site: Option<SiteConfig>, admin: AdminApiConfig) -> Finding {
    let label = "FrankenPHP Worker Mode"@;
    if admin.has_worker {
        finding(Status::Pass, label, match admin.worker_count {
            Some(n) => "enabled ("@ + decimal(n as nat) + " workers, via admin API)"@,
            None => "enabled (via admin API)"@,
        })
    } else {
        match site {
            Some(c) if c.has_worker => finding(Status::Pass, label, match c.worker_num {
                Some(n) => "enabled ("@ + decimal(n as nat) + " workers)"@,
                None => "enabled"@,
            }),
            Some(c) if c.has_php_server => finding(
                Status::Warn,
                label,
                "php_server without worker — enable worker mode for significantly better performance"@,
            ),
            _ => if admin.reachable {
                finding(Status::Warn, label, "not enabled — enable worker mode for significantly better performance"@)
            } else {
                finding(
                    Status::Warn,
                    label,
                    "Could not detect worker configuration (no Caddyfile found, admin API unreachable)"@,
                )
            },
        }
    }
}

fn lit_num_lit(a: &str, n: u64, b: &str) -> (r: String)
    ensures
        r@ == a@ + decimal(n as nat) + b@,
{
    let mut r = String::from_str(a);
    push_decimal(&mut r, n);
    r.append(b);
    r
}

/// Check if worker mode is configured for this app. The admin API (runtime
/// truth) is preferred over static Caddyfile parsing.
pub fn check_worker_mode(site_config: &Option<SiteConfig>, admin_config: &AdminApiConfig, results: &mut Vec<CheckResult>)
    ensures
        findings(final(results)@) == findings(old(results)@).push(worker_mode_finding(*site_config, *admin_config)),
{
    let label = "FrankenPHP Worker Mode";
    if admin_config.has_worker {
        let r = match admin_config.worker_count {
            Some(n) => {
                let d = lit_num_lit("enabled (", n as u64, " workers, via admin API)");
                CheckResult::ok(label, d.as_str())
            },
            None => CheckResult::ok(label, "enabled (via admin API)"),
        };
        push_result(results, r);
        return;
    }
    let r = match site_config {
        Some(cfg) if cfg.has_worker => match cfg.worker_num {
            Some(n) => {
                let d = lit_num_lit("enabled (", n as u64, " workers)");
                CheckResult::ok(label, d.as_str())
            },
            None => CheckResult::ok(label, "enabled"),
        },
        Some(cfg) if cfg.has_php_server => CheckResult::warn(
            label,
            "php_server without worker — enable worker mode for significantly better performance",
        ),
        _ => if admin_config.reachable {
            CheckResult::warn(label, "not enabled — enable worker mode for significantly better performance")
        } else {
            CheckResult::warn(
                label,
                "Could not detect worker configuration (no Caddyfile found, admin API unreachable)",
            )
        },
    };
    push_result(results, r);
}

pub open spec fn num_threads_finding(site: Option<SiteConfig>, admin: AdminApiConfig, cpu_cores: nat) -> Finding {
    let label = "FrankenPHP num_threads"@;
    let default_threads = cpu_cores * 2;
    match admin.num_threads {
        Some(nt) => finding(Status::Pass, label, decimal(nt as nat) + " (via admin API)"@),
        None => match site {
            Some(cfg) => match (cfg.worker_num, cfg.num_threads) {
                (Some(n), _) => finding(Status::Pass, label, decimal(n as nat) + " (explicitly configured)"@),
                (None, Some(n)) => finding(Status::Pass, label, decimal(n as nat) + " (explicitly configured)"@),
                (None, None) => finding(
                    Status::Warn,
                    label,
                    "using default ("@ + decimal(default_threads) + " = 2×"@ + decimal(cpu_cores)
                        + " CPUs) — tune based on load tests"@,
                ),
            },
            None => finding(
                Status::Warn,
                label,
                "could not read Caddyfile — default is "@ + decimal(default_threads) + " (2×"@
                    + decimal(cpu_cores) + " CPUs)"@,
            ),
        },
    }
}

/// Check whether `num_threads` is explicitly configured (admin API first,
/// then the site's worker count or `num_threads`).
pub fn check_num_threads(
    site_config: &Option<SiteConfig>,
    admin_config: &AdminApiConfig,
    ctx: &SystemContext,
    results: &mut Vec<CheckResult>,
)
    requires
        ctx.cpu_cores * 2 <= usize::MAX,
    ensures
        findings(final(results)@) == findings(old(results)@).push(
            num_threads_finding(*site_config, *admin_config, ctx.cpu_cores as nat),
        ),
{
    let label = "FrankenPHP num_threads";
    let default_threads = ctx.cpu_cores * 2;
    let r = match admin_config.num_threads {
        Some(nt) => {
            let mut d = String::new();
            push_decimal(&mut d, nt as u64);
            d.append(" (via admin API)");
            CheckResult::ok(label, d.as_str())
        },
        None => match site_config {
            Some(cfg) => {
                let explicit = match cfg.worker_num {
                    Some(n) => Some(n),
                    None => cfg.num_threads,
                };
                match explicit {
                    Some(n) => {
                        let mut d = String::new();
                        push_decimal(&mut d, n as u64);
                        d.append(" (explicitly configured)");
                        CheckResult::ok(label, d.as_str())
                    },
                    None => {
                        let mut d = lit_num_lit("using default (", default_threads as u64, " = 2×");
                        push_decimal(&mut d, ctx.cpu_cores as u64);
                        d.append(" CPUs) — tune based on load tests");
                        CheckResult::warn(label, d.as_str())
                    },
                }
            },
            None => {
                let mut d = lit_num_lit("could not read Caddyfile — default is ", default_threads as u64, " (2×");
                push_decimal(&mut d, ctx.cpu_cores as u64);
                d.append(" CPUs)");
                CheckResult::warn(label, d.as_str())
            },
        },
    };
    push_result(results, r);
}

/// A line that sets the log level to `DEBUG` (in any ASCII case).
pub open spec fn is_debug_level_line(line: Seq<char>) -> bool {
    let t = trim(line);
    starts_with(t, "level"@) && split_ws(t).len() > 1 && eq_ignore_ascii_case(split_ws(t)[1], "DEBUG"@)
}

pub open spec fn has_debug_level(content: Seq<char>) -> bool {
    exists|i: int| 0 <= i < lines(content).len() && #[trigger] is_debug_level_line(lines(content)[i])
}

pub open spec fn log_level_finding(content: Seq<char>) -> Finding {
    if has_debug_level(content) {
        finding(Status::Warn, "FrankenPHP Log Level"@, "DEBUG — logging at debug level reduces performance (I/O + allocations)"@)
    } else {
        finding(Status::Pass, "FrankenPHP Log Level"@, "not set to DEBUG"@)
    }
}

/// Check if Caddy's log level is set to debug (expensive).
pub fn check_log_level(caddyfile_content: &str, results: &mut Vec<CheckResult>)
    ensures
        findings(final(results)@) == findings(old(results)@).push(log_level_finding(caddyfile_content@)),
{
    let chars = to_chars(caddyfile_content);
    let ls = lines_exec(chars.as_slice());
    let level = to_chars("level");
    let debug = to_chars("DEBUG");
    let ghost lv = lines(caddyfile_content@);
    let mut found = false;
    let mut i: usize = 0;
    while i < ls.len() && !found
        invariant
            seqs_of(ls@) == lv,
            lv == lines(caddyfile_content@),
            level@ == "level"@,
            debug@ == "DEBUG"@,
            i <= ls@.len(),
            found ==> has_debug_level(caddyfile_content@),
            !found ==> forall|j: int| 0 <= j < i ==> !#[trigger] is_debug_level_line(lv[j]),
        decreases ls@.len() - i + if found { 0int } else { 1int },
    {
        assert(lv[i as int] == ls[i as int]@);
        let t = trim_slice(ls[i].as_slice());
        if starts_with_exec(t, level.as_slice()) {
            let parts = split_ws_exec(t);
            if parts.len() > 1 && eq_ignore_ascii_case_exec(parts[1].as_slice(), debug.as_slice()) {
                assert(is_debug_level_line(lv[i as int]));
                found = true;
            }
        }
        if !found {
            i += 1;
        }
    }
    let r = if found {
        CheckResult::warn(
            "FrankenPHP Log Level",
            "DEBUG — logging at debug level reduces performance (I/O + allocations)",
        )
    } else {
        CheckResult::ok("FrankenPHP Log Level", "not set to DEBUG")
    };
    push_result(results, r);
}


/// What `symlink_metadata` reported for a path.
#[derive(Debug, Clone, Copy, PartialEq, Eq, Structural)]
pub enum MetaKind {
    /// The path is a symbolic link.
    Symlink,
    /// The path exists and is not a symbolic link.
    Other,
    /// The metadata could not be read.
    Unreadable,
}

/// Filesystem facts about the document root of an app.
#[derive(Debug, Clone, Copy, PartialEq, Eq, Structural)]
pub struct SymlinkFacts {
    /// Metadata of `{app_path}/public`.
    pub public_meta: MetaKind,
    /// Metadata of `app_path` itself.
    pub app_meta: MetaKind,
    /// Whether `{app_path}/public` exists (following links).
    pub public_exists: bool,
}

pub open spec fn symlink_findings(app: Seq<char>, facts: SymlinkFacts) -> Seq<Finding> {
    let label = "FrankenPHP Symlink Root"@;
    let public = app + "/public"@;
    match facts.public_meta {
        MetaKind::Symlink => seq![finding(
            Status::Warn,
            label,
            public + " is a symlink — FrankenPHP resolves it on every request, consider using the real path"@,
        )],
        MetaKind::Other => if facts.app_meta == MetaKind::Symlink {
            seq![finding(Status::Info, label, app + " is a symlink — ensure FrankenPHP root uses the resolved path"@)]
        } else {
            seq![finding(Status::Pass, label, "document root is not a symlink"@)]
        },
        MetaKind::Unreadable => if facts.public_exists {
            seq![]
        } else {
            seq![finding(Status::Info, label, public + " not found — skipping symlink check"@)]
        },
    }
}

/// Workers reported by the admin API decide the worker-mode finding, whatever
/// the Caddyfile says: it passes, as it would with no Caddyfile at all.
pub proof fn law_admin_api_overrides_caddyfile(site: Option<SiteConfig>, admin: AdminApiConfig)
    requires
        admin.has_worker,
    ensures
        worker_mode_finding(site, admin) == worker_mode_finding(None, admin),
        worker_mode_finding(site, admin).status == Status::Pass,
{
}

/// Check whether the document root is a symlink: FrankenPHP resolves it on
/// every request unless disabled.
pub fn check_symlink_root(app_path: &str, facts: SymlinkFacts, results: &mut Vec<CheckResult>)
    ensures
        findings(final(results)@) == findings(old(results)@) + symlink_findings(app_path@, facts),
{
    let label = "FrankenPHP Symlink Root";
    let public_path = concat_str(app_path, "/public");
    match facts.public_meta {
        MetaKind::Symlink => {
            let mut d = public_path;
            d.append(" is a symlink — FrankenPHP resolves it on every request, consider using the real path");
            push_result(results, CheckResult::warn(label, d.as_str()));
        },
        MetaKind::Other => {
            if facts.app_meta == MetaKind::Symlink {
                let d = concat_str(app_path, " is a symlink — ensure FrankenPHP root uses the resolved path");
                push_result(results, CheckResult::info(label, d.as_str()));
            } else {
                push_result(results, CheckResult::ok(label, "document root is not a symlink"));
            }
        },
        MetaKind::Unreadable => {
            if !facts.public_exists {
                let mut d = public_path;
                d.append(" not found — skipping symlink check");
                push_result(results, CheckResult::info(label, d.as_str()));
            }
        },
    }
    assert(findings(results@) =~= findings(old(results)@) + symlink_findings(app_path@, facts));
}

/// Outcome of running `frankenphp version`.
pub enum VersionOutcome {
    /// The command ran; its standard output and standard error.
    Output { stdout: String, stderr: String },
    /// The command could not be run; the error message.
    Failed { error: String },
}

pub open spec fn version_finding(v: VersionOutcome) -> Finding {
    match v {
        VersionOutcome::Output { stdout, stderr } => if trim(stdout@).len() == 0 {
            finding(Status::Info, "FrankenPHP Version"@, trim(stderr@))
        } else {
            finding(Status::Info, "FrankenPHP Version"@, trim(stdout@))
        },
        VersionOutcome::Failed { error } => finding(
            Status::Warn,
            "FrankenPHP Version"@,
            "Could not determine: "@ + error@,
        ),
    }
}

/// The version finding: the trimmed standard output, or the trimmed
/// standard error when the output is empty.
pub fn version_result(v: &VersionOutcome) -> (r: CheckResult)
    ensures
        r@ == version_finding(*v),
{
    match v {
        VersionOutcome::Output { stdout, stderr } => {
            let out = to_chars(stdout.as_str());
            let t = trim_slice(out.as_slice());
            if t.len() == 0 {
                let err = to_chars(stderr.as_str());
                let te = from_chars(trim_slice(err.as_slice()));
                CheckResult::info("FrankenPHP Version", te.as_str())
            } else {
                let tv = from_chars(t);
                CheckResult::info("FrankenPHP Version", tv.as_str())
            }
        },
        VersionOutcome::Failed { error } => {
            let d = concat_str("Could not determine: ", error.as_str());
            CheckResult::warn("FrankenPHP Version", d.as_str())
        },
    }
}

/// Facts gathered about the FrankenPHP installation of an app.
pub struct FrankenphpFacts {
    pub binary_exists: bool,
    pub version: VersionOutcome,
    /// Content of the active Caddyfile, when one was found and read.
    pub caddyfile: Option<String>,
    pub admin: AdminApiConfig,
    pub symlink: SymlinkFacts,
}

pub open spec fn frankenphp_findings(bin: Seq<char>, app: Seq<char>, facts: FrankenphpFacts, cpu_cores: nat) -> Seq<Finding> {
    if !facts.binary_exists {
        seq![finding(Status::Fail, "FrankenPHP Binary"@, bin + " not found"@)]
    } else {
        let site = match facts.caddyfile {
            Some(c) => Some(site_config_of(c@, app)),
            None => None,
        };
        seq![
            finding(Status::Pass, "FrankenPHP Binary"@, bin + " found"@),
            version_finding(facts.version),
            worker_mode_finding(site, facts.admin),
            num_threads_finding(site, facts.admin, cpu_cores),
        ] + match facts.caddyfile {
            Some(c) => seq![log_level_finding(c@)],
            None => seq![],
        } + symlink_findings(app, facts.symlink)
    }
}

/// FrankenPHP findings for an app: binary presence, version, worker mode,
/// thread tuning, log level and document-root symlinks.
pub fn check(frankenphp_bin: &str, app_path: &str, facts: &FrankenphpFacts, ctx: &SystemContext) -> (results: Vec<CheckResult>)
    requires
        ctx.cpu_cores * 2 <= usize::MAX,
        facts.caddyfile matches Some(c) ==> c@.len() <= 0x7fff_ffff,
    ensures
        findings(results@) == frankenphp_findings(frankenphp_bin@, app_path@, *facts, ctx.cpu_cores as nat),
{
    let mut results: Vec<CheckResult> = Vec::new();
    if !facts.binary_exists {
        let d = concat_str(frankenphp_bin, " not found");
        push_result(&mut results, CheckResult::fail("FrankenPHP Binary", d.as_str()));
        assert(findings(results@) =~= frankenphp_findings(frankenphp_bin@, app_path@, *facts, ctx.cpu_cores as nat));
        return results;
    }
    let d = concat_str(frankenphp_bin, " found");
    push_result(&mut results, CheckResult::ok("FrankenPHP Binary", d.as_str()));
    push_result(&mut results, version_result(&facts.version));
    let site = match &facts.caddyfile {
        Some(c) => Some(parse_site_config(c.as_str(), app_path)),
        None => None,
    };
    check_worker_mode(&site, &facts.admin, &mut results);
    check_num_threads(&site, &facts.admin, ctx, &mut results);
    let ghost mid = findings(results@);
    match &facts.caddyfile {
        Some(c) => check_log_level(c.as_str(), &mut results),
        None => {},
    }
    check_symlink_root(app_path, facts.symlink, &mut results);
    assert(findings(results@) =~= frankenphp_findings(frankenphp_bin@, app_path@, *facts, ctx.cpu_cores as nat));
    results
}

// ---------------------------------------------------------------------
// Locating the Caddyfile
// ---------------------------------------------------------------------

/// The Caddyfile locations tried in order after the running process's
/// flags: the system paths, then the project root.
pub fn caddyfile_search_paths(app_path: &str) -> (r: Vec<String>)
    ensures
        r@.map_values(|p: String| p@) == seq!["/etc/caddy/Caddyfile"@, "/etc/frankenphp/Caddyfile"@, app_path@ + "/Caddyfile"@],
{
    let mut r: Vec<String> = Vec::new();
    r.push(String::from_str("/etc/caddy/Caddyfile"));
    r.push(String::from_str("/etc/frankenphp/Caddyfile"));
    r.push(concat_str(app_path, "/Caddyfile"));
    assert(r@.map_values(|p: String| p@) =~= seq!["/etc/caddy/Caddyfile"@, "/etc/frankenphp/Caddyfile"@, app_path@ + "/Caddyfile"@]);
    r
}

/// The words that follow a `--caddyfile`, `--config` or `-c` flag in
/// `parts`, from index `i` on.
pub open spec fn flag_values(parts: Seq<Seq<char>>, i: int) -> Seq<Seq<char>>
    decreases parts.len() - i,
{
    if i < 0 || i >= parts.len() {
        seq![]
    } else {
        let here = if (parts[i] == "--caddyfile"@ || parts[i] == "--config"@ || parts[i] == "-c"@) && i + 1 < parts.len() {
            seq![parts[i + 1]]
        } else {
            seq![]
        };
        here + flag_values(parts, i + 1)
    }
}

/// Candidate Caddyfile paths named on the lines of `ps` output that mention
/// `frankenphp` or `caddy`, in order.
pub open spec fn caddyfile_flag_paths_of(ls: Seq<Seq<char>>) -> Seq<Seq<char>>
    decreases ls.len(),
{
    if ls.len() == 0 {
        seq![]
    } else {
        let l = ls[0];
        (if contains(l, "frankenphp"@) || contains(l, "caddy"@) {
            flag_values(split_ws(l), 0)
        } else {
            seq![]
        }) + caddyfile_flag_paths_of(ls.drop_first())
    }
}

/// Candidate Caddyfile paths in the argument lists of running processes
/// (`ps -eo args` output): the first one that exists is the active Caddyfile.
pub fn caddyfile_flag_paths(ps_output: &str) -> (r: Vec<String>)
    ensures
        r@.map_values(|p: String| p@) == caddyfile_flag_paths_of(lines(ps_output@)),
{
    let chars = to_chars(ps_output);
    let ls = lines_exec(chars.as_slice());
    let p_fr = to_chars("frankenphp");
    let p_ca = to_chars("caddy");
    let f1 = to_chars("--caddyfile");
    let f2 = to_chars("--config");
    let f3 = to_chars("-c");
    let ghost lv = lines(ps_output@);
    let mut r: Vec<String> = Vec::new();
    let mut k: usize = 0;
    assert(lv.skip(0) =~= lv);
    assert(r@.map_values(|p: String| p@) =~= Seq::<Seq<char>>::empty());
    while k < ls.len()
        invariant
            seqs_of(ls@) == lv,
            k <= ls@.len(),
            p_fr@ == "frankenphp"@,
            p_ca@ == "caddy"@,
            f1@ == "--caddyfile"@,
            f2@ == "--config"@,
            f3@ == "-c"@,
            caddyfile_flag_paths_of(lv) == r@.map_values(|p: String| p@) + caddyfile_flag_paths_of(lv.skip(k as int)),
        decreases ls@.len() - k,
    {
        let line = ls[k].as_slice();
        assert(lv.skip(k as int).drop_first() =~= lv.skip(k + 1));
        assert(lv.skip(k as int)[0] == line@);
        let ghost before = r@.map_values(|p: String| p@);
        if contains_exec(line, p_fr.as_slice()) || contains_exec(line, p_ca.as_slice()) {
            let parts = split_ws_exec(line);
            let ghost pv = seqs_of(parts@);
            let mut i: usize = 0;
            assert(flag_values(pv, 0) == flag_values(pv, 0));
            while i < parts.len()
                invariant
                    pv == seqs_of(parts@),
                    i <= parts@.len(),
                    f1@ == "--caddyfile"@,
                    f2@ == "--config"@,
                    f3@ == "-c"@,
                    before + flag_values(pv, 0) == r@.map_values(|p: String| p@) + flag_values(pv, i as int),
                decreases parts@.len() - i,
            {
                let w = parts[i].as_slice();
                assert(w@ == pv[i as int]);
                if (eq_chars(w, f1.as_slice()) || eq_chars(w, f2.as_slice()) || eq_chars(w, f3.as_slice())) && i + 1 < parts.len() {
                    let ghost prev = r@.map_values(|p: String| p@);
                    r.push(from_chars(parts[i + 1].as_slice()));
                    assert(r@.map_values(|p: String| p@) =~= prev.push(pv[i + 1]));
                    assert(prev + flag_values(pv, i as int) =~= prev.push(pv[i + 1]) + flag_values(pv, i + 1));
                } else {
                    assert(flag_values(pv, i as int) =~= flag_values(pv, i + 1));
                }
                i += 1;
            }
            assert(flag_values(pv, i as int) =~= Seq::<Seq<char>>::empty());
        }
        k += 1;
    }
    assert(lv.skip(k as int) =~= Seq::<Seq<char>>::empty());
    r
}

} // verus!
