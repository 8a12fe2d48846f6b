//! Discovery of Laravel apps from web-server configurations.
use vstd::prelude::*;
use crate::line_edit::lemma_lines_concat;
use crate::order::{insert_sorted, sorted_strict, views_of};
use crate::text::{
    contains_char, contains_char_exec, ends_with, ends_with_exec, from_chars, lines, lines_exec,
    seqs_of, split_ws, split_ws_exec, starts_with, starts_with_exec, to_chars, trim, trim_end_char,
    trim_end_char_slice, trim_slice, trim_start_pat, trim_start_pat_slice,
};

verus! {

/// A web root with its trailing slashes and a final `/public` removed.
pub open spec fn strip_public_of(path: Seq<char>) -> Seq<char> {
    let p = trim_end_char(path, '/');
    if ends_with(p, "/public"@) {
        p.subrange(0, p.len() - 7)
    } else {
        p
    }
}

fn strip_public_chars(path: &[char]) -> (r: &[char])
    ensures
        r@ == strip_public_of(path@),
{
    let p = trim_end_char_slice(path, '/');
    let suffix = to_chars("/public");
    if ends_with_exec(p, suffix.as_slice()) {
        assert(suffix@.len() == 7) by {
            reveal_strlit("/public");
        }
        &p[0..p.len() - 7]
    } else {
        p
    }
}

/// Strip trailing `/public` from a web root to get the app root.
pub fn strip_public(path: &str) -> (r: String)
    ensures
        r@ == strip_public_of(path@),
{
    let c = to_chars(path);
    from_chars(strip_public_chars(c.as_slice()))
}

/// The app root named by a `root` line of an nginx config, when the line
/// is one (`root /path/to/public;`): after the word `root`, trimmed, with
/// trailing semicolons removed and `/public` stripped.
pub open spec fn nginx_root_of(line: Seq<char>) -> Option<Seq<char>> {
    let t = trim(line);
    if starts_with(t, "root"@) && contains_char(t, '/') {
        let after = trim(trim_start_pat(t, "root"@));
        let path = trim(trim_end_char(after, ';'));
        let app = strip_public_of(path);
        if app.len() > 0 {
            Some(app)
        } else {
            None
        }
    } else {
        None
    }
}

pub open spec fn nginx_roots_of(ls: Seq<Seq<char>>) -> Seq<Seq<char>>
    decreases ls.len(),
{
    if ls.len() == 0 {
        seq![]
    } else {
        (match nginx_root_of(ls[0]) {
            Some(a) => seq![a],
            None => seq![],
        }) + nginx_roots_of(ls.drop_first())
    }
}

proof fn lemma_nginx_roots_concat(x: Seq<Seq<char>>, y: Seq<Seq<char>>)
    ensures
        nginx_roots_of(x + y) == nginx_roots_of(x) + nginx_roots_of(y),
    decreases x.len(),
{
    if x.len() == 0 {
        assert(x + y =~= y);
        assert(nginx_roots_of(x) + nginx_roots_of(y) =~= nginx_roots_of(y));
    } else {
        assert((x + y)[0] == x[0]);
        assert((x + y).drop_first() =~= x.drop_first() + y);
        lemma_nginx_roots_concat(x.drop_first(), y);
        let here = match nginx_root_of(x[0]) {
            Some(a) => seq![a],
            None => Seq::<Seq<char>>::empty(),
        };
        assert(here + (nginx_roots_of(x.drop_first()) + nginx_roots_of(y)) =~= (here
            + nginx_roots_of(x.drop_first())) + nginx_roots_of(y));
    }
}

/// Root directives are read line by line: those of two nginx configuration
/// texts joined after a line feed are those of the first followed by those
/// of the second.
pub proof fn law_root_directives_concat(a: Seq<char>, b: Seq<char>)
    requires
        a.len() == 0 || a.last() == '\n',
    ensures
        nginx_roots_of(lines(a + b)) == nginx_roots_of(lines(a)) + nginx_roots_of(lines(b)),
{
    lemma_lines_concat(a, b);
    lemma_nginx_roots_concat(lines(a), lines(b));
}

/// Extract app roots from an nginx config: lines like
/// `root /home/forge/app.com/public;` (commented lines do not start with
/// `root`, and `$variable` roots hold no `/`).
pub fn extract_root_directives(content: &str) -> (r: Vec<String>)
    ensures
        r@.map_values(|s: String| s@) == nginx_roots_of(lines(content@)),
{
    let c = to_chars(content);
    let ls = lines_exec(c.as_slice());
    let root = to_chars("root");
    let ghost lv = lines(content@);
    let mut r: Vec<String> = Vec::new();
    let mut k: usize = 0;
    assert(lv.skip(0) =~= lv);
    assert(r@.map_values(|s: String| s@) =~= Seq::<Seq<char>>::empty());
    while k < ls.len()
        invariant
            seqs_of(ls@) == lv,
            root@ == "root"@,
            k <= ls@.len(),
            nginx_roots_of(lv) == r@.map_values(|s: String| s@) + nginx_roots_of(lv.skip(k as int)),
        decreases ls@.len() - k,
    {
        assert(lv.skip(k as int).drop_first() =~= lv.skip(k + 1));
        assert(lv.skip(k as int)[0] == ls@[k as int]@);
        let ghost prev = r@.map_values(|s: String| s@);
        let t = trim_slice(ls[k].as_slice());
        if starts_with_exec(t, root.as_slice()) && contains_char_exec(t, '/') {
            let after = trim_slice(trim_start_pat_slice(t, root.as_slice()));
            let path = trim_slice(trim_end_char_slice(after, ';'));
            let app = strip_public_chars(path);
            if app.len() > 0 {
                r.push(from_chars(app));
                assert(r@.map_values(|s: String| s@) =~= prev.push(app@));
            }
        }
        proof {
            let here = match nginx_root_of(lv[k as int]) {
                Some(a) => seq![a],
                None => Seq::<Seq<char>>::empty(),
            };
            assert(r@.map_values(|s: String| s@) =~= prev + here);
        }
        k += 1;
    }
    assert(lv.skip(k as int) =~= Seq::<Seq<char>>::empty());
    assert(r@.map_values(|s: String| s@) =~= r@.map_values(|s: String| s@) + Seq::<Seq<char>>::empty());
    r
}

/// Candidate app root of a Caddyfile line `root * /path/to/public` (or
/// `root /path/to/public`): the last word with `/public` stripped.
pub open spec fn caddy_root_of(line: Seq<char>) -> Option<Seq<char>> {
    let t = trim(line);
    if starts_with(t, "root"@) && split_ws(t).len() > 0 {
        Some(strip_public_of(split_ws(t).last()))
    } else {
        None
    }
}

pub open spec fn caddy_roots_of(ls: Seq<Seq<char>>) -> Seq<Seq<char>>
    decreases ls.len(),
{
    if ls.len() == 0 {
        seq![]
    } else {
        (match caddy_root_of(ls[0]) {
            Some(a) => seq![a],
            None => seq![],
        }) + caddy_roots_of(ls.drop_first())
    }
}

/// Candidate app roots named by `root` directives of a Caddyfile.
pub fn caddy_root_paths(content: &str) -> (r: Vec<String>)
    ensures
        r@.map_values(|s: String| s@) == caddy_roots_of(lines(content@)),
{
    let c = to_chars(content);
    let ls = lines_exec(c.as_slice());
    let root = to_chars("root");
    let ghost lv = lines(content@);
    let mut r: Vec<String> = Vec::new();
    let mut k: usize = 0;
    assert(lv.skip(0) =~= lv);
    assert(r@.map_values(|s: String| s@) =~= Seq::<Seq<char>>::empty());
    while k < ls.len()
        invariant
            seqs_of(ls@) == lv,
            root@ == "root"@,
            k <= ls@.len(),
            caddy_roots_of(lv) == r@.map_values(|s: String| s@) + caddy_roots_of(lv.skip(k as int)),
        decreases ls@.len() - k,
    {
        assert(lv.skip(k as int).drop_first() =~= lv.skip(k + 1));
        assert(lv.skip(k as int)[0] == ls@[k as int]@);
        let ghost prev = r@.map_values(|s: String| s@);
        let t = trim_slice(ls[k].as_slice());
        if starts_with_exec(t, root.as_slice()) {
            let parts = split_ws_exec(t);
            if parts.len() > 0 {
                assert(seqs_of(parts@).last() == parts@[parts@.len() - 1]@);
                let app = strip_public_chars(parts[parts.len() - 1].as_slice());
                r.push(from_chars(app));
                assert(r@.map_values(|s: String| s@) =~= prev.push(app@));
            }
        }
        proof {
            let here = match caddy_root_of(lv[k as int]) {
                Some(a) => seq![a],
                None => Seq::<Seq<char>>::empty(),
            };
            assert(r@.map_values(|s: String| s@) =~= prev + here);
        }
        k += 1;
    }
    assert(lv.skip(k as int) =~= Seq::<Seq<char>>::empty());
    assert(r@.map_values(|s: String| s@) =~= r@.map_values(|s: String| s@) + Seq::<Seq<char>>::empty());
    r
}

fn add_all(apps: &mut Vec<String>, found: &[String])
    requires
        sorted_strict(views_of(old(apps)@)),
    ensures
        sorted_strict(views_of(final(apps)@)),
        views_of(final(apps)@).to_set() == views_of(old(apps)@).to_set().union(
            views_of(found@).to_set(),
        ),
{
    let ghost a0 = views_of(apps@).to_set();
    let ghost fv = views_of(found@);
    let mut i: usize = 0;
    assert(fv.take(0).to_set() =~= Set::<Seq<char>>::empty());
    assert(a0.union(Set::<Seq<char>>::empty()) =~= a0);
    while i < found.len()
        invariant
            fv == views_of(found@),
            i <= found@.len(),
            sorted_strict(views_of(apps@)),
            views_of(apps@).to_set() == a0.union(fv.take(i as int).to_set()),
        decreases found@.len() - i,
    {
        insert_sorted(apps, found[i].as_str());
        assert(fv.take(i + 1) =~= fv.take(i as int).push(fv[i as int]));
        proof {
            fv.take(i as int).lemma_push_to_set_commute(fv[i as int]);
        }
        assert(views_of(apps@).to_set() =~= a0.union(fv.take(i + 1).to_set()));
        i += 1;
    }
    assert(fv.take(found@.len() as int) =~= fv);
}

/// The Laravel apps to check, sorted and each listed once: those whose web
/// roots nginx or Caddy name, or, when neither names any, those found by
/// the Forge convention (`/home/forge/*/artisan`). Each argument holds the
/// candidates of one source that were found to be Laravel apps (an
/// `artisan` file in the directory).
pub fn find_laravel_apps(nginx_apps: &[String], caddy_apps: &[String], forge_apps: &[String]) -> (r:
    Vec<String>)
    ensures
        sorted_strict(views_of(r@)),
        views_of(r@).to_set() == if nginx_apps@.len() + caddy_apps@.len() > 0 {
            views_of(nginx_apps@).to_set().union(views_of(caddy_apps@).to_set())
        } else {
            views_of(forge_apps@).to_set()
        },
{
    let mut apps: Vec<String> = Vec::new();
    assert(views_of(apps@).to_set() =~= Set::<Seq<char>>::empty());
    add_all(&mut apps, nginx_apps);
    add_all(&mut apps, caddy_apps);
    assert(Set::<Seq<char>>::empty().union(views_of(nginx_apps@).to_set()) =~= views_of(
        nginx_apps@,
    ).to_set());
    if apps.len() == 0 {
        proof {
            if nginx_apps@.len() > 0 {
                assert(views_of(nginx_apps@)[0] == nginx_apps@[0]@);
                assert(views_of(nginx_apps@).to_set().contains(nginx_apps@[0]@));
                assert(views_of(apps@).to_set().contains(nginx_apps@[0]@));
                assert(views_of(apps@).len() > 0);
            }
            if caddy_apps@.len() > 0 {
                assert(views_of(caddy_apps@)[0] == caddy_apps@[0]@);
                assert(views_of(caddy_apps@).to_set().contains(caddy_apps@[0]@));
                assert(views_of(apps@).to_set().contains(caddy_apps@[0]@));
            }
        }
        add_all(&mut apps, forge_apps);
        assert(views_of(apps@).to_set() =~= views_of(forge_apps@).to_set()) by {
            assert(views_of(Seq::<String>::empty()).to_set() =~= Set::<Seq<char>>::empty());
        }
    } else {
        proof {
            if nginx_apps@.len() + caddy_apps@.len() == 0 {
                assert(views_of(nginx_apps@).to_set() =~= Set::<Seq<char>>::empty());
                assert(views_of(caddy_apps@).to_set() =~= Set::<Seq<char>>::empty());
                assert(views_of(apps@)[0] == apps@[0]@);
                assert(views_of(apps@).to_set().contains(apps@[0]@));
            }
        }
    }
    apps
}

} // verus!
