//! Joining lines with `\n`, and how joining and `str::lines` undo each other.
use vstd::prelude::*;
use crate::text::{contains, contains_char, lines, lines_from, matches_at, strip_cr};

verus! {

/// `lines.join("\n")`.
pub open spec fn join_lines(ls: Seq<Seq<char>>) -> Seq<char>
    decreases ls.len(),
{
    if ls.len() == 0 {
        seq![]
    } else if ls.len() == 1 {
        ls[0]
    } else {
        ls[0] + seq!['\n'] + join_lines(ls.drop_first())
    }
}

/// No element holds a line feed, and none ends with a carriage return.
pub open spec fn clean_lines(ls: Seq<Seq<char>>) -> bool {
    forall|i: int|
        0 <= i < ls.len() ==> !contains_char(#[trigger] ls[i], '\n') && !contains_char(ls[i], '\r')
}

/// Joining one more line appends a line feed and the line.
pub proof fn lemma_join_push(ls: Seq<Seq<char>>, x: Seq<char>)
    requires
        ls.len() >= 1,
    ensures
        join_lines(ls.push(x)) == join_lines(ls) + seq!['\n'] + x,
    decreases ls.len(),
{
    let p = ls.push(x);
    assert(p[0] == ls[0]);
    if ls.len() == 1 {
        assert(p.drop_first() =~= seq![x]);
        assert(join_lines(seq![x]) == x);
        assert(join_lines(p) == p[0] + seq!['\n'] + join_lines(p.drop_first()));
    } else {
        assert(p.drop_first() =~= ls.drop_first().push(x));
        lemma_join_push(ls.drop_first(), x);
        assert(join_lines(p) == p[0] + seq!['\n'] + join_lines(p.drop_first()));
        assert(ls[0] + seq!['\n'] + (join_lines(ls.drop_first()) + seq!['\n'] + x) =~= (ls[0]
            + seq!['\n'] + join_lines(ls.drop_first())) + seq!['\n'] + x);
    }
}

/// Characters without a line feed only extend the current line.
pub proof fn lemma_lines_from_append(x: Seq<char>, rest: Seq<char>, cur: Seq<char>)
    requires
        !contains_char(x, '\n'),
    ensures
        lines_from(x + rest, cur) == lines_from(rest, cur + x),
    decreases x.len(),
{
    if x.len() == 0 {
        assert(x + rest =~= rest);
        assert(cur + x =~= cur);
    } else {
        assert((x + rest)[0] == x[0]);
        assert((x + rest).drop_first() =~= x.drop_first() + rest);
        assert(!contains_char(x.drop_first(), '\n')) by {
            if contains_char(x.drop_first(), '\n') {
                let k = choose|k: int| 0 <= k < x.drop_first().len() && x.drop_first()[k] == '\n';
                assert(x[k + 1] == '\n');
            }
        }
        assert(x[0] != '\n') by {
            if x[0] == '\n' {
                assert(contains_char(x, '\n'));
            }
        }
        lemma_lines_from_append(x.drop_first(), rest, cur.push(x[0]));
        assert(cur.push(x[0]) + x.drop_first() =~= cur + x);
    }
}

/// Every line cut by `str::lines` is free of line feeds, and free of carriage
/// returns when the text and the partial line are.
pub proof fn lemma_lines_from_clean(s: Seq<char>, cur: Seq<char>)
    requires
        !contains_char(cur, '\n'),
    ensures
        forall|i: int|
            0 <= i < lines_from(s, cur).len() ==> !contains_char(
                #[trigger] lines_from(s, cur)[i],
                '\n',
            ),
        !contains_char(s, '\r') && !contains_char(cur, '\r') ==> clean_lines(lines_from(s, cur)),
    decreases s.len(),
{
    if s.len() == 0 {
    } else if s[0] == '\n' {
        lemma_lines_from_clean(s.drop_first(), seq![]);
        let l = lines_from(s, cur);
        let rest = lines_from(s.drop_first(), seq![]);
        assert(l =~= seq![strip_cr(cur)] + rest);
        assert(!contains_char(strip_cr(cur), '\n')) by {
            if contains_char(strip_cr(cur), '\n') {
                let k = choose|k: int| 0 <= k < strip_cr(cur).len() && strip_cr(cur)[k] == '\n';
                assert(cur[k] == '\n');
            }
        }
        assert(!contains_char(s.drop_first(), '\r') ==> !contains_char(s, '\r') || true);
        if !contains_char(s, '\r') {
            assert(!contains_char(s.drop_first(), '\r')) by {
                if contains_char(s.drop_first(), '\r') {
                    let k = choose|k: int| 0 <= k < s.drop_first().len() && s.drop_first()[k] == '\r';
                    assert(s[k + 1] == '\r');
                }
            }
        }
        if !contains_char(cur, '\r') {
            assert(strip_cr(cur) == cur);
        }
        assert forall|i: int| 0 <= i < l.len() implies !contains_char(#[trigger] l[i], '\n') by {
            if i > 0 {
                assert(l[i] == rest[i - 1]);
            }
        }
        if !contains_char(s, '\r') && !contains_char(cur, '\r') {
            assert forall|i: int| 0 <= i < l.len() implies !contains_char(#[trigger] l[i], '\n')
                && !contains_char(l[i], '\r') by {
                if i > 0 {
                    assert(l[i] == rest[i - 1]);
                }
            }
        }
    } else {
        let c2 = cur.push(s[0]);
        assert(!contains_char(c2, '\n')) by {
            if contains_char(c2, '\n') {
                let k = choose|k: int| 0 <= k < c2.len() && c2[k] == '\n';
                if k < cur.len() {
                    assert(cur[k] == '\n');
                }
            }
        }
        if !contains_char(s, '\r') {
            assert(!contains_char(s.drop_first(), '\r')) by {
                if contains_char(s.drop_first(), '\r') {
                    let k = choose|k: int| 0 <= k < s.drop_first().len() && s.drop_first()[k] == '\r';
                    assert(s[k + 1] == '\r');
                }
            }
            if !contains_char(cur, '\r') {
                assert(!contains_char(c2, '\r')) by {
                    if contains_char(c2, '\r') {
                        let k = choose|k: int| 0 <= k < c2.len() && c2[k] == '\r';
                        if k < cur.len() {
                            assert(cur[k] == '\r');
                        } else {
                            assert(s[0] == '\r');
                        }
                    }
                }
            }
        }
        lemma_lines_from_clean(s.drop_first(), c2);
    }
}

/// Cutting joined lines gives them back: all but the last come out whole,
/// and the last one continues into whatever text follows.
pub proof fn lemma_lines_of_join(ls: Seq<Seq<char>>, t: Seq<char>)
    requires
        ls.len() >= 1,
        clean_lines(ls),
    ensures
        lines_from(join_lines(ls) + t, seq![]) == ls.drop_last() + lines_from(t, ls.last()),
    decreases ls.len(),
{
    if ls.len() == 1 {
        assert(join_lines(ls) == ls[0]);
        lemma_lines_from_append(ls[0], t, seq![]);
        assert(Seq::<char>::empty() + ls[0] =~= ls[0]);
        assert(ls.drop_last() =~= Seq::<Seq<char>>::empty());
        assert(ls.drop_last() + lines_from(t, ls.last()) =~= lines_from(t, ls.last()));
    } else {
        let r = ls.drop_first();
        assert(clean_lines(r)) by {
            assert forall|i: int| 0 <= i < r.len() implies !contains_char(#[trigger] r[i], '\n')
                && !contains_char(r[i], '\r') by {
                assert(r[i] == ls[i + 1]);
            }
        }
        assert(!contains_char(ls[0], '\n') && !contains_char(ls[0], '\r'));
        let rest = seq!['\n'] + join_lines(r) + t;
        assert(join_lines(ls) + t =~= ls[0] + rest);
        lemma_lines_from_append(ls[0], rest, seq![]);
        assert(Seq::<char>::empty() + ls[0] =~= ls[0]);
        assert(rest[0] == '\n');
        assert(rest.drop_first() =~= join_lines(r) + t);
        assert(strip_cr(ls[0]) == ls[0]) by {
            if ls[0].len() > 0 && ls[0].last() == '\r' {
                assert(contains_char(ls[0], '\r'));
            }
        }
        lemma_lines_of_join(r, t);
        assert(lines_from(rest, ls[0]) == seq![ls[0]] + lines_from(rest.drop_first(), seq![]));
        assert(r.last() == ls.last());
        assert(seq![ls[0]] + (r.drop_last() + lines_from(t, ls.last())) =~= ls.drop_last()
            + lines_from(t, ls.last()));
    }
}

/// `lines(join(ls) + "\n") == ls`.
pub proof fn lemma_lines_join_newline(ls: Seq<Seq<char>>)
    requires
        ls.len() >= 1,
        clean_lines(ls),
    ensures
        lines(join_lines(ls) + seq!['\n']) == ls,
{
    lemma_lines_of_join(ls, seq!['\n']);
    assert(seq!['\n'].drop_first() =~= Seq::<char>::empty());
    assert(strip_cr(ls.last()) == ls.last()) by {
        if ls.last().len() > 0 && ls.last().last() == '\r' {
            assert(ls.last()[ls.last().len() - 1] == '\r');
            assert(contains_char(ls[ls.len() - 1], '\r'));
        }
    }
    assert(lines_from(seq!['\n'], ls.last()) == seq![strip_cr(ls.last())] + lines_from(
        Seq::<char>::empty(),
        seq![],
    ));
    assert(ls.drop_last() + seq![ls.last()] =~= ls);
}

/// Joining the lines of a text without carriage returns gives the text
/// back, less its final line feed.
pub proof fn lemma_join_lines_from(s: Seq<char>, cur: Seq<char>)
    requires
        !contains_char(s, '\r'),
        !contains_char(cur, '\r'),
        !contains_char(cur, '\n'),
    ensures
        s.len() > 0 && s.last() == '\n' ==> join_lines(lines_from(s, cur)) + seq!['\n'] == cur + s,
        (s.len() == 0 || s.last() != '\n') && (cur + s).len() > 0 ==> join_lines(
            lines_from(s, cur),
        ) == cur + s,
    decreases s.len(),
{
    if s.len() == 0 {
        assert(cur + s =~= cur);
    } else {
        let s2 = s.drop_first();
        assert(!contains_char(s2, '\r')) by {
            if contains_char(s2, '\r') {
                let k = choose|k: int| 0 <= k < s2.len() && s2[k] == '\r';
                assert(s[k + 1] == '\r');
            }
        }
        if s[0] == '\n' {
            assert(strip_cr(cur) == cur) by {
                if cur.len() > 0 && cur.last() == '\r' {
                    assert(cur[cur.len() - 1] == '\r');
                }
            }
            lemma_join_lines_from(s2, seq![]);
            let rest = lines_from(s2, seq![]);
            assert(lines_from(s, cur) == seq![cur] + rest);
            assert(Seq::<char>::empty() + s2 =~= s2);
            if s2.len() == 0 {
                assert(rest =~= Seq::<Seq<char>>::empty());
                assert(seq![cur] + rest =~= seq![cur]);
                assert(cur + s =~= cur + seq!['\n']);
            } else {
                lemma_lines_from_bound_nonempty(s2);
                assert((seq![cur] + rest).drop_first() =~= rest);
                assert((seq![cur] + rest)[0] == cur);
                assert(cur + s =~= cur + seq!['\n'] + s2);
                if s.last() == '\n' {
                    assert(s2.last() == '\n');
                    assert(join_lines(rest) + seq!['\n'] == s2);
                    assert(cur + seq!['\n'] + join_lines(rest) + seq!['\n'] =~= cur + seq!['\n'] + (
                    join_lines(rest) + seq!['\n']));
                } else {
                    assert(s2.last() != '\n');
                }
            }
        } else {
            let c2 = cur.push(s[0]);
            assert(!contains_char(c2, '\r') && !contains_char(c2, '\n')) by {
                if contains_char(c2, '\r') {
                    let k = choose|k: int| 0 <= k < c2.len() && c2[k] == '\r';
                    if k < cur.len() {
                        assert(cur[k] == '\r');
                    } else {
                        assert(s[0] == '\r');
                    }
                }
                if contains_char(c2, '\n') {
                    let k = choose|k: int| 0 <= k < c2.len() && c2[k] == '\n';
                    if k < cur.len() {
                        assert(cur[k] == '\n');
                    }
                }
            }
            lemma_join_lines_from(s2, c2);
            assert(c2 + s2 =~= cur + s);
            if s.last() == '\n' {
                assert(s2.len() > 0);
                assert(s2.last() == '\n');
            }
        }
    }
}

/// A text that ends with a line feed ends its last line: the lines of what
/// follows it start afresh.
pub proof fn lemma_lines_from_split(a: Seq<char>, b: Seq<char>, cur: Seq<char>)
    requires
        a.len() > 0,
        a.last() == '\n',
    ensures
        lines_from(a + b, cur) == lines_from(a, cur) + lines_from(b, seq![]),
    decreases a.len(),
{
    assert((a + b)[0] == a[0]);
    assert((a + b).drop_first() =~= a.drop_first() + b);
    if a[0] == '\n' {
        if a.len() == 1 {
            assert(a.drop_first() =~= Seq::<char>::empty());
            assert(a.drop_first() + b =~= b);
            assert(lines_from(a.drop_first(), seq![]) =~= Seq::<Seq<char>>::empty());
            assert(lines_from(a, cur) =~= seq![strip_cr(cur)] + Seq::<Seq<char>>::empty());
        } else {
            assert(a.drop_first().last() == a.last());
            lemma_lines_from_split(a.drop_first(), b, seq![]);
            assert(lines_from(a + b, cur) =~= lines_from(a, cur) + lines_from(b, seq![]));
        }
    } else {
        assert(a.len() >= 2);
        assert(a.drop_first().last() == a.last());
        lemma_lines_from_split(a.drop_first(), b, cur.push(a[0]));
    }
}

/// The lines of two texts joined after a line feed are the lines of the
/// first followed by those of the second.
pub proof fn lemma_lines_concat(a: Seq<char>, b: Seq<char>)
    requires
        a.len() == 0 || a.last() == '\n',
    ensures
        lines(a + b) == lines(a) + lines(b),
{
    if a.len() == 0 {
        assert(a + b =~= b);
        assert(lines(a) =~= Seq::<Seq<char>>::empty());
        assert(lines(a) + lines(b) =~= lines(b));
    } else {
        lemma_lines_from_split(a, b, seq![]);
    }
}

/// A non-empty text has at least one line.
pub proof fn lemma_lines_from_bound_nonempty(s: Seq<char>)
    requires
        s.len() > 0,
    ensures
        lines_from(s, seq![]).len() >= 1,
{
    lemma_lines_nonempty(s, seq![]);
}

proof fn lemma_lines_nonempty(s: Seq<char>, cur: Seq<char>)
    requires
        s.len() > 0 || cur.len() > 0,
    ensures
        lines_from(s, cur).len() >= 1,
    decreases s.len(),
{
    if s.len() == 0 {
    } else if s[0] == '\n' {
    } else {
        lemma_lines_nonempty(s.drop_first(), cur.push(s[0]));
    }
}

/// Every joined line occurs in the joined text.
pub proof fn lemma_join_contains(ls: Seq<Seq<char>>, j: int)
    requires
        0 <= j < ls.len(),
    ensures
        contains(join_lines(ls), ls[j]),
    decreases ls.len(),
{
    let x = ls[j];
    if ls.len() == 1 {
        assert(join_lines(ls).subrange(0, x.len() as int) =~= x);
        assert(matches_at(join_lines(ls), x, 0));
    } else {
        let head = ls[0] + seq!['\n'];
        let rest = ls.drop_first();
        assert(join_lines(ls) =~= head + join_lines(rest));
        if j == 0 {
            assert(join_lines(ls).subrange(0, x.len() as int) =~= x);
            assert(matches_at(join_lines(ls), x, 0));
        } else {
            assert(rest[j - 1] == x);
            lemma_join_contains(rest, j - 1);
            let i = choose|i: int| #[trigger] matches_at(join_lines(rest), x, i);
            let t = join_lines(rest);
            assert((head + t).subrange(head.len() + i, head.len() + i + x.len()) =~= t.subrange(
                i,
                i + x.len(),
            ));
            assert(matches_at(join_lines(ls), x, head.len() + i));
        }
    }
}

/// Builds `lines.join("\n")`.
pub fn join_lines_exec(ls: &Vec<Vec<char>>) -> (r: Vec<char>)
    ensures
        r@ == join_lines(ls@.map_values(|x: Vec<char>| x@)),
{
    let ghost lv = ls@.map_values(|x: Vec<char>| x@);
    let mut r: Vec<char> = Vec::new();
    let mut i: usize = 0;
    while i < ls.len()
        invariant
            lv == ls@.map_values(|x: Vec<char>| x@),
            i <= ls@.len(),
            r@ == join_lines(lv.take(i as int)),
        decreases ls@.len() - i,
    {
        let ghost before = r@;
        if i > 0 {
            r.push('\n');
        }
        let line = &ls[i];
        let mut j: usize = 0;
        while j < line.len()
            invariant
                0 <= i < ls@.len(),
                line@ == lv[i as int],
                j <= line@.len(),
                i > 0 ==> r@ == before + seq!['\n'] + line@.take(j as int),
                i == 0 ==> r@ == line@.take(j as int),
            decreases line@.len() - j,
        {
            r.push(line[j]);
            j += 1;
            assert(line@.take(j as int) =~= line@.take(j - 1).push(line@[j - 1]));
            if i > 0 {
                assert(r@ =~= before + seq!['\n'] + line@.take(j as int));
            } else {
                assert(r@ =~= line@.take(j as int));
            }
        }
        assert(line@.take(j as int) =~= line@);
        proof {
            if i == 0 {
                assert(lv.take(1) =~= seq![lv[0]]);
            } else {
                assert(lv.take(i + 1) =~= lv.take(i as int).push(lv[i as int]));
                lemma_join_push(lv.take(i as int), lv[i as int]);
            }
        }
        i += 1;
    }
    assert(lv.take(ls@.len() as int) =~= lv);
    r
}

} // verus!
