//! The order of strings, and sorted collections of distinct strings.
use vstd::prelude::*;

verus! {

/// `a` sorts before `b` in the order of Rust's `String`: character by
/// character on code points (the order of UTF-8 bytes), a proper prefix
/// first.
pub open spec fn str_lt(a: Seq<char>, b: Seq<char>) -> bool
    decreases a.len(),
{
    if a.len() == 0 {
        b.len() > 0
    } else if b.len() == 0 {
        false
    } else if a[0] != b[0] {
        a[0] < b[0]
    } else {
        str_lt(a.drop_first(), b.drop_first())
    }
}

/// Nothing sorts before itself.
pub proof fn lemma_str_lt_irreflexive(a: Seq<char>)
    ensures
        !str_lt(a, a),
    decreases a.len(),
{
    if a.len() > 0 {
        lemma_str_lt_irreflexive(a.drop_first());
    }
}

/// Of two different strings exactly one sorts first.
pub proof fn lemma_str_lt_total(a: Seq<char>, b: Seq<char>)
    ensures
        a != b ==> (str_lt(a, b) || str_lt(b, a)),
        !(str_lt(a, b) && str_lt(b, a)),
    decreases a.len(),
{
    if a.len() > 0 && b.len() > 0 {
        if a[0] == b[0] {
            lemma_str_lt_total(a.drop_first(), b.drop_first());
            if a != b {
                assert(a.drop_first() != b.drop_first()) by {
                    if a.drop_first() == b.drop_first() {
                        assert(a =~= b) by {
                            assert forall|i: int| 0 <= i < a.len() implies a[i] == b[i] by {
                                if i > 0 {
                                    assert(a[i] == a.drop_first()[i - 1]);
                                    assert(b[i] == b.drop_first()[i - 1]);
                                }
                            }
                        }
                    }
                }
            }
        }
    } else if a.len() == 0 && b.len() == 0 {
        assert(a =~= b);
    }
}

/// The order is transitive.
pub proof fn lemma_str_lt_transitive(a: Seq<char>, b: Seq<char>, c: Seq<char>)
    requires
        str_lt(a, b),
        str_lt(b, c),
    ensures
        str_lt(a, c),
    decreases a.len(),
{
    if a.len() > 0 && b.len() > 0 && c.len() > 0 {
        if a[0] == b[0] && b[0] == c[0] {
            lemma_str_lt_transitive(a.drop_first(), b.drop_first(), c.drop_first());
        }
    }
}

/// Every element sorts before every later one.
pub open spec fn sorted_strict(s: Seq<Seq<char>>) -> bool {
    forall|i: int, j: int| 0 <= i < j < s.len() ==> str_lt(#[trigger] s[i], #[trigger] s[j])
}

/// The character sequences held by a vector of strings.
pub open spec fn views_of(v: Seq<String>) -> Seq<Seq<char>> {
    v.map_values(|s: String| s@)
}

/// `a < b` on strings.
pub fn str_lt_exec(a: &[char], b: &[char]) -> (r: bool)
    ensures
        r == str_lt(a@, b@),
{
    let mut i: usize = 0;
    assert(a@.skip(0) =~= a@ && b@.skip(0) =~= b@);
    while i < a.len() && i < b.len() && a[i] == b[i]
        invariant
            i <= a@.len(),
            i <= b@.len(),
            str_lt(a@, b@) == str_lt(a@.skip(i as int), b@.skip(i as int)),
        decreases a@.len() - i,
    {
        assert(a@.skip(i as int).drop_first() =~= a@.skip(i + 1));
        assert(b@.skip(i as int).drop_first() =~= b@.skip(i + 1));
        i += 1;
    }
    if i == a.len() {
        i < b.len()
    } else if i == b.len() {
        false
    } else {
        assert(a@.skip(i as int)[0] == a@[i as int]);
        assert(b@.skip(i as int)[0] == b@[i as int]);
        a[i] < b[i]
    }
}

/// Where `key` belongs in a strictly sorted sequence: the number of
/// elements that sort before it, and whether the next one equals it.
pub open spec fn slot_of(s: Seq<Seq<char>>, key: Seq<char>, pos: int, present: bool) -> bool {
    &&& 0 <= pos <= s.len()
    &&& forall|j: int| 0 <= j < pos ==> str_lt(#[trigger] s[j], key)
    &&& forall|j: int| pos <= j < s.len() && j != pos ==> str_lt(key, #[trigger] s[j])
    &&& present <==> (pos < s.len() && s[pos] == key)
    &&& !present && pos < s.len() ==> str_lt(key, s[pos])
}

/// Finds the slot of `key` among the strictly sorted keys.
pub fn find_slot(keys: &Vec<Vec<char>>, key: &[char]) -> (r: (usize, bool))
    requires
        sorted_strict(keys@.map_values(|k: Vec<char>| k@)),
    ensures
        slot_of(keys@.map_values(|k: Vec<char>| k@), key@, r.0 as int, r.1),
{
    let ghost s = keys@.map_values(|k: Vec<char>| k@);
    let mut i: usize = 0;
    while i < keys.len() && str_lt_exec(keys[i].as_slice(), key)
        invariant
            s == keys@.map_values(|k: Vec<char>| k@),
            sorted_strict(s),
            i <= keys@.len(),
            forall|j: int| 0 <= j < i ==> str_lt(#[trigger] s[j], key@),
        decreases keys@.len() - i,
    {
        assert(s[i as int] == keys@[i as int]@);
        i += 1;
    }
    if i < keys.len() {
        assert(s[i as int] == keys@[i as int]@);
        assert(!str_lt(s[i as int], key@));
        let present = eq_vec(keys[i].as_slice(), key);
        proof {
            lemma_str_lt_total(s[i as int], key@);
            assert forall|j: int| i <= j < s.len() && j != i implies str_lt(key@, #[trigger] s[j]) by {
                assert(str_lt(s[i as int], s[j]));
                if present {
                } else {
                    lemma_str_lt_transitive(key@, s[i as int], s[j]);
                }
            }
        }
        (i, present)
    } else {
        (i, false)
    }
}

fn eq_vec(a: &[char], b: &[char]) -> (r: bool)
    ensures
        r == (a@ == b@),
{
    crate::text::eq_chars(a, b)
}

/// Inserting into a strictly sorted sequence at its slot keeps it sorted.
pub proof fn lemma_insert_sorted(s: Seq<Seq<char>>, key: Seq<char>, pos: int)
    requires
        sorted_strict(s),
        slot_of(s, key, pos, false),
    ensures
        sorted_strict(s.insert(pos, key)),
        s.insert(pos, key).to_set() == s.to_set().insert(key),
{
    let t = s.insert(pos, key);
    assert forall|i: int, j: int| 0 <= i < j < t.len() implies str_lt(#[trigger] t[i], #[trigger] t[j]) by {
        if j < pos {
            assert(t[i] == s[i] && t[j] == s[j]);
        } else if j == pos {
            assert(t[i] == s[i]);
        } else if i < pos {
            assert(t[i] == s[i] && t[j] == s[j - 1]);
            lemma_str_lt_transitive(s[i], key, s[j - 1]);
        } else if i == pos {
            assert(t[j] == s[j - 1]);
        } else {
            assert(t[i] == s[i - 1] && t[j] == s[j - 1]);
        }
    }
    assert forall|x: Seq<char>| t.to_set().contains(x) <==> s.to_set().insert(key).contains(x) by {
        if t.to_set().contains(x) {
            let k = choose|k: int| 0 <= k < t.len() && t[k] == x;
            if k < pos {
                assert(s[k] == x);
            } else if k > pos {
                assert(s[k - 1] == x);
            }
        }
        if s.to_set().contains(x) {
            let k = choose|k: int| 0 <= k < s.len() && s[k] == x;
            if k < pos {
                assert(t[k] == x);
            } else {
                assert(t[k + 1] == x);
            }
        }
        if x == key {
            assert(t[pos] == key);
        }
    }
    assert(t.to_set() =~= s.to_set().insert(key));
}

/// Adds a string to a strictly sorted vector of distinct strings, unless
/// it is there already (what inserting into a `BTreeSet` does).
pub fn insert_sorted(v: &mut Vec<String>, x: &str)
    requires
        sorted_strict(views_of(old(v)@)),
    ensures
        sorted_strict(views_of(final(v)@)),
        views_of(final(v)@).to_set() == views_of(old(v)@).to_set().insert(x@),
{
    let ghost s = views_of(v@);
    let mut keys: Vec<Vec<char>> = Vec::new();
    let mut i: usize = 0;
    while i < v.len()
        invariant
            s == views_of(v@),
            i <= v@.len(),
            keys@.len() == i,
            forall|j: int| 0 <= j < i ==> (#[trigger] keys@[j])@ == s[j],
        decreases v@.len() - i,
    {
        keys.push(crate::text::to_chars(v[i].as_str()));
        i += 1;
    }
    assert(keys@.map_values(|k: Vec<char>| k@) =~= s);
    let xc = crate::text::to_chars(x);
    let (pos, present) = find_slot(&keys, xc.as_slice());
    if present {
        assert(s.to_set().insert(x@) =~= s.to_set()) by {
            assert(s[pos as int] == x@);
        }
    } else {
        proof {
            lemma_insert_sorted(s, x@, pos as int);
        }
        v.insert(pos, String::from_str(x));
        assert(views_of(v@) =~= s.insert(pos as int, x@));
    }
}

} // verus!
