//! Detection of names declared more than once.
use vstd::prelude::*;
use vstd::string::StrSliceExecFns;

use crate::text::strings_view;

verus! {

/// Byte-wise order of strings, which for well-formed text is the order of
/// their characters' code points, a proper prefix coming first.
pub open spec fn lex_lt(a: Seq<char>, b: Seq<char>) -> bool
    decreases a.len(),
{
    if a.len() == 0 {
        b.len() > 0
    } else if b.len() == 0 {
        false
    } else if a[0] != b[0] {
        (a[0] as int) < (b[0] as int)
    } else {
        lex_lt(a.drop_first(), b.drop_first())
    }
}

/// Each element comes strictly before the next ones.
pub open spec fn strictly_sorted(s: Seq<Seq<char>>) -> bool {
    forall|i: int, j: int| 0 <= i < j < s.len() ==> lex_lt(s[i], s[j])
}

/// `x` occurs at least twice in `names`.
pub open spec fn is_duplicated(names: Seq<Seq<char>>, x: Seq<char>) -> bool {
    exists|i: int, j: int| 0 <= i < j < names.len() && names[i] == x && names[j] == x
}

/// `d` lists, in sorted order and once each, the names that occur at least
/// twice in `names`.
pub open spec fn is_sorted_duplicates(d: Seq<Seq<char>>, names: Seq<Seq<char>>) -> bool {
    &&& strictly_sorted(d)
    &&& forall|x: Seq<char>| d.contains(x) <==> is_duplicated(names, x)
}

pub proof fn lemma_lex_irreflexive(a: Seq<char>)
    ensures
        !lex_lt(a, a),
    decreases a.len(),
{
    if a.len() > 0 {
        lemma_lex_irreflexive(a.drop_first());
    }
}

pub proof fn lemma_lex_total(a: Seq<char>, b: Seq<char>)
    ensures
        a == b || lex_lt(a, b) || lex_lt(b, a),
    decreases a.len(),
{
    if a.len() > 0 && b.len() > 0 {
        if a[0] == b[0] {
            lemma_lex_total(a.drop_first(), b.drop_first());
            if a.drop_first() == b.drop_first() {
                assert(a =~= seq![a[0]] + a.drop_first());
                assert(b =~= seq![b[0]] + b.drop_first());
            }
        } else {
            assert((a[0] as int) != (b[0] as int));
        }
    } else if a.len() == 0 && b.len() == 0 {
        assert(a =~= b);
    }
}

pub proof fn lemma_lex_transitive(a: Seq<char>, b: Seq<char>, c: Seq<char>)
    requires
        lex_lt(a, b),
        lex_lt(b, c),
    ensures
        lex_lt(a, c),
    decreases a.len(),
{
    if a.len() > 0 && a[0] == b[0] && b[0] == c[0] {
        lemma_lex_transitive(a.drop_first(), b.drop_first(), c.drop_first());
    }
}

/// Whether `a` comes before `b` (see `lex_lt`).
pub fn lex_less(a: &str, b: &str) -> (r: bool)
    ensures
        r == lex_lt(a@, b@),
{
    let n = a.unicode_len();
    let m = b.unicode_len();
    let mut i: usize = 0;
    assert(a@.skip(0) =~= a@);
    assert(b@.skip(0) =~= b@);
    while i < n && i < m
        invariant
            n == a@.len(),
            m == b@.len(),
            i <= n,
            i <= m,
            lex_lt(a@, b@) == lex_lt(a@.skip(i as int), b@.skip(i as int)),
        decreases n - i,
    {
        let c = a.get_char(i);
        let d = b.get_char(i);
        proof {
            assert(a@.skip(i as int)[0] == c);
            assert(b@.skip(i as int)[0] == d);
        }
        if c != d {
            return (c as u32) < (d as u32);
        }
        proof {
            assert(a@.skip(i as int).drop_first() =~= a@.skip(i + 1));
            assert(b@.skip(i as int).drop_first() =~= b@.skip(i + 1));
        }
        i = i + 1;
    }
    i == n && i < m
}

/// Puts `x` into the sorted `out`, unless it is there already.
fn insert_sorted(out: &mut Vec<String>, x: String)
    requires
        strictly_sorted(strings_view(old(out)@)),
    ensures
        strictly_sorted(strings_view(final(out)@)),
        forall|y: Seq<char>|
            strings_view(final(out)@).contains(y) <==> (strings_view(old(out)@).contains(y) || y
                == x@),
{
    let ghost s = strings_view(out@);
    let mut p: usize = 0;
    while p < out.len() && lex_less(out[p].as_str(), x.as_str())
        invariant
            s == strings_view(out@),
            p <= out@.len(),
            forall|i: int| 0 <= i < p ==> lex_lt(s[i], x@),
        decreases out@.len() - p,
    {
        p = p + 1;
    }
    if p < out.len() && out[p] == x {
        proof {
            assert(s[p as int] == x@);
        }
        return;
    }
    proof {
        assert forall|j: int| p <= j < s.len() implies lex_lt(x@, s[j]) by {
            lemma_lex_total(s[p as int], x@);
            if j > p {
                lemma_lex_transitive(x@, s[p as int], s[j]);
            }
        }
    }
    out.insert(p, x);
    proof {
        let t = strings_view(out@);
        assert(t =~= s.insert(p as int, x@));
        assert forall|i: int, j: int| 0 <= i < j < t.len() implies lex_lt(t[i], t[j]) by {
            if j < p {
            } else if j == p {
            } else if i < p {
                lemma_lex_transitive(t[i], x@, t[j]);
            } else if i == p {
            } else {
            }
        }
        assert forall|y: Seq<char>| t.contains(y) <==> (s.contains(y) || y == x@) by {
            if s.contains(y) {
                let i = choose|i: int| 0 <= i < s.len() && s[i] == y;
                if i < p {
                    assert(t[i] == y);
                } else {
                    assert(t[i + 1] == y);
                }
            }
            if y == x@ {
                assert(t[p as int] == y);
            }
            if t.contains(y) {
                let i = choose|i: int| 0 <= i < t.len() && t[i] == y;
                if i < p {
                    assert(s[i] == y);
                } else if i > p {
                    assert(s[i - 1] == y);
                }
            }
        }
    }
}

/// The names that occur at least twice in `names`, sorted, each once.
pub fn find_dupes(names: &Vec<String>) -> (r: Vec<String>)
    ensures
        is_sorted_duplicates(strings_view(r@), strings_view(names@)),
{
    let ghost ns = strings_view(names@);
    let mut out: Vec<String> = Vec::new();
    let mut i: usize = 0;
    while i < names.len()
        invariant
            ns == strings_view(names@),
            i <= names@.len(),
            strictly_sorted(strings_view(out@)),
            forall|x: Seq<char>|
                strings_view(out@).contains(x) <==> (is_duplicated(ns, x) && exists|t: int|
                    0 <= t < i && ns[t] == x),
        decreases names@.len() - i,
    {
        let mut dup = false;
        let mut j: usize = 0;
        while j < names.len()
            invariant
                ns == strings_view(names@),
                i < names@.len(),
                j <= names@.len(),
                dup <==> exists|t: int| 0 <= t < j && t != i && ns[t] == ns[i as int],
                strictly_sorted(strings_view(out@)),
                forall|x: Seq<char>|
                    strings_view(out@).contains(x) <==> (is_duplicated(ns, x) && exists|t: int|
                        0 <= t < i && ns[t] == x),
            decreases names@.len() - j,
        {
            proof {
                assert(ns[j as int] == names@[j as int]@);
                assert(ns[i as int] == names@[i as int]@);
            }
            if j != i && names[j] == names[i] {
                dup = true;
            }
            j = j + 1;
            proof {
                if dup && !(exists|t: int| 0 <= t < j - 1 && t != i && ns[t] == ns[i as int]) {
                    assert(0 <= j - 1 < j && j - 1 != i && ns[j - 1] == ns[i as int]);
                }
            }
        }
        let ghost before = strings_view(out@);
        assert(forall|x: Seq<char>|
            #![trigger before.contains(x)]
            before.contains(x) <==> (is_duplicated(ns, x) && exists|t: int| 0 <= t < i && ns[t] == x));
        if dup {
            insert_sorted(&mut out, names[i].clone());
        }
        assert(ns[i as int] == names@[i as int]@);
        proof {
            let x0 = ns[i as int];
            if dup {
                let t = choose|t: int| 0 <= t < names@.len() && t != i && ns[t] == x0;
                if t < i {
                    assert(ns[t] == x0 && ns[i as int] == x0);
                } else {
                    assert(ns[i as int] == x0 && ns[t] == x0);
                }
                assert(is_duplicated(ns, x0));
            } else {
                assert(!is_duplicated(ns, x0)) by {
                    if is_duplicated(ns, x0) {
                        let (a, b) = choose|a: int, b: int|
                            0 <= a < b < ns.len() && ns[a] == x0 && ns[b] == x0;
                        if a != i {
                            assert(ns[a] == ns[i as int]);
                        } else {
                            assert(ns[b] == ns[i as int]);
                        }
                    }
                }
            }
            assert forall|x: Seq<char>|
                strings_view(out@).contains(x) <==> (is_duplicated(ns, x) && exists|t: int|
                    0 <= t < i + 1 && ns[t] == x) by {
                assert(strings_view(out@).contains(x) <==> (before.contains(x) || (dup && x == x0)));
                assert(before.contains(x) <==> (is_duplicated(ns, x) && exists|t: int|
                    0 <= t < i && ns[t] == x));
                if exists|t: int| 0 <= t < i + 1 && ns[t] == x {
                    let t = choose|t: int| 0 <= t < i + 1 && ns[t] == x;
                    if t < i {
                    } else {
                        assert(x == x0);
                    }
                }
                if exists|t: int| 0 <= t < i && ns[t] == x {
                    let t = choose|t: int| 0 <= t < i && ns[t] == x;
                    assert(0 <= t < i + 1 && ns[t] == x);
                }
                if x == x0 {
                    assert(ns[i as int] == x);
                }
            }
        }
        i = i + 1;
    }
    proof {
        assert forall|x: Seq<char>| is_duplicated(ns, x) implies exists|t: int|
            0 <= t < names@.len() && ns[t] == x by {
            let (a, b) = choose|a: int, b: int| 0 <= a < b < ns.len() && ns[a] == x && ns[b] == x;
            assert(ns[a] == x);
        }
    }
    out
}

} // verus!
