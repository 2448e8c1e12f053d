use vstd::prelude::*;
use crate::utils::text::chars_of;

verus! {

/// `a` comes strictly before `b` in lexicographic order of their characters'
/// code points (the order `String` compares by, since UTF-8 keeps it).
pub open spec fn seq_lt(a: Seq<char>, b: Seq<char>) -> bool
    decreases a.len(),
{
    if a.len() == 0 {
        b.len() > 0
    } else if b.len() == 0 {
        false
    } else if (a[0] as int) < (b[0] as int) {
        true
    } else if a[0] == b[0] {
        seq_lt(a.drop_first(), b.drop_first())
    } else {
        false
    }
}

/// The order is irreflexive and asymmetric.
pub proof fn lemma_lt_asymmetric(a: Seq<char>, b: Seq<char>)
    ensures
        seq_lt(a, b) ==> !seq_lt(b, a),
        !seq_lt(a, a),
    decreases a.len(),
{
    if a.len() > 0 && b.len() > 0 {
        lemma_lt_asymmetric(a.drop_first(), b.drop_first());
        lemma_lt_asymmetric(a.drop_first(), a.drop_first());
    } else if a.len() > 0 {
        lemma_lt_asymmetric(a.drop_first(), a.drop_first());
    }
}

/// Two different sequences are ordered one way or the other.
pub proof fn lemma_lt_total(a: Seq<char>, b: Seq<char>)
    ensures
        a == b || seq_lt(a, b) || seq_lt(b, a),
    decreases a.len(),
{
    if a.len() > 0 && b.len() > 0 {
        lemma_lt_total(a.drop_first(), b.drop_first());
        if a[0] == b[0] && a.drop_first() == b.drop_first() {
            assert(a =~= seq![a[0]] + a.drop_first());
            assert(b =~= seq![b[0]] + b.drop_first());
        }
    } else if a.len() == 0 && b.len() == 0 {
        assert(a =~= b);
    }
}

/// The order is transitive.
pub proof fn lemma_lt_transitive(a: Seq<char>, b: Seq<char>, c: Seq<char>)
    requires
        seq_lt(a, b),
        seq_lt(b, c),
    ensures
        seq_lt(a, c),
    decreases a.len(),
{
    if a.len() > 0 && b.len() > 0 && c.len() > 0 {
        if a[0] == b[0] && b[0] == c[0] {
            lemma_lt_transitive(a.drop_first(), b.drop_first(), c.drop_first());
        }
    }
}

/// Whether `a` sorts strictly before `b`.
pub fn str_lt(a: &str, b: &str) -> (r: bool)
    ensures
        r == seq_lt(a@, b@),
{
    let x = chars_of(a);
    let y = chars_of(b);
    let mut i: usize = 0;
    assert(a@.skip(0) =~= a@ && b@.skip(0) =~= b@);
    while i < x.len() && i < y.len()
        invariant
            x@ == a@,
            y@ == b@,
            i <= x.len(),
            i <= y.len(),
            seq_lt(a@, b@) == seq_lt(a@.skip(i as int), b@.skip(i as int)),
        decreases x.len() - i,
    {
        if x[i] != y[i] {
            assert(a@.skip(i as int)[0] == x@[i as int]);
            assert(b@.skip(i as int)[0] == y@[i as int]);
            return x[i] < y[i];
        }
        assert(a@.skip(i as int).drop_first() =~= a@.skip(i + 1));
        assert(b@.skip(i as int).drop_first() =~= b@.skip(i + 1));
        i = i + 1;
    }
    i == x.len() && i < y.len()
}

/// The elements' views strictly increase.
pub open spec fn strictly_sorted(s: Seq<Seq<char>>) -> bool {
    forall|i: int, j: int| 0 <= i < j < s.len() ==> seq_lt(#[trigger] s[i], #[trigger] s[j])
}

/// The strings of `input`, sorted, each once.
pub open spec fn sorted_set(input: Seq<Seq<char>>) -> Seq<Seq<char>> {
    choose|s: Seq<Seq<char>>| strictly_sorted(s) && forall|x: Seq<char>| #[trigger] s.contains(x) <==> input.contains(x)
}

/// The first element of a strictly sorted sequence comes before every
/// other element.
proof fn lemma_sorted_first(s: Seq<Seq<char>>, x: Seq<char>)
    requires
        strictly_sorted(s),
        s.contains(x),
    ensures
        x == s[0] || seq_lt(s[0], x),
{
    let i = choose|i: int| 0 <= i < s.len() && s[i] == x;
    if i > 0 {
        assert(seq_lt(s[0], s[i]));
    }
}

/// Two strictly sorted sequences with the same elements are equal.
pub proof fn lemma_sorted_unique(a: Seq<Seq<char>>, b: Seq<Seq<char>>)
    requires
        strictly_sorted(a),
        strictly_sorted(b),
        forall|x: Seq<char>| #[trigger] a.contains(x) <==> b.contains(x),
    ensures
        a == b,
    decreases a.len(),
{
    if a.len() == 0 {
        if b.len() > 0 {
            assert(b.contains(b[0]));
            assert(a.contains(b[0]));
            let i = choose|i: int| 0 <= i < a.len() && a[i] == b[0];
            assert(false);
        }
        assert(a =~= b);
    } else {
        assert(a.contains(a[0]));
        assert(b.len() > 0);
        assert(b.contains(b[0]));
        lemma_sorted_first(a, b[0]);
        lemma_sorted_first(b, a[0]);
        if a[0] != b[0] {
            lemma_lt_asymmetric(a[0], b[0]);
        }
        let ta = a.drop_first();
        let tb = b.drop_first();
        assert(strictly_sorted(ta)) by {
            assert forall|i: int, j: int| 0 <= i < j < ta.len() implies seq_lt(#[trigger] ta[i], #[trigger] ta[j]) by {
                assert(ta[i] == a[i + 1] && ta[j] == a[j + 1]);
            }
        }
        assert(strictly_sorted(tb)) by {
            assert forall|i: int, j: int| 0 <= i < j < tb.len() implies seq_lt(#[trigger] tb[i], #[trigger] tb[j]) by {
                assert(tb[i] == b[i + 1] && tb[j] == b[j + 1]);
            }
        }
        assert forall|x: Seq<char>| #[trigger] ta.contains(x) <==> tb.contains(x) by {
            if ta.contains(x) {
                let i = choose|i: int| 0 <= i < ta.len() && ta[i] == x;
                assert(a[i + 1] == x);
                assert(seq_lt(a[0], a[i + 1]));
                lemma_lt_asymmetric(x, x);
                assert(a.contains(x));
                assert(b.contains(x));
                let j = choose|j: int| 0 <= j < b.len() && b[j] == x;
                assert(j != 0);
                assert(tb[j - 1] == x);
            }
            if tb.contains(x) {
                let i = choose|i: int| 0 <= i < tb.len() && tb[i] == x;
                assert(b[i + 1] == x);
                assert(seq_lt(b[0], b[i + 1]));
                lemma_lt_asymmetric(x, x);
                assert(b.contains(x));
                assert(a.contains(x));
                let j = choose|j: int| 0 <= j < a.len() && a[j] == x;
                assert(j != 0);
                assert(ta[j - 1] == x);
            }
        }
        lemma_sorted_unique(ta, tb);
        assert(a =~= seq![a[0]] + ta);
        assert(b =~= seq![b[0]] + tb);
    }
}

/// Sorts `items` and drops repeated strings: the result strictly increases
/// and holds exactly the strings that `items` holds.
pub fn sorted_unique(items: Vec<String>) -> (r: Vec<String>)
    ensures
        r.deep_view() == sorted_set(items.deep_view()),
        strictly_sorted(r.deep_view()),
        forall|s: Seq<char>| #[trigger] r.deep_view().contains(s) <==> items.deep_view().contains(s),
{
    let ghost input = items.deep_view();
    let mut out: Vec<String> = Vec::new();
    let mut k: usize = 0;
    while k < items.len()
        invariant
            input == items.deep_view(),
            k <= items.len(),
            strictly_sorted(out.deep_view()),
            forall|s: Seq<char>| #[trigger] out.deep_view().contains(s) <==> input.take(k as int).contains(s),
        decreases items.len() - k,
    {
        let x = &items[k];
        let ghost xs = x@;
        let ghost o = out.deep_view();
        let mut p: usize = 0;
        while p < out.len()
            invariant
                o == out.deep_view(),
                xs == x@,
                p <= out.len(),
                forall|i: int| 0 <= i < p ==> seq_lt(#[trigger] o[i], xs),
            ensures
                p <= out.len(),
                forall|i: int| 0 <= i < p ==> seq_lt(#[trigger] o[i], xs),
                p < out.len() ==> !seq_lt(o[p as int], xs),
            decreases out.len() - p,
        {
            let before = str_lt(out[p].as_str(), x.as_str());
            assert(o[p as int] == out@[p as int]@);
            if !before {
                break;
            }
            p = p + 1;
        }
        let ghost pre = input.take(k as int);
        let ghost post = input.take(k + 1);
        assert(post =~= pre.push(xs));
        if p < out.len() && !str_lt(x.as_str(), out[p].as_str()) {
            proof {
                lemma_lt_total(o[p as int], xs);
                assert(o[p as int] == xs);
            }
            assert forall|s: Seq<char>| #[trigger] out.deep_view().contains(s) <==> post.contains(s) by {
                if s == xs {
                    assert(o[p as int] == s);
                }
                if pre.contains(s) {
                    let w = choose|w: int| 0 <= w < k && pre[w] == s;
                    assert(post[w] == s);
                }
                if post.contains(s) {
                    let w = choose|w: int| 0 <= w <= k && post[w] == s;
                    if w < k {
                        assert(pre[w] == s);
                    }
                }
            }
        } else {
            proof {
                if p < out.len() {
                    lemma_lt_total(o[p as int], xs);
                    lemma_lt_asymmetric(o[p as int], xs);
                }
            }
            out.insert(p, x.clone());
            let ghost n = out.deep_view();
            assert(n =~= o.insert(p as int, xs));
            assert forall|i: int, j: int| 0 <= i < j < n.len() implies seq_lt(#[trigger] n[i], #[trigger] n[j]) by {
                if j < p {
                    assert(n[i] == o[i] && n[j] == o[j]);
                } else if j == p {
                    assert(n[i] == o[i]);
                } else if i < p {
                    assert(n[i] == o[i] && n[j] == o[j - 1]);
                    lemma_lt_transitive(o[i], xs, o[p as int]);
                    if j - 1 > p {
                        lemma_lt_transitive(o[i], o[p as int], o[j - 1]);
                    }
                } else if i == p {
                    assert(n[j] == o[j - 1]);
                    if j - 1 > p {
                        lemma_lt_transitive(xs, o[p as int], o[j - 1]);
                    }
                } else {
                    assert(n[i] == o[i - 1] && n[j] == o[j - 1]);
                }
            }
            assert forall|s: Seq<char>| #[trigger] n.contains(s) <==> post.contains(s) by {
                if n.contains(s) {
                    let w = choose|w: int| 0 <= w < n.len() && n[w] == s;
                    if w < p {
                        assert(o[w] == s);
                    } else if w > p {
                        assert(o[w - 1] == s);
                    }
                    if s != xs {
                        assert(o.contains(s));
                        let v = choose|v: int| 0 <= v < k && pre[v] == s;
                        assert(post[v] == s);
                    } else {
                        assert(post[k as int] == s);
                    }
                }
                if post.contains(s) {
                    let w = choose|w: int| 0 <= w <= k && post[w] == s;
                    if w < k {
                        assert(pre[w] == s);
                        assert(o.contains(s));
                        let v = choose|v: int| 0 <= v < o.len() && o[v] == s;
                        if v < p {
                            assert(n[v] == s);
                        } else {
                            assert(n[v + 1] == s);
                        }
                    } else {
                        assert(n[p as int] == s);
                    }
                }
            }
        }
        k = k + 1;
    }
    assert(input.take(items.len() as int) =~= input);
    proof {
        let c = sorted_set(input);
        assert(strictly_sorted(c) && forall|x: Seq<char>| #[trigger] c.contains(x) <==> input.contains(x));
        lemma_sorted_unique(out.deep_view(), c);
    }
    out
}

} // verus!
