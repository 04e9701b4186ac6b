//! The order in which the profiles of an owner are visited when the input
//! map is built: longer profiles first; among profiles of one length, the
//! names are compared from the last one back, each in the order of strings.
use vstd::prelude::*;
use crate::keys::{ProfileView, dup_profile, lemma_take_one_more};
use crate::collections::ProfileMap;

verus! {

/// One of three outcomes of comparing two values.
#[derive(PartialEq, Eq, Structural)]
pub enum Order {
    Less,
    Equal,
    Greater,
}

/// The order of strings: by characters, a proper prefix first.
pub open spec fn str_less(a: Seq<char>, b: Seq<char>) -> bool
    decreases a.len(),
{
    if a.len() == 0 {
        b.len() > 0
    } else if b.len() == 0 {
        false
    } else if a[0] != b[0] {
        (a[0] as int) < (b[0] as int)
    } else {
        str_less(a.drop_first(), b.drop_first())
    }
}

/// Among profiles of one length: the last names that differ decide.
pub open spec fn names_less(x: ProfileView, y: ProfileView) -> bool
    decreases x.len(),
{
    if x.len() == 0 || y.len() == 0 {
        false
    } else if x.last() != y.last() {
        str_less(x.last(), y.last())
    } else {
        names_less(x.drop_last(), y.drop_last())
    }
}

/// `x` is visited before `y`.
pub open spec fn precedes(x: ProfileView, y: ProfileView) -> bool {
    x.len() > y.len() || (x.len() == y.len() && names_less(x, y))
}

/// The sequence lists the set in the visiting order.
pub open spec fn is_sorted_listing(s: Seq<ProfileView>, set: Set<ProfileView>) -> bool {
    &&& forall|i: int, j: int| 0 <= i < j < s.len() ==> precedes(#[trigger] s[i], #[trigger] s[j])
    &&& forall|x: ProfileView| set.contains(x) <==> s.contains(x)
}

/// No string comes before itself, and of two strings at most one comes first.
pub proof fn lemma_str_less_asymmetric(a: Seq<char>, b: Seq<char>)
    ensures
        !str_less(a, a),
        str_less(a, b) ==> !str_less(b, a),
    decreases a.len(),
{
    if a.len() > 0 {
        lemma_str_less_asymmetric(a.drop_first(), a.drop_first());
        if b.len() > 0 {
            lemma_str_less_asymmetric(a.drop_first(), b.drop_first());
        }
    }
}

/// The order of strings is transitive.
pub proof fn lemma_str_less_transitive(a: Seq<char>, b: Seq<char>, c: Seq<char>)
    requires
        str_less(a, b),
        str_less(b, c),
    ensures
        str_less(a, c),
    decreases a.len(),
{
    if a.len() > 0 && a[0] == b[0] && b[0] == c[0] {
        lemma_str_less_transitive(a.drop_first(), b.drop_first(), c.drop_first());
    }
}

/// Of two different strings, one comes first.
pub proof fn lemma_str_less_total(a: Seq<char>, b: Seq<char>)
    requires
        a != b,
    ensures
        str_less(a, b) || str_less(b, a),
    decreases a.len(),
{
    if a.len() == 0 && b.len() == 0 {
        assert(a =~= b);
    }
    if a.len() > 0 && b.len() > 0 && a[0] != b[0] {
        assert((a[0] as int) != (b[0] as int));
    }
    if a.len() > 0 && b.len() > 0 && a[0] == b[0] {
        if a.drop_first() == b.drop_first() {
            assert(a =~= seq![a[0]] + a.drop_first());
            assert(b =~= seq![b[0]] + b.drop_first());
        }
        lemma_str_less_total(a.drop_first(), b.drop_first());
    }
}

/// No profile is visited before itself, and of two profiles at most one is
/// visited first.
pub proof fn lemma_precedes_asymmetric(x: ProfileView, y: ProfileView)
    ensures
        !precedes(x, x),
        precedes(x, y) ==> !precedes(y, x),
{
    lemma_names_less_asymmetric(x, y);
}

proof fn lemma_names_less_asymmetric(x: ProfileView, y: ProfileView)
    ensures
        !names_less(x, x),
        names_less(x, y) ==> !names_less(y, x),
    decreases x.len(),
{
    if x.len() > 0 {
        lemma_names_less_asymmetric(x.drop_last(), x.drop_last());
        if y.len() > 0 {
            lemma_str_less_asymmetric(x.last(), y.last());
            lemma_names_less_asymmetric(x.drop_last(), y.drop_last());
        }
    }
}

/// The visiting order is transitive.
pub proof fn lemma_precedes_transitive(x: ProfileView, y: ProfileView, z: ProfileView)
    requires
        precedes(x, y),
        precedes(y, z),
    ensures
        precedes(x, z),
{
    if x.len() == y.len() && y.len() == z.len() {
        lemma_names_less_transitive(x, y, z);
    }
}

proof fn lemma_names_less_transitive(x: ProfileView, y: ProfileView, z: ProfileView)
    requires
        names_less(x, y),
        names_less(y, z),
        x.len() == y.len(),
        y.len() == z.len(),
    ensures
        names_less(x, z),
    decreases x.len(),
{
    if x.len() > 0 {
        if x.last() != y.last() && y.last() != z.last() {
            lemma_str_less_transitive(x.last(), y.last(), z.last());
            lemma_str_less_asymmetric(x.last(), z.last());
            if x.last() == z.last() {
                lemma_str_less_asymmetric(x.last(), y.last());
            }
        } else if x.last() == y.last() && y.last() == z.last() {
            lemma_names_less_transitive(x.drop_last(), y.drop_last(), z.drop_last());
        }
    }
}

/// Of two different profiles, one is visited first.
pub proof fn lemma_precedes_total(x: ProfileView, y: ProfileView)
    requires
        x != y,
    ensures
        precedes(x, y) || precedes(y, x),
{
    if x.len() == y.len() {
        lemma_names_less_total(x, y);
    }
}

proof fn lemma_names_less_total(x: ProfileView, y: ProfileView)
    requires
        x != y,
        x.len() == y.len(),
    ensures
        names_less(x, y) || names_less(y, x),
    decreases x.len(),
{
    if x.len() == 0 {
        assert(x =~= y);
    } else if x.last() != y.last() {
        lemma_str_less_total(x.last(), y.last());
    } else {
        if x.drop_last() == y.drop_last() {
            assert(x =~= x.drop_last().push(x.last()));
            assert(y =~= y.drop_last().push(y.last()));
        }
        lemma_names_less_total(x.drop_last(), y.drop_last());
    }
}

/// A set has one listing in the visiting order: the order in which the
/// profiles of an owner are visited is determined by the profiles alone.
pub proof fn lemma_sorted_listing_unique(s1: Seq<ProfileView>, s2: Seq<ProfileView>, e: Set<ProfileView>)
    requires
        is_sorted_listing(s1, e),
        is_sorted_listing(s2, e),
    ensures
        s1 == s2,
    decreases s1.len(),
{
    if s1.len() == 0 {
        if s2.len() > 0 {
            assert(s2.contains(s2[0]));
        }
        assert(s1 =~= s2);
    } else {
        assert(s1.contains(s1[0]));
        assert(s2.len() > 0);
        let a = s1[0];
        let b = s2[0];
        assert(s2.contains(b));
        if a != b {
            let j = choose|j: int| 0 <= j < s1.len() && s1[j] == b;
            let k = choose|k: int| 0 <= k < s2.len() && s2[k] == a;
            assert(precedes(s1[0], s1[j]));
            assert(precedes(s2[0], s2[k]));
            lemma_precedes_asymmetric(a, b);
        }
        let r1 = s1.drop_first();
        let r2 = s2.drop_first();
        let e2 = e.remove(a);
        assert forall|x: ProfileView| e2.contains(x) <==> r1.contains(x) by {
            if r1.contains(x) {
                let j = choose|j: int| 0 <= j < r1.len() && r1[j] == x;
                assert(s1[j + 1] == x);
                assert(s1.contains(x));
                if x == a {
                    assert(precedes(s1[0], s1[j + 1]));
                    lemma_precedes_asymmetric(a, a);
                }
            }
            if e2.contains(x) {
                assert(s1.contains(x));
                let j = choose|j: int| 0 <= j < s1.len() && s1[j] == x;
                assert(j != 0);
                assert(r1[j - 1] == x);
            }
        }
        assert forall|x: ProfileView| e2.contains(x) <==> r2.contains(x) by {
            if r2.contains(x) {
                let j = choose|j: int| 0 <= j < r2.len() && r2[j] == x;
                assert(s2[j + 1] == x);
                assert(s2.contains(x));
                if x == a {
                    assert(precedes(s2[0], s2[j + 1]));
                    lemma_precedes_asymmetric(a, a);
                }
            }
            if e2.contains(x) {
                assert(s2.contains(x));
                let j = choose|j: int| 0 <= j < s2.len() && s2[j] == x;
                assert(j != 0);
                assert(r2[j - 1] == x);
            }
        }
        assert forall|i: int, j: int| 0 <= i < j < r1.len() implies precedes(#[trigger] r1[i], #[trigger] r1[j]) by {
            assert(precedes(s1[i + 1], s1[j + 1]));
        }
        assert forall|i: int, j: int| 0 <= i < j < r2.len() implies precedes(#[trigger] r2[i], #[trigger] r2[j]) by {
            assert(precedes(s2[i + 1], s2[j + 1]));
        }
        lemma_sorted_listing_unique(r1, r2, e2);
        assert(s1 =~= seq![a] + r1);
        assert(s2 =~= seq![a] + r2);
    }
}

/// The characters of a string.
pub fn chars_of(s: &String) -> (r: Vec<char>)
    ensures
        r@ == s@,
{
    let mut r: Vec<char> = Vec::new();
    for c in it: s.as_str().chars()
        invariant
            r@ == it.seq().take(it.index() as int),
            it.seq() == s@,
    {
        r.push(c);
    }
    r
}

proof fn lemma_str_less_skip(a: Seq<char>, b: Seq<char>, i: int)
    requires
        0 <= i <= a.len(),
        i <= b.len(),
        a.take(i) == b.take(i),
    ensures
        str_less(a, b) == str_less(a.skip(i), b.skip(i)),
    decreases i,
{
    if i > 0 {
        assert(a[0] == a.take(i)[0]);
        assert(b[0] == b.take(i)[0]);
        assert(a.drop_first().take(i - 1) =~= a.take(i).drop_first());
        assert(b.drop_first().take(i - 1) =~= b.take(i).drop_first());
        lemma_str_less_skip(a.drop_first(), b.drop_first(), i - 1);
        assert(a.drop_first().skip(i - 1) =~= a.skip(i));
        assert(b.drop_first().skip(i - 1) =~= b.skip(i));
    } else {
        assert(a.skip(0) =~= a);
        assert(b.skip(0) =~= b);
    }
}

/// Compares two strings in the order of strings.
pub fn compare_strings(a: &String, b: &String) -> (r: Order)
    ensures
        (r == Order::Less) == str_less(a@, b@),
        (r == Order::Equal) == (a@ == b@),
        (r == Order::Greater) == str_less(b@, a@),
{
    let x = chars_of(a);
    let y = chars_of(b);
    proof {
        lemma_str_less_asymmetric(a@, b@);
        lemma_str_less_asymmetric(b@, a@);
        if a@ != b@ {
            lemma_str_less_total(a@, b@);
        }
    }
    let n = x.len();
    let m = y.len();
    let mut i: usize = 0;
    while i < n && i < m
        invariant
            n == x@.len(),
            m == y@.len(),
            x@ == a@,
            y@ == b@,
            i <= n,
            i <= m,
            x@.take(i as int) == y@.take(i as int),
        decreases n - i,
    {
        if x[i] != y[i] {
            proof {
                lemma_str_less_skip(x@, y@, i as int);
                lemma_str_less_skip(y@, x@, i as int);
                assert(x@.skip(i as int)[0] == x@[i as int]);
                assert(y@.skip(i as int)[0] == y@[i as int]);
            }
            if x[i] < y[i] {
                return Order::Less;
            } else {
                return Order::Greater;
            }
        }
        assert(x@.take(i + 1) =~= x@.take(i as int).push(x@[i as int]));
        assert(y@.take(i + 1) =~= y@.take(i as int).push(y@[i as int]));
        i = i + 1;
    }
    proof {
        lemma_str_less_skip(x@, y@, i as int);
        lemma_str_less_skip(y@, x@, i as int);
    }
    if n == m {
        assert(x@ =~= x@.take(i as int));
        assert(y@ =~= y@.take(i as int));
        Order::Equal
    } else if n < m {
        Order::Less
    } else {
        Order::Greater
    }
}

/// Whether profile `x` is visited before profile `y`.
pub fn profile_precedes(x: &Vec<String>, y: &Vec<String>) -> (r: bool)
    ensures
        r == precedes(x.deep_view(), y.deep_view()),
{
    let ghost xv = x.deep_view();
    let ghost yv = y.deep_view();
    if x.len() != y.len() {
        return y.len() < x.len();
    }
    let n = x.len();
    let mut k: usize = n;
    assert(xv.take(n as int) =~= xv);
    assert(yv.take(n as int) =~= yv);
    while k > 0
        invariant
            n == x@.len(),
            n == y@.len(),
            k <= n,
            xv == x.deep_view(),
            yv == y.deep_view(),
            names_less(xv, yv) == names_less(xv.take(k as int), yv.take(k as int)),
        decreases k,
    {
        let ghost xk = xv.take(k as int);
        let ghost yk = yv.take(k as int);
        assert(xk.last() == x@[k - 1]@);
        assert(yk.last() == y@[k - 1]@);
        assert(xk.drop_last() =~= xv.take(k - 1));
        assert(yk.drop_last() =~= yv.take(k - 1));
        match compare_strings(&x[k - 1], &y[k - 1]) {
            Order::Less => {
                return true;
            },
            Order::Greater => {
                return false;
            },
            Order::Equal => {},
        }
        k = k - 1;
    }
    false
}

/// Lists a set of profiles in the visiting order.
pub fn sorted_profiles(set: &ProfileMap<()>) -> (r: Vec<Vec<String>>)
    ensures
        is_sorted_listing(r.deep_view(), set@.dom()),
{
    let n = set.len();
    let mut out: Vec<Vec<String>> = Vec::new();
    let mut i: usize = 0;
    while i < n
        invariant
            i <= n,
            n == set.keys().len(),
            set.keys().no_duplicates(),
            forall|x: ProfileView| set@.contains_key(x) <==> set.keys().contains(x),
            forall|a: int, b: int|
                0 <= a < b < out.deep_view().len() ==> precedes(
                    #[trigger] out.deep_view()[a],
                    #[trigger] out.deep_view()[b],
                ),
            forall|x: ProfileView|
                #[trigger] out.deep_view().contains(x) <==> set.keys().take(i as int).contains(x),
        decreases n - i,
    {
        let x = set.key_at(i);
        let ghost xv = x.deep_view();
        let ghost ov = out.deep_view();
        assert(!set.keys().take(i as int).contains(xv)) by {
            if set.keys().take(i as int).contains(xv) {
                let j = choose|j: int| 0 <= j < i && set.keys().take(i as int)[j] == xv;
                assert(set.keys()[j] == set.keys()[i as int]);
            }
        }
        let mut k: usize = 0;
        while k < out.len() && !profile_precedes(x, &out[k])
            invariant
                k <= out@.len(),
                ov == out.deep_view(),
                xv == x.deep_view(),
                forall|j: int| 0 <= j < k ==> !precedes(xv, #[trigger] ov[j]),
            decreases out@.len() - k,
        {
            assert(ov[k as int] == out@[k as int].deep_view());
            k = k + 1;
        }
        let c = dup_profile(x);
        out.insert(k, c);
        proof {
            let nv = ov.insert(k as int, xv);
            assert(out.deep_view() =~= nv);
            assert forall|a: int, b: int| 0 <= a < b < nv.len() implies precedes(
                #[trigger] nv[a],
                #[trigger] nv[b],
            ) by {
                if b < k {
                } else if a < k && b == k {
                    assert(ov.contains(ov[a]));
                    lemma_precedes_total(ov[a], xv);
                } else if a < k && b > k {
                    assert(nv[b] == ov[b - 1]);
                } else if a == k {
                    assert(nv[b] == ov[b - 1]);
                    if b - 1 > k {
                        assert(precedes(ov[k as int], ov[b - 1]));
                        lemma_precedes_transitive(xv, ov[k as int], ov[b - 1]);
                    }
                } else {
                    assert(nv[a] == ov[a - 1]);
                    assert(nv[b] == ov[b - 1]);
                }
            }
            lemma_take_one_more(set.keys(), i as int);
            assert forall|y: ProfileView| #[trigger] nv.contains(y) <==> (ov.contains(y) || y == xv) by {
                if nv.contains(y) {
                    let j = choose|j: int| 0 <= j < nv.len() && nv[j] == y;
                    if j < k {
                        assert(ov[j] == y);
                    } else if j > k {
                        assert(ov[j - 1] == y);
                    }
                }
                if ov.contains(y) {
                    let j = choose|j: int| 0 <= j < ov.len() && ov[j] == y;
                    if j < k {
                        assert(nv[j] == y);
                    } else {
                        assert(nv[j + 1] == y);
                    }
                }
                if y == xv {
                    assert(nv[k as int] == y);
                }
            }
        }
        i = i + 1;
    }
    proof {
        assert(set.keys().take(i as int) =~= set.keys());
    }
    out
}

} // verus!
