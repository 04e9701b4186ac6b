//! What the configuration needs of its key types, and the profile helpers.
//!
//! A profile is a path of names (`["game", "menu"]`). In contracts a
//! profile is taken by its deep view, a sequence of character sequences.
use vstd::prelude::*;

verus! {

broadcast use vstd::laws_eq::group_laws_eq;

/// A profile as the contracts see it.
pub type ProfileView = Seq<Seq<char>>;

/// `==` and `clone` on `T` are structural: two values compare equal exactly
/// when they are the same value, and a clone is the value itself.
/// This is what a derived `PartialEq` and `Clone` give on plain data.
pub open spec fn is_plain<T: PartialEq + Clone>() -> bool {
    &&& vstd::laws_eq::obeys_concrete_eq::<T>()
    &&& forall|a: T, b: T| #[trigger] call_ensures(T::clone, (&a,), b) ==> a == b
}

/// The owner ids are plain keys.
pub proof fn lemma_i32_is_plain()
    ensures
        is_plain::<i32>(),
{
}

/// Taking one more element of a sequence adds that element.
pub proof fn lemma_take_one_more<T>(s: Seq<T>, i: int)
    requires
        0 <= i < s.len(),
    ensures
        s.take(i + 1) == s.take(i).push(s[i]),
        forall|x: T| #[trigger] s.take(i + 1).contains(x) <==> (s.take(i).contains(x) || x == s[i]),
{
    assert(s.take(i + 1) =~= s.take(i).push(s[i]));
    assert forall|x: T| #[trigger] s.take(i + 1).contains(x) <==> (s.take(i).contains(x) || x == s[i]) by {
        if s.take(i + 1).contains(x) {
            let j = choose|j: int| 0 <= j < i + 1 && #[trigger] s.take(i + 1)[j] == x;
            if j < i {
                assert(s.take(i)[j] == x);
            }
        }
        if s.take(i).contains(x) {
            let j = choose|j: int| 0 <= j < i && #[trigger] s.take(i)[j] == x;
            assert(s.take(i + 1)[j] == x);
        }
        if x == s[i] {
            assert(s.take(i + 1)[i] == x);
        }
    }
}

/// Compares two plain values.
pub(crate) fn same<T: PartialEq + Clone>(a: &T, b: &T) -> (r: bool)
    requires
        is_plain::<T>(),
    ensures
        r == (*a == *b),
{
    proof {
        reveal(vstd::laws_eq::obeys_concrete_eq);
    }
    *a == *b
}

/// Copies a plain value.
pub(crate) fn dup<T: PartialEq + Clone>(a: &T) -> (r: T)
    requires
        is_plain::<T>(),
    ensures
        r == *a,
{
    a.clone()
}

/// Compares two sequences of plain values element by element.
pub(crate) fn same_seq<T: PartialEq + Clone>(a: &Vec<T>, b: &Vec<T>) -> (r: bool)
    requires
        is_plain::<T>(),
    ensures
        r == (a@ == b@),
{
    if a.len() != b.len() {
        return false;
    }
    let n = a.len();
    for i in 0..n
        invariant
            n == a@.len(),
            n == b@.len(),
            is_plain::<T>(),
            forall|j: int| 0 <= j < i ==> a@[j] == b@[j],
    {
        if !same(&a[i], &b[i]) {
            return false;
        }
    }
    assert(a@ =~= b@);
    true
}

/// Copies a sequence of plain values.
pub(crate) fn dup_seq<T: PartialEq + Clone>(a: &Vec<T>) -> (r: Vec<T>)
    requires
        is_plain::<T>(),
    ensures
        r@ == a@,
{
    let mut r: Vec<T> = Vec::new();
    let n = a.len();
    for i in 0..n
        invariant
            n == a@.len(),
            is_plain::<T>(),
            r@ == a@.take(i as int),
    {
        r.push(dup(&a[i]));
        assert(a@.take(i + 1) =~= a@.take(i as int).push(a@[i as int]));
    }
    assert(a@.take(n as int) =~= a@);
    r
}

/// Two profiles name the same path.
pub(crate) fn same_profile(a: &Vec<String>, b: &Vec<String>) -> (r: bool)
    ensures
        r == (a.deep_view() == b.deep_view()),
{
    if a.len() != b.len() {
        assert(a.deep_view().len() != b.deep_view().len());
        return false;
    }
    let n = a.len();
    for i in 0..n
        invariant
            n == a@.len(),
            n == b@.len(),
            forall|j: int| 0 <= j < i ==> a@[j]@ == b@[j]@,
    {
        if a[i] != b[i] {
            assert(a.deep_view()[i as int] != b.deep_view()[i as int]);
            return false;
        }
    }
    assert(a.deep_view() =~= b.deep_view());
    true
}

/// Copies a profile.
pub(crate) fn dup_profile(a: &Vec<String>) -> (r: Vec<String>)
    ensures
        r.deep_view() == a.deep_view(),
{
    let mut r: Vec<String> = Vec::new();
    let n = a.len();
    for i in 0..n
        invariant
            n == a@.len(),
            r@.len() == i,
            forall|j: int| 0 <= j < i ==> r@[j]@ == a@[j]@,
    {
        r.push(a[i].clone());
    }
    assert(r.deep_view() =~= a.deep_view());
    r
}

} // verus!
