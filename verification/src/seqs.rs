use vstd::prelude::*;

verus! {

/// Membership in a sequence extended at the back.
pub proof fn lemma_push_contains<T>(s: Seq<T>, x: T, y: T)
    ensures
        s.push(x).contains(y) <==> s.contains(y) || y == x,
{
    if s.push(x).contains(y) {
        let j = choose|j: int| 0 <= j < s.push(x).len() && s.push(x)[j] == y;
        if j < s.len() {
            assert(s[j] == y);
        }
    }
    if s.contains(y) {
        let j = choose|j: int| 0 <= j < s.len() && s[j] == y;
        assert(s.push(x)[j] == y);
    }
    if y == x {
        assert(s.push(x)[s.len() as int] == y);
    }
}

/// Membership in a non-empty sequence split off its last element.
pub proof fn lemma_drop_last_contains<T>(s: Seq<T>, y: T)
    requires
        s.len() > 0,
    ensures
        s.contains(y) <==> s.drop_last().contains(y) || y == s.last(),
{
    if s.contains(y) {
        let j = choose|j: int| 0 <= j < s.len() && s[j] == y;
        if j < s.len() - 1 {
            assert(s.drop_last()[j] == y);
        }
    }
    if s.drop_last().contains(y) {
        let j = choose|j: int| 0 <= j < s.drop_last().len() && s.drop_last()[j] == y;
        assert(s[j] == y);
    }
    if y == s.last() {
        assert(s[s.len() - 1] == y);
    }
}

/// Membership in a sequence extended at the front.
pub proof fn lemma_cons_contains<T>(a: T, t: Seq<T>, y: T)
    ensures
        (seq![a] + t).contains(y) <==> y == a || t.contains(y),
{
    if (seq![a] + t).contains(y) {
        let j = choose|j: int| 0 <= j < (seq![a] + t).len() && (seq![a] + t)[j] == y;
        if j > 0 {
            assert(t[j - 1] == y);
        }
    }
    if t.contains(y) {
        let j = choose|j: int| 0 <= j < t.len() && t[j] == y;
        assert((seq![a] + t)[j + 1] == y);
    }
    if y == a {
        assert((seq![a] + t)[0] == y);
    }
}

} // verus!
