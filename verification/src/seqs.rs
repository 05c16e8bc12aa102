use vstd::prelude::*;

verus! {

/// The entries of `s` that satisfy `p`, in order.
pub open spec fn keep_where<T>(s: Seq<T>, p: spec_fn(T) -> bool) -> Seq<T>
    decreases s.len(),
{
    if s.len() == 0 {
        s
    } else if p(s.last()) {
        keep_where(s.drop_last(), p).push(s.last())
    } else {
        keep_where(s.drop_last(), p)
    }
}

/// An entry is kept exactly when it occurs in `s` and passes `p`.
pub proof fn lemma_keep_where_contains<T>(s: Seq<T>, p: spec_fn(T) -> bool, x: T)
    ensures
        keep_where(s, p).contains(x) <==> (s.contains(x) && p(x)),
    decreases s.len(),
{
    if s.len() > 0 {
        let front = s.drop_last();
        lemma_keep_where_contains(front, p, x);
        assert(s =~= front.push(s.last()));
        if s.contains(x) && x != s.last() {
            let i = choose|i: int| 0 <= i < s.len() && s[i] == x;
            assert(front[i] == x);
        }
        if front.contains(x) {
            let i = choose|i: int| 0 <= i < front.len() && front[i] == x;
            assert(s[i] == x);
        }
        if p(s.last()) {
            let k = keep_where(front, p);
            if k.push(s.last()).contains(x) && x != s.last() {
                let i = choose|i: int| 0 <= i < k.push(s.last()).len() && k.push(s.last())[i] == x;
                assert(k[i] == x);
            }
            if k.contains(x) {
                let i = choose|i: int| 0 <= i < k.len() && k[i] == x;
                assert(k.push(s.last())[i] == x);
            }
            assert(k.push(s.last())[k.len() as int] == s.last());
        }
    }
}

/// Keeping entries never lengthens a sequence.
pub proof fn lemma_keep_where_len<T>(s: Seq<T>, p: spec_fn(T) -> bool)
    ensures
        keep_where(s, p).len() <= s.len(),
    decreases s.len(),
{
    if s.len() > 0 {
        lemma_keep_where_len(s.drop_last(), p);
    }
}

/// Keeping entries from a sequence with no repeats leaves no repeats.
pub proof fn lemma_keep_where_no_dups<T>(s: Seq<T>, p: spec_fn(T) -> bool)
    requires
        s.no_duplicates(),
    ensures
        keep_where(s, p).no_duplicates(),
    decreases s.len(),
{
    if s.len() > 0 {
        let front = s.drop_last();
        assert(front.no_duplicates());
        lemma_keep_where_no_dups(front, p);
        if p(s.last()) {
            lemma_keep_where_contains(front, p, s.last());
            assert(!front.contains(s.last())) by {
                if front.contains(s.last()) {
                    let i = choose|i: int| 0 <= i < front.len() && front[i] == s.last();
                    assert(s[i] == s[s.len() - 1]);
                }
            }
            let k = keep_where(front, p);
            assert forall|i: int, j: int|
                0 <= i < j < k.push(s.last()).len() implies k.push(s.last())[i] != k.push(
                s.last(),
            )[j] by {
                if j == k.len() {
                    assert(k.push(s.last())[i] == k[i]);
                    assert(k.contains(k[i]));
                }
            }
        }
    }
}

/// Keeping entries shortens a sequence exactly when some entry fails.
pub proof fn lemma_keep_where_shorter<T>(s: Seq<T>, p: spec_fn(T) -> bool)
    ensures
        keep_where(s, p).len() < s.len() <==> exists|i: int| 0 <= i < s.len() && !p(#[trigger] s[i]),
    decreases s.len(),
{
    if s.len() > 0 {
        let front = s.drop_last();
        lemma_keep_where_shorter(front, p);
        lemma_keep_where_len(front, p);
        if exists|i: int| 0 <= i < front.len() && !p(#[trigger] front[i]) {
            let i = choose|i: int| 0 <= i < front.len() && !p(#[trigger] front[i]);
            assert(s[i] == front[i]);
        }
        if exists|i: int| 0 <= i < s.len() && !p(#[trigger] s[i]) {
            let i = choose|i: int| 0 <= i < s.len() && !p(#[trigger] s[i]);
            if i < s.len() - 1 {
                assert(front[i] == s[i]);
            }
        }
    }
}

/// Keeping entries that all pass changes nothing.
pub proof fn lemma_keep_where_all<T>(s: Seq<T>, p: spec_fn(T) -> bool)
    requires
        forall|i: int| 0 <= i < s.len() ==> p(#[trigger] s[i]),
    ensures
        keep_where(s, p) == s,
    decreases s.len(),
{
    if s.len() > 0 {
        let front = s.drop_last();
        assert forall|i: int| 0 <= i < front.len() implies p(#[trigger] front[i]) by {
            assert(front[i] == s[i]);
        }
        lemma_keep_where_all(front, p);
        assert(p(s[s.len() - 1]));
        assert(front.push(s.last()) =~= s);
    }
}

} // verus!
