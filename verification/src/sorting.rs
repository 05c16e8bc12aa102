use vstd::prelude::*;
use vstd::multiset::Multiset;
use vstd::seq_lib::to_multiset_insert;
use vstd::string::StrSliceExecFns;

verus! {

/// Lexicographic order on text, character by character (code points). On
/// UTF-8 strings this is the order in which `str` compares them.
pub open spec fn chars_lt(a: Seq<char>, b: Seq<char>) -> bool
    decreases a.len(),
{
    if a.len() == 0 {
        b.len() > 0
    } else if b.len() == 0 {
        false
    } else if a[0] != b[0] {
        (a[0] as u32) < (b[0] as u32)
    } else {
        chars_lt(a.drop_first(), b.drop_first())
    }
}

/// No text comes before itself.
pub proof fn lemma_chars_lt_irreflexive(a: Seq<char>)
    ensures
        !chars_lt(a, a),
    decreases a.len(),
{
    if a.len() > 0 {
        lemma_chars_lt_irreflexive(a.drop_first());
    }
}

/// The order is transitive.
pub proof fn lemma_chars_lt_transitive(a: Seq<char>, b: Seq<char>, c: Seq<char>)
    requires
        chars_lt(a, b),
        chars_lt(b, c),
    ensures
        chars_lt(a, c),
    decreases a.len(),
{
    if a.len() > 0 && b.len() > 0 && c.len() > 0 {
        if a[0] == b[0] && b[0] == c[0] {
            lemma_chars_lt_transitive(a.drop_first(), b.drop_first(), c.drop_first());
        }
    }
}

/// Two texts of which neither comes first are equal.
pub proof fn lemma_chars_lt_total(a: Seq<char>, b: Seq<char>)
    requires
        !chars_lt(a, b),
        !chars_lt(b, a),
    ensures
        a == b,
    decreases a.len(),
{
    if a.len() > 0 && b.len() > 0 {
        if a[0] == b[0] {
            lemma_chars_lt_total(a.drop_first(), b.drop_first());
            assert(a =~= seq![a[0]] + a.drop_first());
            assert(b =~= seq![b[0]] + b.drop_first());
        } else {
            vstd::utf8::char_u32_cast(a[0], a[0] as u32);
            vstd::utf8::char_u32_cast(b[0], b[0] as u32);
        }
    } else {
        assert(a =~= b);
    }
}

/// Whether `a` comes before `b`.
pub fn str_lt(a: &str, b: &str) -> (r: bool)
    ensures
        r == chars_lt(a@, b@),
{
    let n = a.unicode_len();
    let m = b.unicode_len();
    let mut i: usize = 0;
    proof {
        assert(a@.skip(0) =~= a@);
        assert(b@.skip(0) =~= b@);
        assert(a@.subrange(0, 0) =~= b@.subrange(0, 0));
    }
    while i < n && i < m
        invariant
            n == a@.len(),
            m == b@.len(),
            0 <= i <= n,
            i <= m,
            a@.subrange(0, i as int) == b@.subrange(0, i as int),
            chars_lt(a@, b@) == chars_lt(a@.skip(i as int), b@.skip(i as int)),
        decreases n - i,
    {
        let x = a.get_char(i);
        let y = b.get_char(i);
        proof {
            assert(a@.skip(i as int)[0] == x);
            assert(b@.skip(i as int)[0] == y);
            assert(a@.skip(i as int).drop_first() =~= a@.skip(i + 1));
            assert(b@.skip(i as int).drop_first() =~= b@.skip(i + 1));
        }
        if x != y {
            return (x as u32) < (y as u32);
        }
        proof {
            assert(a@.subrange(0, i + 1) =~= a@.subrange(0, i as int).push(x));
            assert(b@.subrange(0, i + 1) =~= b@.subrange(0, i as int).push(y));
        }
        i = i + 1;
    }
    proof {
        if i == n {
            assert(a@.skip(i as int).len() == 0);
        } else {
            assert(b@.skip(i as int).len() == 0);
        }
    }
    i == n && i < m
}

/// Values ordered by a text key.
pub trait Keyed: Sized {
    /// The text the value is ordered by.
    spec fn key(&self) -> Seq<char>;

    /// The text the value is ordered by.
    fn key_str(&self) -> (r: &str)
        ensures
            r@ == self.key(),
    ;
}

/// The keys never decrease along `s`.
pub open spec fn sorted_by_key<T: Keyed>(s: Seq<T>) -> bool {
    forall|i: int, j: int| 0 <= i < j < s.len() ==> !chars_lt(#[trigger] s[j].key(), #[trigger] s[i].key())
}

/// Insert `x` into sorted `v` after every value whose key does not come
/// after its own, so that values with equal keys keep their order.
pub fn insert_sorted<T: Keyed>(v: &mut Vec<T>, x: T)
    requires
        sorted_by_key(old(v)@),
    ensures
        sorted_by_key(final(v)@),
        final(v)@.to_multiset() == old(v)@.to_multiset().insert(x),
        final(v)@.len() == old(v)@.len() + 1,
{
    let n = v.len();
    let mut pos: usize = 0;
    while pos < n && !str_lt(x.key_str(), v[pos].key_str())
        invariant
            n == v@.len(),
            v@ == old(v)@,
            0 <= pos <= n,
            forall|k: int| 0 <= k < pos ==> !chars_lt(x.key(), #[trigger] v@[k].key()),
        decreases n - pos,
    {
        pos = pos + 1;
    }
    let ghost before = v@;
    proof {
        to_multiset_insert(before, pos as int, x);
        assert forall|k: int| pos <= k < n implies chars_lt(x.key(), #[trigger] before[k].key()) by {
            assert(chars_lt(x.key(), before[pos as int].key()));
            if k > pos {
                if !chars_lt(before[pos as int].key(), before[k].key()) {
                    assert(!chars_lt(before[k].key(), before[pos as int].key()));
                    lemma_chars_lt_total(before[pos as int].key(), before[k].key());
                } else {
                    lemma_chars_lt_transitive(x.key(), before[pos as int].key(), before[k].key());
                }
            }
        }
    }
    v.insert(pos, x);
    proof {
        let w = v@;
        assert(w =~= before.insert(pos as int, x));
        assert forall|i: int, j: int| 0 <= i < j < w.len() implies !chars_lt(#[trigger] w[j].key(), #[trigger] w[i].key()) by {
            if j < pos {
                assert(w[i] == before[i] && w[j] == before[j]);
            } else if j == pos {
                assert(w[i] == before[i]);
                assert(w[j] == x);
                if chars_lt(x.key(), before[i].key()) {
                    assert(false);
                }
            } else if i < pos {
                assert(w[i] == before[i] && w[j] == before[j - 1]);
            } else if i == pos {
                assert(w[i] == x && w[j] == before[j - 1]);
                assert(chars_lt(x.key(), before[j - 1].key()));
                if chars_lt(before[j - 1].key(), x.key()) {
                    lemma_chars_lt_transitive(x.key(), before[j - 1].key(), x.key());
                    lemma_chars_lt_irreflexive(x.key());
                }
            } else {
                assert(w[i] == before[i - 1] && w[j] == before[j - 1]);
            }
        }
    }
}

/// The values of `v` ordered by key; values with equal keys keep their
/// order.
pub fn sort_by_key<T: Keyed>(v: Vec<T>) -> (r: Vec<T>)
    ensures
        sorted_by_key(r@),
        r@.to_multiset() == v@.to_multiset(),
{
    let mut src = v;
    let mut out: Vec<T> = Vec::new();
    let ghost orig = src@;
    proof {
        broadcast use vstd::seq_lib::group_to_multiset_ensures, vstd::multiset::group_multiset_axioms;
        assert(out@.to_multiset() =~= Multiset::<T>::empty());
        assert(out@.to_multiset().add(src@.to_multiset()) =~= orig.to_multiset());
    }
    while src.len() > 0
        invariant
            sorted_by_key(out@),
            out@.to_multiset().add(src@.to_multiset()) == orig.to_multiset(),
        decreases src@.len(),
    {
        let ghost before_src = src@;
        let x = src.remove(0);
        proof {
            vstd::seq_lib::to_multiset_remove(before_src, 0);
        }
        let ghost before_out = out@;
        insert_sorted(&mut out, x);
        proof {
            broadcast use vstd::seq_lib::group_to_multiset_ensures, vstd::multiset::group_multiset_axioms;
            assert(before_src.remove(0) == src@);
            assert(src@.to_multiset() =~= before_src.to_multiset().remove(x));
            assert(before_src.to_multiset().count(x) > 0) by {
                assert(before_src.contains(before_src[0]));
            }
            assert(out@.to_multiset().add(src@.to_multiset()) =~= before_out.to_multiset().add(before_src.to_multiset()));
        }
    }
    proof {
        broadcast use vstd::seq_lib::group_to_multiset_ensures, vstd::multiset::group_multiset_axioms;
        assert(src@.to_multiset() =~= Multiset::<T>::empty());
        assert(out@.to_multiset().add(src@.to_multiset()) =~= out@.to_multiset());
    }
    out
}

} // verus!
