use vstd::prelude::*;

pub use crate::seqs::{
    keep_where, lemma_keep_where_all, lemma_keep_where_contains, lemma_keep_where_len,
    lemma_keep_where_no_dups, lemma_keep_where_shorter,
};
use crate::social::types::{addr_eq, Addr};

verus! {

/// Values that carry an address and a time stamp, by which lists of them
/// are filtered.
pub trait Tagged: Sized {
    /// The address and time stamp of the value.
    spec fn tag(&self) -> (Addr, u64);

    /// The address and time stamp of the value.
    fn tag_exec(&self) -> (r: (Addr, u64))
        ensures
            r == self.tag(),
    ;
}

/// Which tagged values to keep.
pub enum Keep {
    /// Those whose address is not this one.
    NotAddr(Addr),
    /// Those whose time stamp has not aged past `limit` at `now`.
    Fresh { now: u64, limit: u64 },
}

/// Whether `k` keeps a value with tag `t`.
pub open spec fn keeps(k: Keep, t: (Addr, u64)) -> bool {
    match k {
        Keep::NotAddr(a) => t.0 != a,
        Keep::Fresh { now, limit } => now - t.1 <= limit,
    }
}

/// `k` as a test on values.
pub open spec fn keep_test<T: Tagged>(k: Keep) -> spec_fn(T) -> bool {
    |x: T| keeps(k, x.tag())
}

/// Whether `k` keeps a value with tag `t`.
pub fn keeps_exec(k: &Keep, t: (Addr, u64)) -> (b: bool)
    ensures
        b == keeps(*k, t),
{
    match k {
        Keep::NotAddr(a) => !addr_eq(&t.0, a),
        Keep::Fresh { now, limit } => !(*now > t.1 && *now - t.1 > *limit),
    }
}

/// The addresses of a list of tagged values, in order.
pub open spec fn tag_addrs<T: Tagged>(s: Seq<T>) -> Seq<Addr> {
    s.map_values(|x: T| x.tag().0)
}

/// An address occurs among the tags exactly when some value carries it.
pub proof fn lemma_tag_addrs_contains<T: Tagged>(s: Seq<T>, a: Addr)
    ensures
        tag_addrs(s).contains(a) <==> exists|i: int| 0 <= i < s.len() && (#[trigger] s[i].tag()).0 == a,
{
    if tag_addrs(s).contains(a) {
        let i = choose|i: int| 0 <= i < tag_addrs(s).len() && tag_addrs(s)[i] == a;
        assert(s[i].tag().0 == a);
    }
    if exists|i: int| 0 <= i < s.len() && (#[trigger] s[i].tag()).0 == a {
        let i = choose|i: int| 0 <= i < s.len() && (#[trigger] s[i].tag()).0 == a;
        assert(tag_addrs(s)[i] == a);
    }
}

/// Kept values carry only addresses that the whole list carries.
pub proof fn lemma_tag_addrs_subset<T: Tagged>(s: Seq<T>, p: spec_fn(T) -> bool, a: Addr)
    ensures
        tag_addrs(keep_where(s, p)).contains(a) ==> tag_addrs(s).contains(a),
        tag_addrs(s).contains(a) && (forall|x: T| x.tag().0 == a ==> #[trigger] p(x))
            ==> tag_addrs(keep_where(s, p)).contains(a),
{
    let k = keep_where(s, p);
    lemma_tag_addrs_contains(k, a);
    lemma_tag_addrs_contains(s, a);
    if tag_addrs(k).contains(a) {
        let i = choose|i: int| 0 <= i < k.len() && (#[trigger] k[i].tag()).0 == a;
        assert(k.contains(k[i]));
        lemma_keep_where_contains(s, p, k[i]);
        let j = choose|j: int| 0 <= j < s.len() && s[j] == k[i];
        assert(s[j].tag().0 == a);
    }
    if tag_addrs(s).contains(a) && (forall|x: T| x.tag().0 == a ==> #[trigger] p(x)) {
        let j = choose|j: int| 0 <= j < s.len() && (#[trigger] s[j].tag()).0 == a;
        assert(s.contains(s[j]));
        assert(p(s[j]));
        lemma_keep_where_contains(s, p, s[j]);
        let i = choose|i: int| 0 <= i < k.len() && k[i] == s[j];
        assert(k[i].tag().0 == a);
    }
}

/// Keeping values whose addresses are distinct leaves them distinct.
pub proof fn lemma_tag_addrs_no_dups<T: Tagged>(s: Seq<T>, p: spec_fn(T) -> bool)
    requires
        tag_addrs(s).no_duplicates(),
    ensures
        tag_addrs(keep_where(s, p)).no_duplicates(),
    decreases s.len(),
{
    if s.len() > 0 {
        let front = s.drop_last();
        let l = s.last();
        let kf = keep_where(front, p);
        assert(tag_addrs(s) =~= tag_addrs(front).push(l.tag().0));
        assert(tag_addrs(front).no_duplicates()) by {
            assert forall|i: int, j: int| 0 <= i < j < tag_addrs(front).len() implies tag_addrs(front)[i] != tag_addrs(front)[j] by {
                assert(tag_addrs(s)[i] == tag_addrs(front)[i]);
                assert(tag_addrs(s)[j] == tag_addrs(front)[j]);
            }
        }
        lemma_tag_addrs_no_dups(front, p);
        if p(l) {
            assert(!tag_addrs(front).contains(l.tag().0)) by {
                if tag_addrs(front).contains(l.tag().0) {
                    let i = choose|i: int| 0 <= i < tag_addrs(front).len() && tag_addrs(front)[i] == l.tag().0;
                    assert(tag_addrs(s)[i] == tag_addrs(s)[s.len() - 1]);
                }
            }
            lemma_tag_addrs_subset(front, p, l.tag().0);
            let t = tag_addrs(kf.push(l));
            assert(t =~= tag_addrs(kf).push(l.tag().0));
            assert forall|i: int, j: int| 0 <= i < j < t.len() implies t[i] != t[j] by {
                assert(t[i] == tag_addrs(kf)[i]);
                if j == kf.len() {
                    assert(tag_addrs(kf).contains(tag_addrs(kf)[i]));
                } else {
                    assert(t[j] == tag_addrs(kf)[j]);
                }
            }
        }
    }
}

/// Keep, in place and in order, the values of `v` that `k` keeps.
pub fn retain_tagged<T: Tagged>(v: &mut Vec<T>, k: Keep)
    ensures
        final(v)@ == keep_where(old(v)@, keep_test::<T>(k)),
{
    let ghost orig = v@;
    let total = v.len();
    let mut i: usize = 0;
    let mut j: usize = 0;
    proof {
        assert(orig.take(0) =~= Seq::<T>::empty());
        assert(orig.skip(0) =~= orig);
        assert(v@ =~= keep_where(orig.take(0), keep_test::<T>(k)) + orig.skip(0));
    }
    while i < v.len()
        invariant
            orig == old(v)@,
            orig.len() == total,
            0 <= j <= orig.len(),
            i == keep_where(orig.take(j as int), keep_test::<T>(k)).len(),
            v@ == keep_where(orig.take(j as int), keep_test::<T>(k)) + orig.skip(j as int),
        decreases orig.len() - j,
    {
        let ghost kept = keep_where(orig.take(j as int), keep_test::<T>(k));
        proof {
            assert(j < orig.len());
            assert(v@[i as int] == orig[j as int]);
            assert(orig.take(j + 1).drop_last() =~= orig.take(j as int));
            assert(orig.take(j + 1).last() == orig[j as int]);
        }
        let t = v[i].tag_exec();
        if keeps_exec(&k, t) {
            proof {
                assert(kept.push(orig[j as int]) + orig.skip(j + 1) =~= kept + orig.skip(j as int));
            }
            i = i + 1;
        } else {
            let ghost before = v@;
            v.remove(i);
            proof {
                assert(before.remove(i as int) =~= kept + orig.skip(j + 1));
            }
        }
        j = j + 1;
    }
    proof {
        assert(j == orig.len());
        assert(orig.take(j as int) =~= orig);
        assert(orig.skip(j as int) =~= Seq::<T>::empty());
        assert(v@ =~= keep_where(orig, keep_test::<T>(k)));
    }
}

} // verus!
