use vstd::prelude::*;

use crate::Handle;

verus! {

/// `s` with every occurrence of `h` removed, order otherwise kept.
pub open spec fn remove_all(s: Seq<Handle>, h: Handle) -> Seq<Handle>
    decreases s.len(),
{
    if s.len() == 0 {
        s
    } else if s[0] == h {
        remove_all(s.drop_first(), h)
    } else {
        seq![s[0]] + remove_all(s.drop_first(), h)
    }
}

pub proof fn lemma_remove_all_push(s: Seq<Handle>, x: Handle, h: Handle)
    ensures
        remove_all(s.push(x), h) == if x == h {
            remove_all(s, h)
        } else {
            remove_all(s, h).push(x)
        },
    decreases s.len(),
{
    if s.len() == 0 {
        assert(s.push(x).drop_first() =~= Seq::<Handle>::empty());
        if x != h {
            assert(seq![x] + remove_all(Seq::<Handle>::empty(), h) =~= remove_all(
                s,
                h,
            ).push(x));
        }
    } else {
        assert(s.push(x).drop_first() =~= s.drop_first().push(x));
        lemma_remove_all_push(s.drop_first(), x, h);
        if s[0] != h {
            if x != h {
                assert(seq![s[0]] + remove_all(s.drop_first(), h).push(x) =~= (seq![s[0]]
                    + remove_all(s.drop_first(), h)).push(x));
            }
        }
    }
}

/// Removal really removes: no `h` is left, and everything left was there.
pub proof fn lemma_remove_all_members(s: Seq<Handle>, h: Handle)
    ensures
        forall|i: int|
            0 <= i < remove_all(s, h).len() ==> #[trigger] remove_all(s, h)[i] != h
                && s.contains(remove_all(s, h)[i]),
        remove_all(s, h).len() <= s.len(),
    decreases s.len(),
{
    if s.len() > 0 {
        lemma_remove_all_members(s.drop_first(), h);
        assert(forall|y: Handle| s.drop_first().contains(y) ==> s.contains(y)) by {
            assert(forall|j: int|
                0 <= j < s.drop_first().len() ==> s.drop_first()[j] == s[j + 1]);
        }
        assert(s.contains(s[0]));
    }
}

/// Copy of `v` with every occurrence of `h` removed.
pub fn remove_handle(v: &Vec<Handle>, h: Handle) -> (r: Vec<Handle>)
    ensures
        r@ == remove_all(v@, h),
{
    let mut r: Vec<Handle> = Vec::new();
    let n = v.len();
    let mut i: usize = 0;
    proof {
        assert(v@.take(0) =~= Seq::<Handle>::empty());
    }
    while i < n
        invariant
            n == v@.len(),
            i <= n,
            r@ == remove_all(v@.take(i as int), h),
        decreases n - i,
    {
        proof {
            lemma_remove_all_push(v@.take(i as int), v@[i as int], h);
            assert(v@.take(i as int).push(v@[i as int]) =~= v@.take(i + 1));
        }
        let x = v[i];
        if x != h {
            r.push(x);
        }
        i += 1;
    }
    proof {
        assert(v@.take(n as int) =~= v@);
    }
    r
}

} // verus!
