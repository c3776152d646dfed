//! Comparisons of resource and pass names.
use vstd::prelude::*;

verus! {

/// The two names are the same character sequence.
pub fn str_eq(a: &String, b: &String) -> (r: bool)
    ensures
        r == (a@ == b@),
{
    a.eq(b)
}

} // verus!

verus! {

/// `pat` occurs in `s` as a contiguous run of characters.
pub open spec fn has_substring(s: Seq<char>, pat: Seq<char>) -> bool {
    exists|i: int| 0 <= i <= s.len() - pat.len() && #[trigger] s.subrange(i, i + pat.len()) == pat
}

/// The characters of `s`, in order.
pub fn chars_of(s: &str) -> (r: Vec<char>)
    ensures
        r@ == s@,
{
    let mut r: Vec<char> = Vec::new();
    for c in it: s.chars()
        invariant
            r@ == it.seq().take(it.index() as int),
            it.seq() == s@,
    {
        r.push(c);
    }
    r
}

/// Whether `pat` occurs in `s`.
pub fn str_contains(s: &str, pat: &str) -> (r: bool)
    ensures
        r == has_substring(s@, pat@),
{
    let sc = chars_of(s);
    let pc = chars_of(pat);
    if pc.len() > sc.len() {
        proof {
            assert forall|i: int| 0 <= i <= s@.len() - pat@.len() implies #[trigger] s@.subrange(
                i,
                i + pat@.len(),
            ) != pat@ by {}
        }
        return false;
    }
    let sl = sc.len();
    let pl = pc.len();
    let last = sl - pl;
    let mut i: usize = 0;
    while i <= last
        invariant
            sc@ == s@,
            pc@ == pat@,
            last == sl - pl,
            sl == sc@.len(),
            pl == pc@.len(),
            pl <= sl,
            i <= last + 1,
            forall|q: int| 0 <= q < i ==> #[trigger] sc@.subrange(q, q + pc@.len()) != pc@,
        decreases last + 1 - i,
    {
        let mut j: usize = 0;
        let mut ok = true;
        while j < pc.len()
            invariant
                i <= last,
                last == sl - pl,
                sl == sc@.len(),
                pl == pc@.len(),
                pl <= sl,
                j <= pc@.len(),
                ok == (forall|jj: int| 0 <= jj < j ==> sc@[i + jj] == pc@[jj]),
            decreases pc@.len() - j,
        {
            if sc[i + j] != pc[j] {
                ok = false;
            }
            j += 1;
        }
        if ok {
            assert(sc@.subrange(i as int, i + pc@.len()) =~= pc@);
            return true;
        }
        proof {
            assert(sc@.subrange(i as int, i + pc@.len()) != pc@) by {
                let jj = choose|jj: int| 0 <= jj < pc@.len() && sc@[i + jj] != pc@[jj];
                assert(sc@.subrange(i as int, i + pc@.len())[jj] == sc@[i + jj]);
            }
        }
        if i == last {
            proof {
                assert forall|q: int| 0 <= q <= s@.len() - pat@.len() implies #[trigger] s@.subrange(
                    q,
                    q + pat@.len(),
                ) != pat@ by {
                    if q < i {
                        assert(sc@.subrange(q, q + pc@.len()) != pc@);
                    }
                }
            }
            return false;
        }
        i += 1;
    }
    proof {
        assert forall|q: int| 0 <= q <= s@.len() - pat@.len() implies #[trigger] s@.subrange(
            q,
            q + pat@.len(),
        ) != pat@ by {
            assert(sc@.subrange(q, q + pc@.len()) != pc@);
        }
    }
    false
}

} // verus!
