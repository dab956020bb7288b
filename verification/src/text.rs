use vstd::prelude::*;
use vstd::std_specs::iter::IteratorSpec;

verus! {

broadcast use vstd::string::group_string_axioms, vstd::seq_lib::group_to_multiset_ensures, vstd::multiset::group_multiset_axioms;

/// Strict lexicographic order on character sequences, by code point.
pub open spec fn lex_lt(a: Seq<char>, b: Seq<char>) -> bool
    decreases a.len(),
{
    if b.len() == 0 {
        false
    } else if a.len() == 0 {
        true
    } else if a[0] != b[0] {
        a[0] < b[0]
    } else {
        lex_lt(a.drop_first(), b.drop_first())
    }
}

pub open spec fn lex_le(a: Seq<char>, b: Seq<char>) -> bool {
    lex_lt(a, b) || a == b
}

/// One sequence is a prefix of the other (textual `starts_with`).
pub open spec fn is_prefix(p: Seq<char>, s: Seq<char>) -> bool {
    p.len() <= s.len() && p == s.subrange(0, p.len() as int)
}

pub proof fn lemma_lex_lt_total(a: Seq<char>, b: Seq<char>)
    ensures
        lex_lt(a, b) || lex_lt(b, a) || a == b,
    decreases a.len(),
{
    if b.len() == 0 || a.len() == 0 {
        if a.len() == b.len() {
            assert(a =~= b);
        }
    } else if a[0] == b[0] {
        lemma_lex_lt_total(a.drop_first(), b.drop_first());
        if a.drop_first() == b.drop_first() {
            assert forall|k: int| 0 <= k < a.len() implies a[k] == b[k] by {
                if k > 0 {
                    assert(a[k] == a.drop_first()[k - 1]);
                    assert(b[k] == b.drop_first()[k - 1]);
                }
            }
            assert(a =~= b);
        }
    }
}

pub proof fn lemma_lex_lt_asym(a: Seq<char>, b: Seq<char>)
    requires
        lex_lt(a, b),
    ensures
        !lex_lt(b, a),
        a != b,
    decreases a.len(),
{
    if b.len() == 0 {
    } else if a.len() == 0 {
    } else if a[0] == b[0] {
        lemma_lex_lt_asym(a.drop_first(), b.drop_first());
        assert(a != b) by {
            if a == b {
                assert(a.drop_first() =~= b.drop_first());
            }
        }
    }
}

pub proof fn lemma_lex_lt_trans(a: Seq<char>, b: Seq<char>, c: Seq<char>)
    requires
        lex_lt(a, b),
        lex_lt(b, c),
    ensures
        lex_lt(a, c),
    decreases a.len() + b.len() + c.len(),
{
    if b.len() == 0 || c.len() == 0 || a.len() == 0 {
    } else if a[0] == b[0] && b[0] == c[0] {
        lemma_lex_lt_trans(a.drop_first(), b.drop_first(), c.drop_first());
    }
}

pub proof fn lemma_lex_le_trans(a: Seq<char>, b: Seq<char>, c: Seq<char>)
    requires
        lex_le(a, b),
        lex_le(b, c),
    ensures
        lex_le(a, c),
{
    if a != b && b != c {
        lemma_lex_lt_trans(a, b, c);
    }
}

/// Collect the characters of a string slice into a vector for random access.
pub fn chars_vec(s: &str) -> (v: Vec<char>)
    ensures
        v@ == s@,
{
    let mut v: Vec<char> = Vec::new();
    let mut it = s.chars();
    loop
        invariant
            v@ + it.remaining() == s@,
        decreases s@.len() - v@.len(),
    {
        match it.next() {
            Some(c) => {
                v.push(c);
            }
            None => {
                assert(v@ =~= v@ + it.remaining());
                return v;
            }
        }
    }
}

/// Decide strict lexicographic order on two strings.
pub fn str_lex_lt(a: &str, b: &str) -> (r: bool)
    ensures
        r == lex_lt(a@, b@),
{
    let av = chars_vec(a);
    let bv = chars_vec(b);
    let mut i: usize = 0;
    proof {
        assert(a@.skip(0) =~= a@);
        assert(b@.skip(0) =~= b@);
    }
    loop
        invariant
            av@ == a@,
            bv@ == b@,
            i <= av.len(),
            i <= bv.len(),
            forall|k: int| 0 <= k < i ==> a@[k] == b@[k],
            lex_lt(a@, b@) == lex_lt(a@.skip(i as int), b@.skip(i as int)),
        decreases av.len() - i,
    {
        if i == bv.len() {
            assert(b@.skip(i as int).len() == 0);
            return false;
        }
        if i == av.len() {
            assert(a@.skip(i as int).len() == 0);
            return true;
        }
        let ca = av[i];
        let cb = bv[i];
        if ca != cb {
            assert(a@.skip(i as int)[0] == ca && b@.skip(i as int)[0] == cb);
            return ca < cb;
        }
        proof {
            assert(a@.skip(i as int).drop_first() =~= a@.skip(i + 1));
            assert(b@.skip(i as int).drop_first() =~= b@.skip(i + 1));
        }
        i = i + 1;
    }
}

pub fn str_lex_le(a: &str, b: &str) -> (r: bool)
    ensures
        r == lex_le(a@, b@),
{
    let gt = str_lex_lt(b, a);
    proof {
        lemma_lex_lt_total(a@, b@);
        if lex_lt(a@, b@) {
            lemma_lex_lt_asym(a@, b@);
        }
    }
    !gt
}

/// Decide textual equality of two string slices.
pub fn str_eq(a: &str, b: &str) -> (r: bool)
    ensures
        r == (a@ == b@),
{
    let av = chars_vec(a);
    let bv = chars_vec(b);
    if av.len() != bv.len() {
        return false;
    }
    let mut i: usize = 0;
    loop
        invariant
            av@ == a@,
            bv@ == b@,
            a@.len() == b@.len(),
            i <= av.len(),
            forall|k: int| 0 <= k < i ==> a@[k] == b@[k],
        decreases av.len() - i,
    {
        if i == av.len() {
            proof {
                assert(a@ =~= b@);
            }
            return true;
        }
        if av[i] != bv[i] {
            proof {
                if a@ == b@ {
                    assert(a@[i as int] == b@[i as int]);
                }
            }
            return false;
        }
        i = i + 1;
    }
}

/// Decide whether `p` is a textual prefix of `s`.
pub fn str_is_prefix(p: &str, s: &str) -> (r: bool)
    ensures
        r == is_prefix(p@, s@),
{
    let pv = chars_vec(p);
    let sv = chars_vec(s);
    if pv.len() > sv.len() {
        return false;
    }
    let mut i: usize = 0;
    loop
        invariant
            pv@ == p@,
            sv@ == s@,
            p@.len() <= s@.len(),
            i <= pv.len(),
            forall|k: int| 0 <= k < i ==> p@[k] == s@[k],
        decreases pv.len() - i,
    {
        if i == pv.len() {
            assert(p@ =~= s@.subrange(0, p@.len() as int));
            return true;
        }
        if pv[i] != sv[i] {
            assert(p@ != s@.subrange(0, p@.len() as int)) by {
                if p@ == s@.subrange(0, p@.len() as int) {
                    assert(p@[i as int] == s@.subrange(0, p@.len() as int)[i as int]);
                }
            }
            return false;
        }
        i = i + 1;
    }
}

/// Sort a vector of strings ascending by code-point order, keeping multiplicity.
pub fn sort_strings(v: Vec<String>) -> (r: Vec<String>)
    ensures
        r@.map_values(|s: String| s@).to_multiset() == v@.map_values(|s: String| s@).to_multiset(),
        forall|i: int, j: int| 0 <= i < j < r@.len() ==> lex_le(#[trigger] r@[i]@, #[trigger] r@[j]@),
{
    let mut src = v;
    let mut out: Vec<String> = Vec::new();
    loop
        invariant
            out@.map_values(|s: String| s@).to_multiset().add(
                src@.map_values(|s: String| s@).to_multiset(),
            ) == v@.map_values(|s: String| s@).to_multiset(),
            forall|i: int, j: int|
                0 <= i < j < out@.len() ==> lex_le(#[trigger] out@[i]@, #[trigger] out@[j]@),
            forall|i: int, j: int|
                0 <= i < out@.len() && 0 <= j < src@.len() ==> lex_le(
                    #[trigger] out@[i]@,
                    #[trigger] src@[j]@,
                ),
        decreases src@.len(),
    {
        if src.len() == 0 {
            proof {
                assert(src@.map_values(|s: String| s@) =~= Seq::<Seq<char>>::empty());
                assert(out@.map_values(|s: String| s@).to_multiset() =~= v@.map_values(
                    |s: String| s@,
                ).to_multiset());
            }
            return out;
        }
        // find index of a minimal element
        let mut min_i: usize = 0;
        let mut j: usize = 1;
        while j < src.len()
            invariant
                src@.len() > 0,
                min_i < j,
                j <= src@.len(),
                forall|k: int| 0 <= k < j ==> lex_le(src@[min_i as int]@, #[trigger] src@[k]@),
            decreases src@.len() - j,
        {
            if str_lex_lt(src[j].as_str(), src[min_i].as_str()) {
                proof {
                    let m = src@[min_i as int]@;
                    let n = src@[j as int]@;
                    lemma_lex_lt_asym(n, m);
                    assert forall|k: int| 0 <= k < j + 1 implies lex_le(n, #[trigger] src@[k]@) by {
                        if k < j {
                            lemma_lex_le_trans(n, m, src@[k]@);
                        }
                    }
                }
                min_i = j;
            } else {
                proof {
                    lemma_lex_lt_total(src@[min_i as int]@, src@[j as int]@);
                }
            }
            j = j + 1;
        }
        let ghost old_src = src@;
        let ghost old_out = out@;
        let picked = src.remove(min_i);
        out.push(picked);
        proof {
            let f = |s: String| s@;
            let ms = old_src.map_values(f);
            let p = ms.subrange(0, min_i as int);
            let q = ms.subrange(min_i + 1, ms.len() as int);
            let mid = seq![picked@];
            assert(ms =~= p + (mid + q));
            assert(src@.map_values(f) =~= p + q);
            vstd::seq_lib::lemma_multiset_commutative(p, mid + q);
            vstd::seq_lib::lemma_multiset_commutative(mid, q);
            vstd::seq_lib::lemma_multiset_commutative(p, q);
            assert(out@.map_values(f) =~= old_out.map_values(f) + mid);
            vstd::seq_lib::lemma_multiset_commutative(old_out.map_values(f), mid);
            assert(out@.map_values(f).to_multiset().add(src@.map_values(f).to_multiset())
                =~= v@.map_values(f).to_multiset());
            assert forall|i: int, j2: int|
                0 <= i < out@.len() && 0 <= j2 < src@.len() implies lex_le(
                #[trigger] out@[i]@,
                #[trigger] src@[j2]@,
            ) by {
                let sj = src@[j2]@;
                if j2 < min_i {
                    assert(src@[j2] == old_src[j2]);
                } else {
                    assert(src@[j2] == old_src[j2 + 1]);
                }
                if i < old_out.len() {
                    lemma_lex_le_trans(out@[i]@, picked@, sj);
                }
            }
        }
    }
}

} // verus!