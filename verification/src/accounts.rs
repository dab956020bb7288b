use vstd::prelude::*;
use crate::text::{chars_vec, lex_le, lex_lt, sort_strings, lemma_lex_lt_trans};
use vstd::string::StrSliceExecFns;
use vstd::string::StringExecFns;

verus! {

broadcast use vstd::string::group_string_axioms, vstd::seq_lib::group_to_multiset_ensures;

/// Some element of `v` reads as the text `x`.
pub open spec fn contains_str(v: Seq<String>, x: Seq<char>) -> bool {
    exists|i: int| 0 <= i < v.len() && (#[trigger] v[i])@ == x
}

/// `x` is `a` itself or a proper prefix of `a` cut at a `:` boundary.
pub open spec fn is_colon_prefix_of(x: Seq<char>, a: Seq<char>) -> bool {
    ||| x == a
    ||| (0 < x.len() < a.len() && a[x.len() as int] == ':' && x == a.subrange(0, x.len() as int))
}

/// `x` stems from one of the accounts: it is that account or one of its
/// `:`-ancestors.
pub open spec fn from_account(accounts: Seq<String>, x: Seq<char>) -> bool {
    exists|i: int| 0 <= i < accounts.len() && is_colon_prefix_of(x, (#[trigger] accounts[i])@)
}

/// The closure is prefix-closed along `:` boundaries.
pub open spec fn prefix_closed(v: Seq<String>) -> bool {
    forall|j: int, k: int|
        0 <= j < v.len() && 0 < k < v[j]@.len() && #[trigger] v[j]@[k] == ':' ==> contains_str(
            v,
            v[j]@.subrange(0, k),
        )
}

/// All the `:`-ancestors of one account, shortest first, then the account
/// itself.
fn account_ancestors(a: &String, out: &mut Vec<String>)
    ensures
        final(out)@.len() > old(out)@.len(),
        forall|i: int| 0 <= i < old(out)@.len() ==> final(out)@[i] == old(out)@[i],
        contains_str(final(out)@, a@),
        forall|j: int|
            old(out)@.len() <= j < final(out)@.len() ==> is_colon_prefix_of(
                (#[trigger] final(out)@[j])@,
                a@,
            ),
        forall|k: int|
            0 < k < a@.len() && a@[k] == ':' ==> contains_str(final(out)@, a@.subrange(0, k)),
{
    let av = chars_vec(a.as_str());
    let n = av.len();
    let ghost base = out@;
    let mut k: usize = 0;
    while k < n
        invariant
            av@ == a@,
            n == av@.len(),
            k <= n,
            out@.len() >= base.len(),
            forall|i: int| 0 <= i < base.len() ==> out@[i] == base[i],
            forall|j: int|
                base.len() <= j < out@.len() ==> is_colon_prefix_of((#[trigger] out@[j])@, a@),
            forall|k2: int|
                0 < k2 < k && a@[k2] == ':' ==> contains_str(out@, a@.subrange(0, k2)),
        decreases n - k,
    {
        if av[k] == ':' && k > 0 {
            let ghost pre_out = out@;
            let p = String::from_str(a.as_str().substring_char(0, k));
            out.push(p);
            proof {
                assert(out@[out@.len() - 1]@ == a@.subrange(0, k as int));
                assert(is_colon_prefix_of(out@[out@.len() - 1]@, a@));
                assert forall|k2: int|
                    0 < k2 < k + 1 && a@[k2] == ':' implies contains_str(
                    out@,
                    a@.subrange(0, k2),
                ) by {
                    if k2 == k {
                        assert(out@[out@.len() - 1]@ == a@.subrange(0, k2));
                    } else {
                        assert(contains_str(pre_out, a@.subrange(0, k2)));
                        let w = choose|w: int|
                            0 <= w < pre_out.len() && (#[trigger] pre_out[w])@ == a@.subrange(
                                0,
                                k2,
                            );
                        assert(out@[w] == pre_out[w]);
                        assert(out@[w]@ == a@.subrange(0, k2));
                    }
                }
            }
        }
        k = k + 1;
    }
    let ghost pre_fin = out@;
    out.push(a.clone());
    proof {
        assert(out@[out@.len() - 1]@ == a@);
        assert forall|k2: int|
            0 < k2 < a@.len() && a@[k2] == ':' implies contains_str(
            out@,
            a@.subrange(0, k2),
        ) by {
            assert(contains_str(pre_fin, a@.subrange(0, k2)));
            let w = choose|w: int|
                0 <= w < pre_fin.len() && (#[trigger] pre_fin[w])@ == a@.subrange(0, k2);
            assert(out@[w] == pre_fin[w]);
            assert(out@[w]@ == a@.subrange(0, k2));
        }
    }
}

/// Drop adjacent duplicates of a sorted vector; the result is strictly
/// ascending with the same set of texts.
pub(crate) fn dedup_sorted(v: Vec<String>) -> (out: Vec<String>)
    requires
        forall|i: int, j: int| 0 <= i < j < v@.len() ==> lex_le(#[trigger] v@[i]@, #[trigger] v@[j]@),
    ensures
        forall|i: int, j: int|
            0 <= i < j < out@.len() ==> lex_lt(#[trigger] out@[i]@, #[trigger] out@[j]@),
        forall|x: Seq<char>| contains_str(v@, x) == contains_str(out@, x),
{
    let n = v.len();
    let mut out: Vec<String> = Vec::new();
    let mut i: usize = 0;
    while i < n
        invariant
            n == v@.len(),
            i <= n,
            forall|a: int, b: int|
                0 <= a < b < v@.len() ==> lex_le(#[trigger] v@[a]@, #[trigger] v@[b]@),
            forall|a: int, b: int|
                0 <= a < b < out@.len() ==> lex_lt(#[trigger] out@[a]@, #[trigger] out@[b]@),
            forall|x: Seq<char>| contains_str(v@.subrange(0, i as int), x) == contains_str(out@, x),
            i > 0 && out@.len() > 0 ==> out@.last()@ == v@[i - 1]@,
            i > 0 ==> out@.len() > 0,
            i == 0 ==> out@.len() == 0,
        decreases n - i,
    {
        let ghost pre = out@;
        let take = if out.len() == 0 {
            true
        } else {
            let last_i = out.len() - 1;
            !out[last_i].eq(&v[i])
        };
        if take {
            proof {
                if out@.len() > 0 {
                    assert(out@.last()@ == v@[i - 1]@);
                    assert(lex_le(v@[i - 1]@, v@[i as int]@));
                    assert(lex_lt(out@.last()@, v@[i as int]@));
                }
            }
            out.push(v[i].clone());
            proof {
                assert forall|a: int, b: int|
                    0 <= a < b < out@.len() implies lex_lt(
                    #[trigger] out@[a]@,
                    #[trigger] out@[b]@,
                ) by {
                    if b == out@.len() - 1 {
                        if a < b - 1 {
                            lemma_lex_lt_trans(out@[a]@, out@[b - 1]@, out@[b]@);
                        }
                    }
                }
            }
        }
        proof {
            assert forall|x: Seq<char>|
                contains_str(v@.subrange(0, i + 1), x) == contains_str(out@, x) by {
                if contains_str(v@.subrange(0, i + 1), x) {
                    let w = choose|w: int|
                        0 <= w < i + 1 && (#[trigger] v@.subrange(0, i + 1)[w])@ == x;
                    if w < i {
                        assert(v@.subrange(0, i as int)[w]@ == x);
                        assert(contains_str(v@.subrange(0, i as int), x));
                        assert(contains_str(pre, x));
                        let w2 = choose|w2: int| 0 <= w2 < pre.len() && (#[trigger] pre[w2])@ == x;
                        assert(out@[w2] == pre[w2]);
                        assert(out@[w2]@ == x);
                        assert(contains_str(out@, x));
                    } else {
                        assert(v@[i as int]@ == x);
                        if take {
                            assert(out@.last()@ == x);
                            assert(contains_str(out@, x));
                        } else {
                            assert(out@.last()@ == v@[i - 1]@);
                            assert(out@.last()@ == v@[i as int]@);
                            assert(contains_str(out@, x));
                        }
                    }
                }
                if contains_str(out@, x) {
                    let w = choose|w: int| 0 <= w < out@.len() && (#[trigger] out@[w])@ == x;
                    if w < pre.len() {
                        assert(pre[w] == out@[w]);
                        assert(pre[w]@ == x);
                        assert(contains_str(pre, x));
                        assert(contains_str(v@.subrange(0, i as int), x));
                        let w2 = choose|w2: int|
                            0 <= w2 < i && (#[trigger] v@.subrange(0, i as int)[w2])@ == x;
                        assert(v@.subrange(0, i + 1)[w2]@ == x);
                        assert(contains_str(v@.subrange(0, i + 1), x));
                    } else {
                        assert(out@[w]@ == v@[i as int]@);
                        assert(v@.subrange(0, i + 1)[i as int]@ == x);
                        assert(contains_str(v@.subrange(0, i + 1), x));
                    }
                }
            }
        }
        i = i + 1;
    }
    proof {
        assert(v@.subrange(0, n as int) =~= v@);
    }
    out
}

/// Two vectors with equal text multisets hold the same texts.
pub(crate) proof fn lemma_multiset_membership(a: Seq<String>, b: Seq<String>)
    requires
        a.map_values(|s: String| s@).to_multiset() == b.map_values(|s: String| s@).to_multiset(),
    ensures
        forall|x: Seq<char>| contains_str(a, x) == contains_str(b, x),
{
    let fa = a.map_values(|s: String| s@);
    let fb = b.map_values(|s: String| s@);
    assert forall|x: Seq<char>| contains_str(a, x) == contains_str(b, x) by {
        if contains_str(a, x) {
            let i = choose|i: int| 0 <= i < a.len() && (#[trigger] a[i])@ == x;
            assert(fa[i] == x);
            assert(fa.contains(x));
            assert(fa.to_multiset().contains(x));
            assert(fb.to_multiset().contains(x));
            assert(fb.contains(x));
            let j = choose|j: int| 0 <= j < fb.len() && fb[j] == x;
            assert(b[j]@ == x);
        }
        if contains_str(b, x) {
            let i = choose|i: int| 0 <= i < b.len() && (#[trigger] b[i])@ == x;
            assert(fb[i] == x);
            assert(fb.contains(x));
            assert(fb.to_multiset().contains(x));
            assert(fa.to_multiset().contains(x));
            assert(fa.contains(x));
            let j = choose|j: int| 0 <= j < fa.len() && fa[j] == x;
            assert(a[j]@ == x);
        }
    }
}

/// The account hierarchy: from the referenced accounts, the closure that
/// also holds every ancestor along `:` boundaries, deduplicated and
/// sorted ascending.
#[verifier::rlimit(100)]
pub fn accounts_closure(accounts: &Vec<String>) -> (out: Vec<String>)
    ensures
        forall|i: int, j: int|
            0 <= i < j < out@.len() ==> lex_lt(#[trigger] out@[i]@, #[trigger] out@[j]@),
        forall|i: int| 0 <= i < accounts@.len() ==> contains_str(out@, (#[trigger] accounts@[i])@),
        prefix_closed(out@),
        forall|j: int| 0 <= j < out@.len() ==> from_account(accounts@, (#[trigger] out@[j])@),
{
    let mut gathered: Vec<String> = Vec::new();
    let n = accounts.len();
    let mut i: usize = 0;
    while i < n
        invariant
            n == accounts@.len(),
            i <= n,
            forall|i2: int| 0 <= i2 < i ==> contains_str(gathered@, (#[trigger] accounts@[i2])@),
            forall|j: int|
                0 <= j < gathered@.len() ==> from_account(
                    accounts@,
                    (#[trigger] gathered@[j])@,
                ),
            forall|i2: int, k: int|
                0 <= i2 < i && 0 < k < accounts@[i2]@.len() && #[trigger] accounts@[i2]@[k] == ':'
                    ==> contains_str(gathered@, accounts@[i2]@.subrange(0, k)),
        decreases n - i,
    {
        let ghost pre = gathered@;
        account_ancestors(&accounts[i], &mut gathered);
        proof {
            assert forall|i2: int|
                0 <= i2 < i + 1 implies contains_str(gathered@, (#[trigger] accounts@[i2])@) by {
                if i2 < i {
                    assert(contains_str(pre, accounts@[i2]@));
                    let w = choose|w: int|
                        0 <= w < pre.len() && (#[trigger] pre[w])@ == accounts@[i2]@;
                    assert(gathered@[w] == pre[w]);
                    assert(gathered@[w]@ == accounts@[i2]@);
                    assert(contains_str(gathered@, accounts@[i2]@));
                }
            }
            assert forall|j: int|
                0 <= j < gathered@.len() implies from_account(
                accounts@,
                (#[trigger] gathered@[j])@,
            ) by {
                if j < pre.len() {
                    assert(from_account(accounts@, pre[j]@));
                    let i3 = choose|i3: int|
                        0 <= i3 < accounts@.len() && is_colon_prefix_of(
                            pre[j]@,
                            (#[trigger] accounts@[i3])@,
                        );
                    assert(gathered@[j] == pre[j]);
                    assert(is_colon_prefix_of(gathered@[j]@, accounts@[i3]@));
                } else {
                    assert(is_colon_prefix_of(gathered@[j]@, accounts@[i as int]@));
                }
            }
            assert forall|i2: int, k: int|
                0 <= i2 < i + 1 && 0 < k < accounts@[i2]@.len() && #[trigger] accounts@[i2]@[k]
                    == ':' implies contains_str(gathered@, accounts@[i2]@.subrange(0, k)) by {
                if i2 < i {
                    let x = accounts@[i2]@.subrange(0, k);
                    assert(contains_str(pre, x));
                    let w = choose|w: int| 0 <= w < pre.len() && (#[trigger] pre[w])@ == x;
                    assert(gathered@[w] == pre[w]);
                    assert(gathered@[w]@ == x);
                    assert(contains_str(gathered@, x));
                }
            }
        }
        i = i + 1;
    }
    let sorted = sort_strings(gathered);
    proof {
        lemma_multiset_membership(gathered@, sorted@);
    }
    let out = dedup_sorted(sorted);
    proof {
        assert forall|j: int, k: int|
            0 <= j < out@.len() && 0 < k < out@[j]@.len() && #[trigger] out@[j]@[k]
                == ':' implies contains_str(out@, out@[j]@.subrange(0, k)) by {
            assert(contains_str(out@, out@[j]@)) by {
                assert(out@[j]@ == out@[j]@);
            }
            assert(contains_str(gathered@, out@[j]@));
            let w = choose|w: int|
                0 <= w < gathered@.len() && (#[trigger] gathered@[w])@ == out@[j]@;
            assert(from_account(accounts@, gathered@[w]@));
            let i2 = choose|i2: int|
                0 <= i2 < accounts@.len() && is_colon_prefix_of(
                    gathered@[w]@,
                    (#[trigger] accounts@[i2])@,
                );
            let av = accounts@[i2]@;
            let x = out@[j]@;
            assert(x.subrange(0, k) =~= av.subrange(0, k));
            assert(av[k] == ':');
            assert(contains_str(gathered@, av.subrange(0, k)));
            assert(contains_str(out@, av.subrange(0, k)));
        }
        assert forall|j: int|
            0 <= j < out@.len() implies from_account(accounts@, (#[trigger] out@[j])@) by {
            assert(contains_str(out@, out@[j]@)) by {
                assert(out@[j]@ == out@[j]@);
            }
            assert(contains_str(gathered@, out@[j]@));
            let w = choose|w: int|
                0 <= w < gathered@.len() && (#[trigger] gathered@[w])@ == out@[j]@;
            assert(from_account(accounts@, gathered@[w]@));
            let i2 = choose|i2: int|
                0 <= i2 < accounts@.len() && is_colon_prefix_of(
                    gathered@[w]@,
                    (#[trigger] accounts@[i2])@,
                );
            assert(gathered@[w]@ == out@[j]@);
            assert(is_colon_prefix_of(out@[j]@, accounts@[i2]@));
        }
        assert forall|i2: int|
            0 <= i2 < accounts@.len() implies contains_str(
            out@,
            (#[trigger] accounts@[i2])@,
        ) by {
            assert(contains_str(gathered@, accounts@[i2]@));
        }
    }
    out
}

} // verus!
