//! Selection and ordering of drawing files from a directory listing.

use vstd::multiset::Multiset;
use vstd::prelude::*;
use vstd::relations::sorted_by;

verus! {

/// Strict lexicographic order on character sequences, by code point.
pub open spec fn lex_lt(a: Seq<char>, b: Seq<char>) -> bool
    decreases a.len(),
{
    if b.len() == 0 {
        false
    } else if a.len() == 0 {
        true
    } else if a[0] != b[0] {
        a[0] < b[0]
    } else {
        lex_lt(a.drop_first(), b.drop_first())
    }
}

/// The non-strict name order used for directory listings.
pub open spec fn name_le() -> spec_fn(String, String) -> bool {
    (|a: String, b: String| !lex_lt(b@, a@))
}

/// No sequence is lexicographically below itself.
proof fn lemma_lex_irrefl(a: Seq<char>)
    ensures
        !lex_lt(a, a),
    decreases a.len(),
{
    if a.len() > 0 {
        lemma_lex_irrefl(a.drop_first());
    }
}

/// Any two sequences compare: one is below the other, or they are equal.
proof fn lemma_lex_connex(a: Seq<char>, b: Seq<char>)
    ensures
        lex_lt(a, b) || lex_lt(b, a) || a == b,
    decreases a.len(),
{
    if a.len() == 0 && b.len() == 0 {
        assert(a =~= b);
    } else if a.len() > 0 && b.len() > 0 && a[0] == b[0] {
        lemma_lex_connex(a.drop_first(), b.drop_first());
        if a.drop_first() == b.drop_first() {
            assert(a.drop_first().len() == b.drop_first().len());
            assert(a.len() == b.len());
            assert forall|i: int| 0 <= i < a.len() implies a[i] == b[i] by {
                if i > 0 {
                    assert(a.drop_first()[i - 1] == a[i]);
                    assert(b.drop_first()[i - 1] == b[i]);
                }
            }
            assert(a =~= b);
        }
    }
}

/// The lexicographic order is transitive.
proof fn lemma_lex_trans(a: Seq<char>, b: Seq<char>, c: Seq<char>)
    requires
        lex_lt(a, b),
        lex_lt(b, c),
    ensures
        lex_lt(a, c),
    decreases a.len(),
{
    if a.len() > 0 && b.len() > 0 && c.len() > 0 && a[0] == b[0] && b[0] == c[0] {
        lemma_lex_trans(a.drop_first(), b.drop_first(), c.drop_first());
    }
}

/// Whether `a` comes strictly before `b` in the name order.
pub fn str_lt(a: &str, b: &str) -> (r: bool)
    ensures
        r == lex_lt(a@, b@),
{
    let an = a.unicode_len();
    let bn = b.unicode_len();
    let mut i: usize = 0;
    proof {
        assert(a@.skip(0) =~= a@);
        assert(b@.skip(0) =~= b@);
    }
    while i < an && i < bn
        invariant
            i <= an,
            i <= bn,
            an == a@.len(),
            bn == b@.len(),
            lex_lt(a@, b@) == lex_lt(a@.skip(i as int), b@.skip(i as int)),
        decreases an - i,
    {
        let ca = a.get_char(i);
        let cb = b.get_char(i);
        proof {
            assert(a@.skip(i as int)[0] == a@[i as int]);
            assert(b@.skip(i as int)[0] == b@[i as int]);
            assert(a@.skip(i as int).drop_first() =~= a@.skip(i as int + 1));
            assert(b@.skip(i as int).drop_first() =~= b@.skip(i as int + 1));
        }
        if ca != cb {
            return ca < cb;
        }
        i = i + 1;
    }
    i < bn
}

/// The `.svg` suffix, as characters.
pub open spec fn spec_svg_suffix() -> Seq<char> {
    seq!['.', 's', 'v', 'g']
}

/// A file name that ends in `.svg`.
pub open spec fn spec_is_svg_name(s: Seq<char>) -> bool {
    s.len() >= 4 && s.subrange(s.len() - 4, s.len() as int) == spec_svg_suffix()
}

/// The selection predicate on file names.
pub open spec fn svg_name_pred() -> spec_fn(String) -> bool {
    (|s: String| spec_is_svg_name(s@))
}

/// Whether the file name ends in `.svg`.
pub fn is_svg_name(name: &str) -> (r: bool)
    ensures
        r == spec_is_svg_name(name@),
{
    let n = name.unicode_len();
    if n < 4 {
        return false;
    }
    let c1 = name.get_char(n - 4);
    let c2 = name.get_char(n - 3);
    let c3 = name.get_char(n - 2);
    let c4 = name.get_char(n - 1);
    let r = c1 == '.' && c2 == 's' && c3 == 'v' && c4 == 'g';
    proof {
        let tail = name@.subrange(name@.len() - 4, name@.len() as int);
        if r {
            assert(tail =~= spec_svg_suffix());
        } else {
            if spec_is_svg_name(name@) {
                assert(c1 == tail[0] && c2 == tail[1] && c3 == tail[2] && c4 == tail[3]);
            }
        }
    }
    r
}

/// Keep exactly the names that end in `.svg`, in their original order.
pub fn filter_svg_files(names: Vec<String>) -> (r: Vec<String>)
    ensures
        r@ == names@.filter(svg_name_pred()),
{
    let ghost orig = names@;
    let mut names = names;
    let mut rev: Vec<String> = Vec::new();
    proof {
        assert(orig.take(orig.len() as int) =~= orig);
    }
    while names.len() > 0
        invariant
            rev@.len() + names@.len() == orig.len(),
            names@ == orig.take(names@.len() as int),
            forall|t: int| 0 <= t < rev@.len() ==> rev@[t] == orig[orig.len() - 1 - t],
        decreases names@.len(),
    {
        proof {
            assert(names@.last() == orig[names@.len() - 1]);
            assert(names@.drop_last() =~= orig.take(names@.len() - 1));
        }
        let item = names.pop().unwrap();
        rev.push(item);
    }
    let mut out: Vec<String> = Vec::new();
    proof {
        assert(orig.take(0).filter(svg_name_pred()) =~= Seq::<String>::empty()) by {
            reveal_with_fuel(Seq::<String>::filter, 1);
            assert(orig.take(0) =~= Seq::<String>::empty());
        }
    }
    while rev.len() > 0
        invariant
            rev@.len() <= orig.len(),
            forall|t: int| 0 <= t < rev@.len() ==> rev@[t] == orig[orig.len() - 1 - t],
            out@ == orig.take(orig.len() - rev@.len() as int).filter(svg_name_pred()),
        decreases rev@.len(),
    {
        let item = rev.pop().unwrap();
        let ghost k = orig.len() - rev@.len() - 1;
        proof {
            assert(item == orig[k]);
        }
        let keep = is_svg_name(item.as_str());
        if keep {
            out.push(item);
        }
        proof {
            let pred = svg_name_pred();
            let pref = orig.take(k + 1);
            assert(pref.drop_last() =~= orig.take(k));
            assert(pref.last() == orig[k]);
            assert(pref.filter(pred) == (if pred(orig[k]) {
                orig.take(k).filter(pred).push(orig[k])
            } else {
                orig.take(k).filter(pred)
            })) by {
                reveal_with_fuel(Seq::<String>::filter, 1);
            }
            assert(out@ == orig.take(k + 1).filter(pred));
        }
    }
    proof {
        assert(orig.take(orig.len() as int) =~= orig);
    }
    out
}

/// Sort the names by the lexicographic order of their characters, as a
/// directory listing is shown; the result is a permutation of the input.
#[verifier::loop_isolation(false)]
pub fn sort_svg_files(names: Vec<String>) -> (r: Vec<String>)
    ensures
        sorted_by(r@, name_le()),
        r@.to_multiset() == names@.to_multiset(),
{
    broadcast use vstd::seq_lib::group_to_multiset_ensures;

    let ghost orig = names@;
    let mut names = names;
    let mut out: Vec<String> = Vec::new();
    while names.len() > 0
        invariant
            sorted_by(out@, name_le()),
            out@.to_multiset().add(names@.to_multiset()) == orig.to_multiset(),
        decreases names@.len(),
    {
        let ghost names_before = names@;
        let item = names.pop().unwrap();
        proof {
            assert(names_before =~= names@.push(item));
        }
        let mut idx: usize = 0;
        while idx < out.len() && str_lt(out[idx].as_str(), item.as_str())
            invariant
                idx <= out@.len(),
                forall|t: int| 0 <= t < idx ==> lex_lt((#[trigger] out@[t])@, item@),
            decreases out@.len() - idx,
        {
            idx = idx + 1;
        }
        let ghost before = out@;
        out.insert(idx, item);
        proof {
            let le = name_le();
            assert(out@ == before.insert(idx as int, item));
            assert forall|i: int, j: int| 0 <= i < j < out@.len() implies #[trigger] le(
                out@[i],
                out@[j],
            ) by {
                lemma_lex_irrefl(item@);
                if i < idx && j == idx {
                    assert(out@[i] == before[i] && out@[j] == item);
                    assert(lex_lt(before[i]@, item@));
                    if lex_lt(item@, before[i]@) {
                        lemma_lex_trans(item@, before[i]@, item@);
                    }
                } else if i == idx && j > idx {
                    assert(out@[i] == item && out@[j] == before[j - 1]);
                    assert(!lex_lt(before[idx as int]@, item@));
                    if lex_lt(before[j - 1]@, item@) {
                        lemma_lex_connex(before[idx as int]@, before[j - 1]@);
                        if lex_lt(before[idx as int]@, before[j - 1]@) {
                            lemma_lex_trans(before[idx as int]@, before[j - 1]@, item@);
                        } else if before[idx as int]@ == before[j - 1]@ {
                        } else {
                            assert(le(before[idx as int], before[j - 1]));
                        }
                    }
                } else if i < idx && j > idx {
                    assert(out@[i] == before[i] && out@[j] == before[j - 1]);
                    if i == j - 1 {
                        assert(lex_lt(before[i]@, item@));
                        assert(!lex_lt(before[idx as int]@, item@));
                        lemma_lex_irrefl(before[i]@);
                    } else {
                        assert(le(before[i], before[j - 1]));
                    }
                } else if j < idx {
                    assert(out@[i] == before[i] && out@[j] == before[j]);
                } else {
                    assert(out@[i] == before[i - 1] && out@[j] == before[j - 1]);
                }
            }
            assert(out@ =~= before.take(idx as int) + seq![item] + before.skip(idx as int));
            assert(before =~= before.take(idx as int) + before.skip(idx as int));
            assert(out@.to_multiset() =~= before.to_multiset().insert(item));
        }
    }
    proof {
        assert(names@.to_multiset() =~= Multiset::<String>::empty());
        assert(out@.to_multiset() =~= orig.to_multiset());
    }
    out
}

} // verus!
