use vstd::prelude::*;

verus! {

/// Lexicographic order on integer sequences: `a` comes no later than `b`.
pub open spec fn lex_le(a: Seq<int>, b: Seq<int>) -> bool
    decreases a.len(),
{
    if a.len() == 0 {
        true
    } else if b.len() == 0 {
        false
    } else if a[0] != b[0] {
        a[0] < b[0]
    } else {
        lex_le(a.drop_first(), b.drop_first())
    }
}

/// Strict lexicographic order.
pub open spec fn lex_lt(a: Seq<int>, b: Seq<int>) -> bool {
    !lex_le(b, a)
}

pub proof fn lemma_lex_total(a: Seq<int>, b: Seq<int>)
    ensures
        lex_le(a, b) || lex_le(b, a),
    decreases a.len(),
{
    if a.len() > 0 && b.len() > 0 && a[0] == b[0] {
        lemma_lex_total(a.drop_first(), b.drop_first());
    }
}

pub proof fn lemma_lex_trans(a: Seq<int>, b: Seq<int>, c: Seq<int>)
    requires
        lex_le(a, b),
        lex_le(b, c),
    ensures
        lex_le(a, c),
    decreases a.len(),
{
    if a.len() > 0 && b.len() > 0 && c.len() > 0 && a[0] == b[0] && b[0] == c[0] {
        lemma_lex_trans(a.drop_first(), b.drop_first(), c.drop_first());
    }
}

pub proof fn lemma_lex_refl(a: Seq<int>)
    ensures
        lex_le(a, a),
    decreases a.len(),
{
    if a.len() > 0 {
        lemma_lex_refl(a.drop_first());
    }
}

/// Values ordered by a key of integers, compared lexicographically.
pub trait SortKey {
    spec fn sort_key(&self) -> Seq<int>;

    fn goes_before(&self, other: &Self) -> (r: bool)
        ensures
            r == lex_lt(self.sort_key(), other.sort_key()),
    ;
}

/// Whether `s` is ordered by key.
pub open spec fn sorted_by_key<T: SortKey>(s: Seq<T>) -> bool {
    forall|i: int, j: int|
        0 <= i < j < s.len() ==> lex_le(#[trigger] s[i].sort_key(), #[trigger] s[j].sort_key())
}

/// The items of `s` whose key is `k`, in their order in `s`.
pub open spec fn with_key<T: SortKey>(s: Seq<T>, k: Seq<int>) -> Seq<T> {
    s.filter(|x: T| x.sort_key() == k)
}

proof fn lemma_with_key_push<T: SortKey>(s: Seq<T>, x: T, k: Seq<int>)
    ensures
        with_key(s.push(x), k) == if x.sort_key() == k {
            with_key(s, k).push(x)
        } else {
            with_key(s, k)
        },
{
    reveal(Seq::filter);
    assert(s.push(x).drop_last() =~= s);
}

proof fn lemma_with_key_none<T: SortKey>(s: Seq<T>, k: Seq<int>)
    requires
        forall|j: int| 0 <= j < s.len() ==> #[trigger] s[j].sort_key() != k,
    ensures
        with_key(s, k) =~= Seq::<T>::empty(),
    decreases s.len(),
{
    reveal(Seq::filter);
    if s.len() > 0 {
        lemma_with_key_none(s.drop_last(), k);
        assert(s.last() == s[s.len() - 1]);
    }
}

/// Inserting `x` at `p`, before the items whose key is greater and after the
/// others, adds it at the end of the items with its key.
proof fn lemma_with_key_insert<T: SortKey>(out: Seq<T>, p: int, x: T, k: Seq<int>)
    requires
        0 <= p <= out.len(),
        forall|j: int| p <= j < out.len() ==> lex_lt(x.sort_key(), #[trigger] out[j].sort_key()),
    ensures
        with_key(out.insert(p, x), k) == if x.sort_key() == k {
            with_key(out, k).push(x)
        } else {
            with_key(out, k)
        },
{
    broadcast use Seq::filter_distributes_over_add;

    let a = out.take(p);
    let b = out.skip(p);
    assert(out =~= a + b);
    assert(out.insert(p, x) =~= a.push(x) + b);
    assert(with_key(out, k) == with_key(a, k) + with_key(b, k));
    assert(with_key(out.insert(p, x), k) == with_key(a.push(x), k) + with_key(b, k));
    lemma_with_key_push(a, x, k);
    if x.sort_key() == k {
        lemma_lex_refl(x.sort_key());
        assert forall|j: int| 0 <= j < b.len() implies #[trigger] b[j].sort_key() != k by {
            assert(b[j] == out[p + j]);
        }
        lemma_with_key_none(b, k);
    }
}

/// `sorted` holds the items of `s` ordered by key, the items with equal keys
/// in their order in `s`.
pub open spec fn stably_sorted<T: SortKey>(s: Seq<T>, sorted: Seq<T>) -> bool {
    &&& sorted_by_key(sorted)
    &&& sorted.to_multiset() == s.to_multiset()
    &&& forall|k: Seq<int>| #[trigger] with_key(sorted, k) == with_key(s, k)
}

/// Sorts by key (an insertion sort): the same items, ordered by key, and the
/// items with equal keys in the order they were given.
pub fn sort_by_key<T: SortKey>(v: Vec<T>) -> (r: Vec<T>)
    ensures
        stably_sorted(v@, r@),
{
    broadcast use vstd::seq_lib::group_to_multiset_ensures;

    let ghost original = v@;
    let mut rest = v;
    let mut out: Vec<T> = Vec::new();
    assert forall|k: Seq<int>| #[trigger] with_key(out@, k) == with_key(original.take(0), k) by {
        assert(original.take(0) =~= Seq::<T>::empty());
        reveal(Seq::filter);
    }
    assert(original.skip(0) =~= original);
    while rest.len() > 0
        invariant
            rest.len() <= original.len(),
            rest@ == original.skip(original.len() - rest.len()),
            out@.to_multiset().add(rest@.to_multiset()) == original.to_multiset(),
            sorted_by_key(out@),
            forall|k: Seq<int>|
                #[trigger] with_key(out@, k) == with_key(original.take(original.len() - rest.len()), k),
        decreases rest.len(),
    {
        let ghost taken = original.len() - rest.len();
        let ghost before = rest@;
        let x = rest.remove(0);
        proof {
            vstd::seq_lib::to_multiset_remove(before, 0);
            vstd::seq_lib::to_multiset_contains(before, before[0]);
            assert(before.contains(before[0]));
            assert(x == original[taken]);
            assert(rest@ =~= original.skip(taken + 1));
        }
        let mut p: usize = out.len();
        while p > 0 && x.goes_before(&out[p - 1])
            invariant
                p <= out.len(),
                forall|k: int| p <= k < out.len() ==> lex_lt(x.sort_key(), #[trigger] out@[k].sort_key()),
            decreases p,
        {
            p = p - 1;
        }
        let ghost old_out = out@;
        out.insert(p, x);
        proof {
            vstd::seq_lib::to_multiset_insert(old_out, p as int, x);
            if p > 0 {
                lemma_lex_total(x.sort_key(), old_out[p - 1].sort_key());
            }
            assert forall|i: int, j: int| 0 <= i < j < out@.len() implies lex_le(
                #[trigger] out@[i].sort_key(),
                #[trigger] out@[j].sort_key(),
            ) by {
                if i < p && j == p {
                    if i < p - 1 {
                        lemma_lex_trans(out@[i].sort_key(), old_out[p - 1].sort_key(), x.sort_key());
                    }
                } else if i == p && j > p {
                    lemma_lex_total(x.sort_key(), out@[j].sort_key());
                } else if i < p && j > p {
                    assert(out@[i] == old_out[i]);
                    assert(out@[j] == old_out[j - 1]);
                } else if i > p {
                    assert(out@[i] == old_out[i - 1]);
                    assert(out@[j] == old_out[j - 1]);
                } else {
                    assert(out@[i] == old_out[i]);
                    assert(out@[j] == old_out[j]);
                }
            }
            assert(original.take(taken + 1) =~= original.take(taken).push(x));
            assert forall|k: Seq<int>| #[trigger] with_key(out@, k) == with_key(
                original.take(original.len() - rest.len()),
                k,
            ) by {
                lemma_with_key_insert(old_out, p as int, x, k);
                lemma_with_key_push(original.take(taken), x, k);
            }
        }
    }
    assert(rest@ =~= Seq::<T>::empty());
    assert(original.take(original.len() as int) =~= original);
    assert forall|k: Seq<int>| #[trigger] with_key(out@, k) == with_key(original, k) by {
        assert(with_key(out@, k) == with_key(original.take(original.len() - rest.len()), k));
    }
    assert(sorted_by_key(out@));
    assert(out@.to_multiset() == original.to_multiset());
    out
}

} // verus!

verus! {

/// Rank of a character in text order; in path order the separator `/` comes
/// before every other character, which orders paths component by component.
pub open spec fn char_rank(c: char, path: bool) -> int {
    if path && c == '/' {
        0
    } else {
        (c as u32) as int + 1
    }
}

/// The key by which text (or a `/`-separated path) is ordered.
pub open spec fn text_key(s: Seq<char>, path: bool) -> Seq<int> {
    s.map_values(|c: char| char_rank(c, path))
}

pub proof fn lemma_lex_skip(a: Seq<int>, b: Seq<int>, k: int)
    requires
        0 <= k <= a.len(),
        k <= b.len(),
        a.take(k) == b.take(k),
    ensures
        lex_le(a, b) == lex_le(a.skip(k), b.skip(k)),
    decreases k,
{
    if k > 0 {
        assert(a[0] == a.take(k)[0]);
        assert(b[0] == b.take(k)[0]);
        assert(a.drop_first().take(k - 1) =~= b.drop_first().take(k - 1)) by {
            assert forall|i: int| 0 <= i < k - 1 implies #[trigger] a.drop_first().take(k - 1)[i] == b.drop_first().take(k - 1)[i] by {
                assert(a.take(k)[i + 1] == b.take(k)[i + 1]);
                assert(a.drop_first().take(k - 1)[i] == a[i + 1]);
                assert(b.drop_first().take(k - 1)[i] == b[i + 1]);
                assert(a.take(k)[i + 1] == a[i + 1]);
                assert(b.take(k)[i + 1] == b[i + 1]);
            }
        }
        lemma_lex_skip(a.drop_first(), b.drop_first(), k - 1);
        assert(a.drop_first().skip(k - 1) =~= a.skip(k));
        assert(b.drop_first().skip(k - 1) =~= b.skip(k));
    } else {
        assert(a.skip(0) =~= a);
        assert(b.skip(0) =~= b);
    }
}

/// Whether `a` comes strictly before `b` in text (or path) order.
pub fn text_before(a: &str, b: &str, path: bool) -> (r: bool)
    ensures
        r == lex_lt(text_key(a@, path), text_key(b@, path)),
{
    let x = crate::text::chars_of(a);
    let y = crate::text::chars_of(b);
    let ghost ka = text_key(a@, path);
    let ghost kb = text_key(b@, path);
    let mut i: usize = 0;
    while i < x.len() && i < y.len() && x[i] == y[i]
        invariant
            i <= x.len(),
            i <= y.len(),
            x@ == a@,
            y@ == b@,
            ka == text_key(a@, path),
            kb == text_key(b@, path),
            forall|j: int| 0 <= j < i ==> x@[j] == y@[j],
        decreases x.len() - i,
    {
        i = i + 1;
    }
    proof {
        assert(ka.take(i as int) =~= kb.take(i as int)) by {
            assert forall|j: int| 0 <= j < i implies #[trigger] ka.take(i as int)[j] == kb.take(i as int)[j] by {
                assert(x@[j] == y@[j]);
            }
        }
        lemma_lex_skip(kb, ka, i as int);
    }
    assert(ka.len() == x.len() && kb.len() == y.len());
    if i == y.len() {
        assert(kb.skip(i as int).len() == 0);
        false
    } else if i == x.len() {
        assert(ka.skip(i as int).len() == 0);
        assert(kb.skip(i as int).len() > 0);
        true
    } else {
        assert(ka.skip(i as int)[0] == char_rank(x@[i as int], path));
        assert(kb.skip(i as int)[0] == char_rank(y@[i as int], path));
        assert(ka[i as int] == char_rank(a@[i as int], path));
        assert(kb[i as int] == char_rank(b@[i as int], path));
        assert(x@[i as int] != y@[i as int]);
        assert(a@[i as int] != b@[i as int]);
        proof {
            vstd::utf8::char_u32_cast(a@[i as int], a@[i as int] as u32);
            vstd::utf8::char_u32_cast(b@[i as int], b@[i as int] as u32);
        }
        assert((a@[i as int] as u32) != (b@[i as int] as u32));
        assert(char_rank(a@[i as int], path) != char_rank(b@[i as int], path));
        let ghost sa = ka.skip(i as int);
        let ghost sb = kb.skip(i as int);
        assert(sa.len() > 0 && sb.len() > 0);
        assert(sa[0] != sb[0]);
        assert(lex_le(sb, sa) == (sb[0] < sa[0]));
        if path && x[i] == '/' {
            true
        } else if path && y[i] == '/' {
            false
        } else {
            let c = x[i] as u32;
            let d = y[i] as u32;
            c < d
        }
    }
}

} // verus!
