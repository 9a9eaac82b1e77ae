//! The order in which file names are listed: byte-wise lexicographic order on
//! their UTF-8 encodings, the order of `str` comparison.

use vstd::prelude::*;
use vstd::utf8::encode_utf8;
use vstd::utf8::encode_utf8_decode_utf8;

verus! {

/// Strict lexicographic order on byte strings.
pub open spec fn bytes_lt(a: Seq<u8>, b: Seq<u8>) -> bool
    decreases a.len(),
{
    if a.len() == 0 {
        b.len() > 0
    } else if b.len() == 0 {
        false
    } else if a[0] != b[0] {
        a[0] < b[0]
    } else {
        bytes_lt(a.drop_first(), b.drop_first())
    }
}

/// `a` sorts strictly before `b`.
pub open spec fn name_lt(a: Seq<char>, b: Seq<char>) -> bool {
    bytes_lt(encode_utf8(a), encode_utf8(b))
}

/// Names in strictly ascending order: sorted and free of repeats.
pub open spec fn strictly_ascending(s: Seq<String>) -> bool {
    forall|i: int, j: int|
        #![trigger s[i], s[j]]
        0 <= i < j < s.len() ==> name_lt(s[i]@, s[j]@)
}

/// Names in ascending order, repeats allowed.
pub open spec fn ascending(s: Seq<String>) -> bool {
    forall|i: int, j: int|
        #![trigger s[i], s[j]]
        0 <= i < j < s.len() ==> !name_lt(s[j]@, s[i]@)
}

/// The names that occur in `s`, each taken by its text.
pub open spec fn name_set(s: Seq<String>) -> Set<Seq<char>> {
    Set::new(|n: Seq<char>| exists|k: int| 0 <= k < s.len() && #[trigger] s[k]@ == n)
}

proof fn lemma_bytes_lt_irreflexive(a: Seq<u8>)
    ensures
        !bytes_lt(a, a),
    decreases a.len(),
{
    if a.len() > 0 {
        lemma_bytes_lt_irreflexive(a.drop_first());
    }
}

proof fn lemma_bytes_lt_connex(a: Seq<u8>, b: Seq<u8>)
    ensures
        a != b ==> (bytes_lt(a, b) || bytes_lt(b, a)),
        !(bytes_lt(a, b) && bytes_lt(b, a)),
    decreases a.len(),
{
    if a.len() > 0 && b.len() > 0 && a[0] == b[0] {
        lemma_bytes_lt_connex(a.drop_first(), b.drop_first());
        if a.drop_first() == b.drop_first() {
            assert forall|i: int| 0 <= i < a.len() implies a[i] == b[i] by {
                if i > 0 {
                    assert(a[i] == a.drop_first()[i - 1]);
                    assert(b[i] == b.drop_first()[i - 1]);
                }
            }
            assert(a =~= b);
        }
    } else if a.len() == 0 && b.len() == 0 {
        assert(a =~= b);
    }
}

proof fn lemma_bytes_lt_transitive(a: Seq<u8>, b: Seq<u8>, c: Seq<u8>)
    requires
        bytes_lt(a, b),
        bytes_lt(b, c),
    ensures
        bytes_lt(a, c),
    decreases a.len(),
{
    if a.len() > 0 && a[0] == b[0] && b[0] == c[0] {
        lemma_bytes_lt_transitive(a.drop_first(), b.drop_first(), c.drop_first());
    }
}

/// Distinct names have distinct encodings.
proof fn lemma_encoding_injective(a: Seq<char>, b: Seq<char>)
    ensures
        encode_utf8(a) == encode_utf8(b) ==> a == b,
{
    encode_utf8_decode_utf8(a);
    encode_utf8_decode_utf8(b);
}

/// `name_lt` is a strict total order on names.
pub proof fn lemma_name_order(a: Seq<char>, b: Seq<char>, c: Seq<char>)
    ensures
        !name_lt(a, a),
        a != b ==> (name_lt(a, b) || name_lt(b, a)),
        !(name_lt(a, b) && name_lt(b, a)),
        name_lt(a, b) && name_lt(b, c) ==> name_lt(a, c),
{
    lemma_bytes_lt_irreflexive(encode_utf8(a));
    lemma_bytes_lt_connex(encode_utf8(a), encode_utf8(b));
    lemma_encoding_injective(a, b);
    if name_lt(a, b) && name_lt(b, c) {
        lemma_bytes_lt_transitive(encode_utf8(a), encode_utf8(b), encode_utf8(c));
    }
}

proof fn lemma_bytes_lt_skip(x: Seq<u8>, y: Seq<u8>, i: int)
    requires
        0 <= i < x.len(),
        i < y.len(),
        x[i] == y[i],
    ensures
        bytes_lt(x.skip(i), y.skip(i)) == bytes_lt(x.skip(i + 1), y.skip(i + 1)),
{
    assert(x.skip(i).drop_first() =~= x.skip(i + 1));
    assert(y.skip(i).drop_first() =~= y.skip(i + 1));
}

/// Whether `a` sorts strictly before `b`.
pub fn name_less(a: &str, b: &str) -> (r: bool)
    ensures
        r == name_lt(a@, b@),
{
    let x = a.as_bytes();
    let y = b.as_bytes();
    let mut i: usize = 0;
    assert(x@.skip(0) =~= x@);
    assert(y@.skip(0) =~= y@);
    while i < x.len() && i < y.len() && x[i] == y[i]
        invariant
            i <= x@.len(),
            i <= y@.len(),
            x@ == encode_utf8(a@),
            y@ == encode_utf8(b@),
            bytes_lt(x@, y@) == bytes_lt(x@.skip(i as int), y@.skip(i as int)),
        decreases x@.len() - i,
    {
        proof {
            lemma_bytes_lt_skip(x@, y@, i as int);
        }
        i = i + 1;
    }
    if i == x.len() {
        assert(x@.skip(i as int).len() == 0);
        i < y.len()
    } else if i == y.len() {
        assert(y@.skip(i as int).len() == 0);
        false
    } else {
        assert(x@.skip(i as int)[0] == x@[i as int]);
        assert(y@.skip(i as int)[0] == y@[i as int]);
        x[i] < y[i]
    }
}


/// Adds `item` to a strictly ascending list of names unless a name with the
/// same text is already there; the list stays strictly ascending.
pub fn insert_name(names: &mut Vec<String>, item: String)
    requires
        strictly_ascending(old(names)@),
    ensures
        strictly_ascending(final(names)@),
        name_set(final(names)@) == name_set(old(names)@).insert(item@),
{
    let ghost s = names@;
    let mut p: usize = 0;
    while p < names.len() && name_less(names[p].as_str(), item.as_str())
        invariant
            names@ == s,
            p <= s.len(),
            strictly_ascending(s),
            forall|j: int| 0 <= j < p ==> name_lt(#[trigger] s[j]@, item@),
        decreases s.len() - p,
    {
        p = p + 1;
    }
    if p < names.len() && names[p] == item {
        proof {
            assert(s[p as int]@ == item@);
            assert(name_set(s).contains(item@));
            assert(name_set(s).insert(item@) =~= name_set(s));
        }
    } else {
        names.insert(p, item);
        proof {
            let t = s.insert(p as int, item);
            assert(names@ == t);
            if p < s.len() {
                lemma_name_order(s[p as int]@, item@, item@);
                assert(name_lt(item@, s[p as int]@));
            }
            assert forall|i: int, j: int| 0 <= i < j < t.len() implies name_lt(t[i]@, t[j]@) by {
                if j < p {
                    assert(t[i] == s[i] && t[j] == s[j]);
                } else if j == p {
                    assert(t[i] == s[i]);
                } else if i == p {
                    assert(t[j] == s[j - 1]);
                    if j - 1 > p {
                        assert(name_lt(s[p as int]@, s[j - 1]@));
                        lemma_name_order(item@, s[p as int]@, s[j - 1]@);
                    }
                } else if i < p {
                    assert(t[i] == s[i] && t[j] == s[j - 1]);
                    assert(name_lt(s[i]@, s[j - 1]@));
                } else {
                    assert(t[i] == s[i - 1] && t[j] == s[j - 1]);
                    assert(name_lt(s[i - 1]@, s[j - 1]@));
                }
            }
            assert forall|n: Seq<char>|
                name_set(t).contains(n) <==> name_set(s).insert(item@).contains(n) by {
                if name_set(t).contains(n) {
                    let k = choose|k: int| 0 <= k < t.len() && #[trigger] t[k]@ == n;
                    if k < p {
                        assert(s[k]@ == n);
                    } else if k > p {
                        assert(s[k - 1]@ == n);
                    }
                }
                if name_set(s).contains(n) {
                    let k = choose|k: int| 0 <= k < s.len() && #[trigger] s[k]@ == n;
                    if k < p {
                        assert(t[k]@ == n);
                    } else {
                        assert(t[k + 1]@ == n);
                    }
                }
                if n == item@ {
                    assert(t[p as int]@ == n);
                }
            }
            assert(name_set(t) =~= name_set(s).insert(item@));
        }
    }
}

/// The names of `items` in ascending order; names with the same text keep
/// their relative order.
pub fn sort_names(items: Vec<String>) -> (r: Vec<String>)
    ensures
        ascending(r@),
        r@.to_multiset() == items@.to_multiset(),
{
    broadcast use vstd::seq_lib::group_to_multiset_ensures;

    let mut out: Vec<String> = Vec::new();
    let mut i: usize = 0;
    while i < items.len()
        invariant
            i <= items@.len(),
            ascending(out@),
            out@.to_multiset() == items@.take(i as int).to_multiset(),
        decreases items@.len() - i,
    {
        let item = items[i].clone();
        let ghost s = out@;
        let mut p: usize = 0;
        while p < out.len() && !name_less(item.as_str(), out[p].as_str())
            invariant
                out@ == s,
                p <= s.len(),
                forall|j: int| 0 <= j < p ==> !name_lt(item@, #[trigger] s[j]@),
            decreases s.len() - p,
        {
            p = p + 1;
        }
        out.insert(p, item);
        proof {
            let t = s.insert(p as int, item);
            assert(out@ == t);
            assert forall|a: int, b: int| 0 <= a < b < t.len() implies !name_lt(t[b]@, t[a]@) by {
                if b < p {
                    assert(t[a] == s[a] && t[b] == s[b]);
                } else if b == p {
                    assert(t[a] == s[a]);
                } else if a == p {
                    assert(t[b] == s[b - 1]);
                    assert(name_lt(item@, s[p as int]@));
                    if b - 1 > p {
                        assert(!name_lt(s[b - 1]@, s[p as int]@));
                        lemma_name_order(s[p as int]@, s[b - 1]@, s[b - 1]@);
                        lemma_name_order(item@, s[p as int]@, s[b - 1]@);
                    }
                    lemma_name_order(item@, s[b - 1]@, item@);
                } else if a < p {
                    assert(t[a] == s[a] && t[b] == s[b - 1]);
                    assert(!name_lt(s[b - 1]@, s[a]@));
                } else {
                    assert(t[a] == s[a - 1] && t[b] == s[b - 1]);
                    assert(!name_lt(s[b - 1]@, s[a - 1]@));
                }
            }
            vstd::seq_lib::to_multiset_insert(s, p as int, item);
            assert(item == items@[i as int]);
            assert(items@.take(i + 1) =~= items@.take(i as int).push(items@[i as int]));
            vstd::seq_lib::to_multiset_build(items@.take(i as int), items@[i as int]);
            assert(t.to_multiset() == s.to_multiset().insert(item));
        }
        i = i + 1;
    }
    assert(items@.take(items@.len() as int) =~= items@);
    out
}

} // verus!
