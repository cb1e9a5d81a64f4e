//! Why the canonical query string is canonical: it does not depend on the
//! order in which parameters were inserted.

use vstd::prelude::*;
use vstd::utf8::{decode_utf8, encode_utf8, encode_utf8_decode_utf8};
use crate::crypto::{hex_digit_upper, is_url_safe, url_encode, url_encode_bytes};
use crate::query::{canonical_query, distinct_keys, encode_pairs, insert_by_key, key_lt, sort_by_key};

verus! {

// ---------------------------------------------------------------------------
// Percent-encoding is injective.

proof fn lemma_hex_digit(n: nat)
    requires
        n < 16,
    ensures
        hex_digit_upper(n) != '%',
        n < 10 ==> hex_digit_upper(n) as u32 == n + 48,
        n >= 10 ==> hex_digit_upper(n) as u32 == n + 55,
{
}

proof fn lemma_hex_digit_injective(a: nat, b: nat)
    requires
        a < 16,
        b < 16,
        hex_digit_upper(a) == hex_digit_upper(b),
    ensures
        a == b,
{
    lemma_hex_digit(a);
    lemma_hex_digit(b);
}

/// The encoding of one byte.
spec fn piece(b: u8) -> Seq<char> {
    if is_url_safe(b) {
        seq![b as char]
    } else {
        seq!['%', hex_digit_upper(b as nat / 16), hex_digit_upper(b as nat % 16)]
    }
}

proof fn lemma_piece(b: u8)
    ensures
        is_url_safe(b) ==> piece(b).len() == 1 && piece(b)[0] != '%',
        !is_url_safe(b) ==> piece(b).len() == 3 && piece(b)[0] == '%' && piece(b)[1] != '%' && piece(b)[2] != '%',
{
    lemma_hex_digit(b as nat / 16);
    lemma_hex_digit(b as nat % 16);
}

proof fn lemma_piece_injective(a: u8, b: u8)
    requires
        piece(a) == piece(b),
    ensures
        a == b,
{
    lemma_piece(a);
    lemma_piece(b);
    if !is_url_safe(a) {
        assert(piece(a)[1] == piece(b)[1]);
        assert(piece(a)[2] == piece(b)[2]);
        lemma_hex_digit_injective(a as nat / 16, b as nat / 16);
        lemma_hex_digit_injective(a as nat % 16, b as nat % 16);
    } else {
        assert(piece(a)[0] == piece(b)[0]);
    }
}

/// The last two characters of an encoding are never `%`.
proof fn lemma_encode_tail(s: Seq<u8>)
    ensures
        url_encode_bytes(s).len() >= s.len(),
        s.len() > 0 ==> url_encode_bytes(s).len() > 0,
        url_encode_bytes(s).len() >= 1 ==> url_encode_bytes(s)[url_encode_bytes(s).len() - 1] != '%',
        url_encode_bytes(s).len() >= 2 ==> url_encode_bytes(s)[url_encode_bytes(s).len() - 2] != '%',
    decreases s.len(),
{
    if s.len() > 0 {
        lemma_encode_tail(s.drop_last());
        lemma_piece(s.last());
        let e = url_encode_bytes(s);
        let p = url_encode_bytes(s.drop_last());
        let c = piece(s.last());
        assert(e == p + c);
        if c.len() == 1 {
            assert(e[e.len() - 1] == c[0]);
            if e.len() >= 2 {
                assert(e[e.len() - 2] == p[p.len() - 1]);
            }
        } else {
            assert(e[e.len() - 1] == c[2]);
            assert(e[e.len() - 2] == c[1]);
        }
    }
}

proof fn lemma_url_encode_bytes_injective(a: Seq<u8>, b: Seq<u8>)
    requires
        url_encode_bytes(a) == url_encode_bytes(b),
    ensures
        a == b,
    decreases a.len(),
{
    lemma_encode_tail(a);
    lemma_encode_tail(b);
    if a.len() == 0 || b.len() == 0 {
        if a.len() == 0 && b.len() > 0 {
            assert(url_encode_bytes(a).len() == 0);
        }
        if b.len() == 0 && a.len() > 0 {
            assert(url_encode_bytes(b).len() == 0);
        }
        assert(a =~= b);
    } else {
        let e = url_encode_bytes(a);
        let pa = url_encode_bytes(a.drop_last());
        let pb = url_encode_bytes(b.drop_last());
        let ca = piece(a.last());
        let cb = piece(b.last());
        lemma_piece(a.last());
        lemma_piece(b.last());
        lemma_encode_tail(a.drop_last());
        lemma_encode_tail(b.drop_last());
        assert(e == pa + ca);
        assert(e == pb + cb);
        // The last piece is three characters long exactly when the third
        // character from the end is `%`.
        assert(ca.len() == cb.len()) by {
            if ca.len() == 3 && cb.len() == 1 {
                assert(e[e.len() - 3] == ca[0]);
                assert(e[e.len() - 3] == pb[pb.len() - 2]);
            }
            if ca.len() == 1 && cb.len() == 3 {
                assert(e[e.len() - 3] == cb[0]);
                assert(e[e.len() - 3] == pa[pa.len() - 2]);
            }
        }
        assert(ca =~= e.subrange(e.len() - ca.len(), e.len() as int));
        assert(cb =~= e.subrange(e.len() - cb.len(), e.len() as int));
        assert(pa =~= e.subrange(0, e.len() - ca.len()));
        assert(pb =~= e.subrange(0, e.len() - cb.len()));
        lemma_piece_injective(a.last(), b.last());
        lemma_url_encode_bytes_injective(a.drop_last(), b.drop_last());
        assert(a =~= a.drop_last().push(a.last()));
        assert(b =~= b.drop_last().push(b.last()));
    }
}

/// Different strings have different percent-encodings.
pub proof fn lemma_url_encode_injective(a: Seq<char>, b: Seq<char>)
    requires
        url_encode(a) == url_encode(b),
    ensures
        a == b,
{
    lemma_url_encode_bytes_injective(encode_utf8(a), encode_utf8(b));
    encode_utf8_decode_utf8(a);
    encode_utf8_decode_utf8(b);
}

// ---------------------------------------------------------------------------
// The key order is a strict total order.

proof fn lemma_key_lt_irreflexive(a: Seq<char>)
    ensures
        !key_lt(a, a),
    decreases a.len(),
{
    if a.len() > 0 {
        lemma_key_lt_irreflexive(a.drop_first());
    }
}

proof fn lemma_key_lt_total(a: Seq<char>, b: Seq<char>)
    requires
        a != b,
    ensures
        key_lt(a, b) || key_lt(b, a),
    decreases a.len(),
{
    if a.len() > 0 && b.len() > 0 && a[0] == b[0] {
        if a.drop_first() == b.drop_first() {
            assert(a =~= seq![a[0]] + a.drop_first());
            assert(b =~= seq![b[0]] + b.drop_first());
        }
        lemma_key_lt_total(a.drop_first(), b.drop_first());
    } else if a.len() == 0 && b.len() == 0 {
        assert(a =~= b);
    }
}

proof fn lemma_key_lt_asymmetric(a: Seq<char>, b: Seq<char>)
    requires
        key_lt(a, b),
    ensures
        !key_lt(b, a),
    decreases a.len(),
{
    if a.len() > 0 && b.len() > 0 && a[0] == b[0] {
        lemma_key_lt_asymmetric(a.drop_first(), b.drop_first());
    }
}

proof fn lemma_key_lt_transitive(a: Seq<char>, b: Seq<char>, c: Seq<char>)
    requires
        key_lt(a, b),
        key_lt(b, c),
    ensures
        key_lt(a, c),
    decreases a.len(),
{
    if a.len() > 0 && b.len() > 0 && c.len() > 0 && a[0] == b[0] && b[0] == c[0] {
        lemma_key_lt_transitive(a.drop_first(), b.drop_first(), c.drop_first());
    }
}

// ---------------------------------------------------------------------------
// Sorting pairs with distinct keys.

/// Keys strictly increase along the list.
pub open spec fn strictly_sorted(s: Seq<(Seq<char>, Seq<char>)>) -> bool {
    forall|i: int, j: int| 0 <= i < j < s.len() ==> key_lt(s[i].0, s[j].0)
}

proof fn lemma_insert_sorted(s: Seq<(Seq<char>, Seq<char>)>, x: (Seq<char>, Seq<char>))
    requires
        strictly_sorted(s),
        forall|i: int| 0 <= i < s.len() ==> s[i].0 != x.0,
    ensures
        strictly_sorted(insert_by_key(s, x)),
        forall|p: (Seq<char>, Seq<char>)| #[trigger] insert_by_key(s, x).contains(p) <==> (s.contains(p) || p == x),
    decreases s.len(),
{
    let r = insert_by_key(s, x);
    if s.len() == 0 {
        assert(r == seq![x]);
        assert forall|p: (Seq<char>, Seq<char>)| r.contains(p) <==> (s.contains(p) || p == x) by {
            if r.contains(p) {
                assert(r[0] == p);
            }
            if p == x {
                assert(r[0] == p);
            }
        }
    } else if key_lt(x.0, s[0].0) {
        assert(r == seq![x] + s);
        assert forall|i: int, j: int| 0 <= i < j < r.len() implies key_lt(r[i].0, r[j].0) by {
            if i == 0 {
                if j > 1 {
                    lemma_key_lt_transitive(x.0, s[0].0, s[j - 1].0);
                }
            } else {
                assert(r[i] == s[i - 1] && r[j] == s[j - 1]);
            }
        }
        assert forall|p: (Seq<char>, Seq<char>)| r.contains(p) <==> (s.contains(p) || p == x) by {
            if r.contains(p) {
                let k = choose|k: int| 0 <= k < r.len() && r[k] == p;
                if k > 0 {
                    assert(s[k - 1] == p);
                }
            }
            if s.contains(p) {
                let k = choose|k: int| 0 <= k < s.len() && s[k] == p;
                assert(r[k + 1] == p);
            }
            if p == x {
                assert(r[0] == p);
            }
        }
    } else {
        let t = s.drop_first();
        assert forall|i: int| 0 <= i < t.len() implies t[i].0 != x.0 by {
            assert(t[i] == s[i + 1]);
        }
        assert(strictly_sorted(t)) by {
            assert forall|i: int, j: int| 0 <= i < j < t.len() implies key_lt(t[i].0, t[j].0) by {
                assert(t[i] == s[i + 1] && t[j] == s[j + 1]);
            }
        }
        lemma_insert_sorted(t, x);
        let u = insert_by_key(t, x);
        assert(r == seq![s[0]] + u);
        lemma_key_lt_total(x.0, s[0].0);
        assert(key_lt(s[0].0, x.0));
        assert forall|i: int, j: int| 0 <= i < j < r.len() implies key_lt(r[i].0, r[j].0) by {
            if i == 0 {
                assert(r[j] == u[j - 1]);
                assert(u.contains(u[j - 1]));
                if u[j - 1] != x {
                    assert(t.contains(u[j - 1]));
                    let k = choose|k: int| 0 <= k < t.len() && t[k] == u[j - 1];
                    assert(t[k] == s[k + 1]);
                }
            } else {
                assert(r[i] == u[i - 1] && r[j] == u[j - 1]);
            }
        }
        assert forall|p: (Seq<char>, Seq<char>)| r.contains(p) <==> (s.contains(p) || p == x) by {
            if r.contains(p) {
                let k = choose|k: int| 0 <= k < r.len() && r[k] == p;
                if k == 0 {
                    assert(s[0] == p);
                } else {
                    assert(u[k - 1] == p);
                    assert(u.contains(p));
                    if t.contains(p) {
                        let m = choose|m: int| 0 <= m < t.len() && t[m] == p;
                        assert(s[m + 1] == p);
                    }
                }
            }
            if s.contains(p) {
                let k = choose|k: int| 0 <= k < s.len() && s[k] == p;
                if k == 0 {
                    assert(r[0] == p);
                } else {
                    assert(t[k - 1] == p);
                    assert(t.contains(p));
                    assert(u.contains(p));
                    let m = choose|m: int| 0 <= m < u.len() && u[m] == p;
                    assert(r[m + 1] == p);
                }
            }
            if p == x {
                assert(u.contains(x));
                let m = choose|m: int| 0 <= m < u.len() && u[m] == p;
                assert(r[m + 1] == p);
            }
        }
    }
}

proof fn lemma_sort_sorted(p: Seq<(Seq<char>, Seq<char>)>)
    requires
        distinct_keys(p),
    ensures
        strictly_sorted(sort_by_key(p)),
        forall|x: (Seq<char>, Seq<char>)| sort_by_key(p).contains(x) <==> p.contains(x),
    decreases p.len(),
{
    if p.len() > 0 {
        let init = p.drop_last();
        assert(distinct_keys(init)) by {
            assert forall|i: int, j: int| 0 <= i < j < init.len() implies init[i].0 != init[j].0 by {
                assert(init[i] == p[i] && init[j] == p[j]);
            }
        }
        lemma_sort_sorted(init);
        let s = sort_by_key(init);
        assert forall|i: int| 0 <= i < s.len() implies s[i].0 != p.last().0 by {
            assert(s.contains(s[i]));
            assert(init.contains(s[i]));
            let k = choose|k: int| 0 <= k < init.len() && init[k] == s[i];
            assert(p[k] == s[i]);
        }
        lemma_insert_sorted(s, p.last());
        assert forall|x: (Seq<char>, Seq<char>)| sort_by_key(p).contains(x) <==> p.contains(x) by {
            if p.contains(x) {
                let k = choose|k: int| 0 <= k < p.len() && p[k] == x;
                if k < p.len() - 1 {
                    assert(init[k] == x);
                    assert(init.contains(x));
                }
            }
            if init.contains(x) {
                let k = choose|k: int| 0 <= k < init.len() && init[k] == x;
                assert(p[k] == x);
            }
        }
    }
}

/// Two strictly sorted lists with the same entries are the same list.
proof fn lemma_sorted_unique(a: Seq<(Seq<char>, Seq<char>)>, b: Seq<(Seq<char>, Seq<char>)>)
    requires
        strictly_sorted(a),
        strictly_sorted(b),
        forall|x: (Seq<char>, Seq<char>)| a.contains(x) <==> b.contains(x),
    ensures
        a == b,
    decreases a.len(),
{
    if a.len() == 0 {
        if b.len() > 0 {
            assert(b.contains(b[0]));
        }
        assert(a =~= b);
    } else {
        if b.len() == 0 {
            assert(a.contains(a[0]));
        }
        assert(a.contains(a[0]));
        assert(b.contains(b[0]));
        assert(a[0] == b[0]) by {
            if a[0] != b[0] {
                let i = choose|i: int| 0 <= i < a.len() && a[i] == b[0];
                let j = choose|j: int| 0 <= j < b.len() && b[j] == a[0];
                assert(i > 0);
                assert(j > 0);
                lemma_key_lt_asymmetric(a[0].0, a[i].0);
            }
        }
        let ta = a.drop_first();
        let tb = b.drop_first();
        assert(strictly_sorted(ta)) by {
            assert forall|i: int, j: int| 0 <= i < j < ta.len() implies key_lt(ta[i].0, ta[j].0) by {
                assert(ta[i] == a[i + 1] && ta[j] == a[j + 1]);
            }
        }
        assert(strictly_sorted(tb)) by {
            assert forall|i: int, j: int| 0 <= i < j < tb.len() implies key_lt(tb[i].0, tb[j].0) by {
                assert(tb[i] == b[i + 1] && tb[j] == b[j + 1]);
            }
        }
        assert forall|x: (Seq<char>, Seq<char>)| ta.contains(x) <==> tb.contains(x) by {
            if ta.contains(x) {
                let i = choose|i: int| 0 <= i < ta.len() && ta[i] == x;
                assert(a[i + 1] == x);
                assert(a.contains(x));
                let j = choose|j: int| 0 <= j < b.len() && b[j] == x;
                if j == 0 {
                    lemma_key_lt_irreflexive(a[0].0);
                    assert(key_lt(a[0].0, a[i + 1].0));
                } else {
                    assert(tb[j - 1] == x);
                }
            }
            if tb.contains(x) {
                let i = choose|i: int| 0 <= i < tb.len() && tb[i] == x;
                assert(b[i + 1] == x);
                assert(b.contains(x));
                let j = choose|j: int| 0 <= j < a.len() && a[j] == x;
                if j == 0 {
                    lemma_key_lt_irreflexive(b[0].0);
                    assert(key_lt(b[0].0, b[i + 1].0));
                } else {
                    assert(ta[j - 1] == x);
                }
            }
        }
        lemma_sorted_unique(ta, tb);
        assert(a =~= seq![a[0]] + ta);
        assert(b =~= seq![b[0]] + tb);
    }
}

proof fn lemma_encode_pairs_distinct(q: Seq<(Seq<char>, Seq<char>)>)
    requires
        distinct_keys(q),
    ensures
        distinct_keys(encode_pairs(q)),
{
    let e = encode_pairs(q);
    assert forall|i: int, j: int| 0 <= i < j < e.len() implies e[i].0 != e[j].0 by {
        if e[i].0 == e[j].0 {
            lemma_url_encode_injective(q[i].0, q[j].0);
        }
    }
}

proof fn lemma_encode_pairs_same_entries(q1: Seq<(Seq<char>, Seq<char>)>, q2: Seq<(Seq<char>, Seq<char>)>)
    requires
        forall|x: (Seq<char>, Seq<char>)| q1.contains(x) <==> q2.contains(x),
    ensures
        forall|x: (Seq<char>, Seq<char>)| encode_pairs(q1).contains(x) <==> encode_pairs(q2).contains(x),
{
    let e1 = encode_pairs(q1);
    let e2 = encode_pairs(q2);
    assert forall|x: (Seq<char>, Seq<char>)| e1.contains(x) implies e2.contains(x) by {
        let i = choose|i: int| 0 <= i < e1.len() && e1[i] == x;
        assert(q1.contains(q1[i]));
        let j = choose|j: int| 0 <= j < q2.len() && q2[j] == q1[i];
        assert(e2[j] == x);
    }
    assert forall|x: (Seq<char>, Seq<char>)| e2.contains(x) implies e1.contains(x) by {
        let i = choose|i: int| 0 <= i < e2.len() && e2[i] == x;
        assert(q2.contains(q2[i]));
        let j = choose|j: int| 0 <= j < q1.len() && q1[j] == q2[i];
        assert(e1[j] == x);
    }
}

/// The canonical query string depends only on which parameters there are,
/// not on the order they were inserted in: two parameter lists, each with
/// distinct keys and holding the same entries, give the same string.
pub proof fn lemma_canonical_query_order_independent(q1: Seq<(Seq<char>, Seq<char>)>, q2: Seq<(Seq<char>, Seq<char>)>)
    requires
        distinct_keys(q1),
        distinct_keys(q2),
        forall|x: (Seq<char>, Seq<char>)| q1.contains(x) <==> q2.contains(x),
    ensures
        canonical_query(q1) == canonical_query(q2),
{
    lemma_encode_pairs_distinct(q1);
    lemma_encode_pairs_distinct(q2);
    lemma_encode_pairs_same_entries(q1, q2);
    lemma_sort_sorted(encode_pairs(q1));
    lemma_sort_sorted(encode_pairs(q2));
    let s1 = sort_by_key(encode_pairs(q1));
    let s2 = sort_by_key(encode_pairs(q2));
    assert forall|x: (Seq<char>, Seq<char>)| s1.contains(x) <==> s2.contains(x) by {
        assert(s1.contains(x) <==> encode_pairs(q1).contains(x));
        assert(s2.contains(x) <==> encode_pairs(q2).contains(x));
        assert(encode_pairs(q1).contains(x) <==> encode_pairs(q2).contains(x));
    }
    lemma_sorted_unique(sort_by_key(encode_pairs(q1)), sort_by_key(encode_pairs(q2)));
}

/// The canonical query string lists the parameters in strictly increasing
/// order of their encoded keys, each parameter exactly once.
pub proof fn lemma_canonical_pairs_sorted(q: Seq<(Seq<char>, Seq<char>)>)
    requires
        distinct_keys(q),
    ensures
        strictly_sorted(sort_by_key(encode_pairs(q))),
        forall|x: (Seq<char>, Seq<char>)| sort_by_key(encode_pairs(q)).contains(x) <==> encode_pairs(q).contains(x),
{
    lemma_encode_pairs_distinct(q);
    lemma_sort_sorted(encode_pairs(q));
}

} // verus!
