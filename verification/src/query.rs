//! Query parameters and their canonical form, which is both the query part of
//! request URLs and an input to request signing.

use vstd::prelude::*;
use crate::crypto::{url_encode, url_encode_str};
use crate::text::{chars_eq, chars_of, extend_chars};

verus! {

/// Lexicographic order on character sequences (the order of `str::cmp`,
/// since UTF-8 preserves the order of code points).
pub open spec fn key_lt(a: Seq<char>, b: Seq<char>) -> bool
    decreases a.len(),
{
    if a.len() == 0 {
        b.len() > 0
    } else if b.len() == 0 {
        false
    } else if a[0] != b[0] {
        a[0] < b[0]
    } else {
        key_lt(a.drop_first(), b.drop_first())
    }
}

/// Inserts `x` into a list kept in key order, after every entry whose key is
/// not greater than its own.
pub open spec fn insert_by_key(s: Seq<(Seq<char>, Seq<char>)>, x: (Seq<char>, Seq<char>)) -> Seq<(Seq<char>, Seq<char>)>
    decreases s.len(),
{
    if s.len() == 0 {
        seq![x]
    } else if key_lt(x.0, s[0].0) {
        seq![x] + s
    } else {
        seq![s[0]] + insert_by_key(s.drop_first(), x)
    }
}

/// Stable sort by key (the result of `sort_by` on the first component).
pub open spec fn sort_by_key(p: Seq<(Seq<char>, Seq<char>)>) -> Seq<(Seq<char>, Seq<char>)>
    decreases p.len(),
{
    if p.len() == 0 {
        p
    } else {
        insert_by_key(sort_by_key(p.drop_last()), p.last())
    }
}

/// The views of a list of character-vector pairs.
pub open spec fn pairs_view(v: Seq<(Vec<char>, Vec<char>)>) -> Seq<(Seq<char>, Seq<char>)> {
    v.map_values(|p: (Vec<char>, Vec<char>)| (p.0@, p.1@))
}

/// Whether `a` sorts strictly before `b`.
pub fn key_less(a: &[char], b: &[char]) -> (r: bool)
    ensures
        r == key_lt(a@, b@),
{
    let mut i: usize = 0;
    assert(a@.skip(0) =~= a@ && b@.skip(0) =~= b@);
    while i < a.len() && i < b.len() && a[i] == b[i]
        invariant
            i <= a.len(),
            i <= b.len(),
            key_lt(a@, b@) == key_lt(a@.skip(i as int), b@.skip(i as int)),
        decreases a.len() - i,
    {
        assert(a@.skip(i as int).drop_first() =~= a@.skip(i + 1));
        assert(b@.skip(i as int).drop_first() =~= b@.skip(i + 1));
        i = i + 1;
    }
    if i == a.len() {
        i < b.len()
    } else if i == b.len() {
        false
    } else {
        a[i] < b[i]
    }
}

proof fn lemma_insert_at(s: Seq<(Seq<char>, Seq<char>)>, x: (Seq<char>, Seq<char>), i: int)
    requires
        0 <= i <= s.len(),
        forall|j: int| 0 <= j < i ==> !key_lt(x.0, #[trigger] s[j].0),
        i < s.len() ==> key_lt(x.0, s[i].0),
    ensures
        insert_by_key(s, x) == s.insert(i, x),
    decreases s.len(),
{
    if s.len() == 0 {
        assert(s.insert(i, x) =~= seq![x]);
    } else if i == 0 {
        assert(s.insert(0, x) =~= seq![x] + s);
    } else {
        let t = s.drop_first();
        assert forall|j: int| 0 <= j < i - 1 implies !key_lt(x.0, #[trigger] t[j].0) by {
            assert(t[j] == s[j + 1]);
        }
        lemma_insert_at(t, x, i - 1);
        assert(seq![s[0]] + t.insert(i - 1, x) =~= s.insert(i, x));
    }
}

/// Inserts `x` into `v`, kept in key order, after the entries with equal keys.
fn insert_sorted(v: &mut Vec<(Vec<char>, Vec<char>)>, x: (Vec<char>, Vec<char>))
    ensures
        pairs_view(final(v)@) == insert_by_key(pairs_view(old(v)@), (x.0@, x.1@)),
{
    let ghost s = pairs_view(v@);
    let mut i: usize = 0;
    while i < v.len() && !key_less(&x.0, &v[i].0)
        invariant
            i <= v.len(),
            s == pairs_view(v@),
            forall|j: int| 0 <= j < i ==> !key_lt(x.0@, #[trigger] s[j].0),
        decreases v.len() - i,
    {
        i = i + 1;
    }
    proof {
        lemma_insert_at(s, (x.0@, x.1@), i as int);
    }
    v.insert(i, x);
    assert(pairs_view(v@) =~= s.insert(i as int, (x.0@, x.1@)));
}

/// Sorts pairs by key, keeping pairs with equal keys in their order.
pub fn sort_pairs(p: Vec<(Vec<char>, Vec<char>)>) -> (r: Vec<(Vec<char>, Vec<char>)>)
    ensures
        pairs_view(r@) == sort_by_key(pairs_view(p@)),
{
    let mut out: Vec<(Vec<char>, Vec<char>)> = Vec::new();
    let mut k: usize = 0;
    let n = p.len();
    let ghost pv = pairs_view(p@);
    let mut rest = p;
    while k < n
        invariant
            k <= n,
            n == pv.len(),
            rest@.len() == n - k,
            forall|j: int| 0 <= j < n - k ==> (#[trigger] rest@[j]).0@ == pv[k + j].0 && rest@[j].1@
                == pv[k + j].1,
            pairs_view(out@) == sort_by_key(pv.take(k as int)),
        decreases n - k,
    {
        let x = rest.remove(0);
        assert(pv.take(k + 1).drop_last() =~= pv.take(k as int));
        assert(x.0@ == pv[k as int].0 && x.1@ == pv[k as int].1);
        insert_sorted(&mut out, x);
        k = k + 1;
        assert forall|j: int| 0 <= j < n - k implies (#[trigger] rest@[j]).0@ == pv[k + j].0 && rest@[j].1@
            == pv[k + j].1 by {
        }
    }
    assert(pv.take(n as int) =~= pv);
    out
}

/// One `key=value` item of a query; a flag parameter (empty value) is just
/// the key.
pub open spec fn query_item(p: (Seq<char>, Seq<char>)) -> Seq<char> {
    if p.1.len() == 0 {
        p.0
    } else {
        p.0 + "="@ + p.1
    }
}

/// Items joined with `&`.
pub open spec fn render_query(p: Seq<(Seq<char>, Seq<char>)>) -> Seq<char>
    decreases p.len(),
{
    if p.len() == 0 {
        Seq::empty()
    } else if p.len() == 1 {
        query_item(p[0])
    } else {
        render_query(p.drop_last()) + "&"@ + query_item(p.last())
    }
}

/// Keys and values percent-encoded.
pub open spec fn encode_pairs(q: Seq<(Seq<char>, Seq<char>)>) -> Seq<(Seq<char>, Seq<char>)> {
    q.map_values(|p: (Seq<char>, Seq<char>)| (url_encode(p.0), url_encode(p.1)))
}

/// Canonical query string: keys and values percent-encoded, sorted by
/// encoded key, rendered as `k=v` (or `k` for an empty value) joined by `&`.
pub open spec fn canonical_query(q: Seq<(Seq<char>, Seq<char>)>) -> Seq<char> {
    render_query(sort_by_key(encode_pairs(q)))
}

/// Named string values kept in insertion order, each name at most once.
/// Used for query parameters (where an empty value marks a flag parameter
/// such as `uploads`) and for request headers.
#[derive(Debug)]
pub struct ParamList {
    pub(crate) entries: Vec<(String, String)>,
}

impl View for ParamList {
    type V = Seq<(Seq<char>, Seq<char>)>;

    closed spec fn view(&self) -> Seq<(Seq<char>, Seq<char>)> {
        self.entries@.map_values(|p: (String, String)| (p.0@, p.1@))
    }
}

/// The view of a list is the views of its entries, in order.
pub(crate) proof fn lemma_param_list_view(p: &ParamList)
    ensures
        p@ == p.entries@.map_values(|e: (String, String)| (e.0@, e.1@)),
        p@.len() == p.entries@.len(),
{
}

/// Query parameters.
pub type QueryParams = ParamList;

/// Request headers, with lowercase names.
pub type HeaderList = ParamList;

/// The index of the first entry with `key`, if present.
pub open spec fn key_index(q: Seq<(Seq<char>, Seq<char>)>, key: Seq<char>) -> Option<int>
    decreases q.len(),
{
    if q.len() == 0 {
        None
    } else if q[0].0 == key {
        Some(0)
    } else {
        match key_index(q.drop_first(), key) {
            Some(i) => Some(i + 1),
            None => None,
        }
    }
}

/// `key_index` finds the first entry with the key, and none when no entry
/// has it.
pub proof fn lemma_key_index(q: Seq<(Seq<char>, Seq<char>)>, key: Seq<char>)
    ensures
        match key_index(q, key) {
            Some(i) => 0 <= i < q.len() && q[i].0 == key && forall|j: int| 0 <= j < i ==> q[j].0 != key,
            None => forall|j: int| 0 <= j < q.len() ==> q[j].0 != key,
        },
    decreases q.len(),
{
    if q.len() > 0 {
        lemma_key_index(q.drop_first(), key);
        if q[0].0 != key {
            match key_index(q.drop_first(), key) {
                Some(i) => {
                    assert forall|j: int| 0 <= j < i + 1 implies q[j].0 != key by {
                        if j > 0 {
                            assert(q[j] == q.drop_first()[j - 1]);
                        }
                    }
                },
                None => {
                    assert forall|j: int| 0 <= j < q.len() implies q[j].0 != key by {
                        if j > 0 {
                            assert(q[j] == q.drop_first()[j - 1]);
                        }
                    }
                },
            }
        }
    }
}

/// The first index holding `key` is what `key_index` gives.
pub proof fn lemma_key_index_at(q: Seq<(Seq<char>, Seq<char>)>, key: Seq<char>, i: int)
    requires
        0 <= i < q.len(),
        q[i].0 == key,
        forall|j: int| 0 <= j < i ==> q[j].0 != key,
    ensures
        key_index(q, key) == Some(i),
{
    lemma_key_index(q, key);
    match key_index(q, key) {
        Some(k) => {
            if k < i {
            } else if k > i {
            }
        },
        None => {},
    }
}

/// No key at all: `key_index` gives none.
pub proof fn lemma_key_index_absent(q: Seq<(Seq<char>, Seq<char>)>, key: Seq<char>)
    requires
        forall|j: int| 0 <= j < q.len() ==> q[j].0 != key,
    ensures
        key_index(q, key) is None,
{
    lemma_key_index(q, key);
}

/// Sets `key` to `value`: replaces the first entry with that key, or
/// appends one.
pub open spec fn set_entry(q: Seq<(Seq<char>, Seq<char>)>, key: Seq<char>, value: Seq<char>) -> Seq<(Seq<char>, Seq<char>)> {
    match key_index(q, key) {
        Some(i) => q.update(i, (key, value)),
        None => q.push((key, value)),
    }
}

/// After setting a key, looking it up finds the value just set.
pub proof fn lemma_set_entry_then_get(q: Seq<(Seq<char>, Seq<char>)>, key: Seq<char>, value: Seq<char>)
    ensures
        key_index(set_entry(q, key, value), key) matches Some(j) && set_entry(q, key, value)[j] == (key, value),
{
    let r = set_entry(q, key, value);
    lemma_key_index(q, key);
    match key_index(q, key) {
        Some(i) => {
            lemma_key_index_at(r, key, i);
        },
        None => {
            lemma_key_index_at(r, key, q.len() as int);
        },
    }
}

/// No key occurs twice.
pub open spec fn distinct_keys(q: Seq<(Seq<char>, Seq<char>)>) -> bool {
    forall|i: int, j: int| 0 <= i < j < q.len() ==> q[i].0 != q[j].0
}

impl ParamList {
    /// No name occurs twice.
    #[verifier::type_invariant]
    spec fn names_distinct(self) -> bool {
        distinct_keys(self@)
    }

    /// No parameters.
    pub fn new() -> (r: Self)
        ensures
            r@ == Seq::<(Seq<char>, Seq<char>)>::empty(),
    {
        let r = ParamList { entries: Vec::new() };
        assert(r@ =~= Seq::<(Seq<char>, Seq<char>)>::empty());
        r
    }

    /// Sets `key` to `value`, replacing an earlier value of the same key.
    pub fn insert(&mut self, key: String, value: String)
        ensures
            final(self)@ == set_entry(old(self)@, key@, value@),
            distinct_keys(final(self)@),
    {
        proof {
            use_type_invariant(&*self);
        }
        let ghost start = self@;
        let mut entries: Vec<(String, String)> = Vec::new();
        std::mem::swap(&mut entries, &mut self.entries);
        assert(entries@.map_values(|e: (String, String)| (e.0@, e.1@)) == start);
        let kc = chars_of(key.as_str());
        let mut i: usize = 0;
        while i < entries.len()
            invariant
                i <= entries.len(),
                entries@.map_values(|e: (String, String)| (e.0@, e.1@)) == start,
                start == old(self)@,
                distinct_keys(start),
                kc@ == key@,
                forall|j: int| 0 <= j < i ==> (#[trigger] start[j]).0 != key@,
            decreases entries.len() - i,
        {
            let ec = chars_of(entries[i].0.as_str());
            if chars_eq(&ec, &kc) {
                proof {
                    lemma_key_index_at(start, key@, i as int);
                }
                entries.set(i, (key, value));
                let ghost after = entries@.map_values(|e: (String, String)| (e.0@, e.1@));
                assert(after =~= start.update(i as int, (key@, value@)));
                assert(distinct_keys(after)) by {
                    assert forall|a: int, b: int| 0 <= a < b < after.len() implies after[a].0 != after[b].0 by {
                        assert(after[a].0 == start[a].0);
                        assert(after[b].0 == start[b].0);
                    }
                }
                self.entries = entries;
                return;
            }
            i = i + 1;
        }
        proof {
            lemma_key_index_absent(start, key@);
        }
        entries.push((key, value));
        let ghost after = entries@.map_values(|e: (String, String)| (e.0@, e.1@));
        assert(after =~= start.push((key@, value@)));
        assert(distinct_keys(after)) by {
            assert forall|a: int, b: int| 0 <= a < b < after.len() implies after[a].0 != after[b].0 by {
                if b == start.len() {
                    assert(after[a] == start[a]);
                } else {
                    assert(after[a] == start[a] && after[b] == start[b]);
                }
            }
        }
        self.entries = entries;
    }

    /// A copy of the list.
    pub fn duplicate(&self) -> (r: Self)
        ensures
            r@ == self@,
            distinct_keys(r@),
    {
        proof {
            use_type_invariant(self);
        }
        let mut entries: Vec<(String, String)> = Vec::new();
        let mut i: usize = 0;
        while i < self.entries.len()
            invariant
                i <= self.entries.len(),
                entries@.len() == i,
                forall|j: int| 0 <= j < i ==> #[trigger] entries@[j] == self.entries@[j],
            decreases self.entries.len() - i,
        {
            let k = self.entries[i].0.clone();
            let v = self.entries[i].1.clone();
            entries.push((k, v));
            i = i + 1;
        }
        assert(entries@ =~= self.entries@);
        ParamList { entries }
    }

    /// The entries, in order.
    pub fn pairs(&self) -> (r: &Vec<(String, String)>)
        ensures
            r@.map_values(|e: (String, String)| (e.0@, e.1@)) == self@,
            distinct_keys(self@),
    {
        proof {
            use_type_invariant(self);
        }
        &self.entries
    }

    /// The value of the first entry named `key`.
    pub fn get(&self, key: &str) -> (r: Option<&String>)
        ensures
            match key_index(self@, key@) {
                Some(i) => r matches Some(v) && v@ == self@[i].1,
                None => r is None,
            },
    {
        let kc = chars_of(key);
        let mut i: usize = 0;
        while i < self.entries.len()
            invariant
                i <= self.entries.len(),
                kc@ == key@,
                forall|j: int| 0 <= j < i ==> (#[trigger] self@[j]).0 != key@,
            decreases self.entries.len() - i,
        {
            let ec = chars_of(self.entries[i].0.as_str());
            if chars_eq(&ec, &kc) {
                proof {
                    lemma_key_index_at(self@, key@, i as int);
                }
                return Some(&self.entries[i].1);
            }
            i = i + 1;
        }
        proof {
            lemma_key_index_absent(self@, key@);
        }
        None
    }
}

} // verus!

verus! {

/// Renders pairs as `k=v` items joined by `&`.
fn render_pairs(p: &Vec<(Vec<char>, Vec<char>)>) -> (r: Vec<char>)
    ensures
        r@ == render_query(pairs_view(p@)),
{
    let ghost pv = pairs_view(p@);
    let mut out: Vec<char> = Vec::new();
    let mut k: usize = 0;
    while k < p.len()
        invariant
            k <= p.len(),
            pv == pairs_view(p@),
            out@ == render_query(pv.take(k as int)),
        decreases p.len() - k,
    {
        assert(pv.take(k + 1).drop_last() =~= pv.take(k as int));
        if k > 0 {
            out.push('&');
        }
        let ghost before = out@;
        extend_chars(&mut out, &p[k].0);
        if p[k].1.len() > 0 {
            out.push('=');
            extend_chars(&mut out, &p[k].1);
        }
        proof {
            reveal_strlit("=");
            reveal_strlit("&");
            assert(pv[k as int] == (p@[k as int].0@, p@[k as int].1@));
            if k == 0 {
                assert(pv.take(1)[0] == pv[0]);
            } else {
                assert(pv.take(k + 1).last() == pv[k as int]);
            }
        }
        k = k + 1;
        assert(out@ =~= render_query(pv.take(k as int)));
    }
    assert(pv.take(p.len() as int) =~= pv);
    out
}

/// Builds the canonical query string: percent-encoded keys and values,
/// sorted by encoded key, `k=v` (or `k` for a flag) joined by `&`.
pub fn build_canonical_query_string(query: &QueryParams) -> (r: String)
    ensures
        r@ == canonical_query(query@),
{
    let mut pairs: Vec<(Vec<char>, Vec<char>)> = Vec::new();
    let mut i: usize = 0;
    while i < query.entries.len()
        invariant
            i <= query.entries.len(),
            pairs_view(pairs@) == encode_pairs(query@).take(i as int),
        decreases query.entries.len() - i,
    {
        let k = url_encode_str(query.entries[i].0.as_str());
        let v = url_encode_str(query.entries[i].1.as_str());
        let kc = chars_of(k.as_str());
        let vc = chars_of(v.as_str());
        let ghost before = pairs_view(pairs@);
        pairs.push((kc, vc));
        proof {
            assert(query@[i as int] == (query.entries@[i as int].0@, query.entries@[i as int].1@));
            assert(encode_pairs(query@)[i as int] == (url_encode(query@[i as int].0), url_encode(
                query@[i as int].1,
            )));
            assert(pairs_view(pairs@) =~= before.push((kc@, vc@)));
        }
        i = i + 1;
        assert(pairs_view(pairs@) =~= encode_pairs(query@).take(i as int));
    }
    assert(encode_pairs(query@).take(i as int) =~= encode_pairs(query@));
    let sorted = sort_pairs(pairs);
    let out = render_pairs(&sorted);
    crate::text::string_of(&out)
}

} // verus!
