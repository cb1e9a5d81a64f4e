//! Listing all objects under a prefix, one page at a time.

use vstd::prelude::*;
use vstd::string::StringExecFns;
use crate::query::{distinct_keys, key_index, lemma_key_index, lemma_key_index_at, set_entry, QueryParams};
use crate::response::{page_view, strings_view, ListPage};

verus! {

/// Most keys asked for per page.
pub open spec fn max_keys_text() -> Seq<char> {
    "1000"@
}

/// The parameters of the next page request: `prefix` when not empty,
/// `marker` when not empty, and `max-keys=1000`.
pub open spec fn page_query(prefix: Seq<char>, marker: Seq<char>) -> Seq<(Seq<char>, Seq<char>)> {
    let q0 = Seq::<(Seq<char>, Seq<char>)>::empty();
    let q1 = if prefix.len() > 0 { set_entry(q0, "prefix"@, prefix) } else { q0 };
    let q2 = if marker.len() > 0 { set_entry(q1, "marker"@, marker) } else { q1 };
    set_entry(q2, "max-keys"@, max_keys_text())
}

/// Progress of a listing: the prefix, the marker to continue after, the keys
/// gathered so far and whether the listing is over.
#[derive(Clone, Debug)]
pub struct ListCursor {
    pub prefix: String,
    pub marker: String,
    pub keys: Vec<String>,
    pub done: bool,
}

impl ListCursor {
    /// A listing that has not started.
    pub fn new(prefix: &str) -> (r: Self)
        ensures
            r.prefix@ == prefix@,
            r.marker@ == Seq::<char>::empty(),
            r.keys@.len() == 0,
            !r.done,
    {
        ListCursor { prefix: String::from_str(prefix), marker: String::new(), keys: Vec::new(), done: false }
    }

    /// The query parameters of the next page request.
    pub fn next_query(&self) -> (r: QueryParams)
        ensures
            r@ == page_query(self.prefix@, self.marker@),
    {
        let mut q = QueryParams::new();
        if !self.prefix.as_str().is_empty() {
            q.insert(String::from_str("prefix"), self.prefix.clone());
        }
        if !self.marker.as_str().is_empty() {
            q.insert(String::from_str("marker"), self.marker.clone());
        }
        q.insert(String::from_str("max-keys"), String::from_str("1000"));
        q
    }

    /// Takes in one page. A truncated page without keys ends the listing with
    /// nothing added; otherwise its keys are appended, the marker moves to the
    /// page's next marker or else its last key, and the listing ends when the
    /// page is not truncated.
    pub fn advance(&mut self, page: ListPage)
        ensures
            ({
                let (keys, truncated, next) = page_view(page);
                if keys.len() == 0 && truncated {
                    &&& final(self).done
                    &&& strings_view(final(self).keys@) == strings_view(old(self).keys@)
                    &&& final(self).marker == old(self).marker
                } else {
                    &&& final(self).done == !truncated
                    &&& strings_view(final(self).keys@) == strings_view(old(self).keys@) + keys
                    &&& final(self).marker@ == if keys.len() > 0 {
                        match next {
                            Some(m) => m,
                            None => keys.last(),
                        }
                    } else {
                        old(self).marker@
                    }
                }
            }),
            final(self).prefix == old(self).prefix,
    {
        if page.keys.len() == 0 && page.is_truncated {
            self.done = true;
            return;
        }
        let n = page.keys.len();
        let mut keys: Vec<String> = Vec::new();
        std::mem::swap(&mut keys, &mut self.keys);
        let mut i: usize = 0;
        let ghost start = strings_view(keys@);
        assert(start == strings_view(old(self).keys@));
        while i < n
            invariant
                i <= n,
                n == page.keys@.len(),
                strings_view(keys@) == start + strings_view(page.keys@).take(i as int),
            decreases n - i,
        {
            let k = page.keys[i].clone();
            let ghost before = strings_view(keys@);
            keys.push(k);
            assert(strings_view(keys@) =~= before.push(page.keys@[i as int]@));
            assert(strings_view(page.keys@).take(i + 1) =~= strings_view(page.keys@).take(i as int).push(
                page.keys@[i as int]@,
            ));
            i = i + 1;
        }
        assert(strings_view(page.keys@).take(n as int) =~= strings_view(page.keys@));
        self.keys = keys;
        if n > 0 {
            self.marker = match page.next_marker {
                Some(m) => m,
                None => page.keys[n - 1].clone(),
            };
        }
        self.done = !page.is_truncated;
    }
}

} // verus!

verus! {

/// Appending an entry whose key no earlier entry has.
proof fn lemma_set_entry_fresh(q: Seq<(Seq<char>, Seq<char>)>, key: Seq<char>, value: Seq<char>)
    requires
        forall|j: int| 0 <= j < q.len() ==> q[j].0 != key,
    ensures
        set_entry(q, key, value) == q.push((key, value)),
{
    lemma_key_index(q, key);
}

/// A page request asks for the cursor's prefix and marker exactly as they
/// are, each at most once and only when not empty, and for 1000 keys:
/// looking up `prefix` finds the prefix unchanged (absent for an empty
/// prefix), looking up `marker` finds the marker unchanged (absent for an
/// empty marker), and `max-keys` is `1000`; no parameter occurs twice.
pub proof fn lemma_page_query_parameters(prefix: Seq<char>, marker: Seq<char>)
    ensures
        distinct_keys(page_query(prefix, marker)),
        prefix.len() > 0 ==> (key_index(page_query(prefix, marker), "prefix"@) matches Some(i)
            && page_query(prefix, marker)[i].1 == prefix),
        prefix.len() == 0 ==> key_index(page_query(prefix, marker), "prefix"@) is None,
        marker.len() > 0 ==> (key_index(page_query(prefix, marker), "marker"@) matches Some(i)
            && page_query(prefix, marker)[i].1 == marker),
        marker.len() == 0 ==> key_index(page_query(prefix, marker), "marker"@) is None,
        key_index(page_query(prefix, marker), "max-keys"@) matches Some(i) && page_query(prefix, marker)[i].1
            == "1000"@,
        page_query(prefix, marker).len() == (if prefix.len() > 0 { 1int } else { 0int }) + (if marker.len() > 0 {
            1int
        } else {
            0int
        }) + 1,
{
    reveal_strlit("prefix");
    reveal_strlit("marker");
    reveal_strlit("max-keys");
    let p = "prefix"@;
    let m = "marker"@;
    let k = "max-keys"@;
    assert(p[0] != m[0] && p[0] != k[0] && m[0] == k[0] && m.len() != k.len());
    let q0 = Seq::<(Seq<char>, Seq<char>)>::empty();
    lemma_set_entry_fresh(q0, p, prefix);
    let q1 = if prefix.len() > 0 { set_entry(q0, p, prefix) } else { q0 };
    assert(forall|j: int| 0 <= j < q1.len() ==> q1[j].0 == p);
    lemma_set_entry_fresh(q1, m, marker);
    let q2 = if marker.len() > 0 { set_entry(q1, m, marker) } else { q1 };
    assert(forall|j: int| 0 <= j < q2.len() ==> q2[j].0 == p || q2[j].0 == m);
    lemma_set_entry_fresh(q2, k, max_keys_text());
    let q = page_query(prefix, marker);
    assert(q == q2.push((k, max_keys_text())));
    let ip = 0int;
    let im = if prefix.len() > 0 { 1int } else { 0int };
    let ik = q2.len() as int;
    if prefix.len() > 0 {
        lemma_key_index_at(q, p, ip);
    } else {
        lemma_key_index(q, p);
    }
    if marker.len() > 0 {
        lemma_key_index_at(q, m, im);
    } else {
        lemma_key_index(q, m);
    }
    lemma_key_index_at(q, k, ik);
}

} // verus!
