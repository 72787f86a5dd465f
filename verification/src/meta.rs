//! The request metadata record: method, path, an ordered mapping of headers
//! in which a duplicate header name is won by its last occurrence, and the
//! parsed query parameters. Built once per request and passed to the handler
//! by value; never mutated afterward.

use vstd::prelude::*;
use crate::query::{parse_query, spec_parse_query};

verus! {

/// The record handed to the handler, one per request.
pub struct Metadata {
    pub method: String,
    pub path: String,
    pub headers: Vec<(String, String)>,
    pub params: Vec<Vec<String>>,
}

/// First-match lookup of a header value by name. On a record with unique
/// names the first match is the only one.
pub open spec fn lookup(h: Seq<(String, String)>, k: Seq<char>) -> Option<Seq<char>>
    decreases h.len(),
{
    if h.len() == 0 {
        None
    } else if h[0].0@ == k {
        Some(h[0].1@)
    } else {
        lookup(h.skip(1), k)
    }
}

/// The value the record must end up holding for name `k` after the pairs in
/// `arrivals` have been inserted in order: the value of the last arrival
/// with that name.
pub open spec fn last_value(arrivals: Seq<(Seq<char>, Seq<char>)>, k: Seq<char>) -> Option<
    Seq<char>,
>
    decreases arrivals.len(),
{
    if arrivals.len() == 0 {
        None
    } else if arrivals.last().0 == k {
        Some(arrivals.last().1)
    } else {
        last_value(arrivals.drop_last(), k)
    }
}

/// Header names are unique within a record.
pub open spec fn unique_keys(h: Seq<(String, String)>) -> bool {
    forall|i: int, j: int| 0 <= i < j < h.len() ==> h[i].0@ != h[j].0@
}

/// The view of an arrival list, as pairs of character sequences.
pub open spec fn pair_views(h: Seq<(String, String)>) -> Seq<(Seq<char>, Seq<char>)> {
    h.map_values(|p: (String, String)| (p.0@, p.1@))
}

/// The names a record holds, in record order.
pub open spec fn header_keys(h: Seq<(String, String)>) -> Seq<Seq<char>> {
    h.map_values(|p: (String, String)| p.0@)
}

/// The name order the record must end up with after the pairs in `arrivals`
/// have been inserted in order: each name at its first occurrence, later
/// occurrences replacing the value in place.
pub open spec fn folded_keys(arrivals: Seq<(Seq<char>, Seq<char>)>) -> Seq<Seq<char>>
    decreases arrivals.len(),
{
    if arrivals.len() == 0 {
        Seq::<Seq<char>>::empty()
    } else {
        let prev = folded_keys(arrivals.drop_last());
        if prev.contains(arrivals.last().0) {
            prev
        } else {
            prev.push(arrivals.last().0)
        }
    }
}

proof fn lemma_lookup_iff_contains(h: Seq<(String, String)>, k: Seq<char>)
    ensures
        lookup(h, k) is Some <==> header_keys(h).contains(k),
    decreases h.len(),
{
    if h.len() == 0 {
        assert(!header_keys(h).contains(k));
    } else {
        lemma_lookup_iff_contains(h.skip(1), k);
        assert(header_keys(h.skip(1)) =~= header_keys(h).skip(1));
        if h[0].0@ == k {
            assert(header_keys(h)[0] == k);
            assert(header_keys(h).contains(k));
        } else {
            if header_keys(h).contains(k) {
                let i = choose|i: int| 0 <= i < header_keys(h).len() && header_keys(h)[i] == k;
                assert(i != 0);
                assert(header_keys(h).skip(1)[i - 1] == k);
                assert(header_keys(h.skip(1)).contains(k));
            }
            if header_keys(h.skip(1)).contains(k) {
                let i = choose|i: int|
                    0 <= i < header_keys(h.skip(1)).len() && header_keys(h.skip(1))[i] == k;
                assert(header_keys(h)[i + 1] == k);
            }
        }
    }
}

impl Metadata {
    /// Well-formedness: header names are unique.
    pub open spec fn wf(&self) -> bool {
        unique_keys(self.headers@)
    }

    /// Value of the header named `k`, if the record holds one.
    pub open spec fn header(&self, k: Seq<char>) -> Option<Seq<char>> {
        lookup(self.headers@, k)
    }

    /// The value of the header named `name`, if the record holds one.
    pub fn header_value(&self, name: &str) -> (r: Option<&String>)
        ensures
            match r {
                Some(v) => self.header(name@) == Some(v@),
                None => self.header(name@) is None,
            },
    {
        let key = String::from_str(name);
        let n = self.headers.len();
        let mut i: usize = 0;
        proof {
            assert(self.headers@.skip(0) =~= self.headers@);
        }
        while i < n
            invariant
                n == self.headers@.len(),
                i <= n,
                key@ == name@,
                lookup(self.headers@, name@) == lookup(self.headers@.skip(i as int), name@),
            decreases n - i,
        {
            let ghost tail = self.headers@.skip(i as int);
            proof {
                assert(tail[0] == self.headers@[i as int]);
                assert(tail.skip(1) =~= self.headers@.skip(i + 1 as int));
            }
            if self.headers[i].0 == key {
                return Some(&self.headers[i].1);
            }
            i = i + 1;
        }
        proof {
            assert(self.headers@.skip(n as int) =~= Seq::<(String, String)>::empty());
        }
        None
    }
}

proof fn lemma_lookup_push(h: Seq<(String, String)>, p: (String, String), q: Seq<char>)
    ensures
        lookup(h.push(p), q) == (if lookup(h, q) is Some {
            lookup(h, q)
        } else if p.0@ == q {
            Some(p.1@)
        } else {
            None::<Seq<char>>
        }),
    decreases h.len(),
{
    if h.len() == 0 {
        assert(h.push(p)[0] == p);
        assert(h.push(p).skip(1) =~= Seq::<(String, String)>::empty());
        assert(lookup(h, q) is None);
        if p.0@ == q {
            assert(lookup(h.push(p), q) == Some(p.1@));
        } else {
            assert(lookup(h.push(p), q) == lookup(h.push(p).skip(1), q));
        }
    } else {
        assert(h.push(p)[0] == h[0]);
        assert(h.push(p).skip(1) =~= h.skip(1).push(p));
        lemma_lookup_push(h.skip(1), p, q);
        if h[0].0@ == q {
            assert(lookup(h.push(p), q) == Some(h[0].1@));
            assert(lookup(h, q) == Some(h[0].1@));
        } else {
            assert(lookup(h.push(p), q) == lookup(h.skip(1).push(p), q));
            assert(lookup(h, q) == lookup(h.skip(1), q));
        }
    }
}

proof fn lemma_lookup_update(h: Seq<(String, String)>, i: int, p: (String, String), q: Seq<char>)
    requires
        0 <= i < h.len(),
        h[i].0@ == p.0@,
        forall|j: int| 0 <= j < i ==> h[j].0@ != p.0@,
    ensures
        lookup(h.update(i, p), q) == (if q == p.0@ {
            Some(p.1@)
        } else {
            lookup(h, q)
        }),
    decreases i,
{
    if i == 0 {
        assert(h.update(0, p)[0] == p);
        if q != p.0@ {
            assert(h.update(0, p).skip(1) =~= h.skip(1));
        }
    } else {
        assert(h.update(i, p)[0] == h[0]);
        assert(h[0].0@ != p.0@);
        assert(h.update(i, p).skip(1) =~= h.skip(1).update(i - 1, p));
        assert(forall|j: int| 0 <= j < i - 1 ==> h.skip(1)[j].0@ != p.0@);
        lemma_lookup_update(h.skip(1), i - 1, p, q);
    }
}

/// Insert a header pair: if the name is already present, its value is
/// replaced in place (the position is kept); otherwise the pair is appended.
/// Either way the inserted value wins over any earlier one of the same name,
/// and every other name keeps its value.
pub fn insert_header(headers: &mut Vec<(String, String)>, key: String, value: String)
    requires
        unique_keys(old(headers)@),
    ensures
        unique_keys(final(headers)@),
        lookup(final(headers)@, key@) == Some(value@),
        forall|q: Seq<char>| q != key@ ==> lookup(final(headers)@, q) == lookup(
            old(headers)@,
            q,
        ),
        header_keys(final(headers)@) == (if header_keys(old(headers)@).contains(key@) {
            header_keys(old(headers)@)
        } else {
            header_keys(old(headers)@).push(key@)
        }),
{
    let n = headers.len();
    let mut i: usize = 0;
    while i < n
        invariant
            n == headers@.len(),
            i <= n,
            headers@ == old(headers)@,
            unique_keys(headers@),
            forall|j: int| 0 <= j < i ==> headers@[j].0@ != key@,
        decreases n - i,
    {
        if headers[i].0 == key {
            let p = (key, value);
            let ghost pk = p.0@;
            let ghost hseq = headers@;
            let ghost idx = i as int;
            headers.remove(i);
            headers.insert(i, p);
            proof {
                assert(headers@ =~= hseq.update(idx, p));
                lemma_lookup_update(hseq, idx, p, pk);
                assert forall|q: Seq<char>| q != pk implies lookup(headers@, q) == lookup(
                    hseq,
                    q,
                ) by {
                    lemma_lookup_update(hseq, idx, p, q);
                }
                assert(hseq[idx].0@ == pk);
                assert(header_keys(hseq)[idx] == pk);
                assert(header_keys(hseq).contains(pk));
                assert(header_keys(headers@) =~= header_keys(hseq));
                assert forall|a: int, b: int| 0 <= a < b < headers@.len() implies headers@[a].0@
                    != headers@[b].0@ by {
                    assert(hseq[a].0@ != hseq[b].0@);
                    if a == idx {
                        assert(headers@[a] == p);
                        assert(headers@[a].0@ == hseq[a].0@);
                    } else {
                        assert(headers@[a] == hseq[a]);
                    }
                    if b == idx {
                        assert(headers@[b] == p);
                        assert(headers@[b].0@ == hseq[b].0@);
                    } else {
                        assert(headers@[b] == hseq[b]);
                    }
                }
            }
            return ;
        }
        i = i + 1;
    }
    let p = (key, value);
    let ghost pk = p.0@;
    let ghost hseq = headers@;
    headers.push(p);
    proof {
        lemma_lookup_push(hseq, p, pk);
        lemma_lookup_none_means_absent(hseq, pk);
        lemma_lookup_iff_contains(hseq, pk);
        assert(!header_keys(hseq).contains(pk));
        assert(header_keys(headers@) =~= header_keys(hseq).push(pk));
        assert forall|q: Seq<char>| q != pk implies lookup(headers@, q) == lookup(hseq, q) by {
            lemma_lookup_push(hseq, p, q);
        }
        assert forall|a: int, b: int| 0 <= a < b < headers@.len() implies headers@[a].0@
            != headers@[b].0@ by {
            if b == hseq.len() {
                assert(headers@[a].0@ == hseq[a].0@);
                assert(headers@[b] == p);
            } else {
                assert(headers@[a].0@ == hseq[a].0@);
                assert(headers@[b].0@ == hseq[b].0@);
            }
        }
    }
}

proof fn lemma_lookup_none_means_absent(h: Seq<(String, String)>, k: Seq<char>)
    requires
        forall|j: int| 0 <= j < h.len() ==> h[j].0@ != k,
    ensures
        lookup(h, k) is None,
    decreases h.len(),
{
    if h.len() > 0 {
        assert(forall|j: int| 0 <= j < h.skip(1).len() ==> h.skip(1)[j].0@ != k);
        lemma_lookup_none_means_absent(h.skip(1), k);
    }
}

/// Build the metadata record for one request. Headers arrive in wire order
/// and a duplicate name is won by its last occurrence; the query string, if
/// any, is parsed into fragment lists; with no query string `params` is
/// empty.
pub fn build_metadata(
    method: String,
    path: String,
    raw_headers: Vec<(String, String)>,
    query: Option<&str>,
) -> (meta: Metadata)
    ensures
        meta.wf(),
        meta.method@ == method@,
        meta.path@ == path@,
        forall|k: Seq<char>| meta.header(k) == last_value(pair_views(raw_headers@), k),
        header_keys(meta.headers@) == folded_keys(pair_views(raw_headers@)),
        match query {
            Some(q) => meta.params.deep_view() == spec_parse_query(q@),
            None => meta.params@.len() == 0,
        },
{
    let ghost all = pair_views(raw_headers@);
    let total: usize = raw_headers.len();
    let mut remaining = raw_headers;
    let mut headers: Vec<(String, String)> = Vec::new();
    proof {
        assert(pair_views(remaining@) =~= all);
        assert(pair_views(Seq::<(String, String)>::empty()) =~= all.take(0));
        assert(header_keys(Seq::<(String, String)>::empty()) =~= folded_keys(all.take(0)));
    }
    let mut done: usize = 0;
    while remaining.len() > 0
        invariant
            done + remaining@.len() == total,
            total == all.len(),
            pair_views(remaining@) == all.skip(done as int),
            unique_keys(headers@),
            forall|k: Seq<char>| lookup(headers@, k) == last_value(all.take(done as int), k),
            header_keys(headers@) == folded_keys(all.take(done as int)),
        decreases remaining@.len(),
    {
        let ghost prior = remaining@;
        let pair = remaining.remove(0);
        proof {
            assert(seq![pair] + remaining@ =~= prior);
            assert((pair.0@, pair.1@) == pair_views(prior)[0]);
            assert((pair.0@, pair.1@) == all[done as int]);
            assert(pair_views(remaining@).len() == all.skip(done + 1 as int).len());
            assert forall|j: int| 0 <= j < remaining@.len() implies pair_views(remaining@)[j]
                == all.skip(done + 1 as int)[j] by {
                assert(remaining@[j] == prior[j + 1]);
                assert(pair_views(prior)[j + 1] == all.skip(done as int)[j + 1]);
            }
            assert(pair_views(remaining@) =~= all.skip(done + 1 as int));
        }
        let ghost before = headers@;
        proof {
            lemma_lookup_iff_contains(before, all[done as int].0);
        }
        insert_header(&mut headers, pair.0, pair.1);
        proof {
            let ghost stepped = all.take(done + 1 as int);
            assert(stepped.last() == all[done as int]);
            assert(stepped.drop_last() =~= all.take(done as int));
            assert(folded_keys(stepped) == (if folded_keys(all.take(done as int)).contains(
                all[done as int].0,
            ) {
                folded_keys(all.take(done as int))
            } else {
                folded_keys(all.take(done as int)).push(all[done as int].0)
            }));
            assert forall|k: Seq<char>| lookup(headers@, k) == last_value(stepped, k) by {
                if k == all[done as int].0 {
                    assert(lookup(headers@, k) == Some(all[done as int].1));
                } else {
                    assert(lookup(headers@, k) == lookup(before, k));
                    assert(last_value(stepped, k) == last_value(all.take(done as int), k));
                }
            }
        }
        done = done + 1;
    }
    proof {
        assert(all.take(total as int) =~= all);
    }
    let params: Vec<Vec<String>> = match query {
        Some(q) => parse_query(q),
        None => Vec::new(),
    };
    Metadata { method, path, headers, params }
}

} // verus!
