//! Query-string parsing for the request metadata record. A query string is
//! split on `&` into pairs, and every pair is split on every `=` (not just
//! the first), so a pair may yield any number of fragments: `a=1&b=2=3&c`
//! parses to `[[a, 1], [b, 2, 3], [c]]`.

use vstd::prelude::*;

verus! {

/// Splitting a character sequence on a separator: fragments are the maximal
/// runs between separators, separators excluded. Adjacent separators yield
/// empty fragments, and the empty sequence yields one empty fragment, as
/// `str::split` does.
pub open spec fn split_on(s: Seq<char>, sep: char) -> Seq<Seq<char>>
    decreases s.len(),
{
    if s.len() == 0 {
        seq![Seq::<char>::empty()]
    } else if s[0] == sep {
        seq![Seq::<char>::empty()] + split_on(s.skip(1), sep)
    } else {
        let rest = split_on(s.skip(1), sep);
        seq![seq![s[0]] + rest[0]] + rest.skip(1)
    }
}

/// A split always yields at least one fragment.
pub proof fn lemma_split_on_nonempty(s: Seq<char>, sep: char)
    ensures
        split_on(s, sep).len() >= 1,
    decreases s.len(),
{
    if s.len() == 0 {
    } else {
        lemma_split_on_nonempty(s.skip(1), sep);
    }
}

/// The parse of a whole query string: split on `&`, then split every pair
/// on every `=`.
pub open spec fn spec_parse_query(q: Seq<char>) -> Seq<Seq<Seq<char>>> {
    split_on(q, '&').map_values(|kv: Seq<char>| split_on(kv, '='))
}

/// Split `s` on `sep`, as `str::split` does.
pub fn split_str(s: &str, sep: char) -> (r: Vec<String>)
    ensures
        r.deep_view() == split_on(s@, sep),
        r@.len() >= 1,
    decreases s@.len(),
{
    let n = s.unicode_len();
    let mut acc: Vec<String> = Vec::new();
    acc.push(String::new());
    let mut i = n;
    proof {
        assert(s@.skip(n as int) =~= Seq::<char>::empty());
        assert(acc.deep_view() =~= split_on(s@.skip(n as int), sep));
    }
    while i > 0
        invariant
            i <= n,
            n == s@.len(),
            acc.deep_view() == split_on(s@.skip(i as int), sep),
            acc@.len() >= 1,
        decreases i,
    {
        let c = s.get_char(i - 1);
        proof {
            assert(s@.skip(i - 1 as int)[0] == s@[i - 1 as int]);
            assert(s@.skip(i - 1 as int).skip(1) =~= s@.skip(i as int));
            lemma_split_on_nonempty(s@.skip(i as int), sep);
        }
        if c == sep {
            acc.insert(0, String::new());
            proof {
                assert(acc.deep_view() =~= split_on(s@.skip(i - 1 as int), sep));
            }
        } else {
            let first = acc.remove(0);
            let mut grown = String::from_str(s.substring_char(i - 1, i));
            grown.append(first.as_str());
            proof {
                assert(s@.subrange(i - 1 as int, i as int) =~= seq![s@[i - 1 as int]]);
            }
            acc.insert(0, grown);
            proof {
                assert(acc.deep_view() =~= split_on(s@.skip(i - 1 as int), sep));
            }
        }
        i = i - 1;
    }
    proof {
        assert(s@.skip(0) =~= s@);
    }
    acc
}

/// Parse a query string into the metadata record's `params`: one fragment
/// list per `&`-separated pair, each pair split on every `=`.
pub fn parse_query(q: &str) -> (r: Vec<Vec<String>>)
    ensures
        r.deep_view() == spec_parse_query(q@),
        r@.len() >= 1,
{
    let pairs = split_str(q, '&');
    let ghost pair_views = split_on(q@, '&');
    let mut out: Vec<Vec<String>> = Vec::new();
    let mut j: usize = 0;
    while j < pairs.len()
        invariant
            j <= pairs@.len(),
            pairs.deep_view() == pair_views,
            pairs@.len() == pair_views.len(),
            pairs@.len() >= 1,
            out@.len() == j,
            out.deep_view() == pair_views.take(j as int).map_values(
                |kv: Seq<char>| split_on(kv, '='),
            ),
        decreases pairs@.len() - j,
    {
        let fragments = split_str(pairs[j].as_str(), '=');
        let ghost prev = out@;
        let ghost prev_dv = out.deep_view();
        out.push(fragments);
        proof {
            assert(pairs.deep_view()[j as int] == pairs@[j as int]@);
            assert(fragments.deep_view() == split_on(pair_views[j as int], '='));
            let ghost target = pair_views.take(j + 1 as int).map_values(
                |kv: Seq<char>| split_on(kv, '='),
            );
            assert(out@.len() == j + 1);
            assert(target.len() == j + 1);
            assert forall|k: int| 0 <= k < target.len() implies out.deep_view()[k]
                == target[k] by {
                assert(pair_views.take(j + 1 as int)[k] == pair_views[k]);
                assert(out.deep_view()[k] == out@[k].deep_view());
                assert(target[k] == split_on(pair_views[k], '='));
                if k < j as int {
                    assert(out@[k] == prev[k]);
                    assert(prev_dv[k] == prev[k].deep_view());
                    assert(pair_views.take(j as int)[k] == pair_views[k]);
                    assert(prev_dv[k] == split_on(pair_views[k], '='));
                } else {
                    assert(out@[k] == fragments);
                }
            }
            assert(out.deep_view() =~= target);
        }
        j = j + 1;
    }
    proof {
        assert(pair_views.take(pairs@.len() as int) =~= pair_views);
        lemma_split_on_nonempty(q@, '&');
    }
    out
}

} // verus!
