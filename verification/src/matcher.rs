//! The search engine: given the canonical collection and a query, computes
//! the filtered result sequence.
//!
//! A query is trimmed; an empty remainder resets to the full collection.
//! Otherwise the query is lower-cased and split on whitespace. A single
//! token selects records whose lower-cased name or text contains it; two or
//! more tokens select records each of whose tokens is contained in some
//! lower-cased tag (and across tokens). Every token is matched as a
//! literal: matching is substring containment of the token's characters,
//! never structural pattern matching. Results keep collection order and are
//! deduplicated by name.
use crate::record::{Kaomoji, RecordView};
use crate::text::{
    contains_str, contains_sub, lower_of, split_tokens, to_lower, tokens_of, trim, trim_spec,
};
use vstd::prelude::*;
use vstd::string::StrSliceExecFns;

verus! {

/// Some tag of `tags`, lower-cased, contains the token.
pub open spec fn token_in_tags(tags: Seq<Seq<char>>, tok: Seq<char>) -> bool {
    exists|k: int| 0 <= k < tags.len() && contains_sub(lower_of(#[trigger] tags[k]), tok)
}

/// Whether a record qualifies for the token list. With exactly one token,
/// only the lower-cased name and text are consulted; with several, every
/// token must be contained in some lower-cased tag.
pub open spec fn record_matches(r: RecordView, toks: Seq<Seq<char>>) -> bool {
    if toks.len() == 1 {
        contains_sub(lower_of(r.name), toks[0]) || contains_sub(lower_of(r.text), toks[0])
    } else {
        forall|j: int| 0 <= j < toks.len() ==> token_in_tags(r.tags, #[trigger] toks[j])
    }
}

/// A record with this name is already present in `rs`.
pub open spec fn seen_name(rs: Seq<RecordView>, n: Seq<char>) -> bool {
    exists|j: int| 0 <= j < rs.len() && (#[trigger] rs[j]).name == n
}

/// Walks `s` in order, appending each matching record whose name is not
/// already in the accumulated result.
pub open spec fn filter_rec(s: Seq<RecordView>, toks: Seq<Seq<char>>, acc: Seq<RecordView>) -> Seq<
    RecordView,
>
    decreases s.len(),
{
    if s.len() == 0 {
        acc
    } else {
        let acc2 = if record_matches(s[0], toks) && !seen_name(acc, s[0].name) {
            acc.push(s[0])
        } else {
            acc
        };
        filter_rec(s.drop_first(), toks, acc2)
    }
}

/// What a search returns: the full collection for a whitespace-only query,
/// and the ordered, name-deduplicated matching records otherwise.
pub open spec fn search_spec(s: Seq<RecordView>, q: Seq<char>) -> Seq<RecordView> {
    let t = trim_spec(q);
    if t.len() == 0 {
        s
    } else {
        filter_rec(s, tokens_of(lower_of(t)), Seq::empty())
    }
}

/// No two records of the collection share a name.
pub open spec fn distinct_names(s: Seq<RecordView>) -> bool {
    forall|i: int, j: int|
        0 <= i < j < s.len() ==> (#[trigger] s[i]).name != (#[trigger] s[j]).name
}

/// A non-empty sequence contains an element exactly when it is the head or
/// the tail contains it.
proof fn lemma_contains_head_rest(s: Seq<RecordView>, r: RecordView)
    requires
        s.len() > 0,
    ensures
        s.contains(r) <==> (r == s[0] || s.drop_first().contains(r)),
{
    let rest = s.drop_first();
    if s.contains(r) {
        let i = choose|i: int| 0 <= i < s.len() && s[i] == r;
        if i > 0 {
            assert(rest[i - 1] == r);
        }
    }
    if rest.contains(r) {
        let i = choose|i: int| 0 <= i < rest.len() && rest[i] == r;
        assert(s[i + 1] == r);
    }
    if r == s[0] {
        assert(s[0] == r);
    }
}

/// The dedup-by-name filter walk keeps exactly the matching records that
/// the accumulator has no name for yet.
proof fn lemma_filter_rec_membership(
    s: Seq<RecordView>,
    toks: Seq<Seq<char>>,
    acc: Seq<RecordView>,
    r: RecordView,
)
    requires
        distinct_names(s),
        forall|k: int| 0 <= k < s.len() ==> !seen_name(acc, (#[trigger] s[k]).name),
    ensures
        filter_rec(s, toks, acc).contains(r) <==> (acc.contains(r) || (s.contains(r)
            && record_matches(r, toks))),
    decreases s.len(),
{
    broadcast use vstd::seq_lib::lemma_seq_contains_after_push;

    if s.len() == 0 {
    } else {
        let s0 = s[0];
        let rest = s.drop_first();
        assert(forall|k: int| 0 <= k < rest.len() ==> #[trigger] rest[k] == s[k + 1]);
        assert(distinct_names(rest)) by {
            assert forall|i: int, j: int| 0 <= i < j < rest.len() implies (#[trigger] rest[i]).name
                != (#[trigger] rest[j]).name by {
                assert(rest[i] == s[i + 1] && rest[j] == s[j + 1]);
            }
        }
        lemma_contains_head_rest(s, r);
        if record_matches(s0, toks) && !seen_name(acc, s0.name) {
            let acc2 = acc.push(s0);
            assert forall|k: int| 0 <= k < rest.len() implies !seen_name(
                acc2,
                (#[trigger] rest[k]).name,
            ) by {
                assert(rest[k] == s[k + 1]);
                assert(!seen_name(acc, s[k + 1].name));
                assert(s[0].name != s[k + 1].name);
                if seen_name(acc2, rest[k].name) {
                    let j = choose|j: int| 0 <= j < acc2.len() && (#[trigger] acc2[j]).name
                        == rest[k].name;
                    if j < acc.len() {
                        assert(acc[j] == acc2[j]);
                        assert(seen_name(acc, rest[k].name));
                    } else {
                        assert(acc2[j] == s0);
                    }
                }
            }
            lemma_filter_rec_membership(rest, toks, acc2, r);
        } else {
            assert(!seen_name(acc, s0.name));
            lemma_filter_rec_membership(rest, toks, acc, r);
            if r == s0 && rest.contains(r) {
                let i = choose|i: int| 0 <= i < rest.len() && rest[i] == r;
                assert(s[i + 1] == r);
            }
        }
    }
}

/// A whitespace-only query resets the view: the result is the whole
/// collection, in its original order, nothing left out or moved.
pub proof fn lemma_empty_query_returns_all(s: Seq<RecordView>, q: Seq<char>)
    requires
        trim_spec(q).len() == 0,
    ensures
        search_spec(s, q) == s,
{
}

/// Single-token containment: with distinct names, a record is in the
/// filtered result exactly when the token is a substring of its lower-cased
/// name or of its lower-cased text. The token's characters are matched
/// literally, whatever they are; no character has a structural meaning.
pub proof fn lemma_single_token_membership(s: Seq<RecordView>, toks: Seq<Seq<char>>, r: RecordView)
    requires
        distinct_names(s),
        toks.len() == 1,
    ensures
        filter_rec(s, toks, Seq::empty()).contains(r) <==> (s.contains(r) && (contains_sub(
            lower_of(r.name),
            toks[0],
        ) || contains_sub(lower_of(r.text), toks[0]))),
{
    lemma_filter_rec_membership(s, toks, Seq::empty(), r);
}

/// Multi-token conjunction: with distinct names, a record is in the
/// filtered result exactly when every token is contained in some
/// lower-cased tag of the record.
pub proof fn lemma_multi_token_membership(s: Seq<RecordView>, toks: Seq<Seq<char>>, r: RecordView)
    requires
        distinct_names(s),
        toks.len() >= 2,
    ensures
        filter_rec(s, toks, Seq::empty()).contains(r) <==> (s.contains(r) && (forall|j: int|
            0 <= j < toks.len() ==> token_in_tags(r.tags, #[trigger] toks[j]))),
{
    lemma_filter_rec_membership(s, toks, Seq::empty(), r);
}

/// Two tokens select a record exactly when some tag contains the first
/// token and some tag (possibly a different one) contains the second.
pub proof fn lemma_two_token_and_or(s: Seq<RecordView>, toks: Seq<Seq<char>>, r: RecordView)
    requires
        distinct_names(s),
        toks.len() == 2,
    ensures
        filter_rec(s, toks, Seq::empty()).contains(r) <==> (s.contains(r) && token_in_tags(
            r.tags,
            toks[0],
        ) && token_in_tags(r.tags, toks[1])),
{
    lemma_multi_token_membership(s, toks, r);
}

/// Single-token containment, stated of the search itself: when the trimmed
/// query lower-cases and splits into exactly one token, a record of a
/// distinct-name collection is in the result exactly when that token is a
/// substring of the record's lower-cased name or text.
pub proof fn lemma_search_single_token(s: Seq<RecordView>, q: Seq<char>, r: RecordView)
    requires
        distinct_names(s),
    ensures
        ({
            let toks = tokens_of(lower_of(trim_spec(q)));
            (trim_spec(q).len() > 0 && toks.len() == 1) ==> (search_spec(s, q).contains(r) <==> (
            s.contains(r) && (contains_sub(lower_of(r.name), toks[0]) || contains_sub(
                lower_of(r.text),
                toks[0],
            ))))
        }),
{
    let toks = tokens_of(lower_of(trim_spec(q)));
    if trim_spec(q).len() > 0 && toks.len() == 1 {
        lemma_single_token_membership(s, toks, r);
    }
}

/// Multi-token conjunction, stated of the search itself: when the trimmed
/// query lower-cases and splits into two or more tokens, a record of a
/// distinct-name collection is in the result exactly when every token is
/// contained in some lower-cased tag of the record.
pub proof fn lemma_search_multi_token(s: Seq<RecordView>, q: Seq<char>, r: RecordView)
    requires
        distinct_names(s),
    ensures
        ({
            let toks = tokens_of(lower_of(trim_spec(q)));
            (trim_spec(q).len() > 0 && toks.len() >= 2) ==> (search_spec(s, q).contains(r) <==> (
            s.contains(r) && (forall|j: int|
                0 <= j < toks.len() ==> token_in_tags(r.tags, #[trigger] toks[j]))))
        }),
{
    let toks = tokens_of(lower_of(trim_spec(q)));
    if trim_spec(q).len() > 0 && toks.len() >= 2 {
        lemma_multi_token_membership(s, toks, r);
    }
}

/// Whether a record qualifies, computed over the executable fields.
fn record_match_exec(k: &Kaomoji, toks: &Vec<String>) -> (b: bool)
    requires
        toks.len() >= 1,
    ensures
        b == record_matches(k@, toks.deep_view()),
{
    if toks.len() == 1 {
        let tok = &toks[0];
        proof {
            assert(toks.deep_view()[0] == toks@[0]@);
        }
        let ln = to_lower(k.name.as_str());
        if contains_str(ln.as_str(), tok.as_str()) {
            return true;
        }
        let lt = to_lower(k.text.as_str());
        return contains_str(lt.as_str(), tok.as_str());
    }
    let mut j: usize = 0;
    while j < toks.len()
        invariant
            toks.len() >= 2,
            j <= toks.len(),
            forall|jj: int|
                0 <= jj < j ==> token_in_tags(k@.tags, #[trigger] toks.deep_view()[jj]),
        decreases toks.len() - j,
    {
        let tok = &toks[j];
        let ghost td = toks.deep_view()[j as int];
        proof {
            assert(td == toks@[j as int]@);
        }
        let mut found = false;
        let mut t: usize = 0;
        while !found && t < k.search_tags.len()
            invariant
                t <= k.search_tags.len(),
                k@.tags.len() == k.search_tags.len(),
                tok@ == td,
                found ==> token_in_tags(k@.tags, td),
                !found ==> forall|tt: int|
                    0 <= tt < t ==> !(#[trigger] contains_sub(lower_of(k@.tags[tt]), td)),
            decreases k.search_tags.len() - t,
        {
            let ltag = to_lower(k.search_tags[t].as_str());
            proof {
                assert(k@.tags[t as int] == k.search_tags@[t as int]@);
            }
            if contains_str(ltag.as_str(), tok.as_str()) {
                found = true;
            }
            t = t + 1;
        }
        if !found {
            proof {
                assert(!token_in_tags(k@.tags, td));
                assert(!record_matches(k@, toks.deep_view()));
            }
            return false;
        }
        j = j + 1;
    }
    true
}

/// Whether some record of `res` already carries this name.
fn name_in(res: &Vec<Kaomoji>, name: &String) -> (b: bool)
    ensures
        b == seen_name(res.deep_view(), name@),
{
    let mut j: usize = 0;
    while j < res.len()
        invariant
            j <= res.len(),
            forall|jj: int| 0 <= jj < j ==> (#[trigger] res.deep_view()[jj]).name != name@,
        decreases res.len() - j,
    {
        if res[j].name == *name {
            proof {
                assert(res.deep_view()[j as int].name == name@);
            }
            return true;
        }
        proof {
            assert(res.deep_view()[j as int].name == res@[j as int].name@);
        }
        j = j + 1;
    }
    false
}

/// Filters the collection by the query, as `search_spec` says: trim, reset
/// on empty, lower-case, split into tokens, match each record literally,
/// keep collection order, deduplicate by name.
pub fn match_query(collection: &Vec<Kaomoji>, query: &str) -> (res: Vec<Kaomoji>)
    ensures
        res.deep_view() == search_spec(collection.deep_view(), query@),
{
    let trimmed = trim(query);
    if trimmed.unicode_len() == 0 {
        let res = collection.clone();
        proof {
            assert(res.deep_view() =~= collection.deep_view());
        }
        return res;
    }
    let lowered = to_lower(trimmed);
    let toks = split_tokens(lowered.as_str());
    let ghost gtoks = tokens_of(lower_of(trim_spec(query@)));
    let mut res: Vec<Kaomoji> = Vec::new();
    let mut i: usize = 0;
    proof {
        assert(collection.deep_view().skip(0) =~= collection.deep_view());
        assert(res.deep_view() =~= Seq::<RecordView>::empty());
    }
    while i < collection.len()
        invariant
            i <= collection.len(),
            collection.deep_view().len() == collection.len(),
            toks.deep_view() == gtoks,
            toks.len() >= 1,
            filter_rec(collection.deep_view(), gtoks, Seq::empty()) == filter_rec(
                collection.deep_view().skip(i as int),
                gtoks,
                res.deep_view(),
            ),
        decreases collection.len() - i,
    {
        let k = &collection[i];
        let m = record_match_exec(k, &toks);
        let dup = name_in(&res, &k.name);
        proof {
            let s = collection.deep_view();
            assert(k@ == s[i as int]);
            assert(s.skip(i as int)[0] == s[i as int]);
            assert(s.skip(i as int).drop_first() =~= s.skip(i as int + 1));
        }
        if m && !dup {
            let ghost prev = res.deep_view();
            res.push(k.clone());
            proof {
                assert(res.deep_view() =~= prev.push(collection.deep_view()[i as int]));
            }
        }
        i = i + 1;
    }
    proof {
        assert(collection.deep_view().skip(collection.len() as int) =~= Seq::<
            RecordView,
        >::empty());
    }
    res
}

} // verus!
