use vstd::prelude::*;

use crate::model::{desc_or_empty, Document, DocumentView, Wpt, WptView};
use crate::text::{ccs_total, re_found, re_valid, regex_is_valid, regex_search, sum_ccs};

verus! {

/// Whether the description of `w` (the empty text when absent) holds a match
/// for `pattern` anywhere.
pub open spec fn desc_matches(pattern: Seq<char>, w: WptView) -> bool {
    re_found(pattern, desc_or_empty(w))
}

/// The predicate of the description filter.
pub open spec fn desc_pred(pattern: Seq<char>) -> spec_fn(WptView) -> bool {
    |w: WptView| desc_matches(pattern, w)
}

/// What filtering by description returns: the same document, its waypoint
/// sequence reduced to those whose description matches.
pub open spec fn filter_by_description_v(pattern: Seq<char>, d: DocumentView) -> DocumentView {
    DocumentView { base: d.base, waypoints: d.waypoints.filter(desc_pred(pattern)) }
}

/// Whether the CCS count of `w`'s description lies in `[min, max]`, both ends
/// inclusive.
pub open spec fn ccs_in_range(min: int, max: int, w: WptView) -> bool {
    min <= ccs_total(desc_or_empty(w)) <= max
}

/// The predicate of the count filter.
pub open spec fn ccs_pred(min: int, max: int) -> spec_fn(WptView) -> bool {
    |w: WptView| ccs_in_range(min, max, w)
}

/// What filtering by CCS count returns.
pub open spec fn filter_by_ccs_v(min: int, max: int, d: DocumentView) -> DocumentView {
    DocumentView { base: d.base, waypoints: d.waypoints.filter(ccs_pred(min, max)) }
}

proof fn lemma_filter_push<A>(s: Seq<A>, pred: spec_fn(A) -> bool, x: A)
    ensures
        s.push(x).filter(pred) == (if pred(x) {
            s.filter(pred).push(x)
        } else {
            s.filter(pred)
        }),
{
    reveal(Seq::filter);
    assert(s.push(x).drop_last() =~= s);
    assert(s.push(x).last() == x);
}

/// Keep the waypoints whose description (the empty text when absent) holds a
/// match for `filter`; everything else in the document stays as it is, and
/// the kept waypoints keep their relative order.
pub fn filter_wpt_by_description(filter: &str, input_gpx: Document) -> (r: Document)
    requires
        re_valid(filter@),
    ensures
        r@ == filter_by_description_v(filter@, input_gpx@),
{
    let ghost orig = input_gpx@.waypoints;
    let base = input_gpx.base;
    let mut rest = input_gpx.waypoints;
    let mut kept: Vec<Wpt> = Vec::new();
    let mut idx: usize = 0;
    proof {
        assert(rest@.len() == vstd::std_specs::vec::spec_vec_len(&rest));
        assert(rest.deep_view() =~= orig.skip(0));
        assert(kept.deep_view() =~= orig.take(0).filter(desc_pred(filter@)));
        assert(orig.take(0).filter(desc_pred(filter@)) =~= Seq::<WptView>::empty()) by {
            reveal(Seq::filter);
        }
    }
    while rest.len() > 0
        invariant
            re_valid(filter@),
            idx + rest@.len() == orig.len(),
            orig.len() <= usize::MAX,
            rest.deep_view() == orig.skip(idx as int),
            kept.deep_view() == orig.take(idx as int).filter(desc_pred(filter@)),
        decreases rest@.len(),
    {
        let ghost prev = rest@;
        let ghost prev_kept = kept.deep_view();
        let w = rest.remove(0);
        proof {
            assert forall|j: int| 0 <= j < rest@.len() implies rest.deep_view()[j] == orig.skip(
                idx + 1,
            )[j] by {
                assert(rest@[j] == prev.remove(0)[j]);
                assert(prev[j + 1].deep_view() == orig.skip(idx as int)[j + 1]);
            }
            assert(rest.deep_view() =~= orig.skip(idx + 1));
            assert(w@ == orig.skip(idx as int)[0]);
            assert(orig.take(idx + 1) =~= orig.take(idx as int).push(orig[idx as int]));
            lemma_filter_push(orig.take(idx as int), desc_pred(filter@), orig[idx as int]);
        }
        let keep = regex_search(filter, w.description_text());
        if keep {
            kept.push(w);
            proof {
                assert(kept.deep_view() =~= prev_kept.push(w@));
            }
        }
        idx = idx + 1;
    }
    proof {
        assert(orig.take(idx as int) =~= orig);
    }
    Document { base, waypoints: kept }
}

/// Compile-check `filter` first: filtering happens only when the regex crate
/// accepts it, and `None` says that it did not.
pub fn try_filter_wpt_by_description(filter: &str, input_gpx: Document) -> (r: Option<Document>)
    ensures
        re_valid(filter@) ==> r is Some && r->Some_0@ == filter_by_description_v(
            filter@,
            input_gpx@,
        ),
        !re_valid(filter@) ==> r is None,
{
    if regex_is_valid(filter) {
        Some(filter_wpt_by_description(filter, input_gpx))
    } else {
        None
    }
}

/// Keep the waypoints whose summed CCS count lies in `[min, max]`, both ends
/// inclusive; a waypoint without a description counts 0. Everything else in
/// the document stays as it is, and the kept waypoints keep their relative
/// order.
pub fn filter_wpt_by_ccs_count(min: i32, max: i32, input_gpx: Document) -> (r: Document)
    ensures
        r@ == filter_by_ccs_v(min as int, max as int, input_gpx@),
{
    let ghost orig = input_gpx@.waypoints;
    let base = input_gpx.base;
    let mut rest = input_gpx.waypoints;
    let mut kept: Vec<Wpt> = Vec::new();
    let mut idx: usize = 0;
    proof {
        assert(rest@.len() == vstd::std_specs::vec::spec_vec_len(&rest));
        assert(rest.deep_view() =~= orig.skip(0));
        assert(kept.deep_view() =~= orig.take(0).filter(ccs_pred(min as int, max as int)));
        assert(orig.take(0).filter(ccs_pred(min as int, max as int)) =~= Seq::<WptView>::empty())
            by {
            reveal(Seq::filter);
        }
    }
    while rest.len() > 0
        invariant
            idx + rest@.len() == orig.len(),
            orig.len() <= usize::MAX,
            rest.deep_view() == orig.skip(idx as int),
            kept.deep_view() == orig.take(idx as int).filter(ccs_pred(min as int, max as int)),
        decreases rest@.len(),
    {
        let ghost prev = rest@;
        let ghost prev_kept = kept.deep_view();
        let w = rest.remove(0);
        proof {
            assert forall|j: int| 0 <= j < rest@.len() implies rest.deep_view()[j] == orig.skip(
                idx + 1,
            )[j] by {
                assert(rest@[j] == prev.remove(0)[j]);
                assert(prev[j + 1].deep_view() == orig.skip(idx as int)[j + 1]);
            }
            assert(rest.deep_view() =~= orig.skip(idx + 1));
            assert(w@ == orig.skip(idx as int)[0]);
            assert(orig.take(idx + 1) =~= orig.take(idx as int).push(orig[idx as int]));
            lemma_filter_push(orig.take(idx as int), ccs_pred(min as int, max as int), orig[idx as int]);
        }
        let sum = sum_ccs(w.description_text());
        let lower_ok = if min <= 0 {
            true
        } else {
            (min as u128) <= sum
        };
        let upper_ok = if max < 0 {
            false
        } else {
            sum <= (max as u128)
        };
        if lower_ok && upper_ok {
            kept.push(w);
            proof {
                assert(kept.deep_view() =~= prev_kept.push(w@));
            }
        }
        idx = idx + 1;
    }
    proof {
        assert(orig.take(idx as int) =~= orig);
    }
    Document { base, waypoints: kept }
}

/// Whether `a` occurs inside `b` in order: `a` is `b` with some elements
/// dropped and none reordered.
pub open spec fn subsequence_of<A>(a: Seq<A>, b: Seq<A>) -> bool
    decreases b.len(),
{
    if b.len() == 0 {
        a.len() == 0
    } else if a.len() == 0 {
        true
    } else if a.last() == b.last() {
        subsequence_of(a.drop_last(), b.drop_last())
    } else {
        subsequence_of(a, b.drop_last())
    }
}

proof fn lemma_filter_subsequence<A>(s: Seq<A>, pred: spec_fn(A) -> bool)
    ensures
        subsequence_of(s.filter(pred), s),
    decreases s.len(),
{
    reveal(Seq::filter);
    if s.len() > 0 {
        let f = s.filter(pred);
        lemma_filter_subsequence(s.drop_last(), pred);
        if pred(s.last()) {
            assert(f.last() == s.last());
            assert(f.drop_last() =~= s.drop_last().filter(pred));
        } else {
            if f.len() > 0 {
                s.drop_last().lemma_filter_pred(pred, f.len() - 1);
            }
        }
    }
}

/// Law: filtering by description keeps a subsequence of the document's
/// waypoints — original relative order, nothing added — and a waypoint of
/// the document stands in the result if and only if its description (the
/// empty text when absent) holds a match for the pattern. Everything beside
/// the waypoints is untouched.
pub proof fn lemma_filter_by_description_law(pattern: Seq<char>, d: DocumentView)
    ensures
        filter_by_description_v(pattern, d).base == d.base,
        subsequence_of(filter_by_description_v(pattern, d).waypoints, d.waypoints),
        forall|w: WptView|
            #[trigger] filter_by_description_v(pattern, d).waypoints.contains(w) <==> (
            d.waypoints.contains(w) && desc_matches(pattern, w)),
{
    let pred = desc_pred(pattern);
    let f = d.waypoints.filter(pred);
    lemma_filter_subsequence(d.waypoints, pred);
    assert forall|w: WptView| #[trigger] f.contains(w) implies d.waypoints.contains(w)
        && desc_matches(pattern, w) by {
        let i = choose|i: int| 0 <= i < f.len() && f[i] == w;
        d.waypoints.lemma_filter_pred(pred, i);
        d.waypoints.lemma_filter_contains_rev(pred, w);
    }
    assert forall|w: WptView| d.waypoints.contains(w) && desc_matches(pattern, w) implies #[trigger] f.contains(
        w,
    ) by {
        let i = choose|i: int| 0 <= i < d.waypoints.len() && d.waypoints[i] == w;
        d.waypoints.lemma_filter_contains(pred, i);
    }
}

/// Law: filtering by CCS count keeps a subsequence of the document's
/// waypoints — original relative order, nothing added — and a waypoint of
/// the document stands in the result if and only if the summed CCS count of
/// its description lies in `[min, max]` inclusive; one without a match, or
/// without a description, counts 0. Everything beside the waypoints is
/// untouched.
pub proof fn lemma_filter_by_ccs_law(min: int, max: int, d: DocumentView)
    ensures
        filter_by_ccs_v(min, max, d).base == d.base,
        subsequence_of(filter_by_ccs_v(min, max, d).waypoints, d.waypoints),
        forall|w: WptView|
            #[trigger] filter_by_ccs_v(min, max, d).waypoints.contains(w) <==> (
            d.waypoints.contains(w) && ccs_in_range(min, max, w)),
{
    let pred = ccs_pred(min, max);
    let f = d.waypoints.filter(pred);
    lemma_filter_subsequence(d.waypoints, pred);
    assert forall|w: WptView| #[trigger] f.contains(w) implies d.waypoints.contains(w)
        && ccs_in_range(min, max, w) by {
        let i = choose|i: int| 0 <= i < f.len() && f[i] == w;
        d.waypoints.lemma_filter_pred(pred, i);
        d.waypoints.lemma_filter_contains_rev(pred, w);
    }
    assert forall|w: WptView| d.waypoints.contains(w) && ccs_in_range(min, max, w) implies #[trigger] f.contains(
        w,
    ) by {
        let i = choose|i: int| 0 <= i < d.waypoints.len() && d.waypoints[i] == w;
        d.waypoints.lemma_filter_contains(pred, i);
    }
}

} // verus!
