use vstd::prelude::*;

use crate::model::{desc_or_empty, Document, DocumentView, Wpt, WptView};
use crate::text::{ccs_total, dec_of, format_dec, kw_replaced, replace_kw_prefix, sum_ccs};
use vstd::string::StringExecFns;

verus! {

/// `w` with its symbol overwritten by `sym`.
pub open spec fn with_symbol(sym: Seq<char>, w: WptView) -> WptView {
    WptView { point: w.point, name: w.name, description: w.description, symbol: Some(sym) }
}

/// The map applied by the symbol setter.
pub open spec fn symbol_map(sym: Seq<char>) -> spec_fn(WptView) -> WptView {
    |w: WptView| with_symbol(sym, w)
}

/// What setting the symbol returns: the same document, every waypoint's
/// symbol overwritten by `sym`.
pub open spec fn set_symbol_v(sym: Seq<char>, d: DocumentView) -> DocumentView {
    DocumentView { base: d.base, waypoints: d.waypoints.map_values(symbol_map(sym)) }
}

/// The label the name rewriter writes over a waypoint's power prefix:
/// the CCS count of its description, followed by `x`.
pub open spec fn count_label(w: WptView) -> Seq<char> {
    dec_of(ccs_total(desc_or_empty(w)) as nat) + seq!['x']
}

/// `w` with a leading `<digits>kW` prefix of its name replaced by the count
/// label; a name without the prefix stays as it is. A waypoint without a
/// name is left alone, though the rewriter demands that none occurs.
pub open spec fn renamed_wpt(w: WptView) -> WptView {
    match w.name {
        Some(n) => WptView {
            point: w.point,
            name: Some(kw_replaced(n, count_label(w))),
            description: w.description,
            symbol: w.symbol,
        },
        None => w,
    }
}

/// The map applied by the name rewriter.
pub open spec fn rename_map() -> spec_fn(WptView) -> WptView {
    |w: WptView| renamed_wpt(w)
}

/// What the name rewriter returns.
pub open spec fn set_name_v(d: DocumentView) -> DocumentView {
    DocumentView { base: d.base, waypoints: d.waypoints.map_values(rename_map()) }
}

/// Overwrite every waypoint's symbol with `symbol`; everything else in the
/// document stays as it is.
pub fn set_symbol(symbol: &str, input_gpx: Document) -> (r: Document)
    ensures
        r@ == set_symbol_v(symbol@, input_gpx@),
{
    let ghost orig = input_gpx@.waypoints;
    let base = input_gpx.base;
    let mut rest = input_gpx.waypoints;
    let mut done: Vec<Wpt> = Vec::new();
    let mut idx: usize = 0;
    proof {
        assert(rest@.len() == vstd::std_specs::vec::spec_vec_len(&rest));
        assert(rest.deep_view() =~= orig.skip(0));
        assert(done.deep_view() =~= orig.take(0).map_values(symbol_map(symbol@)));
    }
    while rest.len() > 0
        invariant
            idx + rest@.len() == orig.len(),
            orig.len() <= usize::MAX,
            rest.deep_view() == orig.skip(idx as int),
            done.deep_view() == orig.take(idx as int).map_values(symbol_map(symbol@)),
        decreases rest@.len(),
    {
        let ghost prev = rest@;
        let ghost prev_done = done.deep_view();
        let w = rest.remove(0);
        proof {
            assert forall|j: int| 0 <= j < rest@.len() implies rest.deep_view()[j] == orig.skip(
                idx + 1,
            )[j] by {
                assert(rest@[j] == prev.remove(0)[j]);
                assert(prev[j + 1].deep_view() == orig.skip(idx as int)[j + 1]);
            }
            assert(rest.deep_view() =~= orig.skip(idx + 1));
            assert(w@ == orig.skip(idx as int)[0]);
        }
        let new_wpt = Wpt {
            point: w.point,
            name: w.name,
            description: w.description,
            symbol: Some(String::from_str(symbol)),
        };
        proof {
            assert(new_wpt@ == with_symbol(symbol@, w@));
        }
        done.push(new_wpt);
        proof {
            assert(done.deep_view() =~= prev_done.push(with_symbol(symbol@, w@)));
            assert(done.deep_view() =~= orig.take(idx + 1).map_values(symbol_map(symbol@)));
        }
        idx = idx + 1;
    }
    proof {
        assert(orig.take(idx as int) =~= orig);
    }
    Document { base, waypoints: done }
}

/// Law: setting the symbol is idempotent — a second application changes
/// nothing — and every waypoint of the result carries exactly the symbol
/// that was set.
pub proof fn lemma_set_symbol_idempotent(sym: Seq<char>, d: DocumentView)
    ensures
        set_symbol_v(sym, set_symbol_v(sym, d)) == set_symbol_v(sym, d),
        forall|i: int|
            0 <= i < set_symbol_v(sym, d).waypoints.len() ==> (#[trigger] set_symbol_v(
                sym,
                d,
            ).waypoints[i]).symbol == Some(sym),
{
    assert(set_symbol_v(sym, set_symbol_v(sym, d)).waypoints =~= set_symbol_v(sym, d).waypoints);
}

/// Rewrite every waypoint's name: a leading `<digits>kW` prefix becomes
/// `<count>x`, where the count sums the CCS markers of the waypoint's
/// description; a name without the prefix stays as it is. Every waypoint
/// must carry a name. Everything else in the document stays as it is.
pub fn set_name_ccs_count(input_gpx: Document) -> (r: Document)
    requires
        forall|i: int|
            0 <= i < input_gpx@.waypoints.len() ==> (#[trigger] input_gpx@.waypoints[i]).name
                is Some,
    ensures
        r@ == set_name_v(input_gpx@),
{
    let ghost orig = input_gpx@.waypoints;
    let base = input_gpx.base;
    let mut rest = input_gpx.waypoints;
    let mut done: Vec<Wpt> = Vec::new();
    let mut idx: usize = 0;
    proof {
        assert(rest@.len() == vstd::std_specs::vec::spec_vec_len(&rest));
        assert(rest.deep_view() =~= orig.skip(0));
        assert(done.deep_view() =~= orig.take(0).map_values(rename_map()));
    }
    while rest.len() > 0
        invariant
            idx + rest@.len() == orig.len(),
            orig.len() <= usize::MAX,
            forall|i: int| 0 <= i < orig.len() ==> (#[trigger] orig[i]).name is Some,
            rest.deep_view() == orig.skip(idx as int),
            done.deep_view() == orig.take(idx as int).map_values(rename_map()),
        decreases rest@.len(),
    {
        let ghost prev = rest@;
        let ghost prev_done = done.deep_view();
        let w = rest.remove(0);
        proof {
            assert forall|j: int| 0 <= j < rest@.len() implies rest.deep_view()[j] == orig.skip(
                idx + 1,
            )[j] by {
                assert(rest@[j] == prev.remove(0)[j]);
                assert(prev[j + 1].deep_view() == orig.skip(idx as int)[j + 1]);
            }
            assert(rest.deep_view() =~= orig.skip(idx + 1));
            assert(w@ == orig.skip(idx as int)[0]);
            assert(w@.name is Some);
        }
        let sum = sum_ccs(w.description_text());
        let label = format_dec(sum).concat("x");
        proof {
            reveal_strlit("x");
            assert("x"@ =~= seq!['x']);
            assert(label@ == count_label(w@));
        }
        let Wpt { point, name, description, symbol } = w;
        let n: String = match name {
            Some(n) => n,
            None => vstd::pervasive::unreached(),
        };
        let new_wpt = Wpt {
            point,
            name: Some(replace_kw_prefix(n.as_str(), label.as_str())),
            description,
            symbol,
        };
        proof {
            assert(new_wpt@ == renamed_wpt(w@));
        }
        done.push(new_wpt);
        proof {
            assert(done.deep_view() =~= prev_done.push(renamed_wpt(w@)));
            assert(done.deep_view() =~= orig.take(idx + 1).map_values(rename_map()));
        }
        idx = idx + 1;
    }
    proof {
        assert(orig.take(idx as int) =~= orig);
    }
    Document { base, waypoints: done }
}

} // verus!
