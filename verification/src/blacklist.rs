//! The blacklist classifier: scans submission text against a community's
//! configured terms, case-insensitively and by substring containment, with
//! no word-boundary awareness — a term matches even inside a larger word.
//! This high-recall, low-precision filter is the intended design; false
//! positives go to human review rather than being published.

use vstd::prelude::*;
use crate::text::{lower_of, lowercase, contains_sub, contains_substring};

verus! {

/// Term `i` of `terms` belongs in the scan result: its lowercase form occurs
/// in the (already lowercased) text, and no earlier term has the same
/// lowercase form — each matched form is reported once, under its first
/// configured spelling.
pub open spec fn term_selected(tl: Seq<char>, terms: Seq<Seq<char>>, i: int) -> bool {
    &&& contains_sub(tl, lower_of(terms[i]))
    &&& forall|j: int| 0 <= j < i ==> lower_of(#[trigger] terms[j]) != lower_of(terms[i])
}

/// The scan result: the selected terms, in configured order, in their
/// original spelling.
pub open spec fn scan_spec(tl: Seq<char>, terms: Seq<Seq<char>>) -> Seq<Seq<char>>
    decreases terms.len(),
{
    if terms.len() == 0 {
        Seq::empty()
    } else {
        scan_spec(tl, terms.drop_last()) + (if term_selected(tl, terms, terms.len() - 1) {
            seq![terms.last()]
        } else {
            Seq::empty()
        })
    }
}

/// Some term of `ts` has lowercase form `lowered`.
pub open spec fn has_matching(ts: Seq<Seq<char>>, lowered: Seq<char>) -> bool {
    exists|i: int| 0 <= i < ts.len() && lower_of(#[trigger] ts[i]) == lowered
}

/// `ts` with every term whose lowercase form is `lowered` removed, order
/// otherwise preserved.
pub open spec fn remove_matching(ts: Seq<Seq<char>>, lowered: Seq<char>) -> Seq<Seq<char>>
    decreases ts.len(),
{
    if ts.len() == 0 {
        Seq::empty()
    } else if lower_of(ts[0]) == lowered {
        remove_matching(ts.drop_first(), lowered)
    } else {
        seq![ts[0]] + remove_matching(ts.drop_first(), lowered)
    }
}

/// Removal never grows the list, and leaves it whole exactly when nothing
/// matched.
pub proof fn lemma_remove_matching_len(ts: Seq<Seq<char>>, lowered: Seq<char>)
    ensures
        remove_matching(ts, lowered).len() <= ts.len(),
        (remove_matching(ts, lowered).len() == ts.len()) == !has_matching(ts, lowered),
    decreases ts.len(),
{
    if ts.len() > 0 {
        let rest = ts.drop_first();
        assert(forall|j: int| 0 <= j < rest.len() ==> #[trigger] rest[j] == ts[j + 1]);
        lemma_remove_matching_len(rest, lowered);
        if lower_of(ts[0]) == lowered {
            assert(has_matching(ts, lowered));
        } else {
            assert(remove_matching(ts, lowered).len() == 1 + remove_matching(rest, lowered).len());
            if has_matching(rest, lowered) {
                let j = choose|j: int|
                    0 <= j < rest.len() && lower_of(#[trigger] rest[j]) == lowered;
                assert(lower_of(ts[j + 1]) == lowered);
                assert(has_matching(ts, lowered));
            }
            if has_matching(ts, lowered) {
                let j = choose|j: int| 0 <= j < ts.len() && lower_of(#[trigger] ts[j]) == lowered;
                assert(j > 0);
                assert(lower_of(rest[j - 1]) == lowered);
                assert(has_matching(rest, lowered));
            }
        }
    }
}

/// Whether `v` holds a string whose characters equal `s`'s.
fn string_in(v: &Vec<String>, s: &String) -> (r: bool)
    ensures
        r == (exists|j: int| 0 <= j < v@.len() && (#[trigger] v@[j])@ == s@),
{
    let len = v.len();
    let mut i: usize = 0;
    while i < len
        invariant
            len == v@.len(),
            i <= len,
            forall|j: int| 0 <= j < i ==> (#[trigger] v@[j])@ != s@,
        decreases len - i,
    {
        if v[i].eq(s) {
            return true;
        }
        i += 1;
    }
    false
}

/// Scans `text` against `terms`: lowercases both sides, tests substring
/// containment, and returns the matched terms in configured order, each
/// lowercase form reported at most once. Empty text or an empty term list
/// yields an empty result only insofar as nothing matches; an empty term
/// matches any text.
pub fn scan(text: &str, terms: &Vec<String>) -> (r: Vec<String>)
    ensures
        r.deep_view() == scan_spec(lower_of(text@), terms.deep_view()),
{
    let ghost tl = lower_of(text@);
    let ghost tv = terms.deep_view();
    let text_low = lowercase(text);
    let len = terms.len();
    let mut out: Vec<String> = Vec::new();
    let mut lows: Vec<String> = Vec::new();
    let mut i: usize = 0;
    assert(tv.take(0) =~= Seq::<Seq<char>>::empty());
    while i < len
        invariant
            len == terms@.len(),
            tv == terms.deep_view(),
            tl == lower_of(text@),
            text_low@ == tl,
            i <= len,
            lows@.len() == i,
            forall|j: int| 0 <= j < i ==> (#[trigger] lows@[j])@ == lower_of(tv[j]),
            out.deep_view() == scan_spec(tl, tv.take(i as int)),
        decreases len - i,
    {
        let low = lowercase(terms[i].as_str());
        assert(low@ == lower_of(tv[i as int]));
        let seen = string_in(&lows, &low);
        proof {
            if seen {
                let j = choose|j: int| 0 <= j < lows@.len() && (#[trigger] lows@[j])@ == low@;
                assert(lower_of(tv[j]) == lower_of(tv[i as int]));
            }
            if exists|j: int| 0 <= j < i && lower_of(#[trigger] tv[j]) == lower_of(tv[i as int]) {
                let j = choose|j: int|
                    0 <= j < i && lower_of(#[trigger] tv[j]) == lower_of(tv[i as int]);
                assert((#[trigger] lows@[j])@ == low@);
                assert(seen);
            }
        }
        assert(seen == (exists|j: int| 0 <= j < i && lower_of(#[trigger] tv[j]) == lower_of(
            tv[i as int],
        )));
        let matched = contains_substring(text_low.as_str(), low.as_str());
        let ghost prev = out.deep_view();
        if matched && !seen {
            out.push(terms[i].clone());
            assert(out.deep_view() =~= prev.push(tv[i as int]));
        }
        lows.push(low);
        proof {
            let t1 = tv.take(i + 1);
            assert(t1.drop_last() =~= tv.take(i as int));
            assert(t1[i as int] == tv[i as int]);
            assert(t1.last() == tv[i as int]);
            assert(forall|j: int| 0 <= j < i ==> #[trigger] t1[j] == tv[j]);
            assert(forall|j: int|
                0 <= j < i ==> lower_of(#[trigger] t1[j]) == lower_of(tv[j]));
            assert(contains_sub(tl, lower_of(t1[i as int])) == matched);
            if matched && !seen {
                assert(forall|j: int|
                    0 <= j < i ==> lower_of(#[trigger] t1[j]) != lower_of(t1[i as int]));
                assert(term_selected(tl, t1, i as int));
            } else if matched && seen {
                let j = choose|j: int|
                    0 <= j < i && lower_of(#[trigger] tv[j]) == lower_of(tv[i as int]);
                assert(lower_of(t1[j]) == lower_of(t1[i as int]));
                assert(!term_selected(tl, t1, i as int));
            } else {
                assert(!term_selected(tl, t1, i as int));
            }
            assert(term_selected(tl, t1, i as int) == (matched && !seen));
            if matched && !seen {
                assert(scan_spec(tl, t1) =~= scan_spec(tl, tv.take(i as int)).push(tv[i as int]));
            } else {
                assert(scan_spec(tl, t1) =~= scan_spec(tl, tv.take(i as int)));
            }
        }
        i += 1;
    }
    assert(tv.take(len as int) =~= tv);
    out
}

} // verus!
