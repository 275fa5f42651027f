//! Searching generated text for stop strings.
//!
//! Text is handled as bytes. A stop string that is empty never matches.

use vstd::prelude::*;

verus! {

/// `pat` occurs in `text` starting at byte `i`.
pub open spec fn occurs_at(text: Seq<u8>, pat: Seq<u8>, i: int) -> bool {
    0 <= i && i + pat.len() <= text.len() && text.subrange(i, i + pat.len()) == pat
}

/// Some stop string that is not empty occurs in `text` starting at byte `i`.
pub open spec fn stop_at(text: Seq<u8>, stops: Seq<Seq<u8>>, i: int) -> bool {
    exists|k: int| 0 <= k < stops.len() && stops[k].len() > 0 && occurs_at(text, #[trigger] stops[k], i)
}

/// The first byte position at or after `from` at which a stop string starts.
pub open spec fn first_stop_from(text: Seq<u8>, stops: Seq<Seq<u8>>, from: int) -> Option<int>
    decreases text.len() - from,
{
    if from < 0 || from >= text.len() {
        None
    } else if stop_at(text, stops, from) {
        Some(from)
    } else {
        first_stop_from(text, stops, from + 1)
    }
}

/// The first byte position at which a stop string starts.
pub open spec fn first_stop(text: Seq<u8>, stops: Seq<Seq<u8>>) -> Option<int> {
    first_stop_from(text, stops, 0)
}

/// `text` without the first stop string and whatever follows it.
pub open spec fn truncated(text: Seq<u8>, stops: Seq<Seq<u8>>) -> Seq<u8> {
    match first_stop(text, stops) {
        Some(i) => text.take(i),
        None => text,
    }
}

/// `first_stop_from` names the earliest occurrence: a stop string starts at
/// the position it gives and at no position between `from` and there; when
/// it gives none, no stop string starts at or after `from`.
pub proof fn lemma_first_stop_is_earliest(text: Seq<u8>, stops: Seq<Seq<u8>>, from: int)
    requires
        0 <= from,
    ensures
        match first_stop_from(text, stops, from) {
            Some(i) => from <= i < text.len() && stop_at(text, stops, i) && forall|j: int|
                from <= j < i ==> !stop_at(text, stops, j),
            None => forall|j: int| from <= j ==> !stop_at(text, stops, j),
        },
    decreases text.len() - from,
{
    if from >= text.len() {
        assert forall|j: int| from <= j implies !stop_at(text, stops, j) by {
            if stop_at(text, stops, j) {
                let k = choose|k: int|
                    0 <= k < stops.len() && stops[k].len() > 0 && occurs_at(
                        text,
                        #[trigger] stops[k],
                        j,
                    );
                assert(false);
            }
        }
    } else if !stop_at(text, stops, from) {
        lemma_first_stop_is_earliest(text, stops, from + 1);
    }
}

/// Whether `pat` occurs in `text` starting at byte `i`.
pub fn matches_at(text: &Vec<u8>, pat: &Vec<u8>, i: usize) -> (b: bool)
    ensures
        b == occurs_at(text@, pat@, i as int),
{
    if i > text.len() || pat.len() > text.len() - i {
        return false;
    }
    let mut j: usize = 0;
    while j < pat.len()
        invariant
            j <= pat.len(),
            i + pat.len() <= text.len(),
            forall|k: int| 0 <= k < j ==> text[i + k] == pat[k],
        decreases pat.len() - j,
    {
        if text[i + j] != pat[j] {
            proof {
                assert(text@.subrange(i as int, i + pat.len())[j as int] != pat@[j as int]);
            }
            return false;
        }
        j = j + 1;
    }
    proof {
        assert(text@.subrange(i as int, i + pat.len()) =~= pat@);
    }
    true
}

/// Whether some stop string that is not empty occurs in `text` starting at
/// byte `i`.
pub fn any_stop_at(text: &Vec<u8>, stops: &Vec<Vec<u8>>, i: usize) -> (b: bool)
    ensures
        b == stop_at(text@, stops.deep_view(), i as int),
{
    let mut k: usize = 0;
    while k < stops.len()
        invariant
            k <= stops.len(),
            forall|m: int|
                0 <= m < k ==> !(stops[m].len() > 0 && occurs_at(text@, (#[trigger] stops[m])@, i as int)),
        decreases stops.len() - k,
    {
        if stops[k].len() > 0 && matches_at(text, &stops[k], i) {
            proof {
                assert(stops.deep_view()[k as int] == stops[k as int]@);
            }
            return true;
        }
        k = k + 1;
    }
    proof {
        let d = stops.deep_view();
        if stop_at(text@, d, i as int) {
            let m = choose|m: int|
                0 <= m < d.len() && d[m].len() > 0 && occurs_at(text@, #[trigger] d[m], i as int);
            assert(d[m] == stops[m]@);
            assert(false);
        }
    }
    false
}

/// The first byte position of `text` at which a stop string starts.
pub fn find_stop(text: &Vec<u8>, stops: &Vec<Vec<u8>>) -> (r: Option<usize>)
    ensures
        match r {
            Some(i) => first_stop(text@, stops.deep_view()) == Some(i as int),
            None => first_stop(text@, stops.deep_view()) is None,
        },
{
    let mut i: usize = 0;
    while i < text.len()
        invariant
            i <= text.len(),
            first_stop(text@, stops.deep_view()) == first_stop_from(
                text@,
                stops.deep_view(),
                i as int,
            ),
        decreases text.len() - i,
    {
        if any_stop_at(text, stops, i) {
            return Some(i);
        }
        i = i + 1;
    }
    None
}

} // verus!
