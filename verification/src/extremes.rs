//! The single pass that picks the largest and the smallest of a layer's
//! circle areas.
//!
//! The areas are handed over as keys: unsigned integers that are ordered
//! as the areas are. The pass looks at a key for the minimum only when the
//! key has not just raised the maximum. A key that exceeds every key
//! before it is therefore never taken for the minimum; in a sequence that
//! only rises, the first key included, no minimum is found at all.
use vstd::prelude::*;

verus! {

/// What the pass has found: the largest key and the smallest key, each
/// `None` as long as none was taken.
#[derive(Debug, PartialEq, Eq, Clone, Copy, Structural)]
pub struct Extremes {
    pub max: Option<u64>,
    pub min: Option<u64>,
}

/// What the pass has found after looking at one more key: the key
/// becomes the maximum if it exceeds it; only otherwise it becomes the
/// minimum if it is below it.
pub open spec fn scan_step(found: Extremes, key: u64) -> Extremes {
    if found.max is None || key > found.max->0 {
        Extremes { max: Some(key), min: found.min }
    } else if found.min is None || key < found.min->0 {
        Extremes { max: found.max, min: Some(key) }
    } else {
        found
    }
}

/// What the pass finds in `keys`, looked at from first to last.
pub open spec fn scanned(keys: Seq<u64>) -> Extremes
    decreases keys.len(),
{
    if keys.len() == 0 {
        Extremes { max: None, min: None }
    } else {
        scan_step(scanned(keys.drop_last()), keys.last())
    }
}

/// Whether the key at `i` exceeds every key before it, and so raises the
/// maximum when the pass comes to it.
pub open spec fn is_new_high(keys: Seq<u64>, i: int) -> bool {
    forall|j: int| 0 <= j < i ==> keys[j] < keys[i]
}

/// Runs the pass over `keys`.
pub fn scan_extremes(keys: &Vec<u64>) -> (found: Extremes)
    ensures
        found == scanned(keys@),
{
    let mut found = Extremes { max: None, min: None };
    let mut i: usize = 0;
    while i < keys.len()
        invariant
            i <= keys.len(),
            found == scanned(keys@.take(i as int)),
        decreases keys.len() - i,
    {
        let key = keys[i];
        proof {
            assert(keys@.take(i + 1).drop_last() == keys@.take(i as int));
        }
        let raises = match found.max {
            None => true,
            Some(m) => key > m,
        };
        if raises {
            found.max = Some(key);
        } else {
            let lowers = match found.min {
                None => true,
                Some(m) => key < m,
            };
            if lowers {
                found.min = Some(key);
            }
        }
        i += 1;
    }
    assert(keys@.take(keys.len() as int) == keys@);
    found
}

/// The maximum that the pass finds is the greatest key: it is missing
/// only where there is no key, it is one of the keys, and no key exceeds
/// it.
pub proof fn lemma_scanned_max(keys: Seq<u64>)
    ensures
        scanned(keys).max is None <==> keys.len() == 0,
        scanned(keys).max matches Some(m) ==> {
            &&& exists|i: int| 0 <= i < keys.len() && keys[i] == m
            &&& forall|i: int| 0 <= i < keys.len() ==> keys[i] <= m
        },
    decreases keys.len(),
{
    if keys.len() > 0 {
        let before = keys.drop_last();
        lemma_scanned_max(before);
        let m = scanned(keys).max->0;
        if scanned(before).max is None || keys.last() > scanned(before).max->0 {
            assert(keys[keys.len() - 1] == m);
        } else {
            let i = choose|i: int| 0 <= i < before.len() && before[i] == m;
            assert(keys[i] == m);
        }
        assert forall|i: int| 0 <= i < keys.len() implies keys[i] <= m by {
            if i < before.len() {
                assert(before[i] == keys[i]);
            }
        }
    }
}

/// The minimum that the pass finds is the least of the keys that did not
/// raise the maximum: it is missing exactly where every key exceeds all
/// keys before it, and otherwise it is such a key and no such key is
/// below it.
pub proof fn lemma_scanned_min(keys: Seq<u64>)
    ensures
        scanned(keys).min is None <==> forall|i: int| 0 <= i < keys.len() ==> is_new_high(keys, i),
        scanned(keys).min matches Some(m) ==> {
            &&& exists|i: int| 0 <= i < keys.len() && !is_new_high(keys, i) && keys[i] == m
            &&& forall|i: int| 0 <= i < keys.len() && !is_new_high(keys, i) ==> m <= keys[i]
        },
    decreases keys.len(),
{
    if keys.len() > 0 {
        let before = keys.drop_last();
        let last = keys.len() - 1;
        lemma_scanned_min(before);
        lemma_scanned_max(before);
        assert forall|i: int| 0 <= i < before.len() implies is_new_high(before, i) == is_new_high(
            keys,
            i,
        ) by {
            assert forall|j: int| 0 <= j < i implies before[j] == keys[j] by {}
            assert(before[i] == keys[i]);
        }
        let raises = scanned(before).max is None || keys.last() > scanned(before).max->0;
        if raises {
            assert forall|j: int| 0 <= j < last implies keys[j] < keys[last] by {
                assert(before[j] == keys[j]);
            }
            assert(is_new_high(keys, last));
        } else {
            let top = choose|i: int| 0 <= i < before.len() && before[i] == scanned(before).max->0;
            assert(keys[top] >= keys[last]);
            assert(!is_new_high(keys, last));
        }
        if scanned(keys).min is Some {
            let m = scanned(keys).min->0;
            if scanned(keys).min == scanned(before).min {
                let i = choose|i: int|
                    0 <= i < before.len() && !is_new_high(before, i) && before[i] == m;
                assert(!is_new_high(keys, i) && keys[i] == m);
            } else {
                assert(!is_new_high(keys, last) && keys[last] == m);
            }
            assert forall|i: int| 0 <= i < keys.len() && !is_new_high(keys, i) implies m
                <= keys[i] by {
                if i < before.len() {
                    assert(!is_new_high(before, i));
                    assert(before[i] == keys[i]);
                }
            }
        } else {
            assert forall|i: int| 0 <= i < keys.len() implies is_new_high(keys, i) by {
                if i < before.len() {
                    assert(is_new_high(before, i));
                }
            }
        }
    }
}

/// A single key is taken for the maximum and leaves the minimum unset.
pub proof fn lemma_scanned_single(key: u64)
    ensures
        scanned(seq![key]) == (Extremes { max: Some(key), min: None }),
{
    assert(seq![key].drop_last() =~= Seq::<u64>::empty());
    assert(scanned(seq![key].drop_last()) == (Extremes { max: None, min: None }));
}

} // verus!
