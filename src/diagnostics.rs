//! Parse failures: where a rule stopped and what it expected there, and the
//! choice among the failures of the alternatives of one rule.
use vstd::prelude::*;

verus! {

/// A failure to match: the byte offset reached and a description of what was expected.
pub struct ParseError {
    pub offset: usize,
    pub expected: String,
}

/// The failure to report when every alternative failed: the one that got
/// furthest into the input, the earliest tried among equals; `None` when there
/// is no failure.
pub fn furthest_failure(failures: &Vec<ParseError>) -> (r: Option<usize>)
    ensures
        r.is_none() <==> failures@.len() == 0,
        r matches Some(i) ==> {
            &&& i < failures@.len()
            &&& forall|j: int| 0 <= j < failures@.len() ==> (#[trigger] failures@[j]).offset <= failures@[i as int].offset
            &&& forall|j: int| 0 <= j < i ==> (#[trigger] failures@[j]).offset < failures@[i as int].offset
        },
{
    if failures.len() == 0 {
        return None;
    }
    let mut best: usize = 0;
    let mut k: usize = 1;
    while k < failures.len()
        invariant
            0 <= best < k <= failures@.len(),
            forall|j: int| 0 <= j < k ==> (#[trigger] failures@[j]).offset <= failures@[best as int].offset,
            forall|j: int| 0 <= j < best ==> (#[trigger] failures@[j]).offset < failures@[best as int].offset,
        decreases failures@.len() - k,
    {
        if failures[k].offset > failures[best].offset {
            best = k;
        }
        k = k + 1;
    }
    Some(best)
}

} // verus!
