//! The set of validator identities known to the node.

use vstd::prelude::*;

verus! {

/// An immutable collection of validator ids.  It only supports a membership
/// test and a size query; no vote logic consults it.
#[derive(Debug)]
pub struct ValidatorSet {
    /// The validator ids, in the order they were supplied.
    pub validators: Vec<String>,
}

/// True when some element of `ids` reads exactly as `id`.
pub open spec fn has_id(ids: Seq<String>, id: Seq<char>) -> bool {
    exists|i: int| 0 <= i < ids.len() && ids[i]@ == id
}

impl ValidatorSet {
    /// Builds a validator set from the given list of ids.
    pub fn new_simple(validators: Vec<String>) -> (r: Self)
        ensures
            r.validators == validators,
    {
        Self { validators }
    }

    /// Returns the number of validators in the set.
    pub fn len(&self) -> (r: usize)
        ensures
            r == self.validators@.len(),
    {
        self.validators.len()
    }

    /// Tells whether the set holds a validator with the given id.
    pub fn contains(&self, id: &str) -> (r: bool)
        ensures
            r == has_id(self.validators@, id@),
    {
        let wanted = String::from_str(id);
        let n = self.validators.len();
        let mut i: usize = 0;
        while i < n
            invariant
                n == self.validators@.len(),
                0 <= i <= n,
                wanted@ == id@,
                forall|k: int| 0 <= k < i ==> self.validators@[k]@ != id@,
            decreases n - i,
        {
            if self.validators[i] == wanted {
                return true;
            }
            i = i + 1;
        }
        false
    }
}

} // verus!
