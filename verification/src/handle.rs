use vstd::prelude::*;

verus! {

/// A unique 64-bit identifier of a CAD object within one document.
/// Handle 0 is reserved and invalid.
#[derive(Debug, Clone, Copy, PartialEq, Eq, Structural, Hash, PartialOrd, Ord)]
pub struct Handle(pub u64);

impl Handle {
    /// Creates a handle from its raw value.
    pub fn new(value: u64) -> (h: Handle)
        ensures
            h.0 == value,
    {
        Handle(value)
    }

    /// The raw value of this handle.
    pub fn value(&self) -> (v: u64)
        ensures
            v == self.0,
    {
        self.0
    }
}

/// `s` lists handles in strictly increasing order of their values.
pub open spec fn strictly_increasing(s: Seq<Handle>) -> bool {
    forall|i: int, j: int| 0 <= i < j < s.len() ==> #[trigger] s[i].0 < #[trigger] s[j].0
}

/// `s` is the sorted, duplicate-free listing of the handles in `set`.
pub open spec fn sorted_listing_of(s: Seq<Handle>, set: Set<Handle>) -> bool {
    &&& strictly_increasing(s)
    &&& s.to_set() == set
}

/// Inserts `h` into the strictly increasing list `v` at its place, unless it
/// is already there.
pub(crate) fn insert_sorted_unique(v: &mut Vec<Handle>, h: Handle)
    requires
        strictly_increasing(old(v)@),
    ensures
        strictly_increasing(final(v)@),
        final(v)@.to_set() == old(v)@.to_set().insert(h),
{
    let mut i: usize = 0;
    while i < v.len() && v[i].0 < h.0
        invariant
            0 <= i <= v.len(),
            v@ == old(v)@,
            strictly_increasing(v@),
            forall|k: int| 0 <= k < i ==> #[trigger] v@[k].0 < h.0,
        decreases v.len() - i,
    {
        i = i + 1;
    }
    if i < v.len() && v[i].0 == h.0 {
        assert(v@.to_set().insert(h) =~= v@.to_set()) by {
            assert(v@[i as int] == h);
        }
        return;
    }
    let ghost before = v@;
    v.insert(i, h);
    assert(v@ =~= before.take(i as int).push(h) + before.skip(i as int));
    assert(v@.to_set() =~= before.to_set().insert(h)) by {
        assert forall|x: Handle| v@.to_set().contains(x) implies before.to_set().insert(h).contains(x) by {
            let k = choose|k: int| 0 <= k < v@.len() && v@[k] == x;
            if k < i {
                assert(before[k] == x);
            } else if k > i {
                assert(before[k - 1] == x);
            }
        }
        assert forall|x: Handle| before.to_set().insert(h).contains(x) implies v@.to_set().contains(x) by {
            if x != h {
                let k = choose|k: int| 0 <= k < before.len() && before[k] == x;
                if k < i {
                    assert(v@[k] == x);
                } else {
                    assert(v@[k + 1] == x);
                }
            } else {
                assert(v@[i as int] == h);
            }
        }
    }
}

} // verus!
