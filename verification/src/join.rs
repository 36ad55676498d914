//! Joining rendered values with a separator.

use vstd::prelude::*;
use crate::text::texts;

verus! {

/// A run of values and the separator to put between them.
#[derive(Debug, Clone, PartialEq, Eq)]
pub struct DisplayJoin<'a, T, Delim>(pub &'a [T], pub Delim);

/// The texts of `parts` in order, with `delim` between each two of them.
pub open spec fn joined(parts: Seq<Seq<char>>, delim: Seq<char>) -> Seq<char>
    decreases parts.len(),
{
    if parts.len() == 0 {
        Seq::empty()
    } else if parts.len() == 1 {
        parts[0]
    } else {
        joined(parts.drop_last(), delim) + delim + parts.last()
    }
}

impl<'a> DisplayJoin<'a, &'a str, &'a str> {
    /// The joined text of values that are texts already.
    pub fn render(&self) -> (r: String)
        ensures
            r@ == joined(texts(self.0@), self.1@),
    {
        let parts = self.0;
        let mut out = String::new();
        let mut i: usize = 0;
        while i < parts.len()
            invariant
                i <= parts.len(),
                parts == self.0,
                out@ == joined(texts(parts@).take(i as int), self.1@),
            decreases parts.len() - i,
        {
            proof {
                let next = texts(parts@).take(i + 1);
                assert(next.drop_last() =~= texts(parts@).take(i as int));
                assert(next.last() == parts@[i as int]@);
                if i == 0 {
                    assert(Seq::<char>::empty() + parts@[0]@ =~= parts@[0]@);
                }
            }
            if i > 0 {
                out.append(self.1);
            }
            out.append(parts[i]);
            i += 1;
        }
        assert(texts(parts@).take(parts@.len() as int) =~= texts(parts@));
        out
    }
}

} // verus!
