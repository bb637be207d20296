//! The fixed table of the 36 geometrically valid jumps on the 15-hole
//! triangular board. The table is data, not logic: it is hand-enumerated
//! and its order is the solver's deterministic tie-break, so it must be
//! reproduced exactly.

use vstd::prelude::*;

use crate::board::Jump;
use crate::board::jump_wf;

verus! {

/// The complete enumeration, in the canonical order the search tries
/// jumps in.
pub open spec fn table() -> Seq<Jump> {
    seq![
        Jump { from: 1, over: 2, to: 4 },
        Jump { from: 1, over: 3, to: 6 },
        Jump { from: 2, over: 4, to: 7 },
        Jump { from: 2, over: 5, to: 9 },
        Jump { from: 3, over: 5, to: 8 },
        Jump { from: 3, over: 6, to: 10 },
        Jump { from: 4, over: 2, to: 1 },
        Jump { from: 4, over: 5, to: 6 },
        Jump { from: 4, over: 7, to: 11 },
        Jump { from: 4, over: 8, to: 13 },
        Jump { from: 5, over: 8, to: 12 },
        Jump { from: 5, over: 9, to: 14 },
        Jump { from: 6, over: 3, to: 1 },
        Jump { from: 6, over: 5, to: 4 },
        Jump { from: 6, over: 9, to: 13 },
        Jump { from: 6, over: 10, to: 15 },
        Jump { from: 7, over: 4, to: 2 },
        Jump { from: 7, over: 8, to: 9 },
        Jump { from: 8, over: 5, to: 3 },
        Jump { from: 8, over: 9, to: 10 },
        Jump { from: 9, over: 5, to: 2 },
        Jump { from: 9, over: 8, to: 7 },
        Jump { from: 10, over: 6, to: 3 },
        Jump { from: 10, over: 9, to: 8 },
        Jump { from: 11, over: 7, to: 4 },
        Jump { from: 11, over: 12, to: 13 },
        Jump { from: 12, over: 8, to: 5 },
        Jump { from: 12, over: 13, to: 14 },
        Jump { from: 13, over: 12, to: 11 },
        Jump { from: 13, over: 8, to: 4 },
        Jump { from: 13, over: 9, to: 6 },
        Jump { from: 13, over: 14, to: 15 },
        Jump { from: 14, over: 13, to: 12 },
        Jump { from: 14, over: 9, to: 5 },
        Jump { from: 15, over: 10, to: 6 },
        Jump { from: 15, over: 14, to: 13 },
    ]
}

/// Every entry of the table names three distinct physical holes.
pub proof fn lemma_table_wf()
    ensures
        table().len() == 36,
        forall|i: int| 0 <= i < 36 ==> jump_wf(#[trigger] table()[i]),
{
    assert forall|i: int| 0 <= i < 36 implies jump_wf(#[trigger] table()[i]) by {
        assert(jump_wf(table()[i]));
    }
}

/// The table as a runtime value, entry for entry the canonical
/// enumeration.
pub fn move_table() -> (v: Vec<Jump>)
    ensures
        v@ == table(),
{
    let mut v: Vec<Jump> = Vec::new();
    v.push(Jump { from: 1, over: 2, to: 4 });
    v.push(Jump { from: 1, over: 3, to: 6 });
    v.push(Jump { from: 2, over: 4, to: 7 });
    v.push(Jump { from: 2, over: 5, to: 9 });
    v.push(Jump { from: 3, over: 5, to: 8 });
    v.push(Jump { from: 3, over: 6, to: 10 });
    v.push(Jump { from: 4, over: 2, to: 1 });
    v.push(Jump { from: 4, over: 5, to: 6 });
    v.push(Jump { from: 4, over: 7, to: 11 });
    v.push(Jump { from: 4, over: 8, to: 13 });
    v.push(Jump { from: 5, over: 8, to: 12 });
    v.push(Jump { from: 5, over: 9, to: 14 });
    v.push(Jump { from: 6, over: 3, to: 1 });
    v.push(Jump { from: 6, over: 5, to: 4 });
    v.push(Jump { from: 6, over: 9, to: 13 });
    v.push(Jump { from: 6, over: 10, to: 15 });
    v.push(Jump { from: 7, over: 4, to: 2 });
    v.push(Jump { from: 7, over: 8, to: 9 });
    v.push(Jump { from: 8, over: 5, to: 3 });
    v.push(Jump { from: 8, over: 9, to: 10 });
    v.push(Jump { from: 9, over: 5, to: 2 });
    v.push(Jump { from: 9, over: 8, to: 7 });
    v.push(Jump { from: 10, over: 6, to: 3 });
    v.push(Jump { from: 10, over: 9, to: 8 });
    v.push(Jump { from: 11, over: 7, to: 4 });
    v.push(Jump { from: 11, over: 12, to: 13 });
    v.push(Jump { from: 12, over: 8, to: 5 });
    v.push(Jump { from: 12, over: 13, to: 14 });
    v.push(Jump { from: 13, over: 12, to: 11 });
    v.push(Jump { from: 13, over: 8, to: 4 });
    v.push(Jump { from: 13, over: 9, to: 6 });
    v.push(Jump { from: 13, over: 14, to: 15 });
    v.push(Jump { from: 14, over: 13, to: 12 });
    v.push(Jump { from: 14, over: 9, to: 5 });
    v.push(Jump { from: 15, over: 10, to: 6 });
    v.push(Jump { from: 15, over: 14, to: 13 });
    proof {
        assert(v@ =~= table());
    }
    v
}

} // verus!
