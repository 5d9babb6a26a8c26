//! Rolling history buffers for the sparkline charts.

use vstd::prelude::*;

use std::collections::VecDeque;

verus! {

/// Rolling history length: 60 ticks × 2s = 2 minutes.
pub const HISTORY_LEN: usize = 60;

/// The buffer `b` after `value` is pushed: the oldest entry is dropped first
/// when the buffer is full.
pub open spec fn pushed<T>(b: Seq<T>, value: T) -> Seq<T> {
    if b.len() == HISTORY_LEN {
        b.drop_first().push(value)
    } else {
        b.push(value)
    }
}

/// The buffer after pushing `values`, in order, into an empty one.
pub open spec fn filled<T>(values: Seq<T>) -> Seq<T>
    decreases values.len(),
{
    if values.len() == 0 {
        seq![]
    } else {
        pushed(filled(values.drop_last()), values.last())
    }
}

/// Push a value into a capped history buffer.
pub fn push_history<T>(buf: &mut VecDeque<T>, value: T)
    ensures
        final(buf)@ == pushed(old(buf)@, value),
{
    if buf.len() == HISTORY_LEN {
        buf.pop_front();
    }
    buf.push_back(value);
}

/// A buffer filled from empty holds exactly the most recent `HISTORY_LEN`
/// values (all of them while there are fewer), oldest first.
pub proof fn lemma_history_keeps_latest<T>(values: Seq<T>)
    ensures
        filled(values) == if values.len() <= HISTORY_LEN {
            values
        } else {
            values.skip(values.len() - HISTORY_LEN)
        },
    decreases values.len(),
{
    if values.len() > 0 {
        let init = values.drop_last();
        lemma_history_keeps_latest(init);
        if values.len() <= HISTORY_LEN {
            assert(init.push(values.last()) == values);
        } else if init.len() == HISTORY_LEN {
            assert(init.drop_first().push(values.last()) == values.skip(values.len() - HISTORY_LEN));
        } else {
            let b = init.skip(init.len() - HISTORY_LEN);
            assert(b.drop_first().push(values.last()) == values.skip(values.len() - HISTORY_LEN));
        }
    }
}

} // verus!
