//! Handing the buffers over and giving them up.

use crate::wasm::buffers;
use crate::wasm::buffers::WasmState;
use vstd::prelude::*;

verus! {

/// Takes what is in the output buffer, which is empty afterwards. `None` where
/// there is nothing to take.
pub fn ailib_out_consume(state: &mut WasmState) -> (r: Option<Vec<u8>>)
    ensures
        match r {
            Some(b) => b@.len() > 0 && b@ == old(state).last_out@,
            None => old(state).last_out@.len() == 0,
        },
        final(state).last_out@ == Seq::<u8>::empty(),
        final(state).last_err@ == old(state).last_err@,
        buffers::same_state(*old(state), *final(state)),
{
    let mut taken: Vec<u8> = Vec::new();
    std::mem::swap(&mut taken, &mut state.last_out);
    if taken.len() == 0 {
        None
    } else {
        Some(taken)
    }
}

/// Empties both buffers.
pub fn ailib_arena_reset(state: &mut WasmState)
    ensures
        final(state).last_out@ == Seq::<u8>::empty(),
        final(state).last_err@ == Seq::<u8>::empty(),
        buffers::same_state(*old(state), *final(state)),
{
    state.last_out = Vec::new();
    state.last_err = Vec::new();
}

} // verus!
