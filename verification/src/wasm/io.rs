//! Looking at the output and error buffers.

use crate::wasm::buffers::WasmState;
use vstd::prelude::*;

verus! {

/// The output buffer, where anything is in it.
pub fn ailib_out_ptr(state: &WasmState) -> (r: Option<&Vec<u8>>)
    ensures
        match r {
            Some(b) => state.last_out@.len() > 0 && *b == state.last_out,
            None => state.last_out@.len() == 0,
        },
{
    if state.last_out.len() == 0 {
        None
    } else {
        Some(&state.last_out)
    }
}

/// How many bytes are in the output buffer.
pub fn ailib_out_len(state: &WasmState) -> (r: usize)
    ensures
        r == state.last_out@.len(),
{
    state.last_out.len()
}

/// The error buffer, where anything is in it.
pub fn ailib_err_ptr(state: &WasmState) -> (r: Option<&Vec<u8>>)
    ensures
        match r {
            Some(b) => state.last_err@.len() > 0 && *b == state.last_err,
            None => state.last_err@.len() == 0,
        },
{
    if state.last_err.len() == 0 {
        None
    } else {
        Some(&state.last_err)
    }
}

/// How many bytes are in the error buffer.
pub fn ailib_err_len(state: &WasmState) -> (r: usize)
    ensures
        r == state.last_err@.len(),
{
    state.last_err.len()
}

} // verus!
