//! Moving data in and out of a lapp's wasm memory: the checks made before a
//! copy, and the errors of a lapp instance.

use vstd::prelude::*;

verus! {

/// Bytes in one page of wasm memory.
pub fn page_size() -> (r: usize)
    ensures
        r == 65536,
{
    65536
}

/// Why moving data in or out of wasm memory failed.
pub enum MemoryManagementError {
    /// The wasm runtime failed, with its message.
    Wasmtime(String),
    WrongMemorySize,
    /// The bytes were no valid UTF-8, with the message of the failure.
    IntoStringError(String),
}

/// Why a call into a lapp failed.
pub enum LappInstanceError {
    WasmFunctionNotFound(String),
    WasmError(String),
    DeserializeStringError(String),
    IoError(String),
    MemoryManagementError(MemoryManagementError),
}

/// Whether `size` bytes from `offset` on lie inside memory of `data_size` bytes.
pub fn is_memory_enough(data_size: usize, offset: usize, size: usize) -> (r: bool)
    requires
        offset <= data_size,
    ensures
        r == (offset + size <= data_size),
{
    size <= data_size - offset
}

/// Whether the memory must grow before `size` bytes are copied to `offset`.
pub fn needs_growth(data_size: usize, offset: usize, size: usize) -> (r: bool)
    requires
        offset <= data_size,
    ensures
        r == (offset + size > data_size),
{
    !is_memory_enough(data_size, offset, size)
}

/// The check before a slice is read out of wasm memory: it must lie inside.
pub fn check_wasm_slice(data_size: usize, ptr: usize, len: usize) -> (r: Result<(), MemoryManagementError>)
    requires
        ptr <= data_size,
    ensures
        match r {
            Ok(()) => ptr + len <= data_size,
            Err(e) => ptr + len > data_size && e is WrongMemorySize,
        },
{
    if is_memory_enough(data_size, ptr, len) {
        Ok(())
    } else {
        Err(MemoryManagementError::WrongMemorySize)
    }
}

/// How many pages the memory grows by, one page at a time, before `size`
/// bytes fit from `offset` on: none where they already fit, else the fewest
/// pages after which they do.
pub fn pages_to_grow(data_size: usize, offset: usize, size: usize) -> (r: u64)
    requires
        offset <= data_size,
        offset + size <= usize::MAX,
    ensures
        offset + size <= data_size + r * 65536,
        r == 0 || data_size + (r - 1) * 65536 < offset + size,
{
    if is_memory_enough(data_size, offset, size) {
        return 0;
    }
    let missing = (offset + size - data_size) as u64;
    let pages = missing / 65536 + if missing % 65536 == 0 { 0 } else { 1 };
    assert(pages * 65536 >= missing && (pages - 1) * 65536 < missing) by (nonlinear_arith)
        requires
            missing > 0,
            pages == missing / 65536 + if missing % 65536 == 0 { 0int } else { 1int },
    ;
    pages
}

} // verus!
