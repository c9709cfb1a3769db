//! Zero-copy, big-endian codec building blocks for automotive diagnostic
//! protocols: leaf read and write helpers, byte sinks, and the codec traits
//! that protocol crates implement on top of them.
//!
//! Every read helper returns `(value, remainder)` and reports a short buffer
//! as [`Incomplete`]; every write helper goes through a [`Sink`] and reports
//! failure as a [`WriteError`]. Nothing panics on malformed input.

mod be;
mod decode;
mod encode;
mod error;
mod laws;
mod oracle;
mod read;
mod sink;
mod sort;
mod text;
mod write;

pub use be::{be_bytes, be_value, pow256};
pub use decode::{
    finish_exact, fixed_stride, law_remaining_count_steps, law_remaining_len_counts_items,
    law_remaining_count_meaning, remaining_count, trailing_error, yield_count, after_elements,
    law_after_elements_compose, Decode,
    DecodeIter,
    DecodeIterator,
};
pub use encode::{attempted, first_overflow, joined, lemma_first_overflow_bounds, lifted, Encode};
pub use error::{Incomplete, InsufficientBuffer, InvalidWidth, TrailingBytes};
pub use laws::{
    law_fixed_widths_fit, law_minimal_width_lossless, law_minimal_width_within_read_width,
    law_read_then_write, law_take_splits, law_write_then_read, law_write_truncates,
};
pub use oracle::{
    decode_i64_values, decoded_values, i64_le_bytes, i64s_le_bytes, is_non_decreasing,
    law_decode_i64_roundtrip, law_decoded_count, law_extra_element_detected, le_bytes, le_i64,
    le_value, same_multiset, MAX_DECODED,
};
pub use read::{
    ensure_len, field_split, read_array, read_be_uint, read_be_uint_into, BeUint, ReadUintError, read_u128_be, read_u16_be, read_u32_be, read_u64_be,
    read_u8, take,
};
pub use sink::{kept, lemma_took_twice, took, CountingSink, Limited, Sink, SliceSink};
pub use sort::{
    ascending, insertion_sort, is_sorted, law_sort_idempotent, sort, sorted_between, NumberList,
    SortError, SortedList, MAX_LEN,
};
pub use text::{decimal, digit_char};
pub use write::{
    emitted, min_be_len, minimal_be_len, write_all, write_be_uint, write_u128_be, write_u16_be,
    write_u32_be, write_u64_be, write_u8, WriteError,
};
