//! Verified core of a byte-stream visualiser: the file is read as little-endian
//! 32-bit words, three words to a vertex; a sliding window of six vertices is
//! drawn at a time; a control panel sends `index|value` messages that set
//! slider values.
mod controls;
mod decode;
mod events;
mod parse;
mod window;

pub use controls::{apply_message, control_message, lemma_gettuple_needs_bar, lemma_gettuple_split, lemma_control_message_round_trip, gettuple, last_bar, spec_gettuple, update, Controls};
pub use decode::{decoded_vertices, le_word, lemma_decoded_vertex_word, lemma_decoded_vertices_concat, load_data, vertex_words};
pub use events::{loop_step, Flow, LoopAction, LoopEvent};
pub use parse::{decimal_text, digits_value, lemma_parse_i64_from_usize, lemma_parse_usize_needs_digits, lemma_parse_usize_one_digit, lemma_parse_usize_push_digit, lemma_parse_usize_rejects, lemma_decimal_text_value, lemma_parse_i64_signed_text, lemma_parse_usize_decimal_text, signed_text, is_digit, is_numeral, parse_i64, parse_usize, spec_parse_i64, spec_parse_usize, without_plus};
pub use window::{clamp, lemma_clamp_below, lemma_clamp_fixes_range, lemma_clamp_idempotent, lemma_clamp_in_range, lemma_clamp_past_end, lemma_frame_window_count, lemma_frame_window_start, lemma_window_index, frame_window_count, frame_window_start, frame_window_starts, gather_window, spec_clamp, window_index, window_indices};
