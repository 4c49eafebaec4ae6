//! A minimal output pipeline: a batch of copyable elements is driven, one
//! element at a time, through an ordered chain of processing stages into a
//! single owned destination.

mod adapter;
mod errors;
mod filter;
mod sink;
mod stream;
mod text;

pub use adapter::FilterTrait;
pub use adapter::FilterWrap;
pub use errors::SinkError;
pub use filter::CharCounterFilter;
pub use filter::OutputFilter;
pub use sink::Sink;
pub use stream::all_pass_through;
pub use stream::lemma_repeat_each_concat;
pub use stream::lemma_repeat_each_index;
pub use stream::lemma_repeat_each_len;
pub use stream::lemma_repeat_each_one;
pub use stream::lemma_repeat_each_push;
pub use stream::repeat_each;
pub use stream::Stream;
pub use text::bytes_of;
