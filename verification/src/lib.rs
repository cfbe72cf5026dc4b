//! Decoders, search routines and bookkeeping for multi-resolution market
//! data: fixed-size trade, quote and bar records, their file headers, and the
//! integer logic that the aggregation pipeline is built on.

pub mod aggregator;
pub mod calendar;
pub mod codec;
pub mod header;
pub mod levels;
pub mod line_lod;
pub mod live;
pub mod loader;
pub mod metadata;
pub mod mmap;
pub mod nbbo_decoder;
pub mod nbbo_mmap;
pub mod ntrd_decoder;
pub mod ntrd_mmap;
pub mod ring;
pub mod sampling;
pub mod search;
pub mod simulator;
pub mod splits;
pub mod seqs;
pub mod nohlcv_decoder;
pub mod nohlcv_mmap;
pub mod order;
pub mod parse;
pub mod text;
pub mod traits;
pub mod viz_adapter;
pub mod window;
