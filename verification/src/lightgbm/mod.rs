//! LightGBM text-model loading: the key/value tokenizer, the objective
//! mapping, the categorical bitset decoder and the tree re-numbering plan.

pub mod bitset;
pub mod plan;
pub mod error;
pub mod load;
pub mod objective;
pub mod parse;
