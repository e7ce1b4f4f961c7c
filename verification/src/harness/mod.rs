//! The equivalence harness: backend tags, the shape of a golden input, the
//! capture manifest and its drift from the running environment, the memory
//! sampler's records, the `/proc/self/statm` resident-size reading, the
//! memory report's table rows, the report's deviation-band families, and the
//! normalization of bare `NaN` tokens in golden JSON files.

pub mod backend;
pub mod golden;
pub mod manifest;
pub mod memory;
pub mod nan;
pub mod report;
pub mod rows;
