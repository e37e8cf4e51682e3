//! A decision-tree classifier over integer-valued tabular features, with an
//! entropy-based selection measure in exact Q16 fixed-point arithmetic, and a
//! staged data pipeline.

pub mod fixedlog;
pub mod measures;
pub mod feature_selector;
pub mod tree;
pub mod comms;
pub mod pipelines;
pub mod entries;
pub mod pipeline;
pub mod model_selection;
pub mod decomposition;
pub mod regression;
pub mod math;
pub mod metrics;
