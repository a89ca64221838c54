//! Feature extraction, dataset management and rule bookkeeping for a
//! machine-learning assisted web application firewall.

pub mod char_classes;
pub mod http_request;
pub mod rule_text;
pub mod text;
pub mod waf_engines;
pub mod sample_array;
pub mod dataset;
pub mod random;
pub mod features;
pub mod model_algorithm;
pub mod evaluation;
pub mod verdict;
pub mod rule_files;
