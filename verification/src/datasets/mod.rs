pub mod crossvalidation;
pub mod dataset_utils;
pub mod fitness_metric_type;
pub mod redundancy;
