pub mod fitness_metrics;
pub mod logging_stuff;
pub mod node_type;
pub mod random;
pub mod runner;
pub mod utility_funcs;
