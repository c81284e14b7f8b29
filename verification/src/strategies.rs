pub mod each_against_random_n_strategy;
pub mod each_with_each_strategy;
