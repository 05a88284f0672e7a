//! Assignment of instructors to teaching sessions by simulated annealing.

pub mod availabilities;
pub mod checks;
pub mod classes;
pub mod costs;
pub mod errors;
pub mod evaluator;
pub mod initial_solution;
pub mod instructor;
pub mod mutation;
pub mod overrides;
pub mod random;
pub mod session;
pub mod solution_output;
pub mod solver;
pub mod talloc;
pub mod text;
pub mod tsv;
pub mod utils;
