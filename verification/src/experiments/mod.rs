pub mod hanoi_1m;
pub mod lean4_checks;
pub mod minif2f_swarm;
pub mod minif2f_v2;
pub mod number_theory_min;
pub mod swarm;
pub mod zeta_sum_proof;
