pub mod torus_math;
