pub mod arm_m4;
