//! Arithmetic in the negacyclic ring Z_q[X]/(X^N + 1), with elements kept in
//! coefficient form, full transform form or split (even/odd) transform form.

pub mod modular;
pub mod transform;
pub mod cyclotomic_ring;
pub mod laws;
