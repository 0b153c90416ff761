//! Arithmetic on a twisted Hessian curve `aX³ + Y³ + Z³ = dXYZ` over the dual
//! numbers `F_q[ε]/(ε²)`, with Diffie–Hellman key exchange on top.
//!
//! The layers are the integers modulo `q` ([`field`]), the dual numbers over
//! them ([`ring`]), projective points with the two-formula addition law
//! ([`projective`]), the non-singular curve ([`curve`]) and key exchange
//! ([`dh`]). The group laws that hold of point addition are in [`group`].

pub mod curve;
pub mod dh;
pub mod field;
pub mod group;
pub mod projective;
pub mod ring;

pub use curve::TwistedHessianCurve;
pub use field::Fq;
pub use projective::Projective;
pub use ring::RingElement;
