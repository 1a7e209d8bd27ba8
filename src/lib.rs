//! Threshold BLS signatures over BLS12-381 with joint Feldman verifiable secret sharing:
//! field and group elements (`field`, `curve`), polynomials and their commitments (`poly`),
//! the dealer's symmetric bivariate polynomial (`bivar`), byte encodings (`codec`), and the
//! key-generation and signing steps (`dkg`).
pub mod field;
pub mod curve;
pub mod poly;
pub mod bivar;
pub mod codec;
pub mod dkg;
