//! Serving core of an anomaly-detection autoencoder service.
//!
//! A request carries a batch of feature vectors. Each feature is min-max scaled
//! against a fitted table, the scaled batch is handed to one of several model
//! sessions chosen round-robin, and every row is scored by how far the model's
//! reconstruction is from it.
//!
//! The library is generic over the number type of the tensors and over the
//! model runtime. It is handed the basic operations on numbers as an
//! [`arithmetic::Arithmetic`] and the model as a closure, and does everything
//! else itself: shapes and layout, the scaling and scoring formulas, session
//! selection, and the response policy. Every contract says which operation was
//! applied to which operands to produce which cell of the result.

pub mod app;
pub mod arithmetic;
pub mod error;
pub mod health;
pub mod matrix;
pub mod pool;
pub mod predict;
pub mod scaler;
