//! A minimal HTTP/1.x server building block: a request parser, a response
//! model with its wire format, and what a connection is answered with, each
//! verified against its contract. Beside it, the reading of the formulas of
//! a small calculator that a server may offer.

pub mod calc;
pub mod http;
pub mod text;
