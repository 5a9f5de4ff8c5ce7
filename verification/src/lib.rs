//! Pixel-level image transformations on homomorphically encrypted images.
//!
//! A client encrypts every 8-bit sample of an image under its secret key; a
//! server that only holds the matching evaluation key rescales, inverts or
//! turns the image into grayscale without ever seeing a plaintext sample.
pub mod arguments;
pub mod client;
pub mod crypt;
pub mod image;
pub mod message;
pub mod server;
