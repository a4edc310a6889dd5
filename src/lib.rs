//! Host side of a gateway that serves HTTP requests through handlers exported
//! by a WebAssembly guest, and the binary formats that cross the boundary
//! between host and guest.
pub mod fileparts;
pub mod headers;
pub mod hostcall;
pub mod multipart;
pub mod respond;
pub mod route;
pub mod wire;
