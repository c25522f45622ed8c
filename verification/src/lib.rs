//! Loading and checking of WebAssembly modules that are about to be linked
//! with one another.
//!
//! [`module::Module`] holds what linking needs to know of a module: its types,
//! imports, exports and sections, and the interface definition that describes
//! what it offers. [`module::Module::resolve_import`] decides whether an import
//! of one module is met by another, and [`module::Module::encode`] writes a
//! module out again.
//!
//! * [`wasm`] and [`witx`] hold the plain data: WebAssembly types, and the
//!   definition of an interface.
//! * [`binary`] and [`encoder`] stand between this crate and the crates that
//!   read and write the binary format.
//! * [`reader`] lists the sections of a binary, [`module`] makes a module of
//!   that list, [`room`] tells binaries apart whose announced lengths are no
//!   offsets, [`interface`] works out which functions need adapting.
//! * [`laws`] states what holds across these parts. [`loading_laws`],
//!   [`resolving_laws`], [`interface_laws`] and [`message_laws`] state what each
//!   of them comes to, in terms of what it is given.

pub mod binary;
pub mod encoder;
pub mod error;
pub mod interface;
pub mod interface_laws;
pub mod laws;
pub mod loading_laws;
pub mod message_laws;
pub mod module;
pub mod reader;
pub mod resolving_laws;
pub mod room;
pub mod text;
pub mod wasm;
pub mod witx;
