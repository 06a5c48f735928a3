//! Reading `.rdep` dependency descriptions of Rust types, and the choices the
//! zngur code generator front end makes from its settings.

pub mod builder;
pub mod grammar;
pub mod grammar_laws;
pub mod line_laws;
pub mod rdep;
pub mod replace;
pub mod report_laws;
pub mod rtype;
pub mod text;
pub mod type_sizes;
