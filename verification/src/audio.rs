//! Sound on its way in and out.

pub mod decoder;
pub mod output;
pub mod ring;
