//! Loading of the equivalence classes that a transcript quantification run
//! leaves behind, into a packed store with indexed access.

pub mod codec;
pub mod collection;
pub mod eq_class;
pub mod failure;
pub mod files;
pub mod meta;
pub mod number;
pub mod text;

pub use eq_class::{EqClass, EqClassList, EqClassRecord, EqClassView, IterEqClassList};
pub use collection::EqClassCollection;
pub use failure::ParseFailure;
pub use files::SalmonFiles;
pub use meta::MetaInfo;
