pub mod instance;
pub mod internallist;
pub mod internalfile;

pub use instance::{Instance, MaybeObject};
pub use internallist::InternalList;
pub use internalfile::InternalFile;
