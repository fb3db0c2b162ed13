//! The steps by which the laws about whole streams are proved.

pub(crate) mod alike;
pub(crate) mod footer;
pub(crate) mod head;
pub(crate) mod run;
pub(crate) mod twins;
pub(crate) mod written;
