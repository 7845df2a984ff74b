//! Recovery of sections, symbols and function boundaries from PowerPC
//! executables in the Preferred Executable Format, driven by the traceback
//! tables that compilers append to each function.

pub mod bytes;
pub mod tbtab;
pub mod obj;
pub mod detect;
pub mod pef;
pub mod yaz0;
