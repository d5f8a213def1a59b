//! Interactive state of a kernel module browser: the parsed module table,
//! the selection cursor, the information pane and staged module commands.
pub mod cmd;
pub mod lkm;
pub mod style;
pub mod text;
