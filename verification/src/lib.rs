//! Where the parts of a test bench are, relative to each other.
//!
//! [`software`] answers where Core runs: on this machine, on the Windows host of
//! this WSL2 guest, or on a machine that was named. [`hardware`] answers what is
//! physically wired to what: which board holds which role, which serial port is
//! dev-bench's link, where a signal goes, and whether a board is still the one that
//! was enrolled. [`ui`] and [`cli`] write the answers down for a human.
//!
//! Nothing here opens a probe, a port, a file or a connection. The caller does, and
//! hands over what came back as plain values.

pub mod cli;
pub mod hardware;
pub mod lists;
pub mod software;
pub mod text;
pub mod ui;
pub mod wsl2;
