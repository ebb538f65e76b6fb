//! Verified core of a screen mirror between a desktop host and a Kobo e-reader:
//! the wire format of the messages both sides exchange, the decisions each side
//! takes on network events, the pixel conversion of captured frames, the
//! monitor selection by resolution text, and the parsing of the device's
//! framebuffer report.

pub mod args;
pub mod device;
pub mod image;
pub mod le;
pub mod monitor;
pub mod protocol;
pub mod session;
pub mod text;
