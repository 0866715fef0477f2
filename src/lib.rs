//! Configuration of a USB security key over its command/response channel:
//! a BER-style tag-length-value codec, command framing and status checks,
//! the configuration record that rides on them, and the command-line tool's
//! decisions.
pub mod conf;
pub mod control;
pub mod device;
pub mod tlv;
