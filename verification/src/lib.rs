//! Verified core of a VBAN audio emitter: the VBAN packet format, the
//! bounded drop-oldest byte ring, the packetising stream state machine and
//! the tray icon bitmap.
pub mod vban;
pub mod ring;
pub mod stream;
pub mod icon;
