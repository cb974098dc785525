pub mod cobs;
pub mod crcdigest;
pub mod frames;
pub mod handshake;
pub mod job;
pub mod report;
pub mod session;
pub mod system;
pub mod textenc;
