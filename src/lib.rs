//! Framed, self-validating data buffers for two-wire sensor buses, where every
//! two payload bytes are followed by a CRC-8 checksum byte.
pub mod crc8;
pub mod i2c;
pub mod i2c_buffer;
