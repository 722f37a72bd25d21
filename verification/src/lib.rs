//! Driver-level command and response engine for the EZO EC conductivity sensor.
//!
//! The sensor sits on an I2C bus and speaks a protocol of short ASCII texts. This library
//! turns a command into the bytes that go on the bus, says when to write, when to wait and
//! when to read, and turns the bytes that come back into a value or into the reason why
//! there is none. It touches neither the bus nor the clock: the caller does what an
//! [`exchange::Exchange`] asks for and reports how it went.
//!
//! * [`command`]: the commands, each with its text, its delay and the kind of its reply.
//! * [`exchange`]: one command from start to finish, with one retry for a failed write and
//!   one for a failed read.
//! * [`response`] and [`device`]: the replies and the grammar of each.
//! * [`number`] and [`fixed`]: numbers as the device writes them, and quantities with a
//!   fixed number of decimals as the commands carry them.
//! * [`text`]: fields, prefixes and upper case.
//! * [`errors`]: the kinds of failure.
//!
//! The contracts speak of the texts and byte sequences involved, and each grammar comes
//! with the law that what is written reads back as what was meant.

pub mod command;
pub mod device;
pub mod errors;
pub mod exchange;
pub mod fixed;
pub mod number;
pub mod response;
pub mod text;
