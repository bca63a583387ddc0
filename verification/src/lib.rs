//! Parsing and rendering of syslog lines in the BSD format and in the
//! structured format. The grammars are stated over sequences of characters,
//! and every function that reads or writes a line is proved against them.

pub mod error;
pub mod header;
pub mod message;
pub mod pri;
pub mod rfc3164;
pub mod rfc5424;
pub mod structured_data;
pub mod text;
pub mod timestamp;

pub use crate::error::{HeaderField, HeaderParseFailed, ParseError};
pub use crate::header::Header;
pub use crate::message::{Message, Protocol};
pub use crate::pri::{SyslogFacility, SyslogSeverity};
pub use crate::structured_data::StructuredElement;
pub use crate::timestamp::Timestamp;
