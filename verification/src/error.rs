//! Error types, with the text each one reads as.

use vstd::prelude::*;
use crate::text::{append_chars, append_str, decimal, decimal_chars, string_of};

verus! {

/// `label` followed by `value`.
fn labeled(label: &str, value: &str) -> (r: String)
    ensures
        r@ == label@ + value@,
{
    let mut v: Vec<char> = Vec::new();
    append_str(&mut v, label);
    append_str(&mut v, value);
    string_of(&v)
}

/// The text of a message.
fn owned_text(s: &str) -> (r: String)
    ensures
        r@ == s@,
{
    proof {
        reveal_strlit("");
    }
    let r = labeled("", s);
    assert(r@ =~= s@);
    r
}

/// Connection-specific errors
#[derive(Debug)]
pub enum ConnectionError {
    ConnectFailed(String),
    ConnectionLost(String),
    AlreadyConnected,
    NotConnected,
    InvalidAddress(String),
    AuthenticationFailed(String),
    Rejected(String),
    DnsError(String),
}

impl ConnectionError {
    /// What the error reads as.
    pub open spec fn text(&self) -> Seq<char> {
        match self {
            ConnectionError::ConnectFailed(m) => "Failed to connect to server: "@ + m@,
            ConnectionError::ConnectionLost(m) => "Connection lost: "@ + m@,
            ConnectionError::AlreadyConnected => "Already connected"@,
            ConnectionError::NotConnected => "Not connected"@,
            ConnectionError::InvalidAddress(m) => "Invalid server address: "@ + m@,
            ConnectionError::AuthenticationFailed(m) => "Authentication failed: "@ + m@,
            ConnectionError::Rejected(m) => "Server rejected connection: "@ + m@,
            ConnectionError::DnsError(m) => "DNS resolution failed: "@ + m@,
        }
    }

    /// The error's message.
    pub fn to_string(&self) -> (r: String)
        ensures
            r@ == self.text(),
    {
        match self {
            ConnectionError::ConnectFailed(m) => labeled("Failed to connect to server: ", m.as_str()),
            ConnectionError::ConnectionLost(m) => labeled("Connection lost: ", m.as_str()),
            ConnectionError::AlreadyConnected => owned_text("Already connected"),
            ConnectionError::NotConnected => owned_text("Not connected"),
            ConnectionError::InvalidAddress(m) => labeled("Invalid server address: ", m.as_str()),
            ConnectionError::AuthenticationFailed(m) => labeled(
                "Authentication failed: ",
                m.as_str(),
            ),
            ConnectionError::Rejected(m) => labeled("Server rejected connection: ", m.as_str()),
            ConnectionError::DnsError(m) => labeled("DNS resolution failed: ", m.as_str()),
        }
    }
}

/// Identity-specific errors
#[derive(Debug)]
pub enum IdentityError {
    CreationFailed(String),
    InvalidFormat,
    ImproveFailed(String),
    SecurityLevelTooLow { required: u8, current: u8 },
    ExportFailed(String),
    ImportFailed(String),
}

impl IdentityError {
    /// What the error reads as.
    pub open spec fn text(&self) -> Seq<char> {
        match self {
            IdentityError::CreationFailed(m) => "Failed to create identity: "@ + m@,
            IdentityError::InvalidFormat => "Invalid identity format"@,
            IdentityError::ImproveFailed(m) => "Failed to improve identity: "@ + m@,
            IdentityError::SecurityLevelTooLow { required, current } => "Security level too low: required "@
                + decimal(*required as nat) + ", current "@ + decimal(*current as nat),
            IdentityError::ExportFailed(m) => "Failed to export identity: "@ + m@,
            IdentityError::ImportFailed(m) => "Failed to import identity: "@ + m@,
        }
    }

    /// The error's message.
    pub fn to_string(&self) -> (r: String)
        ensures
            r@ == self.text(),
    {
        match self {
            IdentityError::CreationFailed(m) => labeled("Failed to create identity: ", m.as_str()),
            IdentityError::InvalidFormat => owned_text("Invalid identity format"),
            IdentityError::ImproveFailed(m) => labeled("Failed to improve identity: ", m.as_str()),
            IdentityError::SecurityLevelTooLow { required, current } => {
                let mut v: Vec<char> = Vec::new();
                append_str(&mut v, "Security level too low: required ");
                let a = decimal_chars(*required as usize);
                append_chars(&mut v, &a);
                append_str(&mut v, ", current ");
                let b = decimal_chars(*current as usize);
                append_chars(&mut v, &b);
                string_of(&v)
            },
            IdentityError::ExportFailed(m) => labeled("Failed to export identity: ", m.as_str()),
            IdentityError::ImportFailed(m) => labeled("Failed to import identity: ", m.as_str()),
        }
    }
}

/// Main error type for the core library
#[derive(Debug)]
pub enum Error {
    /// Connection-related errors
    Connection(ConnectionError),
    /// Identity-related errors
    Identity(IdentityError),
    /// Protocol errors from the server
    Server { code: u32, message: String },
    /// Permission denied
    PermissionDenied { permission: String },
    /// Channel-related errors
    Channel(String),
    /// Configuration errors
    Config(String),
    /// Timeout errors
    Timeout,
    /// Internal errors
    Internal(String),
    /// IO errors, by the text of the underlying error
    Io(String),
}

impl Error {
    /// What the error reads as.
    pub open spec fn text(&self) -> Seq<char> {
        match self {
            Error::Connection(e) => "Connection error: "@ + e.text(),
            Error::Identity(e) => "Identity error: "@ + e.text(),
            Error::Server { code, message } => "Server error: "@ + decimal(*code as nat) + " - "@
                + message@,
            Error::PermissionDenied { permission } => "Permission denied: "@ + permission@,
            Error::Channel(m) => "Channel error: "@ + m@,
            Error::Config(m) => "Configuration error: "@ + m@,
            Error::Timeout => "Operation timed out"@,
            Error::Internal(m) => "Internal error: "@ + m@,
            Error::Io(m) => "IO error: "@ + m@,
        }
    }

    /// Create a server error from code and message
    pub fn server(code: u32, message: &str) -> (e: Error)
        ensures
            e matches Error::Server { code: c, message: m } && c == code && m@ == message@,
    {
        Error::Server { code, message: owned_text(message) }
    }

    /// Create a permission denied error
    pub fn permission_denied(permission: &str) -> (e: Error)
        ensures
            e matches Error::PermissionDenied { permission: p } && p@ == permission@,
    {
        Error::PermissionDenied { permission: owned_text(permission) }
    }

    /// Check if this is a recoverable error
    pub fn is_recoverable(&self) -> (r: bool)
        ensures
            r == (self is Timeout || (self matches Error::Connection(c) && c is ConnectionLost)),
    {
        match self {
            Error::Timeout => true,
            Error::Connection(ConnectionError::ConnectionLost(_)) => true,
            _ => false,
        }
    }

    /// The error's message.
    pub fn to_string(&self) -> (r: String)
        ensures
            r@ == self.text(),
    {
        match self {
            Error::Connection(e) => {
                let t = e.to_string();
                labeled("Connection error: ", t.as_str())
            },
            Error::Identity(e) => {
                let t = e.to_string();
                labeled("Identity error: ", t.as_str())
            },
            Error::Server { code, message } => {
                let mut v: Vec<char> = Vec::new();
                append_str(&mut v, "Server error: ");
                let d = decimal_chars(*code as usize);
                append_chars(&mut v, &d);
                append_str(&mut v, " - ");
                append_str(&mut v, message.as_str());
                string_of(&v)
            },
            Error::PermissionDenied { permission } => labeled(
                "Permission denied: ",
                permission.as_str(),
            ),
            Error::Channel(m) => labeled("Channel error: ", m.as_str()),
            Error::Config(m) => labeled("Configuration error: ", m.as_str()),
            Error::Timeout => owned_text("Operation timed out"),
            Error::Internal(m) => labeled("Internal error: ", m.as_str()),
            Error::Io(m) => labeled("IO error: ", m.as_str()),
        }
    }
}

/// Bot-related errors
#[derive(Debug)]
pub enum BotError {
    /// Core library error
    Core(Error),
    /// Command error
    Command(String),
    /// Plugin error
    Plugin(String),
    /// Configuration error
    Config(String),
    /// Permission denied
    PermissionDenied(String),
    /// Invalid argument
    InvalidArgument(String),
    /// Command not found
    CommandNotFound(String),
    /// Too many arguments
    TooManyArguments,
    /// Not enough arguments
    NotEnoughArguments { expected: usize, got: usize },
}

impl BotError {
    /// What the error reads as.
    pub open spec fn text(&self) -> Seq<char> {
        match self {
            BotError::Core(e) => "Core error: "@ + e.text(),
            BotError::Command(m) => "Command error: "@ + m@,
            BotError::Plugin(m) => "Plugin error: "@ + m@,
            BotError::Config(m) => "Configuration error: "@ + m@,
            BotError::PermissionDenied(m) => "Permission denied: "@ + m@,
            BotError::InvalidArgument(m) => "Invalid argument: "@ + m@,
            BotError::CommandNotFound(m) => "Command not found: "@ + m@,
            BotError::TooManyArguments => "Too many arguments"@,
            BotError::NotEnoughArguments { expected, got } => "Not enough arguments: expected "@
                + decimal(*expected as nat) + ", got "@ + decimal(*got as nat),
        }
    }

    /// The error's message.
    pub fn to_string(&self) -> (r: String)
        ensures
            r@ == self.text(),
    {
        match self {
            BotError::Core(e) => {
                let t = e.to_string();
                labeled("Core error: ", t.as_str())
            },
            BotError::Command(m) => labeled("Command error: ", m.as_str()),
            BotError::Plugin(m) => labeled("Plugin error: ", m.as_str()),
            BotError::Config(m) => labeled("Configuration error: ", m.as_str()),
            BotError::PermissionDenied(m) => labeled("Permission denied: ", m.as_str()),
            BotError::InvalidArgument(m) => labeled("Invalid argument: ", m.as_str()),
            BotError::CommandNotFound(m) => labeled("Command not found: ", m.as_str()),
            BotError::TooManyArguments => owned_text("Too many arguments"),
            BotError::NotEnoughArguments { expected, got } => {
                let mut v: Vec<char> = Vec::new();
                append_str(&mut v, "Not enough arguments: expected ");
                let a = decimal_chars(*expected);
                append_chars(&mut v, &a);
                append_str(&mut v, ", got ");
                let b = decimal_chars(*got);
                append_chars(&mut v, &b);
                string_of(&v)
            },
        }
    }
}

/// Audio-related errors
#[derive(Debug)]
pub enum AudioError {
    DeviceInit(String),
    CaptureOpen(String),
    PlaybackOpen(String),
    Codec(String),
    Encode(String),
    Decode(String),
    Resample(String),
    NoDevice,
    DeviceNotFound(String),
    BufferOverflow,
    BufferUnderflow,
    InvalidConfig(String),
    Internal(String),
}

impl AudioError {
    /// What the error reads as.
    pub open spec fn text(&self) -> Seq<char> {
        match self {
            AudioError::DeviceInit(m) => "Failed to initialize audio device: "@ + m@,
            AudioError::CaptureOpen(m) => "Failed to open capture device: "@ + m@,
            AudioError::PlaybackOpen(m) => "Failed to open playback device: "@ + m@,
            AudioError::Codec(m) => "Codec error: "@ + m@,
            AudioError::Encode(m) => "Encoding error: "@ + m@,
            AudioError::Decode(m) => "Decoding error: "@ + m@,
            AudioError::Resample(m) => "Resampling error: "@ + m@,
            AudioError::NoDevice => "No audio device available"@,
            AudioError::DeviceNotFound(m) => "Device not found: "@ + m@,
            AudioError::BufferOverflow => "Audio buffer overflow"@,
            AudioError::BufferUnderflow => "Audio buffer underflow"@,
            AudioError::InvalidConfig(m) => "Invalid configuration: "@ + m@,
            AudioError::Internal(m) => "Internal audio error: "@ + m@,
        }
    }

    /// The error's message.
    pub fn to_string(&self) -> (r: String)
        ensures
            r@ == self.text(),
    {
        match self {
            AudioError::DeviceInit(m) => labeled("Failed to initialize audio device: ", m.as_str()),
            AudioError::CaptureOpen(m) => labeled("Failed to open capture device: ", m.as_str()),
            AudioError::PlaybackOpen(m) => labeled("Failed to open playback device: ", m.as_str()),
            AudioError::Codec(m) => labeled("Codec error: ", m.as_str()),
            AudioError::Encode(m) => labeled("Encoding error: ", m.as_str()),
            AudioError::Decode(m) => labeled("Decoding error: ", m.as_str()),
            AudioError::Resample(m) => labeled("Resampling error: ", m.as_str()),
            AudioError::NoDevice => owned_text("No audio device available"),
            AudioError::DeviceNotFound(m) => labeled("Device not found: ", m.as_str()),
            AudioError::BufferOverflow => owned_text("Audio buffer overflow"),
            AudioError::BufferUnderflow => owned_text("Audio buffer underflow"),
            AudioError::InvalidConfig(m) => labeled("Invalid configuration: ", m.as_str()),
            AudioError::Internal(m) => labeled("Internal audio error: ", m.as_str()),
        }
    }
}

} // verus!
