//! Errors of platform operations.
use vstd::prelude::*;
use vstd::string::StringExecFns;

verus! {

broadcast use vstd::string::group_string_axioms;

/// Kind of an I/O error.
#[derive(Clone, Copy, Debug, PartialEq, Eq, Structural)]
pub enum IoErrorKind {
    NotFound,
    PermissionDenied,
    Other,
}

/// Text that couldn't be parsed, by what it was expected to be.
#[derive(Debug, PartialEq, Eq)]
pub enum ParseError {
    Length(String),
    Keybinding(String),
    Opacity(String),
    Color(String),
    Delta(String),
    Direction(String),
}

/// Error of a platform operation. Errors of the OS and of libraries are kept as their code or
/// kind and their message.
#[derive(Debug, PartialEq, Eq)]
pub enum Error {
    Io { kind: IoErrorKind, message: String },
    Windows { code: i32, message: String },
    Parse(ParseError),
    InvalidPointer(String),
    ChannelRecv(String),
    OneshotRecv,
    IntConversion(String),
    ChannelSend,
    DisplayEnumerationFailed,
    DisplayModeNotFound,
    PrimaryDisplayNotFound,
    NotMainThread,
    DisplayNotFound,
    DisplayDeviceNotFound,
    HardwareEnumerationFailed,
    WindowEnumerationFailed,
    WindowNotFound,
    Thread(String),
    WindowMessage(String),
    Platform(String),
    EventLoopStopped,
    InvalidKeybinding,
}

/// Code with which Windows denies access: that of `windows::Win32::Foundation::E_ACCESSDENIED`,
/// which the `windows` crate defines as -2147024891 (0x80070005).
#[verifier::external_body]
fn access_denied_code() -> (code: i32)
    ensures
        code == -2147024891,
{
    windows::Win32::Foundation::E_ACCESSDENIED.0
}

/// A text between two others.
pub open spec fn framed(prefix: Seq<char>, text: Seq<char>, suffix: Seq<char>) -> Seq<char> {
    prefix + text + suffix
}

pub(crate) fn frame(prefix: &str, text: &str, suffix: &str) -> (result: String)
    ensures
        result@ == framed(prefix@, text@, suffix@),
{
    let mut result = prefix.to_owned();
    result.append(text);
    result.append(suffix);
    result
}

impl ParseError {
    /// What the error reads as.
    pub open spec fn reads(self) -> Seq<char> {
        match self {
            ParseError::Length(text) => framed(
                "Invalid length value '"@,
                text@,
                "': must be of format '10px' or '10%'."@,
            ),
            ParseError::Keybinding(text) => framed("Invalid keybinding: "@, text@, ""@),
            ParseError::Opacity(text) => framed(
                "Invalid opacity value '"@,
                text@,
                "': must be of format '75%' or '0.75'."@,
            ),
            ParseError::Color(text) => framed(
                "Invalid color '"@,
                text@,
                "': must be of format '#RRGGBB' or '#RRGGBBAA'."@,
            ),
            ParseError::Delta(text) => framed("Invalid delta value: "@, text@, ""@),
            ParseError::Direction(text) => framed(
                "Invalid direction '"@,
                text@,
                "': must be one of 'left', 'right', 'up', or 'down'."@,
            ),
        }
    }

    /// Message for the user.
    pub fn message(&self) -> (message: String)
        ensures
            message@ == self.reads(),
    {
        match self {
            ParseError::Length(text) => frame(
                "Invalid length value '",
                text.as_str(),
                "': must be of format '10px' or '10%'.",
            ),
            ParseError::Keybinding(text) => frame("Invalid keybinding: ", text.as_str(), ""),
            ParseError::Opacity(text) => frame(
                "Invalid opacity value '",
                text.as_str(),
                "': must be of format '75%' or '0.75'.",
            ),
            ParseError::Color(text) => frame(
                "Invalid color '",
                text.as_str(),
                "': must be of format '#RRGGBB' or '#RRGGBBAA'.",
            ),
            ParseError::Delta(text) => frame("Invalid delta value: ", text.as_str(), ""),
            ParseError::Direction(text) => frame(
                "Invalid direction '",
                text.as_str(),
                "': must be one of 'left', 'right', 'up', or 'down'.",
            ),
        }
    }
}

impl Error {
    /// Whether the error is the OS denying access.
    pub open spec fn denies_access(self) -> bool {
        match self {
            Error::Windows { code, .. } => code == -2147024891,
            Error::Io { kind, .. } => kind == IoErrorKind::PermissionDenied,
            _ => false,
        }
    }

    /// Whether the error is the OS denying access to the target of the operation.
    ///
    /// This is what a window of a process with higher privileges than the WM's (e.g. Task
    /// Manager while the WM isn't elevated) fails with when the WM tries to move it.
    #[must_use]
    pub fn is_access_denied(&self) -> (denied: bool)
        ensures
            denied == self.denies_access(),
    {
        match self {
            Error::Windows { code, .. } => *code == access_denied_code(),
            Error::Io { kind, .. } => *kind == IoErrorKind::PermissionDenied,
            _ => false,
        }
    }

    /// What the error reads as.
    pub open spec fn reads(self) -> Seq<char> {
        match self {
            Error::Io { message, .. } => message@,
            Error::Windows { message, .. } => message@,
            Error::Parse(error) => error.reads(),
            Error::InvalidPointer(text) => framed("Invalid pointer: "@, text@, ""@),
            Error::ChannelRecv(message) => message@,
            Error::OneshotRecv => "Channel receive error"@,
            Error::IntConversion(message) => message@,
            Error::ChannelSend => "Channel send error"@,
            Error::DisplayEnumerationFailed => "Display enumeration failed"@,
            Error::DisplayModeNotFound => "Display mode not found"@,
            Error::PrimaryDisplayNotFound => "Primary display not found"@,
            Error::NotMainThread => "Not main thread"@,
            Error::DisplayNotFound => "Display not found"@,
            Error::DisplayDeviceNotFound => "Display device not found"@,
            Error::HardwareEnumerationFailed => "Hardware enumeration failed"@,
            Error::WindowEnumerationFailed => "Window enumeration failed"@,
            Error::WindowNotFound => "Window not found"@,
            Error::Thread(text) => framed("Thread error: "@, text@, ""@),
            Error::WindowMessage(text) => framed("Window message error: "@, text@, ""@),
            Error::Platform(text) => framed("Platform error: "@, text@, ""@),
            Error::EventLoopStopped => "Event loop has been stopped"@,
            Error::InvalidKeybinding => "Keybinding is empty"@,
        }
    }

    /// Message for the user.
    pub fn message(&self) -> (text: String)
        ensures
            text@ == self.reads(),
    {
        match self {
            Error::Io { message, .. } => message.clone(),
            Error::Windows { message, .. } => message.clone(),
            Error::Parse(error) => error.message(),
            Error::InvalidPointer(text) => frame("Invalid pointer: ", text.as_str(), ""),
            Error::ChannelRecv(message) => message.clone(),
            Error::OneshotRecv => "Channel receive error".to_owned(),
            Error::IntConversion(message) => message.clone(),
            Error::ChannelSend => "Channel send error".to_owned(),
            Error::DisplayEnumerationFailed => "Display enumeration failed".to_owned(),
            Error::DisplayModeNotFound => "Display mode not found".to_owned(),
            Error::PrimaryDisplayNotFound => "Primary display not found".to_owned(),
            Error::NotMainThread => "Not main thread".to_owned(),
            Error::DisplayNotFound => "Display not found".to_owned(),
            Error::DisplayDeviceNotFound => "Display device not found".to_owned(),
            Error::HardwareEnumerationFailed => "Hardware enumeration failed".to_owned(),
            Error::WindowEnumerationFailed => "Window enumeration failed".to_owned(),
            Error::WindowNotFound => "Window not found".to_owned(),
            Error::Thread(text) => frame("Thread error: ", text.as_str(), ""),
            Error::WindowMessage(text) => frame("Window message error: ", text.as_str(), ""),
            Error::Platform(text) => frame("Platform error: ", text.as_str(), ""),
            Error::EventLoopStopped => "Event loop has been stopped".to_owned(),
            Error::InvalidKeybinding => "Keybinding is empty".to_owned(),
        }
    }
}

/// Access is denied by the code that the platform has for it, or by the kind of an I/O error, and
/// by nothing else.
pub proof fn law_access_is_denied_by_code_or_kind(error: Error)
    ensures
        error.denies_access() <==> (error is Windows && error->Windows_code == -2147024891
            || error is Io && error->Io_kind == IoErrorKind::PermissionDenied),
{
}

} // verus!
