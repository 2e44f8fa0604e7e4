use glazewm::error::{Error, IoErrorKind, ParseError};
use windows::Win32::Foundation::{E_ACCESSDENIED, E_INVALIDARG};

fn io_error(kind: IoErrorKind) -> Error {
    Error::Io { kind, message: "failed".to_string() }
}

fn windows_error(code: i32) -> Error {
    Error::Windows { code, message: "failed".to_string() }
}

#[test]
fn access_denied_io_error() {
    let denied = io_error(IoErrorKind::PermissionDenied);
    assert!(denied.is_access_denied());

    let other = io_error(IoErrorKind::NotFound);
    assert!(!other.is_access_denied());
}

#[test]
fn access_denied_other_error() {
    assert!(!Error::WindowNotFound.is_access_denied());
}

#[test]
fn access_denied_windows_error() {
    let denied = windows_error(E_ACCESSDENIED.0);
    assert!(denied.is_access_denied());

    let other = windows_error(E_INVALIDARG.0);
    assert!(!other.is_access_denied());
}

#[test]
fn access_denied_code_is_the_documented_one() {
    assert!(windows_error(0x80070005_u32 as i32).is_access_denied());
    assert!(!windows_error(0).is_access_denied());
}

#[test]
fn parse_errors_read_as_what_was_expected() {
    let text = || "x".to_string();

    assert_eq!(
        ParseError::Length(text()).message(),
        "Invalid length value 'x': must be of format '10px' or '10%'."
    );
    assert_eq!(ParseError::Keybinding(text()).message(), "Invalid keybinding: x");
    assert_eq!(
        ParseError::Opacity(text()).message(),
        "Invalid opacity value 'x': must be of format '75%' or '0.75'."
    );
    assert_eq!(
        ParseError::Color(text()).message(),
        "Invalid color 'x': must be of format '#RRGGBB' or '#RRGGBBAA'."
    );
    assert_eq!(ParseError::Delta(text()).message(), "Invalid delta value: x");
    assert_eq!(
        ParseError::Direction(text()).message(),
        "Invalid direction 'x': must be one of 'left', 'right', 'up', or 'down'."
    );
}

#[test]
fn platform_errors_read_as_what_failed() {
    let text = || "x".to_string();

    assert_eq!(io_error(IoErrorKind::Other).message(), "failed");
    assert_eq!(windows_error(1).message(), "failed");
    assert_eq!(
        Error::Parse(ParseError::Delta(text())).message(),
        "Invalid delta value: x"
    );
    assert_eq!(Error::InvalidPointer(text()).message(), "Invalid pointer: x");
    assert_eq!(Error::ChannelRecv(text()).message(), "x");
    assert_eq!(Error::OneshotRecv.message(), "Channel receive error");
    assert_eq!(Error::IntConversion(text()).message(), "x");
    assert_eq!(Error::ChannelSend.message(), "Channel send error");
    assert_eq!(Error::DisplayEnumerationFailed.message(), "Display enumeration failed");
    assert_eq!(Error::DisplayModeNotFound.message(), "Display mode not found");
    assert_eq!(Error::PrimaryDisplayNotFound.message(), "Primary display not found");
    assert_eq!(Error::NotMainThread.message(), "Not main thread");
    assert_eq!(Error::DisplayNotFound.message(), "Display not found");
    assert_eq!(Error::DisplayDeviceNotFound.message(), "Display device not found");
    assert_eq!(Error::HardwareEnumerationFailed.message(), "Hardware enumeration failed");
    assert_eq!(Error::WindowEnumerationFailed.message(), "Window enumeration failed");
    assert_eq!(Error::WindowNotFound.message(), "Window not found");
    assert_eq!(Error::Thread(text()).message(), "Thread error: x");
    assert_eq!(Error::WindowMessage(text()).message(), "Window message error: x");
    assert_eq!(Error::Platform(text()).message(), "Platform error: x");
    assert_eq!(Error::EventLoopStopped.message(), "Event loop has been stopped");
    assert_eq!(Error::InvalidKeybinding.message(), "Keybinding is empty");
}
