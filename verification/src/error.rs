use vstd::prelude::*;

verus! {

/// `std::io::Error` is carried through the library unchanged.
#[verifier::external_type_specification]
#[verifier::external_body]
pub struct ExIoError(std::io::Error);

/// `windows_core::Error` (also reached as `windows::core::Error`) is read
/// only through the wrappers below.
#[verifier::external_type_specification]
#[verifier::external_body]
pub struct ExWindowsError(windows_core::Error);

/// Every failure the library reports.
#[derive(Debug)]
pub enum UsbError {
    /// An operating-system I/O error.
    Io(std::io::Error),
    /// A descriptor was too short or carried the wrong type byte.
    InvalidDescriptor,
    /// The device is gone or was never there.
    DeviceNotFound,
    /// Access to the device was refused.
    PermissionDenied,
    /// The transfer did not complete in time.
    Timeout,
    /// The endpoint answered with a STALL.
    Stall,
    /// The handle no longer refers to an open device.
    InvalidHandle,
    /// The operation is not available on this platform.
    Unsupported,
    /// Any other failure, with a message.
    Other(String),
}

/// The library error for a Win32 error code carried in a Windows error
/// value: access denied, an invalid handle, a missing or disconnected
/// device, a semaphore time-out and a bad command (an endpoint stall) have
/// variants of their own; any other code keeps the error's text.
pub open spec fn win32_error_matches(code: u32, message: Seq<char>, e: UsbError) -> bool {
    if code == 0x0000_0005 {
        e is PermissionDenied
    } else if code == 0x0000_0006 {
        e is InvalidHandle
    } else if code == 0x0000_0002 || code == 0x0000_01B1 || code == 0x0000_048F {
        e is DeviceNotFound
    } else if code == 0x0000_0079 {
        e is Timeout
    } else if code == 0x0000_0016 {
        e is Stall
    } else {
        e matches UsbError::Other(s) && s@ == message
    }
}

impl UsbError {
    /// Map the code of a Windows error (its HRESULT read as `u32`) and the
    /// error's text to a library error.
    pub fn from_win32_code(code: u32, message: String) -> (r: UsbError)
        ensures
            win32_error_matches(code, message@, r),
            crate::offsets::win32_classified(code, message@, r),
    {
        proof {
            assert forall|e: UsbError| win32_error_matches(code, message@, e) implies crate::offsets::win32_classified(code, message@, e) by {
                crate::offsets::lemma_win32_classification(code, message@, e);
            }
        }
        if code == 0x0000_0005 {
            // ERROR_ACCESS_DENIED
            UsbError::PermissionDenied
        } else if code == 0x0000_0006 {
            // ERROR_INVALID_HANDLE
            UsbError::InvalidHandle
        } else if code == 0x0000_0002 {
            // ERROR_FILE_NOT_FOUND
            UsbError::DeviceNotFound
        } else if code == 0x0000_01B1 || code == 0x0000_048F {
            // ERROR_NO_SUCH_DEVICE / ERROR_DEVICE_NOT_CONNECTED
            UsbError::DeviceNotFound
        } else if code == 0x0000_0079 {
            // ERROR_SEM_TIMEOUT
            UsbError::Timeout
        } else if code == 0x0000_0016 {
            // ERROR_BAD_COMMAND (endpoint stall)
            UsbError::Stall
        } else {
            UsbError::Other(message)
        }
    }
}

/// The HRESULT that a Windows error value carries, read as a `u32`.
pub uninterp spec fn windows_code_of(e: windows_core::Error) -> u32;

/// The code of a Windows error: `windows_core::Error::code`, its HRESULT
/// read as a `u32`.
#[verifier::external_body]
fn windows_error_code(e: &windows_core::Error) -> (r: u32)
    ensures
        r == windows_code_of(*e),
{
    e.code().0 as u32
}

/// The text of a Windows error: `windows_core::Error`'s `Display`. The text
/// comes from the system's message tables and so depends on the machine
/// and its locale; nothing is stated of it.
#[verifier::external_body]
fn windows_error_text(e: &windows_core::Error) -> String {
    e.to_string()
}

impl From<windows_core::Error> for UsbError {
    fn from(e: windows_core::Error) -> (r: Self)
        ensures
            exists|m: Seq<char>| win32_error_matches(windows_code_of(e), m, r),
    {
        let code = windows_error_code(&e);
        let message = windows_error_text(&e);
        UsbError::from_win32_code(code, message)
    }
}

impl vstd::std_specs::convert::FromSpecImpl<windows_core::Error> for UsbError {
    /// The result rests on the error's text, which depends on the machine,
    /// so no single value is specified; `from`'s own `ensures` states the
    /// mapping of the code.
    open spec fn obeys_from_spec() -> bool {
        false
    }

    open spec fn from_spec(e: windows_core::Error) -> Self {
        vstd::pervasive::arbitrary()
    }
}

} // verus!
