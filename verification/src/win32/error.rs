//! The status codes of the native interface, the error codes of the Win32
//! interface, and how the one kind is turned into the other.

use vstd::prelude::*;
use super::types::{DWORD, NTSTATUS};

verus! {

pub const STATUS_SUCCESS: u32 = 0x00000000;

pub const STATUS_PENDING: u32 = 0x00000103;

pub const STATUS_REPARSE: u32 = 0x00000104;

pub const STATUS_MORE_ENTRIES: u32 = 0x00000105;

pub const STATUS_BUFFER_OVERFLOW: u32 = 0x80000005;

pub const STATUS_OBJECT_NAME_EXISTS: u32 = 0x40000000;

pub const STATUS_BUFFER_TOO_SMALL: u32 = 0x80000023;

pub const STATUS_ACCESS_DENIED: u32 = 0xC0000022;

pub const STATUS_INVALID_PARAMETER: u32 = 0xC000000D;

pub const STATUS_NO_MEMORY: u32 = 0xC0000017;

pub const STATUS_INSUFFICIENT_RESOURCES: u32 = 0xC000009A;

pub const STATUS_OBJECT_NAME_NOT_FOUND: u32 = 0xC0000034;

pub const STATUS_OBJECT_NAME_COLLISION: u32 = 0xC0000035;

pub const STATUS_OBJECT_PATH_NOT_FOUND: u32 = 0xC000003A;

pub const STATUS_OBJECT_PATH_SYNTAX_BAD: u32 = 0xC000003B;

pub const STATUS_INVALID_HANDLE: u32 = 0xC0000008;

pub const STATUS_OBJECT_TYPE_MISMATCH: u32 = 0xC0000024;

pub const STATUS_NOT_IMPLEMENTED: u32 = 0xC0000002;

pub const STATUS_NOT_SUPPORTED: u32 = 0xC00000BB;

pub const STATUS_ILLEGAL_FUNCTION: u32 = 0xC00000AF;

pub const STATUS_INFO_LENGTH_MISMATCH: u32 = 0xC0000004;

pub const STATUS_ACCESS_VIOLATION: u32 = 0xC0000005;

pub const STATUS_ILLEGAL_INSTRUCTION: u32 = 0xC000001D;

pub const STATUS_INTEGER_DIVIDE_BY_ZERO: u32 = 0xC0000094;

pub const STATUS_INTEGER_OVERFLOW: u32 = 0xC0000095;

pub const STATUS_END_OF_FILE: u32 = 0xC0000011;

pub const STATUS_NO_SUCH_FILE: u32 = 0xC000000F;

pub const STATUS_FILE_IS_A_DIRECTORY: u32 = 0xC00000BA;

pub const STATUS_NOT_A_DIRECTORY: u32 = 0xC0000103;

pub const STATUS_DIRECTORY_NOT_EMPTY: u32 = 0xC0000101;

pub const STATUS_SHARING_VIOLATION: u32 = 0xC0000043;

pub const STATUS_DELETE_PENDING: u32 = 0xC0000056;

pub const STATUS_OBJECT_NAME_INVALID: u32 = 0xC0000033;

pub const STATUS_PROCESS_IS_TERMINATING: u32 = 0xC000010A;

pub const STATUS_THREAD_IS_TERMINATING: u32 = 0xC000004B;

pub const STATUS_CONFLICTING_ADDRESSES: u32 = 0xC0000018;

pub const STATUS_UNABLE_TO_FREE_VM: u32 = 0xC000001A;

pub const STATUS_SECTION_NOT_IMAGE: u32 = 0xC0000049;

pub const STATUS_INVALID_IMAGE_FORMAT: u32 = 0xC000007B;

pub const STATUS_INVALID_IMAGE_NOT_MZ: u32 = 0xC000012F;

pub const STATUS_IMAGE_MACHINE_TYPE_MISMATCH: u32 = 0x4000000E;

pub const STATUS_KEY_DELETED: u32 = 0xC000017C;

pub const STATUS_NO_MORE_ENTRIES: u32 = 0x8000001A;

pub const ERROR_SUCCESS: DWORD = 0;

pub const ERROR_INVALID_FUNCTION: DWORD = 1;

pub const ERROR_FILE_NOT_FOUND: DWORD = 2;

pub const ERROR_PATH_NOT_FOUND: DWORD = 3;

pub const ERROR_TOO_MANY_OPEN_FILES: DWORD = 4;

pub const ERROR_ACCESS_DENIED: DWORD = 5;

pub const ERROR_INVALID_HANDLE: DWORD = 6;

pub const ERROR_NOT_ENOUGH_MEMORY: DWORD = 8;

pub const ERROR_OUTOFMEMORY: DWORD = 14;

pub const ERROR_INVALID_DRIVE: DWORD = 15;

pub const ERROR_NO_MORE_FILES: DWORD = 18;

pub const ERROR_WRITE_PROTECT: DWORD = 19;

pub const ERROR_NOT_READY: DWORD = 21;

pub const ERROR_SHARING_VIOLATION: DWORD = 32;

pub const ERROR_FILE_EXISTS: DWORD = 80;

pub const ERROR_INVALID_PARAMETER: DWORD = 87;

pub const ERROR_BROKEN_PIPE: DWORD = 109;

pub const ERROR_INSUFFICIENT_BUFFER: DWORD = 122;

pub const ERROR_INVALID_NAME: DWORD = 123;

pub const ERROR_MOD_NOT_FOUND: DWORD = 126;

pub const ERROR_PROC_NOT_FOUND: DWORD = 127;

pub const ERROR_DIR_NOT_EMPTY: DWORD = 145;

pub const ERROR_ALREADY_EXISTS: DWORD = 183;

pub const ERROR_ENVVAR_NOT_FOUND: DWORD = 203;

pub const ERROR_MORE_DATA: DWORD = 234;

pub const ERROR_NO_MORE_ITEMS: DWORD = 259;

pub const ERROR_DIRECTORY: DWORD = 267;

pub const ERROR_NOT_FOUND: DWORD = 1168;

pub const ERROR_IO_PENDING: DWORD = 997;

pub const ERROR_NOACCESS: DWORD = 998;

pub const ERROR_NOT_SUPPORTED: DWORD = 50;

/// The error code for a status that no table entry covers: the message for it
/// was not found.
pub const ERROR_MR_MID_NOT_FOUND: DWORD = 317;

/// The status for an error code that no table entry covers.
pub const STATUS_UNSUCCESSFUL: u32 = 0xC0000001;

/// The Win32 error code for a status.
pub open spec fn win32_error_of(status: NTSTATUS) -> DWORD {
    if status.0 == STATUS_SUCCESS {
        ERROR_SUCCESS
    } else if status.0 == STATUS_PENDING {
        ERROR_IO_PENDING
    } else if status.0 == STATUS_BUFFER_OVERFLOW {
        ERROR_MORE_DATA
    } else if status.0 == STATUS_OBJECT_NAME_NOT_FOUND {
        ERROR_FILE_NOT_FOUND
    } else if status.0 == STATUS_OBJECT_PATH_NOT_FOUND {
        ERROR_PATH_NOT_FOUND
    } else if status.0 == STATUS_NO_SUCH_FILE {
        ERROR_FILE_NOT_FOUND
    } else if status.0 == STATUS_ACCESS_DENIED {
        ERROR_ACCESS_DENIED
    } else if status.0 == STATUS_ACCESS_VIOLATION {
        ERROR_NOACCESS
    } else if status.0 == STATUS_INVALID_HANDLE {
        ERROR_INVALID_HANDLE
    } else if status.0 == STATUS_NO_MEMORY {
        ERROR_NOT_ENOUGH_MEMORY
    } else if status.0 == STATUS_INSUFFICIENT_RESOURCES {
        ERROR_OUTOFMEMORY
    } else if status.0 == STATUS_INVALID_PARAMETER {
        ERROR_INVALID_PARAMETER
    } else if status.0 == STATUS_OBJECT_NAME_COLLISION {
        ERROR_ALREADY_EXISTS
    } else if status.0 == STATUS_SHARING_VIOLATION {
        ERROR_SHARING_VIOLATION
    } else if status.0 == STATUS_DIRECTORY_NOT_EMPTY {
        ERROR_DIR_NOT_EMPTY
    } else if status.0 == STATUS_FILE_IS_A_DIRECTORY {
        ERROR_DIRECTORY
    } else if status.0 == STATUS_OBJECT_NAME_INVALID {
        ERROR_INVALID_NAME
    } else if status.0 == STATUS_END_OF_FILE {
        ERROR_NO_MORE_FILES
    } else if status.0 == STATUS_NOT_IMPLEMENTED {
        ERROR_INVALID_FUNCTION
    } else if status.0 == STATUS_NOT_SUPPORTED {
        ERROR_NOT_SUPPORTED
    } else if status.0 == STATUS_BUFFER_TOO_SMALL {
        ERROR_INSUFFICIENT_BUFFER
    } else if status.0 == STATUS_INFO_LENGTH_MISMATCH {
        ERROR_INSUFFICIENT_BUFFER
    } else if status.0 == STATUS_INVALID_IMAGE_FORMAT {
        ERROR_MOD_NOT_FOUND
    } else {
        ERROR_MR_MID_NOT_FOUND
    }
}

/// The Win32 error code for a status, `ERROR_MR_MID_NOT_FOUND` if it is not in
/// the table.
pub fn ntstatus_to_win32_error(status: NTSTATUS) -> (r: DWORD)
    ensures
        r == win32_error_of(status),
{
    match status.0 {
        STATUS_SUCCESS => ERROR_SUCCESS,
        STATUS_PENDING => ERROR_IO_PENDING,
        STATUS_BUFFER_OVERFLOW => ERROR_MORE_DATA,
        STATUS_OBJECT_NAME_NOT_FOUND => ERROR_FILE_NOT_FOUND,
        STATUS_OBJECT_PATH_NOT_FOUND => ERROR_PATH_NOT_FOUND,
        STATUS_NO_SUCH_FILE => ERROR_FILE_NOT_FOUND,
        STATUS_ACCESS_DENIED => ERROR_ACCESS_DENIED,
        STATUS_ACCESS_VIOLATION => ERROR_NOACCESS,
        STATUS_INVALID_HANDLE => ERROR_INVALID_HANDLE,
        STATUS_NO_MEMORY => ERROR_NOT_ENOUGH_MEMORY,
        STATUS_INSUFFICIENT_RESOURCES => ERROR_OUTOFMEMORY,
        STATUS_INVALID_PARAMETER => ERROR_INVALID_PARAMETER,
        STATUS_OBJECT_NAME_COLLISION => ERROR_ALREADY_EXISTS,
        STATUS_SHARING_VIOLATION => ERROR_SHARING_VIOLATION,
        STATUS_DIRECTORY_NOT_EMPTY => ERROR_DIR_NOT_EMPTY,
        STATUS_FILE_IS_A_DIRECTORY => ERROR_DIRECTORY,
        STATUS_OBJECT_NAME_INVALID => ERROR_INVALID_NAME,
        STATUS_END_OF_FILE => ERROR_NO_MORE_FILES,
        STATUS_NOT_IMPLEMENTED => ERROR_INVALID_FUNCTION,
        STATUS_NOT_SUPPORTED => ERROR_NOT_SUPPORTED,
        STATUS_BUFFER_TOO_SMALL => ERROR_INSUFFICIENT_BUFFER,
        STATUS_INFO_LENGTH_MISMATCH => ERROR_INSUFFICIENT_BUFFER,
        STATUS_INVALID_IMAGE_FORMAT => ERROR_MOD_NOT_FOUND,
        _ => ERROR_MR_MID_NOT_FOUND,
    }
}

/// The status for a Win32 error code.
pub open spec fn status_of(error: DWORD) -> NTSTATUS {
    if error == ERROR_SUCCESS {
        NTSTATUS(STATUS_SUCCESS)
    } else if error == ERROR_FILE_NOT_FOUND {
        NTSTATUS(STATUS_OBJECT_NAME_NOT_FOUND)
    } else if error == ERROR_PATH_NOT_FOUND {
        NTSTATUS(STATUS_OBJECT_PATH_NOT_FOUND)
    } else if error == ERROR_ACCESS_DENIED {
        NTSTATUS(STATUS_ACCESS_DENIED)
    } else if error == ERROR_INVALID_HANDLE {
        NTSTATUS(STATUS_INVALID_HANDLE)
    } else if error == ERROR_NOT_ENOUGH_MEMORY {
        NTSTATUS(STATUS_NO_MEMORY)
    } else if error == ERROR_INVALID_PARAMETER {
        NTSTATUS(STATUS_INVALID_PARAMETER)
    } else if error == ERROR_ALREADY_EXISTS {
        NTSTATUS(STATUS_OBJECT_NAME_COLLISION)
    } else if error == ERROR_SHARING_VIOLATION {
        NTSTATUS(STATUS_SHARING_VIOLATION)
    } else if error == ERROR_INSUFFICIENT_BUFFER {
        NTSTATUS(STATUS_BUFFER_TOO_SMALL)
    } else if error == ERROR_NOT_SUPPORTED {
        NTSTATUS(STATUS_NOT_SUPPORTED)
    } else {
        NTSTATUS(STATUS_UNSUCCESSFUL)
    }
}

/// The status for a Win32 error code, `STATUS_UNSUCCESSFUL` if it is not in the
/// table.
pub fn win32_error_to_ntstatus(error: DWORD) -> (r: NTSTATUS)
    ensures
        r == status_of(error),
{
    match error {
        ERROR_SUCCESS => NTSTATUS(STATUS_SUCCESS),
        ERROR_FILE_NOT_FOUND => NTSTATUS(STATUS_OBJECT_NAME_NOT_FOUND),
        ERROR_PATH_NOT_FOUND => NTSTATUS(STATUS_OBJECT_PATH_NOT_FOUND),
        ERROR_ACCESS_DENIED => NTSTATUS(STATUS_ACCESS_DENIED),
        ERROR_INVALID_HANDLE => NTSTATUS(STATUS_INVALID_HANDLE),
        ERROR_NOT_ENOUGH_MEMORY => NTSTATUS(STATUS_NO_MEMORY),
        ERROR_INVALID_PARAMETER => NTSTATUS(STATUS_INVALID_PARAMETER),
        ERROR_ALREADY_EXISTS => NTSTATUS(STATUS_OBJECT_NAME_COLLISION),
        ERROR_SHARING_VIOLATION => NTSTATUS(STATUS_SHARING_VIOLATION),
        ERROR_INSUFFICIENT_BUFFER => NTSTATUS(STATUS_BUFFER_TOO_SMALL),
        ERROR_NOT_SUPPORTED => NTSTATUS(STATUS_NOT_SUPPORTED),
        _ => NTSTATUS(STATUS_UNSUCCESSFUL),
    }
}

/// An error code of the table survives the way to a status and back.
pub proof fn law_error_survives_the_way_back(error: DWORD)
    requires
        status_of(error).0 != STATUS_UNSUCCESSFUL,
    ensures
        win32_error_of(status_of(error)) == error,
{
}

/// The name of a status.
pub open spec fn status_label(status: NTSTATUS) -> &'static str {
    if status.0 == STATUS_SUCCESS {
        "STATUS_SUCCESS"
    } else if status.0 == STATUS_PENDING {
        "STATUS_PENDING"
    } else if status.0 == STATUS_ACCESS_DENIED {
        "STATUS_ACCESS_DENIED"
    } else if status.0 == STATUS_INVALID_PARAMETER {
        "STATUS_INVALID_PARAMETER"
    } else if status.0 == STATUS_NO_MEMORY {
        "STATUS_NO_MEMORY"
    } else if status.0 == STATUS_OBJECT_NAME_NOT_FOUND {
        "STATUS_OBJECT_NAME_NOT_FOUND"
    } else if status.0 == STATUS_OBJECT_PATH_NOT_FOUND {
        "STATUS_OBJECT_PATH_NOT_FOUND"
    } else if status.0 == STATUS_INVALID_HANDLE {
        "STATUS_INVALID_HANDLE"
    } else if status.0 == STATUS_NOT_IMPLEMENTED {
        "STATUS_NOT_IMPLEMENTED"
    } else if status.0 == STATUS_ACCESS_VIOLATION {
        "STATUS_ACCESS_VIOLATION"
    } else if status.0 == STATUS_INVALID_IMAGE_FORMAT {
        "STATUS_INVALID_IMAGE_FORMAT"
    } else if status.0 == STATUS_SHARING_VIOLATION {
        "STATUS_SHARING_VIOLATION"
    } else if status.0 == STATUS_END_OF_FILE {
        "STATUS_END_OF_FILE"
    } else if status.0 == STATUS_BUFFER_OVERFLOW {
        "STATUS_BUFFER_OVERFLOW"
    } else if status.0 == STATUS_BUFFER_TOO_SMALL {
        "STATUS_BUFFER_TOO_SMALL"
    } else {
        "STATUS_UNKNOWN"
    }
}

/// The name of a status, for debugging.
pub fn ntstatus_name(status: NTSTATUS) -> (r: &'static str)
    ensures
        r@ == status_label(status)@,
{
    match status.0 {
        STATUS_SUCCESS => "STATUS_SUCCESS",
        STATUS_PENDING => "STATUS_PENDING",
        STATUS_ACCESS_DENIED => "STATUS_ACCESS_DENIED",
        STATUS_INVALID_PARAMETER => "STATUS_INVALID_PARAMETER",
        STATUS_NO_MEMORY => "STATUS_NO_MEMORY",
        STATUS_OBJECT_NAME_NOT_FOUND => "STATUS_OBJECT_NAME_NOT_FOUND",
        STATUS_OBJECT_PATH_NOT_FOUND => "STATUS_OBJECT_PATH_NOT_FOUND",
        STATUS_INVALID_HANDLE => "STATUS_INVALID_HANDLE",
        STATUS_NOT_IMPLEMENTED => "STATUS_NOT_IMPLEMENTED",
        STATUS_ACCESS_VIOLATION => "STATUS_ACCESS_VIOLATION",
        STATUS_INVALID_IMAGE_FORMAT => "STATUS_INVALID_IMAGE_FORMAT",
        STATUS_SHARING_VIOLATION => "STATUS_SHARING_VIOLATION",
        STATUS_END_OF_FILE => "STATUS_END_OF_FILE",
        STATUS_BUFFER_OVERFLOW => "STATUS_BUFFER_OVERFLOW",
        STATUS_BUFFER_TOO_SMALL => "STATUS_BUFFER_TOO_SMALL",
        _ => "STATUS_UNKNOWN",
    }
}

} // verus!
