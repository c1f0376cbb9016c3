//! The basic types of the Windows interface: integers with their Windows
//! names, handles, status codes, counted strings and access rights.
//!
//! A pointer into another address space is kept as its 64-bit address; 0 is
//! the null pointer.

#![allow(non_camel_case_types)]

use vstd::prelude::*;

verus! {

pub type BYTE = u8;

pub type WORD = u16;

pub type DWORD = u32;

pub type QWORD = u64;

pub type LONG = i32;

pub type LONGLONG = i64;

pub type ULONG = u32;

pub type ULONGLONG = u64;

pub type SHORT = i16;

pub type USHORT = u16;

pub type CHAR = i8;

pub type UCHAR = u8;

/// A code unit of UTF-16.
pub type WCHAR = u16;

pub type ULONG_PTR = usize;

pub type LONG_PTR = isize;

pub type SIZE_T = usize;

pub type SSIZE_T = isize;

pub type DWORD_PTR = usize;

/// The first parameter of a window message.
pub type WPARAM = usize;

/// The second parameter of a window message.
pub type LPARAM = isize;

/// The result of a window procedure.
pub type LRESULT = isize;

/// A truth value: 0 is false, anything else is true.
pub type BOOL = i32;

pub const TRUE: BOOL = 1;

pub const FALSE: BOOL = 0;

/// A handle: a number by which a process names a kernel object.
#[derive(Debug, Clone, Copy, PartialEq, Eq, Structural)]
pub struct HANDLE(pub usize);

impl HANDLE {
    /// The number that names no object.
    pub const NULL: usize = 0;

    /// The number that calls which make a handle return on failure.
    pub const INVALID: usize = usize::MAX;

    /// Whether it names no object.
    pub fn is_null(self) -> (r: bool)
        ensures
            r == (self.0 == 0),
    {
        self.0 == 0
    }

    /// Whether it is the failure value.
    pub fn is_invalid(self) -> (r: bool)
        ensures
            r == (self.0 == usize::MAX),
    {
        self.0 == usize::MAX
    }

    /// Whether it may name an object.
    pub fn is_valid(self) -> (r: bool)
        ensures
            r == (self.0 != 0 && self.0 != usize::MAX),
    {
        !self.is_null() && !self.is_invalid()
    }

    /// The number itself.
    pub fn as_usize(self) -> (r: usize)
        ensures
            r == self.0,
    {
        self.0
    }
}

/// The number that calls which make a handle return on failure.
pub const INVALID_HANDLE_VALUE: usize = usize::MAX;

/// A status code: a severity in bits 30 and 31, a facility in bits 16 to 28, a
/// code in bits 0 to 15.
#[derive(Debug, Clone, Copy, PartialEq, Eq, Structural)]
pub struct NTSTATUS(pub u32);

impl NTSTATUS {
    /// Bits 30 and 31: 0 is success, 1 information, 2 a warning, 3 an error.
    pub open spec fn severity(self) -> int {
        self.0 as int / 0x4000_0000
    }

    /// Whether the severity is success.
    pub fn is_success(self) -> (r: bool)
        ensures
            r == (self.severity() == 0),
    {
        self.0 < 0x4000_0000
    }

    /// Whether the severity is an error.
    pub fn is_error(self) -> (r: bool)
        ensures
            r == (self.severity() == 3),
    {
        self.0 >= 0xC000_0000
    }

    /// Whether the severity is a warning.
    pub fn is_warning(self) -> (r: bool)
        ensures
            r == (self.severity() == 2),
    {
        self.0 >= 0x8000_0000 && self.0 < 0xC000_0000
    }

    /// Whether the severity is information.
    pub fn is_info(self) -> (r: bool)
        ensures
            r == (self.severity() == 1),
    {
        self.0 >= 0x4000_0000 && self.0 < 0x8000_0000
    }

    /// Bits 16 to 28.
    pub fn facility(self) -> (r: u16)
        ensures
            r == self.0 as int / 0x1_0000 % 0x2000,
    {
        (self.0 / 0x1_0000 % 0x2000) as u16
    }

    /// Bits 0 to 15.
    pub fn code(self) -> (r: u16)
        ensures
            r == self.0 as int % 0x1_0000,
    {
        (self.0 % 0x1_0000) as u16
    }

    /// All 32 bits.
    pub fn raw(self) -> (r: u32)
        ensures
            r == self.0,
    {
        self.0
    }

    /// The severity in words.
    pub fn severity_name(self) -> (r: &'static str)
        ensures
            self.severity() == 0 ==> r@ == "SUCCESS"@,
            self.severity() == 1 ==> r@ == "INFO"@,
            self.severity() == 2 ==> r@ == "WARNING"@,
            self.severity() == 3 ==> r@ == "ERROR"@,
    {
        if self.is_success() {
            "SUCCESS"
        } else if self.is_info() {
            "INFO"
        } else if self.is_warning() {
            "WARNING"
        } else {
            "ERROR"
        }
    }
}

/// Every status code has exactly one severity.
pub proof fn law_a_status_has_one_severity(s: NTSTATUS)
    ensures
        0 <= s.severity() <= 3,
{
}

/// A counted string of UTF-16: the lengths are in bytes.
#[derive(Debug, Clone, Copy, PartialEq, Eq, Structural)]
pub struct UNICODE_STRING {
    pub length: USHORT,
    pub maximum_length: USHORT,
    /// The address of the first code unit.
    pub buffer: u64,
}

impl UNICODE_STRING {
    /// The empty string.
    pub fn empty() -> (r: UNICODE_STRING)
        ensures
            r == (UNICODE_STRING { length: 0, maximum_length: 0, buffer: 0 }),
    {
        UNICODE_STRING { length: 0, maximum_length: 0, buffer: 0 }
    }

    /// How many code units it has.
    pub fn char_count(&self) -> (r: usize)
        ensures
            r == self.length as int / 2,
    {
        self.length as usize / 2
    }

    /// Whether it holds nothing.
    pub fn is_empty(&self) -> (r: bool)
        ensures
            r == (self.length == 0 || self.buffer == 0),
    {
        self.length == 0 || self.buffer == 0
    }
}

/// A counted string of bytes.
#[derive(Debug, Clone, Copy, PartialEq, Eq, Structural)]
pub struct ANSI_STRING {
    pub length: USHORT,
    pub maximum_length: USHORT,
    /// The address of the first byte.
    pub buffer: u64,
}

/// What names an object in calls of the native interface.
#[derive(Debug, Clone, Copy, PartialEq, Eq, Structural)]
pub struct OBJECT_ATTRIBUTES {
    /// Bytes of this structure.
    pub length: ULONG,
    /// The directory that the name is relative to.
    pub root_directory: HANDLE,
    /// The address of the name, a `UNICODE_STRING`.
    pub object_name: u64,
    /// The `OBJ_` flags.
    pub attributes: ULONG,
    pub security_descriptor: u64,
    pub security_qos: u64,
}

impl OBJECT_ATTRIBUTES {
    /// No name, no flags.
    pub fn empty() -> (r: OBJECT_ATTRIBUTES)
        ensures
            r == (OBJECT_ATTRIBUTES {
                length: 48,
                root_directory: HANDLE(0),
                object_name: 0,
                attributes: 0,
                security_descriptor: 0,
                security_qos: 0,
            }),
    {
        OBJECT_ATTRIBUTES {
            length: 48,
            root_directory: HANDLE(0),
            object_name: 0,
            attributes: 0,
            security_descriptor: 0,
            security_qos: 0,
        }
    }
}

pub const OBJ_INHERIT: ULONG = 0x00000002;

pub const OBJ_PERMANENT: ULONG = 0x00000010;

pub const OBJ_EXCLUSIVE: ULONG = 0x00000020;

pub const OBJ_CASE_INSENSITIVE: ULONG = 0x00000040;

pub const OBJ_OPENIF: ULONG = 0x00000080;

pub const OBJ_OPENLINK: ULONG = 0x00000100;

pub const OBJ_KERNEL_HANDLE: ULONG = 0x00000200;

/// The outcome of an I/O call.
#[derive(Debug, Clone, Copy, PartialEq, Eq, Structural)]
pub struct IO_STATUS_BLOCK {
    pub status: NTSTATUS,
    /// Depends on the call: often the number of bytes moved.
    pub information: ULONG_PTR,
}

impl IO_STATUS_BLOCK {
    /// Success, with nothing moved.
    pub fn empty() -> (r: IO_STATUS_BLOCK)
        ensures
            r == (IO_STATUS_BLOCK { status: NTSTATUS(0), information: 0 }),
    {
        IO_STATUS_BLOCK { status: NTSTATUS(0), information: 0 }
    }
}

pub type LARGE_INTEGER = i64;

pub type ULARGE_INTEGER = u64;

/// A globally unique identifier.
#[derive(Debug, Clone, Copy, PartialEq, Eq)]
pub struct GUID {
    pub data1: DWORD,
    pub data2: WORD,
    pub data3: WORD,
    pub data4: [BYTE; 8],
}

impl GUID {
    /// All bits zero.
    pub fn empty() -> (r: GUID)
        ensures
            r.data1 == 0,
            r.data2 == 0,
            r.data3 == 0,
            r.data4@ == seq![0u8, 0, 0, 0, 0, 0, 0, 0],
    {
        let r = GUID { data1: 0, data2: 0, data3: 0, data4: [0, 0, 0, 0, 0, 0, 0, 0] };
        assert(r.data4@ =~= seq![0u8, 0, 0, 0, 0, 0, 0, 0]);
        r
    }
}

/// A point in time, in units of 100 ns.
#[derive(Debug, Clone, Copy, PartialEq, Eq, Structural)]
pub struct FILETIME {
    pub low_date_time: DWORD,
    pub high_date_time: DWORD,
}

impl FILETIME {
    /// Both halves as one number.
    pub fn as_u64(&self) -> (r: u64)
        ensures
            r == self.high_date_time * 0x1_0000_0000 + self.low_date_time,
    {
        self.high_date_time as u64 * 0x1_0000_0000 + self.low_date_time as u64
    }
}

/// A link of a doubly linked ring, by the addresses of its neighbours.
#[derive(Debug, Clone, Copy, PartialEq, Eq, Structural)]
pub struct LIST_ENTRY {
    pub flink: u64,
    pub blink: u64,
}

impl LIST_ENTRY {
    /// Makes the head at address `addr` a ring of its own.
    pub fn init_head(head: &mut LIST_ENTRY, addr: u64)
        ensures
            *final(head) == (LIST_ENTRY { flink: addr, blink: addr }),
    {
        head.flink = addr;
        head.blink = addr;
    }

    /// Whether the ring of the head at address `addr` has no other link.
    pub fn is_empty(head: &LIST_ENTRY, addr: u64) -> (r: bool)
        ensures
            r == (head.flink == addr),
    {
        head.flink == addr
    }
}

/// The rights that a handle carries.
pub type ACCESS_MASK = DWORD;

pub const DELETE: ACCESS_MASK = 0x00010000;

pub const READ_CONTROL: ACCESS_MASK = 0x00020000;

pub const WRITE_DAC: ACCESS_MASK = 0x00040000;

pub const WRITE_OWNER: ACCESS_MASK = 0x00080000;

pub const SYNCHRONIZE: ACCESS_MASK = 0x00100000;

pub const GENERIC_READ: ACCESS_MASK = 0x80000000;

pub const GENERIC_WRITE: ACCESS_MASK = 0x40000000;

pub const GENERIC_EXECUTE: ACCESS_MASK = 0x20000000;

pub const GENERIC_ALL: ACCESS_MASK = 0x10000000;

pub const FILE_READ_DATA: ACCESS_MASK = 0x00000001;

pub const FILE_WRITE_DATA: ACCESS_MASK = 0x00000002;

pub const FILE_APPEND_DATA: ACCESS_MASK = 0x00000004;

pub const FILE_READ_EA: ACCESS_MASK = 0x00000008;

pub const FILE_WRITE_EA: ACCESS_MASK = 0x00000010;

pub const FILE_EXECUTE: ACCESS_MASK = 0x00000020;

pub const FILE_READ_ATTRIBUTES: ACCESS_MASK = 0x00000080;

pub const FILE_WRITE_ATTRIBUTES: ACCESS_MASK = 0x00000100;

pub const PROCESS_TERMINATE: ACCESS_MASK = 0x00000001;

pub const PROCESS_CREATE_THREAD: ACCESS_MASK = 0x00000002;

pub const PROCESS_VM_OPERATION: ACCESS_MASK = 0x00000008;

pub const PROCESS_VM_READ: ACCESS_MASK = 0x00000010;

pub const PROCESS_VM_WRITE: ACCESS_MASK = 0x00000020;

pub const PROCESS_DUP_HANDLE: ACCESS_MASK = 0x00000040;

pub const PROCESS_CREATE_PROCESS: ACCESS_MASK = 0x00000080;

pub const PROCESS_QUERY_INFORMATION: ACCESS_MASK = 0x00000400;

pub const PROCESS_ALL_ACCESS: ACCESS_MASK = 0x001FFFFF;

pub type PVOID = u64;

pub type LPVOID = u64;

pub type LPCVOID = u64;

pub type LPSTR = u64;

pub type LPCSTR = u64;

pub type LPWSTR = u64;

pub type LPCWSTR = u64;

pub type PDWORD = u64;

pub type PHANDLE = u64;

/// A thread, named by its process and itself.
#[derive(Debug, Clone, Copy, PartialEq, Eq, Structural)]
pub struct CLIENT_ID {
    pub unique_process: HANDLE,
    pub unique_thread: HANDLE,
}

/// Whether a status is a success.
pub fn nt_success(status: NTSTATUS) -> (r: bool)
    ensures
        r == (status.severity() == 0),
{
    status.is_success()
}

/// The lower half of a double word.
pub fn loword(dw: DWORD) -> (r: WORD)
    ensures
        r == dw as int % 0x1_0000,
{
    (dw % 0x1_0000) as WORD
}

/// The upper half of a double word.
pub fn hiword(dw: DWORD) -> (r: WORD)
    ensures
        r == dw as int / 0x1_0000,
{
    (dw / 0x1_0000) as WORD
}

/// The lower byte of a word.
pub fn lobyte(w: WORD) -> (r: BYTE)
    ensures
        r == w as int % 0x100,
{
    (w % 0x100) as BYTE
}

/// The upper byte of a word.
pub fn hibyte(w: WORD) -> (r: BYTE)
    ensures
        r == w as int / 0x100,
{
    (w / 0x100) as BYTE
}

/// Two words as one double word.
pub fn makelong(low: WORD, high: WORD) -> (r: DWORD)
    ensures
        r == low + high * 0x1_0000,
        r as int % 0x1_0000 == low,
        r as int / 0x1_0000 == high,
{
    low as DWORD + high as DWORD * 0x1_0000
}

/// Two bytes as one word.
pub fn makeword(low: BYTE, high: BYTE) -> (r: WORD)
    ensures
        r == low + high * 0x100,
        r as int % 0x100 == low,
        r as int / 0x100 == high,
{
    low as WORD + high as WORD * 0x100
}

} // verus!
