//! The frame of the Win32 subsystem: windows and their messages, colours, the
//! console, and the operations that clients ask the subsystem for.

#![allow(non_camel_case_types)]

use vstd::prelude::*;
use super::types::{BYTE, DWORD, HANDLE, LONG, LPARAM, LPCWSTR, SHORT, WORD, WPARAM};

verus! {

/// A window.
#[derive(Debug, Clone, Copy, PartialEq, Eq, Structural)]
pub struct HWND(pub u64);

impl HWND {
    /// The number that names no window.
    pub const NULL: u64 = 0;

    /// Whether it names no window.
    pub fn is_null(self) -> (r: bool)
        ensures
            r == (self.0 == 0),
    {
        self.0 == 0
    }
}

/// The desktop.
pub const HWND_DESKTOP: u64 = 0;

/// Every window.
pub const HWND_BROADCAST: u64 = 0xFFFF;

pub const HWND_TOP: u64 = 0;

pub const HWND_BOTTOM: u64 = 1;

pub const HWND_TOPMOST: u64 = 0xFFFF_FFFF_FFFF_FFFF;

pub const HWND_NOTOPMOST: u64 = 0xFFFF_FFFF_FFFF_FFFE;

/// A point.
#[derive(Debug, Clone, Copy, PartialEq, Eq, Structural)]
pub struct POINT {
    pub x: LONG,
    pub y: LONG,
}

/// A message to a window.
#[derive(Debug, Clone, Copy, PartialEq, Eq, Structural)]
pub struct MSG {
    pub hwnd: HWND,
    /// One of the `WM_` codes.
    pub message: DWORD,
    pub wparam: WPARAM,
    pub lparam: LPARAM,
    /// When it was sent.
    pub time: DWORD,
    /// Where the pointer was.
    pub pt: POINT,
}

/// A rectangle. The right and the bottom edge do not belong to it.
#[derive(Debug, Clone, Copy, PartialEq, Eq, Structural)]
pub struct RECT {
    pub left: LONG,
    pub top: LONG,
    pub right: LONG,
    pub bottom: LONG,
}

impl RECT {
    /// Its width, negative if the edges are swapped.
    pub fn width(&self) -> (r: LONG)
        requires
            i32::MIN <= self.right - self.left <= i32::MAX,
        ensures
            r == self.right - self.left,
    {
        self.right - self.left
    }

    /// Its height, negative if the edges are swapped.
    pub fn height(&self) -> (r: LONG)
        requires
            i32::MIN <= self.bottom - self.top <= i32::MAX,
        ensures
            r == self.bottom - self.top,
    {
        self.bottom - self.top
    }

    /// Whether no point lies in it.
    pub fn is_empty(&self) -> (r: bool)
        ensures
            r == (forall|x: int, y: int| !#[trigger] self.holds(x, y)),
    {
        proof {
            if self.left < self.right && self.top < self.bottom {
                assert(self.holds(self.left as int, self.top as int));
            }
        }
        self.right <= self.left || self.bottom <= self.top
    }

    /// The point `(x, y)` lies in it.
    pub open spec fn holds(self, x: int, y: int) -> bool {
        self.left <= x < self.right && self.top <= y < self.bottom
    }
}

pub const WM_NULL: DWORD = 0x0000;

pub const WM_CREATE: DWORD = 0x0001;

pub const WM_DESTROY: DWORD = 0x0002;

pub const WM_MOVE: DWORD = 0x0003;

pub const WM_SIZE: DWORD = 0x0005;

pub const WM_ACTIVATE: DWORD = 0x0006;

pub const WM_SETFOCUS: DWORD = 0x0007;

pub const WM_KILLFOCUS: DWORD = 0x0008;

pub const WM_ENABLE: DWORD = 0x000A;

pub const WM_PAINT: DWORD = 0x000F;

pub const WM_CLOSE: DWORD = 0x0010;

pub const WM_QUIT: DWORD = 0x0012;

pub const WM_ERASEBKGND: DWORD = 0x0014;

pub const WM_SHOWWINDOW: DWORD = 0x0018;

pub const WM_SETTEXT: DWORD = 0x000C;

pub const WM_GETTEXT: DWORD = 0x000D;

pub const WM_GETTEXTLENGTH: DWORD = 0x000E;

pub const WM_KEYDOWN: DWORD = 0x0100;

pub const WM_KEYUP: DWORD = 0x0101;

pub const WM_CHAR: DWORD = 0x0102;

pub const WM_SYSKEYDOWN: DWORD = 0x0104;

pub const WM_SYSKEYUP: DWORD = 0x0105;

pub const WM_SYSCOMMAND: DWORD = 0x0112;

pub const WM_MOUSEMOVE: DWORD = 0x0200;

pub const WM_LBUTTONDOWN: DWORD = 0x0201;

pub const WM_LBUTTONUP: DWORD = 0x0202;

pub const WM_LBUTTONDBLCLK: DWORD = 0x0203;

pub const WM_RBUTTONDOWN: DWORD = 0x0204;

pub const WM_RBUTTONUP: DWORD = 0x0205;

pub const WM_MOUSEWHEEL: DWORD = 0x020A;

pub const WM_TIMER: DWORD = 0x0113;

pub const WM_COMMAND: DWORD = 0x0111;

pub const WM_NOTIFY: DWORD = 0x004E;

pub const WS_OVERLAPPED: DWORD = 0x00000000;

pub const WS_POPUP: DWORD = 0x80000000;

pub const WS_CHILD: DWORD = 0x40000000;

pub const WS_MINIMIZE: DWORD = 0x20000000;

pub const WS_VISIBLE: DWORD = 0x10000000;

pub const WS_DISABLED: DWORD = 0x08000000;

pub const WS_CLIPSIBLINGS: DWORD = 0x04000000;

pub const WS_CLIPCHILDREN: DWORD = 0x02000000;

pub const WS_MAXIMIZE: DWORD = 0x01000000;

pub const WS_CAPTION: DWORD = 0x00C00000;

pub const WS_BORDER: DWORD = 0x00800000;

pub const WS_DLGFRAME: DWORD = 0x00400000;

pub const WS_VSCROLL: DWORD = 0x00200000;

pub const WS_HSCROLL: DWORD = 0x00100000;

pub const WS_SYSMENU: DWORD = 0x00080000;

pub const WS_THICKFRAME: DWORD = 0x00040000;

pub const WS_MINIMIZEBOX: DWORD = 0x00020000;

pub const WS_MAXIMIZEBOX: DWORD = 0x00010000;

/// A window with a caption, a frame and buttons.
pub const WS_OVERLAPPEDWINDOW: DWORD = 0x00CF0000;

pub const SW_HIDE: DWORD = 0;

pub const SW_SHOWNORMAL: DWORD = 1;

pub const SW_SHOWMINIMIZED: DWORD = 2;

pub const SW_SHOWMAXIMIZED: DWORD = 3;

pub const SW_SHOW: DWORD = 5;

pub const SW_MINIMIZE: DWORD = 6;

pub const SW_RESTORE: DWORD = 9;

/// A registered class of windows.
pub type ATOM = WORD;

/// The description of a class of windows.
#[derive(Debug, Clone, Copy, PartialEq, Eq, Structural)]
pub struct WndClassW {
    /// The `CS_` flags.
    pub style: DWORD,
    /// The address of the window procedure.
    pub wnd_proc: u64,
    pub cls_extra: i32,
    pub wnd_extra: i32,
    pub instance: HANDLE,
    pub icon: HANDLE,
    pub cursor: HANDLE,
    pub background: HANDLE,
    pub menu_name: LPCWSTR,
    pub class_name: LPCWSTR,
}

pub const CS_HREDRAW: DWORD = 0x0002;

pub const CS_VREDRAW: DWORD = 0x0001;

pub const CS_DBLCLKS: DWORD = 0x0008;

pub const CS_OWNDC: DWORD = 0x0020;

/// A device context.
#[derive(Debug, Clone, Copy, PartialEq, Eq, Structural)]
pub struct HDC(pub u64);

impl HDC {
    /// The number that names no context.
    pub const NULL: u64 = 0;

    /// Whether it names no context.
    pub fn is_null(self) -> (r: bool)
        ensures
            r == (self.0 == 0),
    {
        self.0 == 0
    }
}

/// A pen, a brush, a font, a bitmap or a region.
#[derive(Debug, Clone, Copy, PartialEq, Eq, Structural)]
pub struct HGDIOBJ(pub u64);

impl HGDIOBJ {
    /// The number that names no object.
    pub const NULL: u64 = 0;
}

/// A colour: red in bits 0 to 7, green in bits 8 to 15, blue in bits 16 to 23.
pub type COLORREF = DWORD;

/// The colour of three parts.
pub fn rgb(r: BYTE, g: BYTE, b: BYTE) -> (c: COLORREF)
    ensures
        c == r + g * 0x100 + b * 0x1_0000,
{
    r as DWORD + g as DWORD * 0x100 + b as DWORD * 0x1_0000
}

/// The red part of a colour.
pub fn get_r_value(c: COLORREF) -> (r: BYTE)
    ensures
        r == c as int % 0x100,
{
    (c % 0x100) as BYTE
}

/// The green part of a colour.
pub fn get_g_value(c: COLORREF) -> (r: BYTE)
    ensures
        r == c as int / 0x100 % 0x100,
{
    (c / 0x100 % 0x100) as BYTE
}

/// The blue part of a colour.
pub fn get_b_value(c: COLORREF) -> (r: BYTE)
    ensures
        r == c as int / 0x1_0000 % 0x100,
{
    (c / 0x1_0000 % 0x100) as BYTE
}

/// A colour gives back the parts it was made of.
pub proof fn law_colour_gives_back_its_parts(r: BYTE, g: BYTE, b: BYTE)
    ensures
        ({
            let c = r + g * 0x100 + b * 0x1_0000;
            c % 0x100 == r && c / 0x100 % 0x100 == g && c / 0x1_0000 % 0x100 == b
        }),
{
}

pub const CLR_BLACK: COLORREF = 0x000000;

pub const CLR_WHITE: COLORREF = 0xFFFFFF;

pub const CLR_RED: COLORREF = 0x0000FF;

pub const CLR_GREEN: COLORREF = 0x00FF00;

pub const CLR_BLUE: COLORREF = 0xFF0000;

pub const CLR_YELLOW: COLORREF = 0x00FFFF;

pub const CLR_CYAN: COLORREF = 0xFFFF00;

pub const CLR_MAGENTA: COLORREF = 0xFF00FF;

pub const CLR_GRAY: COLORREF = 0x808080;

/// How a console treats its text.
#[derive(Debug, Clone, Copy, PartialEq, Eq, Structural)]
pub enum ConsoleMode {
    Text,
    /// With escape sequences.
    VirtualTerminal,
}

/// The colours of a character: the text in the low four bits, the background in
/// the next four.
pub type ConsoleAttribute = WORD;

pub const FOREGROUND_BLUE: WORD = 0x0001;

pub const FOREGROUND_GREEN: WORD = 0x0002;

pub const FOREGROUND_RED: WORD = 0x0004;

pub const FOREGROUND_INTENSITY: WORD = 0x0008;

pub const BACKGROUND_BLUE: WORD = 0x0010;

pub const BACKGROUND_GREEN: WORD = 0x0020;

pub const BACKGROUND_RED: WORD = 0x0040;

pub const BACKGROUND_INTENSITY: WORD = 0x0080;

/// A place in a console.
#[derive(Debug, Clone, Copy, PartialEq, Eq, Structural)]
pub struct COORD {
    pub x: SHORT,
    pub y: SHORT,
}

/// The state of a console.
#[derive(Debug, Clone, Copy, PartialEq, Eq, Structural)]
pub struct ConsoleScreenBufferInfo {
    pub size: COORD,
    pub cursor_position: COORD,
    pub attributes: WORD,
    /// The part that is seen.
    pub window: RECT,
    pub maximum_window_size: COORD,
}

/// What clients ask the subsystem for.
#[derive(Debug, Clone, Copy, PartialEq, Eq, Structural)]
pub enum Win32Op {
    RegisterClass,
    CreateWindow,
    DestroyWindow,
    ShowWindow,
    MoveWindow,
    SetWindowText,
    GetWindowText,
    GetMessage,
    PeekMessage,
    SendMessage,
    PostMessage,
    TranslateMessage,
    DispatchMessage,
    GetDC,
    ReleaseDC,
    BeginPaint,
    EndPaint,
    TextOut,
    FillRect,
    DrawRect,
    AllocConsole,
    FreeConsole,
    WriteConsole,
    ReadConsole,
    SetConsoleTitle,
    SetConsoleCursorPosition,
}

impl Win32Op {
    /// The number of the operation in messages.
    pub open spec fn code(self) -> u32 {
        match self {
            Win32Op::RegisterClass => 0x0001,
            Win32Op::CreateWindow => 0x0002,
            Win32Op::DestroyWindow => 0x0003,
            Win32Op::ShowWindow => 0x0004,
            Win32Op::MoveWindow => 0x0005,
            Win32Op::SetWindowText => 0x0006,
            Win32Op::GetWindowText => 0x0007,
            Win32Op::GetMessage => 0x0010,
            Win32Op::PeekMessage => 0x0011,
            Win32Op::SendMessage => 0x0012,
            Win32Op::PostMessage => 0x0013,
            Win32Op::TranslateMessage => 0x0014,
            Win32Op::DispatchMessage => 0x0015,
            Win32Op::GetDC => 0x0020,
            Win32Op::ReleaseDC => 0x0021,
            Win32Op::BeginPaint => 0x0022,
            Win32Op::EndPaint => 0x0023,
            Win32Op::TextOut => 0x0024,
            Win32Op::FillRect => 0x0025,
            Win32Op::DrawRect => 0x0026,
            Win32Op::AllocConsole => 0x0030,
            Win32Op::FreeConsole => 0x0031,
            Win32Op::WriteConsole => 0x0032,
            Win32Op::ReadConsole => 0x0033,
            Win32Op::SetConsoleTitle => 0x0034,
            Win32Op::SetConsoleCursorPosition => 0x0035,
        }
    }

    /// The number of the operation in messages.
    pub fn number(self) -> (r: u32)
        ensures
            r == self.code(),
    {
        match self {
            Win32Op::RegisterClass => 0x0001,
            Win32Op::CreateWindow => 0x0002,
            Win32Op::DestroyWindow => 0x0003,
            Win32Op::ShowWindow => 0x0004,
            Win32Op::MoveWindow => 0x0005,
            Win32Op::SetWindowText => 0x0006,
            Win32Op::GetWindowText => 0x0007,
            Win32Op::GetMessage => 0x0010,
            Win32Op::PeekMessage => 0x0011,
            Win32Op::SendMessage => 0x0012,
            Win32Op::PostMessage => 0x0013,
            Win32Op::TranslateMessage => 0x0014,
            Win32Op::DispatchMessage => 0x0015,
            Win32Op::GetDC => 0x0020,
            Win32Op::ReleaseDC => 0x0021,
            Win32Op::BeginPaint => 0x0022,
            Win32Op::EndPaint => 0x0023,
            Win32Op::TextOut => 0x0024,
            Win32Op::FillRect => 0x0025,
            Win32Op::DrawRect => 0x0026,
            Win32Op::AllocConsole => 0x0030,
            Win32Op::FreeConsole => 0x0031,
            Win32Op::WriteConsole => 0x0032,
            Win32Op::ReadConsole => 0x0033,
            Win32Op::SetConsoleTitle => 0x0034,
            Win32Op::SetConsoleCursorPosition => 0x0035,
        }
    }
}

/// Different operations have different numbers.
pub proof fn law_operations_have_their_own_numbers(a: Win32Op, b: Win32Op)
    requires
        a.code() == b.code(),
    ensures
        a == b,
{
}

/// The environment of a process.
#[derive(Debug, Clone, Copy)]
pub struct PEB {
    pub being_debugged: BYTE,
    pub reserved1: [BYTE; 7],
    /// Where the program was loaded.
    pub image_base_address: u64,
    /// The list of loaded libraries.
    pub ldr: u64,
    pub process_parameters: u64,
    pub process_heap: u64,
}

/// Slots for data of a thread.
pub const TLS_SLOTS: usize = 64;

/// The environment of a thread.
#[derive(Debug, Clone, Copy)]
pub struct TEB {
    /// Its own address.
    pub self_ptr: u64,
    pub peb: u64,
    pub thread_id: DWORD,
    pub process_id: DWORD,
    pub last_error: DWORD,
    pub tls_slots: [u64; TLS_SLOTS],
    pub stack_base: u64,
    pub stack_limit: u64,
}

impl TEB {
    /// The last error of the thread.
    pub fn get_last_error(&self) -> (r: DWORD)
        ensures
            r == self.last_error,
    {
        self.last_error
    }

    /// Sets the last error of the thread.
    pub fn set_last_error(&mut self, error: DWORD)
        ensures
            *final(self) == (TEB { last_error: error, ..*old(self) }),
    {
        self.last_error = error;
    }
}

} // verus!
