//! What the boot loader tells the kernel: a block of tags.
//!
//! The block starts with its size. A tag starts with its type and its size, and
//! the next one follows at the next multiple of eight bytes. A tag of type 0
//! ends the block.

use vstd::prelude::*;
use vstd::string::*;
use vstd::utf8::*;
use crate::memory::ram;
use crate::text;

verus! {

/// What a kernel is started with by a loader of this kind.
pub const MULTIBOOT2_MAGIC: u64 = 0x36d7_6289;

pub const TAG_END: u32 = 0;

pub const TAG_CMDLINE: u32 = 1;

pub const TAG_BOOT_LOADER: u32 = 2;

pub const TAG_MODULE: u32 = 3;

pub const TAG_BASIC_MEMINFO: u32 = 4;

pub const TAG_BOOTDEV: u32 = 5;

pub const TAG_MMAP: u32 = 6;

pub const TAG_FRAMEBUFFER: u32 = 8;

pub const TAG_ELF_SECTIONS: u32 = 9;

pub const TAG_APM: u32 = 10;

pub const TAG_EFI32: u32 = 11;

pub const TAG_EFI64: u32 = 12;

pub const TAG_ACPI_OLD: u32 = 14;

pub const TAG_ACPI_NEW: u32 = 15;

/// Bytes of the start of a tag.
pub const HEADER_SIZE: usize = 8;

/// Bytes of a tag for the screen.
pub const FRAMEBUFFER_TAG_SIZE: usize = 31;

/// The start of a tag.
#[derive(Debug, Clone, Copy, PartialEq, Eq, Structural)]
pub struct TagHeader {
    pub tag_type: u32,
    /// Bytes of the tag with its start.
    pub size: u32,
}

impl TagHeader {
    /// The start of the tag at `at`.
    pub open spec fn at(info: Seq<u8>, at: int) -> TagHeader {
        TagHeader { tag_type: ram::le32(info, at), size: ram::le32(info, at + 4) }
    }

    /// Reads the start of the tag at `at`.
    pub fn read(info: &[u8], at: usize) -> (r: TagHeader)
        requires
            at + HEADER_SIZE <= info.len(),
        ensures
            r == TagHeader::at(info@, at as int),
    {
        TagHeader { tag_type: ram::read_u32(info, at), size: ram::read_u32(info, at + 4) }
    }
}

/// A tag for the screen.
#[derive(Debug, Clone, Copy, PartialEq, Eq, Structural)]
pub struct FramebufferTag {
    pub tag_type: u32,
    pub size: u32,
    pub addr: u64,
    pub pitch: u32,
    pub width: u32,
    pub height: u32,
    pub bpp: u8,
    /// 0 is indexed, 1 is RGB, 2 is text.
    pub fb_type: u8,
    pub reserved: u8,
}

impl FramebufferTag {
    /// The tag at `at`.
    pub open spec fn at(info: Seq<u8>, at: int) -> FramebufferTag {
        FramebufferTag {
            tag_type: ram::le32(info, at),
            size: ram::le32(info, at + 4),
            addr: ram::le64(info, at + 8),
            pitch: ram::le32(info, at + 16),
            width: ram::le32(info, at + 20),
            height: ram::le32(info, at + 24),
            bpp: info[at + 28],
            fb_type: info[at + 29],
            reserved: info[at + 30],
        }
    }

    /// Reads the tag at `at`.
    pub fn read(info: &[u8], at: usize) -> (r: FramebufferTag)
        requires
            at + FRAMEBUFFER_TAG_SIZE <= info.len(),
        ensures
            r == FramebufferTag::at(info@, at as int),
    {
        FramebufferTag {
            tag_type: ram::read_u32(info, at),
            size: ram::read_u32(info, at + 4),
            addr: ram::read_u64(info, at + 8),
            pitch: ram::read_u32(info, at + 16),
            width: ram::read_u32(info, at + 20),
            height: ram::read_u32(info, at + 24),
            bpp: info[at + 28],
            fb_type: info[at + 29],
            reserved: info[at + 30],
        }
    }
}

/// How the pixels of the screen are stored.
#[derive(Debug, Clone, Copy, PartialEq, Eq, Structural)]
pub enum FramebufferType {
    Indexed,
    Rgb,
    EgaText,
    Unknown(u8),
}

impl FramebufferType {
    /// The type with a number.
    pub open spec fn of(n: u8) -> FramebufferType {
        if n == 0 {
            FramebufferType::Indexed
        } else if n == 1 {
            FramebufferType::Rgb
        } else if n == 2 {
            FramebufferType::EgaText
        } else {
            FramebufferType::Unknown(n)
        }
    }
}

/// The screen that the boot loader set up.
#[derive(Debug, Clone, Copy, PartialEq, Eq, Structural)]
pub struct FramebufferInfo {
    pub addr: u64,
    pub pitch: u32,
    pub width: u32,
    pub height: u32,
    pub bpp: u8,
    pub fb_type: FramebufferType,
}

impl FramebufferInfo {
    /// What a tag says of the screen.
    pub open spec fn of(t: FramebufferTag) -> FramebufferInfo {
        FramebufferInfo {
            addr: t.addr,
            pitch: t.pitch,
            width: t.width,
            height: t.height,
            bpp: t.bpp,
            fb_type: FramebufferType::of(t.fb_type),
        }
    }
}

/// There is a tag at `pos`, in a block that ends at `end`: the block goes on, and
/// the tag is neither the last one nor too small.
pub open spec fn has_tag(info: Seq<u8>, pos: int, end: int) -> bool {
    &&& pos < end
    &&& pos + HEADER_SIZE <= info.len()
    &&& TagHeader::at(info, pos).tag_type != TAG_END
    &&& TagHeader::at(info, pos).size >= HEADER_SIZE
}

/// Where the tag behind the one at `pos` starts.
pub open spec fn next_pos(info: Seq<u8>, pos: int) -> int {
    pos + (TagHeader::at(info, pos).size + 7) / 8 * 8
}

/// How much is left of `len` bytes from `pos` on, counting the end.
pub open spec fn left(len: int, pos: int) -> int {
    if pos <= len {
        len - pos + 1
    } else {
        0
    }
}

/// The first tag of a type, from `pos` on.
pub open spec fn find_tag(info: Seq<u8>, pos: int, end: int, tag_type: u32) -> Option<int>
    decreases left(info.len() as int, pos),
{
    if !has_tag(info, pos, end) {
        None
    } else if TagHeader::at(info, pos).tag_type == tag_type {
        Some(pos)
    } else {
        find_tag(info, next_pos(info, pos), end, tag_type)
    }
}

/// The first tag of a type in a block.
pub open spec fn tag_in(info: Seq<u8>, tag_type: u32) -> Option<int> {
    if info.len() < HEADER_SIZE {
        None
    } else {
        find_tag(info, HEADER_SIZE as int, ram::le32(info, 0) as int, tag_type)
    }
}

/// Goes through the tags of a block.
#[derive(Debug, Clone, Copy)]
pub struct TagIterator {
    pub current: u64,
    pub end: u64,
}

impl TagIterator {
    /// Starts with the first tag.
    pub fn new(info: &[u8]) -> (r: TagIterator)
        ensures
            r.current == HEADER_SIZE,
            r.end == (if info@.len() < HEADER_SIZE {
                0
            } else {
                ram::le32(info@, 0)
            }),
    {
        let end: u64 = if info.len() < HEADER_SIZE {
            0
        } else {
            ram::read_u32(info, 0) as u64
        };
        TagIterator { current: HEADER_SIZE as u64, end }
    }

    /// The place of the next tag, `None` at the end of the block.
    pub fn next(&mut self, info: &[u8]) -> (r: Option<usize>)
        requires
            old(self).current < 0x8000_0000_0000_0000,
        ensures
            match r {
                Some(pos) => {
                    &&& pos == old(self).current
                    &&& has_tag(info@, pos as int, old(self).end as int)
                    &&& final(self).current == next_pos(info@, pos as int)
                    &&& final(self).current < pos + 0x1_0000_0007
                    &&& final(self).end == old(self).end
                },
                None => {
                    &&& !has_tag(info@, old(self).current as int, old(self).end as int)
                    &&& *final(self) == *old(self)
                },
            },
    {
        let total: u64 = info.len() as u64;
        if self.current >= self.end || total < HEADER_SIZE as u64 || self.current > total
            - HEADER_SIZE as u64 {
            return None;
        }
        let pos: usize = self.current as usize;
        let tag: TagHeader = TagHeader::read(info, pos);
        if tag.tag_type == TAG_END || tag.size < HEADER_SIZE as u32 {
            return None;
        }
        let step: u64 = (tag.size as u64 + 7) / 8 * 8;
        self.current = self.current + step;
        Some(pos)
    }
}

/// Finds the first tag of a type.
fn locate(info: &[u8], tag_type: u32) -> (r: Option<usize>)
    ensures
        match tag_in(info@, tag_type) {
            Some(pos) => r == Some(pos as usize) && pos == r->0 && pos + HEADER_SIZE <= info.len(),
            None => r is None,
        },
        r matches Some(pos) ==> pos <= u32::MAX,
{
    let mut tags = TagIterator::new(info);
    if info.len() < HEADER_SIZE {
        return None;
    }
    let total: u64 = info.len() as u64;
    while tags.current < tags.end && tags.current <= total
        invariant
            info.len() >= HEADER_SIZE,
            total == info.len(),
            tags.end == ram::le32(info@, 0),
            tags.current < 0x8000_0000_0000_0000,
            tag_in(info@, tag_type) == find_tag(
                info@,
                tags.current as int,
                tags.end as int,
                tag_type,
            ),
        decreases left(total as int, tags.current as int),
    {
        match tags.next(info) {
            Some(pos) => {
                let tag: TagHeader = TagHeader::read(info, pos);
                if tag.tag_type == tag_type {
                    return Some(pos);
                }
            },
            None => {
                return None;
            },
        }
    }
    None
}

/// The screen that the first tag for it describes.
pub fn find_framebuffer(info: &[u8]) -> (r: Option<FramebufferInfo>)
    ensures
        r == (match tag_in(info@, TAG_FRAMEBUFFER) {
            Some(pos) => if pos + FRAMEBUFFER_TAG_SIZE <= info.len() {
                Some(FramebufferInfo::of(FramebufferTag::at(info@, pos)))
            } else {
                None
            },
            None => None,
        }),
{
    let pos: usize = match locate(info, TAG_FRAMEBUFFER) {
        Some(pos) => pos,
        None => {
            return None;
        },
    };
    if info.len() - pos < FRAMEBUFFER_TAG_SIZE {
        return None;
    }
    let tag: FramebufferTag = FramebufferTag::read(info, pos);
    let fb_type: FramebufferType = match tag.fb_type {
        0 => FramebufferType::Indexed,
        1 => FramebufferType::Rgb,
        2 => FramebufferType::EgaText,
        x => FramebufferType::Unknown(x),
    };
    Some(
        FramebufferInfo {
            addr: tag.addr,
            pitch: tag.pitch,
            width: tag.width,
            height: tag.height,
            bpp: tag.bpp,
            fb_type,
        },
    )
}

/// Where the text from `from` on ends: with a zero byte, or at `end`.
pub open spec fn text_end(info: Seq<u8>, from: int, end: int) -> int
    decreases end - from,
{
    if from >= end || from >= info.len() || info[from] == 0 {
        from
    } else {
        text_end(info, from + 1, end)
    }
}

/// The bytes of the command line: what the first tag for it holds, up to a zero
/// byte.
pub open spec fn cmdline_bytes(info: Seq<u8>) -> Option<Seq<u8>> {
    match tag_in(info, TAG_CMDLINE) {
        Some(pos) => {
            let size = TagHeader::at(info, pos).size as int;
            if size <= HEADER_SIZE {
                None
            } else {
                Some(
                    info.subrange(
                        pos + HEADER_SIZE,
                        text_end(info, pos + HEADER_SIZE, pos + size),
                    ),
                )
            }
        },
        None => None,
    }
}

/// The command line of the kernel, if it is there and is UTF-8.
pub fn find_cmdline(info: &[u8]) -> (r: Option<&str>)
    ensures
        match cmdline_bytes(info@) {
            Some(b) => if valid_utf8(b) {
                r matches Some(s) && s.spec_bytes() == b
            } else {
                r is None
            },
            None => r is None,
        },
{
    let pos: usize = match locate(info, TAG_CMDLINE) {
        Some(pos) => pos,
        None => {
            return None;
        },
    };
    let tag: TagHeader = TagHeader::read(info, pos);
    if tag.size <= HEADER_SIZE as u32 {
        return None;
    }
    let from: usize = pos + HEADER_SIZE;
    let end: u64 = pos as u64 + tag.size as u64;
    let mut to: usize = from;
    while to < info.len() && (to as u64) < end && info[to] != 0
        invariant
            from <= to <= info.len(),
            end < u64::MAX,
            text_end(info@, from as int, end as int) == text_end(info@, to as int, end as int),
        decreases info.len() - to,
    {
        to = to + 1;
    }
    text::text_of(vstd::slice::slice_subrange(info, from, to))
}

/// Whether the kernel was started by a loader of this kind.
pub fn is_multiboot2(magic: u64) -> (r: bool)
    ensures
        r == (magic == MULTIBOOT2_MAGIC),
{
    magic == MULTIBOOT2_MAGIC
}

/// A tag that is found has the type that was looked for and lies in the block;
/// every tag before it has another type.
pub proof fn law_first_tag_of_its_type_is_found(info: Seq<u8>, pos: int, end: int, tag_type: u32)
    requires
        0 <= pos,
        tag_type != TAG_END,
    ensures
        match find_tag(info, pos, end, tag_type) {
            Some(at) => {
                &&& pos <= at < end
                &&& at + HEADER_SIZE <= info.len()
                &&& TagHeader::at(info, at).tag_type == tag_type
                &&& at != pos ==> TagHeader::at(info, pos).tag_type != tag_type && find_tag(
                    info,
                    next_pos(info, pos),
                    end,
                    tag_type,
                ) == Some(at)
            },
            None => has_tag(info, pos, end) ==> TagHeader::at(info, pos).tag_type != tag_type
                && find_tag(info, next_pos(info, pos), end, tag_type) is None,
        },
    decreases left(info.len() as int, pos),
{
    if has_tag(info, pos, end) && TagHeader::at(info, pos).tag_type != tag_type {
        law_first_tag_of_its_type_is_found(info, next_pos(info, pos), end, tag_type);
    }
}

} // verus!
