use vstd::prelude::*;
use crate::codec::read_le32;
use rockfile::boot::{RkBootEntry, RkBootEntryBytes, RkBootHeader, RkBootHeaderBytes};

verus! {

/// Where a run of boot entries lies in a boot file: `count` entries of `size`
/// bytes each, from `offset`.
#[derive(Clone, Copy, Debug, PartialEq, Eq, Structural)]
pub struct BootHeaderEntry {
    pub count: u8,
    pub offset: u32,
    pub size: u8,
}

/// The fields of a boot entry that loading reads: the entry's own size, and
/// where its data lies and how long to wait after uploading it.
#[derive(Clone, Copy, Debug, PartialEq, Eq, Structural)]
pub struct BootEntry {
    pub size: u8,
    pub data_offset: u32,
    pub data_size: u32,
    pub data_delay: u32,
}

/// A blob to upload: its area code, the delay to observe after it (ms), and
/// its byte range `start..end` in the boot file.
#[derive(Clone, Copy, Debug, PartialEq, Eq, Structural)]
pub struct BootImage {
    pub area: u16,
    pub delay: u32,
    pub start: usize,
    pub end: usize,
}

/// Why a boot file cannot be read.
#[derive(Clone, Copy, Debug, PartialEq, Eq, Structural)]
pub enum BootParseError {
    /// Shorter than a boot header.
    Truncated,
    /// The header's tag is neither `BOOT` nor `LDR `.
    CorruptHeader,
    /// A boot entry runs past the end of the file.
    EntryOutOfRange,
    /// An entry's data runs past the end of the file.
    DataOutOfRange,
    /// An entry offset passes the 32-bit range.
    OffsetOverflow,
}

/// The length of a boot header.
pub const BOOT_HEADER_LEN: usize = 102;

/// The length of a boot entry.
pub const BOOT_ENTRY_LEN: usize = 57;

/// The area code of the blobs that set up memory.
pub const AREA_471: u16 = 0x471;

/// The area code of the blobs that run the USB protocol.
pub const AREA_472: u16 = 0x472;

/// The header opens with `BOOT` or `LDR `.
pub open spec fn is_boot_tag(b: Seq<u8>) -> bool {
    (b[0] == 0x42u8 && b[1] == 0x4fu8 && b[2] == 0x4fu8 && b[3] == 0x54u8) || (b[0] == 0x4cu8
        && b[1] == 0x44u8 && b[2] == 0x52u8 && b[3] == 0x20u8)
}

/// The header entry at `o`: count byte, little-endian offset, size byte.
pub open spec fn header_entry_at(b: Seq<u8>, o: int) -> BootHeaderEntry {
    BootHeaderEntry { count: b[o], offset: read_le32(b.skip(o + 1)), size: b[o + 5] }
}

/// The boot entry at `o`: its size byte, then, after the type and the
/// twenty UTF-16 units of the name, the little-endian data offset, data size
/// and delay.
pub open spec fn entry_at(b: Seq<u8>, o: int) -> BootEntry {
    BootEntry {
        size: b[o],
        data_offset: read_le32(b.skip(o + 45)),
        data_size: read_le32(b.skip(o + 49)),
        data_delay: read_le32(b.skip(o + 53)),
    }
}

/// Relies on rockfile::boot::RkBootHeader::from_bytes: `None` unless the tag
/// is `BOOT` or `LDR `; the 0x471 entry sits at byte 25 and the 0x472 entry
/// at byte 31, each a count byte, a little-endian u32 offset and a size byte.
#[verifier::external_body]
fn read_boot_header(b: &[u8]) -> (r: Option<(BootHeaderEntry, BootHeaderEntry)>)
    requires
        b@.len() >= BOOT_HEADER_LEN,
    ensures
        r is Some <==> is_boot_tag(b@),
        r matches Some(p) ==> p.0 == header_entry_at(b@, 25) && p.1 == header_entry_at(b@, 31),
{
    let raw: &RkBootHeaderBytes = b[0..BOOT_HEADER_LEN].try_into().ok()?;
    let h = RkBootHeader::from_bytes(raw)?;
    let (e1, e2) = (h.entry_471, h.entry_472);
    Some((
        BootHeaderEntry { count: e1.count, offset: e1.offset, size: e1.size },
        BootHeaderEntry { count: e2.count, offset: e2.offset, size: e2.size },
    ))
}

/// Relies on rockfile::boot::RkBootEntry::from_bytes: the size byte at 0,
/// then data offset, data size and delay as little-endian u32 at 45, 49 and
/// 53.
#[verifier::external_body]
fn read_boot_entry(b: &[u8], start: usize) -> (r: BootEntry)
    requires
        start + BOOT_ENTRY_LEN <= b@.len(),
    ensures
        r == entry_at(b@, start as int),
{
    let raw: &RkBootEntryBytes = b[start..start + BOOT_ENTRY_LEN].try_into().unwrap();
    let e = RkBootEntry::from_bytes(raw);
    BootEntry {
        size: e.size,
        data_offset: e.data_offset,
        data_size: e.data_size,
        data_delay: e.data_delay,
    }
}

/// The images of the `remaining` entries of a run, the next of which is at
/// `pos`. An entry of size zero is skipped without moving on; after any
/// other the next entry is `step` bytes further.
pub open spec fn walk_entries(area: u16, blob: Seq<u8>, step: u8, pos: nat, remaining: nat) -> Result<
    Seq<BootImage>,
    BootParseError,
>
    decreases remaining,
{
    if remaining == 0 {
        Ok(Seq::empty())
    } else if pos + BOOT_ENTRY_LEN > blob.len() {
        Err(BootParseError::EntryOutOfRange)
    } else {
        let e = entry_at(blob, pos as int);
        if e.size == 0 {
            walk_entries(area, blob, step, pos, (remaining - 1) as nat)
        } else if e.data_offset + e.data_size > blob.len() {
            Err(BootParseError::DataOutOfRange)
        } else if pos + step > u32::MAX {
            Err(BootParseError::OffsetOverflow)
        } else {
            let img = BootImage {
                area,
                delay: e.data_delay,
                start: e.data_offset as usize,
                end: (e.data_offset + e.data_size) as usize,
            };
            match walk_entries(area, blob, step, (pos + step) as nat, (remaining - 1) as nat) {
                Ok(rest) => Ok(seq![img] + rest),
                Err(x) => Err(x),
            }
        }
    }
}

pub open spec fn prepend_images(head: Seq<BootImage>, r: Result<Seq<BootImage>, BootParseError>) -> Result<
    Seq<BootImage>,
    BootParseError,
> {
    match r {
        Ok(rest) => Ok(head + rest),
        Err(x) => Err(x),
    }
}

/// The images of every entry of a header's run, in order.
pub fn parse_boot_header_entry(entry_type: u16, blob: &[u8], header: BootHeaderEntry) -> (r: Result<
    Vec<BootImage>,
    BootParseError,
>)
    ensures
        match walk_entries(entry_type, blob@, header.size, header.offset as nat, header.count as nat) {
            Ok(s) => r matches Ok(v) && v@ == s,
            Err(x) => r == Err::<Vec<BootImage>, BootParseError>(x),
        },
{
    let ghost full = walk_entries(entry_type, blob@, header.size, header.offset as nat, header.count as nat);
    let mut results: Vec<BootImage> = Vec::new();
    let mut pos: u32 = header.offset;
    let mut k: u8 = 0;
    proof {
        match full {
            Ok(s) => assert(Seq::<BootImage>::empty() + s =~= s),
            Err(_) => {},
        }
    }
    while k < header.count
        invariant
            k <= header.count,
            full == walk_entries(entry_type, blob@, header.size, header.offset as nat, header.count as nat),
            prepend_images(
                results@,
                walk_entries(entry_type, blob@, header.size, pos as nat, (header.count - k) as nat),
            ) == full,
        decreases header.count - k,
    {
        if blob.len() < BOOT_ENTRY_LEN || pos as usize > blob.len() - BOOT_ENTRY_LEN {
            return Err(BootParseError::EntryOutOfRange);
        }
        let e = read_boot_entry(blob, pos as usize);
        k = k + 1;
        if e.size == 0 {
            continue;
        }
        let start = e.data_offset as usize;
        if e.data_size as usize > blob.len() || start > blob.len() - e.data_size as usize {
            return Err(BootParseError::DataOutOfRange);
        }
        if pos > u32::MAX - header.size as u32 {
            return Err(BootParseError::OffsetOverflow);
        }
        let img = BootImage {
            area: entry_type,
            delay: e.data_delay,
            start,
            end: start + e.data_size as usize,
        };
        let ghost before = results@;
        results.push(img);
        pos = pos + header.size as u32;
        proof {
            let rest = walk_entries(entry_type, blob@, header.size, pos as nat, (header.count - k) as nat);
            match rest {
                Ok(s) => assert(before + (seq![img] + s) =~= before.push(img) + s),
                Err(_) => {},
            }
        }
    }
    proof {
        match full {
            Ok(s) => assert(results@ + Seq::<BootImage>::empty() =~= results@),
            Err(_) => {},
        }
    }
    Ok(results)
}

/// The images of a boot file: those of its 0x471 run, then those of its
/// 0x472 run.
pub open spec fn boot_images(raw: Seq<u8>) -> Result<Seq<BootImage>, BootParseError> {
    if raw.len() < BOOT_HEADER_LEN {
        Err(BootParseError::Truncated)
    } else if !is_boot_tag(raw) {
        Err(BootParseError::CorruptHeader)
    } else {
        let h471 = header_entry_at(raw, 25);
        let h472 = header_entry_at(raw, 31);
        match walk_entries(AREA_471, raw, h471.size, h471.offset as nat, h471.count as nat) {
            Err(x) => Err(x),
            Ok(a) => match walk_entries(AREA_472, raw, h472.size, h472.offset as nat, h472.count as nat) {
                Err(x) => Err(x),
                Ok(b) => Ok(a + b),
            },
        }
    }
}

/// Reads the blobs to upload from a boot file.
pub fn parse_boot_entries(raw_boot_bytes: &[u8]) -> (r: Result<Vec<BootImage>, BootParseError>)
    ensures
        match boot_images(raw_boot_bytes@) {
            Ok(s) => r matches Ok(v) && v@ == s,
            Err(x) => r == Err::<Vec<BootImage>, BootParseError>(x),
        },
{
    if raw_boot_bytes.len() < BOOT_HEADER_LEN {
        return Err(BootParseError::Truncated);
    }
    let (h471, h472) = match read_boot_header(raw_boot_bytes) {
        Some(p) => p,
        None => return Err(BootParseError::CorruptHeader),
    };
    let mut a = match parse_boot_header_entry(AREA_471, raw_boot_bytes, h471) {
        Ok(v) => v,
        Err(x) => return Err(x),
    };
    let mut b = match parse_boot_header_entry(AREA_472, raw_boot_bytes, h472) {
        Ok(v) => v,
        Err(x) => return Err(x),
    };
    a.append(&mut b);
    Ok(a)
}

} // verus!
