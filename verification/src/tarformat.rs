//! What the bytes of a tar archive say about its entries: the fields of a
//! header block that fix where an entry's data lies and how long it is.

use vstd::prelude::*;

verus! {

/// Size of a tar block; every header starts on a block boundary.
pub open spec fn block_size() -> int {
    512
}

/// The bytes of a field up to its first NUL.
pub open spec fn nul_prefix(f: Seq<u8>) -> Seq<u8>
    decreases f.len(),
{
    if f.len() == 0 {
        f
    } else if f[0] == 0 {
        Seq::empty()
    } else {
        seq![f[0]] + nul_prefix(f.drop_first())
    }
}

/// An ASCII white-space byte (tab, line feed, vertical tab, form feed,
/// carriage return, space).
pub open spec fn is_ascii_space(b: u8) -> bool {
    b == 0x20 || (0x09 <= b && b <= 0x0d)
}

/// `s` without its leading white space.
pub open spec fn trim_start(s: Seq<u8>) -> Seq<u8>
    decreases s.len(),
{
    if s.len() > 0 && is_ascii_space(s[0]) {
        trim_start(s.drop_first())
    } else {
        s
    }
}

/// `s` without its trailing white space.
pub open spec fn trim_end(s: Seq<u8>) -> Seq<u8>
    decreases s.len(),
{
    if s.len() > 0 && is_ascii_space(s.last()) {
        trim_end(s.drop_last())
    } else {
        s
    }
}

/// Every byte of `s` is ASCII.
pub open spec fn ascii_text(s: Seq<u8>) -> bool {
    forall|i: int| 0 <= i < s.len() ==> #[trigger] s[i] < 0x80
}

/// Every byte of `s` is an octal digit `0`..`7`.
pub open spec fn octal_digits(s: Seq<u8>) -> bool {
    forall|i: int| 0 <= i < s.len() ==> 0x30 <= #[trigger] s[i] <= 0x37
}

/// The number that the octal digits `s` write.
pub open spec fn octal_value(s: Seq<u8>) -> nat
    decreases s.len(),
{
    if s.len() == 0 {
        0
    } else {
        octal_value(s.drop_last()) * 8 + (s.last() - 0x30) as nat
    }
}

/// The number that an octal header field holds: the text before its first
/// NUL, without surrounding white space and one optional `+`, read in base 8
/// as a 64-bit number; `None` when that is not a number.
pub open spec fn tar_number(field: Seq<u8>) -> Option<nat> {
    let t = trim_end(trim_start(nul_prefix(field)));
    let d = if t.len() > 0 && t[0] == 0x2b {
        t.drop_first()
    } else {
        t
    };
    if d.len() > 0 && octal_digits(d) && octal_value(d) < 0x1_0000_0000_0000_0000 {
        Some(octal_value(d))
    } else {
        None
    }
}

/// The sum of the bytes of `s`.
pub open spec fn byte_sum(s: Seq<u8>) -> nat
    decreases s.len(),
{
    if s.len() == 0 {
        0
    } else {
        byte_sum(s.drop_last()) + s.last() as nat
    }
}

/// The header block that starts at `h`.
pub open spec fn header_block(archive: Seq<u8>, h: int) -> Seq<u8> {
    archive.subrange(h, h + block_size())
}

/// The size field (bytes 124..136) of a header block.
pub open spec fn size_field(block: Seq<u8>) -> Seq<u8> {
    block.subrange(124, 136)
}

/// The checksum field (bytes 148..156) of a header block.
pub open spec fn checksum_field(block: Seq<u8>) -> Seq<u8> {
    block.subrange(148, 156)
}

/// The entry type byte (byte 156) of a header block.
pub open spec fn type_flag(block: Seq<u8>) -> u8 {
    block[156]
}

/// The entry type of a GNU sparse file, whose data is not stored whole.
pub open spec fn sparse_flag() -> u8 {
    0x53
}

/// The entry type of a pax extension header, which may override the size of
/// the entry after it.
pub open spec fn pax_flag() -> u8 {
    0x78
}

/// The size field is written in ASCII octal (not in the base-256 form that a
/// set high bit announces).
pub open spec fn size_is_octal_text(block: Seq<u8>) -> bool {
    &&& block[124] < 0x80
    &&& ascii_text(nul_prefix(size_field(block)))
}

/// The checksum in the header is the sum of its bytes, with the checksum
/// field counted as spaces (taken modulo 2^32, as a 32-bit number).
pub open spec fn checksum_holds(block: Seq<u8>) -> bool {
    ascii_text(nul_prefix(checksum_field(block))) ==> match tar_number(checksum_field(block)) {
        Some(c) => c % 0x1_0000_0000 == byte_sum(block.subrange(0, 148)) + byte_sum(
            block.subrange(156, 512),
        ) + 256,
        None => false,
    }
}

/// No block before `h` is a pax extension header.
pub open spec fn no_pax_header_before(archive: Seq<u8>, h: int) -> bool {
    forall|p: int|
        0 <= p < h && p % block_size() == 0 ==> #[trigger] archive[p + 156] != pax_flag()
}

/// `data` is what the entry whose header starts at `h` holds: the header is a
/// non-zero block with a correct checksum; unless the entry is sparse, its
/// data are the bytes right after the header; and where no pax header can
/// have changed its size, there are exactly as many as its size field says.
pub open spec fn entry_at(archive: Seq<u8>, h: int, data: Seq<u8>) -> bool {
    let b = header_block(archive, h);
    &&& 0 <= h
    &&& h % block_size() == 0
    &&& h + block_size() <= archive.len()
    &&& b != Seq::new(512, |j: int| 0u8)
    &&& checksum_holds(b)
    &&& size_is_octal_text(b) ==> tar_number(size_field(b)) is Some
    &&& type_flag(b) != sparse_flag() ==> {
        &&& h + block_size() + data.len() <= archive.len()
        &&& data == archive.subrange(h + block_size(), h + block_size() + data.len())
    }
    &&& (type_flag(b) != sparse_flag() && size_is_octal_text(b) && no_pax_header_before(archive, h))
        ==> data.len() == tar_number(size_field(b)).unwrap()
}

/// The entries (path bytes and data) have headers at `hs`, in order.
pub open spec fn headers_at(
    archive: Seq<u8>,
    entries: Seq<(Seq<u8>, Seq<u8>)>,
    hs: Seq<int>,
) -> bool {
    &&& hs.len() == entries.len()
    &&& forall|i: int| 0 <= i < entries.len() ==> entry_at(archive, #[trigger] hs[i], entries[i].1)
    &&& forall|i: int, j: int| 0 <= i < j < hs.len() ==> hs[i] < hs[j]
}

/// The entries were read out of `archive`: each has its header in it, in
/// order, and holds the data that its header describes.
pub open spec fn entries_of_archive(archive: Seq<u8>, entries: Seq<(Seq<u8>, Seq<u8>)>) -> bool {
    exists|hs: Seq<int>| headers_at(archive, entries, hs)
}

} // verus!
