use std::sync::Arc;
use vstd::prelude::*;

use crate::names::NameTable;
use crate::tarformat::{
    entries_of_archive, header_block, headers_at, no_pax_header_before, size_field,
    size_is_octal_text, sparse_flag, tar_number, type_flag,
};
use crate::text::str_from_utf8;
use crate::{share, Fd};
use vstd::utf8::{decode_utf8, valid_utf8};

verus! {

/// `whence` value that seeks relative to the start of the file (libc's `SEEK_SET`).
pub const SEEK_SET: i32 = 0;

/// `whence` value that seeks relative to the current position (libc's `SEEK_CUR`).
pub const SEEK_CUR: i32 = 1;

/// `whence` value that seeks to the end of the file (libc's `SEEK_END`).
pub const SEEK_END: i32 = 2;

/// The entries of the tar archive that `archive` holds, in archive order:
/// each entry's path, as the archive spells it, and its data; `None` where
/// reading the archive fails.
pub uninterp spec fn tar_entries(archive: Seq<u8>) -> Option<Seq<(Seq<u8>, Seq<u8>)>>;

/// Reads the archive with the `tar` crate: `Archive::new`, then for each of
/// `Archive::entries` its data (`Read::read_to_end`) and `Entry::path_bytes`.
/// The result is `tar_entries` of the bytes; any I/O error the crate reports
/// gives `None`. What the crate's source shows of a successful read is stated
/// by `entries_of_archive`: each entry has its own header block in the
/// archive, in order (`next_entry_raw` reads them at block boundaries, skips
/// none, and refuses an all-zero block or a wrong checksum); the data of an
/// entry that is not sparse is the bytes after its header
/// (`take(size)` from `file_pos`), and, with no pax header to override it, as
/// many as the header's size field says (a short read fails the next
/// `skip`).
#[verifier::external_body]
fn read_tar_entries(archive: &[u8]) -> (r: Option<Vec<(Vec<u8>, Vec<u8>)>>)
    ensures
        r.deep_view() == tar_entries(archive@),
        r matches Some(es) ==> entries_of_archive(archive@, es.deep_view()),
{
    let mut reader = tar::Archive::new(archive);
    let mut out = Vec::new();
    for entry in reader.entries().ok()? {
        let mut entry = entry.ok()?;
        let mut data = Vec::new();
        std::io::Read::read_to_end(&mut entry, &mut data).ok()?;
        out.push((entry.path_bytes().into_owned(), data));
    }
    Some(out)
}

/// Every entry's path is UTF-8 text.
pub open spec fn paths_are_text(entries: Seq<(Seq<u8>, Seq<u8>)>) -> bool {
    forall|i: int| 0 <= i < entries.len() ==> valid_utf8(#[trigger] entries[i].0)
}

/// The files that a list of archive entries makes: each path names the data
/// of its last entry.
pub open spec fn archive_tree(entries: Seq<(Seq<u8>, Seq<u8>)>) -> Map<Seq<char>, Seq<u8>>
    decreases entries.len(),
{
    if entries.len() == 0 {
        Map::empty()
    } else {
        archive_tree(entries.drop_last()).insert(decode_utf8(entries.last().0), entries.last().1)
    }
}

/// The archive can be read and all its paths are text.
pub open spec fn archive_loads(archive: Seq<u8>) -> bool {
    &&& tar_entries(archive) is Some
    &&& paths_are_text(tar_entries(archive).unwrap())
}

/// A read-only file system that holds the files of a tar archive in memory.
pub struct TarFileFS {
    tree: NameTable<Arc<Vec<u8>>>,
}

impl View for TarFileFS {
    type V = Map<Seq<char>, Seq<u8>>;

    closed spec fn view(&self) -> Map<Seq<char>, Seq<u8>> {
        self.tree@.map_values(|data: Arc<Vec<u8>>| data@)
    }
}

impl TarFileFS {
    /// The file system of the given archive entries (path bytes and data);
    /// `None` when a path is not UTF-8.
    pub fn from_entries(entries: Vec<(Vec<u8>, Vec<u8>)>) -> (r: Option<TarFileFS>)
        ensures
            r is Some <==> paths_are_text(entries.deep_view()),
            r matches Some(fs) ==> fs@ == archive_tree(entries.deep_view()),
    {
        let ghost es = entries.deep_view();
        let mut tree: NameTable<Arc<Vec<u8>>> = NameTable::new();
        let mut i: usize = 0;
        while i < entries.len()
            invariant
                i <= entries@.len(),
                es == entries.deep_view(),
                es.len() == entries@.len(),
                paths_are_text(es.take(i as int)),
                tree@.map_values(|data: Arc<Vec<u8>>| data@) == archive_tree(es.take(i as int)),
            decreases entries@.len() - i,
        {
            assert(es[i as int].0 =~= entries@[i as int].0@);
            assert(es[i as int].1 =~= entries@[i as int].1@);
            match str_from_utf8(entries[i].0.as_slice()) {
                None => {
                    assert(!paths_are_text(es));
                    return None;
                },
                Some(path) => {
                    let name: String = path.to_owned();
                    let data: Vec<u8> = entries[i].1.clone();
                    let ghost before = tree@;
                    tree.insert(name, Arc::new(data));
                    proof {
                        assert(es.take(i + 1).drop_last() =~= es.take(i as int));
                        assert(tree@.map_values(|data: Arc<Vec<u8>>| data@) =~= before.map_values(
                            |data: Arc<Vec<u8>>| data@,
                        ).insert(decode_utf8(es[i as int].0), es[i as int].1));
                        assert forall|j: int| 0 <= j < i + 1 implies valid_utf8(
                            #[trigger] es.take(i + 1)[j].0,
                        ) by {
                            if j < i {
                                assert(es.take(i as int)[j] == es.take(i + 1)[j]);
                            }
                        }
                    }
                },
            }
            i = i + 1;
        }
        assert(es.take(i as int) =~= es);
        Some(TarFileFS { tree })
    }

    /// Loads the files of the tar archive `arr`. Every entry becomes a file
    /// under its path; where a path occurs twice, the later entry wins.
    pub fn new(arr: &[u8]) -> (fs: TarFileFS)
        requires
            archive_loads(arr@),
        ensures
            fs@ == archive_tree(tar_entries(arr@).unwrap()),
            entries_of_archive(arr@, tar_entries(arr@).unwrap()),
    {
        match read_tar_entries(arr) {
            Some(entries) => match Self::from_entries(entries) {
                Some(fs) => fs,
                None => {
                    assert(false);
                    TarFileFS { tree: NameTable::new() }
                },
            },
            None => {
                assert(false);
                TarFileFS { tree: NameTable::new() }
            },
        }
    }

    /// Loads the files of the tar archive `arr` as `new` does; `None` when the
    /// archive cannot be read or one of its paths is not UTF-8.
    pub fn load(arr: &[u8]) -> (r: Option<TarFileFS>)
        ensures
            r is Some <==> archive_loads(arr@),
            r matches Some(fs) ==> fs@ == archive_tree(tar_entries(arr@).unwrap()),
            r is Some ==> entries_of_archive(arr@, tar_entries(arr@).unwrap()),
    {
        match read_tar_entries(arr) {
            Some(entries) => {
                if all_paths_text(&entries) {
                    Some(Self::new(arr))
                } else {
                    None
                }
            },
            None => None,
        }
    }

    /// Opens the file at `pathname` for reading from its start; `None` when
    /// the archive holds no such file. The flags and modes are not consulted.
    pub fn open(&self, pathname: &str, flags: i32, modes: i32) -> (r: Option<TarFile>)
        ensures
            match r {
                Some(f) => {
                    &&& self@.contains_key(pathname@)
                    &&& f@.content == self@[pathname@]
                    &&& f@.cursor == 0
                },
                None => !self@.contains_key(pathname@),
            },
    {
        match self.tree.get(pathname) {
            Some(v) => Some(TarFile { file: share(v), cursor: 0 }),
            None => None,
        }
    }
}

/// Whether every entry's path is UTF-8 text.
fn all_paths_text(entries: &Vec<(Vec<u8>, Vec<u8>)>) -> (b: bool)
    ensures
        b == paths_are_text(entries.deep_view()),
{
    let ghost es = entries.deep_view();
    let mut i: usize = 0;
    while i < entries.len()
        invariant
            i <= entries@.len(),
            es == entries.deep_view(),
            es.len() == entries@.len(),
            forall|j: int| 0 <= j < i ==> valid_utf8(#[trigger] es[j].0),
        decreases entries@.len() - i,
    {
        assert(es[i as int].0 =~= entries@[i as int].0@);
        match str_from_utf8(entries[i].0.as_slice()) {
            None => {
                return false;
            },
            Some(_) => {},
        }
        i = i + 1;
    }
    true
}

/// The abstract state of an open archive file: its bytes and the read position.
pub struct TarFileView {
    pub content: Seq<u8>,
    pub cursor: nat,
}

/// An open, read-only file of the in-memory archive.
pub struct TarFile {
    file: Arc<Vec<u8>>,
    cursor: usize,
}

/// `x` limited to the range `[lo, hi]`.
pub open spec fn clamp(x: int, lo: int, hi: int) -> int {
    if x < lo {
        lo
    } else if x > hi {
        hi
    } else {
        x
    }
}

/// Where `lseek` moves a cursor at `cursor` in a file of `len` bytes.
pub open spec fn seek_target(cursor: int, len: int, offset: int, whence: i32) -> int {
    if whence == SEEK_CUR {
        clamp(cursor + offset, 0, len)
    } else if whence == SEEK_SET {
        clamp(offset, 0, len)
    } else if whence == SEEK_END {
        len
    } else {
        cursor
    }
}

/// How many bytes one `read` of `want` bytes hands out at `cursor`.
pub open spec fn read_count(cursor: nat, len: nat, want: nat) -> nat {
    if len - cursor < want {
        (len - cursor) as nat
    } else {
        want
    }
}

impl View for TarFile {
    type V = TarFileView;

    closed spec fn view(&self) -> TarFileView {
        TarFileView { content: self.file@, cursor: self.cursor as nat }
    }
}

impl TarFile {
    #[verifier::type_invariant]
    spec fn cursor_in_file(&self) -> bool {
        self.cursor <= self.file@.len()
    }

    /// Copies the bytes from the cursor on into `buf`, as many as fit, and
    /// moves the cursor past them; returns how many were copied.
    pub fn read(&mut self, f: Fd, buf: &mut [u8]) -> (r: isize)
        requires
            old(buf)@.len() <= isize::MAX,
        ensures
            final(self)@.content == old(self)@.content,
            r as int == read_count(old(self)@.cursor, old(self)@.content.len(), old(buf)@.len()),
            final(self)@.cursor == old(self)@.cursor + r,
            final(self)@.cursor <= final(self)@.content.len(),
            r <= old(buf)@.len(),
            r == old(buf)@.len() || final(self)@.cursor == old(self)@.content.len(),
            final(buf)@ == old(self)@.content.subrange(old(self)@.cursor as int, final(self)@.cursor as int)
                + old(buf)@.subrange(r as int, old(buf)@.len() as int),
    {
        proof {
            use_type_invariant(&*self);
        }
        let data: &Vec<u8> = &*self.file;
        let start = self.cursor;
        let avail = data.len() - start;
        let n = if avail < buf.len() {
            avail
        } else {
            buf.len()
        };
        let ghost orig = buf@;
        let mut i: usize = 0;
        while i < n
            invariant
                i <= n,
                n <= buf@.len(),
                start + n <= data@.len(),
                start + n <= usize::MAX,
                buf@.len() == orig.len(),
                forall|j: int| 0 <= j < i ==> buf@[j] == data@[start + j],
                forall|j: int| i <= j < orig.len() ==> buf@[j] == orig[j],
            decreases n - i,
        {
            buf[i] = data[start + i];
            i = i + 1;
        }
        self.cursor = start + n;
        assert(buf@ =~= data@.subrange(start as int, (start + n) as int) + orig.subrange(n as int, orig.len() as int));
        n as isize
    }
    /// Refuses every write: the archive is read-only. Returns -1.
    pub fn write(&mut self, f: Fd, buf: &[u8]) -> (r: isize)
        ensures
            r == -1,
            *final(self) == *old(self),
    {
        -1
    }

    /// Moves the cursor as `whence` says, never before the start nor past the
    /// end of the file, and returns the new position (as an `i32`).
    pub fn lseek(&mut self, f: Fd, offset: i32, whence: i32) -> (r: i32)
        requires
            whence == SEEK_SET ==> offset >= 0,
        ensures
            final(self)@.content == old(self)@.content,
            final(self)@.cursor == seek_target(
                old(self)@.cursor as int,
                old(self)@.content.len() as int,
                offset as int,
                whence,
            ),
            final(self)@.cursor <= final(self)@.content.len(),
            whence == SEEK_CUR && 0 <= old(self)@.cursor + offset <= old(self)@.content.len()
                ==> final(self)@.cursor == old(self)@.cursor + offset,
            whence == SEEK_CUR && old(self)@.cursor + offset < 0 ==> final(self)@.cursor == 0,
            whence == SEEK_CUR && old(self)@.cursor + offset > old(self)@.content.len()
                ==> final(self)@.cursor == old(self)@.content.len(),
            whence == SEEK_SET && offset <= old(self)@.content.len() ==> final(self)@.cursor == offset,
            whence == SEEK_SET && offset > old(self)@.content.len() ==> final(self)@.cursor
                == old(self)@.content.len(),
            whence == SEEK_END ==> final(self)@.cursor == old(self)@.content.len(),
            whence != SEEK_SET && whence != SEEK_CUR && whence != SEEK_END ==> final(self)@.cursor
                == old(self)@.cursor,
            r == final(self)@.cursor as i32,
    {
        proof {
            use_type_invariant(&*self);
        }
        let len = self.file.len();
        if whence == SEEK_CUR {
            if offset < 0 {
                let back = (-(offset as i64)) as usize;
                if back > self.cursor {
                    self.cursor = 0;
                } else {
                    self.cursor = self.cursor - back;
                }
            } else {
                let forward = offset as usize;
                if forward > len - self.cursor {
                    self.cursor = len;
                } else {
                    self.cursor = self.cursor + forward;
                }
            }
        } else if whence == SEEK_SET {
            let target = offset as usize;
            if target > len {
                self.cursor = len;
            } else {
                self.cursor = target;
            }
        } else if whence == SEEK_END {
            self.cursor = len;
        }
        self.cursor as i32
    }

    /// Closing an archive file always succeeds and returns 0.
    pub fn close(&mut self, f: Fd) -> (r: i32)
        ensures
            r == 0,
            *final(self) == *old(self),
    {
        0
    }
}

/// Every entry of an archive is a file under its path and holds that
/// entry's data, unless a later entry has the same path.
pub proof fn law_archive_file_is_last_entry(entries: Seq<(Seq<u8>, Seq<u8>)>, i: int)
    requires
        0 <= i < entries.len(),
        forall|j: int| i < j < entries.len() ==> decode_utf8(#[trigger] entries[j].0) != decode_utf8(
            entries[i].0,
        ),
    ensures
        archive_tree(entries).contains_key(decode_utf8(entries[i].0)),
        archive_tree(entries)[decode_utf8(entries[i].0)] == entries[i].1,
    decreases entries.len(),
{
    if i < entries.len() - 1 {
        let rest = entries.drop_last();
        assert forall|j: int| i < j < rest.len() implies decode_utf8(#[trigger] rest[j].0) != decode_utf8(
            rest[i].0,
        ) by {
            assert(rest[j] == entries[j]);
        }
        law_archive_file_is_last_entry(rest, i);
        assert(decode_utf8(entries.last().0) != decode_utf8(entries[i].0));
    }
}

/// An archive holds no file under a path that none of its entries has.
pub proof fn law_archive_has_no_other_file(entries: Seq<(Seq<u8>, Seq<u8>)>, name: Seq<char>)
    requires
        forall|j: int| 0 <= j < entries.len() ==> decode_utf8(#[trigger] entries[j].0) != name,
    ensures
        !archive_tree(entries).contains_key(name),
    decreases entries.len(),
{
    if entries.len() > 0 {
        let rest = entries.drop_last();
        assert forall|j: int| 0 <= j < rest.len() implies decode_utf8(#[trigger] rest[j].0) != name by {
            assert(rest[j] == entries[j]);
        }
        law_archive_has_no_other_file(rest, name);
        assert(decode_utf8(entries.last().0) != name);
    }
}

/// Seeking by 0 from the current position reports the position and does not
/// move it.
pub proof fn law_seek_by_nothing_keeps_position(cursor: int, len: int)
    requires
        0 <= cursor <= len,
    ensures
        seek_target(cursor, len, 0, SEEK_CUR) == cursor,
{
}

/// Wherever `lseek` puts the cursor, it lies within the file.
pub proof fn law_seek_stays_in_file(cursor: int, len: int, offset: int, whence: i32)
    requires
        0 <= cursor <= len,
    ensures
        0 <= seek_target(cursor, len, offset, whence) <= len,
{
}

/// Two reads in a row hand out what one read of both sizes would: as many
/// bytes in all, and the same bytes, in order.
pub proof fn law_reads_concatenate(content: Seq<u8>, cursor: nat, first: nat, second: nat)
    requires
        cursor <= content.len(),
    ensures
        ({
            let mid: int = (cursor + read_count(cursor, content.len(), first)) as int;
            let end: int = mid + read_count(mid as nat, content.len(), second);
            &&& end == cursor + read_count(cursor, content.len(), first + second)
            &&& content.subrange(cursor as int, mid) + content.subrange(mid, end) == content.subrange(
                cursor as int,
                end,
            )
        }),
{
    let mid: int = (cursor + read_count(cursor, content.len(), first)) as int;
    let end: int = mid + read_count(mid as nat, content.len(), second);
    assert(content.subrange(cursor as int, mid) + content.subrange(mid, end) =~= content.subrange(
        cursor as int,
        end,
    ));
}

/// Reading at the end of a file hands out nothing.
pub proof fn law_read_at_end_is_empty(len: nat, want: nat)
    ensures
        read_count(len, len, want) == 0,
{
}

/// A read hands out as many bytes as fit: never more than the buffer holds
/// or than remain after the cursor, and fewer than the buffer holds only when
/// it reaches the end of the file.
pub proof fn law_read_count_is_what_fits(cursor: nat, len: nat, want: nat)
    requires
        cursor <= len,
    ensures
        read_count(cursor, len, want) <= want,
        cursor + read_count(cursor, len, want) <= len,
        read_count(cursor, len, want) == want || cursor + read_count(cursor, len, want) == len,
        cursor < len && want > 0 ==> read_count(cursor, len, want) > 0,
{
}

/// Seeking from the current position moves the cursor by exactly the offset,
/// backwards or forwards, as long as that stays within the file; past either
/// end it stops at that end.
pub proof fn law_seek_cur_moves_by_offset(cursor: int, len: int, offset: int)
    requires
        0 <= cursor <= len,
    ensures
        0 <= cursor + offset <= len ==> seek_target(cursor, len, offset, SEEK_CUR) == cursor + offset,
        cursor + offset < 0 ==> seek_target(cursor, len, offset, SEEK_CUR) == 0,
        cursor + offset > len ==> seek_target(cursor, len, offset, SEEK_CUR) == len,
{
}

/// Seeking back by `k` and then forward by `k` from the current position
/// returns to where the cursor was, when it was at least `k` bytes in.
pub proof fn law_seek_back_then_forward(cursor: int, len: int, k: int)
    requires
        0 <= k <= cursor <= len,
    ensures
        seek_target(seek_target(cursor, len, -k, SEEK_CUR), len, k, SEEK_CUR) == cursor,
{
}

/// Seeking from the start lands on the offset itself, or on the end of the
/// file when the offset lies past it; seeking to the end lands on the length.
pub proof fn law_seek_set_and_end(cursor: int, len: int, offset: int)
    requires
        0 <= cursor <= len,
        0 <= offset,
    ensures
        offset <= len ==> seek_target(cursor, len, offset, SEEK_SET) == offset,
        offset > len ==> seek_target(cursor, len, offset, SEEK_SET) == len,
        seek_target(cursor, len, offset, SEEK_END) == len,
{
}

/// A file loaded from an archive holds the whole data of its entry: the bytes
/// right after the entry's header, as many as the header's size field says
/// (for an entry that is not sparse, whose size no pax header overrides, and
/// that no later entry of the same path replaces).
pub proof fn law_loaded_file_holds_its_entry_data(
    archive: Seq<u8>,
    entries: Seq<(Seq<u8>, Seq<u8>)>,
    hs: Seq<int>,
    i: int,
)
    requires
        headers_at(archive, entries, hs),
        0 <= i < entries.len(),
        forall|j: int| i < j < entries.len() ==> decode_utf8(#[trigger] entries[j].0) != decode_utf8(
            entries[i].0,
        ),
        type_flag(header_block(archive, hs[i])) != sparse_flag(),
        size_is_octal_text(header_block(archive, hs[i])),
        no_pax_header_before(archive, hs[i]),
    ensures
        ({
            let n = tar_number(size_field(header_block(archive, hs[i]))).unwrap();
            &&& archive_tree(entries).contains_key(decode_utf8(entries[i].0))
            &&& hs[i] + 512 + n <= archive.len()
            &&& archive_tree(entries)[decode_utf8(entries[i].0)] == archive.subrange(
                hs[i] + 512,
                hs[i] + 512 + n,
            )
        }),
{
    law_archive_file_is_last_entry(entries, i);
    assert(crate::tarformat::entry_at(archive, hs[i], entries[i].1));
}

} // verus!
