use std::sync::Arc;

use uvfs::names::NameTable;
use uvfs::tarfs::{TarFile, TarFileFS, SEEK_CUR, SEEK_END, SEEK_SET};
use uvfs::text::{find_marker, from_cstr};
use uvfs::vfs::{File, UVFS};

fn archive(files: &[(&str, &[u8])]) -> Vec<u8> {
    let mut builder = tar::Builder::new(Vec::new());
    for (path, data) in files {
        let mut header = tar::Header::new_gnu();
        header.set_size(data.len() as u64);
        header.set_mode(0o644);
        builder.append_data(&mut header, path, *data).unwrap();
    }
    builder.into_inner().unwrap()
}

fn sample_fs() -> TarFileFS {
    let bytes = archive(&[
        ("stdio.h", b"hello world"),
        ("sys/types.h", b"typedef int t;"),
        ("empty.h", b""),
    ]);
    TarFileFS::load(&bytes).unwrap()
}

fn open(fs: &TarFileFS, path: &str) -> TarFile {
    fs.open(path, 0, 0).unwrap()
}

#[test]
fn it_works() {
    assert_eq!(2 + 2, 4);
}

#[test]
fn archive_files_can_be_opened() {
    let fs = sample_fs();
    assert!(fs.open("stdio.h", 0, 0).is_some());
    assert!(fs.open("sys/types.h", 0, 0).is_some());
    assert!(fs.open("empty.h", 0, 0).is_some());
    assert!(fs.open("missing.h", 0, 0).is_none());
    assert!(fs.open("sys", 0, 0).is_none());
}

#[test]
fn new_loads_like_load() {
    let bytes = archive(&[("a", b"xyz")]);
    let fs = TarFileFS::new(&bytes);
    let mut f = open(&fs, "a");
    let mut buf = [0u8; 8];
    assert_eq!(f.read(3, &mut buf), 3);
    assert_eq!(&buf[..3], b"xyz");
}

#[test]
fn read_hands_out_the_file_in_order() {
    let fs = sample_fs();
    let mut f = open(&fs, "stdio.h");
    let mut buf = [0u8; 5];
    assert_eq!(f.read(3, &mut buf), 5);
    assert_eq!(&buf, b"hello");
    let mut big = [7u8; 10];
    assert_eq!(f.read(3, &mut big), 6);
    assert_eq!(&big[..6], b" world");
    assert_eq!(&big[6..], &[7u8, 7, 7, 7]);
    assert_eq!(f.read(3, &mut big), 0);
    assert_eq!(&big[..6], b" world");
}

#[test]
fn read_of_empty_file_gives_nothing() {
    let fs = sample_fs();
    let mut f = open(&fs, "empty.h");
    let mut buf = [1u8; 4];
    assert_eq!(f.read(3, &mut buf), 0);
    assert_eq!(buf, [1u8; 4]);
}

#[test]
fn read_into_empty_buffer_gives_nothing() {
    let fs = sample_fs();
    let mut f = open(&fs, "stdio.h");
    let mut buf: [u8; 0] = [];
    assert_eq!(f.read(3, &mut buf), 0);
    assert_eq!(f.lseek(3, 0, SEEK_CUR), 0);
}

#[test]
fn lseek_clamps_to_the_file() {
    let fs = sample_fs();
    let mut f = open(&fs, "stdio.h");
    assert_eq!(f.lseek(3, 6, SEEK_SET), 6);
    let mut buf = [0u8; 5];
    assert_eq!(f.read(3, &mut buf), 5);
    assert_eq!(&buf, b"world");
    assert_eq!(f.lseek(3, -3, SEEK_CUR), 8);
    assert_eq!(f.lseek(3, -100, SEEK_CUR), 0);
    assert_eq!(f.lseek(3, 100, SEEK_CUR), 11);
    assert_eq!(f.lseek(3, 1000, SEEK_SET), 11);
    assert_eq!(f.lseek(3, 0, SEEK_SET), 0);
    assert_eq!(f.lseek(3, -5, SEEK_END), 11);
    assert_eq!(f.lseek(3, 4, SEEK_SET), 4);
    assert_eq!(f.lseek(3, 99, 7), 4);
    assert_eq!(f.lseek(3, 2, SEEK_CUR), 6);
}

#[test]
fn seek_constants_are_libc_values() {
    assert_eq!(SEEK_SET, libc::SEEK_SET);
    assert_eq!(SEEK_CUR, libc::SEEK_CUR);
    assert_eq!(SEEK_END, libc::SEEK_END);
}

#[test]
fn write_is_refused_and_close_succeeds() {
    let fs = sample_fs();
    let mut f = open(&fs, "stdio.h");
    assert_eq!(f.write(3, b"abc"), -1);
    let mut buf = [0u8; 11];
    assert_eq!(f.read(3, &mut buf), 11);
    assert_eq!(&buf, b"hello world");
    assert_eq!(f.close(3), 0);
}

#[test]
fn later_entry_wins() {
    let bytes = archive(&[("a.h", b"first"), ("b.h", b"other"), ("a.h", b"second")]);
    let fs = TarFileFS::load(&bytes).unwrap();
    let mut f = open(&fs, "a.h");
    let mut buf = [0u8; 16];
    assert_eq!(f.read(3, &mut buf), 6);
    assert_eq!(&buf[..6], b"second");
}

#[test]
fn from_entries_builds_the_tree() {
    let fs = TarFileFS::from_entries(vec![
        (b"x/y".to_vec(), b"12".to_vec()),
        (b"z".to_vec(), b"3".to_vec()),
    ])
    .unwrap();
    let mut f = open(&fs, "x/y");
    let mut buf = [0u8; 4];
    assert_eq!(f.read(3, &mut buf), 2);
    assert_eq!(&buf[..2], b"12");
    assert!(fs.open("x", 0, 0).is_none());
}

#[test]
fn from_entries_refuses_non_text_paths() {
    let r = TarFileFS::from_entries(vec![
        (b"ok".to_vec(), b"1".to_vec()),
        (vec![0x66, 0xff, 0x66], b"2".to_vec()),
    ]);
    assert!(r.is_none());
}

#[test]
fn empty_archive_has_no_files() {
    let bytes = archive(&[]);
    let fs = TarFileFS::load(&bytes).unwrap();
    assert!(fs.open("anything", 0, 0).is_none());
}

#[test]
fn unreadable_archive_is_refused() {
    let mut bytes = vec![0x41u8; 512];
    bytes.extend_from_slice(&[0u8; 1024]);
    assert!(TarFileFS::load(&bytes).is_none());
}

#[test]
fn from_cstr_reads_up_to_the_nul() {
    assert_eq!(from_cstr(b"tcc@uvfs://a.h\0junk"), Some("tcc@uvfs://a.h"));
    assert_eq!(from_cstr(b"\0"), Some(""));
    assert_eq!(from_cstr(b"a\0b\0"), Some("a"));
    assert_eq!(from_cstr("h\u{e9}\0".as_bytes()), Some("h\u{e9}"));
}

#[test]
fn from_cstr_refuses_unterminated_or_non_text() {
    assert_eq!(from_cstr(b"abc"), None);
    assert_eq!(from_cstr(b""), None);
    assert_eq!(from_cstr(&[0x61, 0xff, 0x00]), None);
    assert_eq!(from_cstr(&[0x61, 0x00, 0xff]), Some("a"));
}

#[test]
fn find_marker_finds_the_first() {
    assert_eq!(find_marker("tcc@uvfs://include/stdio.h"), Some(3));
    assert_eq!(find_marker("a@uvfs://b@uvfs://c"), Some(1));
    assert_eq!(find_marker("@uvfs://"), Some(0));
    assert_eq!(find_marker("\u{e9}@uvfs://x"), Some(1));
    assert_eq!(find_marker("main.c"), None);
    assert_eq!(find_marker("tcc@uvfs:/x"), None);
    assert_eq!(find_marker(""), None);
}

#[test]
fn name_table_stores_and_replaces() {
    let mut t: NameTable<u32> = NameTable::new();
    assert_eq!(t.get("a"), None);
    t.insert("a".to_string(), 1);
    t.insert("b".to_string(), 2);
    assert_eq!(t.get("a"), Some(&1));
    assert_eq!(t.get("b"), Some(&2));
    t.insert("a".to_string(), 3);
    assert_eq!(t.get("a"), Some(&3));
    assert_eq!(t.get("b"), Some(&2));
    assert_eq!(t.get("c"), None);
}

fn dispatcher() -> UVFS<u32> {
    let mut v = UVFS::new(0u32);
    v.register_operation("tcc", 7);
    v
}

#[test]
fn registered_provider_is_found() {
    let mut v = dispatcher();
    assert_eq!(*v.get_registered_operations("tcc"), 7);
    assert_eq!(*v.get_registered_operations("zip"), 0);
    v.register_operation("tcc", 9);
    v.register_operation("zip", 4);
    assert_eq!(*v.get_registered_operations("tcc"), 9);
    assert_eq!(*v.get_registered_operations("zip"), 4);
    assert_eq!(*v.get_registered_operations(""), 0);
}

#[test]
fn choose_provider_splits_at_the_marker() {
    let v = dispatcher();
    let (ops, name) = v.choose_provider("tcc@uvfs://include/stdio.h");
    assert_eq!(*ops, 7);
    assert_eq!(name, "include/stdio.h");
    let (ops, name) = v.choose_provider("tcc@uvfs://a@uvfs://b");
    assert_eq!(*ops, 7);
    assert_eq!(name, "a@uvfs://b");
    let (ops, name) = v.choose_provider("nobody@uvfs://x.c");
    assert_eq!(*ops, 0);
    assert_eq!(name, "x.c");
    let (ops, name) = v.choose_provider("@uvfs://y");
    assert_eq!(*ops, 0);
    assert_eq!(name, "y");
}

#[test]
fn choose_provider_without_marker_uses_default() {
    let v = dispatcher();
    let (ops, name) = v.choose_provider("tcc/main.c");
    assert_eq!(*ops, 0);
    assert_eq!(name, "tcc/main.c");
    let (ops, name) = v.choose_provider("");
    assert_eq!(*ops, 0);
    assert_eq!(name, "");
}

#[test]
fn added_file_is_found_and_removed() {
    let mut v = dispatcher();
    let ops = v.get_registered_operations("tcc");
    let added = v.add_file(File { data: 42, fd: 5, ops });
    assert_eq!(added.fd, 5);
    assert_eq!(added.data, 42);
    let got = v.get_file(5);
    assert!(Arc::ptr_eq(&got, &added));
    assert_eq!(*got.ops, 7);
    let removed = v.remove_file(5).unwrap();
    assert!(Arc::ptr_eq(&removed, &added));
    assert!(v.remove_file(5).is_none());
}

#[test]
fn adding_under_a_taken_fd_replaces() {
    let mut v = dispatcher();
    let ops = v.get_registered_operations("tcc");
    v.add_file(File { data: 1, fd: 5, ops: ops.clone() });
    v.add_file(File { data: 2, fd: 5, ops });
    assert_eq!(v.get_file(5).data, 2);
    assert_eq!(v.remove_file(5).unwrap().data, 2);
    assert!(v.remove_file(5).is_none());
}

#[test]
fn unknown_fd_is_served_by_default() {
    let mut v = dispatcher();
    let f = v.get_file(9);
    assert_eq!(f.fd, 9);
    assert_eq!(f.data, 0);
    assert_eq!(*f.ops, 0);
    let again = v.get_file(9);
    assert!(Arc::ptr_eq(&f, &again));
    assert!(v.remove_file(9).is_some());
    assert!(v.remove_file(9).is_none());
}

#[test]
fn remove_of_unknown_fd_finds_nothing() {
    let mut v = dispatcher();
    assert!(v.remove_file(3).is_none());
}

#[test]
fn two_reads_equal_one_larger_read() {
    let fs = sample_fs();
    let mut a = open(&fs, "sys/types.h");
    let mut b = open(&fs, "sys/types.h");
    let mut first = [0u8; 4];
    let mut second = [0u8; 20];
    let n1 = a.read(3, &mut first) as usize;
    let n2 = a.read(3, &mut second) as usize;
    let mut whole = [0u8; 24];
    let n = b.read(3, &mut whole) as usize;
    assert_eq!(n1 + n2, n);
    let mut joined = first[..n1].to_vec();
    joined.extend_from_slice(&second[..n2]);
    assert_eq!(joined, whole[..n].to_vec());
}

#[test]
fn seek_by_nothing_reports_position() {
    let fs = sample_fs();
    let mut f = open(&fs, "stdio.h");
    let mut buf = [0u8; 3];
    f.read(3, &mut buf);
    assert_eq!(f.lseek(3, 0, SEEK_CUR), 3);
    assert_eq!(f.lseek(3, 0, SEEK_CUR), 3);
    assert_eq!(f.lseek(3, 0, SEEK_END), 11);
    assert_eq!(f.read(3, &mut buf), 0);
}
