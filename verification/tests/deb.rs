use std::io::Write;

use termux_packaging::cmd_bootstraps::{CreateBootstrapVisitor, ImageEntry};
use termux_packaging::deb_file::{decode_deb, DebEvent, EntryKind};
use termux_packaging::errors::DebError;

const PREFIX: &str = "./data/data/com.termux/files/usr/";

fn gz(data: &[u8]) -> Vec<u8> {
    let mut e = libflate::gzip::Encoder::new(Vec::new()).unwrap();
    e.write_all(data).unwrap();
    e.finish().into_result().unwrap()
}

fn xz(data: &[u8]) -> Vec<u8> {
    lzma::compress(data, 6).unwrap()
}

fn raw_header(path: &str, kind: tar::EntryType, size: u64) -> tar::Header {
    let mut h = tar::Header::new_gnu();
    h.set_entry_type(kind);
    h.set_size(size);
    {
        let name = &mut h.as_old_mut().name;
        name[..path.len()].copy_from_slice(path.as_bytes());
    }
    h
}

fn control_tar(control_text: &[u8], conffiles: Option<&[u8]>) -> Vec<u8> {
    let mut b = tar::Builder::new(Vec::new());
    let mut h = raw_header("./control", tar::EntryType::Regular, control_text.len() as u64);
    h.set_cksum();
    b.append(&h, control_text).unwrap();
    if let Some(cf) = conffiles {
        let mut h2 = raw_header("./conffiles", tar::EntryType::Regular, cf.len() as u64);
        h2.set_cksum();
        b.append(&h2, cf).unwrap();
    }
    b.into_inner().unwrap()
}

fn data_tar(files: &[(&str, &[u8])], symlinks: &[(&str, &str)]) -> Vec<u8> {
    let mut b = tar::Builder::new(Vec::new());
    for (path, data) in files {
        let mut h = raw_header(path, tar::EntryType::Regular, data.len() as u64);
        h.set_cksum();
        b.append(&h, *data).unwrap();
    }
    for (path, target) in symlinks {
        let mut h = raw_header(path, tar::EntryType::Symlink, 0);
        h.set_link_name(target).unwrap();
        h.set_cksum();
        b.append(&h, &b""[..]).unwrap();
    }
    b.into_inner().unwrap()
}

fn deb(members: &[(&str, &[u8])]) -> Vec<u8> {
    let mut b = ar::Builder::new(Vec::new());
    for (name, data) in members {
        let h = ar::Header::new(name.as_bytes().to_vec(), data.len() as u64);
        b.append(&h, *data).unwrap();
    }
    b.into_inner().unwrap()
}

fn simple_deb(control_text: &str, files: &[(&str, &[u8])], symlinks: &[(&str, &str)]) -> Vec<u8> {
    let ct = gz(&control_tar(control_text.as_bytes(), None));
    let dt = xz(&data_tar(files, symlinks));
    deb(&[("control.tar.gz", &ct), ("data.tar.xz", &dt)])
}

fn entry_data<'a>(entries: &'a [ImageEntry], wanted: &str) -> Option<&'a [u8]> {
    for e in entries {
        if let ImageEntry::File { name, data } = e {
            if name == wanted {
                return Some(data);
            }
        }
    }
    None
}

#[test]
fn decode_yields_control_then_files() {
    let bytes = simple_deb(
        "Package: foo\nVersion: 1.0\n",
        &[(&format!("{}bin/foo", PREFIX), b"hi")],
        &[],
    );
    let events = decode_deb(&bytes).unwrap();
    assert_eq!(2, events.len());
    match &events[0] {
        DebEvent::Control { fields } => {
            assert_eq!("foo", fields.get("Package").unwrap());
            assert_eq!("1.0", fields.get("Version").unwrap());
        }
        _ => panic!("first event must carry the control mapping"),
    }
    match &events[1] {
        DebEvent::File { entry } => {
            assert_eq!(format!("{}bin/foo", PREFIX), entry.path);
            assert_eq!(EntryKind::Regular, entry.kind);
            assert_eq!(b"hi".to_vec(), entry.data);
        }
        _ => panic!("second event must carry the file entry"),
    }
}

#[test]
fn decode_xz_control_member_and_conffiles() {
    let ct = xz(&control_tar(b"Package: bar\n", Some(b"/etc/bar.conf\n")));
    let dt = xz(&data_tar(&[], &[]));
    let bytes = deb(&[("control.tar.xz", &ct), ("data.tar.xz", &dt)]);
    let events = decode_deb(&bytes).unwrap();
    assert_eq!(2, events.len());
    match &events[0] {
        DebEvent::Conffiles { data } => assert_eq!(b"/etc/bar.conf\n".to_vec(), *data),
        _ => panic!("conffiles must come before the control mapping"),
    }
    assert!(matches!(&events[1], DebEvent::Control { .. }));
}

#[test]
fn decode_skips_unknown_members() {
    let dt = xz(&data_tar(&[], &[]));
    let bytes = deb(&[("debian-binary", b"2.0\n"), ("data.tar.xz", &dt)]);
    let events = decode_deb(&bytes).unwrap();
    assert_eq!(0, events.len());
}

#[test]
fn decode_corrupt_gzip_is_fatal() {
    let bytes = deb(&[("control.tar.gz", b"not gzip at all")]);
    assert_eq!(DebError::Decompress, decode_deb(&bytes).err().unwrap());
}

#[test]
fn decode_corrupt_outer_archive_is_fatal() {
    let bytes = b"this is not an ar archive".to_vec();
    assert_eq!(DebError::OuterArchive, decode_deb(&bytes).err().unwrap());
}

#[test]
fn decode_name_table_reference_out_of_bounds_is_fatal() {
    // A member identifier `/5` refers to offset 5 of a GNU name table, but
    // no name table member precedes it.
    let mut bytes = b"!<arch>\n".to_vec();
    let mut header = [b' '; 60];
    header[0] = b'/';
    header[1] = b'5';
    header[16] = b'0';
    header[28] = b'0';
    header[34] = b'0';
    header[40] = b'0';
    header[48] = b'4';
    header[58] = b'`';
    header[59] = b'\n';
    bytes.extend_from_slice(&header);
    bytes.extend_from_slice(b"data");
    assert_eq!(DebError::OuterArchive, decode_deb(&bytes).err().unwrap());
}

#[test]
fn decode_unreadable_size_field_is_fatal() {
    let mut bytes = b"!<arch>\n".to_vec();
    let mut header = [b' '; 60];
    header[0] = b'x';
    header[48] = b'?';
    header[58] = b'`';
    header[59] = b'\n';
    bytes.extend_from_slice(&header);
    assert_eq!(DebError::OuterArchive, decode_deb(&bytes).err().unwrap());
}

#[test]
fn decode_malformed_control_line_is_fatal() {
    let bytes = simple_deb("Package foo without separator\n", &[], &[]);
    assert_eq!(DebError::MalformedLine, decode_deb(&bytes).err().unwrap());
}

#[test]
fn decode_non_utf8_control_text_is_fatal() {
    let ct = gz(&control_tar(&[0xff, 0xfe, 0x0a], None));
    let bytes = deb(&[("control.tar.gz", &ct)]);
    assert_eq!(DebError::BadUtf8, decode_deb(&bytes).err().unwrap());
}

#[test]
fn assemble_synthetic_package() {
    let bytes = simple_deb(
        "Package: foo\nArchitecture: aarch64\nVersion: 1.0\n",
        &[(&format!("{}bin/foo", PREFIX), b"hi")],
        &[],
    );
    let events = decode_deb(&bytes).unwrap();
    let mut engine = CreateBootstrapVisitor::new();
    engine.process_package("foo", &events).unwrap();

    let status = engine.status_doc();
    assert_eq!(
        "Package: foo\nArchitecture: aarch64\nVersion: 1.0\nStatus: install ok installed\n\n",
        status
    );

    let entries = engine.entries();
    assert_eq!(b"hi".to_vec(), entry_data(entries, "bin/foo").unwrap());

    let list = String::from_utf8(entry_data(entries, "var/lib/dpkg/info/foo.list").unwrap().to_vec())
        .unwrap();
    let list_lines: Vec<&str> = list.lines().collect();
    assert!(list_lines.contains(&"/bin/foo"));
    assert!(list_lines.contains(&"/bin"));

    let digests =
        String::from_utf8(entry_data(entries, "var/lib/dpkg/info/foo.md5sums").unwrap().to_vec())
            .unwrap();
    let expected = format!("{:x}  bin/foo\n", md5::compute(b"hi"));
    assert_eq!(expected, digests);
}

#[test]
fn symlink_yields_registry_line_and_no_image_entry() {
    let bytes = simple_deb(
        "Package: foo\n",
        &[],
        &[(&format!("{}usr/bin/bar", PREFIX), "foo")],
    );
    let events = decode_deb(&bytes).unwrap();
    let mut engine = CreateBootstrapVisitor::new();
    let before = engine.entries().len();
    engine.process_package("foo", &events).unwrap();
    assert_eq!("foo\u{2190}usr/bin/bar\n", engine.symlinks_txt());
    assert!(entry_data(engine.entries(), "usr/bin/bar").is_none());
    // Only the per-package list document is added beyond the initial entries.
    assert_eq!(before + 1, engine.entries().len());
    let list = String::from_utf8(
        entry_data(engine.entries(), "var/lib/dpkg/info/foo.list").unwrap().to_vec(),
    )
    .unwrap();
    assert!(list.lines().collect::<Vec<_>>().contains(&"/usr/bin/bar"));
}

#[test]
fn package_without_files_contributes_only_status() {
    let bytes = simple_deb("Package: empty\nVersion: 2\n", &[], &[]);
    let events = decode_deb(&bytes).unwrap();
    let mut engine = CreateBootstrapVisitor::new();
    let before = engine.entries().len();
    engine.process_package("empty", &events).unwrap();
    assert_eq!(before, engine.entries().len());
    assert_eq!(
        "Package: empty\nVersion: 2\nStatus: install ok installed\n\n",
        engine.status_doc()
    );
}

#[test]
fn reserved_fields_are_not_republished() {
    let bytes = simple_deb(
        "Package: foo\nFilename: pool/foo.deb\nSize: 12\nSHA256: ab\nVersion: 1\n",
        &[],
        &[],
    );
    let events = decode_deb(&bytes).unwrap();
    let mut engine = CreateBootstrapVisitor::new();
    engine.process_package("foo", &events).unwrap();
    assert_eq!(
        "Package: foo\nVersion: 1\nStatus: install ok installed\n\n",
        engine.status_doc()
    );
}

#[test]
fn assembling_twice_is_byte_identical() {
    let bytes = simple_deb(
        "Package: foo\nVersion: 1.0\n",
        &[(&format!("{}bin/a", PREFIX), b"aa"), (&format!("{}share/b", PREFIX), b"bb")],
        &[(&format!("{}bin/l", PREFIX), "a")],
    );
    let events = decode_deb(&bytes).unwrap();

    let mut e1 = CreateBootstrapVisitor::new();
    e1.process_package("foo", &events).unwrap();
    e1.finish();
    let mut e2 = CreateBootstrapVisitor::new();
    e2.process_package("foo", &events).unwrap();
    e2.finish();

    assert_eq!(e1.status_doc(), e2.status_doc());
    assert_eq!(e1.symlinks_txt(), e2.symlinks_txt());
    assert_eq!(e1.entries().len(), e2.entries().len());
    for (a, b) in e1.entries().iter().zip(e2.entries().iter()) {
        match (a, b) {
            (
                ImageEntry::File { name: n1, data: d1 },
                ImageEntry::File { name: n2, data: d2 },
            ) => {
                assert_eq!(n1, n2);
                assert_eq!(d1, d2);
            }
            (ImageEntry::Dir { name: n1 }, ImageEntry::Dir { name: n2 }) => assert_eq!(n1, n2),
            _ => panic!("entry kinds differ between the two runs"),
        }
    }
}

#[test]
fn conffiles_become_a_per_package_entry() {
    let ct = gz(&control_tar(b"Package: foo\n", Some(b"/etc/foo.conf\n")));
    let dt = xz(&data_tar(&[], &[]));
    let bytes = deb(&[("control.tar.gz", &ct), ("data.tar.xz", &dt)]);
    let events = decode_deb(&bytes).unwrap();
    let mut engine = CreateBootstrapVisitor::new();
    engine.process_package("foo", &events).unwrap();
    assert_eq!(
        b"/etc/foo.conf\n".to_vec(),
        entry_data(engine.entries(), "var/lib/dpkg/info/foo.conffiles").unwrap().to_vec()
    );
}

#[test]
fn finish_appends_status_and_symlink_entries() {
    let mut engine = CreateBootstrapVisitor::new();
    let bytes = simple_deb("Package: a\n", &[], &[(&format!("{}b", PREFIX), "t")]);
    engine.process_package("a", &decode_deb(&bytes).unwrap()).unwrap();
    engine.finish();
    let status = engine.status_doc();
    assert_eq!(
        status.as_bytes().to_vec(),
        entry_data(engine.entries(), "var/lib/dpkg/status").unwrap().to_vec()
    );
    assert_eq!(
        "t\u{2190}b\n".as_bytes().to_vec(),
        entry_data(engine.entries(), "SYMLINKS.txt").unwrap().to_vec()
    );
}

#[test]
fn short_path_fails_loudly() {
    let bytes = simple_deb("Package: foo\n", &[("./short", b"x")], &[]);
    let events = decode_deb(&bytes).unwrap();
    let mut engine = CreateBootstrapVisitor::new();
    assert_eq!(
        DebError::ShortPath,
        engine.process_package("foo", &events).err().unwrap()
    );
}

#[test]
fn list_document_deduplicates_ancestors() {
    let bytes = simple_deb(
        "Package: foo\n",
        &[
            (&format!("{}a/b/c", PREFIX), b"1"),
            (&format!("{}a/b/d", PREFIX), b"2"),
            (&format!("{}a/e", PREFIX), b"3"),
        ],
        &[],
    );
    let events = decode_deb(&bytes).unwrap();
    let mut engine = CreateBootstrapVisitor::new();
    engine.process_package("foo", &events).unwrap();
    let list = String::from_utf8(
        entry_data(engine.entries(), "var/lib/dpkg/info/foo.list").unwrap().to_vec(),
    )
    .unwrap();
    let mut lines: Vec<&str> = list.lines().collect();
    let total = lines.len();
    lines.sort();
    lines.dedup();
    assert_eq!(total, lines.len());
    assert_eq!(vec!["/a", "/a/b", "/a/b/c", "/a/b/d", "/a/e"], lines);
}
