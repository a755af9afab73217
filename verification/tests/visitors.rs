use std::io::Write;

use termux_packaging::cmd_checkrepo::CheckRepoVisitor;
use termux_packaging::cmd_debinfo::field_lines;
use termux_packaging::cmd_notfound::CommandsNotFoundVisitor;
use termux_packaging::cmd_package_apk::{abi_name, remove_dashes, u32_to_string, CreateApkVisitor};
use termux_packaging::deb_file::visit_files;
use termux_packaging::errors::DebError;

const PREFIX: &str = "./data/data/com.termux/files/usr/";

fn gz(data: &[u8]) -> Vec<u8> {
    let mut e = libflate::gzip::Encoder::new(Vec::new()).unwrap();
    e.write_all(data).unwrap();
    e.finish().into_result().unwrap()
}

fn xz(data: &[u8]) -> Vec<u8> {
    lzma::compress(data, 6).unwrap()
}

fn raw_header(path: &str, kind: tar::EntryType, size: u64) -> tar::Header {
    let mut h = tar::Header::new_gnu();
    h.set_entry_type(kind);
    h.set_size(size);
    {
        let name = &mut h.as_old_mut().name;
        name[..path.len()].copy_from_slice(path.as_bytes());
    }
    h
}

fn control_tar(control_text: &[u8]) -> Vec<u8> {
    let mut b = tar::Builder::new(Vec::new());
    let mut h = raw_header("./control", tar::EntryType::Regular, control_text.len() as u64);
    h.set_cksum();
    b.append(&h, control_text).unwrap();
    b.into_inner().unwrap()
}

fn data_tar(
    files: &[(&str, &[u8])],
    symlinks: &[(&str, &str)],
    hardlinks: &[(&str, &str)],
) -> Vec<u8> {
    let mut b = tar::Builder::new(Vec::new());
    for (path, data) in files {
        let mut h = raw_header(path, tar::EntryType::Regular, data.len() as u64);
        h.set_cksum();
        b.append(&h, *data).unwrap();
    }
    for (path, target) in symlinks {
        let mut h = raw_header(path, tar::EntryType::Symlink, 0);
        h.set_link_name(target).unwrap();
        h.set_cksum();
        b.append(&h, &b""[..]).unwrap();
    }
    for (path, target) in hardlinks {
        let mut h = raw_header(path, tar::EntryType::Link, 0);
        h.set_link_name(target).unwrap();
        h.set_cksum();
        b.append(&h, &b""[..]).unwrap();
    }
    b.into_inner().unwrap()
}

fn deb(control_text: &str, data: Vec<u8>) -> Vec<u8> {
    let ct = gz(&control_tar(control_text.as_bytes()));
    let dt = xz(&data);
    let mut b = ar::Builder::new(Vec::new());
    for (name, bytes) in [("control.tar.gz", &ct), ("data.tar.xz", &dt)] {
        let h = ar::Header::new(name.as_bytes().to_vec(), bytes.len() as u64);
        b.append(&h, bytes.as_slice()).unwrap();
    }
    b.into_inner().unwrap()
}

#[test]
fn checkrepo_reports_duplicated_files() {
    let mut v = CheckRepoVisitor::new();
    let shared = format!("{}bin/tool", PREFIX);
    let one = deb("Package: one\n", data_tar(&[(&shared, b"a")], &[], &[]));
    let two = deb("Package: two\n", data_tar(&[(&shared, b"b")], &[], &[]));
    visit_files(&one, &mut v).unwrap();
    visit_files(&two, &mut v).unwrap();
    let expected = format!("Duplicated file {} in both two and one", shared);
    assert_eq!(vec![expected], *v.diagnostics());
}

#[test]
fn checkrepo_reports_hard_links() {
    let mut v = CheckRepoVisitor::new();
    let path = format!("{}bin/alias", PREFIX);
    let target = format!("{}bin/tool", PREFIX);
    let one = deb("Package: one\n", data_tar(&[], &[], &[(&path, &target)]));
    visit_files(&one, &mut v).unwrap();
    let expected = format!("Invalid link {} in package one", path);
    assert_eq!(vec![expected], *v.diagnostics());
}

#[test]
fn checkrepo_without_package_field_is_fatal() {
    let mut v = CheckRepoVisitor::new();
    let one = deb("Version: 1\n", data_tar(&[], &[], &[]));
    assert_eq!(DebError::MissingField, visit_files(&one, &mut v).err().unwrap());
}

#[test]
fn notfound_lists_commands_for_one_architecture() {
    let mut v = CommandsNotFoundVisitor::new();
    let d = deb(
        "Package: grep\nArchitecture: aarch64\n",
        data_tar(
            &[
                (&format!("{}bin/grep", PREFIX), b"x"),
                (&format!("{}bin/egrep", PREFIX), b"y"),
                (&format!("{}share/doc", PREFIX), b"z"),
            ],
            &[],
            &[],
        ),
    );
    visit_files(&d, &mut v).unwrap();
    assert_eq!(
        "\"grep\",\n\" grep\",\n\" egrep\",\n",
        v.arch_text("aarch64").unwrap()
    );
    assert_eq!("", v.arch_text("arm").unwrap());
    assert!(v.arch_text("mips").is_none());
}

#[test]
fn notfound_fans_all_architecture_out_and_strips_applets() {
    let mut v = CommandsNotFoundVisitor::new();
    let d = deb(
        "Package: busybox\nArchitecture: all\n",
        data_tar(&[(&format!("{}bin/applets/ls", PREFIX), b"x")], &[], &[]),
    );
    visit_files(&d, &mut v).unwrap();
    let expected = "\"busybox\",\n\" ls\",\n";
    for arch in ["arm", "aarch64", "i686", "x86_64"] {
        assert_eq!(expected, v.arch_text(arch).unwrap());
    }
}

#[test]
fn apk_visitor_numbers_files_and_records_symlinks() {
    let mut v = CreateApkVisitor::new("out/jniLibs/arm64-v8a".to_string(), 100);
    let d = deb(
        "Package: tool\n",
        data_tar(
            &[
                (&format!("{}lib/liba.so", PREFIX), b"aaa"),
                (&format!("{}bin/tool", PREFIX), b"bbb"),
            ],
            &[(&format!("{}bin/alias", PREFIX), "tool")],
            &[],
        ),
    );
    visit_files(&d, &mut v).unwrap();
    assert_eq!(
        "100.so\u{2190}lib/liba.so\n101.so\u{2190}bin/tool",
        v.file_mapping()
    );
    assert_eq!("tool\u{2190}bin/alias", v.symlinks());
    let files = v.output_files();
    assert_eq!(2, files.len());
    assert_eq!("out/jniLibs/arm64-v8a/100.so", files[0].0);
    assert_eq!(b"aaa".to_vec(), files[0].1);
    assert_eq!("out/jniLibs/arm64-v8a/101.so", files[1].0);
    assert_eq!(b"bbb".to_vec(), files[1].1);
}

#[test]
fn abi_name_maps_the_four_architectures() {
    assert_eq!(Some("armeabi-v7a"), abi_name("arm"));
    assert_eq!(Some("arm64-v8a"), abi_name("aarch64"));
    assert_eq!(Some("x86"), abi_name("i686"));
    assert_eq!(Some("x86_64"), abi_name("x86_64"));
    assert_eq!(None, abi_name("mips"));
}

#[test]
fn remove_dashes_builds_android_package_names() {
    assert_eq!("cacertificates", remove_dashes("ca-certificates"));
    assert_eq!("bash", remove_dashes("bash"));
}

#[test]
fn u32_to_string_writes_decimal() {
    assert_eq!("0", u32_to_string(0));
    assert_eq!("105", u32_to_string(105));
    assert_eq!("4294967295", u32_to_string(u32::MAX));
}

#[test]
fn field_lines_formats_each_pair() {
    let text = "Package: foo\nVersion: 1.0\n\n";
    let packages = termux_packaging::apt_repo::parse_packages(text).unwrap();
    let foo = packages.get("foo").unwrap();
    let lines = field_lines(&foo.fields);
    assert_eq!(vec!["Package: foo".to_string(), "Version: 1.0".to_string()], lines);
}

#[test]
fn error_descriptions_are_not_empty() {
    assert!(!DebError::Decompress.describe().is_empty());
    assert!(!DebError::ShortPath.describe().is_empty());
}
