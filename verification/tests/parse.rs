use termux_packaging::apt_repo::{packages_index_url, parse_packages};
use termux_packaging::errors::DebError;

#[test]
fn test_parse_packages() {
    let packages_str = "Package: aapt
Architecture: aarch64
Installed-Size: 2772
Maintainer: Fredrik Fornwall @fornwall
Version: 7.1.2.33-2
Description: Android Asset Packaging Tool
Homepage: http://elinux.org/Android_aapt
Depends: libexpat, libpng, libzopfli
Filename: dists/stable/main/binary-aarch64/aapt_7.1.2.33-2_aarch64.deb
Size: 1750040
SHA256: a149c1783e06784584a57ccf73a7f27a179367e602a9dc21d95f6adb65809af2

Package: abduco
Architecture: aarch64
Installed-Size: 68
Maintainer: Fredrik Fornwall <fredrik@fornwall.net>
Version: 0.6
Description: Clean and simple terminal session manager
Homepage: http://www.brain-dump.org/projects/abduco/
Depends: libutil,dvtm
Filename: dists/stable/main/binary-aarch64/abduco_0.6_aarch64.deb
Size: 8964
SHA256: 1adc99a0257cec154bdc89a1c6974ecc373b6bd4018e5851d15d28e7cdf57ad3";
    let packages = parse_packages(packages_str).unwrap();

    let aapt_package = packages.get("aapt").unwrap();
    assert_eq!("aapt", aapt_package.fields.get("Package").unwrap());
    assert_eq!("2772", aapt_package.fields.get("Installed-Size").unwrap());

    let abduco_package = packages.get("abduco").unwrap();
    assert_eq!("abduco", abduco_package.fields.get("Package").unwrap());
    assert_eq!("68", abduco_package.fields.get("Installed-Size").unwrap());
}

#[test]
fn parse_packages_trims_values_and_drops_continuations() {
    let text = "Package: tool\nInstalled-Size:   42  \nDescription: a tool\n more words here\n";
    let packages = parse_packages(text).unwrap();
    let tool = packages.get("tool").unwrap();
    assert_eq!("42", tool.fields.get("Installed-Size").unwrap());
    assert_eq!("a tool", tool.fields.get("Description").unwrap());
    assert!(tool.fields.get(" more words here").is_none());
}

#[test]
fn parse_packages_line_without_separator_is_fatal() {
    let r = parse_packages("Package: x\nnonsense line\n");
    assert_eq!(r.err().unwrap(), DebError::MalformedLine);
}

#[test]
fn parse_packages_block_without_name_is_fatal() {
    let r = parse_packages("Version: 1.0\n\n");
    assert_eq!(r.err().unwrap(), DebError::MissingField);
}

#[test]
fn parse_packages_empty_text_is_empty_index() {
    let packages = parse_packages("").unwrap();
    assert_eq!(0, packages.len());
}

#[test]
fn parse_packages_repeated_field_keeps_last_value() {
    let packages = parse_packages("Package: x\nVersion: 1\nVersion: 2\n").unwrap();
    let x = packages.get("x").unwrap();
    assert_eq!("2", x.fields.get("Version").unwrap());
    assert_eq!(2, x.fields.len());
}

#[test]
fn package_url_appends_filename_to_base() {
    let packages = parse_packages("Package: aapt\nFilename: pool/aapt.deb\n").unwrap();
    let url = packages.get("aapt").unwrap().package_url();
    assert_eq!(
        "https://dl.bintray.com/termux/termux-packages-24/pool/aapt.deb",
        url
    );
}

#[test]
fn packages_index_url_names_the_architecture() {
    assert_eq!(
        "https://dl.bintray.com/termux/termux-packages-24/dists/stable/main/binary-aarch64/Packages",
        packages_index_url("aarch64")
    );
}
