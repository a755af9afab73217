//! The application packaging visitor: numbers each regular file into a
//! library-like name, records the mapping and the symlinks, and keeps the
//! file bytes for the packaging step.

use vstd::prelude::*;
use vstd::string::{StrSliceExecFns, StringExecFns};

use crate::chars::push_str_chars;
use crate::deb_file::{DebVisitor, EntryKind, EventV, FileEntry};
use crate::errors::DebError;
use crate::fields::FieldMap;

verus! {

/// The decimal digit character of `d`.
pub open spec fn spec_digit(d: int) -> char {
    if d == 0 {
        '0'
    } else if d == 1 {
        '1'
    } else if d == 2 {
        '2'
    } else if d == 3 {
        '3'
    } else if d == 4 {
        '4'
    } else if d == 5 {
        '5'
    } else if d == 6 {
        '6'
    } else if d == 7 {
        '7'
    } else if d == 8 {
        '8'
    } else {
        '9'
    }
}

/// The decimal digits of `n`, most significant first.
pub open spec fn spec_decimal(n: int) -> Seq<char>
    decreases n,
{
    if n < 10 {
        seq![spec_digit(n)]
    } else {
        spec_decimal(n / 10).push(spec_digit(n % 10))
    }
}

/// Writes `n` in decimal.
pub fn u32_to_string(n: u32) -> (r: String)
    ensures
        r@ == spec_decimal(n as int),
{
    let chars = u32_to_chars(n);
    crate::chars::chars_to_string(&chars)
}

/// The decimal digits of `n`, as characters.
pub fn u32_to_chars(n: u32) -> (r: Vec<char>)
    ensures
        r@ == spec_decimal(n as int),
    decreases n,
{
    let d = (n % 10) as usize;
    let c = digit_char(d);
    if n < 10 {
        let mut r: Vec<char> = Vec::new();
        r.push(c);
        proof {
            assert(r@ =~= spec_decimal(n as int));
        }
        r
    } else {
        let mut r = u32_to_chars(n / 10);
        r.push(c);
        proof {
            assert(r@ =~= spec_decimal(n as int));
        }
        r
    }
}

/// The character of one decimal digit.
fn digit_char(d: usize) -> (c: char)
    requires
        d < 10,
    ensures
        c == spec_digit(d as int),
{
    match d {
        0 => '0',
        1 => '1',
        2 => '2',
        3 => '3',
        4 => '4',
        5 => '5',
        6 => '6',
        7 => '7',
        8 => '8',
        _ => '9',
    }
}

/// The Android ABI directory name of a package architecture.
pub open spec fn spec_abi_name(arch: Seq<char>) -> Option<Seq<char>> {
    if arch == "arm"@ {
        Some("armeabi-v7a"@)
    } else if arch == "aarch64"@ {
        Some("arm64-v8a"@)
    } else if arch == "i686"@ {
        Some("x86"@)
    } else if arch == "x86_64"@ {
        Some("x86_64"@)
    } else {
        None
    }
}

/// The Android ABI directory name of a package architecture.
pub fn abi_name(arch: &str) -> (r: Option<&'static str>)
    ensures
        match r {
            Some(a) => spec_abi_name(arch@) == Some(a@),
            None => spec_abi_name(arch@) is None,
        },
{
    if crate::chars::str_eq(arch, "arm") {
        Some("armeabi-v7a")
    } else if crate::chars::str_eq(arch, "aarch64") {
        Some("arm64-v8a")
    } else if crate::chars::str_eq(arch, "i686") {
        Some("x86")
    } else if crate::chars::str_eq(arch, "x86_64") {
        Some("x86_64")
    } else {
        None
    }
}

/// The text with every dash removed, as an Android package name requires.
pub open spec fn spec_remove_dashes(s: Seq<char>) -> Seq<char>
    decreases s.len(),
{
    if s.len() == 0 {
        Seq::<char>::empty()
    } else {
        let head = if s[0] == '-' {
            Seq::<char>::empty()
        } else {
            seq![s[0]]
        };
        head + spec_remove_dashes(s.drop_first())
    }
}

/// Removes every dash from a name.
pub fn remove_dashes(s: &str) -> (r: String)
    ensures
        r@ == spec_remove_dashes(s@),
{
    let chars = crate::chars::str_to_chars(s);
    let mut out: Vec<char> = Vec::new();
    let mut i: usize = 0;
    proof {
        assert(chars@.skip(0) =~= chars@);
    }
    while i < chars.len()
        invariant
            i <= chars@.len(),
            chars@ == s@,
            out@ + spec_remove_dashes(s@.skip(i as int)) == spec_remove_dashes(s@),
        decreases chars@.len() - i,
    {
        let ghost rest = s@.skip(i as int);
        proof {
            assert(rest[0] == s@[i as int]);
            assert(rest.drop_first() =~= s@.skip(i + 1));
        }
        if chars[i] != '-' {
            out.push(chars[i]);
        }
        i = i + 1;
        proof {
            assert(out@ + spec_remove_dashes(s@.skip(i as int)) =~= spec_remove_dashes(s@));
        }
    }
    proof {
        assert(s@.skip(i as int) =~= Seq::<char>::empty());
        assert(out@ =~= spec_remove_dashes(s@));
    }
    crate::chars::chars_to_string(&out)
}

/// The packaging visitor's accumulated state.
#[verifier::ext_equal]
pub ghost struct ApkV {
    pub output_directory: Seq<char>,
    pub counter: int,
    pub file_mapping: Seq<char>,
    pub symlinks: Seq<char>,
    pub output_files: Seq<(Seq<char>, Seq<u8>)>,
}

/// A visitor that numbers regular files into library-like names.
pub struct CreateApkVisitor {
    output_directory: String,
    counter: u32,
    file_mapping: Vec<char>,
    symlinks: Vec<char>,
    output_files: Vec<(String, Vec<u8>)>,
}

impl View for CreateApkVisitor {
    type V = ApkV;

    closed spec fn view(&self) -> ApkV {
        ApkV {
            output_directory: self.output_directory@,
            counter: self.counter as int,
            file_mapping: self.file_mapping@,
            symlinks: self.symlinks@,
            output_files: Seq::new(
                self.output_files@.len(),
                |i: int| (self.output_files@[i].0@, self.output_files@[i].1@),
            ),
        }
    }
}

/// A mapping or symlink line is preceded by a newline unless the text is
/// still empty.
pub open spec fn spec_join_line(text: Seq<char>, line: Seq<char>) -> Seq<char> {
    if text.len() == 0 {
        line
    } else {
        text + "\n"@ + line
    }
}

/// The numbered library name of the next regular file.
pub open spec fn spec_so_name(counter: int) -> Seq<char> {
    spec_decimal(counter) + ".so"@
}

/// How one data entry changes the state: a regular file is stored under a
/// numbered name and recorded in the mapping, a symlink is recorded in the
/// symlink text, and any other entry is ignored.
pub open spec fn spec_apk_file(st: ApkV, entry: crate::deb_file::FileEntryV) -> Result<
    ApkV,
    DebError,
> {
    if entry.kind != EntryKind::Regular && entry.kind != EntryKind::Symlink {
        Ok(st)
    } else {
        match crate::cmd_bootstraps::spec_strip_prefix(entry.path) {
            None => Err(DebError::ShortPath),
            Some(rel) => {
                if entry.kind == EntryKind::Symlink {
                    Ok(
                        ApkV {
                            symlinks: spec_join_line(
                                st.symlinks,
                                entry.link + seq!['\u{2190}'] + rel,
                            ),
                            ..st
                        },
                    )
                } else if st.counter == u32::MAX {
                    Err(DebError::CounterOverflow)
                } else {
                    Ok(
                        ApkV {
                            counter: st.counter + 1,
                            file_mapping: spec_join_line(
                                st.file_mapping,
                                spec_so_name(st.counter) + seq!['\u{2190}'] + rel,
                            ),
                            output_files: st.output_files.push(
                                (
                                    st.output_directory + "/"@ + spec_so_name(st.counter),
                                    entry.data,
                                ),
                            ),
                            ..st
                        },
                    )
                }
            },
        }
    }
}

impl CreateApkVisitor {
    /// Creates a visitor writing under the given directory, numbering files
    /// from the given start.
    pub fn new(output_directory: String, counter: u32) -> (r: CreateApkVisitor)
        ensures
            r@ == (ApkV {
                output_directory: output_directory@,
                counter: counter as int,
                file_mapping: Seq::empty(),
                symlinks: Seq::empty(),
                output_files: Seq::empty(),
            }),
    {
        let r = CreateApkVisitor {
            output_directory,
            counter,
            file_mapping: Vec::new(),
            symlinks: Vec::new(),
            output_files: Vec::new(),
        };
        proof {
            assert(r@ =~~= (ApkV {
                output_directory: r.output_directory@,
                counter: r.counter as int,
                file_mapping: Seq::empty(),
                symlinks: Seq::empty(),
                output_files: Seq::empty(),
            }));
        }
        r
    }

    /// The recorded name mapping text.
    pub fn file_mapping(&self) -> (r: String)
        ensures
            r@ == self@.file_mapping,
    {
        crate::chars::chars_to_string(&self.file_mapping)
    }

    /// The recorded symlink text.
    pub fn symlinks(&self) -> (r: String)
        ensures
            r@ == self@.symlinks,
    {
        crate::chars::chars_to_string(&self.symlinks)
    }

    /// The stored files, each with its full output name.
    pub fn output_files(&self) -> (r: &Vec<(String, Vec<u8>)>)
        ensures
            r@.len() == self@.output_files.len(),
            forall|i: int|
                0 <= i < r@.len() ==> ((#[trigger] r@[i]).0@, r@[i].1@) == self@.output_files[i],
    {
        &self.output_files
    }
}

impl DebVisitor for CreateApkVisitor {
    type StateV = ApkV;

    open spec fn vstate(&self) -> ApkV {
        self@
    }

    open spec fn vstep(st: ApkV, ev: EventV) -> Result<ApkV, DebError> {
        match ev {
            EventV::File { entry } => spec_apk_file(st, entry),
            _ => Ok(st),
        }
    }

    /// The packaging visitor ignores control mappings.
    fn visit_control(&mut self, fields: &FieldMap) -> (r: Result<(), DebError>)
        ensures
            r is Ok,
            *final(self) == *old(self),
    {
        Ok(())
    }

    /// The packaging visitor ignores conffiles listings.
    fn visit_conffiles(&mut self, data: &Vec<u8>) -> (r: Result<(), DebError>)
        ensures
            r is Ok,
            *final(self) == *old(self),
    {
        Ok(())
    }

    /// Stores a regular file under a numbered name and records symlinks.
    fn visit_file(&mut self, entry: &FileEntry) -> (r: Result<(), DebError>)
        ensures
            match spec_apk_file(old(self)@, entry@) {
                Ok(v) => r is Ok && final(self)@ == v,
                Err(e) => r == Err::<(), DebError>(e) && *final(self) == *old(self),
            },
    {
        let is_regular = matches!(entry.kind, EntryKind::Regular);
        let is_symlink = matches!(entry.kind, EntryKind::Symlink);
        if !is_regular && !is_symlink {
            return Ok(());
        }
        let prefix = "./data/data/com.termux/files/usr/";
        let plen = prefix.unicode_len();
        let path_len = entry.path.as_str().unicode_len();
        if path_len < plen {
            return Err(DebError::ShortPath);
        }
        let rel = entry.path.as_str().substring_char(plen, path_len).to_owned();
        proof {
            assert(rel@ =~~= crate::cmd_bootstraps::spec_strip_prefix(entry@.path)->0);
        }
        if is_symlink {
            if self.symlinks.len() > 0 {
                push_str_chars(&mut self.symlinks, "\n");
            }
            push_str_chars(&mut self.symlinks, entry.link_target.as_str());
            self.symlinks.push('\u{2190}');
            push_str_chars(&mut self.symlinks, rel.as_str());
            proof {
                assert(self@.symlinks =~~= spec_join_line(
                    old(self)@.symlinks,
                    entry@.link + seq!['\u{2190}'] + rel@,
                ));
                assert(self@ =~~= spec_apk_file(old(self)@, entry@)->Ok_0);
            }
            return Ok(());
        }
        if self.counter == u32::MAX {
            return Err(DebError::CounterOverflow);
        }
        let so = u32_to_string(self.counter).concat(".so");
        if self.file_mapping.len() > 0 {
            push_str_chars(&mut self.file_mapping, "\n");
        }
        push_str_chars(&mut self.file_mapping, so.as_str());
        self.file_mapping.push('\u{2190}');
        push_str_chars(&mut self.file_mapping, rel.as_str());
        let full = self.output_directory.clone().concat("/").concat(so.as_str());
        self.output_files.push((full, entry.data.clone()));
        self.counter = self.counter + 1;
        proof {
            assert(self@.file_mapping =~~= spec_join_line(
                old(self)@.file_mapping,
                spec_so_name(old(self)@.counter) + seq!['\u{2190}'] + rel@,
            ));
            assert(self@.output_files =~~= old(self)@.output_files.push(
                (
                    old(self)@.output_directory + "/"@ + spec_so_name(old(self)@.counter),
                    entry@.data,
                ),
            ));
            assert(self@ =~~= spec_apk_file(old(self)@, entry@)->Ok_0);
        }
        Ok(())
    }
}

} // verus!
