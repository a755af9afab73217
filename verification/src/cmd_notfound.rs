//! The command-not-found index builder: a visitor that collects, per
//! architecture, the commands each package installs under the fixed binary
//! directory.

use vstd::prelude::*;
use vstd::string::{StrSliceExecFns, StringExecFns};

use crate::chars::{push_str_chars, spec_starts_with, str_starts_with};
use crate::deb_file::{DebVisitor, EntryKind, EventV, FileEntry};
use crate::errors::DebError;
use crate::fields::{FieldMap, spec_get};

verus! {

/// The per-architecture header texts and the package being visited.
#[verifier::ext_equal]
pub ghost struct NotFoundV {
    pub current_arch: Seq<char>,
    pub current_package: Seq<char>,
    pub first_file: bool,
    pub arm: Seq<char>,
    pub aarch64: Seq<char>,
    pub i686: Seq<char>,
    pub x86_64: Seq<char>,
}

/// A visitor that accumulates one command-listing header per architecture.
pub struct CommandsNotFoundVisitor {
    current_arch: String,
    current_package: String,
    first_file: bool,
    out_arm: Vec<char>,
    out_aarch64: Vec<char>,
    out_i686: Vec<char>,
    out_x86_64: Vec<char>,
}

impl View for CommandsNotFoundVisitor {
    type V = NotFoundV;

    closed spec fn view(&self) -> NotFoundV {
        NotFoundV {
            current_arch: self.current_arch@,
            current_package: self.current_package@,
            first_file: self.first_file,
            arm: self.out_arm@,
            aarch64: self.out_aarch64@,
            i686: self.out_i686@,
            x86_64: self.out_x86_64@,
        }
    }
}

/// A line appended to the texts the current architecture selects: to all
/// four for the `all` architecture, else to the matching one alone.
pub open spec fn spec_write_arch_line(st: NotFoundV, line: Seq<char>) -> Result<
    NotFoundV,
    DebError,
> {
    if st.current_arch == "all"@ {
        Ok(
            NotFoundV {
                arm: st.arm + line,
                aarch64: st.aarch64 + line,
                i686: st.i686 + line,
                x86_64: st.x86_64 + line,
                ..st
            },
        )
    } else if st.current_arch == "arm"@ {
        Ok(NotFoundV { arm: st.arm + line, ..st })
    } else if st.current_arch == "aarch64"@ {
        Ok(NotFoundV { aarch64: st.aarch64 + line, ..st })
    } else if st.current_arch == "i686"@ {
        Ok(NotFoundV { i686: st.i686 + line, ..st })
    } else if st.current_arch == "x86_64"@ {
        Ok(NotFoundV { x86_64: st.x86_64 + line, ..st })
    } else {
        Err(DebError::MissingField)
    }
}

/// The binary directory every listed command lives under.
pub open spec fn bin_prefix() -> Seq<char> {
    "./data/data/com.termux/files/usr/bin/"@
}

/// The command name of a path under the binary directory, with a leading
/// `applets/` directory removed.
pub open spec fn spec_command_name(rest: Seq<char>) -> Seq<char> {
    if spec_starts_with(rest, "applets/"@) {
        rest.skip("applets/"@.len() as int)
    } else {
        rest
    }
}

/// The header line naming a package.
pub open spec fn spec_package_line(pkg: Seq<char>) -> Seq<char> {
    "\""@ + pkg + "\",\n"@
}

/// The header line naming one command of a package.
pub open spec fn spec_command_line(name: Seq<char>) -> Seq<char> {
    "\" "@ + name + "\",\n"@
}

/// How one data entry changes the state: an entry under the binary
/// directory adds the package line once, then its command line.
pub open spec fn spec_notfound_file(st: NotFoundV, path: Seq<char>, kind: EntryKind) -> Result<
    NotFoundV,
    DebError,
> {
    if kind != EntryKind::Regular && kind != EntryKind::Symlink {
        Ok(st)
    } else if !spec_starts_with(path, bin_prefix()) {
        Ok(st)
    } else {
        let rest = path.skip(bin_prefix().len() as int);
        let st1 = if st.first_file {
            spec_write_arch_line(
                NotFoundV { first_file: false, ..st },
                spec_package_line(st.current_package),
            )
        } else {
            Ok(st)
        };
        match st1 {
            Err(e) => Err(e),
            Ok(s1) => spec_write_arch_line(s1, spec_command_line(spec_command_name(rest))),
        }
    }
}

impl CommandsNotFoundVisitor {
    /// Creates a visitor with four empty header texts.
    pub fn new() -> (r: CommandsNotFoundVisitor)
        ensures
            r@ == (NotFoundV {
                current_arch: "arm"@,
                current_package: Seq::empty(),
                first_file: true,
                arm: Seq::empty(),
                aarch64: Seq::empty(),
                i686: Seq::empty(),
                x86_64: Seq::empty(),
            }),
    {
        let r = CommandsNotFoundVisitor {
            current_arch: String::from_str("arm"),
            current_package: String::new(),
            first_file: true,
            out_arm: Vec::new(),
            out_aarch64: Vec::new(),
            out_i686: Vec::new(),
            out_x86_64: Vec::new(),
        };
        proof {
            assert(r@ =~~= (NotFoundV {
                current_arch: "arm"@,
                current_package: Seq::empty(),
                first_file: true,
                arm: Seq::empty(),
                aarch64: Seq::empty(),
                i686: Seq::empty(),
                x86_64: Seq::empty(),
            }));
        }
        r
    }

    /// The accumulated header text of one architecture, by name.
    pub fn arch_text(&self, arch: &str) -> (r: Option<String>)
        ensures
            match r {
                Some(t) => {
                    ||| arch@ == "arm"@ && t@ == self@.arm
                    ||| arch@ == "aarch64"@ && t@ == self@.aarch64
                    ||| arch@ == "i686"@ && t@ == self@.i686
                    ||| arch@ == "x86_64"@ && t@ == self@.x86_64
                },
                None => arch@ != "arm"@ && arch@ != "aarch64"@ && arch@ != "i686"@ && arch@
                    != "x86_64"@,
            },
    {
        if crate::chars::str_eq(arch, "arm") {
            Some(crate::chars::chars_to_string(&self.out_arm))
        } else if crate::chars::str_eq(arch, "aarch64") {
            Some(crate::chars::chars_to_string(&self.out_aarch64))
        } else if crate::chars::str_eq(arch, "i686") {
            Some(crate::chars::chars_to_string(&self.out_i686))
        } else if crate::chars::str_eq(arch, "x86_64") {
            Some(crate::chars::chars_to_string(&self.out_x86_64))
        } else {
            None
        }
    }

    /// Appends a line to the texts the current architecture selects.
    fn write_arch_line(&mut self, line: &str) -> (r: Result<(), DebError>)
        ensures
            match spec_write_arch_line(old(self)@, line@) {
                Ok(v) => r is Ok && final(self)@ == v,
                Err(e) => r == Err::<(), DebError>(e) && *final(self) == *old(self),
            },
    {
        if crate::chars::str_eq(self.current_arch.as_str(), "all") {
            push_str_chars(&mut self.out_arm, line);
            push_str_chars(&mut self.out_aarch64, line);
            push_str_chars(&mut self.out_i686, line);
            push_str_chars(&mut self.out_x86_64, line);
            proof {
                assert(Ok::<NotFoundV, DebError>(self@) =~~= spec_write_arch_line(
                    old(self)@,
                    line@,
                ));
            }
            Ok(())
        } else if crate::chars::str_eq(self.current_arch.as_str(), "arm") {
            push_str_chars(&mut self.out_arm, line);
            proof {
                assert(self@ =~~= spec_write_arch_line(old(self)@, line@)->Ok_0);
            }
            Ok(())
        } else if crate::chars::str_eq(self.current_arch.as_str(), "aarch64") {
            push_str_chars(&mut self.out_aarch64, line);
            proof {
                assert(self@ =~~= spec_write_arch_line(old(self)@, line@)->Ok_0);
            }
            Ok(())
        } else if crate::chars::str_eq(self.current_arch.as_str(), "i686") {
            push_str_chars(&mut self.out_i686, line);
            proof {
                assert(self@ =~~= spec_write_arch_line(old(self)@, line@)->Ok_0);
            }
            Ok(())
        } else if crate::chars::str_eq(self.current_arch.as_str(), "x86_64") {
            push_str_chars(&mut self.out_x86_64, line);
            proof {
                assert(self@ =~~= spec_write_arch_line(old(self)@, line@)->Ok_0);
            }
            Ok(())
        } else {
            Err(DebError::MissingField)
        }
    }
}

impl DebVisitor for CommandsNotFoundVisitor {
    type StateV = NotFoundV;

    open spec fn vstate(&self) -> NotFoundV {
        self@
    }

    open spec fn vstep(st: NotFoundV, ev: EventV) -> Result<NotFoundV, DebError> {
        match ev {
            EventV::Control { fields } => match (
                spec_get(fields, "Architecture"@),
                spec_get(fields, "Package"@),
            ) {
                (Some(arch), Some(pkg)) => Ok(
                    NotFoundV {
                        current_arch: arch,
                        current_package: pkg,
                        first_file: true,
                        ..st
                    },
                ),
                _ => Err(DebError::MissingField),
            },
            EventV::Conffiles { data } => Ok(st),
            EventV::File { entry } => spec_notfound_file(st, entry.path, entry.kind),
        }
    }

    /// Remembers the package's name and architecture and starts a new
    /// package block.
    fn visit_control(&mut self, fields: &FieldMap) -> (r: Result<(), DebError>)
        ensures
            match (spec_get(fields@, "Architecture"@), spec_get(fields@, "Package"@)) {
                (Some(arch), Some(pkg)) => r is Ok && final(self)@ == (NotFoundV {
                    current_arch: arch,
                    current_package: pkg,
                    first_file: true,
                    ..old(self)@
                }),
                _ => r == Err::<(), DebError>(DebError::MissingField) && *final(self) == *old(
                    self,
                ),
            },
    {
        let arch = match fields.get("Architecture") {
            Some(a) => a.clone(),
            None => {
                return Err(DebError::MissingField);
            },
        };
        let pkg = match fields.get("Package") {
            Some(p) => p.clone(),
            None => {
                return Err(DebError::MissingField);
            },
        };
        self.current_arch = arch;
        self.current_package = pkg;
        self.first_file = true;
        proof {
            assert(self@ =~~= (NotFoundV {
                current_arch: spec_get(fields@, "Architecture"@)->0,
                current_package: spec_get(fields@, "Package"@)->0,
                first_file: true,
                ..old(self)@
            }));
        }
        Ok(())
    }

    /// The index builder ignores conffiles listings.
    fn visit_conffiles(&mut self, data: &Vec<u8>) -> (r: Result<(), DebError>)
        ensures
            r is Ok,
            *final(self) == *old(self),
    {
        Ok(())
    }

    /// Lists the command a binary-directory entry installs, preceded by its
    /// package's line the first time.
    fn visit_file(&mut self, entry: &FileEntry) -> (r: Result<(), DebError>)
        ensures
            match spec_notfound_file(old(self)@, entry@.path, entry@.kind) {
                Ok(v) => r is Ok && final(self)@ == v,
                Err(e) => r is Err && r->Err_0 == e,
            },
    {
        let is_regular = matches!(entry.kind, EntryKind::Regular);
        let is_symlink = matches!(entry.kind, EntryKind::Symlink);
        if !is_regular && !is_symlink {
            return Ok(());
        }
        let prefix = "./data/data/com.termux/files/usr/bin/";
        if !str_starts_with(entry.path.as_str(), prefix) {
            return Ok(());
        }
        let plen = prefix.unicode_len();
        let path_len = entry.path.as_str().unicode_len();
        let rest = entry.path.as_str().substring_char(plen, path_len).to_owned();
        proof {
            assert(rest@ =~~= entry@.path.skip(bin_prefix().len() as int));
        }
        if self.first_file {
            self.first_file = false;
            let line = String::from_str("\"").concat(self.current_package.as_str()).concat(
                "\",\n",
            );
            proof {
                assert(line@ =~~= spec_package_line(self@.current_package));
            }
            match self.write_arch_line(line.as_str()) {
                Ok(()) => {},
                Err(e) => {
                    return Err(e);
                },
            }
        }
        let applets = "applets/";
        let name = if str_starts_with(rest.as_str(), applets) {
            let alen = applets.unicode_len();
            let rlen = rest.as_str().unicode_len();
            rest.as_str().substring_char(alen, rlen).to_owned()
        } else {
            rest
        };
        proof {
            assert(name@ =~~= spec_command_name(entry@.path.skip(bin_prefix().len() as int)));
        }
        let line = String::from_str("\" ").concat(name.as_str()).concat("\",\n");
        proof {
            assert(line@ =~~= spec_command_line(name@));
        }
        match self.write_arch_line(line.as_str()) {
            Ok(()) => Ok(()),
            Err(e) => Err(e),
        }
    }
}

} // verus!
