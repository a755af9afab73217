//! The repository consistency checker: a visitor that records which package
//! owns each file and reports hard links and duplicated files.

use vstd::prelude::*;
use vstd::string::StringExecFns;

use crate::deb_file::{DebVisitor, EntryKind, EventV, FileEntry};
use crate::errors::DebError;
use crate::fields::{FieldMap, spec_get, spec_insert};

verus! {

/// The checker's accumulated state.
#[verifier::ext_equal]
pub ghost struct CheckRepoV {
    pub current: Seq<char>,
    pub files: Seq<(Seq<char>, Seq<char>)>,
    pub diagnostics: Seq<Seq<char>>,
}

/// A visitor that maps every file path to the package that carries it.
pub struct CheckRepoVisitor {
    current_package_name: String,
    files_to_package: FieldMap,
    diagnostics: Vec<String>,
}

impl View for CheckRepoVisitor {
    type V = CheckRepoV;

    closed spec fn view(&self) -> CheckRepoV {
        CheckRepoV {
            current: self.current_package_name@,
            files: self.files_to_package@,
            diagnostics: Seq::new(self.diagnostics@.len(), |i: int| self.diagnostics@[i]@),
        }
    }
}

/// The diagnostic for a hard link.
pub open spec fn spec_link_diag(path: Seq<char>, pkg: Seq<char>) -> Seq<char> {
    "Invalid link "@ + path + " in package "@ + pkg
}

/// The diagnostic for a file carried by two packages.
pub open spec fn spec_dup_diag(path: Seq<char>, pkg: Seq<char>, existing: Seq<char>) -> Seq<char> {
    "Duplicated file "@ + path + " in both "@ + pkg + " and "@ + existing
}

/// How one data entry changes the checker's state.
pub open spec fn spec_check_file(st: CheckRepoV, path: Seq<char>, kind: EntryKind) -> CheckRepoV {
    if kind == EntryKind::HardLink {
        CheckRepoV { diagnostics: st.diagnostics.push(spec_link_diag(path, st.current)), ..st }
    } else if kind == EntryKind::Regular || kind == EntryKind::Symlink {
        match spec_get(st.files, path) {
            None => (CheckRepoV { files: spec_insert(st.files, path, st.current), ..st }),
            Some(existing) => (CheckRepoV {
                files: spec_insert(st.files, path, st.current),
                diagnostics: st.diagnostics.push(spec_dup_diag(path, st.current, existing)),
                ..st
            }),
        }
    } else {
        st
    }
}

impl CheckRepoVisitor {
    /// Creates a checker with no package seen yet.
    pub fn new() -> (r: CheckRepoVisitor)
        ensures
            r@ == (CheckRepoV { current: Seq::empty(), files: Seq::empty(), diagnostics: Seq::empty() }),
    {
        let r = CheckRepoVisitor {
            current_package_name: String::new(),
            files_to_package: FieldMap::new(),
            diagnostics: Vec::new(),
        };
        proof {
            assert(r@ =~~= (CheckRepoV {
                current: Seq::empty(),
                files: Seq::empty(),
                diagnostics: Seq::empty(),
            }));
        }
        r
    }

    /// The diagnostics recorded so far.
    pub fn diagnostics(&self) -> (r: &Vec<String>)
        ensures
            r@.len() == self@.diagnostics.len(),
            forall|i: int| 0 <= i < r@.len() ==> (#[trigger] r@[i])@ == self@.diagnostics[i],
    {
        &self.diagnostics
    }
}

impl DebVisitor for CheckRepoVisitor {
    type StateV = CheckRepoV;

    open spec fn vstate(&self) -> CheckRepoV {
        self@
    }

    open spec fn vstep(st: CheckRepoV, ev: EventV) -> Result<CheckRepoV, DebError> {
        match ev {
            EventV::Control { fields } => match spec_get(fields, "Package"@) {
                None => Err(DebError::MissingField),
                Some(name) => Ok(CheckRepoV { current: name, ..st }),
            },
            EventV::Conffiles { data } => Ok(st),
            EventV::File { entry } => Ok(spec_check_file(st, entry.path, entry.kind)),
        }
    }

    /// Remembers the decoded package's name.
    fn visit_control(&mut self, fields: &FieldMap) -> (r: Result<(), DebError>)
        ensures
            match spec_get(fields@, "Package"@) {
                Some(name) => r is Ok && final(self)@ == (CheckRepoV {
                    current: name,
                    ..old(self)@
                }),
                None => r == Err::<(), DebError>(DebError::MissingField) && *final(self) == *old(
                    self,
                ),
            },
    {
        match fields.get("Package") {
            None => Err(DebError::MissingField),
            Some(name) => {
                self.current_package_name = name.clone();
                proof {
                    assert(self@ =~~= (CheckRepoV {
                        current: spec_get(fields@, "Package"@)->0,
                        ..old(self)@
                    }));
                }
                Ok(())
            },
        }
    }

    /// The checker ignores conffiles listings.
    fn visit_conffiles(&mut self, data: &Vec<u8>) -> (r: Result<(), DebError>)
        ensures
            r is Ok,
            *final(self) == *old(self),
    {
        Ok(())
    }

    /// Records which package carries the entry's path, reporting hard links
    /// and paths already carried by another package.
    fn visit_file(&mut self, entry: &FileEntry) -> (r: Result<(), DebError>)
        ensures
            r is Ok,
            final(self)@ == spec_check_file(old(self)@, entry@.path, entry@.kind),
    {
        if matches!(entry.kind, EntryKind::HardLink) {
            let line = String::from_str("Invalid link ").concat(entry.path.as_str()).concat(
                " in package ",
            ).concat(self.current_package_name.as_str());
            self.diagnostics.push(line);
            proof {
                assert(self@ =~~= spec_check_file(old(self)@, entry@.path, entry@.kind));
            }
            return Ok(());
        }
        if !matches!(entry.kind, EntryKind::Regular) && !matches!(entry.kind, EntryKind::Symlink) {
            return Ok(());
        }
        match self.files_to_package.get(entry.path.as_str()) {
            None => {},
            Some(existing) => {
                let line = String::from_str("Duplicated file ").concat(entry.path.as_str())
                    .concat(" in both ").concat(self.current_package_name.as_str()).concat(
                    " and ",
                ).concat(existing.as_str());
                self.diagnostics.push(line);
            },
        }
        let pkg = self.current_package_name.clone();
        self.files_to_package.insert(entry.path.clone(), pkg);
        proof {
            assert(self@ =~~= spec_check_file(old(self)@, entry@.path, entry@.kind));
        }
        Ok(())
    }
}

} // verus!
