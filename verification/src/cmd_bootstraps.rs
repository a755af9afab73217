//! The bootstrap assembly engine: a visitor that accumulates, package by
//! package, the output image entries, the status document, the symlink
//! registry, the per-package digest list and the conffiles buffer.

use vstd::prelude::*;
use vstd::string::{StrSliceExecFns, StringExecFns};
use vstd::utf8::encode_utf8;

use crate::chars::{push_str_chars, str_eq, str_to_chars};
use crate::deb_file::{DebEvent, DebVisitor, EntryKind, EventV, FileEntry, events_view};
use crate::errors::DebError;
use crate::fields::FieldMap;

verus! {

/// One entry of the output image: a directory, or a file with its contents.
pub enum ImageEntry {
    Dir { name: String },
    File { name: String, data: Vec<u8> },
}

/// The mathematical image of an output image entry.
#[verifier::ext_equal]
pub ghost struct ImageEntryV {
    pub is_dir: bool,
    pub name: Seq<char>,
    pub data: Seq<u8>,
}

impl View for ImageEntry {
    type V = ImageEntryV;

    open spec fn view(&self) -> ImageEntryV {
        match self {
            ImageEntry::Dir { name } => (ImageEntryV { is_dir: true, name: name@, data: seq![] }),
            ImageEntry::File { name, data } => (ImageEntryV {
                is_dir: false,
                name: name@,
                data: data@,
            }),
        }
    }
}

/// The accumulated state of one architecture's assembly run.
#[verifier::ext_equal]
pub ghost struct BootstrapV {
    pub entries: Seq<ImageEntryV>,
    pub status: Seq<char>,
    pub symlinks: Seq<char>,
    pub conffiles: Seq<u8>,
    pub digests: Seq<char>,
    pub visited: Seq<Seq<char>>,
}

/// What the MD5 digest of a byte sequence prints as, in lower-case
/// hexadecimal.
pub uninterp spec fn md5_hex_of(data: Seq<u8>) -> Seq<char>;

/// Relies on `md5::compute` and the `LowerHex` form of its digest: the
/// digest depends on the bytes alone and prints as 32 hexadecimal digits.
#[verifier::external_body]
fn md5_hex(data: &Vec<u8>) -> (r: String)
    ensures
        r@ == md5_hex_of(data@),
        r@.len() == 32,
{
    format!("{:x}", md5::compute(data.as_slice()))
}

/// The index-only fields never republished into the status document.
pub open spec fn reserved_key(k: Seq<char>) -> bool {
    ||| k == "Filename"@
    ||| k == "MD5Sum"@
    ||| k == "SHA1"@
    ||| k == "SHA256"@
    ||| k == "Size"@
}

/// Tests whether a field is reserved to the package index.
pub fn is_reserved_key(k: &str) -> (r: bool)
    ensures
        r == reserved_key(k@),
{
    str_eq(k, "Filename") || str_eq(k, "MD5Sum") || str_eq(k, "SHA1") || str_eq(k, "SHA256")
        || str_eq(k, "Size")
}

/// One status document field line.
pub open spec fn spec_field_line(k: Seq<char>, v: Seq<char>) -> Seq<char> {
    k + ": "@ + v + "\n"@
}

/// The line closing every status block.
pub open spec fn status_line() -> Seq<char> {
    "Status: install ok installed"@
}

/// The non-reserved field lines of a block, in field order.
pub open spec fn spec_emitted_fields(fields: Seq<(Seq<char>, Seq<char>)>) -> Seq<char>
    decreases fields.len(),
{
    if fields.len() == 0 {
        Seq::<char>::empty()
    } else {
        let head = if reserved_key(fields[0].0) {
            Seq::<char>::empty()
        } else {
            spec_field_line(fields[0].0, fields[0].1)
        };
        head + spec_emitted_fields(fields.drop_first())
    }
}

/// One whole status block: the non-reserved field lines, the closing status
/// line, and a blank separator line.
pub open spec fn spec_status_block(fields: Seq<(Seq<char>, Seq<char>)>) -> Seq<char> {
    spec_emitted_fields(fields) + status_line() + "\n"@ + "\n"@
}

/// The fixed virtual install prefix of every data member path.
pub open spec fn install_prefix() -> Seq<char> {
    "./data/data/com.termux/files/usr/"@
}

/// The path with the install prefix stripped, or nothing if the path is
/// shorter than the prefix.
pub open spec fn spec_strip_prefix(p: Seq<char>) -> Option<Seq<char>> {
    if p.len() >= install_prefix().len() {
        Some(p.skip(install_prefix().len() as int))
    } else {
        None
    }
}

/// One digest document line.
pub open spec fn spec_md5_line(data: Seq<u8>, rel: Seq<char>) -> Seq<char> {
    md5_hex_of(data) + "  "@ + rel + "\n"@
}

/// One symlink registry line.
pub open spec fn spec_symlink_line(link: Seq<char>, rel: Seq<char>) -> Seq<char> {
    link + seq!['\u{2190}'] + rel + "\n"@
}

/// How one decoder event changes the accumulated state.
pub open spec fn spec_step(st: BootstrapV, ev: EventV) -> Result<BootstrapV, DebError> {
    match ev {
        EventV::Control { fields } => Ok(
            BootstrapV { status: st.status + spec_status_block(fields), ..st },
        ),
        EventV::Conffiles { data } => Ok(BootstrapV { conffiles: st.conffiles + data, ..st }),
        EventV::File { entry } => {
            if entry.kind == EntryKind::Regular {
                match spec_strip_prefix(entry.path) {
                    None => Err(DebError::ShortPath),
                    Some(rel) => Ok(
                        BootstrapV {
                            entries: st.entries.push(
                                ImageEntryV { is_dir: false, name: rel, data: entry.data },
                            ),
                            digests: st.digests + spec_md5_line(entry.data, rel),
                            visited: st.visited.push(rel),
                            ..st
                        },
                    ),
                }
            } else if entry.kind == EntryKind::Symlink {
                match spec_strip_prefix(entry.path) {
                    None => Err(DebError::ShortPath),
                    Some(rel) => Ok(
                        BootstrapV {
                            symlinks: st.symlinks + spec_symlink_line(entry.link, rel),
                            visited: st.visited.push(rel),
                            ..st
                        },
                    ),
                }
            } else {
                Ok(st)
            }
        },
    }
}

/// The state after a sequence of events.
pub open spec fn spec_run(st: BootstrapV, evs: Seq<EventV>) -> Result<BootstrapV, DebError>
    decreases evs.len(),
{
    if evs.len() == 0 {
        Ok(st)
    } else {
        match spec_step(st, evs[0]) {
            Err(e) => Err(e),
            Ok(st2) => spec_run(st2, evs.drop_first()),
        }
    }
}

/// Appends `x` unless it is already listed.
pub open spec fn push_if_absent(acc: Seq<Seq<char>>, x: Seq<char>) -> Seq<Seq<char>> {
    if acc.contains(x) {
        acc
    } else {
        acc.push(x)
    }
}

/// Adds every proper ancestor directory of `p` that a slash before
/// position `n` implies, shallowest first.
pub open spec fn spec_add_prefixes(acc: Seq<Seq<char>>, p: Seq<char>, n: int) -> Seq<Seq<char>>
    decreases n,
{
    if n <= 0 {
        acc
    } else {
        let a2 = spec_add_prefixes(acc, p, n - 1);
        if p[n - 1] == '/' {
            push_if_absent(a2, p.take(n - 1))
        } else {
            a2
        }
    }
}

/// Adds a path to the listing: its ancestor directories first, then the
/// path itself, each only once.
pub open spec fn spec_add_path(acc: Seq<Seq<char>>, p: Seq<char>) -> Seq<Seq<char>> {
    push_if_absent(spec_add_prefixes(acc, p, p.len() as int), p)
}

/// The listing accumulated over a path sequence.
pub open spec fn spec_list_fold(paths: Seq<Seq<char>>, acc: Seq<Seq<char>>) -> Seq<Seq<char>>
    decreases paths.len(),
{
    if paths.len() == 0 {
        acc
    } else {
        spec_list_fold(paths.drop_first(), spec_add_path(acc, paths[0]))
    }
}

/// The deduplicated listing of the visited paths and their implied
/// ancestor directories.
pub open spec fn spec_list_entries(paths: Seq<Seq<char>>) -> Seq<Seq<char>> {
    spec_list_fold(paths, Seq::empty())
}

/// The list document: one `/`-prefixed listing entry per line.
pub open spec fn spec_list_doc(ls: Seq<Seq<char>>) -> Seq<char>
    decreases ls.len(),
{
    if ls.len() == 0 {
        Seq::<char>::empty()
    } else {
        "/"@ + ls[0] + "\n"@ + spec_list_doc(ls.drop_first())
    }
}

/// The per-package accumulators, cleared before a package is decoded.
pub open spec fn spec_clear(st: BootstrapV) -> BootstrapV {
    BootstrapV { conffiles: seq![], digests: seq![], visited: seq![], ..st }
}

/// The image entries synthesized once a package's events are all visited:
/// its list document if any path was visited, its digest document if any
/// regular file was visited, and its conffiles document if any conffiles
/// bytes were declared.
pub open spec fn spec_end_package(st: BootstrapV, name: Seq<char>) -> BootstrapV {
    let e1 = if st.visited.len() > 0 {
        st.entries.push(
            ImageEntryV {
                is_dir: false,
                name: "var/lib/dpkg/info/"@ + name + ".list"@,
                data: encode_utf8(spec_list_doc(spec_list_entries(st.visited))),
            },
        )
    } else {
        st.entries
    };
    let e2 = if st.digests.len() > 0 {
        e1.push(
            ImageEntryV {
                is_dir: false,
                name: "var/lib/dpkg/info/"@ + name + ".md5sums"@,
                data: encode_utf8(st.digests),
            },
        )
    } else {
        e1
    };
    let e3 = if st.conffiles.len() > 0 {
        e2.push(
            ImageEntryV {
                is_dir: false,
                name: "var/lib/dpkg/info/"@ + name + ".conffiles"@,
                data: st.conffiles,
            },
        )
    } else {
        e2
    };
    BootstrapV { entries: e3, ..st }
}

/// The whole effect of one package on the accumulated state.
pub open spec fn spec_process_package(st: BootstrapV, name: Seq<char>, evs: Seq<EventV>) -> Result<
    BootstrapV,
    DebError,
> {
    match spec_run(spec_clear(st), evs) {
        Err(e) => Err(e),
        Ok(st2) => Ok(spec_end_package(st2, name)),
    }
}

/// The image entries present before any package: the directories the target
/// package manager expects, and an empty `available` database.
pub open spec fn spec_initial_entries() -> Seq<ImageEntryV> {
    seq![
        ImageEntryV { is_dir: true, name: "tmp/"@, data: seq![] },
        ImageEntryV { is_dir: false, name: "var/lib/dpkg/available"@, data: seq![] },
    ]
}

/// The two entries closing a run: the status document and the symlink
/// registry.
pub open spec fn spec_finish(st: BootstrapV) -> BootstrapV {
    BootstrapV {
        entries: st.entries.push(
            ImageEntryV {
                is_dir: false,
                name: "var/lib/dpkg/status"@,
                data: encode_utf8(st.status),
            },
        ).push(
            ImageEntryV { is_dir: false, name: "SYMLINKS.txt"@, data: encode_utf8(st.symlinks) },
        ),
        ..st
    }
}

/// The bootstrap assembly engine's accumulated state.
pub struct CreateBootstrapVisitor {
    entries: Vec<ImageEntry>,
    status_doc: Vec<char>,
    symlinks_txt: Vec<char>,
    conffiles: Vec<u8>,
    digests_doc: Vec<char>,
    visited: Vec<String>,
}

impl View for CreateBootstrapVisitor {
    type V = BootstrapV;

    closed spec fn view(&self) -> BootstrapV {
        BootstrapV {
            entries: Seq::new(self.entries@.len(), |i: int| self.entries@[i]@),
            status: self.status_doc@,
            symlinks: self.symlinks_txt@,
            conffiles: self.conffiles@,
            digests: self.digests_doc@,
            visited: Seq::new(self.visited@.len(), |i: int| self.visited@[i]@),
        }
    }
}

impl CreateBootstrapVisitor {
    /// Creates an engine holding only the initial image entries.
    pub fn new() -> (r: CreateBootstrapVisitor)
        ensures
            r@ == (BootstrapV {
                entries: spec_initial_entries(),
                status: seq![],
                symlinks: seq![],
                conffiles: seq![],
                digests: seq![],
                visited: seq![],
            }),
    {
        let mut entries: Vec<ImageEntry> = Vec::new();
        entries.push(ImageEntry::Dir { name: String::from_str("tmp/") });
        entries.push(
            ImageEntry::File { name: String::from_str("var/lib/dpkg/available"), data: Vec::new() },
        );
        let r = CreateBootstrapVisitor {
            entries,
            status_doc: Vec::new(),
            symlinks_txt: Vec::new(),
            conffiles: Vec::new(),
            digests_doc: Vec::new(),
            visited: Vec::new(),
        };
        proof {
            assert(r@.entries =~~= spec_initial_entries());
            assert(r@ =~~= (BootstrapV {
                entries: spec_initial_entries(),
                status: seq![],
                symlinks: seq![],
                conffiles: seq![],
                digests: seq![],
                visited: seq![],
            }));
        }
        r
    }

    /// The image entries accumulated so far.
    pub fn entries(&self) -> (r: &Vec<ImageEntry>)
        ensures
            r@.len() == self@.entries.len(),
            forall|i: int| 0 <= i < r@.len() ==> (#[trigger] r@[i])@ == self@.entries[i],
    {
        &self.entries
    }

    /// The status document accumulated so far.
    pub fn status_doc(&self) -> (r: String)
        ensures
            r@ == self@.status,
    {
        crate::chars::chars_to_string(&self.status_doc)
    }

    /// The symlink registry accumulated so far.
    pub fn symlinks_txt(&self) -> (r: String)
        ensures
            r@ == self@.symlinks,
    {
        crate::chars::chars_to_string(&self.symlinks_txt)
    }

    /// The digest document of the package being assembled.
    pub fn digests_doc(&self) -> (r: String)
        ensures
            r@ == self@.digests,
    {
        crate::chars::chars_to_string(&self.digests_doc)
    }
}

/// The views of a vector of path strings.
pub open spec fn strings_view(v: Seq<String>) -> Seq<Seq<char>> {
    Seq::new(v.len(), |i: int| v[i]@)
}

/// Tests whether a listed path is already present.
fn contains_str(v: &Vec<String>, x: &str) -> (r: bool)
    ensures
        r == strings_view(v@).contains(x@),
{
    let mut i: usize = 0;
    while i < v.len()
        invariant
            i <= v@.len(),
            forall|j: int| 0 <= j < i ==> strings_view(v@)[j] != x@,
        decreases v@.len() - i,
    {
        if str_eq(v[i].as_str(), x) {
            proof {
                assert(strings_view(v@)[i as int] == x@);
            }
            return true;
        }
        i = i + 1;
    }
    proof {
        if strings_view(v@).contains(x@) {
            let j = choose|j: int| 0 <= j < strings_view(v@).len() && strings_view(v@)[j] == x@;
            assert(false);
        }
    }
    false
}

/// Appends a path unless it is already listed.
fn push_path_if_absent(listed: &mut Vec<String>, x: &String)
    ensures
        strings_view(final(listed)@) == push_if_absent(strings_view(old(listed)@), x@),
{
    if !contains_str(listed, x.as_str()) {
        listed.push(x.clone());
        proof {
            assert(strings_view(listed@) =~~= strings_view(old(listed)@).push(x@));
        }
    }
}

/// The deduplicated listing of the given paths and of every ancestor
/// directory a `/` in them implies, ancestors before their paths.
pub fn build_list(visited: &Vec<String>) -> (r: Vec<String>)
    ensures
        strings_view(r@) == spec_list_entries(strings_view(visited@)),
{
    let ghost vv = strings_view(visited@);
    let ghost total = spec_list_fold(vv, Seq::empty());
    let mut listed: Vec<String> = Vec::new();
    let mut i: usize = 0;
    proof {
        assert(vv.skip(0) =~~= vv);
        assert(strings_view(listed@) =~~= Seq::<Seq<char>>::empty());
    }
    while i < visited.len()
        invariant
            i <= visited@.len(),
            vv == strings_view(visited@),
            vv.len() == visited@.len(),
            total == spec_list_fold(vv, Seq::empty()),
            spec_list_fold(vv.skip(i as int), strings_view(listed@)) == total,
        decreases visited@.len() - i,
    {
        let ghost rest = vv.skip(i as int);
        proof {
            assert(rest[0] == vv[i as int]);
            assert(rest.drop_first() =~~= vv.skip(i + 1));
        }
        let p = &visited[i];
        let pc = str_to_chars(p.as_str());
        let ghost acc0 = strings_view(listed@);
        let mut j: usize = 0;
        while j < pc.len()
            invariant
                j <= pc@.len(),
                pc@ == vv[i as int],
                i < visited@.len(),
                vv == strings_view(visited@),
                vv.len() == visited@.len(),
                strings_view(listed@) == spec_add_prefixes(acc0, pc@, j as int),
            decreases pc@.len() - j,
        {
            if pc[j] == '/' {
                let anc = crate::lines::subrange_chars(&pc, 0, j);
                let anc_s = crate::chars::chars_to_string(&anc);
                push_path_if_absent(&mut listed, &anc_s);
                proof {
                    assert(anc_s@ =~~= pc@.take(j as int));
                }
            }
            j = j + 1;
        }
        push_path_if_absent(&mut listed, p);
        proof {
            assert(strings_view(listed@) == spec_add_path(acc0, rest[0]));
        }
        i = i + 1;
    }
    proof {
        assert(vv.skip(i as int) =~~= Seq::<Seq<char>>::empty());
    }
    listed
}

/// The list document text for a listing: one `/`-prefixed entry per line.
pub fn build_list_doc(listed: &Vec<String>) -> (r: Vec<char>)
    ensures
        r@ == spec_list_doc(strings_view(listed@)),
{
    let ghost lv = strings_view(listed@);
    let mut doc: Vec<char> = Vec::new();
    let mut i: usize = 0;
    proof {
        assert(lv.skip(0) =~~= lv);
    }
    while i < listed.len()
        invariant
            i <= listed@.len(),
            lv == strings_view(listed@),
            lv.len() == listed@.len(),
            doc@ + spec_list_doc(lv.skip(i as int)) == spec_list_doc(lv),
        decreases listed@.len() - i,
    {
        let ghost rest = lv.skip(i as int);
        proof {
            assert(rest[0] == lv[i as int]);
            assert(rest.drop_first() =~~= lv.skip(i + 1));
        }
        push_str_chars(&mut doc, "/");
        push_str_chars(&mut doc, listed[i].as_str());
        push_str_chars(&mut doc, "\n");
        i = i + 1;
        proof {
            assert(doc@ + spec_list_doc(lv.skip(i as int)) =~~= spec_list_doc(lv));
        }
    }
    proof {
        assert(lv.skip(i as int) =~~= Seq::<Seq<char>>::empty());
        assert(doc@ =~~= spec_list_doc(lv));
    }
    doc
}

impl CreateBootstrapVisitor {
    /// Clears the per-package accumulators.
    fn clear_package(&mut self)
        ensures
            final(self)@ == spec_clear(old(self)@),
    {
        self.conffiles.clear();
        self.digests_doc.clear();
        self.visited.clear();
        proof {
            assert(self@ =~~= spec_clear(old(self)@));
        }
    }

    /// Synthesizes the per-package image entries: the list document, the
    /// digest document and the conffiles document, each only if non-empty.
    fn end_package(&mut self, name: &str)
        ensures
            final(self)@ == spec_end_package(old(self)@, name@),
    {
        if self.visited.len() > 0 {
            let listed = build_list(&self.visited);
            let doc = build_list_doc(&listed);
            let entry_name = String::from_str("var/lib/dpkg/info/").concat(name).concat(".list");
            let data = crate::chars::chars_to_bytes(&doc);
            self.entries.push(ImageEntry::File { name: entry_name, data });
        }
        if self.digests_doc.len() > 0 {
            let entry_name = String::from_str("var/lib/dpkg/info/").concat(name).concat(
                ".md5sums",
            );
            let data = crate::chars::chars_to_bytes(&self.digests_doc);
            self.entries.push(ImageEntry::File { name: entry_name, data });
        }
        if self.conffiles.len() > 0 {
            let entry_name = String::from_str("var/lib/dpkg/info/").concat(name).concat(
                ".conffiles",
            );
            let data = self.conffiles.clone();
            self.entries.push(ImageEntry::File { name: entry_name, data });
        }
        proof {
            assert(self@ =~~= spec_end_package(old(self)@, name@));
        }
    }

    /// Assembles one package: clears the per-package accumulators, visits
    /// every event in order, then synthesizes the per-package documents.
    pub fn process_package(&mut self, name: &str, events: &Vec<DebEvent>) -> (r: Result<
        (),
        DebError,
    >)
        ensures
            match spec_process_package(old(self)@, name@, events_view(events@)) {
                Ok(v) => r is Ok && final(self)@ == v,
                Err(e) => r == Err::<(), DebError>(e),
            },
    {
        let ghost evs = events_view(events@);
        self.clear_package();
        let ghost total = spec_run(spec_clear(old(self)@), evs);
        let mut i: usize = 0;
        proof {
            assert(evs.skip(0) =~~= evs);
        }
        while i < events.len()
            invariant
                i <= events@.len(),
                evs == events_view(events@),
                evs.len() == events@.len(),
                total == spec_run(spec_clear(old(self)@), evs),
                spec_run(self@, evs.skip(i as int)) == total,
            decreases events@.len() - i,
        {
            let ghost rest = evs.skip(i as int);
            proof {
                assert(rest[0] == evs[i as int]);
                assert(rest.drop_first() =~~= evs.skip(i + 1));
            }
            let res = match &events[i] {
                DebEvent::Conffiles { data } => self.visit_conffiles(data),
                DebEvent::Control { fields } => self.visit_control(fields),
                DebEvent::File { entry } => self.visit_file(entry),
            };
            match res {
                Ok(()) => {},
                Err(e) => {
                    return Err(e);
                },
            }
            i = i + 1;
        }
        proof {
            assert(evs.skip(i as int) =~~= Seq::<EventV>::empty());
        }
        self.end_package(name);
        Ok(())
    }

    /// Closes a run: appends the status document and the symlink registry
    /// as the two final image entries.
    pub fn finish(&mut self)
        ensures
            final(self)@ == spec_finish(old(self)@),
    {
        let status_name = String::from_str("var/lib/dpkg/status");
        let status_data = crate::chars::chars_to_bytes(&self.status_doc);
        self.entries.push(ImageEntry::File { name: status_name, data: status_data });
        let sym_name = String::from_str("SYMLINKS.txt");
        let sym_data = crate::chars::chars_to_bytes(&self.symlinks_txt);
        self.entries.push(ImageEntry::File { name: sym_name, data: sym_data });
        proof {
            assert(self@ =~~= spec_finish(old(self)@));
        }
    }
}

impl DebVisitor for CreateBootstrapVisitor {
    type StateV = BootstrapV;

    open spec fn vstate(&self) -> BootstrapV {
        self@
    }

    open spec fn vstep(st: BootstrapV, ev: EventV) -> Result<BootstrapV, DebError> {
        spec_step(st, ev)
    }

    /// Appends one status block: every non-reserved field as a `name: value`
    /// line, then the closing status line and a blank separator.
    fn visit_control(&mut self, fields: &FieldMap) -> (r: Result<(), DebError>)
        ensures
            r is Ok,
            Ok::<BootstrapV, DebError>(final(self)@) == spec_step(
                old(self)@,
                EventV::Control { fields: fields@ },
            ),
    {
        let ghost fv = fields@;
        let n = fields.len();
        let mut i: usize = 0;
        proof {
            assert(fv.skip(0) =~~= fv);
        }
        while i < n
            invariant
                i <= n,
                n == fields@.len(),
                fields@ == fv,
                old(self)@.status + spec_emitted_fields(fv) == self@.status
                    + spec_emitted_fields(fv.skip(i as int)),
                self@ == (BootstrapV { status: self@.status, ..old(self)@ }),
            decreases n - i,
        {
            let ghost rest = fv.skip(i as int);
            proof {
                assert(rest[0] == fv[i as int]);
                assert(rest.drop_first() =~~= fv.skip(i + 1));
            }
            let kv = fields.pair_at(i);
            if !is_reserved_key(kv.0.as_str()) {
                let ghost before = self@.status;
                push_str_chars(&mut self.status_doc, kv.0.as_str());
                push_str_chars(&mut self.status_doc, ": ");
                push_str_chars(&mut self.status_doc, kv.1.as_str());
                push_str_chars(&mut self.status_doc, "\n");
                proof {
                    assert(self@.status =~~= before + spec_field_line(rest[0].0, rest[0].1));
                }
            }
            i = i + 1;
        }
        proof {
            assert(fv.skip(n as int) =~~= Seq::<(Seq<char>, Seq<char>)>::empty());
        }
        push_str_chars(&mut self.status_doc, "Status: install ok installed");
        push_str_chars(&mut self.status_doc, "\n");
        push_str_chars(&mut self.status_doc, "\n");
        proof {
            assert(self@.status =~~= old(self)@.status + spec_status_block(fv));
            assert(self@ =~~= (BootstrapV {
                status: old(self)@.status + spec_status_block(fv),
                ..old(self)@
            }));
        }
        Ok(())
    }

    /// Appends the declared conffiles bytes to the per-package buffer.
    fn visit_conffiles(&mut self, data: &Vec<u8>) -> (r: Result<(), DebError>)
        ensures
            r is Ok,
            Ok::<BootstrapV, DebError>(final(self)@) == spec_step(
                old(self)@,
                EventV::Conffiles { data: data@ },
            ),
    {
        self.conffiles.extend_from_slice(data.as_slice());
        proof {
            assert(self@ =~~= (BootstrapV {
                conffiles: old(self)@.conffiles + data@,
                ..old(self)@
            }));
        }
        Ok(())
    }

    /// Streams one data entry: a regular file becomes an image entry plus a
    /// digest line, a symlink becomes a registry line, and any other entry
    /// is ignored.
    fn visit_file(&mut self, entry: &FileEntry) -> (r: Result<(), DebError>)
        ensures
            match spec_step(old(self)@, EventV::File { entry: entry@ }) {
                Ok(v) => r is Ok && final(self)@ == v,
                Err(e) => r == Err::<(), DebError>(e) && *final(self) == *old(self),
            },
    {
        let is_regular = matches!(entry.kind, EntryKind::Regular);
        let is_symlink = matches!(entry.kind, EntryKind::Symlink);
        if !is_regular && !is_symlink {
            return Ok(());
        }
        let prefix = "./data/data/com.termux/files/usr/";
        let plen = prefix.unicode_len();
        let path_len = entry.path.as_str().unicode_len();
        if path_len < plen {
            return Err(DebError::ShortPath);
        }
        let rel = entry.path.as_str().substring_char(plen, path_len).to_owned();
        proof {
            assert(rel@ =~~= entry@.path.skip(install_prefix().len() as int));
        }
        if is_symlink {
            let ghost before = self@.symlinks;
            push_str_chars(&mut self.symlinks_txt, entry.link_target.as_str());
            self.symlinks_txt.push('\u{2190}');
            push_str_chars(&mut self.symlinks_txt, rel.as_str());
            push_str_chars(&mut self.symlinks_txt, "\n");
            self.visited.push(rel);
            proof {
                assert(self@.symlinks =~~= before + spec_symlink_line(entry@.link, rel@));
                assert(self@.visited =~~= old(self)@.visited.push(rel@));
                assert(self@ =~~= (BootstrapV {
                    symlinks: old(self)@.symlinks + spec_symlink_line(
                        entry@.link,
                        spec_strip_prefix(entry@.path)->0,
                    ),
                    visited: old(self)@.visited.push(spec_strip_prefix(entry@.path)->0),
                    ..old(self)@
                }));
            }
            return Ok(());
        }
        let h = md5_hex(&entry.data);
        push_str_chars(&mut self.digests_doc, h.as_str());
        push_str_chars(&mut self.digests_doc, "  ");
        push_str_chars(&mut self.digests_doc, rel.as_str());
        push_str_chars(&mut self.digests_doc, "\n");
        self.entries.push(ImageEntry::File { name: rel.clone(), data: entry.data.clone() });
        self.visited.push(rel);
        proof {
            assert(self@.digests =~~= old(self)@.digests + spec_md5_line(entry@.data, rel@));
            assert(self@.entries =~~= old(self)@.entries.push(
                ImageEntryV { is_dir: false, name: rel@, data: entry@.data },
            ));
            assert(self@.visited =~~= old(self)@.visited.push(rel@));
            assert(self@ =~~= (BootstrapV {
                entries: old(self)@.entries.push(
                    ImageEntryV {
                        is_dir: false,
                        name: spec_strip_prefix(entry@.path)->0,
                        data: entry@.data,
                    },
                ),
                digests: old(self)@.digests + spec_md5_line(
                    entry@.data,
                    spec_strip_prefix(entry@.path)->0,
                ),
                visited: old(self)@.visited.push(spec_strip_prefix(entry@.path)->0),
                ..old(self)@
            }));
        }
        Ok(())
    }
}

/// No character of the pair can break a document line.
pub open spec fn clean_pair(p: (Seq<char>, Seq<char>)) -> bool {
    &&& !p.0.contains('\n')
    &&& !p.0.contains('\r')
    &&& !p.1.contains('\n')
    &&& !p.1.contains('\r')
}

/// The status block's field lines, one per non-reserved pair, in order.
pub open spec fn spec_status_lines(fields: Seq<(Seq<char>, Seq<char>)>) -> Seq<Seq<char>>
    decreases fields.len(),
{
    if fields.len() == 0 {
        Seq::<Seq<char>>::empty()
    } else {
        let rest = spec_status_lines(fields.drop_first());
        if reserved_key(fields[0].0) {
            rest
        } else {
            seq![fields[0].0 + ": "@ + fields[0].1] + rest
        }
    }
}

/// Splitting a text that begins with a clean line and its newline yields
/// that line, then the lines of the remainder.
pub proof fn lemma_lines_unfold_line(line: Seq<char>, rest: Seq<char>)
    requires
        !line.contains('\n'),
        !line.contains('\r'),
    ensures
        crate::lines::spec_lines(line + "\n"@ + rest) == seq![line] + crate::lines::spec_lines(
            rest,
        ),
{
    reveal_strlit("\n");
    let s = line + "\n"@ + rest;
    assert(s[line.len() as int] == '\n');
    assert forall|j: int| 0 <= j < line.len() implies s[j] != '\n' by {
        assert(s[j] == line[j]);
        if s[j] == '\n' {
            assert(line.contains('\n'));
        }
    }
    crate::lines::lemma_find_char_at(s, '\n', line.len() as int);
    assert(s.take(line.len() as int) =~= line);
    if line.len() > 0 && line[line.len() - 1] == '\r' {
        assert(line.contains('\r'));
    }
    assert(crate::lines::spec_strip_cr(line) == line);
    assert(s.skip(line.len() as int + 1) =~= rest);
    assert(crate::lines::spec_lines(s) =~~= seq![line] + crate::lines::spec_lines(rest));
}

/// The lines of the emitted field text followed by any remainder: one line
/// per non-reserved pair, then the remainder's lines.
pub proof fn lemma_emitted_lines(fields: Seq<(Seq<char>, Seq<char>)>, rest: Seq<char>)
    requires
        forall|i: int| 0 <= i < fields.len() ==> clean_pair(#[trigger] fields[i]),
    ensures
        crate::lines::spec_lines(spec_emitted_fields(fields) + rest) == spec_status_lines(fields)
            + crate::lines::spec_lines(rest),
    decreases fields.len(),
{
    reveal_strlit(": ");
    reveal_strlit("\n");
    if fields.len() == 0 {
        assert(spec_emitted_fields(fields) + rest =~= rest);
        assert(crate::lines::spec_lines(rest) =~~= spec_status_lines(fields)
            + crate::lines::spec_lines(rest));
    } else {
        let tail = fields.drop_first();
        assert forall|i: int| 0 <= i < tail.len() implies clean_pair(#[trigger] tail[i]) by {
            assert(tail[i] == fields[i + 1]);
        }
        lemma_emitted_lines(tail, rest);
        if reserved_key(fields[0].0) {
            assert(spec_emitted_fields(fields) + rest =~= spec_emitted_fields(tail) + rest);
            assert(spec_status_lines(fields) =~~= spec_status_lines(tail));
        } else {
            let k = fields[0].0;
            let v = fields[0].1;
            let line = k + ": "@ + v;
            assert forall|j: int| 0 <= j < line.len() implies line[j] != '\n' && line[j]
                != '\r' by {
                if line[j] == '\n' || line[j] == '\r' {
                    if j < k.len() {
                        assert(k[j] == line[j]);
                        assert(k.contains(line[j]));
                    } else if j < k.len() + 2 {
                        assert((": "@)[j - k.len()] == line[j]);
                    } else {
                        assert(v[j - k.len() - 2] == line[j]);
                        assert(v.contains(line[j]));
                    }
                }
            }
            if line.contains('\n') {
                let w = choose|w: int| 0 <= w < line.len() && line[w] == '\n';
                assert(false);
            }
            if line.contains('\r') {
                let w = choose|w: int| 0 <= w < line.len() && line[w] == '\r';
                assert(false);
            }
            assert(spec_emitted_fields(fields) + rest =~= line + "\n"@ + (spec_emitted_fields(
                tail,
            ) + rest));
            lemma_lines_unfold_line(line, spec_emitted_fields(tail) + rest);
            assert(crate::lines::spec_lines(spec_emitted_fields(fields) + rest)
                =~~= spec_status_lines(fields) + crate::lines::spec_lines(rest));
        }
    }
}

/// Law: the lines of one status block are exactly one `name: value` line
/// per non-reserved pair of the control mapping, in field order, then the
/// one closing line `Status: install ok installed`, then one blank line.
pub proof fn lemma_status_block_lines(fields: Seq<(Seq<char>, Seq<char>)>)
    requires
        forall|i: int| 0 <= i < fields.len() ==> clean_pair(#[trigger] fields[i]),
    ensures
        crate::lines::spec_lines(spec_status_block(fields)) == spec_status_lines(fields) + seq![
            status_line(),
            Seq::<char>::empty(),
        ],
{
    reveal_strlit("Status: install ok installed");
    reveal_strlit("\n");
    let term = status_line();
    assert forall|j: int| 0 <= j < term.len() implies term[j] != '\n' && term[j] != '\r' by {}
    if term.contains('\n') {
        let w = choose|w: int| 0 <= w < term.len() && term[w] == '\n';
        assert(false);
    }
    if term.contains('\r') {
        let w = choose|w: int| 0 <= w < term.len() && term[w] == '\r';
        assert(false);
    }
    assert(spec_status_block(fields) =~= spec_emitted_fields(fields) + (term + "\n"@ + "\n"@));
    lemma_emitted_lines(fields, term + "\n"@ + "\n"@);
    lemma_lines_unfold_line(term, "\n"@);
    assert(crate::lines::spec_lines("\n"@) =~~= seq![Seq::<char>::empty()]) by {
        crate::lines::lemma_find_char_at("\n"@, '\n', 0);
        assert(("\n"@).take(0) =~= Seq::<char>::empty());
        assert(("\n"@).skip(1) =~= Seq::<char>::empty());
        assert(crate::lines::spec_strip_cr(Seq::<char>::empty()) =~= Seq::<char>::empty());
        assert(crate::lines::spec_lines(Seq::<char>::empty()) =~~= Seq::<Seq<char>>::empty());
        assert(crate::lines::spec_lines("\n"@) =~~= seq![Seq::<char>::empty()]
            + crate::lines::spec_lines(("\n"@).skip(1)));
    }
    assert(crate::lines::spec_lines(spec_status_block(fields)) =~~= spec_status_lines(fields)
        + seq![term, Seq::<char>::empty()]);
}

/// No pair of the mapping carries a carriage return in its name or its
/// value.
pub open spec fn no_cr_pairs(fields: Seq<(Seq<char>, Seq<char>)>) -> bool {
    forall|i: int|
        0 <= i < fields.len() ==> !(#[trigger] fields[i]).0.contains('\r')
            && !fields[i].1.contains('\r')
}

/// Law: for every control mapping decoded from a control text, the lines
/// of its status block are exactly one `name: value` line per non-reserved
/// pair, in field order, then the one closing line
/// `Status: install ok installed`, then one blank line. A decoded name or
/// value can never carry a newline, so the only mappings left out are
/// those carrying a carriage return: there the line reader strips the
/// final carriage return and the emitted line no longer equals its pair.
pub proof fn lemma_status_block_lines_of_decoded(text: Seq<char>)
    requires
        crate::deb_file::spec_parse_control(text) is Ok,
        no_cr_pairs(crate::deb_file::spec_parse_control(text)->Ok_0),
    ensures
        ({
            let fields = crate::deb_file::spec_parse_control(text)->Ok_0;
            crate::lines::spec_lines(spec_status_block(fields)) == spec_status_lines(fields)
                + seq![status_line(), Seq::<char>::empty()]
        }),
{
    let fields = crate::deb_file::spec_parse_control(text)->Ok_0;
    crate::deb_file::lemma_parse_control_no_newline(text);
    assert forall|i: int| 0 <= i < fields.len() implies clean_pair(#[trigger] fields[i]) by {}
    lemma_status_block_lines(fields);
}

/// A proper ancestor directory implied by a path: the part before one of
/// its slashes.
pub open spec fn is_ancestor(a: Seq<char>, p: Seq<char>) -> bool {
    exists|i: int| 0 <= i < p.len() && p[i] == '/' && a == p.take(i)
}

/// No entry is listed twice.
pub open spec fn no_dups(s: Seq<Seq<char>>) -> bool {
    forall|i: int, j: int| 0 <= i < j < s.len() ==> s[i] != s[j]
}

/// `x` is the part of `p` before one of its slashes at a position below `n`.
pub open spec fn is_ancestor_upto(x: Seq<char>, p: Seq<char>, n: int) -> bool {
    exists|i: int| 0 <= i < n && p[i] == '/' && x == p.take(i)
}

/// What `spec_add_prefixes` lists: the old listing plus each ancestor cut
/// at a slash before `n`, nothing else, and nothing twice.
pub proof fn lemma_add_prefixes(acc: Seq<Seq<char>>, p: Seq<char>, n: int)
    requires
        no_dups(acc),
        n <= p.len(),
    ensures
        no_dups(spec_add_prefixes(acc, p, n)),
        forall|x: Seq<char>|
            #![trigger spec_add_prefixes(acc, p, n).contains(x)]
            spec_add_prefixes(acc, p, n).contains(x) <==> acc.contains(x) || is_ancestor_upto(
                x,
                p,
                n,
            ),
    decreases n,
{
    if n <= 0 {
        assert forall|x: Seq<char>|
            #![trigger spec_add_prefixes(acc, p, n).contains(x)]
            spec_add_prefixes(acc, p, n).contains(x) <==> acc.contains(x) || is_ancestor_upto(
                x,
                p,
                n,
            ) by {
            if is_ancestor_upto(x, p, n) {
                let i = choose|i: int| 0 <= i < n && p[i] == '/' && x == p.take(i);
                assert(false);
            }
        }
    }
    if n > 0 {
        lemma_add_prefixes(acc, p, n - 1);
        let a2 = spec_add_prefixes(acc, p, n - 1);
        if p[n - 1] == '/' {
            let r = push_if_absent(a2, p.take(n - 1));
            assert forall|x: Seq<char>| r.contains(x) implies a2.contains(x) || x == p.take(
                n - 1,
            ) by {
                if !a2.contains(x) {
                    let w = choose|w: int| 0 <= w < r.len() && r[w] == x;
                    if w < a2.len() {
                        assert(a2.contains(x));
                    }
                }
            }
            assert forall|x: Seq<char>| a2.contains(x) || x == p.take(n - 1) implies r.contains(
                x,
            ) by {
                if a2.contains(x) {
                    let w = choose|w: int| 0 <= w < a2.len() && a2[w] == x;
                    assert(r[w] == x);
                } else {
                    if !a2.contains(p.take(n - 1)) {
                        assert(r[a2.len() as int] == p.take(n - 1));
                    }
                }
            }
            assert forall|i: int, j: int| 0 <= i < j < r.len() implies r[i] != r[j] by {
                if j >= a2.len() {
                    if !a2.contains(p.take(n - 1)) {
                        assert(r[j] == p.take(n - 1));
                        assert(r[i] == a2[i]);
                        if r[i] == r[j] {
                            assert(a2.contains(p.take(n - 1)));
                        }
                    }
                }
            }
            assert(spec_add_prefixes(acc, p, n) == r);
            assert forall|x: Seq<char>|
                #![trigger spec_add_prefixes(acc, p, n).contains(x)]
                spec_add_prefixes(acc, p, n).contains(x) <==> acc.contains(x)
                    || is_ancestor_upto(x, p, n) by {
                assert(spec_add_prefixes(acc, p, n).contains(x) == r.contains(x));
                if acc.contains(x) {
                    assert(a2.contains(x));
                    assert(r.contains(x));
                }
                if r.contains(x) && !acc.contains(x) {
                    if a2.contains(x) {
                        let i = choose|i: int| 0 <= i < n - 1 && p[i] == '/' && x == p.take(i);
                        assert(0 <= i < n && p[i] == '/' && x == p.take(i));
                    } else {
                        assert(x == p.take(n - 1));
                        assert(0 <= n - 1 < n && p[n - 1] == '/' && x == p.take(n - 1));
                    }
                    assert(is_ancestor_upto(x, p, n));
                }
                if is_ancestor_upto(x, p, n) && !acc.contains(x) {
                    let i = choose|i: int| 0 <= i < n && p[i] == '/' && x == p.take(i);
                    if i < n - 1 {
                        assert(is_ancestor_upto(x, p, n - 1));
                        assert(a2.contains(x));
                    } else {
                        assert(x == p.take(n - 1));
                    }
                    assert(r.contains(x));
                }
            }
        } else {
            assert(spec_add_prefixes(acc, p, n) == a2);
            assert forall|x: Seq<char>|
                #![trigger spec_add_prefixes(acc, p, n).contains(x)]
                spec_add_prefixes(acc, p, n).contains(x) <==> acc.contains(x)
                    || is_ancestor_upto(x, p, n) by {
                assert(spec_add_prefixes(acc, p, n).contains(x) == a2.contains(x));
                if acc.contains(x) {
                    assert(a2.contains(x));
                }
                if a2.contains(x) && !acc.contains(x) {
                    let i = choose|i: int| 0 <= i < n - 1 && p[i] == '/' && x == p.take(i);
                    assert(0 <= i < n && p[i] == '/' && x == p.take(i));
                    assert(is_ancestor_upto(x, p, n));
                }
                if is_ancestor_upto(x, p, n) && !acc.contains(x) {
                    let i = choose|i: int| 0 <= i < n && p[i] == '/' && x == p.take(i);
                    assert(i != n - 1);
                    assert(0 <= i < n - 1 && p[i] == '/' && x == p.take(i));
                    assert(is_ancestor_upto(x, p, n - 1));
                    assert(a2.contains(x));
                }
            }
        }
    }
}


/// What `spec_add_path` lists: the old listing, the path, and its implied
/// ancestors, nothing else, and nothing twice.
pub proof fn lemma_add_path(acc: Seq<Seq<char>>, p: Seq<char>)
    requires
        no_dups(acc),
    ensures
        no_dups(spec_add_path(acc, p)),
        forall|x: Seq<char>|
            spec_add_path(acc, p).contains(x) <==> acc.contains(x) || x == p || is_ancestor(x, p),
{
    lemma_add_prefixes(acc, p, p.len() as int);
    let a2 = spec_add_prefixes(acc, p, p.len() as int);
    assert forall|x: Seq<char>| is_ancestor_upto(x, p, p.len() as int) == is_ancestor(
        x,
        p,
    ) by {
        if is_ancestor_upto(x, p, p.len() as int) {
            let i = choose|i: int| 0 <= i < p.len() && p[i] == '/' && x == p.take(i);
            assert(is_ancestor(x, p));
        }
        if is_ancestor(x, p) {
            let i = choose|i: int| 0 <= i < p.len() && p[i] == '/' && x == p.take(i);
            assert(is_ancestor_upto(x, p, p.len() as int));
        }
    }
    let r = push_if_absent(a2, p);
    assert forall|x: Seq<char>| r.contains(x) implies a2.contains(x) || x == p by {
        if !a2.contains(x) {
            let w = choose|w: int| 0 <= w < r.len() && r[w] == x;
            if w < a2.len() {
                assert(a2.contains(x));
            }
        }
    }
    assert forall|x: Seq<char>| a2.contains(x) || x == p implies r.contains(x) by {
        if a2.contains(x) {
            let w = choose|w: int| 0 <= w < a2.len() && a2[w] == x;
            assert(r[w] == x);
        } else if !a2.contains(p) {
            assert(r[a2.len() as int] == p);
        }
    }
    assert forall|i: int, j: int| 0 <= i < j < r.len() implies r[i] != r[j] by {
        if j >= a2.len() {
            if !a2.contains(p) {
                assert(r[j] == p);
                assert(r[i] == a2[i]);
                if r[i] == r[j] {
                    assert(a2.contains(p));
                }
            }
        }
    }
    assert forall|x: Seq<char>|
        spec_add_path(acc, p).contains(x) <==> acc.contains(x) || x == p || is_ancestor(
        x,
        p,
    ) by {
        if r.contains(x) {
            if !acc.contains(x) && x != p {
                assert(a2.contains(x));
                assert(is_ancestor(x, p));
            }
        }
        if acc.contains(x) {
            assert(a2.contains(x));
        }
        if is_ancestor(x, p) {
            assert(a2.contains(x));
        }
    }
}

/// What the listing fold lists over a path sequence, starting from any
/// duplicate-free listing.
pub proof fn lemma_list_fold(paths: Seq<Seq<char>>, acc: Seq<Seq<char>>)
    requires
        no_dups(acc),
    ensures
        no_dups(spec_list_fold(paths, acc)),
        forall|x: Seq<char>|
            spec_list_fold(paths, acc).contains(x) <==> acc.contains(x) || paths.contains(x) || (
            exists|k: int| 0 <= k < paths.len() && is_ancestor(x, #[trigger] paths[k])),
    decreases paths.len(),
{
    if paths.len() > 0 {
        lemma_add_path(acc, paths[0]);
        let a2 = spec_add_path(acc, paths[0]);
        lemma_list_fold(paths.drop_first(), a2);
        let tail = paths.drop_first();
        assert forall|x: Seq<char>|
            spec_list_fold(paths, acc).contains(x) <==> acc.contains(x) || paths.contains(x) || (
            exists|k: int| 0 <= k < paths.len() && is_ancestor(x, #[trigger] paths[k])) by {
            if spec_list_fold(paths, acc).contains(x) {
                if !acc.contains(x) && !paths.contains(x) {
                    if a2.contains(x) {
                        if x == paths[0] {
                            assert(paths.contains(x));
                        } else {
                            assert(is_ancestor(x, paths[0]));
                        }
                    } else if tail.contains(x) {
                        let k = choose|k: int| 0 <= k < tail.len() && tail[k] == x;
                        assert(paths[k + 1] == x);
                        assert(paths.contains(x));
                    } else {
                        let k = choose|k: int|
                            0 <= k < tail.len() && is_ancestor(x, #[trigger] tail[k]);
                        assert(tail[k] == paths[k + 1]);
                        assert(is_ancestor(x, paths[k + 1]));
                    }
                }
            }
            if acc.contains(x) || paths.contains(x) || (exists|k: int|
                0 <= k < paths.len() && is_ancestor(x, #[trigger] paths[k])) {
                if acc.contains(x) {
                    assert(a2.contains(x));
                    assert(spec_list_fold(paths, acc).contains(x));
                } else if paths.contains(x) {
                    let k = choose|k: int| 0 <= k < paths.len() && paths[k] == x;
                    if k == 0 {
                        assert(a2.contains(x));
                    } else {
                        assert(tail[k - 1] == x);
                        assert(tail.contains(x));
                    }
                    assert(spec_list_fold(paths, acc).contains(x));
                } else {
                    let k = choose|k: int|
                        0 <= k < paths.len() && is_ancestor(x, #[trigger] paths[k]);
                    if k == 0 {
                        assert(a2.contains(x));
                    } else {
                        assert(tail[k - 1] == paths[k]);
                        assert(is_ancestor(x, tail[k - 1]));
                    }
                    assert(spec_list_fold(paths, acc).contains(x));
                }
            }
        }
    }
}

/// Law: whatever the visitation order, the per-package listing holds the
/// relative path of every visited file and symlink exactly once, plus every
/// proper ancestor directory a slash in one of those paths implies, each
/// exactly once, and nothing else.
pub proof fn lemma_list_entries(paths: Seq<Seq<char>>)
    ensures
        no_dups(spec_list_entries(paths)),
        forall|x: Seq<char>|
            spec_list_entries(paths).contains(x) <==> paths.contains(x) || (exists|k: int|
                0 <= k < paths.len() && is_ancestor(x, #[trigger] paths[k])),
{
    lemma_list_fold(paths, Seq::empty());
    assert forall|x: Seq<char>| !Seq::<Seq<char>>::empty().contains(x) by {
        if Seq::<Seq<char>>::empty().contains(x) {
            let w = choose|w: int|
                0 <= w < Seq::<Seq<char>>::empty().len() && Seq::<Seq<char>>::empty()[w] == x;
            assert(false);
        }
    }
}

/// Law: for a regular file the digest line records the digest of exactly
/// the file's bytes, and the image entry created for it holds those bytes
/// unchanged, so the entry's content read back is byte-identical to the
/// source entry's content.
pub proof fn lemma_digest_round_trip(st: BootstrapV, entry: crate::deb_file::FileEntryV)
    requires
        entry.kind == EntryKind::Regular,
        spec_strip_prefix(entry.path) is Some,
    ensures
        ({
            let rel = spec_strip_prefix(entry.path)->0;
            let st2 = spec_step(st, EventV::File { entry })->Ok_0;
            &&& spec_step(st, EventV::File { entry }) is Ok
            &&& st2.entries == st.entries.push(
                ImageEntryV { is_dir: false, name: rel, data: entry.data },
            )
            &&& st2.entries.last().data == entry.data
            &&& st2.digests == st.digests + md5_hex_of(entry.data) + "  "@ + rel + "\n"@
        }),
{
}

/// Law: assembling the same package events under the same name from equal
/// states yields equal states, so a second identical run produces
/// byte-identical status, list, digest and symlink documents.
pub proof fn lemma_process_package_deterministic(
    st1: BootstrapV,
    st2: BootstrapV,
    name: Seq<char>,
    evs: Seq<EventV>,
)
    requires
        st1 == st2,
    ensures
        spec_process_package(st1, name, evs) == spec_process_package(st2, name, evs),
{
}

/// An event that leaves every per-package accumulator untouched: a control
/// mapping, or an entry that is neither a regular file nor a symlink.
pub open spec fn inert_or_control(ev: EventV) -> bool {
    match ev {
        EventV::Control { fields } => true,
        EventV::Conffiles { data } => false,
        EventV::File { entry } => entry.kind != EntryKind::Regular && entry.kind
            != EntryKind::Symlink,
    }
}

/// The status text the control events of a sequence add, in order.
pub open spec fn spec_status_additions(evs: Seq<EventV>) -> Seq<char>
    decreases evs.len(),
{
    if evs.len() == 0 {
        Seq::<char>::empty()
    } else {
        let head = match evs[0] {
            EventV::Control { fields } => spec_status_block(fields),
            _ => Seq::<char>::empty(),
        };
        head + spec_status_additions(evs.drop_first())
    }
}

/// Running events that carry no file data and no conffiles only appends
/// their status blocks.
pub proof fn lemma_run_inert(st: BootstrapV, evs: Seq<EventV>)
    requires
        forall|i: int| 0 <= i < evs.len() ==> inert_or_control(#[trigger] evs[i]),
    ensures
        spec_run(st, evs) is Ok,
        spec_run(st, evs)->Ok_0 == (BootstrapV {
            status: st.status + spec_status_additions(evs),
            ..st
        }),
    decreases evs.len(),
{
    if evs.len() == 0 {
        assert(st.status + spec_status_additions(evs) =~= st.status);
        assert(spec_run(st, evs)->Ok_0 =~~= (BootstrapV {
            status: st.status + spec_status_additions(evs),
            ..st
        }));
    } else {
        let st2 = spec_step(st, evs[0])->Ok_0;
        let tail = evs.drop_first();
        assert forall|i: int| 0 <= i < tail.len() implies inert_or_control(
            #[trigger] tail[i],
        ) by {
            assert(tail[i] == evs[i + 1]);
        }
        lemma_run_inert(st2, tail);
        assert(spec_run(st, evs)->Ok_0 =~~= (BootstrapV {
            status: st.status + spec_status_additions(evs),
            ..st
        }));
    }
}

/// Law: a package whose events hold no regular file, no symlink and no
/// conffiles declaration synthesizes no per-package document and no image
/// entry, but each of its control mappings still contributes its status
/// block, in order.
pub proof fn lemma_empty_package(st: BootstrapV, name: Seq<char>, evs: Seq<EventV>)
    requires
        forall|i: int| 0 <= i < evs.len() ==> inert_or_control(#[trigger] evs[i]),
    ensures
        spec_process_package(st, name, evs) is Ok,
        spec_process_package(st, name, evs)->Ok_0.entries == st.entries,
        spec_process_package(st, name, evs)->Ok_0.status == st.status + spec_status_additions(
            evs,
        ),
        spec_process_package(st, name, evs)->Ok_0.symlinks == st.symlinks,
{
    lemma_run_inert(spec_clear(st), evs);
}

} // verus!
