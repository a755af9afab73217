//! The deb stream decoder: classifies the members of the outer archive,
//! decompresses the control and data members, and turns them into a sequence
//! of events that a visitor consumes.

use std::io::Read;
use tar::EntryType;
use vstd::prelude::*;
use vstd::utf8::{decode_utf8, valid_utf8};

use crate::errors::DebError;
use crate::fields::{FieldMap, spec_insert, spec_key_index};
use crate::lines::{spec_lines, spec_split_control_line};

verus! {

/// The kind of one tar entry.
#[derive(Clone, Copy, Debug, PartialEq, Eq, Structural)]
pub enum EntryKind {
    Regular,
    Symlink,
    HardLink,
    Other,
}

/// One member of the outer archive: its identifier and its raw contents.
pub struct ArMember {
    pub name: Vec<u8>,
    pub data: Vec<u8>,
}

/// One raw tar entry, read eagerly.
pub struct TarEntryRaw {
    pub path: Vec<u8>,
    pub kind: EntryKind,
    pub link: Vec<u8>,
    pub data: Vec<u8>,
}

/// The mathematical image of a raw tar entry.
pub ghost struct TarEntryRawV {
    pub path: Seq<u8>,
    pub kind: EntryKind,
    pub link: Seq<u8>,
    pub data: Seq<u8>,
}

impl View for TarEntryRaw {
    type V = TarEntryRawV;

    open spec fn view(&self) -> TarEntryRawV {
        TarEntryRawV { path: self.path@, kind: self.kind, link: self.link@, data: self.data@ }
    }
}

/// What `ar` reads from a byte stream: the member identifiers and contents
/// in order, or nothing if the stream is not a well-formed archive.
pub uninterp spec fn ar_parse(bytes: Seq<u8>) -> Option<Seq<(Seq<u8>, Seq<u8>)>>;

/// What gzip decompression yields on a byte stream, or nothing on a
/// corrupt stream.
pub uninterp spec fn gunzip_of(bytes: Seq<u8>) -> Option<Seq<u8>>;

/// What xz decompression yields on a byte stream, or nothing on a corrupt
/// stream.
pub uninterp spec fn unxz_of(bytes: Seq<u8>) -> Option<Seq<u8>>;

/// What `tar` reads from a byte stream: every entry with its path, kind,
/// link target and contents, or nothing on a corrupt stream.
pub uninterp spec fn tar_parse(bytes: Seq<u8>) -> Option<Seq<TarEntryRawV>>;

/// ASCII whitespace, as a decimal header field may carry at its end.
pub open spec fn is_ws_byte(c: u8) -> bool {
    c == 32 || c == 9 || c == 10 || c == 11 || c == 12 || c == 13
}

/// An ASCII decimal digit.
pub open spec fn is_digit_byte(c: u8) -> bool {
    48 <= c && c <= 57
}

/// The field with trailing whitespace removed.
pub open spec fn spec_trim_ws_end(f: Seq<u8>) -> Seq<u8>
    decreases f.len(),
{
    if f.len() > 0 && is_ws_byte(f[f.len() - 1]) {
        spec_trim_ws_end(f.drop_last())
    } else {
        f
    }
}

/// The identifier with trailing space bytes removed.
pub open spec fn spec_trim_sp_end(f: Seq<u8>) -> Seq<u8>
    decreases f.len(),
{
    if f.len() > 0 && f[f.len() - 1] == 32 {
        spec_trim_sp_end(f.drop_last())
    } else {
        f
    }
}

/// The value of a digit string.
pub open spec fn spec_dec_value(d: Seq<u8>) -> int
    decreases d.len(),
{
    if d.len() == 0 {
        0
    } else {
        spec_dec_value(d.drop_last()) * 10 + (d[d.len() - 1] - 48)
    }
}

/// A decimal header field: digits followed only by whitespace. Anything
/// else is unreadable.
pub open spec fn spec_parse_size(f: Seq<u8>) -> Option<int> {
    let t = spec_trim_ws_end(f);
    if t.len() > 0 && (forall|i: int| 0 <= i < t.len() ==> is_digit_byte(#[trigger] t[i])) {
        Some(spec_dec_value(t))
    } else {
        None
    }
}

/// Ten to the given power.
pub open spec fn pow10(n: nat) -> int
    decreases n,
{
    if n == 0 {
        1
    } else {
        10 * pow10((n - 1) as nat)
    }
}

/// A digit string's value is bounded by ten to its length.
pub proof fn lemma_dec_value_bound(d: Seq<u8>)
    requires
        forall|i: int| 0 <= i < d.len() ==> is_digit_byte(#[trigger] d[i]),
    ensures
        0 <= spec_dec_value(d) < pow10(d.len()),
    decreases d.len(),
{
    if d.len() > 0 {
        assert forall|i: int| 0 <= i < d.drop_last().len() implies is_digit_byte(
            #[trigger] d.drop_last()[i],
        ) by {
            assert(d.drop_last()[i] == d[i]);
        }
        lemma_dec_value_bound(d.drop_last());
    }
}

/// Fifteen decimal digits stay below ten to the fifteenth.
pub proof fn lemma_pow10_15()
    ensures
        pow10(15) == 1000000000000000,
{
    reveal_with_fuel(pow10, 16);
}

/// Powers of ten grow with the exponent.
pub proof fn lemma_pow10_le(a: nat, b: nat)
    requires
        a <= b,
    ensures
        pow10(a) <= pow10(b),
    decreases b,
{
    if a < b {
        lemma_pow10_le(a, (b - 1) as nat);
        assert(pow10((b - 1) as nat) >= 1) by {
            lemma_pow10_le(0, (b - 1) as nat);
        }
    }
}

/// Dropping trailing whitespace reaches the last non-whitespace position.
pub proof fn lemma_trim_ws_end_at(f: Seq<u8>, b: int)
    requires
        0 <= b <= f.len(),
        forall|j: int| b <= j < f.len() ==> is_ws_byte(#[trigger] f[j]),
        b > 0 ==> !is_ws_byte(f[b - 1]),
    ensures
        spec_trim_ws_end(f) == f.take(b),
    decreases f.len() - b,
{
    if b == f.len() {
        assert(f.take(b) =~= f);
    } else {
        assert forall|j: int| b <= j < f.drop_last().len() implies is_ws_byte(
            #[trigger] f.drop_last()[j],
        ) by {}
        lemma_trim_ws_end_at(f.drop_last(), b);
        assert(f.drop_last().take(b) =~= f.take(b));
    }
}

/// Dropping trailing spaces reaches the last non-space position.
pub proof fn lemma_trim_sp_end_at(f: Seq<u8>, b: int)
    requires
        0 <= b <= f.len(),
        forall|j: int| b <= j < f.len() ==> #[trigger] f[j] == 32,
        b > 0 ==> f[b - 1] != 32,
    ensures
        spec_trim_sp_end(f) == f.take(b),
    decreases f.len() - b,
{
    if b == f.len() {
        assert(f.take(b) =~= f);
    } else {
        assert forall|j: int| b <= j < f.drop_last().len() implies #[trigger] f.drop_last()[j]
            == 32 by {}
        lemma_trim_sp_end_at(f.drop_last(), b);
        assert(f.drop_last().take(b) =~= f.take(b));
    }
}

/// Reads a decimal header field between `from` and `to`.
fn parse_size_field(b: &Vec<u8>, from: usize, to: usize) -> (r: Option<u64>)
    requires
        from <= to <= b@.len(),
        to - from <= 15,
    ensures
        match r {
            Some(v) => spec_parse_size(b@.subrange(from as int, to as int)) == Some(v as int)
                && v < 1000000000000000,
            None => spec_parse_size(b@.subrange(from as int, to as int)) is None,
        },
{
    let ghost f = b@.subrange(from as int, to as int);
    let mut e: usize = to;
    while e > from && is_ws_byte_exec(b[e - 1])
        invariant
            from <= e <= to,
            to <= b@.len(),
            forall|j: int| e - from <= j < f.len() ==> is_ws_byte(#[trigger] f[j]),
            f == b@.subrange(from as int, to as int),
        decreases e,
    {
        e = e - 1;
        proof {
            assert(f[e - from] == b@[e as int]);
        }
    }
    proof {
        if e > from {
            assert(f[e - from - 1] == b@[e - 1]);
        }
        lemma_trim_ws_end_at(f, e - from);
    }
    let ghost t = spec_trim_ws_end(f);
    if e == from {
        proof {
            assert(t.len() == 0);
        }
        return None;
    }
    let mut value: u64 = 0;
    let mut i: usize = from;
    proof {
        assert(t.take(0) =~= Seq::<u8>::empty());
        lemma_pow10_le(0, 0);
    }
    while i < e
        invariant
            from <= i <= e <= to,
            to <= b@.len(),
            to - from <= 15,
            f == b@.subrange(from as int, to as int),
            t == spec_trim_ws_end(f),
            t == f.take(e - from),
            forall|j: int| 0 <= j < i - from ==> is_digit_byte(#[trigger] t[j]),
            value == spec_dec_value(t.take(i - from)),
            0 <= value < pow10((i - from) as nat),
        decreases e - i,
    {
        let c = b[i];
        proof {
            assert(t[i - from] == b@[i as int]);
        }
        if c < 48 || c > 57 {
            proof {
                assert(!is_digit_byte(t[i - from]));
            }
            return None;
        }
        proof {
            assert(t.take(i + 1 - from).drop_last() =~= t.take(i - from));
            assert(t.take(i + 1 - from)[i - from] == t[i - from]);
            lemma_pow10_le((i + 1 - from) as nat, 15);
            lemma_pow10_15();
        }
        value = value * 10 + ((c - 48) as u64);
        i = i + 1;
    }
    proof {
        assert(t.take(e - from) =~= t);
        lemma_pow10_le((e - from) as nat, 15);
        lemma_pow10_15();
    }
    Some(value)
}

/// Whitespace test on one byte.
fn is_ws_byte_exec(c: u8) -> (r: bool)
    ensures
        r == is_ws_byte(c),
{
    c == 32 || c == 9 || c == 10 || c == 11 || c == 12 || c == 13
}

/// The eight bytes opening every member archive.
pub open spec fn spec_ar_magic() -> Seq<u8> {
    seq![33u8, 60u8, 97u8, 114u8, 99u8, 104u8, 62u8, 10u8]
}

/// Walks the member headers from `pos` and decides whether `ar` 0.9 can be
/// trusted on them: every decimal field it would act on must be readable,
/// a name-table reference must point into the name table collected so far,
/// and a name table or extended identifier must fit in the bytes that
/// remain. On anything else the decoder refuses the archive itself.
pub open spec fn spec_ar_safe_from(b: Seq<u8>, pos: int, table_len: int) -> bool
    decreases b.len() - pos,
{
    if pos < 0 || pos + 60 > b.len() {
        true
    } else {
        match spec_parse_size(b.subrange(pos + 48, pos + 58)) {
            None => false,
            Some(size) => if size < 0 {
                false
            } else {
                let ident = spec_trim_sp_end(b.subrange(pos, pos + 16));
                let adv = 60 + size + (if size % 2 == 1 { 1int } else { 0int });
                let next = if pos + adv > b.len() { b.len() as int } else { pos + adv };
                if ident == seq![47u8] {
                    spec_ar_safe_from(b, next, table_len)
                } else if ident == seq![47u8, 47u8] {
                    if size > b.len() - pos - 60 {
                        false
                    } else {
                        spec_ar_safe_from(b, next, size)
                    }
                } else if ident.len() > 0 && ident[0] == 47 {
                    match spec_parse_size(b.subrange(pos + 1, pos + 16)) {
                        None => false,
                        Some(start) => if start > table_len {
                            false
                        } else {
                            spec_ar_safe_from(b, next, table_len)
                        },
                    }
                } else if ident.len() >= 3 && ident[0] == 35 && ident[1] == 49 && ident[2]
                    == 47 {
                    match spec_parse_size(b.subrange(pos + 3, pos + 16)) {
                        None => false,
                        Some(p) => if p > b.len() - pos - 60 {
                            false
                        } else {
                            spec_ar_safe_from(b, next, table_len)
                        },
                    }
                } else {
                    spec_ar_safe_from(b, next, table_len)
                }
            },
        }
    }
}

/// Whether the whole byte stream keeps `ar` 0.9 inside its documented
/// error behaviour: a stream without the archive magic is refused by `ar`
/// at once, and any other stream must pass the header walk.
pub open spec fn spec_ar_safe(b: Seq<u8>) -> bool {
    if b.len() < 8 || b.subrange(0, 8) != spec_ar_magic() {
        true
    } else {
        spec_ar_safe_from(b, 8, 0)
    }
}

/// Decides `spec_ar_safe` on a byte stream.
pub fn ar_input_safe(b: &Vec<u8>) -> (r: bool)
    ensures
        r == spec_ar_safe(b@),
{
    if b.len() < 8 {
        return true;
    }
    let magic_ok = b[0] == 33 && b[1] == 60 && b[2] == 97 && b[3] == 114 && b[4] == 99 && b[5]
        == 104 && b[6] == 62 && b[7] == 10;
    proof {
        assert(b@.subrange(0, 8)[0] == b@[0]);
        assert(b@.subrange(0, 8)[1] == b@[1]);
        assert(b@.subrange(0, 8)[2] == b@[2]);
        assert(b@.subrange(0, 8)[3] == b@[3]);
        assert(b@.subrange(0, 8)[4] == b@[4]);
        assert(b@.subrange(0, 8)[5] == b@[5]);
        assert(b@.subrange(0, 8)[6] == b@[6]);
        assert(b@.subrange(0, 8)[7] == b@[7]);
        if magic_ok {
            assert(b@.subrange(0, 8) =~= spec_ar_magic());
        }
    }
    if !magic_ok {
        return true;
    }
    let mut pos: usize = 8;
    let mut table_len: u64 = 0;
    while b.len() >= 60 && pos <= b.len() - 60
        invariant
            8 <= pos <= b@.len(),
            table_len < 1000000000000000,
            spec_ar_safe(b@) == spec_ar_safe_from(b@, pos as int, table_len as int),
        decreases b@.len() - pos,
    {
        let size = match parse_size_field(b, pos + 48, pos + 58) {
            Some(v) => v,
            None => {
                return false;
            },
        };
        let mut e: usize = pos + 16;
        while e > pos && b[e - 1] == 32
            invariant
                pos <= e <= pos + 16,
                pos + 60 <= b@.len(),
                forall|j: int| e <= j < pos + 16 ==> #[trigger] b@[j] == 32,
            decreases e,
        {
            e = e - 1;
        }
        let ghost idseq = b@.subrange(pos as int, pos + 16);
        proof {
            assert forall|j: int| e - pos <= j < idseq.len() implies #[trigger] idseq[j]
                == 32 by {
                assert(idseq[j] == b@[pos + j]);
            }
            if e > pos {
                assert(idseq[e - pos - 1] == b@[e - 1]);
            }
            lemma_trim_sp_end_at(idseq, e - pos);
            assert(spec_trim_sp_end(idseq) =~= b@.subrange(pos as int, e as int));
        }
        let ilen = e - pos;
        let remaining: u64 = (b.len() - pos - 60) as u64;
        if ilen == 1 && b[pos] == 47 {
            proof {
                assert(spec_trim_sp_end(idseq) =~= seq![47u8]);
            }
        } else if ilen == 2 && b[pos] == 47 && b[pos + 1] == 47 {
            proof {
                assert(spec_trim_sp_end(idseq) =~= seq![47u8, 47u8]);
            }
            if size > remaining {
                return false;
            }
            table_len = size;
        } else if ilen >= 1 && b[pos] == 47 {
            proof {
                assert(spec_trim_sp_end(idseq)[0] == b@[pos as int]);
                assert(spec_trim_sp_end(idseq) != seq![47u8]);
                assert(spec_trim_sp_end(idseq) != seq![47u8, 47u8]);
            }
            let start = match parse_size_field(b, pos + 1, pos + 16) {
                Some(v) => v,
                None => {
                    return false;
                },
            };
            if start > table_len {
                return false;
            }
        } else if ilen >= 3 && b[pos] == 35 && b[pos + 1] == 49 && b[pos + 2] == 47 {
            proof {
                assert(spec_trim_sp_end(idseq)[0] == b@[pos as int]);
                assert(spec_trim_sp_end(idseq)[1] == b@[pos + 1]);
                assert(spec_trim_sp_end(idseq)[2] == b@[pos + 2]);
                assert(spec_trim_sp_end(idseq) != seq![47u8]);
                assert(spec_trim_sp_end(idseq) != seq![47u8, 47u8]);
            }
            let p = match parse_size_field(b, pos + 3, pos + 16) {
                Some(v) => v,
                None => {
                    return false;
                },
            };
            if p > remaining {
                return false;
            }
        } else {
            proof {
                if spec_trim_sp_end(idseq) == seq![47u8] {
                    assert(idseq[0] == b@[pos as int]);
                    assert(false);
                }
                if spec_trim_sp_end(idseq) == seq![47u8, 47u8] {
                    assert(idseq[0] == b@[pos as int]);
                    assert(idseq[1] == b@[pos + 1]);
                    assert(false);
                }
            }
        }
        let pad: u64 = if size % 2 == 1 {
            1
        } else {
            0
        };
        let adv: u64 = 60 + size + pad;
        let len64: u64 = b.len() as u64;
        let next: u64 = if adv > len64 - (pos as u64) {
            len64
        } else {
            (pos as u64) + adv
        };
        pos = next as usize;
    }
    true
}

/// Relies on `ar::Archive::next_entry`: it enumerates the members of the
/// outer archive in order, each with its identifier bytes and its contents.
/// The precondition keeps the input inside `ar` 0.9's documented error
/// behaviour: it rules out the malformed name-table references and
/// oversized length fields on which that crate would panic or allocate
/// unboundedly instead of returning an error.
#[verifier::external_body]
fn ar_members(bytes: &Vec<u8>) -> (r: Result<Vec<ArMember>, DebError>)
    requires
        spec_ar_safe(bytes@),
    ensures
        r is Ok <==> ar_parse(bytes@) is Some,
        r is Ok ==> {
            let ms = ar_parse(bytes@)->0;
            &&& r->Ok_0@.len() == ms.len()
            &&& forall|i: int|
                0 <= i < ms.len() ==> ((#[trigger] r->Ok_0@[i]).name@, r->Ok_0@[i].data@) == ms[i]
        },
        r is Err ==> r->Err_0 == DebError::OuterArchive,
{
    let mut out: Vec<ArMember> = Vec::new();
    let mut archive = ar::Archive::new(bytes.as_slice());
    while let Some(er) = archive.next_entry() {
        let mut e = er.map_err(|_| DebError::OuterArchive)?;
        let name = e.header().identifier().to_vec();
        let mut data: Vec<u8> = Vec::new();
        e.read_to_end(&mut data).map_err(|_| DebError::OuterArchive)?;
        out.push(ArMember { name, data });
    }
    Ok(out)
}

/// Relies on `libflate::gzip::Decoder`: it inflates a gzip stream, failing
/// on a corrupt one.
#[verifier::external_body]
fn gunzip(bytes: &Vec<u8>) -> (r: Result<Vec<u8>, DebError>)
    ensures
        r is Ok <==> gunzip_of(bytes@) is Some,
        r is Ok ==> r->Ok_0@ == gunzip_of(bytes@)->0,
        r is Err ==> r->Err_0 == DebError::Decompress,
{
    let mut d = libflate::gzip::Decoder::new(bytes.as_slice()).map_err(
        |_| DebError::Decompress,
    )?;
    let mut out: Vec<u8> = Vec::new();
    d.read_to_end(&mut out).map_err(|_| DebError::Decompress)?;
    Ok(out)
}

/// Relies on `lzma::reader::LzmaReader::new_decompressor`: it decompresses
/// an xz stream, failing on a corrupt one.
#[verifier::external_body]
fn unxz(bytes: &Vec<u8>) -> (r: Result<Vec<u8>, DebError>)
    ensures
        r is Ok <==> unxz_of(bytes@) is Some,
        r is Ok ==> r->Ok_0@ == unxz_of(bytes@)->0,
        r is Err ==> r->Err_0 == DebError::Decompress,
{
    let mut d = lzma::reader::LzmaReader::new_decompressor(bytes.as_slice()).map_err(
        |_| DebError::Decompress,
    )?;
    let mut out: Vec<u8> = Vec::new();
    d.read_to_end(&mut out).map_err(|_| DebError::Decompress)?;
    Ok(out)
}

/// Relies on `tar::Archive::entries`: it yields every entry of a tar stream
/// in order, with its path bytes, its entry type, its link target bytes and
/// its contents.
#[verifier::external_body]
fn tar_entries(bytes: &Vec<u8>) -> (r: Result<Vec<TarEntryRaw>, DebError>)
    ensures
        r is Ok <==> tar_parse(bytes@) is Some,
        r is Ok ==> {
            let es = tar_parse(bytes@)->0;
            &&& r->Ok_0@.len() == es.len()
            &&& forall|i: int| 0 <= i < es.len() ==> (#[trigger] r->Ok_0@[i])@ == es[i]
        },
        r is Err ==> r->Err_0 == DebError::TarFormat,
{
    let mut a = tar::Archive::new(bytes.as_slice());
    let mut v: Vec<TarEntryRaw> = Vec::new();
    for e in a.entries().map_err(|_| DebError::TarFormat)? {
        let mut e = e.map_err(|_| DebError::TarFormat)?;
        let kind = match e.header().entry_type() { EntryType::Regular => EntryKind::Regular, EntryType::Symlink => EntryKind::Symlink, EntryType::Link => EntryKind::HardLink, _ => EntryKind::Other };
        let path = e.path_bytes().to_vec();
        let link = e.link_name_bytes().unwrap_or_default().to_vec();
        let mut data = vec![];
        e.read_to_end(&mut data).map_err(|_| DebError::TarFormat)?;
        v.push(TarEntryRaw { path, kind, link, data });
    }
    Ok(v)
}

/// How a member of the outer archive is treated, by its name.
#[derive(Clone, Copy, Debug, PartialEq, Eq, Structural)]
pub enum MemberClass {
    ControlGz,
    ControlXz,
    Data,
    Skip,
}

/// Classifies an outer member by its name.
pub open spec fn spec_classify_member(name: Seq<char>) -> MemberClass {
    if name == "control.tar.gz"@ {
        MemberClass::ControlGz
    } else if name == "control.tar.xz"@ {
        MemberClass::ControlXz
    } else if name == "data.tar.xz"@ {
        MemberClass::Data
    } else {
        MemberClass::Skip
    }
}

/// Classifies an outer member by its name.
pub fn classify_member(name: &str) -> (r: MemberClass)
    ensures
        r == spec_classify_member(name@),
{
    if crate::chars::str_eq(name, "control.tar.gz") {
        MemberClass::ControlGz
    } else if crate::chars::str_eq(name, "control.tar.xz") {
        MemberClass::ControlXz
    } else if crate::chars::str_eq(name, "data.tar.xz") {
        MemberClass::Data
    } else {
        MemberClass::Skip
    }
}

/// One entry of the data member, decoded.
pub struct FileEntry {
    pub path: String,
    pub kind: EntryKind,
    pub link_target: String,
    pub data: Vec<u8>,
}

/// The mathematical image of a decoded entry.
pub ghost struct FileEntryV {
    pub path: Seq<char>,
    pub kind: EntryKind,
    pub link: Seq<char>,
    pub data: Seq<u8>,
}

impl View for FileEntry {
    type V = FileEntryV;

    open spec fn view(&self) -> FileEntryV {
        FileEntryV {
            path: self.path@,
            kind: self.kind,
            link: self.link_target@,
            data: self.data@,
        }
    }
}

/// One decoder callback, as a value.
pub enum DebEvent {
    Conffiles { data: Vec<u8> },
    Control { fields: FieldMap },
    File { entry: FileEntry },
}

/// The mathematical image of one decoder callback.
pub ghost enum EventV {
    Conffiles { data: Seq<u8> },
    Control { fields: Seq<(Seq<char>, Seq<char>)> },
    File { entry: FileEntryV },
}

impl View for DebEvent {
    type V = EventV;

    open spec fn view(&self) -> EventV {
        match self {
            DebEvent::Conffiles { data } => EventV::Conffiles { data: data@ },
            DebEvent::Control { fields } => EventV::Control { fields: fields@ },
            DebEvent::File { entry } => EventV::File { entry: entry@ },
        }
    }
}

/// The views of a vector of events.
pub open spec fn events_view(v: Seq<DebEvent>) -> Seq<EventV> {
    Seq::new(v.len(), |i: int| v[i]@)
}

/// Folds the lines of a control text into a field mapping: a line opening
/// with a space is ignored, and any other line must split at `": "`.
pub open spec fn spec_control_fold(
    lines: Seq<Seq<char>>,
    fields: Seq<(Seq<char>, Seq<char>)>,
) -> Result<Seq<(Seq<char>, Seq<char>)>, DebError>
    decreases lines.len(),
{
    if lines.len() == 0 {
        Ok(fields)
    } else {
        let l = lines[0];
        if l.len() > 0 && l[0] == ' ' {
            spec_control_fold(lines.drop_first(), fields)
        } else {
            match spec_split_control_line(l) {
                None => Err(DebError::MalformedLine),
                Some(kv) => spec_control_fold(
                    lines.drop_first(),
                    spec_insert(fields, kv.0, kv.1),
                ),
            }
        }
    }
}

/// The field mapping parsed from a control text.
pub open spec fn spec_parse_control(text: Seq<char>) -> Result<
    Seq<(Seq<char>, Seq<char>)>,
    DebError,
> {
    spec_control_fold(spec_lines(text), Seq::empty())
}

/// No pair of the mapping carries a newline in its name or its value.
pub open spec fn no_newline_pairs(fields: Seq<(Seq<char>, Seq<char>)>) -> bool {
    forall|i: int|
        0 <= i < fields.len() ==> !(#[trigger] fields[i]).0.contains('\n')
            && !fields[i].1.contains('\n')
}

/// The control fold keeps the mapping free of newlines, since every pair
/// it inserts is cut out of a newline-free line.
pub proof fn lemma_control_fold_no_newline(
    lines: Seq<Seq<char>>,
    fields: Seq<(Seq<char>, Seq<char>)>,
)
    requires
        forall|k: int| 0 <= k < lines.len() ==> !(#[trigger] lines[k]).contains('\n'),
        no_newline_pairs(fields),
        spec_control_fold(lines, fields) is Ok,
    ensures
        no_newline_pairs(spec_control_fold(lines, fields)->Ok_0),
    decreases lines.len(),
{
    if lines.len() > 0 {
        let l = lines[0];
        let tail = lines.drop_first();
        assert forall|k: int| 0 <= k < tail.len() implies !(#[trigger] tail[k]).contains(
            '\n',
        ) by {
            assert(tail[k] == lines[k + 1]);
        }
        if l.len() > 0 && l[0] == ' ' {
            lemma_control_fold_no_newline(tail, fields);
        } else {
            let kv = crate::lines::spec_split_control_line(l)->0;
            assert(!kv.0.contains('\n') && !kv.1.contains('\n')) by {
                crate::lines::lemma_find_colon_space(l);
                if kv.0.contains('\n') {
                    let w = choose|w: int| 0 <= w < kv.0.len() && kv.0[w] == '\n';
                    assert(l[w] == '\n');
                    assert(l.contains('\n'));
                }
                if kv.1.contains('\n') {
                    let w = choose|w: int| 0 <= w < kv.1.len() && kv.1[w] == '\n';
                    assert(l[w + crate::lines::spec_find_colon_space(l) + 2] == '\n');
                    assert(l.contains('\n'));
                }
            }
            let f2 = spec_insert(fields, kv.0, kv.1);
            assert(no_newline_pairs(f2)) by {
                let idx = spec_key_index(fields, kv.0);
                assert forall|i: int|
                    0 <= i < f2.len() implies !(#[trigger] f2[i]).0.contains('\n')
                    && !f2[i].1.contains('\n') by {
                    if idx < 0 {
                        if i < fields.len() {
                            assert(f2[i] == fields[i]);
                        } else {
                            assert(f2[i] == (kv.0, kv.1));
                        }
                    } else {
                        crate::fields::lemma_key_index(fields, kv.0);
                        if i == idx {
                            assert(f2[i] == (kv.0, kv.1));
                        } else {
                            assert(f2[i] == fields[i]);
                        }
                    }
                }
            }
            lemma_control_fold_no_newline(tail, f2);
        }
    }
}

/// Every pair of a decoded control mapping is free of newlines.
pub proof fn lemma_parse_control_no_newline(text: Seq<char>)
    requires
        spec_parse_control(text) is Ok,
    ensures
        no_newline_pairs(spec_parse_control(text)->Ok_0),
{
    crate::lines::lemma_lines_no_newline(text);
    lemma_control_fold_no_newline(spec_lines(text), Seq::empty());
}

/// Parses control text lines into an existing field mapping.
pub fn parse_control_into(fields: &mut FieldMap, text: &Vec<char>) -> (r: Result<(), DebError>)
    ensures
        match spec_control_fold(spec_lines(text@), old(fields)@) {
            Ok(f2) => {
                &&& r is Ok
                &&& final(fields)@ == f2
                &&& old(fields).wf() ==> final(fields).wf()
            },
            Err(e) => r == Err::<(), DebError>(e),
        },
{
    let lines = crate::lines::split_lines(text);
    let ghost all_lines = lines.deep_view();
    let ghost total = spec_control_fold(all_lines, old(fields)@);
    let mut i: usize = 0;
    proof {
        assert(all_lines.skip(0) =~~= all_lines);
    }
    while i < lines.len()
        invariant
            i <= lines@.len(),
            all_lines == lines.deep_view(),
            all_lines == spec_lines(text@),
            all_lines.len() == lines@.len(),
            total == spec_control_fold(all_lines, old(fields)@),
            spec_control_fold(all_lines.skip(i as int), fields@) == total,
            old(fields).wf() ==> fields.wf(),
        decreases lines@.len() - i,
    {
        let ghost rest = all_lines.skip(i as int);
        proof {
            assert(rest[0] == lines@[i as int]@);
            assert(rest.drop_first() =~~= all_lines.skip(i + 1));
        }
        let line = &lines[i];
        if line.len() > 0 && line[0] == ' ' {
            // A continuation line; its content is dropped.
        } else {
            match crate::lines::split_control_line(line) {
                None => {
                    return Err(DebError::MalformedLine);
                },
                Some(kv) => {
                    let ks = crate::chars::chars_to_string(&kv.0);
                    let vs = crate::chars::chars_to_string(&kv.1);
                    fields.insert(ks, vs);
                },
            }
        }
        i = i + 1;
    }
    proof {
        assert(all_lines.skip(i as int) =~~= Seq::<Seq<char>>::empty());
    }
    Ok(())
}

/// Folds the entries of the control member: a `./control` entry is parsed
/// into the field mapping, a `./conffiles` entry becomes an event, and any
/// other entry is ignored.
pub open spec fn spec_control_entries_fold(
    es: Seq<TarEntryRawV>,
    evs: Seq<EventV>,
    fields: Seq<(Seq<char>, Seq<char>)>,
) -> Result<(Seq<EventV>, Seq<(Seq<char>, Seq<char>)>), DebError>
    decreases es.len(),
{
    if es.len() == 0 {
        Ok((evs, fields))
    } else {
        let e = es[0];
        if !valid_utf8(e.path) {
            Err(DebError::BadUtf8)
        } else {
            let p = decode_utf8(e.path);
            if p == "./control"@ {
                if !valid_utf8(e.data) {
                    Err(DebError::BadUtf8)
                } else {
                    match spec_control_fold(spec_lines(decode_utf8(e.data)), fields) {
                        Err(er) => Err(er),
                        Ok(f2) => spec_control_entries_fold(es.drop_first(), evs, f2),
                    }
                }
            } else if p == "./conffiles"@ {
                spec_control_entries_fold(
                    es.drop_first(),
                    evs.push(EventV::Conffiles { data: e.data }),
                    fields,
                )
            } else {
                spec_control_entries_fold(es.drop_first(), evs, fields)
            }
        }
    }
}

/// The events of a decompressed control member: its conffiles entries in
/// order, then one control event with the parsed fields.
pub open spec fn spec_control_member_events(t: Seq<u8>) -> Result<Seq<EventV>, DebError> {
    match tar_parse(t) {
        None => Err(DebError::TarFormat),
        Some(es) => match spec_control_entries_fold(es, Seq::empty(), Seq::empty()) {
            Err(e) => Err(e),
            Ok(r) => Ok(r.0.push(EventV::Control { fields: r.1 })),
        },
    }
}

/// The file events of a decompressed data member, one per tar entry.
pub open spec fn spec_data_entries_fold(es: Seq<TarEntryRawV>, evs: Seq<EventV>) -> Result<
    Seq<EventV>,
    DebError,
>
    decreases es.len(),
{
    if es.len() == 0 {
        Ok(evs)
    } else {
        let e = es[0];
        if !valid_utf8(e.path) || !valid_utf8(e.link) {
            Err(DebError::BadUtf8)
        } else {
            spec_data_entries_fold(
                es.drop_first(),
                evs.push(
                    EventV::File {
                        entry: FileEntryV {
                            path: decode_utf8(e.path),
                            kind: e.kind,
                            link: decode_utf8(e.link),
                            data: e.data,
                        },
                    },
                ),
            )
        }
    }
}

/// The events of one outer member, by its classification.
pub open spec fn spec_member_events(name: Seq<u8>, data: Seq<u8>) -> Result<Seq<EventV>, DebError> {
    if !valid_utf8(name) {
        Err(DebError::BadUtf8)
    } else {
        match spec_classify_member(decode_utf8(name)) {
            MemberClass::ControlGz => match gunzip_of(data) {
                None => Err(DebError::Decompress),
                Some(t) => spec_control_member_events(t),
            },
            MemberClass::ControlXz => match unxz_of(data) {
                None => Err(DebError::Decompress),
                Some(t) => spec_control_member_events(t),
            },
            MemberClass::Data => match unxz_of(data) {
                None => Err(DebError::Decompress),
                Some(t) => match tar_parse(t) {
                    None => Err(DebError::TarFormat),
                    Some(es) => spec_data_entries_fold(es, Seq::empty()),
                },
            },
            MemberClass::Skip => Ok(Seq::empty()),
        }
    }
}

/// The events of a member sequence, concatenated in order.
pub open spec fn spec_members_fold(ms: Seq<(Seq<u8>, Seq<u8>)>, evs: Seq<EventV>) -> Result<
    Seq<EventV>,
    DebError,
>
    decreases ms.len(),
{
    if ms.len() == 0 {
        Ok(evs)
    } else {
        match spec_member_events(ms[0].0, ms[0].1) {
            Err(e) => Err(e),
            Ok(e2) => spec_members_fold(ms.drop_first(), evs + e2),
        }
    }
}

/// Every event of a deb byte stream, in decode order. A stream on which
/// the outer-archive reader cannot be trusted is refused outright.
pub open spec fn spec_decode_deb(b: Seq<u8>) -> Result<Seq<EventV>, DebError> {
    if !spec_ar_safe(b) {
        Err(DebError::OuterArchive)
    } else {
        match ar_parse(b) {
            None => Err(DebError::OuterArchive),
            Some(ms) => spec_members_fold(ms, Seq::empty()),
        }
    }
}

/// Decodes the control member's embedded tar, pushing its events.
fn control_member_into(t: &Vec<u8>, out: &mut Vec<DebEvent>) -> (r: Result<(), DebError>)
    ensures
        match spec_control_member_events(t@) {
            Ok(evs) => {
                &&& r is Ok
                &&& events_view(final(out)@) == events_view(old(out)@) + evs
            },
            Err(e) => r == Err::<(), DebError>(e),
        },
{
    let entries = match tar_entries(t) {
        Ok(es) => es,
        Err(e) => {
            return Err(e);
        },
    };
    let ghost es_v = tar_parse(t@)->0;
    let mut fields = FieldMap::new();
    let ghost evs0 = Seq::<EventV>::empty();
    let ghost n0 = out@.len();
    let ghost total = spec_control_entries_fold(es_v, Seq::empty(), Seq::empty());
    let mut i: usize = 0;
    proof {
        assert(es_v.skip(0) =~~= es_v);
        assert(events_view(out@).skip(n0 as int) =~~= Seq::<EventV>::empty());
    }
    while i < entries.len()
        invariant
            i <= entries@.len(),
            entries@.len() == es_v.len(),
            forall|j: int| 0 <= j < es_v.len() ==> (#[trigger] entries@[j])@ == es_v[j],
            tar_parse(t@) == Some(es_v),
            n0 <= out@.len(),
            events_view(out@).take(n0 as int) == events_view(old(out)@),
            total == spec_control_entries_fold(es_v, Seq::empty(), Seq::empty()),
            spec_control_entries_fold(
                es_v.skip(i as int),
                events_view(out@).skip(n0 as int),
                fields@,
            ) == total,
            fields.wf(),
        decreases entries@.len() - i,
    {
        let ghost rest = es_v.skip(i as int);
        proof {
            assert(rest[0] == es_v[i as int]);
            assert(rest.drop_first() =~~= es_v.skip(i + 1));
        }
        let e = &entries[i];
        let path_str = match crate::chars::utf8_to_string(&e.path) {
            Some(s) => s,
            None => {
                return Err(DebError::BadUtf8);
            },
        };
        if crate::chars::str_eq(path_str.as_str(), "./control") {
            let text = match crate::chars::utf8_to_string(&e.data) {
                Some(s) => s,
                None => {
                    return Err(DebError::BadUtf8);
                },
            };
            let text_chars = crate::chars::str_to_chars(text.as_str());
            match parse_control_into(&mut fields, &text_chars) {
                Ok(()) => {},
                Err(er) => {
                    return Err(er);
                },
            }
        } else if crate::chars::str_eq(path_str.as_str(), "./conffiles") {
            let ghost before = events_view(out@);
            out.push(DebEvent::Conffiles { data: e.data.clone() });
            proof {
                assert(events_view(out@) =~~= before + seq![
                    EventV::Conffiles { data: es_v[i as int].data },
                ]);
                assert(events_view(out@).take(n0 as int) =~~= events_view(old(out)@));
                assert(events_view(out@).skip(n0 as int) =~~= before.skip(n0 as int).push(
                    EventV::Conffiles { data: es_v[i as int].data },
                ));
            }
        } else {
            // Any other control entry is ignored.
        }
        i = i + 1;
    }
    proof {
        assert(es_v.skip(i as int) =~~= Seq::<TarEntryRawV>::empty());
    }
    let ghost before = events_view(out@);
    out.push(DebEvent::Control { fields });
    proof {
        let fs = (total->Ok_0).1;
        assert(events_view(out@) =~~= before + seq![EventV::Control { fields: fs }]);
        assert(events_view(out@).take(n0 as int) =~~= events_view(old(out)@));
        assert(events_view(out@) =~~= events_view(old(out)@) + (events_view(out@).skip(
            n0 as int,
        )));
        assert(events_view(out@).skip(n0 as int) =~~= before.skip(n0 as int).push(
            EventV::Control { fields: fs },
        ));
    }
    Ok(())
}

/// Decodes the data member's embedded tar, pushing one file event per entry.
fn data_member_into(t: &Vec<u8>, out: &mut Vec<DebEvent>) -> (r: Result<(), DebError>)
    ensures
        match spec_member_data_events(t@) {
            Ok(evs) => {
                &&& r is Ok
                &&& events_view(final(out)@) == events_view(old(out)@) + evs
            },
            Err(e) => r == Err::<(), DebError>(e),
        },
{
    let entries = match tar_entries(t) {
        Ok(es) => es,
        Err(e) => {
            return Err(e);
        },
    };
    let ghost es_v = tar_parse(t@)->0;
    let ghost n0 = out@.len();
    let ghost total = spec_data_entries_fold(es_v, Seq::empty());
    let mut i: usize = 0;
    proof {
        assert(es_v.skip(0) =~~= es_v);
        assert(events_view(out@).skip(n0 as int) =~~= Seq::<EventV>::empty());
    }
    while i < entries.len()
        invariant
            i <= entries@.len(),
            entries@.len() == es_v.len(),
            forall|j: int| 0 <= j < es_v.len() ==> (#[trigger] entries@[j])@ == es_v[j],
            tar_parse(t@) == Some(es_v),
            n0 <= out@.len(),
            events_view(out@).take(n0 as int) == events_view(old(out)@),
            total == spec_data_entries_fold(es_v, Seq::empty()),
            spec_data_entries_fold(es_v.skip(i as int), events_view(out@).skip(n0 as int))
                == total,
        decreases entries@.len() - i,
    {
        let ghost rest = es_v.skip(i as int);
        proof {
            assert(rest[0] == es_v[i as int]);
            assert(rest.drop_first() =~~= es_v.skip(i + 1));
        }
        let e = &entries[i];
        let path_str = match crate::chars::utf8_to_string(&e.path) {
            Some(s) => s,
            None => {
                return Err(DebError::BadUtf8);
            },
        };
        let link_str = match crate::chars::utf8_to_string(&e.link) {
            Some(s) => s,
            None => {
                return Err(DebError::BadUtf8);
            },
        };
        let entry = FileEntry {
            path: path_str,
            kind: e.kind,
            link_target: link_str,
            data: e.data.clone(),
        };
        let ghost entry_v = entry@;
        let ghost before = events_view(out@);
        out.push(DebEvent::File { entry });
        proof {
            assert(events_view(out@) =~~= before + seq![EventV::File { entry: entry_v }]);
            assert(events_view(out@).take(n0 as int) =~~= events_view(old(out)@));
            assert(events_view(out@).skip(n0 as int) =~~= before.skip(n0 as int).push(
                EventV::File { entry: entry_v },
            ));
        }
        i = i + 1;
    }
    proof {
        assert(es_v.skip(i as int) =~~= Seq::<TarEntryRawV>::empty());
        assert(events_view(out@) =~~= events_view(old(out)@) + (events_view(out@).skip(
            n0 as int,
        )));
    }
    Ok(())
}

/// The file events of a data member's bytes.
pub open spec fn spec_member_data_events(t: Seq<u8>) -> Result<Seq<EventV>, DebError> {
    match tar_parse(t) {
        None => Err(DebError::TarFormat),
        Some(es) => spec_data_entries_fold(es, Seq::empty()),
    }
}

/// Decodes a whole deb byte stream into its events.
pub fn decode_deb(deb: &Vec<u8>) -> (r: Result<Vec<DebEvent>, DebError>)
    ensures
        r is Ok <==> spec_decode_deb(deb@) is Ok,
        r is Ok ==> events_view(r->Ok_0@) == spec_decode_deb(deb@)->Ok_0,
        r is Err ==> r->Err_0 == spec_decode_deb(deb@)->Err_0,
{
    if !ar_input_safe(deb) {
        return Err(DebError::OuterArchive);
    }
    let members = match ar_members(deb) {
        Ok(ms) => ms,
        Err(e) => {
            return Err(e);
        },
    };
    let ghost ms_v = ar_parse(deb@)->0;
    let ghost total = spec_members_fold(ms_v, Seq::empty());
    let mut out: Vec<DebEvent> = Vec::new();
    let mut i: usize = 0;
    proof {
        assert(ms_v.skip(0) =~~= ms_v);
        assert(events_view(out@) =~~= Seq::<EventV>::empty());
    }
    while i < members.len()
        invariant
            i <= members@.len(),
            members@.len() == ms_v.len(),
            forall|j: int|
                0 <= j < ms_v.len() ==> ((#[trigger] members@[j]).name@, members@[j].data@)
                    == ms_v[j],
            spec_ar_safe(deb@),
            ar_parse(deb@) == Some(ms_v),
            total == spec_members_fold(ms_v, Seq::empty()),
            spec_members_fold(ms_v.skip(i as int), events_view(out@)) == total,
        decreases members@.len() - i,
    {
        let ghost rest = ms_v.skip(i as int);
        proof {
            assert(rest[0] == ms_v[i as int]);
            assert(rest.drop_first() =~~= ms_v.skip(i + 1));
        }
        let m = &members[i];
        let name_str = match crate::chars::utf8_to_string(&m.name) {
            Some(s) => s,
            None => {
                return Err(DebError::BadUtf8);
            },
        };
        match classify_member(name_str.as_str()) {
            MemberClass::ControlGz => {
                let t = match gunzip(&m.data) {
                    Ok(t) => t,
                    Err(e) => {
                        return Err(e);
                    },
                };
                match control_member_into(&t, &mut out) {
                    Ok(()) => {},
                    Err(e) => {
                        return Err(e);
                    },
                }
            },
            MemberClass::ControlXz => {
                let t = match unxz(&m.data) {
                    Ok(t) => t,
                    Err(e) => {
                        return Err(e);
                    },
                };
                match control_member_into(&t, &mut out) {
                    Ok(()) => {},
                    Err(e) => {
                        return Err(e);
                    },
                }
            },
            MemberClass::Data => {
                let t = match unxz(&m.data) {
                    Ok(t) => t,
                    Err(e) => {
                        return Err(e);
                    },
                };
                match data_member_into(&t, &mut out) {
                    Ok(()) => {},
                    Err(e) => {
                        return Err(e);
                    },
                }
            },
            MemberClass::Skip => {},
        }
        i = i + 1;
    }
    proof {
        assert(ms_v.skip(i as int) =~~= Seq::<(Seq<u8>, Seq<u8>)>::empty());
    }
    Ok(out)
}

/// The capability interface the decoder drives. A visitor names its
/// abstract state and one transition per decoder event; each callback must
/// realise that transition, and the decoder in turn promises to fold it
/// over every decoded event, in decode order.
pub trait DebVisitor: Sized {
    /// The visitor's abstract state.
    type StateV;

    /// The abstract state of this visitor value.
    spec fn vstate(&self) -> Self::StateV;

    /// How one decoder event changes the abstract state, or which error it
    /// raises.
    spec fn vstep(st: Self::StateV, ev: EventV) -> Result<Self::StateV, DebError>;

    /// Receives the completed control mapping, once per decoded package.
    fn visit_control(&mut self, fields: &FieldMap) -> (r: Result<(), DebError>)
        ensures
            match Self::vstep(old(self).vstate(), EventV::Control { fields: fields@ }) {
                Ok(v) => r is Ok && final(self).vstate() == v,
                Err(e) => r == Err::<(), DebError>(e),
            },
    ;

    /// Receives the raw bytes of the declared configuration-file list.
    fn visit_conffiles(&mut self, data: &Vec<u8>) -> (r: Result<(), DebError>)
        ensures
            match Self::vstep(old(self).vstate(), EventV::Conffiles { data: data@ }) {
                Ok(v) => r is Ok && final(self).vstate() == v,
                Err(e) => r == Err::<(), DebError>(e),
            },
    ;

    /// Receives each entry of the data member.
    fn visit_file(&mut self, entry: &FileEntry) -> (r: Result<(), DebError>)
        ensures
            match Self::vstep(old(self).vstate(), EventV::File { entry: entry@ }) {
                Ok(v) => r is Ok && final(self).vstate() == v,
                Err(e) => r == Err::<(), DebError>(e),
            },
    ;
}

/// The visitor's abstract state after a sequence of decoder events, or the
/// first error one of its transitions raises.
pub open spec fn spec_visit_fold<V: DebVisitor>(st: V::StateV, evs: Seq<EventV>) -> Result<
    V::StateV,
    DebError,
>
    decreases evs.len(),
{
    if evs.len() == 0 {
        Ok(st)
    } else {
        match V::vstep(st, evs[0]) {
            Err(e) => Err(e),
            Ok(s2) => spec_visit_fold::<V>(s2, evs.drop_first()),
        }
    }
}

/// Decodes a deb byte stream and drives the visitor with each event, in
/// decode order: on success the visitor's abstract state is its transition
/// folded over every decoded event, and every decode or visitor error is
/// returned exactly.
pub fn visit_files<V: DebVisitor>(deb: &Vec<u8>, visitor: &mut V) -> (r: Result<(), DebError>)
    ensures
        match spec_decode_deb(deb@) {
            Err(e) => r == Err::<(), DebError>(e),
            Ok(evs) => match spec_visit_fold::<V>(old(visitor).vstate(), evs) {
                Ok(v) => r is Ok && final(visitor).vstate() == v,
                Err(e) => r == Err::<(), DebError>(e),
            },
        },
{
    let events = match decode_deb(deb) {
        Ok(evs) => evs,
        Err(e) => {
            return Err(e);
        },
    };
    let ghost evs = events_view(events@);
    let ghost total = spec_visit_fold::<V>(visitor.vstate(), evs);
    let mut i: usize = 0;
    proof {
        assert(evs.skip(0) =~~= evs);
    }
    while i < events.len()
        invariant
            i <= events@.len(),
            evs == events_view(events@),
            evs.len() == events@.len(),
            spec_decode_deb(deb@) == Ok::<Seq<EventV>, DebError>(evs),
            total == spec_visit_fold::<V>(old(visitor).vstate(), evs),
            spec_visit_fold::<V>(visitor.vstate(), evs.skip(i as int)) == total,
        decreases events@.len() - i,
    {
        let ghost rest = evs.skip(i as int);
        proof {
            assert(rest[0] == evs[i as int]);
            assert(rest.drop_first() =~~= evs.skip(i + 1));
        }
        let res = match &events[i] {
            DebEvent::Conffiles { data } => visitor.visit_conffiles(data),
            DebEvent::Control { fields } => visitor.visit_control(fields),
            DebEvent::File { entry } => visitor.visit_file(entry),
        };
        match res {
            Ok(()) => {},
            Err(e) => {
                return Err(e);
            },
        }
        i = i + 1;
    }
    proof {
        assert(evs.skip(i as int) =~~= Seq::<EventV>::empty());
    }
    Ok(())
}

} // verus!
