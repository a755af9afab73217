//! The package index: records fetched from the repository's `Packages`
//! document, one ordered field map per package.

use vstd::prelude::*;
use vstd::hash_map::StringHashMap;
use vstd::string::StringExecFns;

use crate::errors::DebError;
use crate::fields::{FieldMap, spec_get, spec_insert};
use crate::lines::{spec_find_char, spec_lines, spec_trim};

verus! {

/// One record of the package index.
pub struct Package {
    pub fields: FieldMap,
}

impl View for Package {
    type V = Seq<(Seq<char>, Seq<char>)>;

    open spec fn view(&self) -> Seq<(Seq<char>, Seq<char>)> {
        self.fields@
    }
}

/// The base location every package download locator is derived from.
pub open spec fn spec_repo_base_url() -> Seq<char> {
    "https://dl.bintray.com/termux/termux-packages-24/"@
}

impl Package {
    /// The download locator of the record: the fixed base location followed
    /// by the record's `Filename` field.
    pub fn package_url(&self) -> (r: String)
        requires
            spec_get(self@, "Filename"@) is Some,
        ensures
            r@ == spec_repo_base_url() + spec_get(self@, "Filename"@)->0,
    {
        match self.fields.get("Filename") {
            Some(f) => {
                let base = String::from_str("https://dl.bintray.com/termux/termux-packages-24/");
                base.concat(f.as_str())
            },
            None => vstd::pervasive::unreached(),
        }
    }
}

/// The location of the `Packages` index document for an architecture.
pub fn packages_index_url(arch: &str) -> (r: String)
    ensures
        r@ == "https://dl.bintray.com/termux/termux-packages-24/dists/stable/main/binary-"@
            + arch@ + "/Packages"@,
{
    let base = String::from_str(
        "https://dl.bintray.com/termux/termux-packages-24/dists/stable/main/binary-",
    );
    base.concat(arch).concat("/Packages")
}

/// One step of the index parse, on the remaining lines: an empty line closes
/// the current record under its `Package` field, a line opening with a space
/// is ignored, and any other line is split at its first colon, the value
/// trimmed.
pub open spec fn spec_packages_fold(
    lines: Seq<Seq<char>>,
    m: Map<Seq<char>, Seq<(Seq<char>, Seq<char>)>>,
    cur: Seq<(Seq<char>, Seq<char>)>,
) -> Result<(Map<Seq<char>, Seq<(Seq<char>, Seq<char>)>>, Seq<(Seq<char>, Seq<char>)>), DebError>
    decreases lines.len(),
{
    if lines.len() == 0 {
        Ok((m, cur))
    } else {
        let l = lines[0];
        if l.len() == 0 {
            match spec_get(cur, "Package"@) {
                None => Err(DebError::MissingField),
                Some(name) => spec_packages_fold(
                    lines.drop_first(),
                    m.insert(name, cur),
                    Seq::empty(),
                ),
            }
        } else if l[0] == ' ' {
            spec_packages_fold(lines.drop_first(), m, cur)
        } else {
            let i = spec_find_char(l, ':');
            if i < 0 {
                Err(DebError::MalformedLine)
            } else {
                spec_packages_fold(
                    lines.drop_first(),
                    m,
                    spec_insert(cur, l.take(i), spec_trim(l.skip(i + 1))),
                )
            }
        }
    }
}

/// The index parsed from the whole text: the line fold, with a final record
/// not closed by an empty line flushed at the end.
pub open spec fn spec_parse_packages(s: Seq<char>) -> Result<
    Map<Seq<char>, Seq<(Seq<char>, Seq<char>)>>,
    DebError,
> {
    match spec_packages_fold(spec_lines(s), Map::empty(), Seq::empty()) {
        Err(e) => Err(e),
        Ok((m, cur)) => if cur.len() == 0 {
            Ok(m)
        } else {
            match spec_get(cur, "Package"@) {
                None => Err(DebError::MissingField),
                Some(name) => Ok(m.insert(name, cur)),
            }
        },
    }
}

/// The mapping from package name to record of one architecture.
pub struct PackageIndex {
    map: StringHashMap<Package>,
}

impl View for PackageIndex {
    type V = Map<Seq<char>, Package>;

    closed spec fn view(&self) -> Map<Seq<char>, Package> {
        self.map@
    }
}

impl PackageIndex {
    /// Looks a package up by name.
    pub fn get<'a>(&'a self, name: &str) -> (r: Option<&'a Package>)
        ensures
            match r {
                Some(p) => self@.contains_key(name@) && *p == self@[name@],
                None => !self@.contains_key(name@),
            },
    {
        self.map.get(name)
    }

    /// The number of packages in the index.
    pub fn len(&self) -> (n: usize)
        ensures
            n == self@.len(),
    {
        self.map.len()
    }

    /// Resolves a package name in this index first, falling back to the
    /// architecture-independent index; absent in both is `None`, which the
    /// caller must treat as fatal.
    pub fn resolve<'a>(&'a self, fallback: &'a PackageIndex, name: &str) -> (r: Option<
        &'a Package,
    >)
        ensures
            match r {
                Some(p) => {
                    ||| (self@.contains_key(name@) && *p == self@[name@])
                    ||| (!self@.contains_key(name@) && fallback@.contains_key(name@) && *p
                        == fallback@[name@])
                },
                None => !self@.contains_key(name@) && !fallback@.contains_key(name@),
            },
    {
        match self.get(name) {
            Some(p) => Some(p),
            None => fallback.get(name),
        }
    }
}

/// The executable index agrees with the mathematical one: same names, and
/// each record's fields view for view.
pub open spec fn index_matches(
    m: Map<Seq<char>, Package>,
    sm: Map<Seq<char>, Seq<(Seq<char>, Seq<char>)>>,
) -> bool {
    &&& m.dom() == sm.dom()
    &&& forall|k: Seq<char>| sm.contains_key(k) ==> (#[trigger] m[k])@ == sm[k]
}

/// Parses a `Packages` index document into a mapping from package name to
/// record.
pub fn parse_packages(text: &str) -> (r: Result<PackageIndex, DebError>)
    ensures
        r is Ok <==> spec_parse_packages(text@) is Ok,
        r is Ok ==> index_matches(r->Ok_0@, spec_parse_packages(text@)->Ok_0),
        r is Err ==> r->Err_0 == spec_parse_packages(text@)->Err_0,
{
    let chars = crate::chars::str_to_chars(text);
    let lines = crate::lines::split_lines(&chars);
    let ghost all_lines = lines.deep_view();
    let mut m: StringHashMap<Package> = StringHashMap::new();
    let ghost mut sm = Map::<Seq<char>, Seq<(Seq<char>, Seq<char>)>>::empty();
    let mut cur = FieldMap::new();
    let mut i: usize = 0;
    proof {
        assert(all_lines.skip(0) =~~= all_lines);
        assert(m@.dom() =~= sm.dom());
    }
    let ghost total = spec_packages_fold(all_lines, Map::empty(), Seq::empty());
    while i < lines.len()
        invariant
            i <= lines@.len(),
            all_lines == lines.deep_view(),
            all_lines == spec_lines(text@),
            all_lines.len() == lines@.len(),
            total == spec_packages_fold(all_lines, Map::empty(), Seq::empty()),
            spec_packages_fold(all_lines.skip(i as int), sm, cur@) == total,
            index_matches(m@, sm),
        decreases lines@.len() - i,
    {
        let ghost rest = all_lines.skip(i as int);
        proof {
            assert(rest.len() > 0);
            assert(rest[0] == lines@[i as int]@);
            assert(rest.drop_first() =~~= all_lines.skip(i + 1));
        }
        let line = &lines[i];
        if line.len() == 0 {
            match cur.get("Package") {
                None => {
                    return Err(DebError::MissingField);
                },
                Some(name) => {
                    let name = name.clone();
                    let ghost name_v = name@;
                    let ghost cur_v = cur@;
                    let pkg = Package { fields: cur };
                    m.insert(name, pkg);
                    cur = FieldMap::new();
                    proof {
                        sm = sm.insert(name_v, cur_v);
                        assert(m@.dom() =~= sm.dom());
                    }
                },
            }
        } else if line[0] == ' ' {
            // A continuation line; its content is dropped.
        } else {
            match crate::lines::find_char_from(line, 0, ':') {
                None => {
                    proof {
                        crate::lines::lemma_find_char_none(rest[0], ':');
                    }
                    return Err(DebError::MalformedLine);
                },
                Some(j) => {
                    proof {
                        crate::lines::lemma_find_char_at(rest[0], ':', j as int);
                    }
                    let k = crate::lines::subrange_chars(line, 0, j);
                    let vraw = crate::lines::subrange_chars(line, j + 1, line.len());
                    let v = crate::lines::trim_chars(&vraw);
                    let ks = crate::chars::chars_to_string(&k);
                    let vs = crate::chars::chars_to_string(&v);
                    proof {
                        assert(rest[0].take(j as int) =~= k@);
                        assert(rest[0].skip(j + 1) =~= vraw@);
                    }
                    cur.insert(ks, vs);
                },
            }
        }
        i = i + 1;
    }
    proof {
        assert(all_lines.skip(i as int) =~~= Seq::<Seq<char>>::empty());
    }
    if cur.is_empty() {
        Ok(PackageIndex { map: m })
    } else {
        match cur.get("Package") {
            None => Err(DebError::MissingField),
            Some(name) => {
                let name = name.clone();
                let ghost name_v = name@;
                let ghost cur_v = cur@;
                let pkg = Package { fields: cur };
                m.insert(name, pkg);
                proof {
                    sm = sm.insert(name_v, cur_v);
                    assert(m@.dom() =~= sm.dom());
                }
                Ok(PackageIndex { map: m })
            },
        }
    }
}

} // verus!
