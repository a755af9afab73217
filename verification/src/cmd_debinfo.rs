//! The single-package inspector's formatting: one `name: value` line per
//! control field.

use vstd::prelude::*;
use vstd::string::StringExecFns;

use crate::fields::FieldMap;

verus! {

/// The formatted line of one field pair.
pub open spec fn spec_info_line(p: (Seq<char>, Seq<char>)) -> Seq<char> {
    p.0 + ": "@ + p.1
}

/// Formats every field of a control mapping as a `name: value` line, in
/// field order.
pub fn field_lines(fields: &FieldMap) -> (r: Vec<String>)
    ensures
        r@.len() == fields@.len(),
        forall|i: int| 0 <= i < r@.len() ==> (#[trigger] r@[i])@ == spec_info_line(fields@[i]),
{
    let mut r: Vec<String> = Vec::new();
    let n = fields.len();
    let mut i: usize = 0;
    while i < n
        invariant
            i <= n,
            n == fields@.len(),
            r@.len() == i,
            forall|j: int| 0 <= j < i ==> (#[trigger] r@[j])@ == spec_info_line(fields@[j]),
        decreases n - i,
    {
        let kv = fields.pair_at(i);
        let line = kv.0.clone().concat(": ").concat(kv.1.as_str());
        r.push(line);
        i = i + 1;
    }
    r
}

} // verus!
