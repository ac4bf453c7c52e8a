//! The digit glyph loader: decides from a file's base name whether it is a
//! digit glyph and, if so, builds the embeddable `data:` reference from the
//! file's bytes.

use vstd::prelude::*;
use vstd::string::{StrSliceExecFns, StringExecFns};
use crate::mime::{spec_mime, mime_for};
use crate::encode::{base64_of, base64_encode};

verus! {

/// Index of the last `.` in a file name, if any.
pub open spec fn spec_last_dot(s: Seq<char>) -> Option<int>
    decreases s.len(),
{
    if s.len() == 0 {
        None
    } else if s.last() == '.' {
        Some(s.len() - 1)
    } else {
        spec_last_dot(s.drop_last())
    }
}

/// The extension of a file name: what follows the last dot, when that dot is
/// neither absent nor the leading character of a hidden file.
pub open spec fn spec_ext(name: Seq<char>) -> Option<Seq<char>> {
    match spec_last_dot(name) {
        None => None,
        Some(i) => if i == 0 {
            None
        } else {
            Some(name.skip(i + 1))
        },
    }
}

/// The stem of a file name: what precedes the last dot, or the whole name.
pub open spec fn spec_stem(name: Seq<char>) -> Seq<char> {
    match spec_last_dot(name) {
        None => name,
        Some(i) => if i == 0 {
            name
        } else {
            name.take(i)
        },
    }
}

/// The digit a glyph file stands for: the stem's leading character, when that
/// character is an ASCII digit.
pub open spec fn spec_digit_of(name: Seq<char>) -> Option<u64> {
    let stem = spec_stem(name);
    if stem.len() > 0 && 48 <= stem[0] as u32 <= 57 {
        Some((stem[0] as u32 - 48) as u64)
    } else {
        None
    }
}

/// The embeddable reference for glyph bytes with a given extension.
pub open spec fn spec_data_uri(ext: Seq<char>, bytes: Seq<u8>) -> Seq<char> {
    "data:"@ + spec_mime(ext) + ";base64,"@ + base64_of(bytes)
}

/// What loading one glyph file yields: the digit and its embeddable
/// reference, or nothing for a file that names no glyph (no extension, or a
/// stem that does not begin with a digit).
pub open spec fn spec_load_digit(name: Seq<char>, bytes: Seq<u8>) -> Option<(u64, Seq<char>)> {
    match (spec_digit_of(name), spec_ext(name)) {
        (Some(d), Some(ext)) => Some((d, spec_data_uri(ext, bytes))),
        _ => None,
    }
}

/// A last-dot index lies in the name and holds a dot.
proof fn lemma_last_dot_in_range(s: Seq<char>)
    ensures
        spec_last_dot(s) matches Some(i) ==> 0 <= i < s.len() && s[i] == '.',
    decreases s.len(),
{
    if s.len() > 0 && s.last() != '.' {
        lemma_last_dot_in_range(s.drop_last());
    }
}

/// Index of the last `.` in a name.
fn last_dot(name: &str) -> (r: Option<usize>)
    ensures
        match r {
            None => spec_last_dot(name@) is None,
            Some(i) => spec_last_dot(name@) == Some(i as int),
        },
{
    let len = name.unicode_len();
    let mut i: usize = len;
    proof {
        assert(name@.take(len as int) =~= name@);
    }
    while i > 0
        invariant
            i <= len,
            len == name@.len(),
            spec_last_dot(name@) == spec_last_dot(name@.take(i as int)),
        decreases i,
    {
        let c = name.get_char(i - 1);
        if c == '.' {
            proof {
                assert(name@.take(i as int).last() == '.');
            }
            return Some(i - 1);
        }
        proof {
            assert(name@.take(i as int).drop_last() =~= name@.take(i as int - 1));
        }
        i = i - 1;
    }
    proof {
        assert(name@.take(0) =~= Seq::<char>::empty());
    }
    None
}

/// Load one glyph file: `name` is the file's base name, `bytes` its content.
/// Returns the digit value and the embeddable reference, or nothing for a
/// file that names no glyph.
pub fn load_digit(name: &str, bytes: &Vec<u8>) -> (r: Option<(u64, String)>)
    requires
        bytes@.len() <= usize::MAX as nat / 2,
    ensures
        (r is Some) == (spec_load_digit(name@, bytes@) is Some),
        r matches Some(p) ==> {
            &&& spec_load_digit(name@, bytes@) matches Some(q)
            &&& p.0 == q.0
            &&& p.0 < 10
            &&& p.1@ == q.1
        },
{
    proof {
        lemma_last_dot_in_range(name@);
    }
    let name_len = name.unicode_len();
    let ext_start: usize = match last_dot(name) {
        None => {
            return None;
        },
        Some(i) => {
            if i == 0 {
                return None;
            }
            proof {
                assert(i < name_len);
            }
            i + 1
        },
    };
    let c0 = name.get_char(0);
    let cv = c0 as u32;
    proof {
        assert(spec_stem(name@)[0] == name@[0]);
    }
    if cv < 48 || cv > 57 {
        return None;
    }
    let d: u64 = (cv - 48) as u64;
    let ext = name.substring_char(ext_start, name.unicode_len());
    proof {
        assert(ext@ =~= name@.skip(ext_start as int));
    }
    let mime = mime_for(ext);
    let b64 = base64_encode(bytes);
    let mut uri = String::new();
    uri.append("data:");
    uri.append(mime);
    uri.append(";base64,");
    uri.append(b64.as_str());
    proof {
        assert(uri@ =~= spec_data_uri(ext@, bytes@));
    }
    Some((d, uri))
}

} // verus!
