//! The fixed extension-to-MIME-type table used for embeddable image
//! references. Extensions are matched without regard to ASCII case.

use vstd::prelude::*;
use vstd::string::StrSliceExecFns;

verus! {

/// `a` is `b` itself, or its ASCII uppercase form when `b` is a lowercase letter.
pub open spec fn char_eq_nocase(a: char, b: char) -> bool {
    a == b || (97 <= b as u32 <= 122 && a as u32 + 32 == b as u32)
}

/// `ext` spells `word` (a lowercase word) up to ASCII case.
pub open spec fn ext_is(ext: Seq<char>, word: Seq<char>) -> bool {
    ext.len() == word.len() && (forall|i: int|
        0 <= i < ext.len() ==> char_eq_nocase(ext[i], word[i]))
}

/// The MIME type inferred from a file extension: the fixed table, with a
/// generic binary type for anything unknown.
pub open spec fn spec_mime(ext: Seq<char>) -> Seq<char> {
    if ext_is(ext, "png"@) {
        "image/png"@
    } else if ext_is(ext, "gif"@) {
        "image/gif"@
    } else if ext_is(ext, "jpg"@) {
        "image/jpeg"@
    } else if ext_is(ext, "jpeg"@) {
        "image/jpeg"@
    } else {
        "application/octet-stream"@
    }
}

/// Case-insensitive comparison of an extension against a lowercase word.
fn ext_matches(ext: &str, word: &str) -> (r: bool)
    ensures
        r == ext_is(ext@, word@),
{
    let el = ext.unicode_len();
    let wl = word.unicode_len();
    if el != wl {
        return false;
    }
    let mut i: usize = 0;
    while i < el
        invariant
            i <= el,
            el == ext@.len(),
            el == word@.len(),
            forall|k: int| 0 <= k < i ==> char_eq_nocase(ext@[k], word@[k]),
        decreases el - i,
    {
        let c = ext.get_char(i);
        let w = word.get_char(i);
        let cv = c as u32;
        let wv = w as u32;
        let ok = c == w || (97 <= wv && wv <= 122 && cv + 32 == wv);
        if !ok {
            return false;
        }
        i = i + 1;
    }
    true
}

/// MIME type for a file extension, by the fixed table.
pub fn mime_for(ext: &str) -> (r: &'static str)
    ensures
        r@ == spec_mime(ext@),
{
    if ext_matches(ext, "png") {
        "image/png"
    } else if ext_matches(ext, "gif") {
        "image/gif"
    } else if ext_matches(ext, "jpg") {
        "image/jpeg"
    } else if ext_matches(ext, "jpeg") {
        "image/jpeg"
    } else {
        "application/octet-stream"
    }
}

} // verus!
