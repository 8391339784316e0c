//! Windows paths held as text, and the joining of a relative component onto
//! a base path, which is what `PathBuf::push` does on Windows for a base
//! without a verbatim (`\\?\`) prefix.
use vstd::prelude::*;
use vstd::string::*;
use crate::text::{chars_of, push_char};

verus! {

/// Whether `c` separates path components on Windows.
pub open spec fn is_separator(c: char) -> bool {
    c == '\\' || c == '/'
}

/// Whether `c` is an ASCII letter.
pub open spec fn is_ascii_letter(c: char) -> bool {
    (65 <= (c as u32) <= 90) || (97 <= (c as u32) <= 122)
}

/// Whether `p` begins with a drive prefix such as `C:`.
pub open spec fn has_drive_prefix(p: Seq<char>) -> bool {
    p.len() >= 2 && p[1] == ':' && is_ascii_letter(p[0])
}

/// Whether `p` is a relative path with neither a root nor a prefix, so that
/// joining it onto a base appends it.
pub open spec fn is_plain_relative(p: Seq<char>) -> bool {
    &&& !(p.len() > 0 && is_separator(p[0]))
    &&& !has_drive_prefix(p)
}

/// `comp` joined onto `base`: a backslash goes between them unless `base` is
/// empty, already ends in a separator, or is a bare drive such as `C:`.
pub open spec fn join(base: Seq<char>, comp: Seq<char>) -> Seq<char> {
    if base.len() > 0 && !is_separator(base.last()) && !(base.len() == 2 && has_drive_prefix(base)) {
        base + seq!['\\'] + comp
    } else {
        base + comp
    }
}

/// Whether `p` is a relative path with neither a root nor a prefix.
pub fn is_plain_component(p: &str) -> (r: bool)
    ensures
        r == is_plain_relative(p@),
{
    let v = chars_of(p);
    let n = v.len();
    if n > 0 && (v[0] == '\\' || v[0] == '/') {
        return false;
    }
    if n >= 2 && v[1] == ':' {
        let c = v[0] as u32;
        if (65 <= c && c <= 90) || (97 <= c && c <= 122) {
            return false;
        }
    }
    true
}

/// Joins the relative component `comp` onto `base`; for a base without a
/// verbatim (`\\?\`) prefix this is `Path::join` on Windows.
pub fn join_path(base: &str, comp: &str) -> (p: String)
    requires
        is_plain_relative(comp@),
    ensures
        p@ == join(base@, comp@),
{
    let v = chars_of(base);
    let n = v.len();
    let mut p = base.to_owned();
    let is_drive = n == 2 && v[1] == ':' && {
        let c = v[0] as u32;
        (65 <= c && c <= 90) || (97 <= c && c <= 122)
    };
    if n > 0 && v[n - 1] != '\\' && v[n - 1] != '/' && !is_drive {
        push_char(&mut p, '\\');
    }
    p.append(comp);
    p
}

} // verus!
