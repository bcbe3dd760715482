//! Qualified-name syntax: `prefix:local` or a bare `local`, parsed from raw
//! bytes.

use vstd::prelude::*;
use vstd::utf8::decode_utf8;
use vstd::utf8::valid_utf8;

use crate::events::ErrorModel;
use crate::events::XmlError;
use crate::text::decode_bytes;
use crate::text::chars_to_string;
use crate::text::is_xml_space;

verus! {

/// Whether a character may stand in a name part: everything but the colon,
/// whitespace, and the markup delimiters.
pub open spec fn is_name_char(c: char) -> bool {
    !(c == ':' || is_xml_space(c) || c == '<' || c == '>' || c == '&' || c == '/' || c == '='
        || c == '"' || c == '\'')
}

/// A non-empty run of name characters.
pub open spec fn valid_ncname(s: Seq<char>) -> bool {
    s.len() > 0 && forall|k: int| 0 <= k < s.len() ==> is_name_char(s[k])
}

/// The index of the first `:` at or after position `i`, or the length of the
/// sequence if there is none.
pub open spec fn find_colon_from(s: Seq<char>, i: int) -> int
    decreases s.len() - i,
{
    if i < 0 || i >= s.len() {
        s.len() as int
    } else if s[i] == ':' {
        i
    } else {
        find_colon_from(s, i + 1)
    }
}

/// `find_colon_from` returns the position of the first `:` at or after `i`,
/// or the length if there is none.
pub proof fn lemma_find_colon_from(s: Seq<char>, i: int)
    requires
        0 <= i <= s.len(),
    ensures
        i <= find_colon_from(s, i) <= s.len(),
        find_colon_from(s, i) < s.len() ==> s[find_colon_from(s, i)] == ':',
        forall|k: int| i <= k < find_colon_from(s, i) ==> s[k] != ':',
    decreases s.len() - i,
{
    if i < s.len() && s[i] != ':' {
        lemma_find_colon_from(s, i + 1);
    }
}

/// Splits a name at its first colon into an optional prefix and a local part,
/// both of which must be non-empty runs of name characters; `None` if the
/// syntax is violated.
pub open spec fn parse_qname(s: Seq<char>) -> Option<(Option<Seq<char>>, Seq<char>)> {
    let j = find_colon_from(s, 0);
    if j >= s.len() {
        if valid_ncname(s) {
            Some((None, s))
        } else {
            None
        }
    } else {
        let p = s.subrange(0, j);
        let l = s.subrange(j + 1, s.len() as int);
        if valid_ncname(p) && valid_ncname(l) {
            Some((Some(p), l))
        } else {
            None
        }
    }
}

/// What decoding a raw name yields: the bytes read as UTF-8, then split as a
/// qualified name.
pub open spec fn qname_model(bytes: Seq<u8>) -> Result<(Option<Seq<char>>, Seq<char>), ErrorModel> {
    if !valid_utf8(bytes) {
        Err(ErrorModel::InvalidUtf8)
    } else {
        match parse_qname(decode_utf8(bytes)) {
            None => Err(ErrorModel::InvalidName),
            Some(pl) => Ok(pl),
        }
    }
}

/// The model of an optional string.
pub open spec fn opt_str_model(o: Option<String>) -> Option<Seq<char>> {
    match o {
        Some(s) => Some(s@),
        None => None,
    }
}

/// Whether every character of `v[lo..hi]` may stand in a name, and the range
/// is non-empty.
#[verifier::loop_isolation(false)]
fn check_ncname(v: &Vec<char>, lo: usize, hi: usize) -> (r: bool)
    requires
        lo <= hi <= v@.len(),
    ensures
        r == valid_ncname(v@.subrange(lo as int, hi as int)),
{
    let ghost part = v@.subrange(lo as int, hi as int);
    if lo == hi {
        return false;
    }
    let mut i = lo;
    while i < hi
        invariant
            lo <= i <= hi <= v@.len(),
            forall|k: int| lo <= k < i ==> is_name_char(v@[k]),
        decreases hi - i,
    {
        let c = v[i];
        let ok = !(c == ':' || c == ' ' || c == '\t' || c == '\n' || c == '\r' || c == '<' || c
            == '>' || c == '&' || c == '/' || c == '=' || c == '"' || c == '\'');
        if !ok {
            proof {
                let k0 = i as int - lo as int;
                assert(part[k0] == v@[i as int]);
                assert(!is_name_char(part[k0]));
                if valid_ncname(part) {
                    assert(is_name_char(part[k0]));
                    assert(false);
                }
            }
            return false;
        }
        i = i + 1;
    }
    proof {
        assert(forall|k: int| 0 <= k < part.len() ==> part[k] == v@[lo + k]);
        assert(valid_ncname(part));
    }
    true
}

/// Copies the characters of `v[lo..hi]` into a fresh vector.
fn copy_range(v: &Vec<char>, lo: usize, hi: usize) -> (r: Vec<char>)
    requires
        lo <= hi <= v@.len(),
    ensures
        r@ == v@.subrange(lo as int, hi as int),
{
    let mut r: Vec<char> = Vec::new();
    let mut i = lo;
    while i < hi
        invariant
            lo <= i <= hi <= v@.len(),
            r@ == v@.subrange(lo as int, i as int),
        decreases hi - i,
    {
        r.push(v[i]);
        proof {
            assert(r@ =~= v@.subrange(lo as int, i as int + 1));
        }
        i = i + 1;
    }
    r
}

/// Decodes a raw name into its optional prefix and its local part, exactly as
/// `qname_model` says.
#[verifier::loop_isolation(false)]
pub fn split_name(bytes: &Vec<u8>) -> (r: Result<(Option<String>, String), XmlError>)
    ensures
        match r {
            Ok(pl) => qname_model(bytes@) == Ok::<_, ErrorModel>(
                (opt_str_model(pl.0), pl.1@),
            ),
            Err(e) => qname_model(bytes@) == Err::<(Option<Seq<char>>, Seq<char>), _>(e@),
        },
{
    let chars = match decode_bytes(bytes) {
        None => {
            return Err(XmlError::InvalidUtf8);
        },
        Some(c) => c,
    };
    let ghost s = chars@;
    let n = chars.len();
    let mut j: usize = 0;
    while j < n && chars[j] != ':'
        invariant
            j <= n,
            forall|k: int| 0 <= k < j ==> s[k] != ':',
        decreases n - j,
    {
        j = j + 1;
    }
    proof {
        lemma_find_colon_from(s, 0);
        let f = find_colon_from(s, 0);
        if j < n {
            if f < j {
                assert(s[f] == ':');
                assert(false);
            }
            if f > j {
                assert(s[j as int] != ':');
                assert(false);
            }
        } else {
            if f < n {
                assert(s[f] == ':');
                assert(false);
            }
        }
        assert(f == j as int);
    }
    if j >= n {
        if check_ncname(&chars, 0, n) {
            proof {
                assert(s.subrange(0, n as int) =~= s);
            }
            Ok((None, chars_to_string(&chars)))
        } else {
            proof {
                assert(s.subrange(0, n as int) =~= s);
            }
            Err(XmlError::InvalidName)
        }
    } else {
        if check_ncname(&chars, 0, j) && check_ncname(&chars, j + 1, n) {
            let p = copy_range(&chars, 0, j);
            let l = copy_range(&chars, j + 1, n);
            Ok((Some(chars_to_string(&p)), chars_to_string(&l)))
        } else {
            Err(XmlError::InvalidName)
        }
    }
}

} // verus!
