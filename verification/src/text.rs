//! Character-level decoding: the UTF-8 boundary, entity and character
//! references, and the unescaping of attribute values and text runs.

use vstd::prelude::*;
use vstd::string::StrSliceExecFns;
use vstd::string::StringSliceAdditionalSpecFns;
use vstd::utf8::decode_utf8;
use vstd::utf8::decode_utf8_encode_utf8;
use vstd::utf8::encode_utf8_decode_utf8;
use vstd::utf8::is_scalar;
use vstd::utf8::valid_utf8;

use crate::events::ErrorModel;
use crate::events::XmlError;

verus! {

/// Relies on `core::str::from_utf8`: it succeeds exactly on valid UTF-8 input,
/// and the returned string slice is backed by exactly the given bytes.
#[verifier::external_body]
fn bytes_to_str(v: &[u8]) -> (r: Option<&str>)
    ensures
        r is Some <==> valid_utf8(v@),
        r is Some ==> r->Some_0.spec_bytes() == v@,
{
    core::str::from_utf8(v).ok()
}

/// Relies on `String`'s `FromIterator<char>` implementation: it collects
/// exactly the given characters, in order.
#[verifier::external_body]
pub fn chars_to_string(v: &Vec<char>) -> (r: String)
    ensures
        r@ == v@,
{
    v.iter().copied().collect()
}

/// Relies on `char::from_u32`: it succeeds exactly on Unicode scalar values
/// and returns the character with that code.
#[verifier::external_body]
fn char_from_u32(v: u32) -> (r: Option<char>)
    ensures
        r is Some <==> is_scalar(v),
        r is Some ==> r->Some_0 as u32 == v,
{
    char::from_u32(v)
}

/// Copies the characters of a string slice into a vector.
pub fn str_to_chars(s: &str) -> (r: Vec<char>)
    ensures
        r@ == s@,
{
    let n = s.unicode_len();
    let mut r: Vec<char> = Vec::new();
    let mut i: usize = 0;
    while i < n
        invariant
            i <= n,
            n == s@.len(),
            r@ == s@.take(i as int),
        decreases n - i,
    {
        let c = s.get_char(i);
        r.push(c);
        proof {
            assert(r@ =~= s@.take(i as int + 1));
        }
        i = i + 1;
    }
    proof {
        assert(r@ =~= s@);
    }
    r
}

/// Decodes a byte sequence as UTF-8 into its characters; `None` exactly on
/// invalid UTF-8.
pub fn decode_bytes(v: &Vec<u8>) -> (r: Option<Vec<char>>)
    ensures
        r is Some <==> valid_utf8(v@),
        r is Some ==> r->Some_0@ == decode_utf8(v@),
{
    match bytes_to_str(v.as_slice()) {
        None => None,
        Some(s) => {
            proof {
                encode_utf8_decode_utf8(s@);
            }
            Some(str_to_chars(s))
        },
    }
}

/// XML whitespace.
pub open spec fn is_xml_space(c: char) -> bool {
    c == ' ' || c == '\t' || c == '\n' || c == '\r'
}

/// Whether every character of a run is XML whitespace.
pub open spec fn all_space(s: Seq<char>) -> bool {
    forall|k: int| 0 <= k < s.len() ==> is_xml_space(s[k])
}

/// Executable counterpart of `all_space`.
#[verifier::loop_isolation(false)]
pub fn is_all_space(s: &str) -> (r: bool)
    ensures
        r == all_space(s@),
{
    let n = s.unicode_len();
    let mut i: usize = 0;
    while i < n
        invariant
            i <= n,
            n == s@.len(),
            forall|k: int| 0 <= k < i ==> is_xml_space(s@[k]),
        decreases n - i,
    {
        let c = s.get_char(i);
        if !(c == ' ' || c == '\t' || c == '\n' || c == '\r') {
            proof {
                assert(!is_xml_space(s@[i as int]));
                if all_space(s@) {
                    assert(is_xml_space(s@[i as int]));
                    assert(false);
                }
            }
            return false;
        }
        i = i + 1;
    }
    true
}

/// The character a named XML entity stands for: the five predefined entities.
pub open spec fn named_entity(name: Seq<char>) -> Option<char> {
    if name == seq!['a', 'm', 'p'] {
        Some('&')
    } else if name == seq!['l', 't'] {
        Some('<')
    } else if name == seq!['g', 't'] {
        Some('>')
    } else if name == seq!['q', 'u', 'o', 't'] {
        Some('"')
    } else if name == seq!['a', 'p', 'o', 's'] {
        Some('\'')
    } else {
        None
    }
}

/// The value of a decimal digit, or -1 if the character is not one.
pub open spec fn dec_digit(c: char) -> int {
    let v = c as u32;
    if '0' as u32 <= v && v <= '9' as u32 {
        v - '0' as u32
    } else {
        -1
    }
}

/// The value of a hexadecimal digit (either case), or -1 if not one.
pub open spec fn hex_digit(c: char) -> int {
    let v = c as u32;
    if '0' as u32 <= v && v <= '9' as u32 {
        v - '0' as u32
    } else if 'a' as u32 <= v && v <= 'f' as u32 {
        v - 'a' as u32 + 10
    } else if 'A' as u32 <= v && v <= 'F' as u32 {
        v - 'A' as u32 + 10
    } else {
        -1
    }
}

/// The number a non-empty run of decimal digits denotes, or -1 if the run is
/// empty or holds a non-digit.
pub open spec fn dec_value(s: Seq<char>) -> int
    decreases s.len(),
{
    if s.len() == 0 {
        -1
    } else if s.len() == 1 {
        dec_digit(s[0])
    } else {
        let pre = dec_value(s.drop_last());
        let d = dec_digit(s.last());
        if pre < 0 || d < 0 {
            -1
        } else {
            pre * 10 + d
        }
    }
}

/// The number a non-empty run of hexadecimal digits denotes, or -1.
pub open spec fn hex_value(s: Seq<char>) -> int
    decreases s.len(),
{
    if s.len() == 0 {
        -1
    } else if s.len() == 1 {
        hex_digit(s[0])
    } else {
        let pre = hex_value(s.drop_last());
        let d = hex_digit(s.last());
        if pre < 0 || d < 0 {
            -1
        } else {
            pre * 16 + d
        }
    }
}

/// The code a character reference body denotes (the part after `&#`):
/// `x` introduces hexadecimal digits, otherwise decimal digits; -1 if
/// malformed.
pub open spec fn char_ref_code(s: Seq<char>) -> int {
    if s.len() >= 1 && s[0] == 'x' {
        hex_value(s.skip(1))
    } else {
        dec_value(s)
    }
}

/// Whether a code is a Unicode scalar value, and so denotes a character.
pub open spec fn is_scalar_value(v: int) -> bool {
    (0 <= v && v < 0xD800) || (0xE000 <= v && v <= 0x10FFFF)
}

/// The text an entity reference body (the part between `&` and `;`) stands
/// for: a predefined named entity or a numeric character reference; `None` if
/// the reference is unknown or malformed.
pub open spec fn entity_text(name: Seq<char>) -> Option<Seq<char>> {
    if name.len() > 0 && name[0] == '#' {
        let v = char_ref_code(name.skip(1));
        if is_scalar_value(v) {
            Some(seq![(v as u32) as char])
        } else {
            None
        }
    } else {
        match named_entity(name) {
            Some(c) => Some(seq![c]),
            None => None,
        }
    }
}

/// The index of the first `;` at or after position `i`, or the length of the
/// sequence if there is none.
pub open spec fn find_semi_from(s: Seq<char>, i: int) -> int
    decreases s.len() - i,
{
    if i < 0 || i >= s.len() {
        s.len() as int
    } else if s[i] == ';' {
        i
    } else {
        find_semi_from(s, i + 1)
    }
}

/// `find_semi_from` returns the position of the first `;` at or after `i`,
/// or the length if there is none.
pub proof fn lemma_find_semi_from(s: Seq<char>, i: int)
    requires
        0 <= i <= s.len(),
    ensures
        i <= find_semi_from(s, i) <= s.len(),
        find_semi_from(s, i) < s.len() ==> s[find_semi_from(s, i)] == ';',
        forall|k: int| i <= k < find_semi_from(s, i) ==> s[k] != ';',
    decreases s.len() - i,
{
    if i < s.len() && s[i] != ';' {
        lemma_find_semi_from(s, i + 1);
    }
}

/// Entity-decodes the characters from position `i` on: a `&name;` reference
/// is replaced by the text it stands for, every other character is kept;
/// `None` on an unterminated, unknown or malformed reference.
pub open spec fn unescape_from(s: Seq<char>, i: int) -> Option<Seq<char>>
    decreases s.len() - i via unescape_from_decreases
{
    if !(0 <= i < s.len()) {
        Some(Seq::empty())
    } else if s[i] == '&' {
        let j = find_semi_from(s, i + 1);
        if j >= s.len() {
            None
        } else {
            match entity_text(s.subrange(i + 1, j)) {
                None => None,
                Some(t) => match unescape_from(s, j + 1) {
                    None => None,
                    Some(r) => Some(t + r),
                },
            }
        }
    } else {
        match unescape_from(s, i + 1) {
            None => None,
            Some(r) => Some(seq![s[i]] + r),
        }
    }
}

#[via_fn]
proof fn unescape_from_decreases(s: Seq<char>, i: int) {
    if 0 <= i < s.len() && s[i] == '&' {
        lemma_find_semi_from(s, i + 1);
    }
}

/// Entity-decodes a whole character sequence.
pub open spec fn unescape(s: Seq<char>) -> Option<Seq<char>> {
    unescape_from(s, 0)
}

/// A non-empty digit run has a non-negative value; a run holding a non-digit
/// (or an empty one) has value -1.
proof fn lemma_dec_value_digits(s: Seq<char>)
    ensures
        dec_value(s) >= 0 <==> (s.len() > 0 && forall|k: int|
            0 <= k < s.len() ==> dec_digit(s[k]) >= 0),
    decreases s.len(),
{
    if s.len() > 1 {
        lemma_dec_value_digits(s.drop_last());
        assert(forall|k: int|
            0 <= k < s.drop_last().len() ==> s.drop_last()[k] == s[k]);
        if dec_value(s) >= 0 {
            assert(forall|k: int| 0 <= k < s.len() - 1 ==> dec_digit(s[k]) >= 0);
            assert(dec_digit(s.last()) >= 0);
        }
        if s.len() > 0 && forall|k: int| 0 <= k < s.len() ==> dec_digit(s[k]) >= 0 {
            assert(dec_digit(s[s.len() - 1]) >= 0);
        }
    }
}

/// The hexadecimal counterpart of `lemma_dec_value_digits`.
proof fn lemma_hex_value_digits(s: Seq<char>)
    ensures
        hex_value(s) >= 0 <==> (s.len() > 0 && forall|k: int|
            0 <= k < s.len() ==> hex_digit(s[k]) >= 0),
    decreases s.len(),
{
    if s.len() > 1 {
        lemma_hex_value_digits(s.drop_last());
        assert(forall|k: int|
            0 <= k < s.drop_last().len() ==> s.drop_last()[k] == s[k]);
        if hex_value(s) >= 0 {
            assert(forall|k: int| 0 <= k < s.len() - 1 ==> hex_digit(s[k]) >= 0);
            assert(hex_digit(s.last()) >= 0);
        }
        if s.len() > 0 && forall|k: int| 0 <= k < s.len() ==> hex_digit(s[k]) >= 0 {
            assert(hex_digit(s[s.len() - 1]) >= 0);
        }
    }
}

/// A reference code above the largest scalar value, clamped so it still
/// witnesses "too large" without growing.
pub open spec fn clamped(v: int) -> int {
    if v > 0x10FFFF {
        0x110000
    } else {
        v
    }
}

/// The decimal digit value of a character, or -1; executable counterpart of
/// `dec_digit`.
fn dec_digit_exec(c: char) -> (r: i32)
    ensures
        r as int == dec_digit(c),
{
    let v = c as u32;
    if 48 <= v && v <= 57 {
        (v - 48) as i32
    } else {
        -1
    }
}

/// The hexadecimal digit value of a character, or -1; executable counterpart
/// of `hex_digit`.
fn hex_digit_exec(c: char) -> (r: i32)
    ensures
        r as int == hex_digit(c),
{
    let v = c as u32;
    if 48 <= v && v <= 57 {
        (v - 48) as i32
    } else if 97 <= v && v <= 102 {
        (v - 97 + 10) as i32
    } else if 65 <= v && v <= 70 {
        (v - 65 + 10) as i32
    } else {
        -1
    }
}

/// Resolves the entity reference body `v[lo..hi]` (the text between `&` and
/// `;`) to the characters it stands for.
pub fn resolve_entity(v: &Vec<char>, lo: usize, hi: usize) -> (r: Option<Vec<char>>)
    requires
        lo <= hi <= v@.len(),
    ensures
        match r {
            Some(t) => entity_text(v@.subrange(lo as int, hi as int)) == Some(t@),
            None => entity_text(v@.subrange(lo as int, hi as int)) is None,
        },
{
    let ghost name = v@.subrange(lo as int, hi as int);
    let n = hi - lo;
    if n > 0 && v[lo] == '#' {
        resolve_char_ref(v, lo, hi)
    } else {
        let mut out: Vec<char> = Vec::new();
        if n == 3 && v[lo] == 'a' && v[lo + 1] == 'm' && v[lo + 2] == 'p' {
            proof {
                assert(name =~= seq!['a', 'm', 'p']);
            }
            out.push('&');
            Some(out)
        } else if n == 2 && v[lo] == 'l' && v[lo + 1] == 't' {
            proof {
                assert(name =~= seq!['l', 't']);
            }
            out.push('<');
            Some(out)
        } else if n == 2 && v[lo] == 'g' && v[lo + 1] == 't' {
            proof {
                assert(name =~= seq!['g', 't']);
            }
            out.push('>');
            Some(out)
        } else if n == 4 && v[lo] == 'q' && v[lo + 1] == 'u' && v[lo + 2] == 'o' && v[lo + 3]
            == 't' {
            proof {
                assert(name =~= seq!['q', 'u', 'o', 't']);
            }
            out.push('"');
            Some(out)
        } else if n == 4 && v[lo] == 'a' && v[lo + 1] == 'p' && v[lo + 2] == 'o' && v[lo + 3]
            == 's' {
            proof {
                assert(name =~= seq!['a', 'p', 'o', 's']);
            }
            out.push('\'');
            Some(out)
        } else {
            proof {
                assert(name.len() == n);
                assert(name != seq!['a', 'm', 'p']) by {
                    if name == seq!['a', 'm', 'p'] {
                        assert(name[0] == 'a' && name[1] == 'm' && name[2] == 'p');
                    }
                }
                assert(name != seq!['l', 't']) by {
                    if name == seq!['l', 't'] {
                        assert(name[0] == 'l' && name[1] == 't');
                    }
                }
                assert(name != seq!['g', 't']) by {
                    if name == seq!['g', 't'] {
                        assert(name[0] == 'g' && name[1] == 't');
                    }
                }
                assert(name != seq!['q', 'u', 'o', 't']) by {
                    if name == seq!['q', 'u', 'o', 't'] {
                        assert(name[0] == 'q' && name[1] == 'u' && name[2] == 'o' && name[3]
                            == 't');
                    }
                }
                assert(name != seq!['a', 'p', 'o', 's']) by {
                    if name == seq!['a', 'p', 'o', 's'] {
                        assert(name[0] == 'a' && name[1] == 'p' && name[2] == 'o' && name[3]
                            == 's');
                    }
                }
            }
            None
        }
    }
}

/// Resolves a numeric character reference body `v[lo..hi]`, which starts with
/// `#`.
#[verifier::loop_isolation(false)]
fn resolve_char_ref(v: &Vec<char>, lo: usize, hi: usize) -> (r: Option<Vec<char>>)
    requires
        lo < hi <= v@.len(),
        v@[lo as int] == '#',
    ensures
        match r {
            Some(t) => entity_text(v@.subrange(lo as int, hi as int)) == Some(t@),
            None => entity_text(v@.subrange(lo as int, hi as int)) is None,
        },
{
    let ghost name = v@.subrange(lo as int, hi as int);
    let ghost body = name.skip(1);
    proof {
        assert(name[0] == '#');
        assert(body =~= v@.subrange(lo as int + 1, hi as int));
    }
    let mut hex = false;
    let mut dstart = lo + 1;
    if dstart < hi && v[dstart] == 'x' {
        hex = true;
        dstart = dstart + 1;
    }
    let ghost digits = v@.subrange(dstart as int, hi as int);
    proof {
        if hex {
            assert(body.len() >= 1 && body[0] == 'x');
            assert(digits =~= body.skip(1));
            assert(char_ref_code(body) == hex_value(digits));
        } else {
            if body.len() >= 1 {
                assert(body[0] == v@[lo as int + 1]);
            }
            assert(digits =~= body);
            assert(char_ref_code(body) == dec_value(digits));
        }
    }
    let ghost spec_val = if hex { hex_value(digits) } else { dec_value(digits) };
    let mut acc: u64 = 0;
    let mut j = dstart;
    while j < hi
        invariant
            dstart <= j <= hi <= v@.len(),
            digits == v@.subrange(dstart as int, hi as int),
            acc <= 0x110000,
            j == dstart ==> acc == 0,
            j > dstart ==> {
                let pre = if hex {
                    hex_value(v@.subrange(dstart as int, j as int))
                } else {
                    dec_value(v@.subrange(dstart as int, j as int))
                };
                pre >= 0 && acc == clamped(pre)
            },
        decreases hi - j,
    {
        let ghost pre_seq = v@.subrange(dstart as int, j as int);
        let ghost cur_seq = v@.subrange(dstart as int, j as int + 1);
        proof {
            assert(cur_seq.drop_last() =~= pre_seq);
            assert(cur_seq.last() == v@[j as int]);
        }
        let d = if hex {
            hex_digit_exec(v[j])
        } else {
            dec_digit_exec(v[j])
        };
        if d < 0 {
            proof {
                let k0 = j as int - dstart as int;
                assert(0 <= k0 < digits.len());
                assert(digits[k0] == v@[j as int]);
                if hex {
                    lemma_hex_value_digits(digits);
                    assert(hex_digit(digits[k0]) < 0);
                    if hex_value(digits) >= 0 {
                        assert(hex_digit(digits[k0]) >= 0);
                        assert(false);
                    }
                } else {
                    lemma_dec_value_digits(digits);
                    assert(dec_digit(digits[k0]) < 0);
                    if dec_value(digits) >= 0 {
                        assert(dec_digit(digits[k0]) >= 0);
                        assert(false);
                    }
                }
                assert(spec_val < 0);
                assert(!is_scalar_value(char_ref_code(body)));
            }
            return None;
        }
        let base: u64 = if hex {
            16
        } else {
            10
        };
        let mut next: u64 = acc * base + (d as u64);
        if next > 0x10FFFF {
            next = 0x110000;
        }
        proof {
            if hex {
                let pre = hex_value(pre_seq);
                let cur = hex_value(cur_seq);
                if j == dstart {
                    assert(cur_seq.len() == 1);
                    assert(cur_seq[0] == v@[j as int]);
                    assert(cur == d as int);
                } else {
                    assert(cur_seq.len() > 1);
                    assert(cur == pre * 16 + d as int);
                    if pre > 0x10FFFF {
                        assert(cur > 0x10FFFF);
                    }
                }
                assert(cur >= 0 && next == clamped(cur));
            } else {
                let pre = dec_value(pre_seq);
                let cur = dec_value(cur_seq);
                if j == dstart {
                    assert(cur_seq.len() == 1);
                    assert(cur_seq[0] == v@[j as int]);
                    assert(cur == d as int);
                } else {
                    assert(cur_seq.len() > 1);
                    assert(cur == pre * 10 + d as int);
                    if pre > 0x10FFFF {
                        assert(cur > 0x10FFFF);
                    }
                }
                assert(cur >= 0 && next == clamped(cur));
            }
        }
        acc = next;
        j = j + 1;
    }
    proof {
        assert(v@.subrange(dstart as int, hi as int) =~= digits);
    }
    if dstart == hi {
        proof {
            assert(digits.len() == 0);
            assert(spec_val == -1);
            assert(!is_scalar_value(char_ref_code(body)));
        }
        return None;
    }
    proof {
        assert(spec_val >= 0 && acc == clamped(spec_val));
    }
    match char_from_u32(acc as u32) {
        Some(c) => {
            proof {
                assert(is_scalar(acc as u32));
                assert(spec_val <= 0x10FFFF);
                assert(acc == spec_val);
                assert(is_scalar_value(char_ref_code(body)));
                vstd::utf8::char_u32_cast(c, acc as u32);
                assert(c == (char_ref_code(body) as u32) as char);
                assert(entity_text(name) == Some(seq![c]));
            }
            let mut out: Vec<char> = Vec::new();
            out.push(c);
            proof {
                assert(out@ =~= seq![c]);
            }
            Some(out)
        },
        None => {
            proof {
                assert(!is_scalar(acc as u32));
                if spec_val <= 0x10FFFF {
                    assert(acc == spec_val);
                    assert(!is_scalar_value(spec_val));
                } else {
                    assert(acc == 0x110000);
                    assert(!is_scalar_value(spec_val));
                }
                assert(entity_text(name) is None);
            }
            None
        },
    }
}

/// Entity-decodes a character sequence; `None` exactly where the model
/// `unescape` is `None`.
pub fn unescape_chars(v: &Vec<char>) -> (r: Option<Vec<char>>)
    ensures
        match r {
            Some(t) => unescape(v@) == Some(t@),
            None => unescape(v@) is None,
        },
{
    let n = v.len();
    let mut out: Vec<char> = Vec::new();
    let mut i: usize = 0;
    while i < n
        invariant
            i <= n,
            n == v@.len(),
            match unescape_from(v@, i as int) {
                Some(rest) => unescape(v@) == Some(out@ + rest),
                None => unescape(v@) is None,
            },
        decreases n - i,
    {
        let c = v[i];
        if c != '&' {
            let ghost out_old = out@;
            out.push(c);
            proof {
                if let Some(rest) = unescape_from(v@, i as int + 1) {
                    assert(unescape_from(v@, i as int) == Some(seq![c] + rest));
                    assert(out@ + rest =~= out_old + (seq![c] + rest));
                }
            }
            i = i + 1;
        } else {
            let mut j = i + 1;
            while j < n && *(&v[j]) != ';'
                invariant
                    i + 1 <= j <= n,
                    n == v@.len(),
                    forall|k: int| i + 1 <= k < j ==> v@[k] != ';',
                decreases n - j,
            {
                j = j + 1;
            }
            proof {
                lemma_find_semi_from(v@, i as int + 1);
                let f = find_semi_from(v@, i as int + 1);
                if j < n {
                    assert(v@[j as int] == ';');
                    if f < j {
                        assert(v@[f] == ';');
                        assert(false);
                    }
                    if f > j {
                        assert(v@[j as int] != ';');
                        assert(false);
                    }
                } else {
                    if f < n {
                        assert(v@[f] == ';');
                        assert(false);
                    }
                }
                assert(f == j as int);
            }
            if j >= n {
                return None;
            }
            match resolve_entity(v, i + 1, j) {
                None => {
                    return None;
                },
                Some(mut t) => {
                    let ghost tspec = t@;
                    proof {
                        if let Some(rest) = unescape_from(v@, j as int + 1) {
                            assert(unescape_from(v@, i as int) == Some(tspec + rest));
                            assert((out@ + tspec) + rest =~= out@ + (tspec + rest));
                        }
                    }
                    out.append(&mut t);
                    i = j + 1;
                },
            }
        }
    }
    proof {
        assert(unescape_from(v@, n as int) == Some(Seq::<char>::empty()));
        assert(out@ + Seq::<char>::empty() =~= out@);
    }
    Some(out)
}

/// What decoding a raw text run yields: the bytes read as UTF-8, then
/// entity-decoded.
pub open spec fn text_model(bytes: Seq<u8>) -> Result<Seq<char>, ErrorModel> {
    if !valid_utf8(bytes) {
        Err(ErrorModel::InvalidUtf8)
    } else {
        match unescape(decode_utf8(bytes)) {
            Some(t) => Ok(t),
            None => Err(ErrorModel::InvalidEntity),
        }
    }
}

/// Decodes a raw text run or attribute value: UTF-8, then entity references.
pub fn decode_text(bytes: &Vec<u8>) -> (r: Result<String, XmlError>)
    ensures
        match r {
            Ok(s) => text_model(bytes@) == Ok::<Seq<char>, ErrorModel>(s@),
            Err(e) => text_model(bytes@) == Err::<Seq<char>, ErrorModel>(e@),
        },
{
    match decode_bytes(bytes) {
        None => Err(XmlError::InvalidUtf8),
        Some(chars) => match unescape_chars(&chars) {
            None => Err(XmlError::InvalidEntity),
            Some(t) => Ok(chars_to_string(&t)),
        },
    }
}

/// What decoding a standalone entity-reference token yields: the reference
/// body read as UTF-8, then resolved.
pub open spec fn ref_model(bytes: Seq<u8>) -> Result<Seq<char>, ErrorModel> {
    if !valid_utf8(bytes) {
        Err(ErrorModel::InvalidUtf8)
    } else {
        match entity_text(decode_utf8(bytes)) {
            Some(t) => Ok(t),
            None => Err(ErrorModel::InvalidEntity),
        }
    }
}

/// Resolves a standalone entity-reference token (the text between `&` and
/// `;`).
pub fn decode_ref(bytes: &Vec<u8>) -> (r: Result<String, XmlError>)
    ensures
        match r {
            Ok(s) => ref_model(bytes@) == Ok::<Seq<char>, ErrorModel>(s@),
            Err(e) => ref_model(bytes@) == Err::<Seq<char>, ErrorModel>(e@),
        },
{
    match decode_bytes(bytes) {
        None => Err(XmlError::InvalidUtf8),
        Some(chars) => {
            let len = chars.len();
            proof {
                assert(chars@.subrange(0, len as int) =~= chars@);
            }
            match resolve_entity(&chars, 0, len) {
                None => Err(XmlError::InvalidEntity),
                Some(t) => Ok(chars_to_string(&t)),
            }
        },
    }
}

} // verus!
