//! Packet ids: `YYYYMMDD-HHMMSS-xxxxxxxx`, eight digits, six digits and
//! eight hexadecimal digits.

use vstd::prelude::*;

use crate::responses::{ErrorKind, OutpackError};
use crate::text::{
    char_is_digit, char_is_space, char_is_xdigit, chars_of, is_digit, is_space, is_xdigit,
    push_str, slice_chars, string_of,
};

verus! {

/// `s` is a packet id.
pub open spec fn is_packet_id(s: Seq<char>) -> bool {
    &&& s.len() == 24
    &&& forall|i: int| 0 <= i < 8 ==> is_digit(#[trigger] s[i])
    &&& s[8] == '-'
    &&& forall|i: int| 9 <= i < 15 ==> is_digit(#[trigger] s[i])
    &&& s[15] == '-'
    &&& forall|i: int| 16 <= i < 24 ==> is_xdigit(#[trigger] s[i])
}

/// Whether `name` is a packet id.
pub fn is_packet_str(name: &str) -> (r: bool)
    ensures
        r == is_packet_id(name@),
{
    let cs = chars_of(name);
    if cs.len() != 24 || cs[8] != '-' || cs[15] != '-' {
        return false;
    }
    let mut i: usize = 0;
    while i < 24
        invariant
            cs@ == name@,
            cs@.len() == 24,
            i <= 24,
            forall|j: int| 0 <= j < i && j < 8 ==> is_digit(#[trigger] cs@[j]),
            forall|j: int| 9 <= j < i && j < 15 ==> is_digit(#[trigger] cs@[j]),
            forall|j: int| 16 <= j < i ==> is_xdigit(#[trigger] cs@[j]),
        decreases 24 - i,
    {
        let ok = if i < 8 || (9 <= i && i < 15) {
            char_is_digit(cs[i])
        } else if i >= 16 {
            char_is_xdigit(cs[i])
        } else {
            true
        };
        if !ok {
            return false;
        }
        i = i + 1;
    }
    true
}

/// `s` without leading white space.
pub open spec fn trim_start(s: Seq<char>) -> Seq<char>
    decreases s.len(),
{
    if s.len() > 0 && is_space(s[0]) {
        trim_start(s.drop_first())
    } else {
        s
    }
}

/// `s` without trailing white space.
pub open spec fn trim_end(s: Seq<char>) -> Seq<char>
    decreases s.len(),
{
    if s.len() > 0 && is_space(s.last()) {
        trim_end(s.drop_last())
    } else {
        s
    }
}

/// `s` without white space at either end.
pub open spec fn trim(s: Seq<char>) -> Seq<char> {
    trim_end(trim_start(s))
}

/// `s` without white space at either end.
pub fn trim_text(s: &str) -> (r: String)
    ensures
        r@ == trim(s@),
{
    let cs = chars_of(s);
    let n = cs.len();
    proof {
        assert(cs@.subrange(0, n as int) =~= cs@);
    }
    let mut lo: usize = 0;
    while lo < n && char_is_space(cs[lo])
        invariant
            lo <= n == cs@.len(),
            trim_start(cs@) == trim_start(cs@.subrange(lo as int, n as int)),
        decreases n - lo,
    {
        proof {
            assert(cs@.subrange(lo as int, n as int).drop_first() =~= cs@.subrange(lo + 1, n as int));
        }
        lo = lo + 1;
    }
    let ghost t = cs@.subrange(lo as int, n as int);
    proof {
        assert(trim_start(t) == t);
    }
    let mut hi: usize = n;
    while hi > lo && char_is_space(cs[hi - 1])
        invariant
            lo <= hi <= n == cs@.len(),
            t == cs@.subrange(lo as int, n as int),
            trim_end(t) == trim_end(cs@.subrange(lo as int, hi as int)),
        decreases hi,
    {
        proof {
            let u = cs@.subrange(lo as int, hi as int);
            assert(u.drop_last() =~= cs@.subrange(lo as int, hi - 1));
            assert(u.last() == cs@[hi - 1]);
        }
        hi = hi - 1;
    }
    proof {
        assert(cs@.subrange(0, n as int) =~= cs@);
        let u = cs@.subrange(lo as int, hi as int);
        if u.len() > 0 {
            assert(u.last() == cs@[hi - 1]);
        }
    }
    string_of(&slice_chars(&cs, lo, hi))
}

/// The text `Invalid packet id '<id>'`.
pub open spec fn invalid_id_text(id: Seq<char>) -> Seq<char> {
    "Invalid packet id '"@ + id + "'"@
}

/// The id with white space trimmed, if that is a packet id; otherwise an
/// invalid-input error.
pub fn get_valid_id(id: &String) -> (r: Result<String, OutpackError>)
    ensures
        match r {
            Ok(s) => is_packet_id(trim(id@)) && s@ == trim(id@),
            Err(e) => !is_packet_id(trim(id@)) && e.kind == Some(ErrorKind::InvalidInput)
                && e.detail@ == invalid_id_text(id@),
        },
{
    let s = trim_text(id.as_str());
    if is_packet_str(s.as_str()) {
        Ok(s)
    } else {
        let mut m: Vec<char> = Vec::new();
        push_str(&mut m, "Invalid packet id '");
        push_str(&mut m, id.as_str());
        push_str(&mut m, "'");
        Err(OutpackError::new(ErrorKind::InvalidInput, string_of(&m)))
    }
}

} // verus!
