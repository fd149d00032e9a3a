//! Parsing of the optional `bit_order` configuration string.
//!
//! The recognized tokens are `msb`, `msb-first`, `msb_first`, `lsb`,
//! `lsb-first` and `lsb_first`, compared case-insensitively after
//! surrounding whitespace is removed; an absent value defaults to
//! most-significant-bit-first.  Any other value is rejected with an error
//! message naming the offending token and the two canonical forms.

use vstd::prelude::*;
use vstd::string::{StrSliceExecFns, StringExecFns};

use crate::model::BitOrder;

verus! {

/// Whitespace characters ignored at the ends of the token (the Unicode
/// White_Space set).
pub open spec fn is_space(c: char) -> bool {
    ||| c == ' '
    ||| c == '\t'
    ||| c == '\n'
    ||| c == '\u{b}'
    ||| c == '\u{c}'
    ||| c == '\r'
    ||| c == '\u{85}'
    ||| c == '\u{a0}'
    ||| c == '\u{1680}'
    ||| c == '\u{2000}'
    ||| c == '\u{2001}'
    ||| c == '\u{2002}'
    ||| c == '\u{2003}'
    ||| c == '\u{2004}'
    ||| c == '\u{2005}'
    ||| c == '\u{2006}'
    ||| c == '\u{2007}'
    ||| c == '\u{2008}'
    ||| c == '\u{2009}'
    ||| c == '\u{200a}'
    ||| c == '\u{2028}'
    ||| c == '\u{2029}'
    ||| c == '\u{202f}'
    ||| c == '\u{205f}'
    ||| c == '\u{3000}'
}

/// `s` with leading whitespace removed.
pub open spec fn trim_start(s: Seq<char>) -> Seq<char>
    decreases s.len(),
{
    if s.len() > 0 && is_space(s[0]) {
        trim_start(s.drop_first())
    } else {
        s
    }
}

/// `s` with trailing whitespace removed.
pub open spec fn trim_end(s: Seq<char>) -> Seq<char>
    decreases s.len(),
{
    if s.len() > 0 && is_space(s[s.len() - 1]) {
        trim_end(s.drop_last())
    } else {
        s
    }
}

/// `s` with surrounding whitespace removed.
pub open spec fn trimmed(s: Seq<char>) -> Seq<char> {
    trim_end(trim_start(s))
}

/// The upper-case form of the lower-case letters that occur in the
/// recognized tokens; any other character maps to itself.
pub open spec fn upper_of(l: char) -> char {
    if l == 'm' {
        'M'
    } else if l == 's' {
        'S'
    } else if l == 'b' {
        'B'
    } else if l == 'l' {
        'L'
    } else if l == 'f' {
        'F'
    } else if l == 'i' {
        'I'
    } else if l == 'r' {
        'R'
    } else if l == 't' {
        'T'
    } else {
        l
    }
}

/// `c` equals token character `l` up to ASCII case.
pub open spec fn char_matches(c: char, l: char) -> bool {
    c == l || (upper_of(l) != l && c == upper_of(l))
}

/// `s` equals the (lower-case) token `tok` up to ASCII case.
pub open spec fn seq_matches_token(s: Seq<char>, tok: Seq<char>) -> bool {
    s.len() == tok.len() && forall|i: int| 0 <= i < s.len() ==> char_matches(#[trigger] s[i], tok[i])
}

/// The parse of one supplied token: which bit order it selects, if any.
pub open spec fn spec_parse_token(s: Seq<char>) -> Option<BitOrder> {
    let t = trimmed(s);
    if seq_matches_token(t, "msb"@) || seq_matches_token(t, "msb-first"@) || seq_matches_token(
        t,
        "msb_first"@,
    ) {
        Option::Some(BitOrder::Msb)
    } else if seq_matches_token(t, "lsb"@) || seq_matches_token(t, "lsb-first"@)
        || seq_matches_token(t, "lsb_first"@) {
        Option::Some(BitOrder::Lsb)
    } else {
        Option::None
    }
}

/// The view of the optional configuration value.
pub open spec fn opt_view(o: Option<String>) -> Option<Seq<char>> {
    match o {
        Option::None => Option::None,
        Option::Some(s) => Option::Some(s@),
    }
}

/// The parse of the optional configuration value: an absent value selects
/// most-significant-bit-first; a present one parses as its token does.
pub open spec fn spec_parse(o: Option<Seq<char>>) -> Option<BitOrder> {
    match o {
        Option::None => Option::Some(BitOrder::Msb),
        Option::Some(s) => spec_parse_token(s),
    }
}

/// The error message for a rejected token `t`.
pub open spec fn error_chars(t: Seq<char>) -> Seq<char> {
    "Unsupported bitOrder: "@ + t + " (expected 'msb' or 'lsb')"@
}

fn is_space_char(c: char) -> (r: bool)
    ensures
        r == is_space(c),
{
    match c {
        ' ' | '\t' | '\n' | '\u{b}' | '\u{c}' | '\r' | '\u{85}' | '\u{a0}' | '\u{1680}'
            | '\u{2000}' | '\u{2001}' | '\u{2002}' | '\u{2003}' | '\u{2004}' | '\u{2005}'
            | '\u{2006}' | '\u{2007}' | '\u{2008}' | '\u{2009}' | '\u{200a}' | '\u{2028}'
            | '\u{2029}' | '\u{202f}' | '\u{205f}' | '\u{3000}' => true,
        _ => false,
    }
}

fn matches_ci(c: char, l: char) -> (r: bool)
    ensures
        r == char_matches(c, l),
{
    let u = match l {
        'm' => 'M',
        's' => 'S',
        'b' => 'B',
        'l' => 'L',
        'f' => 'F',
        'i' => 'I',
        'r' => 'R',
        't' => 'T',
        _ => l,
    };
    c == l || (u != l && c == u)
}

/// Does `s[lo..hi]` equal the lower-case token `tok` up to ASCII case?
fn matches_token(s: &str, lo: usize, hi: usize, tok: &str) -> (r: bool)
    requires
        lo <= hi <= s@.len(),
    ensures
        r == seq_matches_token(s@.subrange(lo as int, hi as int), tok@),
{
    let n = tok.unicode_len();
    if hi - lo != n {
        return false;
    }
    let mut i: usize = 0;
    while i < n
        invariant
            n == tok@.len(),
            i <= n,
            lo <= hi <= s@.len(),
            hi - lo == n,
            forall|j: int| 0 <= j < i ==> char_matches(#[trigger] s@[lo + j], tok@[j]),
        decreases n - i,
    {
        let c = s.get_char(lo + i);
        let l = tok.get_char(i);
        if !matches_ci(c, l) {
            proof {
                let sub = s@.subrange(lo as int, hi as int);
                assert(sub[i as int] == s@[lo + i]);
                assert(!char_matches(sub[i as int], tok@[i as int]));
            }
            return false;
        }
        i = i + 1;
    }
    proof {
        let sub = s@.subrange(lo as int, hi as int);
        assert forall|j: int| 0 <= j < sub.len() implies char_matches(
            #[trigger] sub[j],
            tok@[j],
        ) by {
            assert(sub[j] == s@[lo + j]);
            assert(char_matches(s@[lo + j], tok@[j]));
        }
    }
    true
}

/// Removing leading whitespace keeps the suffix that starts at the first
/// non-whitespace position.
proof fn lemma_trim_start_bound(s: Seq<char>, lo: int)
    requires
        0 <= lo <= s.len(),
        forall|j: int| 0 <= j < lo ==> is_space(#[trigger] s[j]),
        lo == s.len() || !is_space(s[lo]),
    ensures
        trim_start(s) == s.subrange(lo, s.len() as int),
    decreases lo,
{
    if lo == 0 {
        assert(s.subrange(0, s.len() as int) =~= s);
    } else {
        let tail = s.drop_first();
        assert(forall|j: int| 0 <= j < lo - 1 ==> is_space(#[trigger] tail[j]));
        lemma_trim_start_bound(tail, lo - 1);
        assert(tail.subrange(lo - 1, tail.len() as int) =~= s.subrange(lo, s.len() as int));
    }
}

/// Removing trailing whitespace keeps the prefix that ends at the last
/// non-whitespace position.
proof fn lemma_trim_end_bound(s: Seq<char>, hi: int)
    requires
        0 <= hi <= s.len(),
        forall|j: int| hi <= j < s.len() ==> is_space(#[trigger] s[j]),
        hi == 0 || !is_space(s[hi - 1]),
    ensures
        trim_end(s) == s.subrange(0, hi),
    decreases s.len(),
{
    if hi == s.len() {
        if s.len() > 0 && is_space(s[s.len() - 1]) {
            assert(false);
        }
        assert(s.subrange(0, hi) =~= s);
    } else {
        let front = s.drop_last();
        assert(is_space(s[s.len() - 1]));
        assert(forall|j: int| hi <= j < front.len() ==> is_space(#[trigger] front[j]));
        lemma_trim_end_bound(front, hi);
        assert(front.subrange(0, hi) =~= s.subrange(0, hi));
    }
}

/// Parse the optional `bit_order` value.  An absent value defaults to
/// most-significant-bit-first; a present one is trimmed and compared
/// case-insensitively against the recognized tokens; anything else is
/// rejected with a message naming the trimmed token.
pub fn parse_bit_order(bit_order: Option<String>) -> (r: Result<BitOrder, String>)
    ensures
        match r {
            Ok(o) => spec_parse(opt_view(bit_order)) == Option::Some(o),
            Err(m) => spec_parse(opt_view(bit_order)) is None && (bit_order matches Some(s)
                && m@ == error_chars(trimmed(s@))),
        },
{
    match bit_order {
        None => Ok(BitOrder::Msb),
        Some(s) => {
            let st: &str = s.as_str();
            let n = st.unicode_len();

            let mut lo: usize = 0;
            while lo < n && is_space_char(st.get_char(lo))
                invariant
                    lo <= n,
                    n == st@.len(),
                    forall|j: int| 0 <= j < lo ==> is_space(#[trigger] st@[j]),
                decreases n - lo,
            {
                lo = lo + 1;
            }

            let mut hi: usize = n;
            while hi > lo && is_space_char(st.get_char(hi - 1))
                invariant
                    lo <= hi <= n,
                    n == st@.len(),
                    forall|j: int| 0 <= j < lo ==> is_space(#[trigger] st@[j]),
                    forall|j: int| hi <= j < n ==> is_space(#[trigger] st@[j]),
                decreases hi,
            {
                hi = hi - 1;
            }

            proof {
                lemma_trim_start_bound(st@, lo as int);
                let suffix = st@.subrange(lo as int, n as int);
                assert(forall|j: int|
                    hi - lo <= j < suffix.len() ==> is_space(#[trigger] suffix[j]));
                lemma_trim_end_bound(suffix, hi - lo);
                assert(suffix.subrange(0, hi - lo) =~= st@.subrange(lo as int, hi as int));
                assert(trimmed(st@) == st@.subrange(lo as int, hi as int));
            }

            let is_msb = matches_token(st, lo, hi, "msb") || matches_token(st, lo, hi, "msb-first")
                || matches_token(st, lo, hi, "msb_first");
            if is_msb {
                return Ok(BitOrder::Msb);
            }
            let is_lsb = matches_token(st, lo, hi, "lsb") || matches_token(st, lo, hi, "lsb-first")
                || matches_token(st, lo, hi, "lsb_first");
            if is_lsb {
                return Ok(BitOrder::Lsb);
            }

            let t = st.substring_char(lo, hi);
            let mut msg = String::from_str("Unsupported bitOrder: ");
            msg.append(t);
            msg.append(" (expected 'msb' or 'lsb')");
            Err(msg)
        },
    }
}

} // verus!
