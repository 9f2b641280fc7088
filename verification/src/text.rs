//! Small verified building blocks for working with strings: equality,
//! prefix tests, and parsing of `host:port` addresses.

use vstd::prelude::*;

verus! {

/// True when `pre` is a prefix of `s`.
pub open spec fn is_prefix_of(pre: Seq<char>, s: Seq<char>) -> bool {
    pre.len() <= s.len() && s.subrange(0, pre.len() as int) == pre
}

/// Character-by-character equality of two string slices.
pub fn str_eq(a: &str, b: &str) -> (r: bool)
    ensures
        r == (a@ == b@),
{
    let alen = a.unicode_len();
    let blen = b.unicode_len();
    if alen != blen {
        return false;
    }
    let mut i: usize = 0;
    while i < alen
        invariant
            alen == a@.len(),
            blen == b@.len(),
            alen == blen,
            i <= alen,
            forall|j: int| 0 <= j < i ==> a@[j] == b@[j],
        decreases alen - i,
    {
        if a.get_char(i) != b.get_char(i) {
            return false;
        }
        i = i + 1;
    }
    proof {
        assert(a@ =~= b@);
    }
    true
}

/// True when the path `s` begins with the prefix `pre`.
pub fn str_starts_with(s: &str, pre: &str) -> (r: bool)
    ensures
        r == is_prefix_of(pre@, s@),
{
    let slen = s.unicode_len();
    let plen = pre.unicode_len();
    if plen > slen {
        return false;
    }
    let mut i: usize = 0;
    while i < plen
        invariant
            slen == s@.len(),
            plen == pre@.len(),
            plen <= slen,
            i <= plen,
            forall|j: int| 0 <= j < i ==> s@[j] == pre@[j],
        decreases plen - i,
    {
        if s.get_char(i) != pre.get_char(i) {
            proof {
                assert(s@.subrange(0, pre@.len() as int)[i as int] != pre@[i as int]);
            }
            return false;
        }
        i = i + 1;
    }
    proof {
        assert(s@.subrange(0, pre@.len() as int) =~= pre@);
    }
    true
}

/// True when `c` is an ASCII decimal digit.
pub open spec fn is_digit(c: char) -> bool {
    48 <= c as int <= 57
}

/// Numeric value of one decimal digit.
pub open spec fn digit_val(c: char) -> int {
    c as int - 48
}

/// True when every character of `s` is a decimal digit.
pub open spec fn all_digits(s: Seq<char>) -> bool {
    forall|i: int| 0 <= i < s.len() ==> is_digit(#[trigger] s[i])
}

/// The value of `s` read as a decimal numeral.
pub open spec fn dec_value(s: Seq<char>) -> int
    decreases s.len(),
{
    if s.len() == 0 {
        0
    } else {
        dec_value(s.drop_last()) * 10 + digit_val(s.last())
    }
}

proof fn lemma_dec_value_nonneg(s: Seq<char>)
    requires
        all_digits(s),
    ensures
        dec_value(s) >= 0,
    decreases s.len(),
{
    if s.len() > 0 {
        assert(all_digits(s.drop_last())) by {
            assert(forall|i: int| 0 <= i < s.len() - 1 ==> s.drop_last()[i] == s[i]);
        }
        lemma_dec_value_nonneg(s.drop_last());
    }
}

/// Index of the last `:` in `s`, or `-1` when there is none.
pub open spec fn last_colon(s: Seq<char>) -> int
    decreases s.len(),
{
    if s.len() == 0 {
        -1
    } else if s.last() == ':' {
        s.len() - 1
    } else {
        last_colon(s.drop_last())
    }
}

proof fn lemma_last_colon_character(s: Seq<char>)
    ensures
        last_colon(s) == -1 ==> forall|j: int| 0 <= j < s.len() ==> s[j] != ':',
        last_colon(s) != -1 ==> {
            &&& 0 <= last_colon(s) < s.len()
            &&& s[last_colon(s)] == ':'
            &&& forall|j: int| last_colon(s) < j < s.len() ==> s[j] != ':'
        },
    decreases s.len(),
{
    if s.len() > 0 && s.last() != ':' {
        lemma_last_colon_character(s.drop_last());
        assert(forall|j: int| 0 <= j < s.len() - 1 ==> s.drop_last()[j] == s[j]);
    }
}

/// True when `s` has the shape `host:port`: a non-empty host, one final
/// colon, and a non-empty run of digits whose value fits in a `u16`.
pub open spec fn valid_host_port(s: Seq<char>) -> bool {
    let i = last_colon(s);
    &&& 1 <= i < s.len() - 1
    &&& all_digits(s.subrange(i + 1, s.len() as int))
    &&& dec_value(s.subrange(i + 1, s.len() as int)) <= 65535
}

/// The host part of a valid `host:port` address.
pub open spec fn host_of(s: Seq<char>) -> Seq<char> {
    s.subrange(0, last_colon(s))
}

/// The port part of a valid `host:port` address.
pub open spec fn port_of(s: Seq<char>) -> int {
    dec_value(s.subrange(last_colon(s) + 1, s.len() as int))
}

/// Splits a `host:port` string at its last colon and reads the port as a
/// decimal `u16`. Returns `None` exactly on malformed addresses.
pub fn parse_host_port(s: &str) -> (r: Option<(String, u16)>)
    ensures
        r is Some <==> valid_host_port(s@),
        r matches Some(p) ==> p.0@ == host_of(s@) && p.1 as int == port_of(s@),
{
    let len = s.unicode_len();
    let mut i: usize = len;
    let mut colon: usize = 0;
    let mut found = false;
    while i > 0 && !found
        invariant
            len == s@.len(),
            i <= len,
            !found ==> forall|j: int| i <= j < len ==> s@[j] != ':',
            found ==> colon < len && s@[colon as int] == ':' && (forall|j: int|
                colon < j < len ==> s@[j] != ':'),
        decreases i,
    {
        i = i - 1;
        if s.get_char(i) == ':' {
            colon = i;
            found = true;
        }
    }
    proof {
        lemma_last_colon_character(s@);
        if found {
            assert(last_colon(s@) == colon as int);
        } else {
            assert(last_colon(s@) == -1) by {
                if last_colon(s@) != -1 {
                    assert(s@[last_colon(s@)] == ':');
                }
            }
        }
    }
    if !found || colon == 0 || colon + 1 >= len {
        return None;
    }
    let mut k: usize = colon + 1;
    let mut val: u32 = 0;
    let mut big = false;
    while k < len
        invariant
            len == s@.len(),
            colon + 1 <= k <= len,
            colon as int == last_colon(s@),
            0 < colon && (colon as int) < len - 1,
            all_digits(s@.subrange(colon + 1, k as int)),
            !big ==> val as int == dec_value(s@.subrange(colon + 1, k as int)),
            big ==> dec_value(s@.subrange(colon + 1, k as int)) > 65535,
            val <= 655359,
        decreases len - k,
    {
        let c = s.get_char(k);
        let cv = c as u32;
        if cv < 48 || cv > 57 {
            proof {
                assert(!is_digit(s@[k as int]));
                assert(s@.subrange(colon + 1, len as int)[k - colon - 1] == s@[k as int]);
            }
            return None;
        }
        proof {
            assert(s@.subrange(colon + 1, k + 1).drop_last() =~= s@.subrange(
                colon + 1,
                k as int,
            ));
            assert(s@.subrange(colon + 1, k + 1).last() == s@[k as int]);
        }
        if big || val > 65535 {
            proof {
                let prev = s@.subrange(colon + 1, k as int);
                let cur = s@.subrange(colon + 1, k + 1);
                lemma_dec_value_nonneg(prev);
                assert(dec_value(cur) == dec_value(prev) * 10 + digit_val(cur.last()));
            }
            big = true;
        } else {
            val = val * 10 + (cv - 48);
        }
        k = k + 1;
    }
    proof {
        assert(s@.subrange(colon + 1, len as int) =~= s@.subrange(colon + 1, k as int));
    }
    if big || val > 65535 {
        proof {
            if !big {
                assert(dec_value(s@.subrange(colon + 1, len as int)) == val as int);
            }
        }
        return None;
    }
    let host = s.substring_char(0, colon).to_owned();
    Some((host, val as u16))
}

} // verus!
