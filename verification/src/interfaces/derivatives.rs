//! Staking-derivative oracles: the price of one derivative token from its
//! exchange rate with the underlying token. A key that ends in " Rate" asks
//! for the exchange rate itself.
pub mod bot;
pub mod generic;
pub mod stride;

use vstd::prelude::*;
use vstd::string::*;

verus! {

/// To be appended to key to signal that consumer wants the rate.
pub const RATE_STRING: &'static str = " Rate";

/// `s` ends in " Rate".
pub open spec fn has_rate_suffix(s: Seq<char>) -> bool {
    s.len() >= 5 && s.subrange(s.len() - 5, s.len() as int) == " Rate"@
}

/// `s` with every trailing " Rate" removed.
pub open spec fn strip_rate(s: Seq<char>) -> Seq<char>
    decreases s.len(),
{
    if has_rate_suffix(s) {
        strip_rate(s.subrange(0, s.len() - 5))
    } else {
        s
    }
}

/// Whether the characters of `s` just before position `end` are " Rate".
fn rate_suffix_at(s: &str, end: usize) -> (r: bool)
    requires
        end <= s@.len(),
    ensures
        r == has_rate_suffix(s@.subrange(0, end as int)),
{
    proof {
        reveal_strlit(" Rate");
    }
    if end < 5 {
        return false;
    }
    let r = s.get_char(end - 5) == ' ' && s.get_char(end - 4) == 'R' && s.get_char(end - 3) == 'a'
        && s.get_char(end - 2) == 't' && s.get_char(end - 1) == 'e';
    proof {
        let p = s@.subrange(0, end as int);
        let tail = p.subrange(p.len() - 5, p.len() as int);
        if r {
            assert(tail =~= " Rate"@);
        }
        if tail == " Rate"@ {
            assert(tail[0] == ' ' && tail[1] == 'R' && tail[2] == 'a' && tail[3] == 't' && tail[4] == 'e');
        }
    }
    r
}

/// Splits a key into whether it asks for the rate and the key with every
/// trailing " Rate" removed.
pub fn process_rate_key(key: &str) -> (r: (bool, String))
    ensures
        r.0 == has_rate_suffix(key@),
        r.1@ == strip_rate(key@),
{
    let n = key.unicode_len();
    proof {
        assert(key@.subrange(0, n as int) =~= key@);
    }
    let is_rate = rate_suffix_at(key, n);
    let mut end = n;
    while rate_suffix_at(key, end)
        invariant
            end <= n == key@.len(),
            strip_rate(key@) == strip_rate(key@.subrange(0, end as int)),
        decreases end,
    {
        proof {
            let p = key@.subrange(0, end as int);
            assert(p.subrange(0, p.len() - 5) =~= key@.subrange(0, end - 5));
        }
        end = end - 5;
    }
    let stripped = String::from_str(key.substring_char(0, end));
    (is_rate, stripped)
}

/// The key that asks for the rate of `key`: `key` followed by " Rate".
pub fn rate_key(key: &str) -> (r: String)
    ensures
        r@ == key@ + " Rate"@,
{
    String::from_str(key).concat(RATE_STRING)
}

/// The rate key of a key asks for the rate, and its key is the key with
/// every trailing " Rate" removed; removing them again changes nothing.
pub proof fn lemma_rate_key_round_trip(key: Seq<char>)
    ensures
        has_rate_suffix(key + " Rate"@),
        strip_rate(key + " Rate"@) == strip_rate(key),
        !has_rate_suffix(strip_rate(key)),
        strip_rate(strip_rate(key)) == strip_rate(key),
{
    reveal_strlit(" Rate");
    let s = key + " Rate"@;
    assert(s.subrange(s.len() - 5, s.len() as int) =~= " Rate"@);
    assert(s.subrange(0, s.len() - 5) =~= key);
    lemma_strip_rate_done(key);
}

/// Stripping leaves no trailing " Rate".
proof fn lemma_strip_rate_done(s: Seq<char>)
    ensures
        !has_rate_suffix(strip_rate(s)),
        strip_rate(strip_rate(s)) == strip_rate(s),
    decreases s.len(),
{
    if has_rate_suffix(s) {
        lemma_strip_rate_done(s.subrange(0, s.len() - 5));
    }
}

} // verus!
