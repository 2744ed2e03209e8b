//! Textual syntax of IP addresses. An endpoint's address part must be a
//! well-formed IPv4 dotted quad or an IPv6 address (groups of hexadecimal
//! digits, one optional `::` abbreviation, an optional embedded dotted quad
//! in the last position).

use vstd::prelude::*;

use crate::text::all_digits;
use crate::text::check_hex_digit;
use crate::text::dec_val;
use crate::text::find0;
use crate::text::find_char;
use crate::text::is_hex_digit;
use crate::text::lemma_find0;
use crate::text::parse_u64_digits;

verus! {

// ---------------------------------------------------------------------------
// IPv4
// ---------------------------------------------------------------------------

/// One decimal octet: one to three digits, no leading zero, at most 255.
pub open spec fn valid_octet(s: Seq<char>) -> bool {
    &&& 1 <= s.len() <= 3
    &&& all_digits(s)
    &&& (s.len() == 1 || s[0] != '0')
    &&& dec_val(s) <= 255
}

/// `parts` octets separated by `'.'`.
pub open spec fn ipv4_parts(s: Seq<char>, parts: int) -> bool
    decreases parts,
{
    if parts <= 1 {
        parts == 1 && valid_octet(s)
    } else {
        let i = find0(s, '.');
        &&& 0 <= i < s.len()
        &&& valid_octet(s.take(i))
        &&& ipv4_parts(s.skip(i + 1), parts - 1)
    }
}

/// A dotted quad such as `192.168.0.34`.
pub open spec fn is_valid_ipv4(s: Seq<char>) -> bool {
    ipv4_parts(s, 4)
}

fn check_octet(s: &str) -> (r: bool)
    ensures
        r == valid_octet(s@),
{
    let n = s.unicode_len();
    if n < 1 || n > 3 {
        return false;
    }
    if n > 1 && s.get_char(0) == '0' {
        return false;
    }
    match parse_u64_digits(s) {
        Some(v) => v <= 255,
        None => false,
    }
}

fn check_ipv4_parts(s: &str, parts: u32) -> (r: bool)
    requires
        1 <= parts <= 4,
    ensures
        r == ipv4_parts(s@, parts as int),
    decreases parts,
{
    if parts == 1 {
        check_octet(s)
    } else {
        match find_char(s, '.') {
            Some(i) => {
                proof {
                    lemma_find0(s@, '.');
                }
                let n = s.unicode_len();
                proof {
                    assert(s@.subrange(0, i as int) =~= s@.take(i as int));
                    assert(s@.subrange(i + 1, n as int) =~= s@.skip(i + 1));
                }
                check_octet(s.substring_char(0, i)) && check_ipv4_parts(
                    s.substring_char(i + 1, n),
                    parts - 1,
                )
            },
            None => false,
        }
    }
}

pub fn check_ipv4(s: &str) -> (r: bool)
    ensures
        r == is_valid_ipv4(s@),
{
    check_ipv4_parts(s, 4)
}

// ---------------------------------------------------------------------------
// IPv6
// ---------------------------------------------------------------------------

/// One group of one to four hexadecimal digits.
pub open spec fn valid_h16(s: Seq<char>) -> bool {
    &&& 1 <= s.len() <= 4
    &&& forall|j: int| 0 <= j < s.len() ==> is_hex_digit(#[trigger] s[j])
}

/// Colon-separated groups, every one a hexadecimal group; the number of
/// groups when well-formed.
pub open spec fn group_slots(s: Seq<char>) -> Option<int>
    decreases s.len(),
{
    let i = find0(s, ':');
    if !(0 <= i < s.len()) {
        if valid_h16(s) {
            Some(1int)
        } else {
            None
        }
    } else {
        if valid_h16(s.take(i)) {
            match group_slots(s.skip(i + 1)) {
                Some(k) => Some(k + 1),
                None => None,
            }
        } else {
            None
        }
    }
}

/// Colon-separated groups where the last may instead be an embedded dotted
/// quad, which stands for two groups; the number of group slots used.
pub open spec fn tail_slots(s: Seq<char>) -> Option<int>
    decreases s.len(),
{
    let i = find0(s, ':');
    if !(0 <= i < s.len()) {
        if valid_h16(s) {
            Some(1int)
        } else if is_valid_ipv4(s) {
            Some(2int)
        } else {
            None
        }
    } else {
        if valid_h16(s.take(i)) {
            match tail_slots(s.skip(i + 1)) {
                Some(k) => Some(k + 1),
                None => None,
            }
        } else {
            None
        }
    }
}

/// Index of the first `::`, or `-1` when there is none.
pub open spec fn find_dc(s: Seq<char>) -> int
    decreases s.len(),
{
    if s.len() < 2 {
        -1
    } else if s[0] == ':' && s[1] == ':' {
        0
    } else {
        let r = find_dc(s.skip(1));
        if r < 0 {
            -1
        } else {
            r + 1
        }
    }
}

pub proof fn lemma_find_dc(s: Seq<char>)
    ensures
        find_dc(s) < 0 ==> forall|j: int| 0 <= j < s.len() - 1 ==> !(#[trigger] s[j] == ':' && s[j
            + 1] == ':'),
        find_dc(s) >= 0 ==> 0 <= find_dc(s) < s.len() - 1 && s[find_dc(s)] == ':' && s[find_dc(s)
            + 1] == ':' && forall|j: int| 0 <= j < find_dc(s) ==> !(#[trigger] s[j] == ':' && s[j
            + 1] == ':'),
    decreases s.len(),
{
    if s.len() >= 2 && !(s[0] == ':' && s[1] == ':') {
        lemma_find_dc(s.skip(1));
        if find_dc(s.skip(1)) < 0 {
            assert forall|j: int| 0 <= j < s.len() - 1 implies !(#[trigger] s[j] == ':' && s[j
                + 1] == ':') by {
                if j > 0 {
                    assert(!(s.skip(1)[j - 1] == ':' && s.skip(1)[j] == ':'));
                }
            }
        } else {
            let r = find_dc(s.skip(1));
            assert(s[r + 1] == s.skip(1)[r]);
            assert(s[r + 2] == s.skip(1)[r + 1]);
            assert forall|j: int| 0 <= j < r + 1 implies !(#[trigger] s[j] == ':' && s[j + 1]
                == ':') by {
                if j > 0 {
                    assert(!(s.skip(1)[j - 1] == ':' && s.skip(1)[j] == ':'));
                }
            }
        }
    }
}

/// An IPv6 address: eight group slots, or a single `::` standing for at
/// least one zero group, with at most seven slots around it.
pub open spec fn is_valid_ipv6(s: Seq<char>) -> bool {
    let d = find_dc(s);
    if d < 0 {
        tail_slots(s) == Some(8int)
    } else {
        let left = s.take(d);
        let right = s.skip(d + 2);
        let lk = if left.len() == 0 {
            Some(0int)
        } else {
            group_slots(left)
        };
        let rk = if right.len() == 0 {
            Some(0int)
        } else {
            tail_slots(right)
        };
        &&& lk is Some
        &&& rk is Some
        &&& lk->0 + rk->0 <= 7
    }
}

/// A well-formed address: IPv4 or IPv6 textual form.
pub open spec fn is_valid_ip(s: Seq<char>) -> bool {
    is_valid_ipv4(s) || is_valid_ipv6(s)
}

fn check_h16(s: &str) -> (r: bool)
    ensures
        r == valid_h16(s@),
{
    let n = s.unicode_len();
    if n < 1 || n > 4 {
        return false;
    }
    let mut i: usize = 0;
    while i < n
        invariant
            i <= n,
            n == s@.len(),
            forall|j: int| 0 <= j < i ==> is_hex_digit(#[trigger] s@[j]),
        decreases n - i,
    {
        if !check_hex_digit(s.get_char(i)) {
            return false;
        }
        i += 1;
    }
    true
}

fn check_group_slots(s: &str) -> (r: Option<usize>)
    ensures
        match r {
            Some(k) => group_slots(s@) == Some(k as int) && 1 <= k <= s@.len(),
            None => group_slots(s@) is None,
        },
    decreases s@.len(),
{
    match find_char(s, ':') {
        None => {
            proof {
                lemma_find0(s@, ':');
            }
            if check_h16(s) {
                Some(1)
            } else {
                None
            }
        },
        Some(i) => {
            proof {
                lemma_find0(s@, ':');
            }
            let n = s.unicode_len();
            proof {
                assert(s@.subrange(0, i as int) =~= s@.take(i as int));
                assert(s@.subrange(i + 1, n as int) =~= s@.skip(i + 1));
            }
            if !check_h16(s.substring_char(0, i)) {
                return None;
            }
            match check_group_slots(s.substring_char(i + 1, n)) {
                Some(k) => Some(k + 1),
                None => None,
            }
        },
    }
}

fn check_tail_slots(s: &str) -> (r: Option<usize>)
    ensures
        match r {
            Some(k) => tail_slots(s@) == Some(k as int) && 1 <= k <= s@.len() + 1,
            None => tail_slots(s@) is None,
        },
    decreases s@.len(),
{
    match find_char(s, ':') {
        None => {
            proof {
                lemma_find0(s@, ':');
            }
            if check_h16(s) {
                Some(1)
            } else if check_ipv4(s) {
                Some(2)
            } else {
                None
            }
        },
        Some(i) => {
            proof {
                lemma_find0(s@, ':');
            }
            let n = s.unicode_len();
            proof {
                assert(s@.subrange(0, i as int) =~= s@.take(i as int));
                assert(s@.subrange(i + 1, n as int) =~= s@.skip(i + 1));
            }
            if !check_h16(s.substring_char(0, i)) {
                return None;
            }
            match check_tail_slots(s.substring_char(i + 1, n)) {
                Some(k) => Some(k + 1),
                None => None,
            }
        },
    }
}

/// First position of `::`, if any.
fn find_dc_str(s: &str) -> (r: Option<usize>)
    ensures
        match r {
            Some(i) => find_dc(s@) == i as int,
            None => find_dc(s@) < 0,
        },
{
    let n = s.unicode_len();
    if n < 2 {
        proof {
            lemma_find_dc(s@);
        }
        return None;
    }
    let mut i: usize = 0;
    while i < n - 1
        invariant
            i <= n - 1,
            2 <= n == s@.len(),
            forall|j: int| 0 <= j < i ==> !(#[trigger] s@[j] == ':' && s@[j + 1] == ':'),
        decreases n - i,
    {
        if s.get_char(i) == ':' && s.get_char(i + 1) == ':' {
            proof {
                lemma_find_dc(s@);
            }
            return Some(i);
        }
        i += 1;
    }
    proof {
        lemma_find_dc(s@);
    }
    None
}

pub fn check_ipv6(s: &str) -> (r: bool)
    ensures
        r == is_valid_ipv6(s@),
{
    let n = s.unicode_len();
    match find_dc_str(s) {
        None => {
            match check_tail_slots(s) {
                Some(k) => k == 8,
                None => false,
            }
        },
        Some(d) => {
            proof {
                lemma_find_dc(s@);
                assert(s@.subrange(0, d as int) =~= s@.take(d as int));
                assert(s@.subrange(d + 2, n as int) =~= s@.skip(d + 2));
            }
            let lk: usize = if d == 0 {
                0
            } else {
                match check_group_slots(s.substring_char(0, d)) {
                    Some(k) => k,
                    None => {
                        return false;
                    },
                }
            };
            let rk: usize = if d + 2 == n {
                0
            } else {
                match check_tail_slots(s.substring_char(d + 2, n)) {
                    Some(k) => k,
                    None => {
                        return false;
                    },
                }
            };
            lk <= 7 && rk <= 7 && lk + rk <= 7
        },
    }
}

/// A well-formed address: IPv4 or IPv6 textual form.
pub fn check_ip(s: &str) -> (r: bool)
    ensures
        r == is_valid_ip(s@),
{
    check_ipv4(s) || check_ipv6(s)
}

} // verus!
