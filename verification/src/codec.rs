//! Wire formats the dispatcher speaks, as functions on bytes.
//!
//! Three byte-level formats meet here:
//! - the execute and query messages sent to the contract, JSON in its
//!   canonical compact form (`{"dispatch_alarms":{"max_count":3}}`,
//!   `{"status":{}}`);
//! - the contract's replies, JSON objects carrying one field
//!   (`{"remaining_alarms":true}`, `{"dispatched":3}`);
//! - the envelope a committed transaction wraps its reply in: a single
//!   length-delimited record (tag byte `0x0A`, a base-128 varint length,
//!   then the payload).
//!
//! Encoders state the exact bytes they produce; decoders accept a byte
//! string if and only if it is such an encoding.

use vstd::prelude::*;

verus! {

/// ASCII decimal digit.
pub open spec fn is_digit(b: u8) -> bool {
    48 <= b <= 57
}

/// The canonical decimal rendering of `n`: no sign, no leading zeroes.
pub open spec fn spec_decimal(n: nat) -> Seq<u8>
    decreases n,
{
    if n < 10 {
        seq![(48 + n) as u8]
    } else {
        spec_decimal(n / 10).push((48 + n % 10) as u8)
    }
}

/// Powers of ten, for bounding the length of decimal renderings.
pub open spec fn pow10(k: nat) -> nat
    decreases k,
{
    if k == 0 {
        1
    } else {
        10 * pow10((k - 1) as nat)
    }
}

pub proof fn lemma_decimal_digits(n: nat)
    ensures
        spec_decimal(n).len() >= 1,
        forall|i: int| 0 <= i < spec_decimal(n).len() ==> is_digit(#[trigger] spec_decimal(n)[i]),
        n > 0 ==> spec_decimal(n)[0] != 48,
    decreases n,
{
    if n >= 10 {
        lemma_decimal_digits(n / 10);
        assert(spec_decimal(n) == spec_decimal(n / 10).push((48 + n % 10) as u8));
    }
}

pub proof fn lemma_decimal_injective(a: nat, b: nat)
    requires
        spec_decimal(a) == spec_decimal(b),
    ensures
        a == b,
    decreases a,
{
    lemma_decimal_digits(a);
    lemma_decimal_digits(b);
    if a < 10 && b < 10 {
        assert(spec_decimal(a)[0] == spec_decimal(b)[0]);
    } else if a < 10 && b >= 10 {
        lemma_decimal_digits(b / 10);
        assert(spec_decimal(b).len() >= 2);
    } else if a >= 10 && b < 10 {
        lemma_decimal_digits(a / 10);
        assert(spec_decimal(a).len() >= 2);
    } else {
        assert(spec_decimal(a) == spec_decimal(a / 10).push((48 + a % 10) as u8));
        assert(spec_decimal(b) == spec_decimal(b / 10).push((48 + b % 10) as u8));
        assert(spec_decimal(a / 10) =~= spec_decimal(a).drop_last());
        assert(spec_decimal(b / 10) =~= spec_decimal(b).drop_last());
        lemma_decimal_injective(a / 10, b / 10);
        assert(spec_decimal(a / 10).push((48 + a % 10) as u8).last() == (48 + a % 10) as u8);
        assert(spec_decimal(b / 10).push((48 + b % 10) as u8).last() == (48 + b % 10) as u8);
        assert(spec_decimal(a).last() == spec_decimal(b).last());
        assert(((48 + a % 10) as u8) as nat == 48 + a % 10);
        assert(((48 + b % 10) as u8) as nat == 48 + b % 10);
        assert(a % 10 == b % 10);
        vstd::arithmetic::div_mod::lemma_fundamental_div_mod(a as int, 10);
        vstd::arithmetic::div_mod::lemma_fundamental_div_mod(b as int, 10);
    }
}

pub proof fn lemma_decimal_len(n: nat, k: nat)
    requires
        k >= 1,
        n < pow10(k),
    ensures
        spec_decimal(n).len() <= k,
    decreases k,
{
    if n >= 10 {
        let p = pow10((k - 1) as nat);
        assert(pow10(k) == 10 * p);
        vstd::arithmetic::div_mod::lemma_fundamental_div_mod(n as int, 10);
        assert(n / 10 < p) by {
            if n / 10 >= p {
                assert(10 * (n / 10) >= 10 * p) by (nonlinear_arith)
                    requires
                        n / 10 >= p,
                ;
            }
        }
        lemma_decimal_len(n / 10, (k - 1) as nat);
    }
}

/// `spec_decimal` grows one digit at a time from the most significant end.
pub proof fn lemma_decimal_step(a: nat, d: nat)
    requires
        a >= 1,
        d < 10,
    ensures
        spec_decimal(a * 10 + d) == spec_decimal(a).push((48 + d) as u8),
{
    let n = a * 10 + d;
    assert(a * 10 + d >= 10) by (nonlinear_arith)
        requires
            a >= 1,
    ;
    vstd::arithmetic::div_mod::lemma_fundamental_div_mod_converse(
        n as int,
        10,
        a as int,
        d as int,
    );
}

/// Appends the canonical decimal rendering of `n`.
pub fn push_decimal(v: &mut Vec<u8>, n: u32)
    ensures
        final(v)@ == old(v)@ + spec_decimal(n as nat),
    decreases n,
{
    if n >= 10 {
        push_decimal(v, n / 10);
    }
    let d: u8 = (n % 10) as u8 + 48;
    v.push(d);
    proof {
        if n >= 10 {
            assert(v@ =~= old(v)@ + spec_decimal(n as nat / 10).push((48 + n as nat % 10) as u8));
        } else {
            assert(v@ =~= old(v)@ + spec_decimal(n as nat));
        }
    }
}

/// Parses the canonical decimal of a `u32` beginning at `start` and running
/// up to the first non-digit. Returns the value and the position after its
/// last digit; `None` when no canonical `u32` decimal stands there.
pub fn parse_canonical_u32(s: &[u8], start: usize) -> (r: Option<(u32, usize)>)
    requires
        start <= s@.len(),
    ensures
        (r matches Some(p) ==> start < p.1 <= s@.len()
            && s@.subrange(start as int, p.1 as int) == spec_decimal(p.0 as nat)
            && (p.1 == s@.len() || !is_digit(s@[p.1 as int]))),
        forall|n: u32, end: int|
            (start < end <= s@.len()
                && s@.subrange(start as int, end) == spec_decimal(n as nat)
                && (end == s@.len() || !is_digit(s@[end]))) ==> r == Some((n, end as usize)),
{
    let len: usize = s.len();
    if start >= len {
        return None;
    }
    let b0: u8 = s[start];
    if b0 < 48 || b0 > 57 {
        proof {
            assert forall|n: u32, end: int|
                (start < end <= s@.len()
                    && s@.subrange(start as int, end) == spec_decimal(n as nat)
                    && (end == s@.len() || !is_digit(s@[end]))) implies false by {
                lemma_decimal_digits(n as nat);
                assert(s@[start as int] == spec_decimal(n as nat)[0]);
            }
        }
        return None;
    }
    if b0 == 48 {
        // A canonical decimal starting with '0' is the single digit "0".
        if start + 1 < len {
            let c: u8 = s[start + 1];
            if c >= 48 && c <= 57 {
                proof {
                    assert forall|n: u32, end: int|
                        (start < end <= s@.len()
                            && s@.subrange(start as int, end) == spec_decimal(n as nat)
                            && (end == s@.len() || !is_digit(s@[end]))) implies false by {
                        lemma_decimal_digits(n as nat);
                        assert(s@[start as int] == spec_decimal(n as nat)[0]);
                        assert(n == 0);
                        assert(spec_decimal(0) =~= seq![48u8]);
                        assert(end == start + 1);
                    }
                }
                return None;
            }
        }
        proof {
            assert(s@.subrange(start as int, start + 1) =~= spec_decimal(0));
            assert forall|n: u32, end: int|
                (start < end <= s@.len()
                    && s@.subrange(start as int, end) == spec_decimal(n as nat)
                    && (end == s@.len() || !is_digit(s@[end]))) implies n == 0 && end
                == start + 1 by {
                lemma_decimal_digits(n as nat);
                assert(s@[start as int] == spec_decimal(n as nat)[0]);
            }
        }
        return Some((0, start + 1));
    }
    let mut acc: u64 = (b0 - 48) as u64;
    let mut i: usize = start + 1;
    proof {
        assert(s@.subrange(start as int, start + 1) =~= spec_decimal(acc as nat));
        assert(pow10(0) == 1);
        assert(pow10(1) == 10);
    }
    while i < len && i - start < 10 && s[i] >= 48 && s[i] <= 57
        invariant
            len == s@.len(),
            start < i <= len,
            i - start <= 10,
            1 <= acc,
            acc < pow10((i - start) as nat),
            s@.subrange(start as int, i as int) == spec_decimal(acc as nat),
        decreases len - i,
    {
        let c: u8 = s[i];
        let d: u64 = (c - 48) as u64;
        proof {
            lemma_pow10_mono((i - start) as nat, 9);
            lemma_pow10_ten();
            lemma_decimal_step(acc as nat, d as nat);
            assert(s@.subrange(start as int, i + 1) =~= s@.subrange(start as int, i as int).push(
                s@[i as int],
            ));
        }
        let ghost old_count: nat = (i - start) as nat;
        acc = acc * 10 + d;
        i = i + 1;
        proof {
            assert((i - start) as nat == old_count + 1);
            assert(pow10(old_count + 1) == 10 * pow10(old_count));
        }
    }
    proof {
        lemma_decimal_digits(acc as nat);
    }
    if i < len && s[i] >= 48 && s[i] <= 57 {
        // An eleventh digit: no u32 has a canonical decimal that long.
        proof {
            assert(i - start == 10);
            lemma_decimal_digits(acc as nat);
            assert forall|n: u32, end: int|
                (start < end <= s@.len()
                    && s@.subrange(start as int, end) == spec_decimal(n as nat)
                    && (end == s@.len() || !is_digit(s@[end]))) implies false by {
                lemma_decimal_digits(n as nat);
                if end < i {
                    assert(s@.subrange(start as int, i as int)[end - start] == s@[end]);
                    assert(is_digit(spec_decimal(acc as nat)[end - start]));
                } else if end == i {
                    assert(is_digit(s@[end]));
                } else {
                    lemma_pow10_ten();
                    lemma_decimal_len(n as nat, 10);
                    assert(spec_decimal(n as nat).len() == end - start);
                }
            }
        }
        return None;
    }
    if acc > 0xFFFF_FFFF {
        proof {
            assert forall|n: u32, end: int|
                (start < end <= s@.len()
                    && s@.subrange(start as int, end) == spec_decimal(n as nat)
                    && (end == s@.len() || !is_digit(s@[end]))) implies false by {
                lemma_decimal_digits(n as nat);
                lemma_match_run(s@, start as int, i as int, acc as nat, n as nat, end);
            }
        }
        return None;
    }
    proof {
        assert forall|n: u32, end: int|
            (start < end <= s@.len()
                && s@.subrange(start as int, end) == spec_decimal(n as nat)
                && (end == s@.len() || !is_digit(s@[end]))) implies n == acc && end == i by {
            lemma_decimal_digits(n as nat);
            lemma_match_run(s@, start as int, i as int, acc as nat, n as nat, end);
        }
    }
    Some((acc as u32, i))
}

pub proof fn lemma_pow10_pos(k: nat)
    ensures
        pow10(k) >= 1,
    decreases k,
{
    if k > 0 {
        lemma_pow10_pos((k - 1) as nat);
    }
}

pub proof fn lemma_pow10_mono(j: nat, k: nat)
    requires
        j <= k,
    ensures
        pow10(j) <= pow10(k),
    decreases k,
{
    lemma_pow10_pos(j);
    if j < k {
        lemma_pow10_mono(j, (k - 1) as nat);
        lemma_pow10_pos((k - 1) as nat);
        assert(pow10(k) == 10 * pow10((k - 1) as nat));
    }
}

proof fn lemma_pow10_ten()
    ensures
        pow10(9) == 1000000000,
        pow10(10) == 10000000000,
{
    reveal_with_fuel(pow10, 11);
}

/// If the digit run of `s` beginning at `start` ends exactly at `i` and
/// spells `spec_decimal(a)`, then any canonical decimal `spec_decimal(n)`
/// standing at `start` and delimited at `end` is that same run.
proof fn lemma_match_run(s: Seq<u8>, start: int, i: int, a: nat, n: nat, end: int)
    requires
        0 <= start < i <= s.len(),
        0 <= start < end <= s.len(),
        s.subrange(start, i) == spec_decimal(a),
        s.subrange(start, end) == spec_decimal(n),
        i == s.len() || !is_digit(s[i]),
        end == s.len() || !is_digit(s[end]),
    ensures
        n == a,
        end == i,
{
    lemma_decimal_digits(a);
    lemma_decimal_digits(n);
    if end < i {
        assert(s.subrange(start, i)[end - start] == s[end]);
        assert(is_digit(spec_decimal(a)[end - start]));
        assert(false);
    } else if end > i {
        assert(s.subrange(start, end)[i - start] == s[i]);
        assert(is_digit(spec_decimal(n)[i - start]));
        assert(false);
    }
    assert(end == i);
    assert(spec_decimal(a) == spec_decimal(n));
    lemma_decimal_injective(a, n);
}

/// Byte-for-byte equality of two slices.
pub fn bytes_eq(a: &[u8], b: &[u8]) -> (r: bool)
    ensures
        r <==> a@ == b@,
{
    if a.len() != b.len() {
        proof {
            assert(a@ != b@);
        }
        return false;
    }
    let n: usize = a.len();
    let mut i: usize = 0;
    while i < n
        invariant
            0 <= i <= n,
            n == a@.len() == b@.len(),
            forall|j: int| 0 <= j < i ==> a@[j] == b@[j],
        decreases n - i,
    {
        if a[i] != b[i] {
            proof {
                assert(a@[i as int] != b@[i as int]);
            }
            return false;
        }
        i = i + 1;
    }
    proof {
        assert(a@ =~= b@);
    }
    true
}


/// `{"status":{}}`: the query asking the contract whether work remains.
pub open spec fn status_query_spec() -> Seq<u8> {
    seq![
        '{' as u8,
        '"' as u8,
        's' as u8,
        't' as u8,
        'a' as u8,
        't' as u8,
        'u' as u8,
        's' as u8,
        '"' as u8,
        ':' as u8,
        '{' as u8,
        '}' as u8,
        '}' as u8,
    ]
}

pub fn status_query_bytes() -> (r: Vec<u8>)
    ensures
        r@ == status_query_spec(),
{
    let mut v: Vec<u8> = Vec::new();
    v.push('{' as u8);
    v.push('"' as u8);
    v.push('s' as u8);
    v.push('t' as u8);
    v.push('a' as u8);
    v.push('t' as u8);
    v.push('u' as u8);
    v.push('s' as u8);
    v.push('"' as u8);
    v.push(':' as u8);
    v.push('{' as u8);
    v.push('}' as u8);
    v.push('}' as u8);
    proof {
        assert(v@ =~= status_query_spec());
    }
    v
}

/// `{"dispatch_alarms":{"max_count":` — the head of the execute message.
pub open spec fn dispatch_msg_prefix() -> Seq<u8> {
    seq![
        '{' as u8,
        '"' as u8,
        'd' as u8,
        'i' as u8,
        's' as u8,
        'p' as u8,
        'a' as u8,
        't' as u8,
        'c' as u8,
        'h' as u8,
        '_' as u8,
        'a' as u8,
        'l' as u8,
        'a' as u8,
        'r' as u8,
        'm' as u8,
        's' as u8,
        '"' as u8,
        ':' as u8,
        '{' as u8,
        '"' as u8,
        'm' as u8,
        'a' as u8,
        'x' as u8,
        '_' as u8,
        'c' as u8,
        'o' as u8,
        'u' as u8,
        'n' as u8,
        't' as u8,
        '"' as u8,
        ':' as u8,
    ]
}

/// `{"dispatch_alarms":{"max_count":N}}`: the batch-execute message.
pub open spec fn dispatch_msg_spec(max_count: u32) -> Seq<u8> {
    dispatch_msg_prefix() + spec_decimal(max_count as nat) + seq!['}' as u8, '}' as u8]
}

pub fn dispatch_msg_bytes(max_count: u32) -> (r: Vec<u8>)
    ensures
        r@ == dispatch_msg_spec(max_count),
{
    let mut v: Vec<u8> = Vec::new();
    v.push('{' as u8);
    v.push('"' as u8);
    v.push('d' as u8);
    v.push('i' as u8);
    v.push('s' as u8);
    v.push('p' as u8);
    v.push('a' as u8);
    v.push('t' as u8);
    v.push('c' as u8);
    v.push('h' as u8);
    v.push('_' as u8);
    v.push('a' as u8);
    v.push('l' as u8);
    v.push('a' as u8);
    v.push('r' as u8);
    v.push('m' as u8);
    v.push('s' as u8);
    v.push('"' as u8);
    v.push(':' as u8);
    v.push('{' as u8);
    v.push('"' as u8);
    v.push('m' as u8);
    v.push('a' as u8);
    v.push('x' as u8);
    v.push('_' as u8);
    v.push('c' as u8);
    v.push('o' as u8);
    v.push('u' as u8);
    v.push('n' as u8);
    v.push('t' as u8);
    v.push('"' as u8);
    v.push(':' as u8);
    proof {
        assert(v@ =~= dispatch_msg_prefix());
    }
    push_decimal(&mut v, max_count);
    v.push('}' as u8);
    v.push('}' as u8);
    proof {
        assert(v@ =~= dispatch_msg_spec(max_count));
    }
    v
}

/// `true` / `false` as JSON.
pub open spec fn spec_bool_bytes(b: bool) -> Seq<u8> {
    if b {
        seq!['t' as u8, 'r' as u8, 'u' as u8, 'e' as u8]
    } else {
        seq!['f' as u8, 'a' as u8, 'l' as u8, 's' as u8, 'e' as u8]
    }
}

/// `{"remaining_alarms":` — the head of the contract's status reply.
pub open spec fn status_response_prefix() -> Seq<u8> {
    seq![
        '{' as u8,
        '"' as u8,
        'r' as u8,
        'e' as u8,
        'm' as u8,
        'a' as u8,
        'i' as u8,
        'n' as u8,
        'i' as u8,
        'n' as u8,
        'g' as u8,
        '_' as u8,
        'a' as u8,
        'l' as u8,
        'a' as u8,
        'r' as u8,
        'm' as u8,
        's' as u8,
        '"' as u8,
        ':' as u8,
    ]
}

/// `{"remaining_alarms":b}`: the status reply exposing "work remains".
pub open spec fn status_response_spec(b: bool) -> Seq<u8> {
    status_response_prefix() + spec_bool_bytes(b) + seq!['}' as u8]
}

pub fn status_response_bytes(b: bool) -> (r: Vec<u8>)
    ensures
        r@ == status_response_spec(b),
{
    let mut v: Vec<u8> = Vec::new();
    v.push('{' as u8);
    v.push('"' as u8);
    v.push('r' as u8);
    v.push('e' as u8);
    v.push('m' as u8);
    v.push('a' as u8);
    v.push('i' as u8);
    v.push('n' as u8);
    v.push('i' as u8);
    v.push('n' as u8);
    v.push('g' as u8);
    v.push('_' as u8);
    v.push('a' as u8);
    v.push('l' as u8);
    v.push('a' as u8);
    v.push('r' as u8);
    v.push('m' as u8);
    v.push('s' as u8);
    v.push('"' as u8);
    v.push(':' as u8);
    if b {
        v.push('t' as u8);
        v.push('r' as u8);
        v.push('u' as u8);
        v.push('e' as u8);
    } else {
        v.push('f' as u8);
        v.push('a' as u8);
        v.push('l' as u8);
        v.push('s' as u8);
        v.push('e' as u8);
    }
    v.push('}' as u8);
    proof {
        assert(v@ =~= status_response_spec(b));
    }
    v
}

/// Decodes the status reply. Accepts a byte string exactly when it is
/// `status_response_spec(b)` for some `b`, and returns that `b`.
pub fn parse_status_response(bytes: &[u8]) -> (r: Option<bool>)
    ensures
        (r matches Some(b) ==> bytes@ == status_response_spec(b)),
        forall|b: bool| bytes@ == status_response_spec(b) ==> r == Some(b),
{
    proof {
        assert(status_response_spec(true).len() == 25);
        assert(status_response_spec(false).len() == 26);
    }
    let t: Vec<u8> = status_response_bytes(true);
    if bytes_eq(bytes, t.as_slice()) {
        return Some(true);
    }
    let f: Vec<u8> = status_response_bytes(false);
    if bytes_eq(bytes, f.as_slice()) {
        return Some(false);
    }
    None
}

/// `{"dispatched":` — the head of the contract's execute reply.
pub open spec fn dispatch_response_prefix() -> Seq<u8> {
    seq![
        '{' as u8,
        '"' as u8,
        'd' as u8,
        'i' as u8,
        's' as u8,
        'p' as u8,
        'a' as u8,
        't' as u8,
        'c' as u8,
        'h' as u8,
        'e' as u8,
        'd' as u8,
        '"' as u8,
        ':' as u8,
    ]
}

/// `{"dispatched":N}`: the execute reply exposing the processed count.
pub open spec fn dispatch_response_spec(n: nat) -> Seq<u8> {
    dispatch_response_prefix() + spec_decimal(n) + seq!['}' as u8]
}

fn dispatch_response_prefix_bytes() -> (r: Vec<u8>)
    ensures
        r@ == dispatch_response_prefix(),
{
    let mut v: Vec<u8> = Vec::new();
    v.push('{' as u8);
    v.push('"' as u8);
    v.push('d' as u8);
    v.push('i' as u8);
    v.push('s' as u8);
    v.push('p' as u8);
    v.push('a' as u8);
    v.push('t' as u8);
    v.push('c' as u8);
    v.push('h' as u8);
    v.push('e' as u8);
    v.push('d' as u8);
    v.push('"' as u8);
    v.push(':' as u8);
    proof {
        assert(v@ =~= dispatch_response_prefix());
    }
    v
}

/// Does `p` stand at the head of `a`?
fn starts_with(a: &[u8], p: &[u8]) -> (r: bool)
    ensures
        r <==> (a@.len() >= p@.len() && a@.subrange(0, p@.len() as int) == p@),
{
    if a.len() < p.len() {
        return false;
    }
    let n: usize = p.len();
    let mut i: usize = 0;
    while i < n
        invariant
            0 <= i <= n,
            n == p@.len(),
            n <= a@.len(),
            forall|j: int| 0 <= j < i ==> a@[j] == p@[j],
        decreases n - i,
    {
        if a[i] != p[i] {
            proof {
                assert(a@.subrange(0, n as int)[i as int] == a@[i as int]);
                assert(a@.subrange(0, n as int) != p@);
            }
            return false;
        }
        i = i + 1;
    }
    proof {
        assert(a@.subrange(0, n as int) =~= p@);
    }
    true
}

/// Decodes the execute reply. Accepts a byte string exactly when it is
/// `dispatch_response_spec(n)` for a `u32` value `n`, and returns that `n`.
pub fn parse_dispatch_response(bytes: &[u8]) -> (r: Option<u32>)
    ensures
        (r matches Some(n) ==> bytes@ == dispatch_response_spec(n as nat)),
        forall|n: u32| bytes@ == dispatch_response_spec(n as nat) ==> r == Some(n),
{
    let prefix: Vec<u8> = dispatch_response_prefix_bytes();
    let plen: usize = prefix.len();
    proof {
        assert forall|n: u32| bytes@ == dispatch_response_spec(n as nat) implies bytes@.len() >= plen
            + 2 && bytes@.subrange(0, plen as int) == dispatch_response_prefix() by {
            lemma_decimal_digits(n as nat);
            assert(bytes@.subrange(0, plen as int) =~= dispatch_response_prefix());
        }
    }
    if !starts_with(bytes, prefix.as_slice()) {
        return None;
    }
    match parse_canonical_u32(bytes, plen) {
        Option::None => {
            proof {
                assert forall|n: u32| bytes@ == dispatch_response_spec(n as nat) implies false by {
                    lemma_decimal_digits(n as nat);
                    let end = plen + spec_decimal(n as nat).len();
                    assert(bytes@.subrange(plen as int, end as int) =~= spec_decimal(n as nat));
                    assert(bytes@[end as int] == '}' as u8);
                }
            }
            None
        },
        Option::Some((n0, endpos)) => {
            if bytes.len() - endpos == 1 && bytes[endpos] == 125 {
                proof {
                    assert(bytes@ =~= dispatch_response_spec(n0 as nat));
                    assert forall|n: u32| bytes@ == dispatch_response_spec(n as nat) implies n
                        == n0 by {
                        lemma_decimal_digits(n as nat);
                        let end = plen + spec_decimal(n as nat).len();
                        assert(bytes@.subrange(plen as int, end as int) =~= spec_decimal(n as nat));
                        assert(bytes@[end as int] == '}' as u8);
                    }
                }
                Some(n0)
            } else {
                proof {
                    assert forall|n: u32| bytes@ == dispatch_response_spec(n as nat) implies
                        false by {
                        lemma_decimal_digits(n as nat);
                        let end = plen + spec_decimal(n as nat).len();
                        assert(bytes@.subrange(plen as int, end as int) =~= spec_decimal(n as nat));
                        assert(bytes@[end as int] == '}' as u8);
                    }
                }
                None
            }
        },
    }
}


/// The minimal base-128 rendering of `n`: seven value bits per byte, least
/// significant group first, the high bit marking continuation.
pub open spec fn spec_varint(n: nat) -> Seq<u8>
    decreases n,
{
    if n < 128 {
        seq![n as u8]
    } else {
        seq![(128 + n % 128) as u8] + spec_varint(n / 128)
    }
}

/// The envelope a committed transaction wraps its reply payload in: one
/// length-delimited record, tag byte `0x0A`, then the payload's length as a
/// varint, then the payload itself.
pub open spec fn envelope_spec(payload: Seq<u8>) -> Seq<u8> {
    seq![10u8] + spec_varint(payload.len()) + payload
}

/// Parses a minimal varint beginning at `start`.
fn parse_varint(s: &[u8], start: usize) -> (r: Option<(u64, usize)>)
    requires
        start <= s@.len(),
    ensures
        (r matches Some(p) ==> start < p.1 <= s@.len() && s@.subrange(start as int, p.1 as int)
            == spec_varint(p.0 as nat)),
        forall|v: u64, end: int|
            (start < end <= s@.len() && s@.subrange(start as int, end) == spec_varint(v as nat))
                ==> r == Some((v, end as usize)),
    decreases s@.len() - start,
{
    if start >= s.len() {
        return None;
    }
    let b: u8 = s[start];
    if b < 128 {
        proof {
            assert(s@.subrange(start as int, start + 1) =~= spec_varint(b as nat));
            assert forall|v: u64, end: int|
                (start < end <= s@.len() && s@.subrange(start as int, end) == spec_varint(
                    v as nat,
                )) implies v == b && end == start + 1 by {
                assert(s@.subrange(start as int, end)[0] == s@[start as int]);
                if v >= 128 {
                    assert(spec_varint(v as nat)[0] == (128 + v as nat % 128) as u8);
                    assert((128 + v as nat % 128) as u8 as nat == 128 + v as nat % 128);
                } else {
                    assert(spec_varint(v as nat) =~= seq![v as u8]);
                }
            }
        }
        return Some((b as u64, start + 1));
    }
    match parse_varint(s, start + 1) {
        Option::None => {
            proof {
                assert forall|v: u64, end: int|
                    (start < end <= s@.len() && s@.subrange(start as int, end) == spec_varint(
                        v as nat,
                    )) implies false by {
                    assert(s@.subrange(start as int, end)[0] == s@[start as int]);
                    if v < 128 {
                        assert(spec_varint(v as nat) =~= seq![v as u8]);
                    } else {
                        lemma_varint_tail(s@, start as int, end, v as nat);
                    }
                }
            }
            None
        },
        Option::Some((v2, endpos)) => {
            if v2 == 0 || v2 > 144115188075855871 {
                proof {
                    assert forall|v: u64, end: int|
                        (start < end <= s@.len() && s@.subrange(start as int, end) == spec_varint(
                            v as nat,
                        )) implies false by {
                        assert(s@.subrange(start as int, end)[0] == s@[start as int]);
                        if v < 128 {
                            assert(spec_varint(v as nat) =~= seq![v as u8]);
                        } else {
                            lemma_varint_tail(s@, start as int, end, v as nat);
                            assert(v2 as nat == v as nat / 128);
                            vstd::arithmetic::div_mod::lemma_fundamental_div_mod(v as int, 128);
                        }
                    }
                }
                None
            } else {
                let value: u64 = (b - 128) as u64 + v2 * 128;
                proof {
                    vstd::arithmetic::div_mod::lemma_fundamental_div_mod_converse(
                        value as int,
                        128,
                        v2 as int,
                        (b - 128) as int,
                    );
                    assert(spec_varint(value as nat) == seq![(128 + value as nat % 128) as u8]
                        + spec_varint(value as nat / 128));
                    assert(s@.subrange(start as int, endpos as int) =~= seq![s@[start as int]]
                        + s@.subrange(start + 1, endpos as int));
                    assert(s@.subrange(start as int, endpos as int) =~= spec_varint(value as nat));
                    assert forall|v: u64, end: int|
                        (start < end <= s@.len() && s@.subrange(start as int, end) == spec_varint(
                            v as nat,
                        )) implies v == value && end == endpos by {
                        assert(s@.subrange(start as int, end)[0] == s@[start as int]);
                        if v < 128 {
                            assert(spec_varint(v as nat) =~= seq![v as u8]);
                        } else {
                            lemma_varint_tail(s@, start as int, end, v as nat);
                            assert(v2 as nat == v as nat / 128);
                            assert((128 + v as nat % 128) as u8 as nat == 128 + v as nat % 128);
                            vstd::arithmetic::div_mod::lemma_fundamental_div_mod(v as int, 128);
                        }
                    }
                }
                Some((value, endpos))
            }
        },
    }
}

/// For `v >= 128`, the varint's tail after its first byte is the varint of
/// `v / 128`.
proof fn lemma_varint_tail(s: Seq<u8>, start: int, end: int, v: nat)
    requires
        v >= 128,
        0 <= start < end <= s.len(),
        s.subrange(start, end) == spec_varint(v),
    ensures
        start + 1 < end,
        s.subrange(start + 1, end) == spec_varint(v / 128),
        s[start] == (128 + v % 128) as u8,
{
    assert(spec_varint(v) == seq![(128 + v % 128) as u8] + spec_varint(v / 128));
    assert(spec_varint(v / 128).len() >= 1);
    assert(s.subrange(start, end)[0] == s[start]);
    assert(s.subrange(start + 1, end) =~= spec_varint(v / 128)) by {
        assert forall|j: int| 0 <= j < end - start - 1 implies #[trigger] s.subrange(
            start + 1,
            end,
        )[j] == spec_varint(v / 128)[j] by {
            assert(s.subrange(start, end)[j + 1] == s[start + 1 + j]);
        }
    }
}

/// Unwraps the transaction-result envelope, yielding the contract's reply
/// payload. Accepts a byte string exactly when it is `envelope_spec(p)` for
/// some payload `p`.
pub fn unwrap_envelope(bytes: &[u8]) -> (r: Option<Vec<u8>>)
    ensures
        (r matches Some(q) ==> bytes@ == envelope_spec(q@)),
        forall|p: Seq<u8>| bytes@ == envelope_spec(p) ==> (r matches Some(q) && q@ == p),
{
    proof {
        assert forall|p: Seq<u8>| bytes@ == envelope_spec(p) implies bytes@.len() >= 2 && bytes@[0]
            == 10u8 by {
            assert(spec_varint(p.len()).len() >= 1);
        }
    }
    if bytes.len() < 2 || bytes[0] != 10 {
        return None;
    }
    match parse_varint(bytes, 1) {
        Option::None => {
            proof {
                assert forall|p: Seq<u8>| bytes@ == envelope_spec(p) implies false by {
                    let k = spec_varint(p.len()).len();
                    assert(bytes@.subrange(1, 1 + k as int) =~= spec_varint(p.len()));
                }
            }
            None
        },
        Option::Some((v, endpos)) => {
            let remaining: usize = bytes.len() - endpos;
            if v != remaining as u64 {
                proof {
                    assert forall|p: Seq<u8>| bytes@ == envelope_spec(p) implies false by {
                        let k = spec_varint(p.len()).len();
                        assert(bytes@.subrange(1, 1 + k as int) =~= spec_varint(p.len()));
                    }
                }
                return None;
            }
            let mut out: Vec<u8> = Vec::new();
            let mut i: usize = endpos;
            while i < bytes.len()
                invariant
                    endpos <= i <= bytes@.len(),
                    out@ == bytes@.subrange(endpos as int, i as int),
                decreases bytes@.len() - i,
            {
                let c: u8 = bytes[i];
                out.push(c);
                i = i + 1;
                proof {
                    assert(out@ =~= bytes@.subrange(endpos as int, i as int));
                }
            }
            proof {
                assert(out@ == bytes@.subrange(endpos as int, bytes@.len() as int));
                assert(bytes@ =~= envelope_spec(out@));
                assert forall|p: Seq<u8>| bytes@ == envelope_spec(p) implies p == out@ by {
                    let k = spec_varint(p.len()).len();
                    assert(bytes@.subrange(1, 1 + k as int) =~= spec_varint(p.len()));
                    assert(p.len() as u64 == v && 1 + k == endpos);
                    assert(p =~= bytes@.subrange(endpos as int, bytes@.len() as int));
                }
            }
            Some(out)
        },
    }
}

} // verus!
