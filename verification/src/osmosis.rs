//! The spot-price provider's data handling: exact decimal ratios.
//!
//! The price endpoint reports a spot price as a decimal string ("1.25").
//! It is kept as an exact fraction: trailing zeroes of the fractional part
//! are dropped, the remaining digits form the numerator, and the
//! denominator is ten to the number of surviving fractional digits — so
//! "1.250" becomes 125/100.

use vstd::prelude::*;

use crate::codec::is_digit;
use crate::codec::pow10;

verus! {

/// A spot price as an exact fraction.
#[derive(Debug, Clone, Copy, PartialEq, Eq, Structural)]
pub struct Ratio {
    pub numerator: u128,
    pub denominator: u128,
}

/// `p` is where the first `.` of `s` stands — `s.len()` when none does.
pub open spec fn first_dot_at(s: Seq<u8>, p: int) -> bool {
    &&& 0 <= p <= s.len()
    &&& (p == s.len() || s[p] == 46)
    &&& forall|j: int| 0 <= j < p ==> s[j] != 46
}

/// `z` delimits `s` before its trailing `0` characters. Only a rendering
/// with a dot is trimmed; the dot itself stops the trimming.
pub open spec fn trimmed_at(s: Seq<u8>, p: int, z: int) -> bool {
    if p == s.len() {
        z == s.len()
    } else {
        &&& p < z <= s.len()
        &&& (forall|j: int| z <= j < s.len() ==> s[j] == 48)
        &&& s[z - 1] != 48
    }
}

/// The mantissa characters: everything up to `z` except the dot.
pub open spec fn ratio_digits(s: Seq<u8>, p: int, z: int) -> Seq<u8> {
    if p == s.len() {
        s
    } else {
        s.subrange(0, p) + s.subrange(p + 1, z)
    }
}

/// How many fractional digits survive the trimming.
pub open spec fn ratio_exp(s: Seq<u8>, p: int, z: int) -> int {
    if p == s.len() {
        0
    } else {
        z - 1 - p
    }
}

pub open spec fn all_digits(s: Seq<u8>) -> bool {
    forall|j: int| 0 <= j < s.len() ==> is_digit(#[trigger] s[j])
}

/// The integer a digit string spells.
pub open spec fn digits_value(s: Seq<u8>) -> int
    decreases s.len(),
{
    if s.len() == 0 {
        0
    } else {
        digits_value(s.drop_last()) * 10 + s.last() - 48
    }
}

/// When a rendering is accepted: every mantissa character is a digit, at
/// least one is nonzero (an all-zero mantissa strips to an empty string,
/// which the mantissa parse rejects), the mantissa fits a `u128`, and so
/// does the denominator.
pub open spec fn ratio_accepted(s: Seq<u8>, p: int, z: int) -> bool {
    &&& all_digits(ratio_digits(s, p, z))
    &&& (exists|j: int| 0 <= j < ratio_digits(s, p, z).len() && ratio_digits(s, p, z)[j] != 48)
    &&& digits_value(ratio_digits(s, p, z)) <= u128::MAX
    &&& ratio_exp(s, p, z) <= 38
}

proof fn lemma_position_unique(s: Seq<u8>, p1: int, z1: int, p2: int, z2: int)
    requires
        first_dot_at(s, p1),
        trimmed_at(s, p1, z1),
        first_dot_at(s, p2),
        trimmed_at(s, p2, z2),
    ensures
        p1 == p2,
        z1 == z2,
{
    if p1 < p2 {
        assert(s[p1] != 46);
    }
    if p2 < p1 {
        assert(s[p2] != 46);
    }
    if p1 < s.len() {
        if z1 < z2 {
            assert(s[z2 - 1] == 48);
        }
        if z2 < z1 {
            assert(s[z1 - 1] == 48);
        }
    }
}

proof fn lemma_digits_value_nonneg(s: Seq<u8>)
    requires
        all_digits(s),
    ensures
        digits_value(s) >= 0,
    decreases s.len(),
{
    if s.len() > 0 {
        assert(all_digits(s.drop_last())) by {
            assert forall|j: int| 0 <= j < s.drop_last().len() implies is_digit(
                #[trigger] s.drop_last()[j],
            ) by {
                assert(s.drop_last()[j] == s[j]);
            }
        }
        lemma_digits_value_nonneg(s.drop_last());
    }
}

proof fn lemma_digits_value_step(s: Seq<u8>, i: int)
    requires
        0 <= i < s.len(),
    ensures
        digits_value(s.take(i + 1)) == digits_value(s.take(i)) * 10 + s[i] - 48,
{
    assert(s.take(i + 1).drop_last() =~= s.take(i));
    assert(s.take(i + 1).last() == s[i]);
}

proof fn lemma_digits_value_prefix_le(s: Seq<u8>, i: int)
    requires
        all_digits(s),
        0 <= i <= s.len(),
    ensures
        digits_value(s.take(i)) <= digits_value(s),
    decreases s.len() - i,
{
    if i < s.len() {
        lemma_digits_value_step(s, i);
        assert(all_digits(s.take(i))) by {
            assert forall|j: int| 0 <= j < s.take(i).len() implies is_digit(
                #[trigger] s.take(i)[j],
            ) by {
                assert(s.take(i)[j] == s[j]);
            }
        }
        lemma_digits_value_nonneg(s.take(i));
        lemma_digits_value_prefix_le(s, i + 1);
    } else {
        assert(s.take(i) =~= s);
    }
}

impl Ratio {
    /// Parses a decimal spot-price rendering into an exact fraction.
    ///
    /// For the (unique) dot position `p` and trim boundary `z` of the
    /// input, the parse succeeds exactly when the rendering is accepted,
    /// and then returns the mantissa's value over ten to the number of
    /// surviving fractional digits.
    pub fn from_decimal(s: &[u8]) -> (r: Option<Ratio>)
        ensures
            forall|p: int, z: int|
                (#[trigger] first_dot_at(s@, p) && #[trigger] trimmed_at(s@, p, z)
                    && ratio_accepted(s@, p, z)) ==> (r matches Some(t) && t.numerator
                    == digits_value(ratio_digits(s@, p, z)) && t.denominator == pow10(
                    ratio_exp(s@, p, z) as nat,
                )),
            forall|p: int, z: int|
                (#[trigger] first_dot_at(s@, p) && #[trigger] trimmed_at(s@, p, z)
                    && !ratio_accepted(s@, p, z)) ==> r is None,
    {
        let len: usize = s.len();
        let mut p: usize = 0;
        while p < len && s[p] != 46
            invariant
                0 <= p <= len,
                len == s@.len(),
                forall|j: int| 0 <= j < p ==> s@[j] != 46,
            decreases len - p,
        {
            p = p + 1;
        }
        proof {
            assert(first_dot_at(s@, p as int));
        }
        let mut z: usize = len;
        if p < len {
            while z > 0 && s[z - 1] == 48
                invariant
                    p + 1 <= z <= len,
                    len == s@.len(),
                    p < len,
                    s@[p as int] == 46,
                    forall|j: int| z <= j < len ==> s@[j] == 48,
                decreases z,
            {
                z = z - 1;
            }
        }
        proof {
            assert(trimmed_at(s@, p as int, z as int));
            assert forall|p2: int, z2: int|
                #[trigger] first_dot_at(s@, p2) && #[trigger] trimmed_at(s@, p2, z2) implies p2
                == p && z2 == z by {
                lemma_position_unique(s@, p as int, z as int, p2, z2);
            }
        }
        let mut dv: Vec<u8> = Vec::new();
        let mut i: usize = 0;
        while i < p
            invariant
                0 <= i <= p,
                p <= len,
                len == s@.len(),
                dv@ == s@.subrange(0, i as int),
            decreases p - i,
        {
            let c: u8 = s[i];
            dv.push(c);
            i = i + 1;
            proof {
                assert(dv@ =~= s@.subrange(0, i as int));
            }
        }
        if p < len {
            let mut j: usize = p + 1;
            while j < z
                invariant
                    p + 1 <= j <= z,
                    z <= len,
                    len == s@.len(),
                    dv@ == s@.subrange(0, p as int) + s@.subrange(p + 1, j as int),
                decreases z - j,
            {
                let c: u8 = s[j];
                dv.push(c);
                j = j + 1;
                proof {
                    assert(dv@ =~= s@.subrange(0, p as int) + s@.subrange(p + 1, j as int));
                }
            }
        } else {
            proof {
                assert(dv@ =~= s@);
            }
        }
        proof {
            assert(dv@ =~= ratio_digits(s@, p as int, z as int));
        }
        let d_len: usize = dv.len();
        let mut acc: u128 = 0;
        let mut seen: bool = false;
        let mut k: usize = 0;
        proof {
            assert(dv@.take(0) =~= Seq::<u8>::empty());
        }
        while k < d_len
            invariant
                0 <= k <= d_len,
                d_len == dv@.len(),
                dv@ == ratio_digits(s@, p as int, z as int),
                first_dot_at(s@, p as int),
                trimmed_at(s@, p as int, z as int),
                p <= len,
                len == s@.len(),
                forall|j: int| 0 <= j < k ==> is_digit(#[trigger] dv@[j]),
                seen <==> (exists|j: int| 0 <= j < k && dv@[j] != 48),
                acc == digits_value(dv@.take(k as int)),
            decreases d_len - k,
        {
            let c: u8 = dv[k];
            if c < 48 || c > 57 {
                proof {
                    assert(!is_digit(dv@[k as int]));
                    assert(!ratio_accepted(s@, p as int, z as int));
                    assert forall|p2: int, z2: int|
                        #[trigger] first_dot_at(s@, p2) && #[trigger] trimmed_at(
                            s@,
                            p2,
                            z2,
                        ) implies p2 == p && z2 == z by {
                        lemma_position_unique(s@, p as int, z as int, p2, z2);
                    }
                }
                return None;
            }
            if acc > 34028236692093846346337460743176821145 || (acc
                == 34028236692093846346337460743176821145 && c > 53) {
                proof {
                    lemma_digits_value_step(dv@, k as int);
                    assert(digits_value(dv@.take(k as int + 1)) > u128::MAX);
                    if all_digits(dv@) {
                        lemma_digits_value_prefix_le(dv@, k as int + 1);
                    }
                    assert(!ratio_accepted(s@, p as int, z as int));
                    assert forall|p2: int, z2: int|
                        #[trigger] first_dot_at(s@, p2) && #[trigger] trimmed_at(
                            s@,
                            p2,
                            z2,
                        ) implies p2 == p && z2 == z by {
                        lemma_position_unique(s@, p as int, z as int, p2, z2);
                    }
                }
                return None;
            }
            let d: u8 = c - 48;
            proof {
                lemma_digits_value_step(dv@, k as int);
            }
            acc = acc * 10 + (d as u128);
            if c != 48 {
                seen = true;
            }
            k = k + 1;
        }
        proof {
            assert(dv@.take(d_len as int) =~= dv@);
        }
        if !seen {
            proof {
                assert(!ratio_accepted(s@, p as int, z as int));
                assert forall|p2: int, z2: int|
                    #[trigger] first_dot_at(s@, p2) && #[trigger] trimmed_at(s@, p2, z2) implies p2
                    == p && z2 == z by {
                    lemma_position_unique(s@, p as int, z as int, p2, z2);
                }
            }
            return None;
        }
        let e: usize = if p < len {
            z - 1 - p
        } else {
            0
        };
        if e > 38 {
            proof {
                assert(ratio_exp(s@, p as int, z as int) == e);
                assert(!ratio_accepted(s@, p as int, z as int));
                assert forall|p2: int, z2: int|
                    #[trigger] first_dot_at(s@, p2) && #[trigger] trimmed_at(s@, p2, z2) implies p2
                    == p && z2 == z by {
                    lemma_position_unique(s@, p as int, z as int, p2, z2);
                }
            }
            return None;
        }
        let mut den: u128 = 1;
        let mut t: usize = 0;
        proof {
            assert(pow10(0) == 1);
        }
        while t < e
            invariant
                0 <= t <= e,
                e <= 38,
                den == pow10(t as nat),
            decreases e - t,
        {
            proof {
                crate::codec::lemma_pow10_mono(t as nat, 37);
                assert(pow10(37) == 10000000000000000000000000000000000000) by {
                    reveal_with_fuel(pow10, 38);
                }
                assert(pow10(t as nat + 1) == 10 * pow10(t as nat));
            }
            den = den * 10;
            t = t + 1;
        }
        proof {
            assert(ratio_exp(s@, p as int, z as int) == e);
            assert(ratio_accepted(s@, p as int, z as int));
            assert forall|p2: int, z2: int|
                #[trigger] first_dot_at(s@, p2) && #[trigger] trimmed_at(s@, p2, z2) implies p2 == p
                && z2 == z by {
                lemma_position_unique(s@, p as int, z as int, p2, z2);
            }
        }
        Some(Ratio { numerator: acc, denominator: den })
    }
}


/// The spot-price provider's failures.
#[derive(Debug)]
pub enum FeedProviderError {
    /// The configured base URL does not parse.
    InvalidProviderURL(String),
    /// A derived request URL does not parse.
    URLParsingError,
    /// The request could not be sent or its reply could not be read.
    FetchError,
}

/// Whether a string parses as a URL. The parse's outcome is a function of
/// the string alone.
pub uninterp spec fn url_is_valid(s: Seq<char>) -> bool;

/// Relies on `reqwest::Url::parse` (the `url` crate's parser): it returns
/// `Ok` exactly when the string is a valid absolute URL, deterministically
/// in its argument.
#[verifier::external_body]
fn parse_url_ok(u: &str) -> (r: bool)
    ensures
        r == url_is_valid(u@),
{
    reqwest::Url::parse(u).is_ok()
}

/// One leg of a supported swap: dispatch a price request for it when both
/// of its tickers are known.
pub struct SwapTarget {
    pub pool_id: u64,
    pub target: String,
}

pub struct SwapLeg {
    pub from: String,
    pub to: SwapTarget,
}

/// One spot-price request to make: the pool to ask and the tickers and
/// provider symbols of its two sides.
pub struct PriceRequest {
    pub pool_id: u64,
    pub from_ticker: String,
    pub from_symbol: String,
    pub to_ticker: String,
    pub to_symbol: String,
}

/// The first value bound to `key`, scanning the pairs front to back.
pub open spec fn lookup_spec(m: Seq<(String, String)>, key: Seq<char>) -> Option<Seq<char>>
    decreases m.len(),
{
    if m.len() == 0 {
        Option::None
    } else if m[0].0@ == key {
        Option::Some(m[0].1@)
    } else {
        lookup_spec(m.drop_first(), key)
    }
}

fn lookup(m: &Vec<(String, String)>, key: &String) -> (r: Option<String>)
    ensures
        (r matches Some(v) ==> lookup_spec(m@, key@) == Option::Some(v@)),
        (r is None ==> lookup_spec(m@, key@) is None),
{
    let n: usize = m.len();
    let mut i: usize = 0;
    proof {
        assert(m@.skip(0) =~= m@);
    }
    while i < n
        invariant
            0 <= i <= n,
            n == m@.len(),
            lookup_spec(m@.skip(i as int), key@) == lookup_spec(m@, key@),
        decreases n - i,
    {
        proof {
            assert(m@.skip(i as int)[0] == m@[i as int]);
            assert(m@.skip(i as int).drop_first() =~= m@.skip(i as int + 1));
        }
        if m[i].0.eq(key) {
            let v: String = m[i].1.clone();
            return Some(v);
        }
        i = i + 1;
    }
    proof {
        assert(m@.skip(n as int) =~= Seq::<(String, String)>::empty());
    }
    None
}

/// What one planning round yields, abstractly: for each leg whose two
/// tickers the currency list knows, in order, the pool and the two
/// (ticker, symbol) sides.
pub open spec fn plan_spec(m: Seq<(String, String)>, legs: Seq<SwapLeg>) -> Seq<
    (u64, Seq<char>, Seq<char>, Seq<char>, Seq<char>),
>
    decreases legs.len(),
{
    if legs.len() == 0 {
        Seq::empty()
    } else {
        let front = plan_spec(m, legs.drop_last());
        let l = legs.last();
        match (lookup_spec(m, l.from@), lookup_spec(m, l.to.target@)) {
            (Option::Some(fs), Option::Some(ts)) => front + seq![
                (l.to.pool_id, l.from@, fs, l.to.target@, ts),
            ],
            _ => front,
        }
    }
}

/// The Osmosis spot-price client: the endpoint's base URL and the ticker
/// to provider-symbol pairs it serves.
pub struct Client {
    pub base_url: String,
    pub currencies: Vec<(String, String)>,
}

impl Client {
    /// Validates the base URL and keeps the currency pairs: `Ok` exactly
    /// when the URL parses.
    pub fn new(url_str: &str, currencies: Vec<(String, String)>) -> (r: Result<
        Client,
        FeedProviderError,
    >)
        ensures
            url_is_valid(url_str@) ==> (r matches Ok(c) && c.base_url@ == url_str@ && c.currencies@
                == currencies@),
            !url_is_valid(url_str@) ==> (r matches Err(e) && e matches
                FeedProviderError::InvalidProviderURL(u) && u@ == url_str@),
    {
        if parse_url_ok(url_str) {
            Ok(Client { base_url: url_str.to_owned(), currencies })
        } else {
            Err(FeedProviderError::InvalidProviderURL(url_str.to_owned()))
        }
    }

    pub fn name(&self) -> (r: &'static str)
        ensures
            r@ == "Osmosis"@,
    {
        "Osmosis"
    }

    /// The price requests one round makes: the supported swap legs whose
    /// two tickers this client knows, each with its provider symbols, in
    /// the legs' order. The caller performs the requests and turns each
    /// answered ratio into a price.
    pub fn plan_spot_price_requests(&self, legs: &Vec<SwapLeg>) -> (r: Vec<PriceRequest>)
        ensures
            r@.map_values(
                |q: PriceRequest| (q.pool_id, q.from_ticker@, q.from_symbol@, q.to_ticker@, q.to_symbol@),
            ) == plan_spec(self.currencies@, legs@),
    {
        let n: usize = legs.len();
        let mut r: Vec<PriceRequest> = Vec::new();
        let mut i: usize = 0;
        proof {
            assert(legs@.take(0) =~= Seq::<SwapLeg>::empty());
            assert(r@.map_values(
                |q: PriceRequest| (q.pool_id, q.from_ticker@, q.from_symbol@, q.to_ticker@, q.to_symbol@),
            ) =~= plan_spec(self.currencies@, legs@.take(0)));
        }
        while i < n
            invariant
                0 <= i <= n,
                n == legs@.len(),
                r@.map_values(
                    |q: PriceRequest| (q.pool_id, q.from_ticker@, q.from_symbol@, q.to_ticker@, q.to_symbol@),
                ) == plan_spec(self.currencies@, legs@.take(i as int)),
            decreases n - i,
        {
            proof {
                assert(legs@.take(i as int + 1).drop_last() =~= legs@.take(i as int));
                assert(legs@.take(i as int + 1).last() == legs@[i as int]);
            }
            let from_symbol: Option<String> = lookup(&self.currencies, &legs[i].from);
            let to_symbol: Option<String> = lookup(&self.currencies, &legs[i].to.target);
            match (from_symbol, to_symbol) {
                (Option::Some(fs), Option::Some(ts)) => {
                    let q = PriceRequest {
                        pool_id: legs[i].to.pool_id,
                        from_ticker: legs[i].from.clone(),
                        from_symbol: fs,
                        to_ticker: legs[i].to.target.clone(),
                        to_symbol: ts,
                    };
                    r.push(q);
                    proof {
                        assert(r@.map_values(
                            |q: PriceRequest| (q.pool_id, q.from_ticker@, q.from_symbol@, q.to_ticker@, q.to_symbol@),
                        ) =~= plan_spec(self.currencies@, legs@.take(i as int + 1)));
                    }
                },
                _ => {
                    proof {
                        assert(r@.map_values(
                            |q: PriceRequest| (q.pool_id, q.from_ticker@, q.from_symbol@, q.to_ticker@, q.to_symbol@),
                        ) =~= plan_spec(self.currencies@, legs@.take(i as int + 1)));
                    }
                },
            }
            i = i + 1;
        }
        proof {
            assert(legs@.take(n as int) =~= legs@);
        }
        r
    }
}

} // verus!
