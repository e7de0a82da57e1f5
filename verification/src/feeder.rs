//! The price feeder's configuration, immutable after load.
//!
//! Provider entries carry free-form extra settings as TOML values; the
//! dispatcher never looks inside them, it only hands them on. Maps are
//! held as ordered key-value pairs.

use vstd::prelude::*;


verus! {

/// A free-form TOML value carried through provider configuration.
/// Relied on as an opaque value of the `toml` crate; nothing here reads
/// inside it.
#[verifier::external_type_specification]
#[verifier::external_body]
pub struct ExTomlValue(toml::Value);

/// A node's connection endpoints.
pub struct Node {
    pub json_rpc_url: String,
    pub grpc_url: String,
    pub chain_id: String,
}

/// One price provider: its name and its free-form extra settings.
pub struct Provider {
    pub name: String,
    pub misc: Vec<(String, toml::Value)>,
}

impl Provider {
    pub fn name(&self) -> (r: &str)
        ensures
            r@ == self.name@,
    {
        self.name.as_str()
    }

    pub fn misc(&self) -> (r: &Vec<(String, toml::Value)>)
        ensures
            r == &self.misc,
    {
        &self.misc
    }
}

/// A provider compared against another, within a deviation bound.
pub struct ComparisonProviderIdAndMaxDeviation {
    pub provider_id: String,
    pub max_deviation_exclusive: u64,
}

pub struct ProviderWithComparison {
    pub comparison: Option<ComparisonProviderIdAndMaxDeviation>,
    pub provider: Provider,
}

pub struct ComparisonProvider {
    pub provider: Provider,
}

/// The feeder's whole configuration.
pub struct Config {
    pub tick_time: u64,
    pub providers: Vec<(String, ProviderWithComparison)>,
    pub comparison_providers: Vec<(String, ComparisonProvider)>,
    pub oracle_addr: String,
    pub gas_limit: u64,
    pub node: Node,
}

impl Config {
    pub fn tick_time(&self) -> (r: u64)
        ensures
            r == self.tick_time,
    {
        self.tick_time
    }

    pub fn providers(&self) -> (r: &Vec<(String, ProviderWithComparison)>)
        ensures
            r == &self.providers,
    {
        &self.providers
    }

    pub fn comparison_providers(&self) -> (r: &Vec<(String, ComparisonProvider)>)
        ensures
            r == &self.comparison_providers,
    {
        &self.comparison_providers
    }

    pub fn oracle_addr(&self) -> (r: &str)
        ensures
            r@ == self.oracle_addr@,
    {
        self.oracle_addr.as_str()
    }

    pub fn gas_limit(&self) -> (r: u64)
        ensures
            r == self.gas_limit,
    {
        self.gas_limit
    }

    pub fn node(&self) -> (r: &Node)
        ensures
            r == &self.node,
    {
        &self.node
    }
}

/// ASCII upper-casing of one byte; anything but `a`..`z` is unchanged.
pub open spec fn ascii_upper(c: u8) -> u8 {
    if 97 <= c <= 122 {
        (c - 32) as u8
    } else {
        c
    }
}

pub open spec fn upper_bytes(s: Seq<u8>) -> Seq<u8> {
    Seq::new(s.len(), |i: int| ascii_upper(s[i]))
}

/// `PROVIDER_` as bytes.
pub open spec fn provider_env_prefix() -> Seq<u8> {
    seq![
        'P' as u8,
        'R' as u8,
        'O' as u8,
        'V' as u8,
        'I' as u8,
        'D' as u8,
        'E' as u8,
        'R' as u8,
        '_' as u8,
    ]
}

/// `COMPARISON_` as bytes.
pub open spec fn comparison_env_prefix() -> Seq<u8> {
    seq![
        'C' as u8,
        'O' as u8,
        'M' as u8,
        'P' as u8,
        'A' as u8,
        'R' as u8,
        'I' as u8,
        'S' as u8,
        'O' as u8,
        'N' as u8,
        '_' as u8,
    ]
}

/// `PROVIDER_{ID}_{FIELD}`, upper-cased: where a provider's setting is
/// looked up in the environment.
pub open spec fn provider_env_var_spec(id: Seq<u8>, field: Seq<u8>) -> Seq<u8> {
    provider_env_prefix() + upper_bytes(id) + seq!['_' as u8] + upper_bytes(field)
}

/// `COMPARISON_PROVIDER_{ID}_{FIELD}`, upper-cased: the comparison
/// provider's variant.
pub open spec fn comparison_env_var_spec(id: Seq<u8>, field: Seq<u8>) -> Seq<u8> {
    comparison_env_prefix() + provider_env_var_spec(id, field)
}

fn push_upper(v: &mut Vec<u8>, s: &[u8])
    ensures
        final(v)@ == old(v)@ + upper_bytes(s@),
{
    let n: usize = s.len();
    let mut i: usize = 0;
    while i < n
        invariant
            0 <= i <= n,
            n == s@.len(),
            v@ == old(v)@ + upper_bytes(s@).take(i as int),
        decreases n - i,
    {
        let c: u8 = s[i];
        if c >= 97 && c <= 122 {
            v.push(c - 32);
        } else {
            v.push(c);
        }
        i = i + 1;
        proof {
            assert(v@ =~= old(v)@ + upper_bytes(s@).take(i as int));
        }
    }
    proof {
        assert(upper_bytes(s@).take(n as int) =~= upper_bytes(s@));
    }
}

/// The environment variable a provider's setting is read from.
pub fn provider_env_var_name(id: &[u8], field: &[u8]) -> (r: Vec<u8>)
    ensures
        r@ == provider_env_var_spec(id@, field@),
{
    let mut v: Vec<u8> = Vec::new();
    v.push('P' as u8);
    v.push('R' as u8);
    v.push('O' as u8);
    v.push('V' as u8);
    v.push('I' as u8);
    v.push('D' as u8);
    v.push('E' as u8);
    v.push('R' as u8);
    v.push('_' as u8);
    proof {
        assert(v@ =~= provider_env_prefix());
    }
    push_upper(&mut v, id);
    v.push('_' as u8);
    push_upper(&mut v, field);
    proof {
        assert(v@ =~= provider_env_var_spec(id@, field@));
    }
    v
}

/// The environment variable a comparison provider's setting is read from.
pub fn comparison_env_var_name(id: &[u8], field: &[u8]) -> (r: Vec<u8>)
    ensures
        r@ == comparison_env_var_spec(id@, field@),
{
    let mut v: Vec<u8> = Vec::new();
    v.push('C' as u8);
    v.push('O' as u8);
    v.push('M' as u8);
    v.push('P' as u8);
    v.push('A' as u8);
    v.push('R' as u8);
    v.push('I' as u8);
    v.push('S' as u8);
    v.push('O' as u8);
    v.push('N' as u8);
    v.push('_' as u8);
    proof {
        assert(v@ =~= comparison_env_prefix());
    }
    let rest: Vec<u8> = provider_env_var_name(id, field);
    let n: usize = rest.len();
    let mut i: usize = 0;
    while i < n
        invariant
            0 <= i <= n,
            n == rest@.len(),
            v@ == comparison_env_prefix() + rest@.take(i as int),
        decreases n - i,
    {
        let c: u8 = rest[i];
        v.push(c);
        i = i + 1;
        proof {
            assert(v@ =~= comparison_env_prefix() + rest@.take(i as int));
        }
    }
    proof {
        assert(rest@.take(n as int) =~= rest@);
    }
    v
}

} // verus!
