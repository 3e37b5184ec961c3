//! Content identity: a 32-byte blake3 address over a schema value's
//! canonical bytes. Two hash domains exist, the whole schema and a
//! family's declaration closure, each derived under its own blake3
//! `derive_key` context so the two kinds never share an input.
use vstd::prelude::*;
use crate::text::push_char;

verus! {

/// What `blake3::derive_key` returns for a context string and key
/// material.
pub uninterp spec fn blake3_derive_key(context: Seq<char>, key_material: Seq<u8>) -> Seq<u8>;

/// `blake3::derive_key`: the 32-byte key derived from `key_material`
/// under the context string `context`. Its result is named, not stated.
#[verifier::external_body]
fn derive_key(context: &str, key_material: &[u8]) -> (r: [u8; 32])
    ensures
        r@ == blake3_derive_key(context@, key_material@),
{
    blake3::derive_key(context, key_material)
}

/// The hash domains content identity is derived under.
#[derive(Clone, Copy, Debug, Eq, PartialEq, Structural)]
pub enum HashDomain {
    Schema,
    FamilyClosure,
}

pub open spec fn domain_context(domain: HashDomain) -> Seq<char> {
    match domain {
        HashDomain::Schema => "schema-next 2026-06-12 whole-schema content identity"@,
        HashDomain::FamilyClosure => "schema-next 2026-06-12 family-closure content identity"@,
    }
}

impl HashDomain {
    /// The blake3 `derive_key` context string of the domain.
    pub fn context(self) -> (r: &'static str)
        ensures
            r@ == domain_context(self),
    {
        match self {
            HashDomain::Schema => "schema-next 2026-06-12 whole-schema content identity",
            HashDomain::FamilyClosure => "schema-next 2026-06-12 family-closure content identity",
        }
    }
}

/// A 32-byte blake3 content address.
#[derive(Clone, Copy, Debug, Eq, Hash, Ord, PartialEq, PartialOrd)]
pub struct ContentHash([u8; 32]);

/// The lowercase hex digit of `d < 16`.
pub open spec fn hex_digit(d: nat) -> char {
    if d < 10 {
        ((48 + d) as u8) as char
    } else {
        ((87 + d) as u8) as char
    }
}

/// Two lowercase hex digits per byte, most significant first.
pub open spec fn hex_spec(bytes: Seq<u8>) -> Seq<char> {
    Seq::new(
        2 * bytes.len(),
        |i: int|
            if i % 2 == 0 {
                hex_digit((bytes[i / 2] / 16) as nat)
            } else {
                hex_digit((bytes[i / 2] % 16) as nat)
            },
    )
}

/// Hex digits are distinct for distinct values.
proof fn lemma_hex_digit_injective(a: nat, b: nat)
    requires
        a < 16,
        b < 16,
        hex_digit(a) == hex_digit(b),
    ensures
        a == b,
{
    let x = if a < 10 { (48 + a) as u8 } else { (87 + a) as u8 };
    let y = if b < 10 { (48 + b) as u8 } else { (87 + b) as u8 };
    assert(hex_digit(a) == x as char);
    assert(hex_digit(b) == y as char);
    assert((x as char) as u32 == x as u32);
    assert((y as char) as u32 == y as u32);
}

/// The hex text of an address determines its bytes.
pub proof fn lemma_hex_injective(a: Seq<u8>, b: Seq<u8>)
    requires
        hex_spec(a) == hex_spec(b),
    ensures
        a == b,
{
    assert(hex_spec(a).len() == 2 * a.len());
    assert(hex_spec(b).len() == 2 * b.len());
    assert(a.len() == b.len());
    assert forall|k: int| 0 <= k < a.len() implies a[k] == b[k] by {
        assert((2 * k) % 2 == 0 && (2 * k) / 2 == k);
        assert((2 * k + 1) % 2 == 1 && (2 * k + 1) / 2 == k);
        assert(hex_spec(a)[2 * k] == hex_spec(b)[2 * k]);
        assert(hex_spec(a)[2 * k + 1] == hex_spec(b)[2 * k + 1]);
        assert(hex_spec(a)[2 * k] == hex_digit((a[k] / 16) as nat));
        assert(hex_spec(b)[2 * k] == hex_digit((b[k] / 16) as nat));
        assert(hex_spec(a)[2 * k + 1] == hex_digit((a[k] % 16) as nat));
        assert(hex_spec(b)[2 * k + 1] == hex_digit((b[k] % 16) as nat));
        lemma_hex_digit_injective((a[k] / 16) as nat, (b[k] / 16) as nat);
        lemma_hex_digit_injective((a[k] % 16) as nat, (b[k] % 16) as nat);
        assert(a[k] == 16 * (a[k] / 16) + a[k] % 16);
        assert(b[k] == 16 * (b[k] / 16) + b[k] % 16);
    }
    assert(a =~= b);
}

fn hex_digit_of(d: u8) -> (r: char)
    requires
        d < 16,
    ensures
        r == hex_digit(d as nat),
{
    if d < 10 {
        (48 + d) as char
    } else {
        (87 + d) as char
    }
}

impl ContentHash {
    pub closed spec fn bytes(&self) -> Seq<u8> {
        self.0@
    }

    /// The address of `bytes` in a domain: blake3 `derive_key` under the
    /// domain's context.
    pub fn derive(domain: HashDomain, bytes: &[u8]) -> (r: Self)
        ensures
            r.bytes() == blake3_derive_key(domain_context(domain), bytes@),
    {
        ContentHash(derive_key(domain.context(), bytes))
    }

    /// The whole-schema address of a schema value's canonical bytes.
    pub fn for_schema_bytes(bytes: &[u8]) -> (r: Self)
        ensures
            r.bytes() == blake3_derive_key(domain_context(HashDomain::Schema), bytes@),
    {
        Self::derive(HashDomain::Schema, bytes)
    }

    /// The family address of a family closure's canonical bytes.
    pub fn for_family_closure_bytes(bytes: &[u8]) -> (r: Self)
        ensures
            r.bytes() == blake3_derive_key(domain_context(HashDomain::FamilyClosure), bytes@),
    {
        Self::derive(HashDomain::FamilyClosure, bytes)
    }

    pub fn as_bytes(&self) -> (r: &[u8; 32])
        ensures
            r@ == self.bytes(),
    {
        &self.0
    }

    /// The address as 64 lowercase hex digits.
    pub fn to_hex(&self) -> (r: String)
        ensures
            r@ == hex_spec(self.bytes()),
    {
        let mut out = String::new();
        let mut i: usize = 0;
        while i < 32
            invariant
                0 <= i <= 32,
                self.0@.len() == 32,
                out@ == hex_spec(self.0@.take(i as int)),
            decreases 32 - i,
        {
            let byte = self.0[i];
            let ghost before = out@;
            push_char(&mut out, hex_digit_of(byte / 16));
            push_char(&mut out, hex_digit_of(byte % 16));
            proof {
                let t = self.0@.take(i as int + 1);
                assert(out@ =~= hex_spec(t)) by {
                    assert forall|k: int| 0 <= k < 2 * i implies hex_spec(t)[k] == before[k] by {
                        assert(t[k / 2] == self.0@.take(i as int)[k / 2]);
                    }
                    assert(hex_spec(t)[2 * i as int] == hex_digit((byte / 16) as nat));
                    assert(hex_spec(t)[2 * i + 1] == hex_digit((byte % 16) as nat));
                }
            }
            i = i + 1;
        }
        assert(self.0@.take(32) =~= self.0@);
        out
    }
}

/// The two hash domains derive under different contexts.
pub proof fn lemma_domains_are_separated()
    ensures
        domain_context(HashDomain::Schema) != domain_context(HashDomain::FamilyClosure),
{
    reveal_strlit("schema-next 2026-06-12 whole-schema content identity");
    reveal_strlit("schema-next 2026-06-12 family-closure content identity");
    assert(domain_context(HashDomain::Schema)[23] != domain_context(HashDomain::FamilyClosure)[23]);
}

} // verus!
