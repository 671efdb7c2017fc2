//! Script-pubkey derivation from output descriptors.
//!
//! Descriptors are opaque expressions of the standard output-descriptor
//! language; the library consults the descriptor library for the one
//! thing it needs: the script pubkey a descriptor derives at an index.

use vstd::prelude::*;
use std::str::FromStr;
use miniscript::ForEachKey;
use miniscript::descriptor::Wildcard;

verus! {

/// The script pubkey an output descriptor derives at a derivation index,
/// named but never written out: the result is a function of the
/// descriptor text and the index alone.
pub uninterp spec fn spk_of(desc: Seq<char>, index: u32) -> Seq<u8>;

/// Whether the descriptor text parses and derives at the index along an
/// unhardened path, named but never written out: like the script pubkey
/// itself, success is a function of the descriptor text and the index
/// alone.
pub uninterp spec fn derivable(desc: Seq<char>, index: u32) -> bool;

/// Relies on miniscript's `Descriptor::from_str`,
/// `Descriptor::at_derivation_index` and `Descriptor::script_pubkey`:
/// parsing and derivation are deterministic in the descriptor text and
/// the index, and yield the descriptor's script pubkey at that index.
/// The body itself screens out keys with a hardened derivation step or
/// a hardened wildcard before deriving — a watch-only wallet cannot
/// derive hardened children from public keys, and miniscript's
/// `at_derivation_index` panics on them rather than erring — so success
/// means exactly: well-formed, and derivable along an unhardened path.
#[verifier::external_body]
pub fn derive_script_pubkey(desc: &str, index: u32) -> (r: Option<Vec<u8>>)
    ensures
        r is Some <==> derivable(desc@, index),
        r matches Some(v) ==> v@ == spk_of(desc@, index),
{
    let parsed = miniscript::Descriptor::<miniscript::DescriptorPublicKey>::from_str(desc).ok()?;
    let hardened = parsed.for_any_key(|k| k.has_hardened_step() || match k {
        miniscript::DescriptorPublicKey::XPub(x) => x.wildcard == Wildcard::Hardened,
        miniscript::DescriptorPublicKey::MultiXPub(x) => x.wildcard == Wildcard::Hardened,
        miniscript::DescriptorPublicKey::Single(_) => false,
    });
    if hardened {
        return None;
    }
    Some(parsed.at_derivation_index(index).ok()?.script_pubkey().to_bytes())
}

/// The address string encoding a script pubkey, named but never written
/// out: for the fixed network the encoding is a function of the script
/// bytes alone.
pub uninterp spec fn addr_of(spk: Seq<u8>) -> Seq<char>;

/// Whether a script pubkey has an address encoding at all, named but
/// never written out: bare scripts (such as a plain public-key script)
/// have none; the distinction is a function of the script bytes alone.
pub uninterp spec fn addr_encodable(spk: Seq<u8>) -> bool;

/// Relies on bitcoin's `Address::from_script` (through miniscript's
/// re-export): for the fixed network, a deterministic encoding of the
/// script bytes, defined exactly for the script shapes that carry an
/// address and erring on bare scripts; it inspects but never panics on
/// arbitrary bytes.
#[verifier::external_body]
pub fn address_encoding(spk: &Vec<u8>) -> (r: Option<String>)
    ensures
        r is Some <==> addr_encodable(spk@),
        r matches Some(v) ==> v@ == addr_of(spk@),
{
    let script = miniscript::bitcoin::Script::from_bytes(spk.as_slice());
    miniscript::bitcoin::Address::from_script(script, miniscript::bitcoin::Network::Bitcoin)
        .ok()
        .map(|a| a.to_string())
}

} // verus!
