//! The client's profiles as its profile list keeps them: a name for the
//! client, an alias that servers see, the private key and the proofs of
//! work for the profile's identity.
use crate::auth::spec_uuid_from_pub_key;
use crate::profile::{
    generate_rsa_key, profile_uuid, rsa_sha256_sign, spec_pub_key_der, spec_rsa_bits, spec_rsa_sha256_sign,
    PRIVATE_KEY_LEN_BITS,
};
use crate::protocol::Word256;
use crate::security_level::{generate_proofs, spec_verified_security_level, DEFAULT_SECURITY_LEVEL};
use vstd::prelude::*;

verus! {

/// A profile of the client.
pub struct DbProfile {
    /// The name the client knows the profile by.
    pub name: String,
    /// The name servers see.
    pub alias: String,
    /// The profile's RSA private key, DER-encoded.
    pub priv_key: Vec<u8>,
    /// The proof of work for the profile's identity, one token per level.
    pub security_proofs: Vec<Word256>,
}

/// The low halves of the tokens of a proof, which the server checks.
pub open spec fn proof_tokens(proofs: Seq<Word256>) -> Seq<u128> {
    proofs.map_values(|w: Word256| w.low)
}

impl DbProfile {
    /// A new profile: a fresh RSA key of `PRIVATE_KEY_LEN_BITS` bits and a
    /// proof of work of `DEFAULT_SECURITY_LEVEL` for the identity of that
    /// key, as the server checks it (on the low halves of the identity and of
    /// the tokens). `None` where openssl fails to make the key or a token of
    /// the proof is not found.
    pub fn new(name: String, alias: String) -> (r: Option<DbProfile>)
        ensures
            r matches Some(p) ==> {
                &&& p.name@ == name@
                &&& p.alias@ == alias@
                &&& spec_rsa_bits(p.priv_key@) == Some(PRIVATE_KEY_LEN_BITS as nat)
                &&& spec_pub_key_der(p.priv_key@) matches Some(pk) && spec_verified_security_level(
                    spec_uuid_from_pub_key(pk).low,
                    proof_tokens(p.security_proofs@),
                ) == Some(DEFAULT_SECURITY_LEVEL)
                &&& forall|i: int| 0 <= i < p.security_proofs@.len() ==> (#[trigger] p.security_proofs@[i]).high == 0
            },
    {
        let priv_key = match generate_rsa_key(PRIVATE_KEY_LEN_BITS) {
            Some(k) => k,
            None => return None,
        };
        let uuid = match profile_uuid(priv_key.as_slice()) {
            Some(u) => u,
            None => return None,
        };
        let tokens = match generate_proofs(uuid.into_u256().low, DEFAULT_SECURITY_LEVEL) {
            Some(t) => t,
            None => return None,
        };
        let mut security_proofs: Vec<Word256> = Vec::new();
        let mut i: usize = 0;
        while i < tokens.len()
            invariant
                i <= tokens@.len(),
                security_proofs@.len() == i,
                forall|j: int| 0 <= j < i ==> (#[trigger] security_proofs@[j]) == (Word256 { low: tokens@[j], high: 0 }),
            decreases tokens.len() - i,
        {
            security_proofs.push(Word256 { low: tokens[i], high: 0 });
            i = i + 1;
        }
        proof {
            assert(proof_tokens(security_proofs@) =~= tokens@);
        }
        Some(DbProfile { name, alias, priv_key, security_proofs })
    }

    /// Signs `data` with the profile's private key, with SHA-256.
    pub fn sign_data(&self, data: &[u8]) -> (r: Option<Vec<u8>>)
        ensures
            r is None <==> spec_rsa_sha256_sign(self.priv_key@, data@) is None,
            r matches Some(v) ==> spec_rsa_sha256_sign(self.priv_key@, data@) == Some(v@),
    {
        rsa_sha256_sign(self.priv_key.as_slice(), data)
    }

    /// The identity of the profile's user, as the server derives it from the
    /// profile's public key.
    pub fn uuid(&self) -> (r: Option<crate::protocol::UserUuid>)
        ensures
            match spec_pub_key_der(self.priv_key@) {
                Some(pk) => r matches Some(u) && u.value() == spec_uuid_from_pub_key(pk),
                None => r is None,
            },
    {
        profile_uuid(self.priv_key.as_slice())
    }
}

} // verus!
