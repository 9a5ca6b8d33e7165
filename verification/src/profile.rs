//! The client's profiles as its profile database stores them: the private
//! key, the name, and the proofs of work for the profile's identity.
use crate::buf::{buf_limit, buf_to_vec, bytes_from_vec, bytes_mut_view, new_buf};
use crate::protocol::{
    lemma_consumed_trans, lemma_rt_bytes, lemma_rt_string, lemma_rt_word256_list, read_bytes, read_string,
    read_word256_list, spec_read_bytes, spec_read_list, spec_read_string, spec_read_word256, spec_write_bytes,
    spec_write_list, spec_write_string, spec_write_word256, wf_bytes, wf_string, write_bytes, write_string,
    write_word256_list, ProtocolError, SpecRead, Word256,
};
use crate::auth::{spec_uuid_from_pub_key, uuid_from_pub_key};
use crate::protocol::UserUuid;
use openssl::hash::MessageDigest;
use openssl::pkey::PKey;
use openssl::rsa::Rsa;
use openssl::sign::Signer;
use vstd::prelude::*;

verus! {

/// The size in bits of the RSA keys that profiles are made with.
pub const PRIVATE_KEY_LEN_BITS: u32 = 4096;

/// The number of bits of the modulus of a DER-encoded RSA private key, as
/// `PKey::bits` reports it once `Rsa::private_key_from_der` has read the
/// key; `None` where the bytes are not such a key.
pub uninterp spec fn spec_rsa_bits(priv_key: Seq<u8>) -> Option<nat>;

/// The PKCS#1 v1.5 signature with SHA-256 that openssl's `Signer` makes of
/// `data` with a DER-encoded RSA private key; `None` where the bytes are not
/// such a key or signing fails. These signatures are deterministic.
pub uninterp spec fn spec_rsa_sha256_sign(priv_key: Seq<u8>, data: Seq<u8>) -> Option<Seq<u8>>;

/// `Rsa::generate`, then the key DER-encoded by `PKey::private_key_to_der`:
/// a new random RSA key of `bits` bits, or `None` where generation or
/// encoding fails. The key is random; what is claimed of every key returned
/// is that its modulus has `bits` bits and that openssl reads it back and
/// derives its public key.
#[verifier::external_body]
pub(crate) fn generate_rsa_key(bits: u32) -> (r: Option<Vec<u8>>)
    ensures
        r matches Some(k) ==> spec_rsa_bits(k@) == Some(bits as nat) && spec_pub_key_der(k@) is Some,
{
    let rsa = Rsa::generate(bits).ok()?;
    let key = PKey::from_rsa(rsa).ok()?;
    key.private_key_to_der().ok()
}

/// `Rsa::private_key_from_der`, `PKey::from_rsa`, then
/// `Signer::new(MessageDigest::sha256(), ..)` and `sign_oneshot_to_vec`: the
/// signature of `data`, or `None` where a step fails. The contract claims
/// only that the result is the one `spec_rsa_sha256_sign` names.
#[verifier::external_body]
pub(crate) fn rsa_sha256_sign(priv_key: &[u8], data: &[u8]) -> (r: Option<Vec<u8>>)
    ensures
        r is None <==> spec_rsa_sha256_sign(priv_key@, data@) is None,
        r matches Some(v) ==> spec_rsa_sha256_sign(priv_key@, data@) == Some(v@),
{
    let rsa = Rsa::private_key_from_der(priv_key).ok()?;
    let key = PKey::from_rsa(rsa).ok()?;
    let mut signer = Signer::new(MessageDigest::sha256(), &key).ok()?;
    signer.sign_oneshot_to_vec(data).ok()
}

/// The DER-encoded public key that belongs to a DER-encoded private key, as
/// openssl derives it; `None` where the bytes are not a private key openssl
/// reads or the public key cannot be encoded.
pub uninterp spec fn spec_pub_key_der(priv_key: Seq<u8>) -> Option<Seq<u8>>;

/// `PKey::private_key_from_der` followed by `public_key_to_der`: the public
/// key of a DER-encoded private key, or `None` where either step fails. The
/// contract claims only that the result is the one `spec_pub_key_der`
/// names for these bytes.
#[verifier::external_body]
fn openssl_pub_key_der(priv_key: &[u8]) -> (r: Option<Vec<u8>>)
    ensures
        r matches Some(v) ==> spec_pub_key_der(priv_key@) == Some(v@),
        r is None <==> spec_pub_key_der(priv_key@) is None,
{
    match PKey::private_key_from_der(priv_key) {
        Ok(key) => key.public_key_to_der().ok(),
        Err(_) => None,
    }
}

/// The identity of the user who holds a DER-encoded private key: the SHA-256
/// identity of its public key; `None` where no public key is derived.
pub fn profile_uuid(priv_key: &[u8]) -> (r: Option<UserUuid>)
    ensures
        match spec_pub_key_der(priv_key@) {
            Some(pk) => r matches Some(u) && u.value() == spec_uuid_from_pub_key(pk),
            None => r is None,
        },
{
    match openssl_pub_key_der(priv_key) {
        Some(pk) => Some(UserUuid::from_u256(uuid_from_pub_key(pk.as_slice()))),
        None => None,
    }
}

broadcast use crate::endian::group_le_bytes;

/// A profile as stored.
pub struct DbProfile {
    /// The profile's private key, DER-encoded.
    pub priv_key: Vec<u8>,
    pub name: String,
    pub security_proofs: Vec<Word256>,
}

/// What a `DbProfile` holds, as plain values.
pub struct DbProfileView {
    pub priv_key: Seq<u8>,
    pub name: Seq<char>,
    pub security_proofs: Seq<Word256>,
}

impl View for DbProfile {
    type V = DbProfileView;

    open spec fn view(&self) -> DbProfileView {
        DbProfileView { priv_key: self.priv_key@, name: self.name@, security_proofs: self.security_proofs@ }
    }
}

impl DbProfile {
    /// The profile's public key, DER-encoded; `None` where the stored private
    /// key is not one openssl reads.
    pub fn pub_key(&self) -> (r: Option<Vec<u8>>)
        ensures
            match spec_pub_key_der(self.priv_key@) {
                Some(pk) => r matches Some(v) && v@ == pk,
                None => r is None,
            },
    {
        openssl_pub_key_der(self.priv_key.as_slice())
    }

    /// Signs `data` with the profile's private key, so that the server can
    /// tell that it comes from the holder of the key.
    pub fn sign_data(&self, data: &[u8]) -> (r: Option<Vec<u8>>)
        ensures
            r is None <==> spec_rsa_sha256_sign(self.priv_key@, data@) is None,
            r matches Some(v) ==> spec_rsa_sha256_sign(self.priv_key@, data@) == Some(v@),
    {
        rsa_sha256_sign(self.priv_key.as_slice(), data)
    }

    /// The identity of the profile's user, as the server derives it from the
    /// public key the profile authenticates with.
    pub fn uuid(&self) -> (r: Option<UserUuid>)
        ensures
            match spec_pub_key_der(self.priv_key@) {
                Some(pk) => r matches Some(u) && u.value() == spec_uuid_from_pub_key(pk),
                None => r is None,
            },
    {
        profile_uuid(self.priv_key.as_slice())
    }

    /// How a stored profile is read: the key, the name, the proofs.
    #[verifier::opaque]
    pub open spec fn spec_read(s: Seq<u8>) -> SpecRead<DbProfileView> {
        match spec_read_bytes(s) {
            Ok((priv_key, r1)) => match spec_read_string(r1) {
                Ok((name, r2)) => match spec_read_list(r2, |s: Seq<u8>| spec_read_word256(s)) {
                    Ok((security_proofs, r3)) => Ok((DbProfileView { priv_key, name, security_proofs }, r3)),
                    Err(e) => Err(e),
                },
                Err(e) => Err(e),
            },
            Err(e) => Err(e),
        }
    }

    /// The bytes a profile is stored as: the key, the name, the proofs.
    #[verifier::opaque]
    pub open spec fn spec_write(v: DbProfileView) -> Seq<u8> {
        spec_write_bytes(v.priv_key) + spec_write_string(v.name) + spec_write_list(
            v.security_proofs,
            |x: Word256| spec_write_word256(x),
        )
    }

    /// The profiles that read back unchanged from what they are stored as.
    pub open spec fn wf(v: DbProfileView) -> bool {
        wf_bytes(v.priv_key) && wf_string(v.name) && v.security_proofs.len() <= u64::MAX
    }

    /// The bytes the profile is stored as.
    pub fn to_bytes(self) -> (r: Vec<u8>)
        requires
            Self::spec_write(self@).len() <= buf_limit(),
        ensures
            r@ == Self::spec_write(self@),
    {
        proof {
            reveal(DbProfile::spec_write);
        }
        let mut buf = new_buf();
        write_bytes(self.priv_key.as_slice(), &mut buf);
        write_string(self.name.as_str(), &mut buf);
        write_word256_list(self.security_proofs.as_slice(), &mut buf);
        proof {
            assert(bytes_mut_view(buf) =~= Self::spec_write(self@));
        }
        buf_to_vec(&buf)
    }

    /// Reads a stored profile.
    pub fn from_bytes(bytes: Vec<u8>) -> (r: Result<Self, ProtocolError>)
        ensures
            match Self::spec_read(bytes@) {
                Ok((v, _)) => r matches Ok(p) && p@ == v,
                Err(e) => r == Err::<Self, ProtocolError>(e),
            },
    {
        broadcast use lemma_consumed_trans;

        proof {
            reveal(DbProfile::spec_read);
        }
        let mut buf = bytes_from_vec(bytes);
        let priv_key = read_bytes(&mut buf)?;
        let name = read_string(&mut buf)?;
        let security_proofs = read_word256_list(&mut buf)?;
        Ok(DbProfile { priv_key, name, security_proofs })
    }

    /// Reading what a well-formed profile is stored as gives it back, and the
    /// bytes after it.
    pub proof fn lemma_roundtrip(v: DbProfileView, rest: Seq<u8>)
        requires
            Self::wf(v),
        ensures
            Self::spec_read(Self::spec_write(v) + rest) == Ok::<(DbProfileView, Seq<u8>), ProtocolError>((v, rest)),
    {
        reveal(DbProfile::spec_read);
        reveal(DbProfile::spec_write);
        let t3 = rest;
        let t2 = spec_write_list(v.security_proofs, |x: Word256| spec_write_word256(x)) + t3;
        let t1 = spec_write_string(v.name) + t2;
        let t0 = spec_write_bytes(v.priv_key) + t1;
        assert(Self::spec_write(v) + rest =~= t0);
        lemma_rt_bytes(v.priv_key, t1);
        lemma_rt_string(v.name, t2);
        lemma_rt_word256_list(v.security_proofs, t3);
    }
}

/// A profile stored and read back is the same profile.
pub proof fn lemma_db_profile_roundtrip(v: DbProfileView)
    requires
        DbProfile::wf(v),
    ensures
        DbProfile::spec_read(DbProfile::spec_write(v)) matches Ok((p, _)) && p == v,
{
    DbProfile::lemma_roundtrip(v, Seq::empty());
    assert(DbProfile::spec_write(v) + Seq::<u8>::empty() =~= DbProfile::spec_write(v));
}

} // verus!
