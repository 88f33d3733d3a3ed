//! Identities of devices and peers.
use vstd::prelude::*;
use vstd::string::*;

use crate::error;
use crate::error::{Error, ErrorView, Outcome, Result};
use crate::order;
use crate::order::{copy_bytes, rank_bytes, same_bytes, Duplicate, Key, Rank};
use crate::outside;

verus! {

/// The identity of a peer.
#[derive(Debug, PartialEq, Eq)]
pub struct PeerId {
    bytes: Vec<u8>,
}

impl PeerId {
    #[verifier::type_invariant]
    closed spec fn has_text(&self) -> bool {
        outside::is_peer(self.bytes@)
    }

    /// The peer that a text names.
    pub fn parse(text: &str) -> (r: Option<PeerId>)
        ensures
            match r {
                Some(peer) => outside::peer_of_text(text@) == Some(peer@),
                None => outside::peer_of_text(text@) is None,
            },
    {
        match outside::parse_peer(text) {
            Some(bytes) => Some(PeerId { bytes }),
            None => None,
        }
    }

    /// The peer that a network address leads to.
    pub fn of_address(address: &str) -> (r: Option<Option<PeerId>>)
        ensures
            match r {
                None => outside::target_of_address(address@) is None,
                Some(None) => outside::target_of_address(address@) == Some(None::<Seq<u8>>),
                Some(Some(peer)) => outside::target_of_address(address@) == Some(Some(peer@)),
            },
    {
        match outside::parse_address(address) {
            None => None,
            Some(None) => Some(None),
            Some(Some(bytes)) => Some(Some(PeerId { bytes })),
        }
    }

    /// The peer with the given public key.
    pub fn of_key(key: &[u8]) -> (r: Option<PeerId>)
        ensures
            match r {
                Some(peer) => outside::peer_of_key(key@) == Some(peer@),
                None => outside::peer_of_key(key@) is None,
            },
    {
        match outside::key_peer(key) {
            Some(bytes) => Some(PeerId { bytes }),
            None => None,
        }
    }

    /// The text form, which names the same peer.
    pub fn text(&self) -> (r: String)
        ensures
            outside::text_of_peer(self@) == Some(r@),
            outside::peer_of_text(r@) == Some(self@),
    {
        proof {
            use_type_invariant(self);
        }
        outside::format_peer(self.bytes.as_slice()).unwrap()
    }

    /// The bytes of the identity.
    pub fn to_bytes(&self) -> (r: Vec<u8>)
        ensures
            r@ == self@,
    {
        copy_bytes(&self.bytes)
    }

    /// Whether two identities are the same.
    pub fn same(&self, other: &PeerId) -> (r: bool)
        ensures
            r == (self@ == other@),
    {
        same_bytes(self.bytes.as_slice(), other.bytes.as_slice())
    }
}

impl DeepView for PeerId {
    type V = Seq<u8>;

    closed spec fn deep_view(&self) -> Seq<u8> {
        self.bytes@
    }
}

impl View for PeerId {
    type V = Seq<u8>;

    open spec fn view(&self) -> Seq<u8> {
        self.deep_view()
    }
}

impl Duplicate for PeerId {
    fn duplicate(&self) -> (r: Self) {
        proof {
            use_type_invariant(self);
        }
        PeerId { bytes: copy_bytes(&self.bytes) }
    }
}

impl Clone for PeerId {
    fn clone(&self) -> (r: Self)
        ensures
            r@ == self@,
    {
        self.duplicate()
    }
}

impl Key for PeerId {
    type Probe = PeerId;

    open spec fn before(a: Seq<u8>, b: Seq<u8>) -> bool {
        order::bytes_before(a, b)
    }

    proof fn irreflexive(a: Seq<u8>) {
        order::lemma_bytes_before_irreflexive(a);
    }

    proof fn transitive(a: Seq<u8>, b: Seq<u8>, c: Seq<u8>) {
        order::lemma_bytes_before_transitive(a, b, c);
    }

    proof fn total(a: Seq<u8>, b: Seq<u8>) {
        order::lemma_bytes_before_total(a, b);
    }

    fn rank(&self, probe: &PeerId) -> (r: Rank) {
        rank_bytes(self.bytes.as_slice(), probe.bytes.as_slice())
    }

    fn probe(&self) -> (r: &PeerId) {
        self
    }
}

/// The identity of a device: a private key. It is never printed or sent.
pub struct Identity {
    secret: Vec<u8>,
}

/// The peer that a private key makes.
pub open spec fn peer_of_secret(secret: Seq<u8>) -> Seq<u8> {
    outside::peer_of_key(outside::public_key(secret))->0
}

/// The key that a stored secret holds, or why it holds none.
pub open spec fn restored(bytes: Seq<u8>) -> Outcome<Seq<u8>> {
    match outside::parsed_secret(bytes) {
        Ok(secret) => Ok(secret),
        Err(text) => Err(ErrorView::Identity(text)),
    }
}

/// The key that a secret of bounded size holds, or why it is not taken.
pub open spec fn imported(bytes: Seq<u8>) -> Outcome<Seq<u8>> {
    if bytes.len() == 0 || bytes.len() > 4096 {
        Err(ErrorView::Identity("invalid key size"@))
    } else {
        restored(bytes)
    }
}

/// Why a key file is not read: it is no small regular file, or others may read it.
pub open spec fn key_file_fault(regular: bool, len: u64, mode: Option<u32>) -> Option<ErrorView> {
    if !regular || len > 4096 {
        Some(ErrorView::Identity("expected a small regular key file"@))
    } else if mode matches Some(bits) && bits & 0o077 != 0 {
        Some(ErrorView::Identity("key file must be private (chmod 600)"@))
    } else {
        None
    }
}

impl View for Identity {
    type V = Seq<u8>;

    closed spec fn view(&self) -> Seq<u8> {
        self.secret@
    }
}

impl Identity {
    #[verifier::type_invariant]
    closed spec fn is_key(&self) -> bool {
        outside::is_secret(self.secret@) && self.secret@.len() == 68
    }

    /// A new identity.
    pub fn generate() -> (r: Self)
        ensures
            imported(r@) == Outcome::<Seq<u8>>::Ok(r@),
    {
        Identity { secret: outside::generate_secret() }
    }

    /// The peer that the identity makes.
    pub fn peer_id(&self) -> (r: PeerId)
        ensures
            r@ == peer_of_secret(self@),
    {
        let key = self.public_key();
        PeerId::of_key(key.as_slice()).unwrap()
    }

    /// The encoded public key.
    pub fn public_key(&self) -> (r: Vec<u8>)
        ensures
            r@ == outside::public_key(self@),
            outside::peer_of_key(r@) is Some,
    {
        proof {
            use_type_invariant(self);
        }
        outside::public_of(self.secret.as_slice())
    }

    /// The signature of a message.
    pub(crate) fn sign(&self, message: &[u8]) -> (r: std::result::Result<Vec<u8>, String>)
        ensures
            r is Ok,
            r->Ok_0@ == outside::signature(self@, message@),
            outside::is_signature(outside::public_key(self@), message@, r->Ok_0@),
    {
        proof {
            use_type_invariant(self);
        }
        outside::sign(self.secret.as_slice(), message)
    }

    /// The secret, for encrypted storage. The caller protects and erases it.
    pub fn export_secret(&self) -> (r: Result<Vec<u8>>)
        ensures
            r is Ok,
            r->Ok_0@ == self@,
            imported(r->Ok_0@) == Outcome::<Seq<u8>>::Ok(self@),
    {
        proof {
            use_type_invariant(self);
        }
        Ok(copy_bytes(&self.secret))
    }

    /// The identity of a secret of bounded size. A secret that was erased is none.
    pub fn import_secret(bytes: &[u8]) -> (r: Result<Self>)
        ensures
            bytes@.len() > 0 && bytes@[0] == 0 ==> r is Err && r->Err_0 is Identity,
            match imported(bytes@) {
                Ok(secret) => r is Ok && r->Ok_0@ == secret,
                Err(e) => r is Err && r->Err_0@ == e,
            },
    {
        if bytes.len() == 0 || bytes.len() > 4096 {
            return Err(Error::Identity("invalid key size".to_owned()));
        }
        Self::restore(bytes)
    }

    /// The identity of a stored secret. A corrupt one is never replaced.
    pub fn restore(bytes: &[u8]) -> (r: Result<Self>)
        ensures
            bytes@.len() > 0 && bytes@[0] == 0 ==> r is Err && r->Err_0 is Identity,
            match restored(bytes@) {
                Ok(secret) => r is Ok && r->Ok_0@ == secret,
                Err(e) => r is Err && r->Err_0@ == e,
            },
    {
        match outside::parse_secret(bytes) {
            Ok(secret) => Ok(Identity { secret }),
            Err(text) => Err(Error::Identity(text)),
        }
    }

    /// Accepts a key file by what is known of it before it is read.
    pub fn check_key_file(regular: bool, len: u64, mode: Option<u32>) -> (r: Result<()>)
        ensures
            match key_file_fault(regular, len, mode) {
                Some(e) => r is Err && r->Err_0@ == e,
                None => r is Ok,
            },
    {
        if !regular || len > 4096 {
            return Err(Error::Identity("expected a small regular key file".to_owned()));
        }
        match mode {
            Some(bits) => if bits & 0o077 != 0 {
                Err(Error::Identity("key file must be private (chmod 600)".to_owned()))
            } else {
                Ok(())
            },
            None => Ok(()),
        }
    }
}

impl Clone for Identity {
    fn clone(&self) -> (r: Self)
        ensures
            r@ == self@,
    {
        proof {
            use_type_invariant(self);
        }
        Identity { secret: copy_bytes(&self.secret) }
    }
}

} // verus!
