use vstd::prelude::*;

verus! {

/// The mathematical value of a session handle: who owns it, the cached
/// receive address the wallet library derived for it, and which wallet
/// object of the host it refers to.
#[verifier::ext_equal]
pub struct SessionView {
    pub identifier: Seq<char>,
    pub receive_address: Seq<char>,
    pub wallet_ref: int,
}

/// A session handle: the binding of one user identifier to one live wallet.
///
/// The underlying wallet object (key material, background synchronization,
/// network activity) is owned by the host and named here by `wallet_ref`, an
/// opaque ticket the host issued when it constructed the wallet. The handle
/// also caches the receive address so that queries need no wallet call.
/// Handles are cheap to clone: the registry and any in-flight command may
/// each hold one for the same underlying wallet.
pub struct TipOwnedWallet {
    identifier: String,
    receive_address: String,
    wallet_ref: u64,
}

impl View for TipOwnedWallet {
    type V = SessionView;

    closed spec fn view(&self) -> SessionView {
        SessionView {
            identifier: self.identifier@,
            receive_address: self.receive_address@,
            wallet_ref: self.wallet_ref as int,
        }
    }
}

impl TipOwnedWallet {
    /// Bind an identifier to a wallet object the host has constructed, with
    /// the receive address the wallet library derived.
    pub fn new(identifier: String, receive_address: String, wallet_ref: u64) -> (r: Self)
        ensures
            r@.identifier == identifier@,
            r@.receive_address == receive_address@,
            r@.wallet_ref == wallet_ref as int,
    {
        TipOwnedWallet { identifier, receive_address, wallet_ref }
    }

    /// The owning user identifier, immutable for the handle's lifetime.
    pub fn identifier(&self) -> (r: &String)
        ensures
            r@ == self@.identifier,
    {
        &self.identifier
    }

    /// The cached receive address.
    pub fn receive_address(&self) -> (r: &String)
        ensures
            r@ == self@.receive_address,
    {
        &self.receive_address
    }

    /// The host's ticket for the underlying wallet object; the host uses it
    /// to reach the wallet library on this handle's behalf.
    pub fn wallet(&self) -> (r: u64)
        ensures
            r as int == self@.wallet_ref,
    {
        self.wallet_ref
    }
}

impl Clone for TipOwnedWallet {
    /// A clone names the same underlying wallet and carries the same cached
    /// data.
    fn clone(&self) -> (r: Self)
        ensures
            r@ == self@,
    {
        TipOwnedWallet {
            identifier: self.identifier.clone(),
            receive_address: self.receive_address.clone(),
            wallet_ref: self.wallet_ref,
        }
    }
}

} // verus!
