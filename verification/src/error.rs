use vstd::prelude::*;

verus! {

/// Errors surfaced by the session registry and the lifecycle operations.
///
/// The variants fall into four groups:
/// - validation errors, detected before the wallet library is touched:
///   `WeakSecret`, `InvalidAmount`, `InvalidMnemonic`, `AbortedByUser`;
/// - state errors, detected by consulting registry or storage state:
///   `AlreadyInitiated`, `NotInitiated`, `WalletNotOpen`, `WalletAlreadyOpen`;
/// - a security error the host must report as a wrong secret rather than as a
///   generic failure: `DecryptionFailed`;
/// - opaque infrastructure failures propagated from the collaborators:
///   `WalletUnavailable`, `TransactionError`.
///
/// No variant carries data: any diagnostic text stays with the host, so that
/// secret material can never ride along in an error value.
#[derive(Clone, Copy, Debug, PartialEq, Eq, Structural)]
pub enum WalletError {
    /// The supplied secret is shorter than the required minimum length.
    WeakSecret,
    /// A wallet already exists (open session or persisted material) for the
    /// identifier, so a fresh create is refused.
    AlreadyInitiated,
    /// Nothing exists for the identifier: no open session and no persisted
    /// material.
    NotInitiated,
    /// The operation needs an open session and none is registered.
    WalletNotOpen,
    /// The operation is valid only while no session is open for the
    /// identifier, and one is: a restore never displaces a live session,
    /// which must be closed first.
    WalletAlreadyOpen,
    /// The wallet library could not decrypt the persisted material with the
    /// supplied secret.
    DecryptionFailed,
    /// The recovery phrase did not parse or failed its checksum.
    InvalidMnemonic,
    /// The amount did not parse as a positive, non-zero count of subunits.
    InvalidAmount,
    /// The destruction confirmation phrase was not the exact required word.
    AbortedByUser,
    /// The wallet library or the storage backend failed for a reason other
    /// than a wrong secret or a missing wallet.
    WalletUnavailable,
    /// The wallet library failed to build, sign or broadcast the transaction.
    TransactionError,
}

} // verus!
