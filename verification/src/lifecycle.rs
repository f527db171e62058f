use vstd::prelude::*;
use crate::error::WalletError;
use crate::owned_wallet::SessionView;
use crate::owned_wallet::TipOwnedWallet;
use crate::secret::Secret;
use crate::secret::secret_is_weak;
use crate::tip_context::TipContext;
use crate::tip_context::same_config;
use crate::utils::spec_parse_sompi;

verus! {

// Each wallet command splits into verified decisions (here) and the outside
// work they direct. The host performs the outside work — storage existence
// checks, wallet construction, decryption, broadcasting — and hands the
// outcome back as a plain value; every check-and-register step in between is
// proved. The registry holds the one mutable shared resource, so the host
// serializes calls that take it by `&mut` (typically
// with a single reader/writer lock) and keeps all suspending work outside
// those calls.

/// What the status query reports: whether a session is registered for the
/// identifier (`is_opened`) and whether wallet material exists at all
/// (`is_initiated`), given the storage backend's existence answer.
pub open spec fn status_spec(ctx: TipContext, identifier: Seq<char>, storage_initiated: bool) -> (
    bool,
    bool,
) {
    let opened = ctx.sessions().contains_key(identifier);
    (opened, opened || storage_initiated)
}

/// Status: a pure query that never mutates state. `storage_initiated` is the
/// storage backend's answer to "does persisted material exist for this
/// identifier"; it is consulted only when no session is open, since an open
/// session implies initiation.
pub fn status(ctx: &TipContext, identifier: &String, storage_initiated: bool) -> (r: (bool, bool))
    ensures
        r == status_spec(*ctx, identifier@, storage_initiated),
{
    let is_opened = ctx.does_open_wallet_exists(identifier);
    let is_initiated = if is_opened {
        true
    } else {
        storage_initiated
    };
    (is_opened, is_initiated)
}

/// Create, first half: decide whether a fresh wallet may be created. Rejects
/// a weak secret before anything else is touched, and refuses to create over
/// an existing wallet, whether a session is open or only persisted material
/// exists. Only after an `Ok` does the host ask the wallet library to
/// generate key material.
pub fn create_precheck(
    ctx: &TipContext,
    identifier: &String,
    secret: &Secret,
    storage_initiated: bool,
) -> (r: Result<(), WalletError>)
    ensures
        (r == if secret_is_weak(secret@) {
            Err::<(), WalletError>(WalletError::WeakSecret)
        } else if ctx.sessions().contains_key(identifier@) || storage_initiated {
            Err::<(), WalletError>(WalletError::AlreadyInitiated)
        } else {
            Ok::<(), WalletError>(())
        }),
{
    if secret.is_weak() {
        Err(WalletError::WeakSecret)
    } else if ctx.does_open_wallet_exists(identifier) || storage_initiated {
        Err(WalletError::AlreadyInitiated)
    } else {
        Ok(())
    }
}

/// Create, second half: after the wallet library generated the wallet and
/// the storage backend persisted it, register the handle — but only if the
/// identifier is still free, closing the race window between the existence
/// check and the insert. On success the recovery phrase is passed through to
/// the caller exactly once: the registry keeps no copy of it. On conflict
/// the registry is untouched and the freshly built handle comes back in the
/// error so the host can shut it down (the rollback of the reservation).
pub fn create_register(ctx: &mut TipContext, wallet: TipOwnedWallet, mnemonic_phrase: String) -> (r:
    Result<(TipOwnedWallet, String), TipOwnedWallet>)
    requires
        old(ctx).wf(),
    ensures
        final(ctx).wf(),
        same_config(*old(ctx), *final(ctx)),
        match r {
            Ok(handed) => !old(ctx).sessions().contains_key(wallet@.identifier) && final(ctx).sessions() == old(ctx).sessions().insert(wallet@.identifier, wallet@) && handed.0
                == wallet && handed.1 == mnemonic_phrase,
            Err(rejected) => old(ctx).sessions().contains_key(wallet@.identifier) && *final(ctx)
                == *old(ctx) && rejected == wallet,
        },
{
    match ctx.add_opened_wallet_if_absent(wallet) {
        Ok(inserted) => Ok((inserted, mnemonic_phrase)),
        Err(rejected) => Err(rejected),
    }
}

/// Open, first half: decide whether an open attempt may proceed. A weak
/// secret is rejected outright; an already-open session is a no-op success
/// that hands back the existing handle without touching the wallet library.
/// `Ok(None)` tells the host to load and decrypt the persisted material.
pub fn open_precheck(ctx: &TipContext, identifier: &String, secret: &Secret) -> (r: Result<
    Option<TipOwnedWallet>,
    WalletError,
>)
    requires
        ctx.wf(),
    ensures
        match r {
            Err(e) => e == WalletError::WeakSecret && secret_is_weak(secret@),
            Ok(Some(wallet)) => !secret_is_weak(secret@) && ctx.sessions().contains_key(
                identifier@,
            ) && wallet@ == ctx.sessions()[identifier@],
            Ok(None) => !secret_is_weak(secret@) && !ctx.sessions().contains_key(identifier@),
        },
{
    if secret.is_weak() {
        Err(WalletError::WeakSecret)
    } else {
        Ok(ctx.get_open_wallet_arc(identifier))
    }
}

/// What came back from the wallet library's attempt to open the persisted
/// material with the supplied secret.
pub enum WalletOpenOutcome {
    /// The material decrypted and the session is live; the handle is ready
    /// to register.
    Opened(TipOwnedWallet),
    /// The material exists but the secret does not decrypt it.
    WrongSecret,
    /// The storage backend holds nothing for this identifier.
    NoWalletFound,
    /// Any other wallet or storage failure.
    Failed,
}

/// Open, second half: translate the wallet library's outcome. A wrong secret
/// becomes the dedicated `DecryptionFailed` rejection — the caller must
/// report "wrong secret", never a raw internal error — and in every failure
/// the registry is left exactly as it was: no partial session is ever
/// registered. A decrypted wallet is registered only if the identifier is
/// still free: if a session appeared since the precheck, the registered one
/// wins and is handed back as the no-op success, and the freshly decrypted
/// handle comes back beside it so the host can shut it down — a concurrent
/// open never silently orphans a wallet or displaces a live session.
pub fn open_register(ctx: &mut TipContext, identifier: &String, outcome: WalletOpenOutcome) -> (r:
    Result<(TipOwnedWallet, Option<TipOwnedWallet>), WalletError>)
    requires
        old(ctx).wf(),
        (match outcome {
            WalletOpenOutcome::Opened(wallet) => wallet@.identifier == identifier@,
            _ => true,
        }),
    ensures
        final(ctx).wf(),
        same_config(*old(ctx), *final(ctx)),
        match outcome {
            WalletOpenOutcome::Opened(wallet) => if !old(ctx).sessions().contains_key(identifier@) {
                final(ctx).sessions() == old(ctx).sessions().insert(identifier@, wallet@) && r
                    == Ok::<(TipOwnedWallet, Option<TipOwnedWallet>), WalletError>(
                    (wallet, None::<TipOwnedWallet>),
                )
            } else {
                *final(ctx) == *old(ctx) && match r {
                    Ok(handed) => handed.0@ == old(ctx).sessions()[identifier@] && handed.1
                        == Some(wallet),
                    Err(_) => false,
                }
            },
            WalletOpenOutcome::WrongSecret => r == Err::<
                (TipOwnedWallet, Option<TipOwnedWallet>),
                WalletError,
            >(WalletError::DecryptionFailed) && *final(ctx) == *old(ctx),
            WalletOpenOutcome::NoWalletFound => r == Err::<
                (TipOwnedWallet, Option<TipOwnedWallet>),
                WalletError,
            >(WalletError::NotInitiated) && *final(ctx) == *old(ctx),
            WalletOpenOutcome::Failed => r == Err::<
                (TipOwnedWallet, Option<TipOwnedWallet>),
                WalletError,
            >(WalletError::WalletUnavailable) && *final(ctx) == *old(ctx),
        },
{
    match outcome {
        WalletOpenOutcome::Opened(wallet) => {
            match ctx.add_opened_wallet_if_absent(wallet) {
                Ok(registered) => Ok((registered, None)),
                Err(fresh) => {
                    match ctx.get_open_wallet_arc(identifier) {
                        Some(existing) => Ok((existing, Some(fresh))),
                        None => Err(WalletError::WalletUnavailable),
                    }
                },
            }
        },
        WalletOpenOutcome::WrongSecret => Err(WalletError::DecryptionFailed),
        WalletOpenOutcome::NoWalletFound => Err(WalletError::NotInitiated),
        WalletOpenOutcome::Failed => Err(WalletError::WalletUnavailable),
    }
}

/// Close: remove the session from the registry first — ending its visibility
/// to new commands — and hand the removed handle back so the host can ask
/// the underlying wallet to shut down outside the registry's critical
/// section. Idempotent and total: closing an identifier with no session
/// returns `None` and is a harmless no-op, never an error.
pub fn close(ctx: &mut TipContext, identifier: &String) -> (r: Option<TipOwnedWallet>)
    requires
        old(ctx).wf(),
    ensures
        final(ctx).wf(),
        same_config(*old(ctx), *final(ctx)),
        final(ctx).sessions() == old(ctx).sessions().remove(identifier@),
        !final(ctx).sessions().contains_key(identifier@),
        match r {
            Some(wallet) => old(ctx).sessions().contains_key(identifier@) && wallet@ == old(ctx).sessions()[identifier@],
            None => !old(ctx).sessions().contains_key(identifier@),
        },
{
    ctx.remove_opened_wallet(identifier)
}

/// Destroy: requires an explicit, separately confirmed intent. With the
/// exact confirmation word the session is deregistered (the removed handle
/// comes back for shutdown) and the host must then erase the persisted
/// material from the storage backend: destruction here hard-deletes, so a
/// later create finds the identifier uninitiated again. With anything else
/// the registry and storage are left untouched and the caller reports the
/// abortion. Destroying an identifier with neither session nor storage is
/// refused as `NotInitiated`.
pub fn destroy(
    ctx: &mut TipContext,
    identifier: &String,
    storage_initiated: bool,
    confirmation: &String,
) -> (r: Result<Option<TipOwnedWallet>, WalletError>)
    requires
        old(ctx).wf(),
    ensures
        final(ctx).wf(),
        same_config(*old(ctx), *final(ctx)),
        match r {
            Err(e) => *final(ctx) == *old(ctx) && ((e == WalletError::NotInitiated && !old(ctx).sessions().contains_key(identifier@) && !storage_initiated) || (e
                == WalletError::AbortedByUser && (old(ctx).sessions().contains_key(identifier@)
                || storage_initiated) && confirmation@ != "destroy"@)),
            Ok(removed) => (old(ctx).sessions().contains_key(identifier@) || storage_initiated)
                && confirmation@ == "destroy"@ && final(ctx).sessions() == old(ctx).sessions().remove(identifier@) && match removed {
                Some(wallet) => old(ctx).sessions().contains_key(identifier@) && wallet@ == old(ctx).sessions()[identifier@],
                None => !old(ctx).sessions().contains_key(identifier@),
            },
        },
{
    let is_opened = ctx.does_open_wallet_exists(identifier);
    let is_initiated = is_opened || storage_initiated;
    if !is_initiated {
        return Err(WalletError::NotInitiated);
    }
    let required = "destroy".to_owned();
    if !(*confirmation == required) {
        return Err(WalletError::AbortedByUser);
    }
    Ok(ctx.remove_opened_wallet(identifier))
}

/// Restore, first half: decide whether a restore may proceed. The secret
/// must not be weak; the recovery phrase must have been accepted by the
/// wallet library's parser — `mnemonic_ok` is that verdict, which only the
/// wallet library can give (phrase grammar and checksum are its domain) —
/// and no session may currently be open for the identifier. Restore is
/// valid from any non-open state: it may overwrite persisted material, but
/// it never displaces a live session, which must be closed first; that
/// rejection is reported as `WalletAlreadyOpen`.
pub fn restore_precheck(
    ctx: &TipContext,
    identifier: &String,
    secret: &Secret,
    mnemonic_ok: bool,
) -> (r: Result<(), WalletError>)
    ensures
        (r == if secret_is_weak(secret@) {
            Err::<(), WalletError>(WalletError::WeakSecret)
        } else if !mnemonic_ok {
            Err::<(), WalletError>(WalletError::InvalidMnemonic)
        } else if ctx.sessions().contains_key(identifier@) {
            Err::<(), WalletError>(WalletError::WalletAlreadyOpen)
        } else {
            Ok::<(), WalletError>(())
        }),
{
    if secret.is_weak() {
        Err(WalletError::WeakSecret)
    } else if !mnemonic_ok {
        Err(WalletError::InvalidMnemonic)
    } else if ctx.does_open_wallet_exists(identifier) {
        Err(WalletError::WalletAlreadyOpen)
    } else {
        Ok(())
    }
}

/// Restore, second half: register the restored session — but only while no
/// session is open for the identifier, since a restore never displaces a
/// live one. On conflict (a session appeared since the precheck) the
/// registry is untouched and the freshly restored handle comes back in the
/// error, so the host can shut it down and report the `WalletAlreadyOpen`
/// rejection.
pub fn restore_register(ctx: &mut TipContext, wallet: TipOwnedWallet) -> (r: Result<
    TipOwnedWallet,
    TipOwnedWallet,
>)
    requires
        old(ctx).wf(),
    ensures
        final(ctx).wf(),
        same_config(*old(ctx), *final(ctx)),
        match r {
            Ok(registered) => !old(ctx).sessions().contains_key(wallet@.identifier)
                && final(ctx).sessions() == old(ctx).sessions().insert(wallet@.identifier, wallet@)
                && registered == wallet,
            Err(rejected) => old(ctx).sessions().contains_key(wallet@.identifier) && *final(ctx)
                == *old(ctx) && rejected == wallet,
        },
{
    ctx.add_opened_wallet_if_absent(wallet)
}

/// Everything the host needs to carry out an approved Send: the session
/// handle whose wallet signs and broadcasts, the destination address the
/// payment outputs are built for (opaque here; the wallet library parses and
/// validates it), and the parsed amount in sompi. The host passes the
/// secret, a cancellation token and a progress callback through to the
/// wallet library; cancellation is a best-effort stop-further-work signal,
/// not a rollback of anything already broadcast.
pub struct SendPlan {
    pub wallet: TipOwnedWallet,
    pub destination: String,
    pub amount_sompi: u64,
}

/// Send, first half: decide whether a payment may be attempted. The wallet
/// must be initiated and open, and the amount must parse to a positive,
/// non-zero count of sompi; only then does the host reach the wallet
/// library. Nothing is mutated: a failed send leaves every session as it
/// was.
pub fn send_precheck(
    ctx: &TipContext,
    identifier: &String,
    storage_initiated: bool,
    destination: &String,
    amount: &String,
) -> (r: Result<SendPlan, WalletError>)
    requires
        ctx.wf(),
    ensures
        match r {
            Err(e) => (e == WalletError::NotInitiated && !ctx.sessions().contains_key(identifier@)
                && !storage_initiated) || (e == WalletError::WalletNotOpen && !ctx.sessions(
            ).contains_key(identifier@) && storage_initiated) || (e == WalletError::InvalidAmount
                && ctx.sessions().contains_key(identifier@) && (match spec_parse_sompi(amount@) {
                Some(v) => v == 0 || v > u64::MAX,
                None => true,
            })),
            Ok(plan) => ctx.sessions().contains_key(identifier@) && plan.wallet@
                == ctx.sessions()[identifier@] && plan.destination@ == destination@
                && spec_parse_sompi(amount@) == Some(plan.amount_sompi as int)
                && plan.amount_sompi > 0,
        },
{
    let is_opened = ctx.does_open_wallet_exists(identifier);
    let is_initiated = is_opened || storage_initiated;
    if !is_initiated {
        return Err(WalletError::NotInitiated);
    }
    if !is_opened {
        return Err(WalletError::WalletNotOpen);
    }
    let wallet = match ctx.get_open_wallet_arc(identifier) {
        Some(wallet) => wallet,
        None => {
            return Err(WalletError::WalletNotOpen);
        },
    };
    let amount_sompi = match crate::utils::try_parse_required_nonzero_spectre_as_sompi_u64(
        Some(amount.clone()),
    ) {
        Ok(amount_sompi) => amount_sompi,
        Err(e) => {
            return Err(e);
        },
    };
    Ok(SendPlan { wallet, destination: destination.clone(), amount_sompi })
}

/// What came back from the wallet library's signing-and-broadcast call: the
/// progress callback may have fired any number of times along the way, but
/// the registry sees only the final outcome.
pub enum TransactionOutcome {
    /// The transaction was accepted: a human-readable summary and the
    /// resulting transaction identifiers.
    Accepted(String, Vec<String>),
    /// Construction, signing or broadcast failed (or was cancelled before
    /// any broadcast).
    Failed,
}

/// Send, second half: translate the wallet library's outcome, propagating a
/// failure as the dedicated transaction error. Session state is never
/// touched by a send.
pub fn send_finish(outcome: TransactionOutcome) -> (r: Result<(String, Vec<String>), WalletError>)
    ensures
        match outcome {
            TransactionOutcome::Accepted(summary, ids) => r == Ok::<
                (String, Vec<String>),
                WalletError,
            >((summary, ids)),
            TransactionOutcome::Failed => r == Err::<(String, Vec<String>), WalletError>(
                WalletError::TransactionError,
            ),
        },
{
    match outcome {
        TransactionOutcome::Accepted(summary, ids) => Ok((summary, ids)),
        TransactionOutcome::Failed => Err(WalletError::TransactionError),
    }
}

/// Law (idempotent close): closing twice in a row ends in the same state as
/// closing once, and the second close finds nothing to remove — so, by
/// `close`'s postcondition on its result, it returns `None` and no error.
/// The premises are exactly what `close` ensures about each call.
pub proof fn lemma_close_idempotent(
    initial: TipContext,
    after_first: TipContext,
    after_second: TipContext,
    identifier: Seq<char>,
)
    requires
        after_first.sessions() == initial.sessions().remove(identifier),
        after_second.sessions() == after_first.sessions().remove(identifier),
    ensures
        after_second.sessions() == after_first.sessions(),
        !after_first.sessions().contains_key(identifier),
{
    assert(after_second.sessions() =~= after_first.sessions());
}

/// Law (create, then status): once a successful create has registered the
/// session — the success postcondition of `create_register` — the status
/// query reports the wallet both opened and initiated, whatever the storage
/// backend answers.
pub proof fn lemma_create_then_status(
    before: TipContext,
    after: TipContext,
    identifier: Seq<char>,
    wallet: SessionView,
    storage_initiated: bool,
)
    requires
        wallet.identifier == identifier,
        after.sessions() == before.sessions().insert(identifier, wallet),
    ensures
        status_spec(after, identifier, storage_initiated) == (true, true),
{
}

} // verus!
