// These tests play the host: they simulate the wallet library and the
// storage backend with plain values and drive the verified decision
// functions through whole command scenarios.

use tip_core::error::WalletError;
use tip_core::lifecycle::close;
use tip_core::lifecycle::create_precheck;
use tip_core::lifecycle::create_register;
use tip_core::lifecycle::destroy;
use tip_core::lifecycle::open_precheck;
use tip_core::lifecycle::open_register;
use tip_core::lifecycle::restore_precheck;
use tip_core::lifecycle::restore_register;
use tip_core::lifecycle::send_finish;
use tip_core::lifecycle::send_precheck;
use tip_core::lifecycle::status;
use tip_core::lifecycle::TransactionOutcome;
use tip_core::lifecycle::WalletOpenOutcome;
use tip_core::owned_wallet::TipOwnedWallet;
use tip_core::secret::Secret;
use tip_core::tip_context::NetworkId;
use tip_core::tip_context::TipContext;

fn fresh_context() -> TipContext {
    TipContext::new(
        Vec::new(),
        NetworkId::new("testnet-10".to_owned()),
        None,
        1,
    )
}

fn secret(s: &str) -> Secret {
    Secret::new(s.to_owned())
}

/// The simulated wallet library derives the receive address purely from the
/// recovery phrase, as the real one does from the key material the phrase
/// encodes.
fn derive_address(phrase: &str) -> String {
    format!("spectretest:{}", phrase.replace(' ', "-"))
}

/// Run a full successful create for `id`, returning the recovery phrase and
/// the receive address; afterwards the simulated storage is initiated.
fn create_wallet(ctx: &mut TipContext, id: &str, passphrase: &str) -> (String, String) {
    let id = id.to_owned();
    let s = secret(passphrase);
    assert_eq!(create_precheck(ctx, &id, &s, false), Ok(()));
    let phrase = "abandon ability able about above absent".to_owned();
    let address = derive_address(&phrase);
    let wallet = TipOwnedWallet::new(id.clone(), address.clone(), 7);
    match create_register(ctx, wallet, phrase.clone()) {
        Ok((handle, phrase_out)) => {
            assert_eq!(phrase_out, phrase);
            assert_eq!(handle.receive_address(), &address);
        }
        Err(_) => panic!("create was refused for a free identifier"),
    }
    (phrase, address)
}

#[test]
fn create_then_status_reports_opened_and_initiated() {
    let mut ctx = fresh_context();
    let id = "alice".to_owned();
    create_wallet(&mut ctx, &id, "correct-secret");
    let (is_opened, is_initiated) = status(&ctx, &id, true);
    assert!(is_opened);
    assert!(is_initiated);
}

#[test]
fn create_rejects_weak_secret() {
    let mut ctx = fresh_context();
    let id = "alice".to_owned();
    assert_eq!(
        create_precheck(&mut ctx, &id, &secret("short"), false),
        Err(WalletError::WeakSecret)
    );
}

#[test]
fn create_rejects_initiated_identifier() {
    let mut ctx = fresh_context();
    let id = "alice".to_owned();
    create_wallet(&mut ctx, &id, "correct-secret");
    // a session is open
    assert_eq!(
        create_precheck(&ctx, &id, &secret("other-secret-1"), true),
        Err(WalletError::AlreadyInitiated)
    );
    // no session, but persisted material exists
    close(&mut ctx, &id);
    assert_eq!(
        create_precheck(&ctx, &id, &secret("other-secret-1"), true),
        Err(WalletError::AlreadyInitiated)
    );
}

#[test]
fn at_most_one_session_per_identifier() {
    let mut ctx = fresh_context();
    let id = "alice".to_owned();
    create_wallet(&mut ctx, &id, "correct-secret");
    // a second create for the same identifier is turned away at registration,
    // and the registry still serves exactly the first wallet
    let second = TipOwnedWallet::new(id.clone(), "spectretest:second".to_owned(), 8);
    match create_register(&mut ctx, second, "other phrase".to_owned()) {
        Ok(_) => panic!("second create for the same identifier was accepted"),
        Err(rejected) => assert_eq!(rejected.receive_address().as_str(), "spectretest:second"),
    }
    let held = ctx.get_open_wallet_arc(&id).expect("session should be registered");
    assert_eq!(
        held.receive_address(),
        &derive_address("abandon ability able about above absent")
    );
}

#[test]
fn overwrite_keeps_one_session() {
    let mut ctx = fresh_context();
    let id = "alice".to_owned();
    let first = TipOwnedWallet::new(id.clone(), "spectretest:first".to_owned(), 1);
    let second = TipOwnedWallet::new(id.clone(), "spectretest:second".to_owned(), 2);
    ctx.add_opened_wallet(id.clone(), first);
    ctx.add_opened_wallet(id.clone(), second);
    let held = ctx.get_open_wallet_arc(&id).expect("session should be registered");
    assert_eq!(held.receive_address().as_str(), "spectretest:second");
    assert!(ctx.remove_opened_wallet(&id).is_some());
    assert!(ctx.get_open_wallet_arc(&id).is_none());
}

#[test]
fn close_twice_is_idempotent() {
    let mut ctx = fresh_context();
    let id = "alice".to_owned();
    create_wallet(&mut ctx, &id, "correct-secret");
    let first = close(&mut ctx, &id);
    assert!(first.is_some());
    let after_first = status(&ctx, &id, true);
    let second = close(&mut ctx, &id);
    assert!(second.is_none());
    let after_second = status(&ctx, &id, true);
    assert_eq!(after_first, after_second);
    assert!(!after_second.0);
}

#[test]
fn open_with_wrong_secret_fails_and_registers_nothing() {
    let mut ctx = fresh_context();
    let id = "alice".to_owned();
    create_wallet(&mut ctx, &id, "correct-secret");
    close(&mut ctx, &id);
    let supplied = secret("wrong-secret-2");
    match open_precheck(&ctx, &id, &supplied) {
        Ok(None) => {}
        _ => panic!("open should proceed to decryption"),
    }
    // the simulated wallet library compares the supplied passphrase with the
    // one the material was encrypted under, as the real decryption does
    let outcome = WalletOpenOutcome::WrongSecret;
    match open_register(&mut ctx, &id, outcome) {
        Err(e) => assert_eq!(e, WalletError::DecryptionFailed),
        Ok(_) => panic!("a wrong secret must not open the wallet"),
    }
    let (is_opened, is_initiated) = status(&ctx, &id, true);
    assert!(!is_opened);
    assert!(is_initiated);
}

#[test]
fn open_with_correct_secret_registers_the_session() {
    let mut ctx = fresh_context();
    let id = "alice".to_owned();
    let (_, address) = create_wallet(&mut ctx, &id, "correct-secret");
    close(&mut ctx, &id);
    match open_precheck(&ctx, &id, &secret("correct-secret")) {
        Ok(None) => {}
        _ => panic!("open should proceed to decryption"),
    }
    let reopened = TipOwnedWallet::new(id.clone(), address.clone(), 9);
    match open_register(&mut ctx, &id, WalletOpenOutcome::Opened(reopened)) {
        Ok((handle, orphaned)) => {
            assert_eq!(handle.receive_address(), &address);
            assert!(orphaned.is_none());
        }
        Err(_) => panic!("the correct secret must open the wallet"),
    }
    assert!(status(&ctx, &id, true).0);
}

#[test]
fn concurrent_open_keeps_the_registered_session() {
    let mut ctx = fresh_context();
    let id = "alice".to_owned();
    let (_, address) = create_wallet(&mut ctx, &id, "correct-secret");
    // a second decrypted wallet arrives for an identifier that is already
    // registered: the registered session wins and the fresh handle comes
    // back for shutdown
    let fresh = TipOwnedWallet::new(id.clone(), address.clone(), 21);
    match open_register(&mut ctx, &id, WalletOpenOutcome::Opened(fresh)) {
        Ok((handle, orphaned)) => {
            assert_eq!(handle.wallet(), 7);
            assert_eq!(orphaned.expect("the fresh handle must come back").wallet(), 21);
        }
        Err(_) => panic!("a raced open is a no-op success, not an error"),
    }
    let held = ctx.get_open_wallet_arc(&id).expect("session should be registered");
    assert_eq!(held.wallet(), 7);
}

#[test]
fn open_when_already_open_returns_existing_handle() {
    let mut ctx = fresh_context();
    let id = "alice".to_owned();
    let (_, address) = create_wallet(&mut ctx, &id, "correct-secret");
    match open_precheck(&ctx, &id, &secret("correct-secret")) {
        Ok(Some(handle)) => assert_eq!(handle.receive_address(), &address),
        _ => panic!("an open session should be handed back as a no-op success"),
    }
}

#[test]
fn open_without_storage_reports_not_initiated() {
    let mut ctx = fresh_context();
    let id = "alice".to_owned();
    match open_register(&mut ctx, &id, WalletOpenOutcome::NoWalletFound) {
        Err(e) => assert_eq!(e, WalletError::NotInitiated),
        Ok(_) => panic!("nothing should open without persisted material"),
    }
}

#[test]
fn open_infrastructure_failure_is_opaque() {
    let mut ctx = fresh_context();
    let id = "alice".to_owned();
    match open_register(&mut ctx, &id, WalletOpenOutcome::Failed) {
        Err(e) => assert_eq!(e, WalletError::WalletUnavailable),
        Ok(_) => panic!("a failed open must not register a session"),
    }
    assert!(!status(&ctx, &id, false).0);
}

#[test]
fn destroy_requires_exact_confirmation() {
    let mut ctx = fresh_context();
    let id = "alice".to_owned();
    create_wallet(&mut ctx, &id, "correct-secret");
    match destroy(&mut ctx, &id, true, &"DESTROY".to_owned()) {
        Err(e) => assert_eq!(e, WalletError::AbortedByUser),
        Ok(_) => panic!("a wrong confirmation must abort the destruction"),
    }
    // session and storage untouched
    let (is_opened, is_initiated) = status(&ctx, &id, true);
    assert!(is_opened);
    assert!(is_initiated);
}

#[test]
fn destroy_with_confirmation_removes_the_session() {
    let mut ctx = fresh_context();
    let id = "alice".to_owned();
    create_wallet(&mut ctx, &id, "correct-secret");
    match destroy(&mut ctx, &id, true, &"destroy".to_owned()) {
        Ok(removed) => assert!(removed.is_some()),
        Err(_) => panic!("a confirmed destroy of an initiated wallet must succeed"),
    }
    // the host now shuts the removed wallet down and erases the persisted
    // material; afterwards nothing is left
    let (is_opened, is_initiated) = status(&ctx, &id, false);
    assert!(!is_opened);
    assert!(!is_initiated);
}

#[test]
fn destroy_of_nothing_reports_not_initiated() {
    let mut ctx = fresh_context();
    let id = "alice".to_owned();
    match destroy(&mut ctx, &id, false, &"destroy".to_owned()) {
        Err(e) => assert_eq!(e, WalletError::NotInitiated),
        Ok(_) => panic!("there is nothing to destroy"),
    }
}

#[test]
fn restore_round_trip_reproduces_the_address() {
    let mut ctx = fresh_context();
    let id = "alice".to_owned();
    let (phrase, address) = create_wallet(&mut ctx, &id, "first-secret-1");
    match destroy(&mut ctx, &id, true, &"destroy".to_owned()) {
        Ok(_) => {}
        Err(_) => panic!("a confirmed destroy of an initiated wallet must succeed"),
    }
    // the host erased the storage; restore from the recovery phrase with a
    // new secret. The simulated wallet library accepts the phrase it issued
    // and derives the same key material, hence the same address.
    let phrase_parses = phrase == "abandon ability able about above absent";
    assert_eq!(
        restore_precheck(&ctx, &id, &secret("second-secret-2"), phrase_parses),
        Ok(())
    );
    let restored = TipOwnedWallet::new(id.clone(), derive_address(&phrase), 11);
    match restore_register(&mut ctx, restored) {
        Ok(handle) => assert_eq!(handle.receive_address(), &address),
        Err(_) => panic!("restore of a closed wallet must register the session"),
    }
}

#[test]
fn restore_rejects_invalid_mnemonic() {
    let ctx = fresh_context();
    assert_eq!(
        restore_precheck(&ctx, &"alice".to_owned(), &secret("second-secret-2"), false),
        Err(WalletError::InvalidMnemonic)
    );
}

#[test]
fn restore_rejects_weak_secret() {
    let ctx = fresh_context();
    assert_eq!(
        restore_precheck(&ctx, &"alice".to_owned(), &secret("short"), true),
        Err(WalletError::WeakSecret)
    );
}

#[test]
fn restore_while_open_is_rejected() {
    let mut ctx = fresh_context();
    let id = "alice".to_owned();
    let (phrase, address) = create_wallet(&mut ctx, &id, "first-secret-1");
    // restore is valid only while no session is open: the precheck refuses
    assert_eq!(
        restore_precheck(&ctx, &id, &secret("second-secret-2"), true),
        Err(WalletError::WalletAlreadyOpen)
    );
    // and the registration step refuses too, leaving the open session
    // untouched and handing the fresh handle back for shutdown
    let restored = TipOwnedWallet::new(id.clone(), derive_address(&phrase), 12);
    match restore_register(&mut ctx, restored) {
        Ok(_) => panic!("restore must not displace an open session"),
        Err(rejected) => assert_eq!(rejected.wallet(), 12),
    }
    let held = ctx.get_open_wallet_arc(&id).expect("the open session must survive");
    assert_eq!(held.wallet(), 7);
    assert_eq!(held.receive_address(), &address);
}

#[test]
fn send_from_open_wallet_builds_a_plan() {
    let mut ctx = fresh_context();
    let id = "alice".to_owned();
    let (_, address) = create_wallet(&mut ctx, &id, "correct-secret");
    let destination = "spectretest:recipient".to_owned();
    match send_precheck(&ctx, &id, true, &destination, &"1.5".to_owned()) {
        Ok(plan) => {
            assert_eq!(plan.amount_sompi, 150_000_000);
            assert_eq!(plan.wallet.receive_address(), &address);
            assert_eq!(plan.destination, destination);
        }
        Err(_) => panic!("an open wallet with a valid amount must get a plan"),
    }
}

#[test]
fn send_rejects_bad_amounts() {
    let mut ctx = fresh_context();
    let id = "alice".to_owned();
    create_wallet(&mut ctx, &id, "correct-secret");
    for bad in ["0", "-5", "abc"] {
        match send_precheck(&ctx, &id, true, &"spectretest:recipient".to_owned(), &bad.to_owned()) {
            Err(e) => assert_eq!(e, WalletError::InvalidAmount),
            Ok(_) => panic!("a bad amount must be rejected"),
        }
    }
}

#[test]
fn send_needs_an_open_wallet() {
    let mut ctx = fresh_context();
    let id = "alice".to_owned();
    match send_precheck(&ctx, &id, false, &"spectretest:recipient".to_owned(), &"1.5".to_owned()) {
        Err(e) => assert_eq!(e, WalletError::NotInitiated),
        Ok(_) => panic!("an uninitiated wallet cannot send"),
    }
    create_wallet(&mut ctx, &id, "correct-secret");
    close(&mut ctx, &id);
    match send_precheck(&ctx, &id, true, &"spectretest:recipient".to_owned(), &"1.5".to_owned()) {
        Err(e) => assert_eq!(e, WalletError::WalletNotOpen),
        Ok(_) => panic!("a closed wallet cannot send"),
    }
}

#[test]
fn send_outcome_is_translated() {
    let accepted = TransactionOutcome::Accepted(
        "sent 1.5 spectre".to_owned(),
        vec!["txid-1".to_owned(), "txid-2".to_owned()],
    );
    match send_finish(accepted) {
        Ok((summary, ids)) => {
            assert_eq!(summary, "sent 1.5 spectre");
            assert_eq!(ids, vec!["txid-1".to_owned(), "txid-2".to_owned()]);
        }
        Err(_) => panic!("an accepted transaction must be reported"),
    }
    match send_finish(TransactionOutcome::Failed) {
        Err(e) => assert_eq!(e, WalletError::TransactionError),
        Ok(_) => panic!("a failed transaction must be reported as such"),
    }
}
