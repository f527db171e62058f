use tip_core::owned_wallet::TipOwnedWallet;
use tip_core::secret::Secret;
use tip_core::secret::MIN_SECRET_LEN;
use tip_core::tip_context::NetworkId;
use tip_core::tip_context::TipContext;

fn sample_context() -> TipContext {
    TipContext::new(
        vec!["wss://seed.example".to_owned()],
        NetworkId::new("mainnet".to_owned()),
        Some("wss://node.example:17110".to_owned()),
        42,
    )
}

#[test]
fn configuration_is_exposed_read_only() {
    let ctx = sample_context();
    assert_eq!(ctx.network_id().name().as_str(), "mainnet");
    assert_eq!(ctx.forced_node_url(), Some("wss://node.example:17110".to_owned()));
    assert_eq!(ctx.resolver(), &vec!["wss://seed.example".to_owned()]);
    assert_eq!(ctx.rpc_api(), 42);
}

#[test]
fn configuration_survives_session_changes() {
    let mut ctx = sample_context();
    let id = "bob".to_owned();
    let wallet = TipOwnedWallet::new(id.clone(), "spectre:addr".to_owned(), 3);
    ctx.add_opened_wallet(id.clone(), wallet);
    ctx.remove_opened_wallet(&id);
    assert_eq!(ctx.network_id().name().as_str(), "mainnet");
    assert_eq!(ctx.forced_node_url(), Some("wss://node.example:17110".to_owned()));
    assert_eq!(ctx.rpc_api(), 42);
}

#[test]
fn empty_registry_has_no_sessions() {
    let ctx = sample_context();
    assert!(!ctx.does_open_wallet_exists(&"bob".to_owned()));
    assert!(ctx.get_open_wallet_arc(&"bob".to_owned()).is_none());
}

#[test]
fn sessions_do_not_cross_identifiers() {
    let mut ctx = sample_context();
    let alice = "alice".to_owned();
    let bob = "bob".to_owned();
    ctx.add_opened_wallet(
        alice.clone(),
        TipOwnedWallet::new(alice.clone(), "spectre:alice".to_owned(), 1),
    );
    ctx.add_opened_wallet(
        bob.clone(),
        TipOwnedWallet::new(bob.clone(), "spectre:bob".to_owned(), 2),
    );
    assert_eq!(
        ctx.get_open_wallet_arc(&alice).unwrap().receive_address().as_str(),
        "spectre:alice"
    );
    assert_eq!(
        ctx.get_open_wallet_arc(&bob).unwrap().receive_address().as_str(),
        "spectre:bob"
    );
    // removing one user's session leaves the other's in place
    ctx.remove_opened_wallet(&alice);
    assert!(ctx.get_open_wallet_arc(&alice).is_none());
    assert!(ctx.does_open_wallet_exists(&bob));
}

#[test]
fn insert_if_absent_reserves_the_identifier() {
    let mut ctx = sample_context();
    let id = "carol".to_owned();
    let first = TipOwnedWallet::new(id.clone(), "spectre:one".to_owned(), 1);
    assert!(ctx.add_opened_wallet_if_absent(first).is_ok());
    let second = TipOwnedWallet::new(id.clone(), "spectre:two".to_owned(), 2);
    match ctx.add_opened_wallet_if_absent(second) {
        Ok(_) => panic!("a reserved identifier must not be taken twice"),
        Err(rejected) => assert_eq!(rejected.receive_address().as_str(), "spectre:two"),
    }
    assert_eq!(
        ctx.get_open_wallet_arc(&id).unwrap().receive_address().as_str(),
        "spectre:one"
    );
}

#[test]
fn session_handle_carries_its_binding() {
    let wallet = TipOwnedWallet::new("dave".to_owned(), "spectre:dave".to_owned(), 5);
    assert_eq!(wallet.identifier().as_str(), "dave");
    assert_eq!(wallet.receive_address().as_str(), "spectre:dave");
    assert_eq!(wallet.wallet(), 5);
    let copy = wallet.clone();
    assert_eq!(copy.identifier().as_str(), "dave");
    assert_eq!(copy.wallet(), 5);
}

#[test]
fn secret_measures_only_its_length() {
    let s = Secret::new("correct-secret".to_owned());
    assert_eq!(s.len(), 14);
    assert!(!s.is_weak());
    let w = Secret::new("123456789".to_owned());
    assert_eq!(w.len(), MIN_SECRET_LEN - 1);
    assert!(w.is_weak());
    assert_eq!(s.into_value(), "correct-secret");
}
