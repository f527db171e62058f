use vstd::prelude::*;
use crate::owned_wallet::SessionView;
use crate::owned_wallet::TipOwnedWallet;

verus! {

/// The selected ledger network, kept as its textual name (for example
/// `"mainnet"` or `"testnet-10"`). Chosen once at startup, immutable after.
pub struct NetworkId {
    name: String,
}

impl View for NetworkId {
    type V = Seq<char>;

    closed spec fn view(&self) -> Seq<char> {
        self.name@
    }
}

impl NetworkId {
    pub fn new(name: String) -> (r: NetworkId)
        ensures
            r@ == name@,
    {
        NetworkId { name }
    }

    /// The textual name of the network.
    pub fn name(&self) -> (r: &String)
        ensures
            r@ == self@,
    {
        &self.name
    }
}

impl Clone for NetworkId {
    fn clone(&self) -> (r: Self)
        ensures
            r@ == self@,
    {
        NetworkId { name: self.name.clone() }
    }
}

/// No two entries bear the same identifier.
pub open spec fn unique_identifiers(entries: Seq<TipOwnedWallet>) -> bool {
    forall|i: int, j: int|
        0 <= i < j < entries.len() ==> entries[i]@.identifier != entries[j]@.identifier
}

/// The mapping a sequence of session entries represents: identifier to
/// session value, later entries winning on a repeated identifier.
pub open spec fn sessions_of(entries: Seq<TipOwnedWallet>) -> Map<Seq<char>, SessionView>
    decreases entries.len(),
{
    if entries.len() == 0 {
        Map::empty()
    } else {
        sessions_of(entries.drop_last()).insert(
            entries.last()@.identifier,
            entries.last()@,
        )
    }
}

/// The process-wide session registry: the one mutable shared resource of the
/// core. It binds each user identifier to at most one open session and holds
/// the immutable network configuration every command handler shares.
///
/// The host owns the single registry value and serializes access to it (the
/// host typically guards it with one reader/writer lock); every
/// operation below is a plain, bounded map operation, so no critical section
/// ever suspends on I/O, cryptography or the network.
pub struct TipContext {
    resolver_seed_urls: Vec<String>,
    network_id: NetworkId,
    forced_node_url: Option<String>,
    rpc_client: u64,
    opened_wallet: Vec<TipOwnedWallet>,
}

impl TipContext {
    /// The session entries, in registration order.
    pub closed spec fn entries(self) -> Seq<TipOwnedWallet> {
        self.opened_wallet@
    }

    /// The registered sessions as a mapping from identifier to session value.
    pub closed spec fn sessions(self) -> Map<Seq<char>, SessionView> {
        sessions_of(self.opened_wallet@)
    }

    /// Well-formedness: no identifier is registered twice.
    pub closed spec fn wf(self) -> bool {
        unique_identifiers(self.opened_wallet@)
    }

    pub closed spec fn spec_network_id(self) -> Seq<char> {
        self.network_id@
    }

    pub closed spec fn spec_forced_node_url(self) -> Option<Seq<char>> {
        match self.forced_node_url {
            Some(url) => Some(url@),
            None => None,
        }
    }

    pub closed spec fn spec_resolver_seed_urls(self) -> Seq<Seq<char>> {
        self.resolver_seed_urls.deep_view()
    }

    pub closed spec fn spec_rpc_client(self) -> int {
        self.rpc_client as int
    }
}

/// The immutable configuration is the same in both registry values.
pub open spec fn same_config(a: TipContext, b: TipContext) -> bool {
    &&& a.spec_network_id() == b.spec_network_id()
    &&& a.spec_forced_node_url() == b.spec_forced_node_url()
    &&& a.spec_resolver_seed_urls() == b.spec_resolver_seed_urls()
    &&& a.spec_rpc_client() == b.spec_rpc_client()
}

proof fn lemma_unique_drop_last(entries: Seq<TipOwnedWallet>)
    requires
        unique_identifiers(entries),
        entries.len() > 0,
    ensures
        unique_identifiers(entries.drop_last()),
{
    let prefix = entries.drop_last();
    assert forall|i: int, j: int|
        0 <= i < j < prefix.len() implies prefix[i]@.identifier != prefix[j]@.identifier by {
        assert(prefix[i] == entries[i]);
        assert(prefix[j] == entries[j]);
    }
}

/// A key is in the represented mapping exactly when some entry bears it.
proof fn lemma_sessions_contains(entries: Seq<TipOwnedWallet>, key: Seq<char>)
    ensures
        sessions_of(entries).contains_key(key) <==> exists|i: int|
            0 <= i < entries.len() && entries[i]@.identifier == key,
    decreases entries.len(),
{
    if entries.len() > 0 {
        let prefix = entries.drop_last();
        lemma_sessions_contains(prefix, key);
        if entries.last()@.identifier == key {
            assert(entries[entries.len() - 1]@.identifier == key);
        } else {
            if sessions_of(entries).contains_key(key) {
                let i = choose|i: int| 0 <= i < prefix.len() && prefix[i]@.identifier == key;
                assert(entries[i]@.identifier == key);
            }
            if exists|i: int| 0 <= i < entries.len() && entries[i]@.identifier == key {
                let i = choose|i: int| 0 <= i < entries.len() && entries[i]@.identifier == key;
                assert(prefix[i] == entries[i]);
            }
        }
    }
}

/// In a well-formed sequence, the entry at any index is what the represented
/// mapping holds for that entry's identifier.
proof fn lemma_sessions_index(entries: Seq<TipOwnedWallet>, i: int)
    requires
        unique_identifiers(entries),
        0 <= i < entries.len(),
    ensures
        sessions_of(entries).contains_key(entries[i]@.identifier),
        sessions_of(entries)[entries[i]@.identifier] == entries[i]@,
    decreases entries.len(),
{
    let key = entries[i]@.identifier;
    let prefix = entries.drop_last();
    if i < entries.len() - 1 {
        lemma_unique_drop_last(entries);
        assert(prefix[i] == entries[i]);
        lemma_sessions_index(prefix, i);
        assert(entries.last()@.identifier != key);
    }
}

/// Appending an entry inserts its identifier into the represented mapping.
proof fn lemma_sessions_push(entries: Seq<TipOwnedWallet>, entry: TipOwnedWallet)
    ensures
        sessions_of(entries.push(entry)) == sessions_of(entries).insert(
            entry@.identifier,
            entry@,
        ),
{
    let pushed = entries.push(entry);
    assert(pushed.drop_last() =~= entries);
    assert(pushed.last() == entry);
}

/// Removing the entry at an index removes its identifier from the
/// represented mapping.
proof fn lemma_sessions_remove(entries: Seq<TipOwnedWallet>, i: int)
    requires
        unique_identifiers(entries),
        0 <= i < entries.len(),
    ensures
        unique_identifiers(entries.remove(i)),
        sessions_of(entries.remove(i)) == sessions_of(entries).remove(entries[i]@.identifier),
    decreases entries.len(),
{
    let key = entries[i]@.identifier;
    let prefix = entries.drop_last();
    let shorter = entries.remove(i);
    entries.remove_ensures(i);
    assert forall|p: int, q: int|
        0 <= p < q < shorter.len() implies shorter[p]@.identifier != shorter[q]@.identifier by {
        let p_src: int = if p < i { p } else { p + 1 };
        let q_src: int = if q < i { q } else { q + 1 };
        assert(shorter[p] == entries[p_src]);
        assert(shorter[q] == entries[q_src]);
    }
    if i == entries.len() - 1 {
        assert(shorter =~= prefix);
        lemma_sessions_contains(prefix, key);
        assert forall|j: int| 0 <= j < prefix.len() implies prefix[j]@.identifier != key by {
            assert(prefix[j] == entries[j]);
        }
        assert(!sessions_of(prefix).contains_key(key));
        assert(sessions_of(entries.remove(i)) =~= sessions_of(entries).remove(key));
    } else {
        let last = entries.last();
        lemma_unique_drop_last(entries);
        lemma_sessions_remove(prefix, i);
        assert(shorter.drop_last() =~= prefix.remove(i));
        assert(shorter.last() == last);
        assert(last@.identifier != key);
        assert(sessions_of(shorter) == sessions_of(prefix.remove(i)).insert(
            last@.identifier,
            last@,
        ));
        assert(sessions_of(entries.remove(i)) =~= sessions_of(entries).remove(key));
    }
}

/// Law: at most one session per identifier. In a well-formed registry, any
/// two entries that bear the same identifier are one and the same entry, so
/// no lookup can ever observe two different session handles for one user.
/// Every registry operation preserves well-formedness, so this holds after
/// any sequence of create, open and restore registrations.
pub proof fn lemma_at_most_one_session(ctx: TipContext, i: int, j: int)
    requires
        ctx.wf(),
        0 <= i < ctx.entries().len(),
        0 <= j < ctx.entries().len(),
        ctx.entries()[i]@.identifier == ctx.entries()[j]@.identifier,
    ensures
        i == j,
{
}

/// Law: a registered entry is exactly what `sessions()` maps its identifier
/// to, so the mapping view and the entry view never disagree.
pub proof fn lemma_entry_matches_sessions(ctx: TipContext, i: int)
    requires
        ctx.wf(),
        0 <= i < ctx.entries().len(),
    ensures
        ctx.sessions().contains_key(ctx.entries()[i]@.identifier),
        ctx.sessions()[ctx.entries()[i]@.identifier] == ctx.entries()[i]@,
{
    lemma_sessions_index(ctx.entries(), i);
}

impl TipContext {
    /// Build the registry once at process start, with the shared, immutable
    /// network configuration and no session registered.
    pub fn new(
        resolver_seed_urls: Vec<String>,
        network_id: NetworkId,
        forced_node_url: Option<String>,
        rpc_client: u64,
    ) -> (r: TipContext)
        ensures
            r.wf(),
            r.sessions() == Map::<Seq<char>, SessionView>::empty(),
            r.spec_network_id() == network_id@,
            (r.spec_forced_node_url() == match forced_node_url {
                Some(url) => Some::<Seq<char>>(url@),
                None => None::<Seq<char>>,
            }),
            r.spec_resolver_seed_urls() == resolver_seed_urls.deep_view(),
            r.spec_rpc_client() == rpc_client as int,
    {
        TipContext {
            resolver_seed_urls,
            network_id,
            forced_node_url,
            rpc_client,
            opened_wallet: Vec::new(),
        }
    }

    /// The index of the entry bearing the identifier, if any.
    fn find_index(&self, identifier: &String) -> (r: Option<usize>)
        ensures
            match r {
                Some(i) => i < self.opened_wallet@.len()
                    && self.opened_wallet@[i as int]@.identifier == identifier@,
                None => forall|j: int|
                    0 <= j < self.opened_wallet@.len()
                        ==> self.opened_wallet@[j]@.identifier != identifier@,
            },
    {
        let n: usize = self.opened_wallet.len();
        let mut i: usize = 0;
        while i < n
            invariant
                i <= n,
                n == self.opened_wallet@.len(),
                forall|j: int|
                    0 <= j < i ==> self.opened_wallet@[j]@.identifier != identifier@,
            decreases n - i,
        {
            if *self.opened_wallet[i].identifier() == *identifier {
                return Some(i);
            }
            i = i + 1;
        }
        None
    }

    /// True exactly when a session is registered for the identifier. A pure,
    /// bounded read: no I/O can happen inside it.
    pub fn does_open_wallet_exists(&self, identifier: &String) -> (r: bool)
        ensures
            r == self.sessions().contains_key(identifier@),
    {
        let found = self.find_index(identifier);
        proof {
            lemma_sessions_contains(self.opened_wallet@, identifier@);
        }
        found.is_some()
    }

    /// A clone of the registered session handle for the identifier, if any.
    /// A pure, bounded read: no I/O can happen inside it.
    pub fn get_open_wallet_arc(&self, identifier: &String) -> (r: Option<TipOwnedWallet>)
        requires
            self.wf(),
        ensures
            match r {
                Some(wallet) => self.sessions().contains_key(identifier@)
                    && wallet@ == self.sessions()[identifier@],
                None => !self.sessions().contains_key(identifier@),
            },
    {
        proof {
            lemma_sessions_contains(self.opened_wallet@, identifier@);
        }
        match self.find_index(identifier) {
            Some(i) => {
                proof {
                    lemma_sessions_index(self.opened_wallet@, i as int);
                }
                Some(self.opened_wallet[i].clone())
            },
            None => None,
        }
    }

    /// Register a session under the identifier, replacing any prior entry,
    /// and hand the inserted handle back. The caller is responsible for not
    /// overwriting a session it did not mean to displace; `close` and
    /// `destroy` go through `remove_opened_wallet` instead.
    pub fn add_opened_wallet(&mut self, identifier: String, wallet: TipOwnedWallet) -> (r:
        TipOwnedWallet)
        requires
            old(self).wf(),
            wallet@.identifier == identifier@,
        ensures
            final(self).wf(),
            final(self).sessions() == old(self).sessions().insert(identifier@, wallet@),
            same_config(*old(self), *final(self)),
            r == wallet,
    {
        proof {
            lemma_sessions_contains(self.opened_wallet@, identifier@);
        }
        match self.find_index(&identifier) {
            Some(i) => {
                proof {
                    lemma_sessions_remove(self.opened_wallet@, i as int);
                }
                self.opened_wallet.remove(i);
                proof {
                    lemma_sessions_contains(self.opened_wallet@, identifier@);
                }
            },
            None => {},
        }
        let duplicate = wallet.clone();
        let ghost cleared = self.opened_wallet@;
        proof {
            lemma_sessions_push(cleared, duplicate);
        }
        self.opened_wallet.push(duplicate);
        proof {
            assert forall|p: int, q: int|
                0 <= p < q < self.opened_wallet@.len()
                    implies self.opened_wallet@[p]@.identifier
                    != self.opened_wallet@[q]@.identifier by {
                if q == self.opened_wallet@.len() - 1 {
                    assert(self.opened_wallet@[p] == cleared[p]);
                    lemma_sessions_contains(cleared, identifier@);
                } else {
                    assert(self.opened_wallet@[p] == cleared[p]);
                    assert(self.opened_wallet@[q] == cleared[q]);
                }
            }
            assert(final(self).sessions() =~= old(self).sessions().insert(
                identifier@,
                wallet@,
            ));
        }
        wallet
    }

    /// Register a session only when its identifier is free: the atomic
    /// reserve-or-fail step that closes the check-then-act window between an
    /// existence check and an insert. On conflict the registry is untouched
    /// and the handle comes back in the error, so the caller can roll back
    /// (shut the freshly built wallet down) without ever having displaced the
    /// registered one.
    pub fn add_opened_wallet_if_absent(&mut self, wallet: TipOwnedWallet) -> (r: Result<
        TipOwnedWallet,
        TipOwnedWallet,
    >)
        requires
            old(self).wf(),
        ensures
            final(self).wf(),
            same_config(*old(self), *final(self)),
            match r {
                Ok(inserted) => !old(self).sessions().contains_key(wallet@.identifier)
                    && final(self).sessions() == old(self).sessions().insert(
                    wallet@.identifier,
                    wallet@,
                ) && inserted == wallet,
                Err(rejected) => old(self).sessions().contains_key(wallet@.identifier)
                    && *final(self) == *old(self) && rejected == wallet,
            },
    {
        proof {
            lemma_sessions_contains(self.opened_wallet@, wallet@.identifier);
        }
        match self.find_index(wallet.identifier()) {
            Some(_) => Err(wallet),
            None => {
                let duplicate = wallet.clone();
                let ghost before = self.opened_wallet@;
                proof {
                    lemma_sessions_push(before, duplicate);
                }
                self.opened_wallet.push(duplicate);
                proof {
                    assert forall|p: int, q: int|
                        0 <= p < q < self.opened_wallet@.len()
                            implies self.opened_wallet@[p]@.identifier
                            != self.opened_wallet@[q]@.identifier by {
                        assert(self.opened_wallet@[p] == before[p]);
                        if q < self.opened_wallet@.len() - 1 {
                            assert(self.opened_wallet@[q] == before[q]);
                        }
                    }
                }
                Ok(wallet)
            },
        }
    }

    /// Remove and return the session registered under the identifier, if
    /// any. Deliberately performs no shutdown of the underlying wallet: the
    /// caller asks the wallet to stop after this returns, so that a shutdown
    /// that fails or blocks never happens inside the registry's critical
    /// section.
    pub fn remove_opened_wallet(&mut self, identifier: &String) -> (r: Option<TipOwnedWallet>)
        requires
            old(self).wf(),
        ensures
            final(self).wf(),
            same_config(*old(self), *final(self)),
            final(self).sessions() == old(self).sessions().remove(identifier@),
            match r {
                Some(wallet) => old(self).sessions().contains_key(identifier@)
                    && wallet@ == old(self).sessions()[identifier@],
                None => !old(self).sessions().contains_key(identifier@),
            },
    {
        proof {
            lemma_sessions_contains(self.opened_wallet@, identifier@);
        }
        match self.find_index(identifier) {
            Some(i) => {
                proof {
                    lemma_sessions_index(self.opened_wallet@, i as int);
                    lemma_sessions_remove(self.opened_wallet@, i as int);
                }
                Some(self.opened_wallet.remove(i))
            },
            None => {
                proof {
                    assert(old(self).sessions() =~= old(self).sessions().remove(identifier@));
                }
                None
            },
        }
    }

    /// The selected network, shared and immutable.
    pub fn network_id(&self) -> (r: NetworkId)
        ensures
            r@ == self.spec_network_id(),
    {
        self.network_id.clone()
    }

    /// The endpoint seed URLs the node resolver was built from; empty means
    /// the resolver uses its default public endpoints.
    pub fn resolver(&self) -> (r: &Vec<String>)
        ensures
            r.deep_view() == self.spec_resolver_seed_urls(),
    {
        &self.resolver_seed_urls
    }

    /// The node address override, if one was configured at startup.
    pub fn forced_node_url(&self) -> (r: Option<String>)
        ensures
            (match r {
                Some(url) => self.spec_forced_node_url() == Some::<Seq<char>>(url@),
                None => self.spec_forced_node_url() == None::<Seq<char>>,
            }),
    {
        match &self.forced_node_url {
            Some(url) => Some(url.clone()),
            None => None,
        }
    }

    /// The host's ticket for the shared RPC client. The registry never owns
    /// the connection: it only hands the ticket to command handlers.
    pub fn rpc_api(&self) -> (r: u64)
        ensures
            r as int == self.spec_rpc_client(),
    {
        self.rpc_client
    }
}

} // verus!
