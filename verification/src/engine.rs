//! The engine: the tables, what watches over them, and what is told of changes.
//!
//! Every change that succeeds is told in events, and only those. Events wait in
//! an outbox; whoever drives the engine passes them on to the observer.

use vstd::prelude::*;

use crate::codec;
use crate::codec::Uuid;
use crate::conflict_resolution;
use crate::conflict_resolution::{ConflictStash, MergeFault, PendingConflictContext, Resolution};
use crate::conflict_rows;
use crate::conflict_rows::ConflictView;
use crate::crypto;
use crate::crypto::{NonceSource, SessionKey};
use crate::error::{EngineError, IngestError, SqliteError};
use crate::events::{
    ChangeEvent, ChangeView, EntryDeletionInfo, EntryMove, GroupDeletionInfo, GroupMove,
};
use crate::file_watcher::{FileTime, FileWatcherEvent};
use crate::fingerprint;
use crate::ingest;
use crate::key_provider;
use crate::meta;
use crate::meta_tables::MetaTables;
use crate::mirror;
use crate::mirror::{EntryRecord, Mirror, MirrorView};
use crate::order;
use crate::properties;
use crate::properties::{DatabaseMetadata, HeaderFacts, KdfParams, KnownCipher};
use crate::reading;
use crate::rows;
use crate::settings;
use crate::settings::{SettingKey, SettingTable};
use crate::vault::{CustomDataItem, Entry, Vault};

verus! {

broadcast use {vstd::std_specs::btree::group_btree_axioms, vstd::laws_cmp::group_laws_cmp};

// ---------------------------------------------------------------- the state machine

/// Health of the engine.
#[derive(Debug)]
#[non_exhaustive]
pub enum VaultState {
    /// Fully operational.
    Active,
    /// The mirror can be read, the vault file cannot be reached.
    Disconnected {
        /// Why.
        reason: DisconnectReason,
    },
    /// Deliberately read-only.
    ReadOnly,
    /// Beyond repair; to be closed and reopened.
    Error,
}

/// Why the vault file cannot be reached.
#[derive(Debug)]
#[non_exhaustive]
pub enum DisconnectReason {
    /// It is not there.
    FileMissing,
    /// It is there and cannot be read.
    FileUnreadable(String),
    /// A remote store cannot be reached.
    NetworkUnavailable,
    /// Anything else.
    Other(String),
}

/// Starts the flow that reconciles the mirror with a changed vault file.
pub trait ReconcileTrigger: Send + Sync {
    /// Called from the watcher's thread.
    fn trigger(&self);
}

/// Time and size of a vault file that the engine wrote itself.
#[derive(Debug, Clone, Copy, PartialEq, Eq, Structural)]
pub struct SelfWriteSignature {
    /// Modification time.
    pub mtime: FileTime,
    /// Length in bytes.
    pub size: u64,
}

/// The part of the engine that the file watcher writes to.
#[derive(Debug)]
pub struct EngineShared {
    /// Health.
    pub state: VaultState,
    /// The last vault file written here, until the watcher has echoed it.
    pub last_self_write: Option<SelfWriteSignature>,
    /// Changes made elsewhere so far.
    pub pending_reconcile_calls: u64,
    /// Whether a reconcile trigger is installed.
    pub has_trigger: bool,
}

/// Whether an observed change is the echo of our own write.
pub open spec fn is_echo(
    last: Option<SelfWriteSignature>,
    mtime: Option<FileTime>,
    size: Option<u64>,
) -> bool {
    match (mtime, size, last) {
        (Some(m), Some(s), Some(sig)) => m == sig.mtime && s == sig.size,
        _ => false,
    }
}

/// The watched state after an event.
pub open spec fn after_event(s: EngineShared, event: FileWatcherEvent) -> EngineShared {
    match event {
        FileWatcherEvent::ContentChanged { mtime, size } => if is_echo(
            s.last_self_write,
            mtime,
            size,
        ) {
            EngineShared { last_self_write: None, ..s }
        } else {
            EngineShared {
                pending_reconcile_calls: (s.pending_reconcile_calls + 1) as u64,
                ..s
            }
        },
        FileWatcherEvent::Unavailable { reason } => EngineShared {
            state: VaultState::Disconnected { reason: DisconnectReason::FileUnreadable(reason) },
            ..s
        },
        FileWatcherEvent::Available => EngineShared { state: VaultState::Active, ..s },
        FileWatcherEvent::ConflictMarker { description: _ } => s,
    }
}

/// Whether an event fires the reconcile trigger.
pub open spec fn fires(s: EngineShared, event: FileWatcherEvent) -> bool {
    match event {
        FileWatcherEvent::ContentChanged { mtime, size } => s.has_trigger && !is_echo(
            s.last_self_write,
            mtime,
            size,
        ),
        _ => false,
    }
}

impl EngineShared {
    /// The state of an engine that was just opened.
    pub fn new() -> (r: EngineShared)
        ensures
            r == (EngineShared {
                state: VaultState::Active,
                last_self_write: None,
                pending_reconcile_calls: 0,
                has_trigger: false,
            }),
    {
        EngineShared {
            state: VaultState::Active,
            last_self_write: None,
            pending_reconcile_calls: 0,
            has_trigger: false,
        }
    }

    /// Takes note of an event of the watched file. The echo of our own write
    /// is swallowed, once. Says whether the reconcile trigger is to be fired.
    pub fn on_event(&mut self, event: FileWatcherEvent) -> (r: bool)
        requires
            old(self).pending_reconcile_calls < u64::MAX,
        ensures
            *final(self) == after_event(*old(self), event),
            r == fires(*old(self), event),
    {
        match event {
            FileWatcherEvent::ContentChanged { mtime, size } => {
                if let (Some(m), Some(s), Some(sig)) = (mtime, size, self.last_self_write) {
                    if m == sig.mtime && s == sig.size {
                        self.last_self_write = None;
                        return false;
                    }
                }
                self.pending_reconcile_calls = self.pending_reconcile_calls + 1;
                self.has_trigger
            },
            FileWatcherEvent::Unavailable { reason } => {
                self.state = VaultState::Disconnected {
                    reason: DisconnectReason::FileUnreadable(reason),
                };
                false
            },
            FileWatcherEvent::Available => {
                self.state = VaultState::Active;
                false
            },
            FileWatcherEvent::ConflictMarker { description: _ } => false,
        }
    }

    /// Was the observed file written here? If so the signature is used up.
    pub fn consume_self_write_signature(&mut self, mtime: FileTime, size: u64) -> (r: bool)
        ensures
            r == is_echo(old(self).last_self_write, Some(mtime), Some(size)),
            *final(self) == (if r {
                EngineShared { last_self_write: None, ..*old(self) }
            } else {
                *old(self)
            }),
    {
        match self.last_self_write {
            Some(sig) => {
                if sig.mtime == mtime && sig.size == size {
                    self.last_self_write = None;
                    true
                } else {
                    false
                }
            },
            None => false,
        }
    }
}

/// An echo is swallowed once: the same event again counts as a change made
/// elsewhere.
pub proof fn an_echo_is_swallowed_once(s: EngineShared, event: FileWatcherEvent)
    requires
        event is ContentChanged,
        is_echo(s.last_self_write, event->mtime, event->size),
    ensures
        !fires(s, event),
        after_event(s, event).pending_reconcile_calls == s.pending_reconcile_calls,
        fires(after_event(s, event), event) == s.has_trigger,
        after_event(after_event(s, event), event).pending_reconcile_calls == (
        s.pending_reconcile_calls + 1) as u64,
{
}

/// A change whose time or size is unknown is never taken for an echo.
pub proof fn an_unmeasured_change_is_no_echo(s: EngineShared, event: FileWatcherEvent)
    requires
        event is ContentChanged,
        event->mtime is None || event->size is None,
    ensures
        fires(s, event) == s.has_trigger,
        after_event(s, event).last_self_write == s.last_self_write,
{
}

/// A file that goes and comes back leaves the engine active.
pub proof fn coming_back_makes_active(s: EngineShared, gone: FileWatcherEvent)
    requires
        gone is Unavailable,
    ensures
        after_event(s, gone).state is Disconnected,
        after_event(after_event(s, gone), FileWatcherEvent::Available).state is Active,
{
}

// ------------------------------------------------------------- the fingerprint key

/// The stored fingerprint key, where there is one of the right length.
pub open spec fn stored_key(m: Map<SettingKey, Seq<u8>>) -> Option<Seq<u8>> {
    if m.contains_key(SettingKey::FingerprintKey) && m[SettingKey::FingerprintKey].len() == 32 {
        Some(m[SettingKey::FingerprintKey])
    } else {
        None
    }
}

fn key_array(bytes: &Vec<u8>) -> (r: [u8; 32])
    requires
        bytes@.len() == 32,
    ensures
        r@ == bytes@,
{
    let mut out: [u8; 32] = [0u8; 32];
    let mut i: usize = 0;
    while i < 32
        invariant
            i <= 32,
            bytes@.len() == 32,
            forall|k: int| 0 <= k < i ==> out@[k] == bytes@[k],
        decreases 32 - i,
    {
        out[i] = bytes[i];
        i = i + 1;
    }
    assert(out@ =~= bytes@);
    out
}

/// Keeps a freshly drawn fingerprint key: it becomes the vault's key and is
/// stored. Where none could be drawn, nothing is stored.
pub fn keep_drawn_key(settings: &mut SettingTable, drawn: Result<Vec<u8>, String>) -> (r: Result<
    [u8; 32],
    EngineError,
>)
    requires
        old(settings).wf(),
        !old(settings)@.contains_key(SettingKey::FingerprintKey),
        drawn is Ok ==> drawn->Ok_0@.len() == 32,
    ensures
        final(settings).wf(),
        match drawn {
            Ok(bytes) => {
                &&& r is Ok && r->Ok_0@ == bytes@
                &&& final(settings)@ == old(settings)@.insert(SettingKey::FingerprintKey, bytes@)
            },
            Err(e) => {
                &&& r == Err::<[u8; 32], EngineError>(EngineError::Random(e))
                &&& final(settings)@ == old(settings)@
            },
        },
{
    match drawn {
        Ok(bytes) => {
            let key = key_array(&bytes);
            settings.set_blob(SettingKey::FingerprintKey, bytes);
            Ok(key)
        },
        Err(e) => Err(EngineError::Random(e)),
    }
}

/// The vault's fingerprint key: the stored one, or a fresh random one, which is
/// then stored. A stored one of the wrong length is refused.
pub fn ensure_fingerprint_key(settings: &mut SettingTable) -> (r: Result<[u8; 32], EngineError>)
    requires
        old(settings).wf(),
    ensures
        final(settings).wf(),
        match r {
            Ok(key) => if old(settings)@.contains_key(SettingKey::FingerprintKey) {
                stored_key(old(settings)@) == Some(key@) && final(settings)@ == old(settings)@
            } else {
                final(settings)@ == old(settings)@.insert(SettingKey::FingerprintKey, key@)
            },
            Err(e) => {
                &&& final(settings)@ == old(settings)@
                &&& stored_key(old(settings)@) is None
                &&& if old(settings)@.contains_key(SettingKey::FingerprintKey) {
                    e matches EngineError::Sqlite(SqliteError::WrongLength { found }) && found
                        == old(settings)@[SettingKey::FingerprintKey].len()
                } else {
                    e is Random
                }
            },
        },
{
    match settings.get_blob(SettingKey::FingerprintKey) {
        Some(bytes) => {
            if bytes.len() != 32 {
                return Err(EngineError::Sqlite(SqliteError::WrongLength { found: bytes.len() }));
            }
            Ok(key_array(&bytes))
        },
        None => keep_drawn_key(settings, crypto::random_bytes(32)),
    }
}

/// A key that was stored is the key that is found.
pub proof fn the_key_stays(m: Map<SettingKey, Seq<u8>>, key: Seq<u8>)
    requires
        key.len() == 32,
    ensures
        stored_key(m.insert(SettingKey::FingerprintKey, key)) == Some(key),
{
}

// ------------------------------------------------------------------- the signature

/// Time and size of the vault file that the mirror corresponds to.
#[derive(Debug, Clone, Copy, PartialEq, Eq, Structural)]
pub struct KdbxStateSignature {
    /// Modification time, in milliseconds.
    pub mtime_ms: i64,
    /// Length in bytes.
    pub byte_count: u64,
}

/// The rows the signature is stored in.
#[derive(Debug, Clone, Copy, PartialEq, Eq, Structural)]
pub struct SignatureRows {
    /// Modification time, in milliseconds.
    pub mtime_ms: Option<i64>,
    /// Length in bytes.
    pub byte_count: Option<i64>,
}

/// The signature that rows stand for; none where a row is missing.
pub open spec fn signature_of(rows: SignatureRows) -> Option<KdbxStateSignature> {
    match (rows.mtime_ms, rows.byte_count) {
        (Some(mtime_ms), Some(n)) => Some(
            KdbxStateSignature {
                mtime_ms,
                byte_count: if n >= 0 {
                    n as u64
                } else {
                    0
                },
            },
        ),
        _ => None,
    }
}

/// The rows that a signature is stored in. A length beyond the column's range
/// is stored as the largest that fits.
pub open spec fn rows_of(sig: KdbxStateSignature) -> SignatureRows {
    SignatureRows {
        mtime_ms: Some(sig.mtime_ms),
        byte_count: Some(
            if sig.byte_count <= i64::MAX {
                sig.byte_count as i64
            } else {
                i64::MAX
            },
        ),
    }
}

/// A recorded signature reads back.
pub proof fn signature_reads_back(sig: KdbxStateSignature)
    requires
        sig.byte_count <= i64::MAX,
    ensures
        signature_of(rows_of(sig)) == Some(sig),
{
}

// ----------------------------------------------------------------------- the engine

/// The engine.
pub struct Engine {
    /// The vault's tables.
    pub mirror: Mirror,
    /// The metadata tables.
    pub tables: MetaTables,
    /// Which vault file the tables correspond to.
    pub signature: SignatureRows,
    /// Key of the password fingerprints.
    pub fingerprint_key: [u8; 32],
    /// What the file watcher writes to.
    pub shared: EngineShared,
    /// Conflicts that wait for a decision.
    pub stash: ConflictStash,
    /// Whether an observer is installed.
    pub observed: bool,
    /// Events not yet passed on, oldest first.
    pub outbox: Vec<ChangeEvent>,
}

/// The outbox after events were told. Without an observer nothing is kept.
pub open spec fn told(outbox: Seq<ChangeView>, observed: bool, more: Seq<ChangeView>) -> Seq<
    ChangeView,
> {
    if observed {
        outbox + more
    } else {
        outbox
    }
}

/// Whether the outcome of a change was told: on success its events, on failure
/// nothing. What the change came to is handed on, and nothing else happens.
pub open spec fn tells_outcome<T, U>(
    before: Engine,
    after: Engine,
    result: Result<T, EngineError>,
    r: Result<U, EngineError>,
    events: Seq<ChangeView>,
) -> bool {
    &&& after == (Engine { outbox: after.outbox, ..before })
    &&& match result {
        Ok(_) => r is Ok && after.outbox.deep_view() == told(
            before.outbox.deep_view(),
            before.observed,
            events,
        ),
        Err(e) => r == Err::<U, EngineError>(e) && after.outbox == before.outbox,
    }
}

fn one<T>(item: T) -> (r: Vec<T>)
    ensures
        r@ == seq![item],
{
    let mut list: Vec<T> = Vec::new();
    list.push(item);
    assert(list@ =~= seq![item]);
    list
}

/// The groups and entries of a pass that wrote a vault, as events.
pub open spec fn ingest_events(groups: Seq<Uuid>, entries: Seq<Uuid>) -> Seq<ChangeView> {
    (if groups.len() > 0 {
        seq![ChangeView::GroupsAdded(groups)]
    } else {
        Seq::empty()
    }) + (if entries.len() > 0 {
        seq![ChangeView::EntriesAdded(entries)]
    } else {
        Seq::empty()
    })
}

/// A table of held conflicts without the entries that a decision is on.
pub open spec fn without_settled(
    m: Map<(Seq<char>, Uuid), ConflictView>,
    r: Resolution,
) -> Map<(Seq<char>, Uuid), ConflictView> {
    Map::new(
        |k: (Seq<char>, Uuid)| m.contains_key(k) && !conflict_resolution::settles(r, k.1),
        |k: (Seq<char>, Uuid)| m[k],
    )
}

/// The list with the item of the same key replaced, or the item added.
pub open spec fn with_item(
    items: Seq<rows::CustomDataRowView>,
    item: rows::CustomDataRowView,
    n: nat,
) -> Seq<rows::CustomDataRowView>
    decreases n,
{
    if n == 0 || n > items.len() {
        items.push(item)
    } else if items[n - 1].key == item.key {
        items.update(n - 1, item)
    } else {
        with_item(items, item, (n - 1) as nat)
    }
}

/// Whether an outcome is that of giving one entry new rows and telling of it; an
/// entry that is not there is refused and nothing changes.
pub open spec fn changes_one(
    before: Engine,
    after: Engine,
    r: Result<(), EngineError>,
    uuid: Uuid,
    record: EntryRecord,
    event: ChangeView,
) -> bool {
    &&& after == (Engine {
        mirror: Mirror { entries: after.mirror.entries, ..before.mirror },
        outbox: after.outbox,
        ..before
    })
    &&& if before.mirror.entries@.contains_key(uuid) {
        &&& r is Ok
        &&& after.mirror.entries@ == before.mirror.entries@.insert(uuid, record)
        &&& after.outbox.deep_view() == told(
            before.outbox.deep_view(),
            before.observed,
            seq![event],
        )
    } else {
        &&& reading::lacks(r, "entry"@)
        &&& after.mirror.entries@ == before.mirror.entries@
        &&& after.outbox == before.outbox
    }
}

/// What a group's deletion took along.
#[derive(Debug)]
pub struct DeletedSubtree {
    /// Entries, each with the group it was in.
    pub deleted_entries: Vec<EntryDeletionInfo>,
    /// Groups, each with its parent.
    pub deleted_groups: Vec<GroupDeletionInfo>,
}

impl Engine {
    /// Whether the tables' keys are distinct.
    pub open spec fn wf(self) -> bool {
        self.mirror.wf() && self.tables.wf()
    }

    /// Opens an engine on tables that were read from an unlocked database.
    pub fn open(mirror: Mirror, tables: MetaTables, signature: SignatureRows) -> (r: Result<
        Engine,
        EngineError,
    >)
        requires
            mirror.wf(),
            tables.wf(),
        ensures
            match r {
                Ok(e) => {
                    &&& e.wf()
                    &&& e.mirror == mirror
                    &&& e.signature == signature
                    &&& stored_key(e.tables.settings@) == Some(e.fingerprint_key@)
                    &&& if tables.settings@.contains_key(SettingKey::FingerprintKey) {
                        e.tables.settings@ == tables.settings@
                    } else {
                        e.tables.settings@ == tables.settings@.insert(
                            SettingKey::FingerprintKey,
                            e.fingerprint_key@,
                        )
                    }
                    &&& e.tables == (MetaTables { settings: e.tables.settings, ..tables })
                    &&& e.shared == (EngineShared {
                        state: VaultState::Active,
                        last_self_write: None,
                        pending_reconcile_calls: 0,
                        has_trigger: false,
                    })
                    &&& e.stash.payloads@ == Map::<i64, crate::events::ConflictPayload>::empty()
                    &&& e.stash.contexts@ == Map::<i64, PendingConflictContext>::empty()
                    &&& !e.observed && e.outbox@.len() == 0
                },
                Err(e) => {
                    &&& stored_key(tables.settings@) is None
                    &&& if tables.settings@.contains_key(SettingKey::FingerprintKey) {
                        e matches EngineError::Sqlite(SqliteError::WrongLength { found }) && found
                            == tables.settings@[SettingKey::FingerprintKey].len()
                    } else {
                        e is Random
                    }
                },
            },
    {
        let mut tables = tables;
        let fingerprint_key = ensure_fingerprint_key(&mut tables.settings)?;
        Ok(
            Engine {
                mirror,
                tables,
                signature,
                fingerprint_key,
                shared: EngineShared::new(),
                stash: ConflictStash::new(),
                observed: false,
                outbox: Vec::new(),
            },
        )
    }

    /// Installs an observer: from now on events are kept.
    pub fn set_observer(&mut self)
        ensures
            *final(self) == (Engine { observed: true, ..*old(self) }),
    {
        self.observed = true;
    }

    /// Removes the observer: from now on events are dropped.
    pub fn clear_observer(&mut self)
        ensures
            *final(self) == (Engine { observed: false, ..*old(self) }),
    {
        self.observed = false;
    }

    /// Tells an event, if there is an observer.
    pub fn emit(&mut self, event: ChangeEvent)
        ensures
            final(self).outbox.deep_view() == told(
                old(self).outbox.deep_view(),
                old(self).observed,
                seq![event.deep_view()],
            ),
            *final(self) == (Engine { outbox: final(self).outbox, ..*old(self) }),
    {
        if self.observed {
            self.outbox.push(event);
            proof {
                assert(self.outbox.deep_view() =~= old(self).outbox.deep_view() + seq![
                    event.deep_view(),
                ]);
            }
        }
    }

    /// Takes the events that were told, oldest first.
    pub fn take_events(&mut self) -> (r: Vec<ChangeEvent>)
        ensures
            r == old(self).outbox,
            final(self).outbox@.len() == 0,
            *final(self) == (Engine { outbox: final(self).outbox, ..*old(self) }),
    {
        let mut out: Vec<ChangeEvent> = Vec::new();
        std::mem::swap(&mut out, &mut self.outbox);
        out
    }

    /// The fingerprint of a plaintext under the vault's key.
    pub fn fingerprint(&self, plaintext: &[u8]) -> (r: [u8; 32])
        ensures
            r@ == fingerprint::hmac_sha256(self.fingerprint_key@, plaintext@),
    {
        fingerprint::fingerprint(&self.fingerprint_key, plaintext)
    }

    /// Overwrites the fingerprint key with zeros; the last thing to be done to
    /// an engine.
    pub fn wipe(&mut self)
        ensures
            final(self).fingerprint_key@ == Seq::new(32, |i: int| 0u8),
            *final(self) == (Engine { fingerprint_key: final(self).fingerprint_key, ..*old(self) }),
    {
        key_provider::wipe_bytes(&mut self.fingerprint_key);
    }

    // ------------------------------------------------------------ whole vaults

    /// Writes a vault that was read from its file, in place of everything the
    /// tables held.
    pub fn ingest_from_kdbx(
        &mut self,
        vault: &Vault,
        header: &HeaderFacts,
        session_key: &SessionKey,
        nonces: &mut NonceSource,
    ) -> (r: Result<(), EngineError>)
        requires
            old(self).wf(),
            meta::encodable(vault.meta.deep_view().unknown_xml),
        ensures
            final(self).wf(),
            match r {
                Ok(()) => {
                    &&& ingest::storable_vault(vault)
                    &&& final(self).mirror.opened(session_key@) == ingest::ingested(
                        old(self).mirror.opened(session_key@),
                        vault,
                        old(self).fingerprint_key@,
                    )
                    &&& final(self).tables.settings@ == ingest::ingested_settings(
                        old(self).tables.settings@,
                        *vault,
                        Some(*header),
                    )
                    &&& ingest::holds_meta(final(self).tables, *vault)
                    &&& final(self).outbox.deep_view() == told(
                        old(self).outbox.deep_view(),
                        old(self).observed,
                        ingest_events(
                            Seq::new(
                                ingest::vault_groups(*vault).len(),
                                |i: int| ingest::vault_groups(*vault)[i].0,
                            ),
                            Seq::new(
                                ingest::vault_entries(vault).len(),
                                |i: int| ingest::vault_entries(vault)[i].entry.id,
                            ),
                        ),
                    )
                    &&& *final(self) == (Engine {
                        mirror: final(self).mirror,
                        tables: final(self).tables,
                        outbox: final(self).outbox,
                        ..*old(self)
                    })
                    &&& ingest::sealed_in_turn(
                        final(self).mirror.entries@,
                        ingest::vault_entries(vault),
                        ingest::vault_entries(vault).len(),
                        old(nonces).drawn@,
                    )
                    &&& final(nonces).drawn@ == crypto::left_of(
                        old(nonces).drawn@,
                        ingest::vault_seals(vault),
                    )
                },
                Err(e) => {
                    &&& ingest::ingest_refused(e, vault, old(nonces).drawn@.len())
                    &&& *final(self) == *old(self)
                },
            },
            crypto::spent(old(nonces).drawn@, final(nonces).drawn@),
    {
        let outcome = ingest::ingest(
            &mut self.mirror,
            &mut self.tables,
            &self.fingerprint_key,
            session_key,
            nonces,
            vault,
            header,
        )?;
        let ghost groups = outcome.group_uuids@;
        let ghost entries = outcome.entry_uuids@;
        let ghost before = self.outbox.deep_view();
        if outcome.group_uuids.len() > 0 {
            self.emit(ChangeEvent::GroupsAdded(outcome.group_uuids));
        }
        if outcome.entry_uuids.len() > 0 {
            self.emit(ChangeEvent::EntriesAdded(outcome.entry_uuids));
        }
        proof {
            assert(self.outbox.deep_view() =~= told(
                before,
                self.observed,
                ingest_events(groups, entries),
            ));
        }
        Ok(())
    }

    /// Settles a stashed conflict. The stash gives it up before anything else,
    /// so a second call with the same number finds nothing. `merged` is what
    /// applying the decision to the two sides gave: the merged vault, with the
    /// records of the decision in its metadata, or what went wrong. The merged
    /// vault replaces ours, which takes the session key, the entries decided on
    /// lose their held values, and the merge is told.
    pub fn apply_conflict_resolution(
        &mut self,
        id: i64,
        resolution: &Resolution,
        merged: Result<Vault, MergeFault>,
        session_key: Result<&SessionKey, String>,
        nonces: &mut NonceSource,
    ) -> (r: Result<(), EngineError>)
        requires
            old(self).wf(),
            merged is Ok ==> meta::encodable(merged->Ok_0.meta.deep_view().unknown_xml),
            old(self).stash.contexts@.contains_key(id) ==> conflict_resolution::countable(
                old(self).stash.contexts@[id].outcome,
            ),
        ensures
            final(self).wf(),
            crypto::spent(old(nonces).drawn@, final(nonces).drawn@),
            (r is Err && r->Err_0 is NotFound) <==> !old(self).stash.contexts@.contains_key(id),
            !old(self).stash.contexts@.contains_key(id) ==> {
                &&& r is Err
                &&& r->Err_0 matches EngineError::NotFound { entity } && entity@
                    == "conflict_payload"@
                &&& final(self).mirror == old(self).mirror
                &&& final(self).tables == old(self).tables
                &&& final(self).outbox == old(self).outbox
                &&& final(self).stash.contexts@ == old(self).stash.contexts@
                &&& final(self).stash.payloads == old(self).stash.payloads
            },
            old(self).stash.contexts@.contains_key(id) ==> {
                &&& final(self).stash.contexts@ == old(self).stash.contexts@.remove(id)
                &&& final(self).stash.payloads@ == old(self).stash.payloads@.remove(id)
                &&& match merged {
                    Err(fault) => {
                        &&& r is Err && fault.reported_by(r->Err_0)
                        &&& final(self).mirror == old(self).mirror
                        &&& final(self).tables == old(self).tables
                        &&& final(self).outbox == old(self).outbox
                    },
                    Ok(v) => match r {
                        Ok(()) => {
                            let key = session_key->Ok_0@;
                            let before = old(self).mirror.opened(key);
                            &&& session_key is Ok
                            &&& ingest::storable_vault(&v)
                            &&& final(self).mirror.opened(key) == (MirrorView {
                                conflicts: without_settled(before.conflicts, *resolution),
                                ..ingest::ingested(before, &v, old(self).fingerprint_key@)
                            })
                            &&& final(self).tables.settings@ == ingest::ingested_settings(
                                old(self).tables.settings@,
                                v,
                                None,
                            )
                            &&& ingest::holds_meta(final(self).tables, v)
                            &&& ingest::sealed_in_turn(
                                final(self).mirror.entries@,
                                ingest::vault_entries(&v),
                                ingest::vault_entries(&v).len(),
                                old(nonces).drawn@,
                            )
                            &&& final(nonces).drawn@ == crypto::left_of(
                                old(nonces).drawn@,
                                ingest::vault_seals(&v),
                            )
                            &&& final(self).outbox.deep_view() == told(
                                old(self).outbox.deep_view(),
                                old(self).observed,
                                seq![
                                    ChangeView::ExternalChangeMerged {
                                        applied: conflict_resolution::stats_of(
                                            old(self).stash.contexts@[id].outcome,
                                        ),
                                    },
                                ],
                            )
                        },
                        Err(e) => {
                            &&& match session_key {
                                Err(t) => e matches EngineError::Ingest(
                                    IngestError::SessionKey(words),
                                ) && words == t,
                                Ok(_) => ingest::ingest_refused(e, &v, old(nonces).drawn@.len()),
                            }
                            &&& final(self).mirror == old(self).mirror
                            &&& final(self).tables == old(self).tables
                            &&& final(self).outbox == old(self).outbox
                        },
                    },
                }
            },
            *final(self) == (Engine {
                mirror: final(self).mirror,
                tables: final(self).tables,
                stash: final(self).stash,
                outbox: final(self).outbox,
                ..*old(self)
            }),
    {
        proof {
            crypto::left_in_two(nonces.drawn@, 0, 0);
            crypto::left_is_spent(nonces.drawn@, 0);
        }
        let ctx = match self.stash.take_pending_conflict_context(id) {
            Some(ctx) => ctx,
            None => {
                proof {
                    assert(old(self).stash.contexts@.remove(id) =~= old(self).stash.contexts@);
                }
                return Err(EngineError::NotFound { entity: "conflict_payload" });
            },
        };
        self.stash.discard_pending_conflict_payload(id);
        let v = match merged {
            Ok(v) => v,
            Err(fault) => {
                return Err(fault.into_error());
            },
        };
        let session_key = match session_key {
            Ok(key) => key,
            Err(t) => {
                return Err(EngineError::Ingest(IngestError::SessionKey(t)));
            },
        };
        ingest::ingest_vault(
            &mut self.mirror,
            &mut self.tables,
            &self.fingerprint_key,
            session_key,
            nonces,
            &v,
        )?;
        let ghost full = self.mirror.opened(session_key@);
        self.drop_settled(resolution);
        proof {
            assert(self.mirror.opened(session_key@) == (MirrorView {
                conflicts: without_settled(full.conflicts, *resolution),
                ..full
            }));
        }
        let applied = conflict_resolution::merge_stats(&ctx.outcome);
        self.emit(ChangeEvent::ExternalChangeMerged { applied });
        Ok(())
    }

    fn drop_settled(&mut self, resolution: &Resolution)
        requires
            old(self).wf(),
        ensures
            final(self).wf(),
            forall|k: Seq<u8>| #[trigger]
                final(self).mirror.opened(k) == (MirrorView {
                    conflicts: without_settled(old(self).mirror.opened(k).conflicts, *resolution),
                    ..old(self).mirror.opened(k)
                }),
            *final(self) == (Engine { mirror: final(self).mirror, ..*old(self) }),
            final(self).mirror == (Mirror {
                conflicts: final(self).mirror.conflicts,
                ..old(self).mirror
            }),
    {
        let entries = conflict_resolution::resolved_entries(resolution);
        let ghost before = self.mirror.conflicts;
        let mut i: usize = 0;
        while i < entries.len()
            invariant
                i <= entries.len(),
                self.wf(),
                before == old(self).mirror.conflicts,
                *self == (Engine { mirror: self.mirror, ..*old(self) }),
                self.mirror == (Mirror { conflicts: self.mirror.conflicts, ..old(self).mirror }),
                forall|k: Seq<u8>, key: (Seq<char>, Uuid)| #[trigger]
                    self.mirror.conflicts.opened(k).contains_key(key) <==> before.opened(
                        k,
                    ).contains_key(key) && !entries@.take(i as int).contains(key.1),
                forall|k: Seq<u8>, key: (Seq<char>, Uuid)| #[trigger]
                    self.mirror.conflicts.opened(k).contains_key(key)
                        ==> self.mirror.conflicts.opened(k)[key] == before.opened(k)[key],
            decreases entries.len() - i,
        {
            let ghost mid = self.mirror.conflicts;
            let u: Uuid = entries[i];
            self.mirror.conflicts.drop_conflict_rows(u);
            proof {
                let less = entries@.take(i as int);
                let more = entries@.take(i + 1);
                order::one_more(entries@, i as int);
                assert forall|k: Seq<u8>, key: (Seq<char>, Uuid)| #[trigger]
                    self.mirror.conflicts.opened(k).contains_key(key) <==> before.opened(
                        k,
                    ).contains_key(key) && !more.contains(key.1) by {
                    assert(self.mirror.conflicts.opened(k) == conflict_rows::without_conflicts(
                        mid.opened(k),
                        u,
                    ));
                    assert(mid.opened(k).contains_key(key) <==> before.opened(k).contains_key(key)
                        && !less.contains(key.1));
                }
                assert forall|k: Seq<u8>, key: (Seq<char>, Uuid)| #[trigger]
                    self.mirror.conflicts.opened(k).contains_key(
                        key,
                    ) implies self.mirror.conflicts.opened(k)[key] == before.opened(k)[key] by {
                    assert(self.mirror.conflicts.opened(k) == conflict_rows::without_conflicts(
                        mid.opened(k),
                        u,
                    ));
                    assert(mid.opened(k).contains_key(key));
                }
            }
            i = i + 1;
        }
        proof {
            assert(entries@.take(entries@.len() as int) =~= entries@);
            assert forall|k: Seq<u8>| #[trigger] self.mirror.opened(k) == (MirrorView {
                conflicts: without_settled(old(self).mirror.opened(k).conflicts, *resolution),
                ..old(self).mirror.opened(k)
            }) by {
                assert(self.mirror.conflicts.opened(k) =~= without_settled(
                    before.opened(k),
                    *resolution,
                ));
            }
        }
    }

    // ---------------------------------------------------------- held conflicts

    /// The entries for which some device has a value held, ascending and each
    /// once: the badge.
    pub fn entries_with_parked_conflict(&self) -> (r: Vec<Uuid>)
        ensures
            order::ascending(r@),
            forall|u: Uuid| #[trigger]
                r@.contains(u) <==> exists|i: int|
                    0 <= i < self.mirror.conflicts.rows@.len() && (
                    #[trigger] self.mirror.conflicts.rows@[i]).entry_uuid == u,
    {
        self.mirror.conflicts.parked_conflict_uuids()
    }

    /// Drops every device's held value of an entry, and says how many there
    /// were.
    pub fn clear_parked_conflict_marker(&mut self, entry_uuid: Uuid) -> (r: u32)
        requires
            old(self).wf(),
        ensures
            final(self).wf(),
            forall|k: Seq<u8>| #[trigger]
                final(self).mirror.opened(k) == (MirrorView {
                    conflicts: conflict_rows::without_conflicts(
                        old(self).mirror.opened(k).conflicts,
                        entry_uuid,
                    ),
                    ..old(self).mirror.opened(k)
                }),
            r == (if old(self).mirror.conflicts.rows@.len()
                - final(self).mirror.conflicts.rows@.len() <= u32::MAX {
                old(self).mirror.conflicts.rows@.len() - final(self).mirror.conflicts.rows@.len()
            } else {
                u32::MAX as int
            }),
            *final(self) == (Engine { mirror: final(self).mirror, ..*old(self) }),
    {
        self.mirror.conflicts.drop_conflict_rows(entry_uuid)
    }

    // ---------------------------------------------------------------- the file

    /// The vault file as last written; `None` where none was.
    pub fn last_saved_kdbx_bytes(&self) -> (r: Option<Vec<u8>>)
        requires
            self.wf(),
        ensures
            r is Some <==> self.tables.settings@.contains_key(SettingKey::LastSavedKdbxBytes),
            r is Some ==> r->0@ == self.tables.settings@[SettingKey::LastSavedKdbxBytes],
    {
        self.tables.settings.get_blob(SettingKey::LastSavedKdbxBytes)
    }

    /// Keeps the vault file as written.
    pub fn set_last_saved_kdbx_bytes(&mut self, bytes: Vec<u8>)
        requires
            old(self).wf(),
        ensures
            final(self).wf(),
            final(self).tables.settings@ == old(self).tables.settings@.insert(
                SettingKey::LastSavedKdbxBytes,
                bytes@,
            ),
            *final(self) == (Engine {
                tables: MetaTables {
                    settings: final(self).tables.settings,
                    ..old(self).tables
                },
                ..*old(self)
            }),
    {
        self.tables.settings.set_blob(SettingKey::LastSavedKdbxBytes, bytes);
    }

    /// The vault file that the tables correspond to; `None` where none was
    /// recorded.
    pub fn kdbx_state_signature(&self) -> (r: Option<KdbxStateSignature>)
        ensures
            r == signature_of(self.signature),
    {
        match (self.signature.mtime_ms, self.signature.byte_count) {
            (Some(mtime_ms), Some(n)) => Some(
                KdbxStateSignature {
                    mtime_ms,
                    byte_count: if n >= 0 {
                        n as u64
                    } else {
                        0
                    },
                },
            ),
            _ => None,
        }
    }

    /// Records which vault file the tables correspond to.
    pub fn record_kdbx_state_signature(&mut self, sig: KdbxStateSignature)
        ensures
            *final(self) == (Engine { signature: rows_of(sig), ..*old(self) }),
    {
        let byte_count: i64 = if sig.byte_count <= 0x7fff_ffff_ffff_ffff {
            sig.byte_count as i64
        } else {
            i64::MAX
        };
        self.signature = SignatureRows {
            mtime_ms: Some(sig.mtime_ms),
            byte_count: Some(byte_count),
        };
    }

    // ------------------------------------------------------------- properties

    /// The recycle bin's identity as text, if a group is marked as the bin.
    pub fn recycle_bin_uuid(&self) -> (r: Option<String>)
        ensures
            match r {
                Some(t) => exists|u: Uuid| #[trigger]
                    properties::is_marked(mirror::group_views(self.mirror.groups@), u) && t@
                        == codec::uuid_text(u),
                None => forall|u: Uuid|
                    !properties::is_marked(mirror::group_views(self.mirror.groups@), u),
            },
    {
        match properties::read_recycle_bin_uuid(&self.mirror) {
            Some(u) => Some(codec::uuid_to_string(u)),
            None => None,
        }
    }

    /// Whether deleting moves to the recycle bin.
    pub fn recycle_bin_enabled(&self) -> (r: bool)
        requires
            self.wf(),
        ensures
            r == properties::bin_enabled(
                self.tables.settings@,
                mirror::group_views(self.mirror.groups@),
            ),
    {
        properties::read_recycle_bin_enabled(&self.tables.settings, &self.mirror)
    }

    /// What the properties sheet shows.
    pub fn database_metadata(
        &self,
        known_cipher: Option<KnownCipher>,
        parsed_kdf: Option<KdfParams>,
    ) -> (r: Result<DatabaseMetadata, EngineError>)
        requires
            self.wf(),
        ensures
            properties::sheet(self.tables, self.mirror, known_cipher, parsed_kdf, r),
    {
        properties::read_database_metadata(&self.tables, &self.mirror, known_cipher, parsed_kdf)
    }

    /// Most history records per entry.
    pub fn history_max_items(&self) -> (r: Result<i32, EngineError>)
        requires
            self.wf(),
        ensures
            match r {
                Ok(v) => properties::items_cap(self.tables.settings@) == Ok::<i32, Seq<char>>(v),
                Err(e) => properties::items_cap(self.tables.settings@) is Err
                    && settings::reports_invariant(
                    e,
                    properties::items_cap(self.tables.settings@)->Err_0,
                ),
            },
    {
        properties::read_history_max_items(&self.tables.settings)
    }

    /// Most bytes of history per entry.
    pub fn history_max_size(&self) -> (r: Result<i64, EngineError>)
        requires
            self.wf(),
        ensures
            match r {
                Ok(v) => properties::size_cap(self.tables.settings@) == Ok::<i64, Seq<char>>(v),
                Err(e) => properties::size_cap(self.tables.settings@) is Err
                    && settings::reports_invariant(
                    e,
                    properties::size_cap(self.tables.settings@)->Err_0,
                ),
            },
    {
        properties::read_history_max_size(&self.tables.settings)
    }

    fn tell_keys(&mut self, keys: Vec<String>)
        ensures
            final(self).outbox.deep_view() == told(
                old(self).outbox.deep_view(),
                old(self).observed,
                seq![ChangeView::MetaUpdated { keys: keys.deep_view() }],
            ),
            *final(self) == (Engine { outbox: final(self).outbox, ..*old(self) }),
    {
        self.emit(ChangeEvent::MetaUpdated { keys });
    }

    fn tell_key(&mut self, key: &str)
        ensures
            final(self).outbox.deep_view() == told(
                old(self).outbox.deep_view(),
                old(self).observed,
                seq![ChangeView::MetaUpdated { keys: seq![key@] }],
            ),
            *final(self) == (Engine { outbox: final(self).outbox, ..*old(self) }),
    {
        let mut keys: Vec<String> = Vec::new();
        keys.push(key.to_owned());
        assert(keys.deep_view() =~= seq![key@]);
        self.tell_keys(keys);
    }

    /// Sets whether deleting moves to the recycle bin, and which group is the
    /// bin. A group that is not there is refused.
    pub fn set_recycle_bin(&mut self, enabled: bool, group_uuid: Option<Uuid>) -> (r: Result<
        (),
        EngineError,
    >)
        requires
            old(self).wf(),
        ensures
            final(self).wf(),
            r is Ok <==> group_uuid is None || old(self).mirror.groups@.contains_key(group_uuid->0),
            r is Err ==> {
                &&& r->Err_0 matches EngineError::NotFound { entity } && entity@ == "group"@
                &&& *final(self) == *old(self)
            },
            r is Ok ==> {
                &&& mirror::group_views(final(self).mirror.groups@) == properties::with_bin(
                    mirror::group_views(old(self).mirror.groups@),
                    group_uuid,
                )
                &&& final(self).tables.settings@ == old(self).tables.settings@.insert(
                    SettingKey::RecycleBinEnabled,
                    seq![if enabled { 1u8 } else { 0u8 }],
                )
                &&& final(self).outbox.deep_view() == told(
                    old(self).outbox.deep_view(),
                    old(self).observed,
                    seq![
                        ChangeView::MetaUpdated {
                            keys: seq![
                                SettingKey::RecycleBinEnabled.stored_as(),
                                meta::KEY_RECYCLE_BIN_UUID@,
                            ],
                        },
                    ],
                )
                &&& *final(self) == (Engine {
                    mirror: Mirror { groups: final(self).mirror.groups, ..old(self).mirror },
                    tables: MetaTables {
                        settings: final(self).tables.settings,
                        ..old(self).tables
                    },
                    outbox: final(self).outbox,
                    ..*old(self)
                })
            },
    {
        match group_uuid {
            Some(u) => {
                if !self.mirror.group_exists(u) {
                    return Err(EngineError::NotFound { entity: "group" });
                }
                properties::write_recycle_bin_group(&mut self.mirror, u);
            },
            None => {
                properties::clear_recycle_bin_group(&mut self.mirror);
            },
        }
        properties::write_recycle_bin_enabled(&mut self.tables.settings, enabled);
        let mut keys: Vec<String> = Vec::new();
        keys.push(SettingKey::RecycleBinEnabled.name().to_owned());
        keys.push(meta::KEY_RECYCLE_BIN_UUID.to_owned());
        assert(keys.deep_view() =~= seq![
            SettingKey::RecycleBinEnabled.stored_as(),
            meta::KEY_RECYCLE_BIN_UUID@,
        ]);
        self.tell_keys(keys);
        Ok(())
    }

    /// Sets the most history records per entry.
    pub fn set_history_max_items(&mut self, max: i32)
        requires
            old(self).wf(),
        ensures
            final(self).wf(),
            final(self).tables.settings@ == old(self).tables.settings@.insert(
                SettingKey::HistoryMaxItems,
                settings::i32_bytes(max),
            ),
            final(self).outbox.deep_view() == told(
                old(self).outbox.deep_view(),
                old(self).observed,
                seq![
                    ChangeView::MetaUpdated { keys: seq![SettingKey::HistoryMaxItems.stored_as()] },
                ],
            ),
            *final(self) == (Engine {
                tables: MetaTables {
                    settings: final(self).tables.settings,
                    ..old(self).tables
                },
                outbox: final(self).outbox,
                ..*old(self)
            }),
    {
        self.tables.settings.set_i32(SettingKey::HistoryMaxItems, max);
        self.tell_key(SettingKey::HistoryMaxItems.name());
    }

    /// Sets the most bytes of history per entry.
    pub fn set_history_max_size(&mut self, max: i64)
        requires
            old(self).wf(),
        ensures
            final(self).wf(),
            final(self).tables.settings@ == old(self).tables.settings@.insert(
                SettingKey::HistoryMaxSize,
                settings::i64_bytes(max),
            ),
            final(self).outbox.deep_view() == told(
                old(self).outbox.deep_view(),
                old(self).observed,
                seq![
                    ChangeView::MetaUpdated { keys: seq![SettingKey::HistoryMaxSize.stored_as()] },
                ],
            ),
            *final(self) == (Engine {
                tables: MetaTables {
                    settings: final(self).tables.settings,
                    ..old(self).tables
                },
                outbox: final(self).outbox,
                ..*old(self)
            }),
    {
        self.tables.settings.set_i64(SettingKey::HistoryMaxSize, max);
        self.tell_key(SettingKey::HistoryMaxSize.name());
    }

    /// Adds an image to the pool of icons, unless its content is there already,
    /// and returns its identity as text. Only an image that was added is told.
    pub fn add_custom_icon(&mut self, png_bytes: &[u8], now_ms: i64) -> (r: Result<
        String,
        EngineError,
    >)
        requires
            old(self).wf(),
        ensures
            final(self).wf(),
            ({
                let before = old(self).tables.icons@;
                let digest = codec::sha256(png_bytes@);
                let uuid = properties::icon_identity(digest);
                match properties::first_with_digest(before, before.len(), digest) {
                    Some(i) => {
                        &&& final(self).tables.icons@ == before
                        &&& final(self).outbox.deep_view() == old(self).outbox.deep_view()
                        &&& match codec::uuid_parsed(before[i].uuid@) {
                            Ok(u) => r is Ok && r->Ok_0@ == codec::uuid_text(u),
                            Err(e) => r is Err && settings::reports_invariant(
                                r->Err_0,
                                "meta_custom_icon.uuid not a UUID: "@ + e,
                            ),
                        }
                    },
                    None => if properties::has_icon(before, codec::uuid_text(uuid)) {
                        &&& r is Err && rows::is_constraint(r->Err_0)
                        &&& final(self).tables.icons@ == before
                        &&& final(self).outbox.deep_view() == old(self).outbox.deep_view()
                    } else {
                        &&& r is Ok && r->Ok_0@ == codec::uuid_text(uuid)
                        &&& final(self).tables.icons@.len() == before.len() + 1
                        &&& final(self).tables.icons@.drop_last() == before
                        &&& final(self).tables.icons@.last().deep_view() == (meta::IconRowView {
                            uuid: codec::uuid_text(uuid),
                            name: Seq::empty(),
                            bytes: png_bytes@,
                            last_modified_at: Some(now_ms),
                        })
                        &&& final(self).outbox.deep_view() == told(
                            old(self).outbox.deep_view(),
                            old(self).observed,
                            seq![
                                ChangeView::MetaUpdated { keys: seq![meta::KEY_CUSTOM_ICONS@] },
                            ],
                        )
                    },
                }
            }),
            *final(self) == (Engine {
                tables: MetaTables { icons: final(self).tables.icons, ..old(self).tables },
                outbox: final(self).outbox,
                ..*old(self)
            }),
    {
        let (uuid, inserted) = properties::add_custom_icon_dedup(
            &mut self.tables.icons,
            png_bytes,
            now_ms,
        )?;
        if inserted {
            self.tell_key(meta::KEY_CUSTOM_ICONS);
        }
        Ok(codec::uuid_to_string(uuid))
    }

    /// The image with a given identity.
    pub fn custom_icon_bytes(&self, uuid: Uuid) -> (r: Option<Vec<u8>>)
        ensures
            r is Some <==> properties::has_icon(self.tables.icons@, codec::uuid_text(uuid)),
            r is Some ==> exists|i: int|
                0 <= i < self.tables.icons@.len() && (#[trigger] self.tables.icons@[i]).uuid@
                    == codec::uuid_text(uuid) && self.tables.icons@[i].bytes@ == r->0@,
    {
        properties::read_custom_icon_bytes(&self.tables.icons, uuid)
    }

    // ---------------------------------------------------------------- history

    /// Deletes one history record of an entry; the later ones move up. The
    /// tombstone, where there is one, is kept with the entry, so that other
    /// devices delete the record too. The live entry does not change otherwise.
    pub fn delete_history_at(
        &mut self,
        entry_uuid: Uuid,
        history_index: u32,
        tombstone: Option<&CustomDataItem>,
    ) -> (r: Result<(), EngineError>)
        requires
            old(self).wf(),
        ensures
            final(self).wf(),
            ({
                let entries = old(self).mirror.entries@;
                let known = entries.contains_key(entry_uuid);
                let there = known && history_index < entries[entry_uuid].history@.len();
                match r {
                    Ok(()) => {
                        &&& there
                        &&& final(self).mirror.entries@.dom() == entries.dom()
                        &&& forall|u: Uuid| u != entry_uuid && entries.contains_key(u)
                            ==> #[trigger] final(self).mirror.entries@[u] == entries[u]
                        &&& forall|k: Seq<u8>| #[trigger]
                            final(self).mirror.entries@[entry_uuid].opened(k) == (
                            mirror::RecordView {
                                history: entries[entry_uuid].opened(k).history.remove(
                                    history_index as int,
                                ),
                                custom_data: match tombstone {
                                    Some(item) => with_item(
                                        entries[entry_uuid].custom_data.deep_view(),
                                        rows::custom_data_row(item.deep_view()),
                                        entries[entry_uuid].custom_data@.len(),
                                    ),
                                    None => entries[entry_uuid].custom_data.deep_view(),
                                },
                                ..entries[entry_uuid].opened(k)
                            })
                        &&& final(self).outbox.deep_view() == told(
                            old(self).outbox.deep_view(),
                            old(self).observed,
                            seq![ChangeView::EntriesUpdated(seq![entry_uuid])],
                        )
                        &&& *final(self) == (Engine {
                            mirror: Mirror {
                                entries: final(self).mirror.entries,
                                ..old(self).mirror
                            },
                            outbox: final(self).outbox,
                            ..*old(self)
                        })
                    },
                    Err(e) => {
                        &&& !there
                        &&& e matches EngineError::NotFound { entity } && entity@ == (if known {
                            "history_snapshot"@
                        } else {
                            "entry"@
                        })
                        &&& final(self).mirror.entries@ == entries
                        &&& final(self).outbox == old(self).outbox
                        &&& *final(self) == (Engine {
                            mirror: Mirror {
                                entries: final(self).mirror.entries,
                                ..old(self).mirror
                            },
                            ..*old(self)
                        })
                    },
                }
            }),
    {
        let ghost entries = self.mirror.entries@;
        let length: usize = match self.mirror.entries.get(&entry_uuid) {
            Some(record) => record.history.len(),
            None => {
                return Err(EngineError::NotFound { entity: "entry" });
            },
        };
        if history_index as usize >= length {
            return Err(EngineError::NotFound { entity: "history_snapshot" });
        }
        match self.mirror.entries.remove(&entry_uuid) {
            Some(mut record) => {
                let ghost before = record;
                record.history.remove(history_index as usize);
                match tombstone {
                    Some(item) => {
                        put_item(&mut record.custom_data, rows::to_custom_data_row(item));
                    },
                    None => {},
                }
                proof {
                    assert forall|k: Seq<u8>| #[trigger] mirror::opened_history(
                        record.history@,
                        k,
                    ) == mirror::opened_history(before.history@, k).remove(
                        history_index as int,
                    ) by {
                        assert(mirror::opened_history(record.history@, k)
                            =~= mirror::opened_history(before.history@, k).remove(
                            history_index as int,
                        ));
                    }
                }
                self.mirror.entries.insert(entry_uuid, record);
                proof {
                    assert(self.mirror.entries@.dom() =~= entries.dom());
                }
            },
            None => {},
        }
        self.emit(ChangeEvent::EntriesUpdated(one(entry_uuid)));
        Ok(())
    }

    // ------------------------------------------------------- small changes

    /// Stamps an entry as used. Nothing else about it changes: no history
    /// record is kept, and the time of its last change stays.
    pub fn touch_entry(&mut self, entry_uuid: Uuid, now_ms: i64) -> (r: Result<(), EngineError>)
        requires
            old(self).wf(),
        ensures
            final(self).wf(),
            changes_one(
                *old(self),
                *final(self),
                r,
                entry_uuid,
                EntryRecord {
                    last_used_at: Some(now_ms),
                    ..old(self).mirror.entries@[entry_uuid]
                },
                ChangeView::EntryTouched { uuid: entry_uuid },
            ),
    {
        let mut record = self.take_record(entry_uuid)?;
        record.last_used_at = Some(now_ms);
        self.put_back(entry_uuid, record, ChangeEvent::EntryTouched { uuid: entry_uuid });
        Ok(())
    }

    /// Forgets when an entry was last used. Nothing else about it changes.
    pub fn clear_entry_last_access(&mut self, entry_uuid: Uuid) -> (r: Result<(), EngineError>)
        requires
            old(self).wf(),
        ensures
            final(self).wf(),
            changes_one(
                *old(self),
                *final(self),
                r,
                entry_uuid,
                EntryRecord { last_used_at: None, ..old(self).mirror.entries@[entry_uuid] },
                ChangeView::EntriesUpdated(seq![entry_uuid]),
            ),
    {
        let mut record = self.take_record(entry_uuid)?;
        record.last_used_at = None;
        self.put_back(entry_uuid, record, ChangeEvent::EntriesUpdated(one(entry_uuid)));
        Ok(())
    }

    /// Gives an entry an icon of the vault's pool, as fetching a site's icon
    /// does. It is no edit: no history record is kept, and the time of the last
    /// change stays.
    pub fn link_entry_custom_icon(&mut self, entry_uuid: Uuid, icon_uuid: Uuid) -> (r: Result<
        (),
        EngineError,
    >)
        requires
            old(self).wf(),
        ensures
            final(self).wf(),
            changes_one(
                *old(self),
                *final(self),
                r,
                entry_uuid,
                EntryRecord {
                    icon_custom_uuid: Some(icon_uuid),
                    ..old(self).mirror.entries@[entry_uuid]
                },
                ChangeView::EntriesUpdated(seq![entry_uuid]),
            ),
    {
        let mut record = self.take_record(entry_uuid)?;
        record.icon_custom_uuid = Some(icon_uuid);
        self.put_back(entry_uuid, record, ChangeEvent::EntriesUpdated(one(entry_uuid)));
        Ok(())
    }

    fn take_record(&mut self, entry_uuid: Uuid) -> (r: Result<EntryRecord, EngineError>)
        ensures
            match r {
                Ok(record) => {
                    &&& old(self).mirror.entries@.contains_key(entry_uuid)
                    &&& record == old(self).mirror.entries@[entry_uuid]
                },
                Err(_) => {
                    &&& !old(self).mirror.entries@.contains_key(entry_uuid)
                    &&& reading::lacks(r, "entry"@)
                },
            },
            r is Err ==> final(self).mirror.entries@ == old(self).mirror.entries@,
            forall|record: EntryRecord| #[trigger]
                final(self).mirror.entries@.insert(entry_uuid, record)
                    == old(self).mirror.entries@.insert(entry_uuid, record),
            *final(self) == (Engine {
                mirror: Mirror { entries: final(self).mirror.entries, ..old(self).mirror },
                ..*old(self)
            }),
    {
        match self.mirror.entries.remove(&entry_uuid) {
            Some(record) => Ok(record),
            None => Err(EngineError::NotFound { entity: "entry" }),
        }
    }

    fn put_back(&mut self, entry_uuid: Uuid, record: EntryRecord, event: ChangeEvent)
        ensures
            final(self).mirror.entries@ == old(self).mirror.entries@.insert(entry_uuid, record),
            final(self).outbox.deep_view() == told(
                old(self).outbox.deep_view(),
                old(self).observed,
                seq![event.deep_view()],
            ),
            *final(self) == (Engine {
                mirror: Mirror { entries: final(self).mirror.entries, ..old(self).mirror },
                outbox: final(self).outbox,
                ..*old(self)
            }),
    {
        self.mirror.entries.insert(entry_uuid, record);
        self.emit(event);
    }

    // ------------------------------------------------------ changes to be told

    fn tell(&mut self, result: Result<(), EngineError>, event: ChangeEvent) -> (r: Result<
        (),
        EngineError,
    >)
        ensures
            tells_outcome(*old(self), *final(self), result, r, seq![event.deep_view()]),
    {
        result?;
        self.emit(event);
        Ok(())
    }

    /// Tells of a new entry. `result` is what the tables said.
    pub fn create_entry(
        &mut self,
        result: Result<Uuid, EngineError>,
    ) -> (r: Result<Uuid, EngineError>)
        ensures
            r == result,
            tells_outcome(
                *old(self),
                *final(self),
                result,
                r,
                seq![ChangeView::EntriesAdded(seq![result->Ok_0])],
            ),
    {
        let uuid = result?;
        self.emit(ChangeEvent::EntriesAdded(one(uuid)));
        Ok(uuid)
    }

    /// Tells of a changed entry. `result` is what the tables said.
    pub fn update_entry(
        &mut self,
        uuid: Uuid,
        result: Result<(), EngineError>,
    ) -> (r: Result<(), EngineError>)
        ensures
            tells_outcome(
                *old(self),
                *final(self),
                result,
                r,
                seq![ChangeView::EntriesUpdated(seq![uuid])],
            ),
    {
        self.tell(result, ChangeEvent::EntriesUpdated(one(uuid)))
    }

    /// Tells of an entry saved as a whole. `result` is what the tables said.
    pub fn save_entry(
        &mut self,
        uuid: Uuid,
        result: Result<(), EngineError>,
    ) -> (r: Result<(), EngineError>)
        ensures
            tells_outcome(
                *old(self),
                *final(self),
                result,
                r,
                seq![ChangeView::EntriesUpdated(seq![uuid])],
            ),
    {
        self.tell(result, ChangeEvent::EntriesUpdated(one(uuid)))
    }

    /// Tells of a changed plain field. `result` is what the tables said.
    pub fn set_non_protected_custom_field(
        &mut self,
        uuid: Uuid,
        result: Result<(), EngineError>,
    ) -> (r: Result<(), EngineError>)
        ensures
            tells_outcome(
                *old(self),
                *final(self),
                result,
                r,
                seq![ChangeView::EntriesUpdated(seq![uuid])],
            ),
    {
        self.tell(result, ChangeEvent::EntriesUpdated(one(uuid)))
    }

    /// Tells of a removed field. `result` is what the tables said.
    pub fn remove_custom_field(
        &mut self,
        uuid: Uuid,
        result: Result<(), EngineError>,
    ) -> (r: Result<(), EngineError>)
        ensures
            tells_outcome(
                *old(self),
                *final(self),
                result,
                r,
                seq![ChangeView::EntriesUpdated(seq![uuid])],
            ),
    {
        self.tell(result, ChangeEvent::EntriesUpdated(one(uuid)))
    }

    /// Tells of an entry set back to an earlier record. `result` is what the tables said.
    pub fn restore_entry_from_history(
        &mut self,
        uuid: Uuid,
        result: Result<(), EngineError>,
    ) -> (r: Result<(), EngineError>)
        ensures
            tells_outcome(
                *old(self),
                *final(self),
                result,
                r,
                seq![ChangeView::EntriesUpdated(seq![uuid])],
            ),
    {
        self.tell(result, ChangeEvent::EntriesUpdated(one(uuid)))
    }

    /// Tells of an entry that lost its own icon. `result` is what the tables said.
    pub fn clear_entry_custom_icon(
        &mut self,
        uuid: Uuid,
        result: Result<(), EngineError>,
    ) -> (r: Result<(), EngineError>)
        ensures
            tells_outcome(
                *old(self),
                *final(self),
                result,
                r,
                seq![ChangeView::EntriesUpdated(seq![uuid])],
            ),
    {
        self.tell(result, ChangeEvent::EntriesUpdated(one(uuid)))
    }

    /// Tells of an entry moved to the recycle bin. `result` is what the tables said.
    pub fn recycle_entry(
        &mut self,
        uuid: Uuid,
        result: Result<(), EngineError>,
    ) -> (r: Result<(), EngineError>)
        ensures
            tells_outcome(
                *old(self),
                *final(self),
                result,
                r,
                seq![ChangeView::EntriesRecycled(seq![uuid])],
            ),
    {
        self.tell(result, ChangeEvent::EntriesRecycled(one(uuid)))
    }

    /// Tells of an entry taken back out of the recycle bin. `result` is what the tables said.
    pub fn restore_entry(
        &mut self,
        uuid: Uuid,
        result: Result<(), EngineError>,
    ) -> (r: Result<(), EngineError>)
        ensures
            tells_outcome(
                *old(self),
                *final(self),
                result,
                r,
                seq![ChangeView::EntriesRestored(seq![uuid])],
            ),
    {
        self.tell(result, ChangeEvent::EntriesRestored(one(uuid)))
    }

    /// Tells of an added file. `result` is what the tables said.
    pub fn attach_file(
        &mut self,
        uuid: Uuid,
        result: Result<(), EngineError>,
    ) -> (r: Result<(), EngineError>)
        ensures
            tells_outcome(
                *old(self),
                *final(self),
                result,
                r,
                seq![ChangeView::AttachmentsChanged(seq![uuid])],
            ),
    {
        self.tell(result, ChangeEvent::AttachmentsChanged(one(uuid)))
    }

    /// Tells of a replaced file. `result` is what the tables said.
    pub fn set_attachment(
        &mut self,
        uuid: Uuid,
        result: Result<(), EngineError>,
    ) -> (r: Result<(), EngineError>)
        ensures
            tells_outcome(
                *old(self),
                *final(self),
                result,
                r,
                seq![ChangeView::AttachmentsChanged(seq![uuid])],
            ),
    {
        self.tell(result, ChangeEvent::AttachmentsChanged(one(uuid)))
    }

    /// Tells of a removed file. `result` is what the tables said.
    pub fn remove_attachment(
        &mut self,
        uuid: Uuid,
        result: Result<(), EngineError>,
    ) -> (r: Result<(), EngineError>)
        ensures
            tells_outcome(
                *old(self),
                *final(self),
                result,
                r,
                seq![ChangeView::AttachmentsChanged(seq![uuid])],
            ),
    {
        self.tell(result, ChangeEvent::AttachmentsChanged(one(uuid)))
    }

    /// Tells of a changed group. `result` is what the tables said.
    pub fn update_group(
        &mut self,
        uuid: Uuid,
        result: Result<(), EngineError>,
    ) -> (r: Result<(), EngineError>)
        ensures
            tells_outcome(
                *old(self),
                *final(self),
                result,
                r,
                seq![ChangeView::GroupsUpdated(seq![uuid])],
            ),
    {
        self.tell(result, ChangeEvent::GroupsUpdated(one(uuid)))
    }

    /// Tells of a group moved to the recycle bin; what is below it is not told apart. `result` is what the tables said.
    pub fn recycle_group(
        &mut self,
        uuid: Uuid,
        result: Result<(), EngineError>,
    ) -> (r: Result<(), EngineError>)
        ensures
            tells_outcome(
                *old(self),
                *final(self),
                result,
                r,
                seq![ChangeView::GroupsRecycled(seq![uuid])],
            ),
    {
        self.tell(result, ChangeEvent::GroupsRecycled(one(uuid)))
    }

    /// Tells of a group taken back out of the recycle bin. `result` is what the tables said.
    pub fn restore_group(
        &mut self,
        uuid: Uuid,
        result: Result<(), EngineError>,
    ) -> (r: Result<(), EngineError>)
        ensures
            tells_outcome(
                *old(self),
                *final(self),
                result,
                r,
                seq![ChangeView::GroupsRestored(seq![uuid])],
            ),
    {
        self.tell(result, ChangeEvent::GroupsRestored(one(uuid)))
    }

    /// Tells of a new group. `result` is what the tables said.
    pub fn create_group(
        &mut self,
        result: Result<Uuid, EngineError>,
    ) -> (r: Result<Uuid, EngineError>)
        ensures
            r == result,
            tells_outcome(
                *old(self),
                *final(self),
                result,
                r,
                seq![ChangeView::GroupsAdded(seq![result->Ok_0])],
            ),
    {
        let uuid = result?;
        self.emit(ChangeEvent::GroupsAdded(one(uuid)));
        Ok(uuid)
    }

    /// Tells of siblings in a new order. `result` is what the tables said.
    pub fn reorder_group(
        &mut self,
        result: Result<Vec<Uuid>, EngineError>,
    ) -> (r: Result<(), EngineError>)
        ensures
            tells_outcome(
                *old(self),
                *final(self),
                result,
                r,
                seq![ChangeView::GroupsReordered(result->Ok_0@)],
            ),
    {
        let siblings = result?;
        self.emit(ChangeEvent::GroupsReordered(siblings));
        Ok(())
    }

    /// Tells of a new smart folder. `result` is what the tables said.
    pub fn create_smart_folder(
        &mut self,
        result: Result<i64, EngineError>,
    ) -> (r: Result<i64, EngineError>)
        ensures
            r == result,
            tells_outcome(
                *old(self),
                *final(self),
                result,
                r,
                seq![ChangeView::SmartFolderCreated(result->Ok_0)],
            ),
    {
        let id = result?;
        self.emit(ChangeEvent::SmartFolderCreated(id));
        Ok(id)
    }

    /// Tells of a changed smart folder. `result` is what the tables said.
    pub fn update_smart_folder(
        &mut self,
        id: i64,
        result: Result<(), EngineError>,
    ) -> (r: Result<(), EngineError>)
        ensures
            tells_outcome(
                *old(self),
                *final(self),
                result,
                r,
                seq![ChangeView::SmartFolderUpdated(id)],
            ),
    {
        self.tell(result, ChangeEvent::SmartFolderUpdated(id))
    }

    /// Tells of a deleted smart folder. `result` is what the tables said.
    pub fn delete_smart_folder(
        &mut self,
        id: i64,
        result: Result<(), EngineError>,
    ) -> (r: Result<(), EngineError>)
        ensures
            tells_outcome(
                *old(self),
                *final(self),
                result,
                r,
                seq![ChangeView::SmartFolderDeleted(id)],
            ),
    {
        self.tell(result, ChangeEvent::SmartFolderDeleted(id))
    }

    /// Tells of a changed sealed field. `result` is what the tables said.
    pub fn set_protected_field(
        &mut self,
        uuid: Uuid,
        field_name: &str,
        result: Result<(), EngineError>,
    ) -> (r: Result<(), EngineError>)
        ensures
            tells_outcome(
                *old(self),
                *final(self),
                result,
                r,
                seq![ChangeView::ProtectedFieldChanged { entry_uuid: uuid, field_name: field_name@ }],
            ),
    {
        self.tell(
            result,
            ChangeEvent::ProtectedFieldChanged {
                entry_uuid: uuid,
                field_name: field_name.to_owned(),
            },
        )
    }

    /// Tells of an entry's new tags, and that the entry changed. `result` is what the tables said.
    pub fn set_tags(
        &mut self,
        uuid: Uuid,
        result: Result<(), EngineError>,
    ) -> (r: Result<(), EngineError>)
        ensures
            tells_outcome(
                *old(self),
                *final(self),
                result,
                r,
                seq![ ChangeView::TagsChanged(seq![uuid]), ChangeView::EntriesUpdated(seq![uuid]), ],
            ),
    {
        result?;
        let ghost before = self.outbox.deep_view();
        self.emit(ChangeEvent::TagsChanged(one(uuid)));
        self.emit(ChangeEvent::EntriesUpdated(one(uuid)));
        proof {
            assert(self.outbox.deep_view() =~= told(
                before,
                self.observed,
                seq![
                    ChangeView::TagsChanged(seq![uuid]),
                    ChangeView::EntriesUpdated(seq![uuid]),
                ],
            ));
        }
        Ok(())
    }

    /// Tells of an entry deleted for good. `result` is what the tables said: the group it was in.
    pub fn delete_entry(
        &mut self,
        uuid: Uuid,
        result: Result<Uuid, EngineError>,
    ) -> (r: Result<(), EngineError>)
        ensures
            tells_outcome(
                *old(self),
                *final(self),
                result,
                r,
                seq![ChangeView::EntriesDeleted(seq![EntryDeletionInfo { uuid, previous_group: result->Ok_0 }])],
            ),
    {
        let previous_group = result?;
        self.emit(ChangeEvent::EntriesDeleted(one(EntryDeletionInfo { uuid, previous_group })));
        Ok(())
    }

    /// Tells of an entry that changed group. `result` is what the tables said: the move.
    pub fn move_entry(
        &mut self,
        result: Result<EntryMove, EngineError>,
    ) -> (r: Result<(), EngineError>)
        ensures
            tells_outcome(
                *old(self),
                *final(self),
                result,
                r,
                seq![ChangeView::EntriesMoved(seq![result->Ok_0])],
            ),
    {
        let step = result?;
        self.emit(ChangeEvent::EntriesMoved(one(step)));
        Ok(())
    }

    /// Tells of a group that changed parent. `result` is what the tables said: the move.
    pub fn move_group(
        &mut self,
        result: Result<GroupMove, EngineError>,
    ) -> (r: Result<(), EngineError>)
        ensures
            tells_outcome(
                *old(self),
                *final(self),
                result,
                r,
                seq![ChangeView::GroupsMoved(seq![result->Ok_0])],
            ),
    {
        let step = result?;
        self.emit(ChangeEvent::GroupsMoved(one(step)));
        Ok(())
    }

    /// Tells that the vault was written to its file. `result` is how the writing went.
    pub fn save_to_kdbx(
        &mut self,
        result: Result<(), EngineError>,
    ) -> (r: Result<(), EngineError>)
        ensures
            tells_outcome(*old(self), *final(self), result, r, seq![ChangeView::SaveCompleted]),
    {
        self.tell(result, ChangeEvent::SaveCompleted)
    }

    /// Tells of an entry taken over from elsewhere, and of its icon if that was
    /// new to the pool. `result` is what the tables said.
    pub fn import_entry(&mut self, result: Result<(Uuid, bool), EngineError>) -> (r: Result<
        Uuid,
        EngineError,
    >)
        ensures
            match result {
                Ok((uuid, icon_inserted)) => {
                    &&& r == Ok::<Uuid, EngineError>(uuid)
                    &&& final(self).outbox.deep_view() == told(
                        old(self).outbox.deep_view(),
                        old(self).observed,
                        seq![ChangeView::EntriesAdded(seq![uuid])] + (if icon_inserted {
                            seq![ChangeView::MetaUpdated { keys: seq![meta::KEY_CUSTOM_ICONS@] }]
                        } else {
                            Seq::empty()
                        }),
                    )
                },
                Err(e) => r == Err::<Uuid, EngineError>(e) && final(self).outbox == old(
                    self,
                ).outbox,
            },
            *final(self) == (Engine { outbox: final(self).outbox, ..*old(self) }),
    {
        let (uuid, icon_inserted) = result?;
        let ghost before = self.outbox.deep_view();
        self.emit(ChangeEvent::EntriesAdded(one(uuid)));
        if icon_inserted {
            self.tell_key(meta::KEY_CUSTOM_ICONS);
        }
        proof {
            assert(self.outbox.deep_view() =~= told(
                before,
                self.observed,
                seq![ChangeView::EntriesAdded(seq![uuid])] + (if icon_inserted {
                    seq![ChangeView::MetaUpdated { keys: seq![meta::KEY_CUSTOM_ICONS@] }]
                } else {
                    Seq::empty()
                }),
            ));
        }
        Ok(uuid)
    }

    /// Tells of a recycle bin that was made because there was none. `existed`
    /// says whether one was there before; `result` is what the tables said: the
    /// bin's identity as text, if there is one now.
    pub fn ensure_recycle_bin(
        &mut self,
        existed: bool,
        result: Result<Option<String>, EngineError>,
    ) -> (r: Result<Option<String>, EngineError>)
        ensures
            r == result,
            final(self).outbox.deep_view() == (match result {
                Ok(Some(t)) => if !existed && codec::uuid_parsed(t@) is Ok {
                    told(
                        old(self).outbox.deep_view(),
                        old(self).observed,
                        seq![ChangeView::GroupsAdded(seq![codec::uuid_parsed(t@)->Ok_0])],
                    )
                } else {
                    old(self).outbox.deep_view()
                },
                _ => old(self).outbox.deep_view(),
            }),
            *final(self) == (Engine { outbox: final(self).outbox, ..*old(self) }),
    {
        let bin = result?;
        if !existed {
            if let Some(t) = &bin {
                if let Ok(uuid) = codec::parse_uuid(t.as_str()) {
                    self.emit(ChangeEvent::GroupsAdded(one(uuid)));
                }
            }
        }
        Ok(bin)
    }

    /// Tells of a deleted group and of everything that went with it, entries
    /// first. `result` is what the tables said.
    pub fn delete_group(&mut self, result: Result<DeletedSubtree, EngineError>) -> (r: Result<
        (),
        EngineError,
    >)
        ensures
            match result {
                Ok(gone) => {
                    &&& r is Ok
                    &&& final(self).outbox.deep_view() == told(
                        old(self).outbox.deep_view(),
                        old(self).observed,
                        (if gone.deleted_entries@.len() > 0 {
                            seq![ChangeView::EntriesDeleted(gone.deleted_entries@)]
                        } else {
                            Seq::empty()
                        }) + seq![ChangeView::GroupsDeleted(gone.deleted_groups@)],
                    )
                },
                Err(e) => r == Err::<(), EngineError>(e) && final(self).outbox == old(self).outbox,
            },
            *final(self) == (Engine { outbox: final(self).outbox, ..*old(self) }),
    {
        let gone = result?;
        let ghost before = self.outbox.deep_view();
        let ghost entries = gone.deleted_entries@;
        let ghost groups = gone.deleted_groups@;
        if gone.deleted_entries.len() > 0 {
            self.emit(ChangeEvent::EntriesDeleted(gone.deleted_entries));
        }
        self.emit(ChangeEvent::GroupsDeleted(gone.deleted_groups));
        proof {
            assert(self.outbox.deep_view() =~= told(
                before,
                self.observed,
                (if entries.len() > 0 {
                    seq![ChangeView::EntriesDeleted(entries)]
                } else {
                    Seq::empty()
                }) + seq![ChangeView::GroupsDeleted(groups)],
            ));
        }
        Ok(())
    }
}

fn put_item(items: &mut Vec<rows::CustomDataRow>, item: rows::CustomDataRow)
    ensures
        final(items).deep_view() == with_item(
            old(items).deep_view(),
            item.deep_view(),
            old(items)@.len(),
        ),
{
    let ghost iv = items.deep_view();
    let mut n: usize = items.len();
    while n > 0
        invariant
            n <= items.len(),
            iv == items.deep_view(),
            *items == *old(items),
            with_item(iv, item.deep_view(), n as nat) == with_item(
                iv,
                item.deep_view(),
                iv.len(),
            ),
        decreases n,
    {
        if crate::text::same_text(items[n - 1].key.as_str(), item.key.as_str()) {
            items.set(n - 1, item);
            proof {
                assert(items.deep_view() =~= iv.update(n - 1, item.deep_view()));
            }
            return ;
        }
        n = n - 1;
    }
    items.push(item);
    proof {
        assert(items.deep_view() =~= iv.push(item.deep_view()));
    }
}

/// The record of an entry's history that is to be deleted, and the entry, for
/// the tombstone to be made from.
pub fn history_record<'a>(v: &'a Vault, entry_uuid: Uuid, history_index: u32) -> (r: Result<
    (&'a Entry, usize),
    EngineError,
>)
    ensures
        ({
            let at = conflict_resolution::met_at(&v.root, entry_uuid);
            let entry = crate::vault::placed_entries(&v.root, None, false)[at->0].entry;
            match r {
                Ok((e, i)) => at is Some && e == entry && i == history_index && i
                    < entry.history@.len(),
                Err(err) => {
                    &&& at is Some ==> history_index >= entry.history@.len()
                    &&& err matches EngineError::NotFound { entity } && entity@ == (if at is Some {
                        "history_snapshot"@
                    } else {
                        "entry"@
                    })
                },
            }
        }),
{
    match conflict_resolution::find_entry_in_group(&v.root, entry_uuid) {
        None => Err(EngineError::NotFound { entity: "entry" }),
        Some(entry) => {
            if history_index as usize >= entry.history.len() {
                Err(EngineError::NotFound { entity: "history_snapshot" })
            } else {
                Ok((entry, history_index as usize))
            }
        },
    }
}

} // verus!
