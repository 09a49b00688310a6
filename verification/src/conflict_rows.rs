//! Held conflicts: the rows that keep other devices' divergent values.
//!
//! One row per device and entry. A row is written when a device's value
//! genuinely conflicts with ours, refreshed on every later pull from that
//! device, and dropped when the two sides agree again or the conflict is
//! settled.

use vstd::prelude::*;
use vstd::utf8::*;

use crate::codec;
use crate::codec::Uuid;
use crate::crypto;
use crate::crypto::{NonceSource, SessionKey};
use crate::error::{EngineError, ProjectionError};
use crate::model::StrengthBucket;
use crate::order;
use crate::order::TextKeyed;
use crate::rows;
use crate::rows::{FieldSet, FieldSetView, PlainFieldRow, ProtectedRow, PASSWORD_FIELD};
use crate::table;
use crate::table::Keyed;
use crate::text;
use crate::time;
use crate::vault;
use crate::vault::{
    ContentView, CustomField, CustomFieldView, Entry, EntryContent, EntryView, Strength,
    Timestamps,
};

verus! {

/// One device's value of one entry: the rows of `conflict_entry` and its
/// child tables.
#[derive(Debug)]
pub struct ConflictRecord {
    /// The device.
    pub owner: String,
    /// The entry.
    pub entry_uuid: Uuid,
    /// Placement; not recorded.
    pub group_uuid: Option<Uuid>,
    /// Title.
    pub title: String,
    /// User name.
    pub username: String,
    /// URL.
    pub url: String,
    /// Notes.
    pub notes: String,
    /// Standard icon number.
    pub icon_index: i64,
    /// Icon of the vault's own pool, as text.
    pub icon_custom_uuid: Option<String>,
    /// Creation, in milliseconds.
    pub created_at: Option<i64>,
    /// Last change, in milliseconds.
    pub modified_at: Option<i64>,
    /// Last read, in milliseconds.
    pub accessed_at: Option<i64>,
    /// Expiry, in milliseconds.
    pub expires_at: Option<i64>,
    /// Sealed and plain fields.
    pub fields: FieldSet,
}

/// What a [`ConflictRecord`] holds under a key, apart from its primary key.
#[verifier::ext_equal]
pub struct ConflictView {
    pub group_uuid: Option<Uuid>,
    pub title: Seq<char>,
    pub username: Seq<char>,
    pub url: Seq<char>,
    pub notes: Seq<char>,
    pub icon_index: i64,
    pub icon_custom_uuid: Option<Seq<char>>,
    pub created_at: Option<i64>,
    pub modified_at: Option<i64>,
    pub accessed_at: Option<i64>,
    pub expires_at: Option<i64>,
    pub fields: FieldSetView,
}

impl Keyed for ConflictRecord {
    type Key = (Seq<char>, Uuid);

    type Row = ConflictView;

    open spec fn row_key(self) -> (Seq<char>, Uuid) {
        (self.owner@, self.entry_uuid)
    }

    open spec fn row_view(self, session_key: Seq<u8>) -> ConflictView {
        ConflictView {
            group_uuid: self.group_uuid,
            title: self.title@,
            username: self.username@,
            url: self.url@,
            notes: self.notes@,
            icon_index: self.icon_index,
            icon_custom_uuid: self.icon_custom_uuid.deep_view(),
            created_at: self.created_at,
            modified_at: self.modified_at,
            accessed_at: self.accessed_at,
            expires_at: self.expires_at,
            fields: self.fields.opened(session_key),
        }
    }
}

/// The row that holds an entry's content for the resolver.
pub open spec fn conflict_of(e: EntryView) -> ConflictView {
    let c = e.content;
    ConflictView {
        group_uuid: None,
        title: c.title,
        username: c.username,
        url: c.url,
        notes: c.notes,
        icon_index: c.icon_id as i64,
        icon_custom_uuid: match c.custom_icon_uuid {
            Some(u) => Some(codec::uuid_text(u)),
            None => None,
        },
        created_at: time::optional_millis(c.times.creation_time),
        modified_at: time::optional_millis(c.times.last_modification_time),
        accessed_at: time::optional_millis(c.times.last_access_time),
        expires_at: rows::expiry_of(c.times),
        fields: rows::fields_of(c),
    }
}

/// Whether the stored identity of the icon reads back.
pub open spec fn icon_parses(record: ConflictRecord, e: EntryView) -> bool {
    e.content.custom_icon_uuid is Some ==> record.icon_custom_uuid is Some
        && codec::uuid_parsed(record.icon_custom_uuid->0@) is Ok && codec::uuid_parsed(
        record.icon_custom_uuid->0@,
    )->Ok_0 == e.content.custom_icon_uuid->0
}

/// Builds the row that holds a device's value of an entry. History, tags,
/// files and derived columns are not kept. Fails when field names collide, or
/// when sealing fails.
pub fn build_conflict(
    owner: &str,
    entry: &Entry,
    session_key: &SessionKey,
    nonces: &mut NonceSource,
) -> (r: Result<ConflictRecord, EngineError>)
    ensures
        r is Ok ==> rows::storable_fields(entry.deep_view().content),
        r is Ok ==> r->Ok_0.row_key() == (owner@, entry.id),
        r is Ok ==> r->Ok_0.row_view(session_key@) == conflict_of(entry.deep_view()),
        r is Ok ==> icon_parses(r->Ok_0, entry.deep_view()),
        r is Ok ==> crypto::carries_nonces(
            rows::blobs_in(r->Ok_0.fields.protected@),
            old(nonces).drawn@,
        ),
        r is Ok ==> r->Ok_0.fields.protected@.len() == rows::content_seals(
            entry.deep_view().content,
        ),
        r is Ok ==> final(nonces).drawn@ == crypto::left_of(
            old(nonces).drawn@,
            rows::content_seals(entry.deep_view().content),
        ),
        r is Err ==> rows::seal_refused(
            r->Err_0,
            entry.deep_view().content,
            old(nonces).drawn@.len(),
        ) || (rows::is_constraint(r->Err_0) && !rows::storable_fields(entry.deep_view().content)),
        crypto::spent(old(nonces).drawn@, final(nonces).drawn@),
{
    let c = &entry.content;
    let fields = rows::seal_fields(c, session_key, nonces)?;
    let icon_custom_uuid: Option<String> = match c.custom_icon_uuid {
        Some(u) => Some(codec::uuid_to_string(u)),
        None => None,
    };
    Ok(
        ConflictRecord {
            owner: owner.to_owned(),
            entry_uuid: entry.id,
            group_uuid: None,
            title: c.title.clone(),
            username: c.username.clone(),
            url: c.url.clone(),
            notes: c.notes.clone(),
            icon_index: c.icon_id as i64,
            icon_custom_uuid,
            created_at: time::optional_dt_to_ms(c.times.creation_time),
            modified_at: time::optional_dt_to_ms(c.times.last_modification_time),
            accessed_at: time::optional_dt_to_ms(c.times.last_access_time),
            expires_at: rows::expiry_ms(&c.times),
            fields,
        },
    )
}

/// The table of held conflicts.
#[derive(Debug)]
pub struct ConflictTable {
    /// Rows, with distinct primary keys.
    pub rows: Vec<ConflictRecord>,
}

/// Whether rows lost at most the one with the given key.
pub open spec fn only_drops(
    before: Seq<ConflictRecord>,
    after: Seq<ConflictRecord>,
    key: (Seq<char>, Uuid),
) -> bool {
    forall|i: int|
        0 <= i < after.len() ==> before.contains(#[trigger] after[i]) && after[i].row_key() != key
}

impl ConflictTable {
    /// Whether the primary keys are distinct.
    pub open spec fn wf(self) -> bool {
        table::distinct_rows(self.rows@)
    }

    /// The table as a map from device and entry to the row's contents.
    pub open spec fn opened(self, session_key: Seq<u8>) -> Map<(Seq<char>, Uuid), ConflictView> {
        table::as_map(self.rows@, session_key)
    }

    /// An empty table.
    pub fn new() -> (r: ConflictTable)
        ensures
            r.wf(),
            r.rows@.len() == 0,
            forall|k: Seq<u8>| #[trigger] r.opened(k) == Map::<(Seq<char>, Uuid), ConflictView>::empty(),
    {
        ConflictTable { rows: Vec::new() }
    }

    fn position(&self, owner: &str, entry_uuid: Uuid) -> (r: Option<usize>)
        ensures
            match r {
                Some(i) => i < self.rows@.len() && self.rows@[i as int].row_key() == (
                    owner@,
                    entry_uuid,
                ),
                None => !table::has_row(self.rows@, (owner@, entry_uuid)),
            },
    {
        let mut i: usize = 0;
        while i < self.rows.len()
            invariant
                i <= self.rows.len(),
                forall|k: int|
                    0 <= k < i ==> (#[trigger] self.rows@[k]).row_key() != (owner@, entry_uuid),
            decreases self.rows.len() - i,
        {
            if self.rows[i].entry_uuid == entry_uuid && text::same_text(
                self.rows[i].owner.as_str(),
                owner,
            ) {
                return Some(i);
            }
            i = i + 1;
        }
        None
    }

    /// Whether a device has a row for an entry.
    pub fn holds(&self, owner: &str, entry_uuid: Uuid) -> (r: bool)
        ensures
            r == table::has_row(self.rows@, (owner@, entry_uuid)),
    {
        self.position(owner, entry_uuid).is_some()
    }

    /// Drops one device's row for one entry, if there is one.
    pub fn clear_conflict_rows(&mut self, owner: &str, entry_uuid: Uuid)
        requires
            old(self).wf(),
        ensures
            final(self).wf(),
            forall|k: Seq<u8>|
                #[trigger] final(self).opened(k) == old(self).opened(k).remove((owner@, entry_uuid)),
            !table::has_row(final(self).rows@, (owner@, entry_uuid)),
            only_drops(old(self).rows@, final(self).rows@, (owner@, entry_uuid)),
    {
        let ghost before = self.rows@;
        match self.position(owner, entry_uuid) {
            Some(i) => {
                self.rows.remove(i);
                proof {
                    assert forall|k: int| 0 <= k < self.rows@.len() implies before.contains(
                        #[trigger] self.rows@[k],
                    ) by {
                        if k < i {
                            assert(before[k] == self.rows@[k]);
                        } else {
                            assert(before[k + 1] == self.rows@[k]);
                        }
                    }
                    assert forall|k: Seq<u8>| #[trigger]
                        self.opened(k) == old(self).opened(k).remove((owner@, entry_uuid)) by {
                        table::map_remove(before, i as int, k);
                    }
                    table::map_remove(before, i as int, Seq::empty());
                }
            },
            None => {
                proof {
                    assert forall|k: int| 0 <= k < self.rows@.len() implies before.contains(
                        #[trigger] self.rows@[k],
                    ) by {
                        assert(before[k] == self.rows@[k]);
                    }
                    assert forall|k: Seq<u8>| #[trigger]
                        self.opened(k) == old(self).opened(k).remove((owner@, entry_uuid)) by {
                        table::map_remove_absent(before, k, (owner@, entry_uuid));
                    }
                }
            },
        }
    }

    /// Adds a row. The primary key must be free.
    pub fn insert(&mut self, record: ConflictRecord)
        requires
            old(self).wf(),
            !table::has_row(old(self).rows@, record.row_key()),
        ensures
            final(self).wf(),
            forall|k: Seq<u8>|
                #[trigger] final(self).opened(k) == old(self).opened(k).insert(
                    record.row_key(),
                    record.row_view(k),
                ),
            final(self).rows@ == old(self).rows@.push(record),
    {
        let ghost before = self.rows@;
        self.rows.push(record);
        proof {
            assert forall|k: Seq<u8>| #[trigger]
                self.opened(k) == old(self).opened(k).insert(record.row_key(), record.row_view(k)) by {
                table::map_push(before, record, k);
            }
            table::map_push(before, record, Seq::empty());
        }
    }
}

// --------------------------------------------------------------------- reading

impl TextKeyed for ProtectedRow {
    open spec fn text_key(self) -> Seq<char> {
        self.field_name@
    }

    fn key_text(&self) -> (r: &str) {
        self.field_name.as_str()
    }
}

impl TextKeyed for PlainFieldRow {
    open spec fn text_key(self) -> Seq<char> {
        self.field_name@
    }

    fn key_text(&self) -> (r: &str) {
        self.field_name.as_str()
    }
}

/// What keeps a sealed value from being read; `None` where nothing does.
pub open spec fn value_fault(key: Seq<u8>, row: ProtectedRow) -> Option<Seq<char>> {
    match crypto::opened(key, row.wrapped_blob@) {
        None => Some(
            if row.wrapped_blob@.len() < crypto::MIN_SEALED_LEN {
                "wrapped blob too short"@
            } else {
                "aead::Error"@
            },
        ),
        Some(plain) => if valid_utf8(plain) {
            None
        } else {
            Some("non-utf8 plaintext: "@ + codec::utf8_fault(plain))
        },
    }
}

/// The text that a sealed value opens to.
pub open spec fn value_text(key: Seq<u8>, row: ProtectedRow) -> Seq<char> {
    decode_utf8(crypto::opened(key, row.wrapped_blob@)->0)
}

/// The report of a sealed value that cannot be read.
pub open spec fn field_report(
    owner: Seq<char>,
    uuid: Uuid,
    name: Seq<char>,
    fault: Seq<char>,
) -> Seq<char> {
    "conflict "@ + owner + "/"@ + codec::uuid_text(uuid) + " field "@ + name + ": "@ + fault
}

/// The report of the first of `n` sealed values that cannot be read.
pub open spec fn first_report(
    owner: Seq<char>,
    uuid: Uuid,
    rows: Seq<ProtectedRow>,
    key: Seq<u8>,
    n: nat,
) -> Option<Seq<char>>
    decreases n,
{
    if n == 0 || n > rows.len() {
        None
    } else {
        match first_report(owner, uuid, rows, key, (n - 1) as nat) {
            Some(t) => Some(t),
            None => match value_fault(key, rows[n - 1]) {
                Some(fault) => Some(field_report(owner, uuid, rows[n - 1].field_name@, fault)),
                None => None,
            },
        }
    }
}

/// The password among the first `n` sealed values; empty where there is none.
pub open spec fn peer_password(rows: Seq<ProtectedRow>, key: Seq<u8>, n: nat) -> Seq<char>
    decreases n,
{
    if n == 0 || n > rows.len() {
        Seq::empty()
    } else if rows[n - 1].field_name@ == PASSWORD_FIELD@ {
        value_text(key, rows[n - 1])
    } else {
        peer_password(rows, key, (n - 1) as nat)
    }
}

/// The custom fields among the first `n` sealed values.
pub open spec fn sealed_fields(rows: Seq<ProtectedRow>, key: Seq<u8>, n: nat) -> Seq<
    CustomFieldView,
>
    decreases n,
{
    if n == 0 || n > rows.len() {
        Seq::empty()
    } else if rows[n - 1].field_name@ == PASSWORD_FIELD@ {
        sealed_fields(rows, key, (n - 1) as nat)
    } else {
        sealed_fields(rows, key, (n - 1) as nat).push(
            CustomFieldView {
                key: rows[n - 1].field_name@,
                value: value_text(key, rows[n - 1]),
                protected: true,
                totp_key: false,
            },
        )
    }
}

/// The custom fields that plain values stand for.
pub open spec fn plain_fields(rows: Seq<PlainFieldRow>) -> Seq<CustomFieldView> {
    Seq::new(
        rows.len(),
        |i: int|
            CustomFieldView {
                key: rows[i].field_name@,
                value: rows[i].value@,
                protected: false,
                totp_key: false,
            },
    )
}

/// The times of a held value.
pub open spec fn times_of(record: ConflictRecord) -> Timestamps {
    let expiry = time::optional_instant_of(record.expires_at);
    Timestamps {
        creation_time: time::optional_instant_of(record.created_at),
        last_modification_time: time::optional_instant_of(record.modified_at),
        last_access_time: time::optional_instant_of(record.accessed_at),
        expiry_time: expiry,
        expires: expiry is Some,
    }
}

/// The entry that a held value stands for: the sealed custom fields in the order
/// of their names, then the plain ones in that order. It has no history.
pub open spec fn peer_entry_of(record: ConflictRecord, key: Seq<u8>) -> EntryView {
    let sealed = order::sorted_of(record.fields.protected@);
    let plain = order::sorted_of(record.fields.plain@);
    EntryView {
        id: record.entry_uuid,
        content: ContentView {
            title: record.title@,
            username: record.username@,
            password: peer_password(sealed, key, sealed.len()),
            url: record.url@,
            notes: record.notes@,
            times: times_of(record),
            icon_id: if 0 <= record.icon_index <= u32::MAX {
                record.icon_index as u32
            } else {
                0
            },
            custom_icon_uuid: match record.icon_custom_uuid {
                Some(s) => match codec::uuid_parsed(s@) {
                    Ok(u) => Some(u),
                    Err(_) => None,
                },
                None => None,
            },
            custom_fields: sealed_fields(sealed, key, sealed.len()) + plain_fields(plain),
            ..vault::empty_content()
        },
        history: Seq::empty(),
    }
}

/// The report of a held value that cannot be read; `None` where it can.
pub open spec fn record_report(record: ConflictRecord, key: Seq<u8>) -> Option<Seq<char>> {
    let sealed = order::sorted_of(record.fields.protected@);
    first_report(record.owner@, record.entry_uuid, sealed, key, sealed.len())
}

proof fn report_persists(
    owner: Seq<char>,
    uuid: Uuid,
    rows: Seq<ProtectedRow>,
    key: Seq<u8>,
    a: nat,
    b: nat,
)
    requires
        a <= b <= rows.len(),
        first_report(owner, uuid, rows, key, a) is Some,
    ensures
        first_report(owner, uuid, rows, key, b) == first_report(owner, uuid, rows, key, a),
    decreases b,
{
    if a < b {
        report_persists(owner, uuid, rows, key, a, (b - 1) as nat);
    }
}

/// The times of a held value. An expiry outside the calendar is no expiry.
pub fn reconstruct_times(record: &ConflictRecord) -> (r: Timestamps)
    ensures
        r == times_of(*record),
{
    let expiry = time::optional_ms_to_dt(record.expires_at);
    Timestamps {
        creation_time: time::optional_ms_to_dt(record.created_at),
        last_modification_time: time::optional_ms_to_dt(record.modified_at),
        last_access_time: time::optional_ms_to_dt(record.accessed_at),
        expiry_time: expiry,
        expires: expiry.is_some(),
    }
}

fn report_of(owner: &str, uuid: Uuid, name: &str, fault: &str) -> (r: EngineError)
    ensures
        r matches EngineError::Projection(ProjectionError::Unwrap(t)) && t@ == field_report(
            owner@,
            uuid,
            name@,
            fault@,
        ),
{
    let mut t: String = text::joined("conflict ", owner);
    t.push_str("/");
    t.push_str(codec::uuid_to_string(uuid).as_str());
    t.push_str(" field ");
    t.push_str(name);
    t.push_str(": ");
    t.push_str(fault);
    EngineError::Projection(ProjectionError::Unwrap(t))
}

fn read_value(row: &ProtectedRow, session_key: &SessionKey) -> (r: Result<String, String>)
    ensures
        match r {
            Ok(t) => value_fault(session_key@, *row) is None && t@ == value_text(
                session_key@,
                *row,
            ),
            Err(fault) => value_fault(session_key@, *row) == Some(fault@),
        },
{
    match crypto::unwrap_with_session_key(session_key, row.wrapped_blob.as_slice()) {
        Err(e) => Err(e),
        Ok(plain) => match codec::text_from_utf8(plain) {
            Ok(t) => Ok(t),
            Err(fault) => Err(text::joined("non-utf8 plaintext: ", fault.as_str())),
        },
    }
}

fn read_sealed(record: &ConflictRecord, session_key: &SessionKey) -> (r: Result<
    (String, Vec<CustomField>),
    EngineError,
>)
    ensures
        ({
            let sealed = order::sorted_of(record.fields.protected@);
            match r {
                Ok((password, fields)) => {
                    &&& record_report(*record, session_key@) is None
                    &&& password@ == peer_password(sealed, session_key@, sealed.len())
                    &&& fields.deep_view() == sealed_fields(sealed, session_key@, sealed.len())
                },
                Err(e) => {
                    &&& record_report(*record, session_key@) is Some
                    &&& e matches EngineError::Projection(ProjectionError::Unwrap(t)) && Some(t@)
                        == record_report(*record, session_key@)
                },
            }
        }),
{
    let sealed = order::sort_by_text(&record.fields.protected);
    let ghost sv = order::sorted_of(record.fields.protected@);
    let ghost key = session_key@;
    let mut password: String = String::new();
    let mut fields: Vec<CustomField> = Vec::new();
    let mut i: usize = 0;
    proof {
        assert(fields.deep_view() =~= Seq::empty());
    }
    while i < sealed.len()
        invariant
            i <= sealed.len(),
            sv == order::sorted_of(record.fields.protected@),
            sealed@.unref() == sv,
            key == session_key@,
            first_report(record.owner@, record.entry_uuid, sv, key, i as nat) is None,
            password@ == peer_password(sv, key, i as nat),
            fields.deep_view() == sealed_fields(sv, key, i as nat),
        decreases sealed.len() - i,
    {
        let row = sealed[i];
        let ghost before = fields.deep_view();
        proof {
            assert(sealed@.unref()[i as int] == *row);
        }
        match read_value(row, session_key) {
            Err(fault) => {
                proof {
                    report_persists(
                        record.owner@,
                        record.entry_uuid,
                        sv,
                        key,
                        (i + 1) as nat,
                        sv.len(),
                    );
                }
                return Err(
                    report_of(
                        record.owner.as_str(),
                        record.entry_uuid,
                        row.field_name.as_str(),
                        fault.as_str(),
                    ),
                );
            },
            Ok(value) => {
                if text::same_text(row.field_name.as_str(), PASSWORD_FIELD) {
                    password = value;
                } else {
                    fields.push(
                        CustomField {
                            key: row.field_name.clone(),
                            value,
                            protected: true,
                            totp_key: false,
                        },
                    );
                    proof {
                        assert(fields.deep_view() =~= before.push(
                            CustomFieldView {
                                key: row.field_name@,
                                value: value@,
                                protected: true,
                                totp_key: false,
                            },
                        ));
                    }
                }
            },
        }
        i = i + 1;
    }
    Ok((password, fields))
}

fn add_plain(record: &ConflictRecord, fields: &mut Vec<CustomField>)
    ensures
        final(fields).deep_view() == old(fields).deep_view() + plain_fields(
            order::sorted_of(record.fields.plain@),
        ),
{
    let plain = order::sort_by_text(&record.fields.plain);
    let ghost pv = order::sorted_of(record.fields.plain@);
    let ghost head = fields.deep_view();
    let mut i: usize = 0;
    proof {
        assert(fields.deep_view() =~= head + plain_fields(pv).take(0));
    }
    while i < plain.len()
        invariant
            i <= plain.len(),
            plain@.unref() == pv,
            fields.deep_view() == head + plain_fields(pv).take(i as int),
        decreases plain.len() - i,
    {
        let row = plain[i];
        let ghost before = fields.deep_view();
        proof {
            assert(plain@.unref()[i as int] == *row);
        }
        fields.push(
            CustomField {
                key: row.field_name.clone(),
                value: row.value.clone(),
                protected: false,
                totp_key: false,
            },
        );
        proof {
            assert(fields.deep_view() =~= before.push(plain_fields(pv)[i as int]));
            assert(fields.deep_view() =~= head + plain_fields(pv).take(i + 1));
        }
        i = i + 1;
    }
    proof {
        assert(plain_fields(pv).take(pv.len() as int) =~= plain_fields(pv));
    }
}

/// Rebuilds a device's entry from its held value. It carries its secrets in the
/// clear and no history. Nothing is measured: strength and one-time-password
/// marks are those of an empty entry.
pub fn reconstruct_entry(record: &ConflictRecord, session_key: &SessionKey) -> (r: Result<
    Entry,
    EngineError,
>)
    ensures
        match r {
            Ok(entry) => {
                &&& record_report(*record, session_key@) is None
                &&& entry.deep_view() == peer_entry_of(*record, session_key@)
            },
            Err(e) => {
                &&& record_report(*record, session_key@) is Some
                &&& e matches EngineError::Projection(ProjectionError::Unwrap(t)) && Some(t@)
                    == record_report(*record, session_key@)
            },
        },
{
    let icon_id: u32 = if 0 <= record.icon_index && record.icon_index <= 0xffff_ffff {
        record.icon_index as u32
    } else {
        0
    };
    let custom_icon_uuid: Option<Uuid> = match &record.icon_custom_uuid {
        Some(s) => match codec::parse_uuid(s.as_str()) {
            Ok(u) => Some(u),
            Err(_) => None,
        },
        None => None,
    };
    let times = reconstruct_times(record);
    let (password, mut custom_fields) = read_sealed(record, session_key)?;
    add_plain(record, &mut custom_fields);
    let entry = Entry {
        id: record.entry_uuid,
        content: EntryContent {
            title: record.title.clone(),
            username: record.username.clone(),
            password,
            url: record.url.clone(),
            notes: record.notes.clone(),
            tags: Vec::new(),
            times,
            icon_id,
            custom_icon_uuid,
            custom_fields,
            custom_data: Vec::new(),
            attachments: Vec::new(),
            strength: Strength { bucket: StrengthBucket::VeryWeak, entropy: 0 },
            otpauth_url: false,
        },
        history: Vec::new(),
    };
    proof {
        assert(entry.content.tags.deep_view() =~= Seq::empty());
        assert(entry.content.custom_data.deep_view() =~= Seq::empty());
        assert(entry.content.attachments.deep_view() =~= Seq::empty());
        assert(entry.history.deep_view() =~= Seq::empty());
        assert(entry.deep_view() =~= peer_entry_of(*record, session_key@));
    }
    Ok(entry)
}

/// A table without the rows of one entry.
pub open spec fn without_conflicts(
    m: Map<(Seq<char>, Uuid), ConflictView>,
    entry_uuid: Uuid,
) -> Map<(Seq<char>, Uuid), ConflictView> {
    Map::new(
        |k: (Seq<char>, Uuid)| m.contains_key(k) && k.1 != entry_uuid,
        |k: (Seq<char>, Uuid)| m[k],
    )
}

impl ConflictTable {
    /// The entries for which some device has a value held, ascending and each
    /// once.
    pub fn parked_conflict_uuids(&self) -> (r: Vec<Uuid>)
        ensures
            order::ascending(r@),
            forall|u: Uuid| #[trigger]
                r@.contains(u) <==> exists|i: int|
                    0 <= i < self.rows@.len() && (#[trigger] self.rows@[i]).entry_uuid == u,
    {
        let mut out: Vec<Uuid> = Vec::new();
        let mut i: usize = 0;
        while i < self.rows.len()
            invariant
                i <= self.rows.len(),
                order::ascending(out@),
                forall|u: Uuid| #[trigger]
                    out@.contains(u) <==> exists|j: int|
                        0 <= j < i && (#[trigger] self.rows@[j]).entry_uuid == u,
            decreases self.rows.len() - i,
        {
            let ghost before = out@;
            order::insert_ascending(&mut out, self.rows[i].entry_uuid);
            proof {
                assert forall|u: Uuid| #[trigger] out@.contains(u) <==> exists|j: int|
                    0 <= j < i + 1 && (#[trigger] self.rows@[j]).entry_uuid == u by {
                    if before.contains(u) {
                        let j = choose|j: int|
                            0 <= j < i && (#[trigger] self.rows@[j]).entry_uuid == u;
                        assert(0 <= j < i + 1 && self.rows@[j].entry_uuid == u);
                    }
                    if u == self.rows@[i as int].entry_uuid {
                        assert(0 <= i < i + 1 && self.rows@[i as int].entry_uuid == u);
                    }
                    if exists|j: int| 0 <= j < i + 1 && (#[trigger] self.rows@[j]).entry_uuid == u {
                        let j = choose|j: int|
                            0 <= j < i + 1 && (#[trigger] self.rows@[j]).entry_uuid == u;
                        if j < i {
                            assert(before.contains(u));
                        }
                    }
                }
            }
            i = i + 1;
        }
        out
    }

    /// The devices that have a value of the entry held, in the order of their
    /// names.
    pub fn conflict_owners_for(&self, entry_uuid: Uuid) -> (r: Vec<String>)
        ensures
            order::texts_ascend(r.deep_view()),
            forall|t: Seq<char>| #[trigger]
                r.deep_view().contains(t) <==> table::has_row(self.rows@, (t, entry_uuid)),
    {
        let mut out: Vec<String> = Vec::new();
        let mut i: usize = 0;
        while i < self.rows.len()
            invariant
                i <= self.rows.len(),
                order::texts_ascend(out.deep_view()),
                forall|t: Seq<char>| #[trigger]
                    out.deep_view().contains(t) <==> exists|j: int|
                        0 <= j < i && (#[trigger] self.rows@[j]).row_key() == (t, entry_uuid),
            decreases self.rows.len() - i,
        {
            let ghost before = out.deep_view();
            let row = &self.rows[i];
            if row.entry_uuid == entry_uuid {
                order::insert_text(&mut out, row.owner.as_str());
            }
            proof {
                assert forall|t: Seq<char>| #[trigger]
                    out.deep_view().contains(t) <==> exists|j: int|
                        0 <= j < i + 1 && (#[trigger] self.rows@[j]).row_key() == (t, entry_uuid) by {
                    if before.contains(t) {
                        let j = choose|j: int|
                            0 <= j < i && (#[trigger] self.rows@[j]).row_key() == (t, entry_uuid);
                        assert(0 <= j < i + 1 && self.rows@[j].row_key() == (t, entry_uuid));
                    }
                    if row.row_key() == (t, entry_uuid) {
                        assert(0 <= i < i + 1 && self.rows@[i as int].row_key() == (
                            t,
                            entry_uuid,
                        ));
                    }
                    if exists|j: int|
                        0 <= j < i + 1 && (#[trigger] self.rows@[j]).row_key() == (t, entry_uuid) {
                        let j = choose|j: int|
                            0 <= j < i + 1 && (#[trigger] self.rows@[j]).row_key() == (
                                t,
                                entry_uuid,
                            );
                        if j < i {
                            assert(before.contains(t));
                        }
                    }
                }
            }
            i = i + 1;
        }
        out
    }

    /// Rebuilds a device's entry from its held value; `None` where the device
    /// has none.
    pub fn reconstruct_peer_entry(
        &self,
        owner: &str,
        entry_uuid: Uuid,
        session_key: &SessionKey,
    ) -> (r: Result<Option<Entry>, EngineError>)
        requires
            self.wf(),
        ensures
            ({
                let held = table::has_row(self.rows@, (owner@, entry_uuid));
                let record = table::row_at(self.rows@, (owner@, entry_uuid));
                match r {
                    Ok(None) => !held,
                    Ok(Some(entry)) => {
                        &&& held && record_report(record, session_key@) is None
                        &&& entry.deep_view() == peer_entry_of(record, session_key@)
                    },
                    Err(e) => {
                        &&& held && record_report(record, session_key@) is Some
                        &&& e matches EngineError::Projection(ProjectionError::Unwrap(t)) && Some(
                            t@,
                        ) == record_report(record, session_key@)
                    },
                }
            }),
    {
        match self.position(owner, entry_uuid) {
            None => Ok(None),
            Some(i) => {
                proof {
                    table::row_is_unique(self.rows@, i as int);
                    assert(self.rows@[i as int].row_key() == (owner@, entry_uuid));
                }
                match reconstruct_entry(&self.rows[i], session_key) {
                    Ok(entry) => Ok(Some(entry)),
                    Err(e) => Err(e),
                }
            },
        }
    }

    /// Drops every device's row for one entry, and says how many there were.
    pub fn drop_conflict_rows(&mut self, entry_uuid: Uuid) -> (r: u32)
        requires
            old(self).wf(),
        ensures
            final(self).wf(),
            forall|k: Seq<u8>| #[trigger]
                final(self).opened(k) == without_conflicts(old(self).opened(k), entry_uuid),
            r == (if old(self).rows@.len() - final(self).rows@.len() <= u32::MAX {
                old(self).rows@.len() - final(self).rows@.len()
            } else {
                u32::MAX as int
            }),
            forall|i: int|
                0 <= i < final(self).rows@.len() ==> (#[trigger] final(self).rows@[i]).entry_uuid
                    != entry_uuid,
    {
        let mut removed: u32 = 0;
        let mut i: usize = 0;
        while i < self.rows.len()
            invariant
                i <= self.rows.len(),
                self.wf(),
                self.rows@.len() <= old(self).rows@.len(),
                removed == (if old(self).rows@.len() - self.rows@.len() <= u32::MAX {
                    old(self).rows@.len() - self.rows@.len()
                } else {
                    u32::MAX as int
                }),
                forall|j: int| 0 <= j < i ==> (#[trigger] self.rows@[j]).entry_uuid != entry_uuid,
                forall|k: Seq<u8>| #[trigger]
                    without_conflicts(self.opened(k), entry_uuid) == without_conflicts(
                        old(self).opened(k),
                        entry_uuid,
                    ),
            decreases self.rows.len() - i,
        {
            if self.rows[i].entry_uuid == entry_uuid {
                let ghost before = *self;
                self.rows.remove(i);
                removed = if removed < u32::MAX {
                    removed + 1
                } else {
                    removed
                };
                proof {
                    let key = before.rows@[i as int].row_key();
                    table::map_remove(before.rows@, i as int, Seq::empty());
                    assert forall|k: Seq<u8>| #[trigger]
                        without_conflicts(self.opened(k), entry_uuid) == without_conflicts(
                            old(self).opened(k),
                            entry_uuid,
                        ) by {
                        table::map_remove(before.rows@, i as int, k);
                        assert(self.opened(k) == before.opened(k).remove(key));
                        assert(without_conflicts(self.opened(k), entry_uuid) =~= without_conflicts(
                            before.opened(k),
                            entry_uuid,
                        ));
                    }
                }
            } else {
                i = i + 1;
            }
        }
        proof {
            assert forall|k: Seq<u8>| #[trigger]
                self.opened(k) == without_conflicts(old(self).opened(k), entry_uuid) by {
                assert forall|key: (Seq<char>, Uuid)| #[trigger]
                    self.opened(k).contains_key(key) implies key.1 != entry_uuid by {
                    table::map_keys(self.rows@, k, key);
                    let j = choose|j: int|
                        0 <= j < self.rows@.len() && (#[trigger] self.rows@[j]).row_key() == key;
                    assert(self.rows@[j].entry_uuid != entry_uuid);
                }
                assert(without_conflicts(self.opened(k), entry_uuid) =~= self.opened(k));
            }
        }
        removed
    }
}

} // verus!
