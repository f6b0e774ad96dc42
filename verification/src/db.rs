//! The values the persistence layer stores as text, and how stored rows are
//! read back: application and indexer kinds, sync levels, and the integer
//! ids of mapping rows. The database itself is driven from the application.
use vstd::prelude::*;

use crate::ids::{AppId, IndexerId, RemoteIndexerId};
use crate::text::{chars_of, debug_quoted, push_debug_quoted, push_str, string_of, word_is};

verus! {

/// A stored value that does not decode: the column and why.
#[derive(Debug, Clone, PartialEq, Eq)]
pub struct Corrupt {
    /// The column whose stored value is invalid.
    pub field: &'static str,
    /// Why the value could not be decoded.
    pub reason: String,
}

/// `"<what> "` followed by the stored text quoted as `{:?}` prints it.
fn unknown_reason(what: &str, value: &str) -> (r: String)
    ensures
        r@ == what@ + " "@ + debug_quoted(value@),
{
    let mut out = chars_of(what);
    push_str(&mut out, " ");
    push_debug_quoted(&mut out, &chars_of(value));
    string_of(out.as_slice())
}

/// Which downstream application a row configures.
#[derive(Debug, Clone, Copy, PartialEq, Eq, Structural)]
pub enum AppKind {
    /// A Sonarr instance.
    Sonarr,
    /// A Radarr instance.
    Radarr,
}

/// The kind stored as `s`, if any.
pub open spec fn app_kind_named(s: Seq<char>) -> Option<AppKind> {
    if s == "sonarr"@ {
        Some(AppKind::Sonarr)
    } else if s == "radarr"@ {
        Some(AppKind::Radarr)
    } else {
        None
    }
}

impl AppKind {
    /// The text this kind is stored as.
    pub open spec fn stored(self) -> Seq<char> {
        match self {
            AppKind::Sonarr => "sonarr"@,
            AppKind::Radarr => "radarr"@,
        }
    }

    /// The lowercase text this kind is stored as.
    pub fn as_str(self) -> (r: &'static str)
        ensures
            r@ == self.stored(),
    {
        match self {
            AppKind::Sonarr => "sonarr",
            AppKind::Radarr => "radarr",
        }
    }

    /// Reads a stored kind back; any other text is a [`Corrupt`] value of
    /// `applications.kind`.
    pub fn from_stored(value: &str) -> (r: Result<AppKind, Corrupt>)
        ensures
            match app_kind_named(value@) {
                Some(k) => r == Ok::<AppKind, Corrupt>(k),
                None => r matches Err(e) && e.field@ == "applications.kind"@ && e.reason@
                    == "unknown application kind"@ + " "@ + debug_quoted(value@),
            },
    {
        let v = chars_of(value);
        if word_is(&v, "sonarr") {
            Ok(AppKind::Sonarr)
        } else if word_is(&v, "radarr") {
            Ok(AppKind::Radarr)
        } else {
            Err(Corrupt { field: "applications.kind", reason: unknown_reason("unknown application kind", value) })
        }
    }
}

/// How aggressively indexers are synced to an application.
#[derive(Debug, Clone, Copy, PartialEq, Eq, Structural)]
pub enum SyncLevel {
    /// No indexers are synced.
    Disabled,
    /// New indexers are added but existing ones are never removed.
    AddOnly,
    /// Indexers are fully kept in sync, including removals.
    FullSync,
}

/// The level stored as `s`, if any.
pub open spec fn sync_level_named(s: Seq<char>) -> Option<SyncLevel> {
    if s == "disabled"@ {
        Some(SyncLevel::Disabled)
    } else if s == "addOnly"@ {
        Some(SyncLevel::AddOnly)
    } else if s == "fullSync"@ {
        Some(SyncLevel::FullSync)
    } else {
        None
    }
}

impl SyncLevel {
    /// The text this level is stored as.
    pub open spec fn stored(self) -> Seq<char> {
        match self {
            SyncLevel::Disabled => "disabled"@,
            SyncLevel::AddOnly => "addOnly"@,
            SyncLevel::FullSync => "fullSync"@,
        }
    }

    /// The camelCase text this level is stored as.
    pub fn as_str(self) -> (r: &'static str)
        ensures
            r@ == self.stored(),
    {
        match self {
            SyncLevel::Disabled => "disabled",
            SyncLevel::AddOnly => "addOnly",
            SyncLevel::FullSync => "fullSync",
        }
    }

    /// Reads a stored level back; any other text is a [`Corrupt`] value of
    /// `applications.sync_level`.
    pub fn from_stored(value: &str) -> (r: Result<SyncLevel, Corrupt>)
        ensures
            match sync_level_named(value@) {
                Some(k) => r == Ok::<SyncLevel, Corrupt>(k),
                None => r matches Err(e) && e.field@ == "applications.sync_level"@ && e.reason@
                    == "unknown sync level"@ + " "@ + debug_quoted(value@),
            },
    {
        let v = chars_of(value);
        if word_is(&v, "disabled") {
            Ok(SyncLevel::Disabled)
        } else if word_is(&v, "addOnly") {
            Ok(SyncLevel::AddOnly)
        } else if word_is(&v, "fullSync") {
            Ok(SyncLevel::FullSync)
        } else {
            Err(Corrupt { field: "applications.sync_level", reason: unknown_reason("unknown sync level", value) })
        }
    }
}

/// Which protocol or definition family an indexer speaks.
#[derive(Debug, Clone, Copy, PartialEq, Eq, Structural)]
pub enum IndexerKind {
    /// A Cardigann YAML definition, scraped via the templating engine.
    Cardigann,
    /// A Newznab-compatible Usenet indexer.
    Newznab,
    /// A Torznab-compatible torrent indexer.
    Torznab,
}

/// The indexer kind stored as `s`, if any.
pub open spec fn indexer_kind_named(s: Seq<char>) -> Option<IndexerKind> {
    if s == "cardigann"@ {
        Some(IndexerKind::Cardigann)
    } else if s == "newznab"@ {
        Some(IndexerKind::Newznab)
    } else if s == "torznab"@ {
        Some(IndexerKind::Torznab)
    } else {
        None
    }
}

impl IndexerKind {
    /// The text this kind is stored as.
    pub open spec fn stored(self) -> Seq<char> {
        match self {
            IndexerKind::Cardigann => "cardigann"@,
            IndexerKind::Newznab => "newznab"@,
            IndexerKind::Torznab => "torznab"@,
        }
    }

    /// The lowercase text this kind is stored as.
    pub fn as_str(self) -> (r: &'static str)
        ensures
            r@ == self.stored(),
    {
        match self {
            IndexerKind::Cardigann => "cardigann",
            IndexerKind::Newznab => "newznab",
            IndexerKind::Torznab => "torznab",
        }
    }

    /// Reads a stored kind back; any other text is a [`Corrupt`] value of
    /// `indexers.kind`.
    pub fn from_stored(value: &str) -> (r: Result<IndexerKind, Corrupt>)
        ensures
            match indexer_kind_named(value@) {
                Some(k) => r == Ok::<IndexerKind, Corrupt>(k),
                None => r matches Err(e) && e.field@ == "indexers.kind"@ && e.reason@
                    == "unknown indexer kind"@ + " "@ + debug_quoted(value@),
            },
    {
        let v = chars_of(value);
        if word_is(&v, "cardigann") {
            Ok(IndexerKind::Cardigann)
        } else if word_is(&v, "newznab") {
            Ok(IndexerKind::Newznab)
        } else if word_is(&v, "torznab") {
            Ok(IndexerKind::Torznab)
        } else {
            Err(Corrupt { field: "indexers.kind", reason: unknown_reason("unknown indexer kind", value) })
        }
    }
}

/// Reading back what was stored gives back what was written, for every
/// application kind, sync level and indexer kind.
pub proof fn law_stored_text_reads_back(a: AppKind, s: SyncLevel, i: IndexerKind)
    ensures
        app_kind_named(a.stored()) == Some(a),
        sync_level_named(s.stored()) == Some(s),
        indexer_kind_named(i.stored()) == Some(i),
{
    reveal_strlit("sonarr");
    reveal_strlit("radarr");
    reveal_strlit("disabled");
    reveal_strlit("addOnly");
    reveal_strlit("fullSync");
    reveal_strlit("cardigann");
    reveal_strlit("newznab");
    reveal_strlit("torznab");
    assert("radarr"@[0] != "sonarr"@[0]);
    assert("addOnly"@.len() != "disabled"@.len());
    assert("fullSync"@[0] != "disabled"@[0]);
    assert("fullSync"@[0] != "addOnly"@[0]);
    assert("newznab"@.len() != "cardigann"@.len());
    assert("torznab"@.len() != "cardigann"@.len());
    assert("torznab"@[0] != "newznab"@[0]);
}

/// The message `i32::try_from` gives for a value out of its range.
pub open spec fn out_of_range_reason() -> Seq<char> {
    "out of range integral type conversion attempted"@
}

/// A stored 64-bit row id as the 32-bit id the types use; out of range is a
/// [`Corrupt`] value of `field`.
pub fn row_id_to_i32(id: i64, field: &'static str) -> (r: Result<i32, Corrupt>)
    ensures
        i32::MIN <= id <= i32::MAX ==> r == Ok::<i32, Corrupt>(id as i32),
        !(i32::MIN <= id <= i32::MAX) ==> (r matches Err(e) && e.field@ == field@ && e.reason@
            == out_of_range_reason()),
{
    if i32::MIN as i64 <= id && id <= i32::MAX as i64 {
        Ok(id as i32)
    } else {
        Err(
            Corrupt {
                field,
                reason: String::from_str("out of range integral type conversion attempted"),
            },
        )
    }
}

/// A single (application, indexer) pairing: which id the indexer is known by
/// inside that application.
#[derive(Debug, Clone, Copy, PartialEq, Eq, Structural)]
pub struct MappingRow {
    /// The application side of the pairing.
    pub app_id: AppId,
    /// The indexer side of the pairing.
    pub indexer_id: IndexerId,
    /// The id this indexer is registered under inside the application.
    pub remote_indexer_id: RemoteIndexerId,
}

pub open spec fn fits_i32(v: i64) -> bool {
    i32::MIN <= v <= i32::MAX
}

/// A mapping row from its three stored ids, checked in column order.
pub fn mapping_from_ids(app_id: i64, indexer_id: i64, remote_indexer_id: i64) -> (r: Result<MappingRow, Corrupt>)
    ensures
        fits_i32(app_id) && fits_i32(indexer_id) && fits_i32(remote_indexer_id) ==> r == Ok::<
            MappingRow,
            Corrupt,
        >(
            MappingRow {
                app_id: AppId(app_id as i32),
                indexer_id: IndexerId(indexer_id as i32),
                remote_indexer_id: RemoteIndexerId(remote_indexer_id as i32),
            },
        ),
        !fits_i32(app_id) ==> (r matches Err(e) && e.field@ == "app_indexer_map.app_id"@),
        fits_i32(app_id) && !fits_i32(indexer_id) ==> (r matches Err(e) && e.field@
            == "app_indexer_map.indexer_id"@),
        fits_i32(app_id) && fits_i32(indexer_id) && !fits_i32(remote_indexer_id) ==> (r matches Err(e)
            && e.field@ == "app_indexer_map.remote_indexer_id"@),
        r is Err ==> r->Err_0.reason@ == out_of_range_reason(),
{
    let a = row_id_to_i32(app_id, "app_indexer_map.app_id")?;
    let i = row_id_to_i32(indexer_id, "app_indexer_map.indexer_id")?;
    let m = row_id_to_i32(remote_indexer_id, "app_indexer_map.remote_indexer_id")?;
    Ok(MappingRow { app_id: AppId(a), indexer_id: IndexerId(i), remote_indexer_id: RemoteIndexerId(m) })
}

/// Fields required to create a new application; the id and creation time
/// are assigned when it is stored.
#[derive(Debug, Clone, PartialEq, Eq)]
pub struct NewApplication {
    /// Display name; must be unique across all applications.
    pub name: String,
    /// Which downstream application this is.
    pub kind: AppKind,
    /// Base URL the application is reachable at.
    pub base_url: String,
    /// API key used to authenticate with the application.
    pub api_key: String,
    /// How aggressively indexers are synced to this application.
    pub sync_level: SyncLevel,
}

/// A hexadecimal digit, lowercase.
pub open spec fn hex_digit(n: nat) -> char {
    if n < 10 {
        crate::model::digit_char(n)
    } else if n == 10 {
        'a'
    } else if n == 11 {
        'b'
    } else if n == 12 {
        'c'
    } else if n == 13 {
        'd'
    } else if n == 14 {
        'e'
    } else {
        'f'
    }
}

/// Bytes written as lowercase hexadecimal, two digits each.
pub open spec fn hex_of(bytes: Seq<u8>) -> Seq<char>
    decreases bytes.len(),
{
    if bytes.len() == 0 {
        Seq::empty()
    } else {
        let b = bytes.last();
        hex_of(bytes.drop_last()) + seq![hex_digit((b / 16) as nat), hex_digit((b % 16) as nat)]
    }
}

fn hex_char(n: u8) -> (c: char)
    requires
        n < 16,
    ensures
        c == hex_digit(n as nat),
{
    if n < 10 {
        if n == 0 { '0' } else if n == 1 { '1' } else if n == 2 { '2' } else if n == 3 { '3' }
        else if n == 4 { '4' } else if n == 5 { '5' } else if n == 6 { '6' } else if n == 7 { '7' }
        else if n == 8 { '8' } else { '9' }
    } else if n == 10 {
        'a'
    } else if n == 11 {
        'b'
    } else if n == 12 {
        'c'
    } else if n == 13 {
        'd'
    } else if n == 14 {
        'e'
    } else {
        'f'
    }
}

/// Bytes written as lowercase hexadecimal (see [`hex_of`]).
pub fn hex_string(bytes: &[u8]) -> (r: String)
    ensures
        r@ == hex_of(bytes@),
{
    let mut out: Vec<char> = Vec::new();
    let mut i: usize = 0;
    while i < bytes.len()
        invariant
            0 <= i <= bytes.len(),
            out@ == hex_of(bytes@.take(i as int)),
        decreases bytes.len() - i,
    {
        assert(bytes@.take(i + 1).drop_last() =~= bytes@.take(i as int));
        assert(bytes@.take(i + 1).last() == bytes@[i as int]);
        let b = bytes[i];
        out.push(hex_char(b / 16));
        out.push(hex_char(b % 16));
        i = i + 1;
    }
    assert(bytes@.take(bytes.len() as int) =~= bytes@);
    string_of(out.as_slice())
}

/// Sixteen bytes from `rand`'s thread-local generator
/// (`RngCore::fill_bytes`). Nothing is stated of them: they are random.
#[verifier::external_body]
fn random_key_bytes() -> (r: Vec<u8>)
    ensures
        r@.len() == 16,
{
    let mut bytes = vec![0u8; 16];
    rand::RngCore::fill_bytes(&mut rand::thread_rng(), &mut bytes);
    bytes
}

/// A fresh instance API key: sixteen random bytes in lowercase
/// hexadecimal.
pub fn generate_api_key() -> (r: String)
    ensures
        exists|b: Seq<u8>| b.len() == 16 && r@ == hex_of(b),
{
    let bytes = random_key_bytes();
    let r = hex_string(bytes.as_slice());
    assert(bytes@.len() == 16 && r@ == hex_of(bytes@));
    r
}

} // verus!
