//! The tiered blob store: how rows of the relational tier encode where a
//! payload lives, what ingestion stages for each file, what retrieval returns,
//! and which rows a migration batch flips to object storage.
//!
//! The relational tier is modelled as a map from path key to (content type,
//! content column); the object tier as a map from path key to bytes.
use vstd::prelude::*;
use crate::FileError;
use crate::mime::{classify_mime, classify_spec, extension_spec};
use crate::walk::{join_key, join_spec, views};

verus! {

/// A point in time, in seconds and nanoseconds since the epoch.
#[derive(Debug, Clone, Copy, PartialEq, Eq, Structural)]
pub struct Timestamp {
    pub sec: i64,
    pub nsec: i32,
}

/// A stored artifact as retrieval returns it.
pub struct Blob {
    pub path: String,
    pub mime: String,
    pub date_updated: Timestamp,
    pub content: Vec<u8>,
}

/// A row of the relational tier as it was read.
pub struct StoredRow {
    pub path: String,
    pub mime: String,
    pub date_updated: Timestamp,
    pub content: Vec<u8>,
}

/// The content column of a row whose payload lives in object storage.
pub open spec fn marker() -> Seq<u8> {
    seq![105u8, 110u8, 45u8, 115u8, 51u8]
}

/// The bytes `in-s3`, which mark a row whose payload lives in object storage.
pub fn offload_marker() -> (r: Vec<u8>)
    ensures
        r@ == marker(),
{
    let r: Vec<u8> = vec![105u8, 110u8, 45u8, 115u8, 51u8];
    assert(r@ =~= marker());
    r
}

/// Whether a content column is the offload marker.
pub fn is_offloaded(content: &Vec<u8>) -> (r: bool)
    ensures
        r == (content@ == marker()),
{
    let m = offload_marker();
    if content.len() != m.len() {
        return false;
    }
    let mut i: usize = 0;
    while i < m.len()
        invariant
            m@ == marker(),
            content@.len() == m@.len(),
            i <= m@.len(),
            forall|k: int| 0 <= k < i ==> content@[k] == m@[k],
        decreases m@.len() - i,
    {
        if content[i] != m[i] {
            return false;
        }
        i = i + 1;
    }
    assert(content@ =~= m@);
    true
}

/// The content column stored for `bytes`: the marker where they went to
/// object storage, the bytes themselves otherwise.
pub open spec fn column_spec(offloaded: bool, bytes: Seq<u8>) -> Seq<u8> {
    if offloaded {
        marker()
    } else {
        bytes
    }
}

/// Whether a write inserts a new row or updates the one that exists.
#[derive(Debug, Clone, Copy, PartialEq, Eq, Structural)]
pub enum Upsert {
    Insert,
    Update,
}

/// A row write staged inside the enclosing transaction.
pub struct RowWrite {
    pub kind: Upsert,
    pub path: String,
    pub mime: String,
    pub content: Vec<u8>,
}

/// Stages the upsert of `path`: an insert where no row exists
/// (`existing_rows == 0`), an update otherwise; the content column is the
/// marker where the bytes were uploaded to object storage, else the bytes.
pub fn stage_put(path: String, mime: String, bytes: Vec<u8>, offloaded: bool, existing_rows: i64) -> (r: RowWrite)
    ensures
        r.path == path,
        r.mime == mime,
        r.content@ == column_spec(offloaded, bytes@),
        (r.kind == Upsert::Insert) == (existing_rows == 0),
{
    let content = if offloaded {
        offload_marker()
    } else {
        bytes
    };
    let kind = if existing_rows == 0 {
        Upsert::Insert
    } else {
        Upsert::Update
    };
    RowWrite { kind, path, mime, content }
}

/// What a lookup of one key leads to.
pub enum Lookup {
    /// The payload was inline: the blob is complete.
    Ready(Blob),
    /// The payload lives in object storage under the row's path.
    Offloaded(StoredRow),
}

/// Resolves the row read for a key: no row is `None`; an inline payload is
/// returned as it stands; the offload marker asks for the object under the
/// row's own path.
pub fn get_path(row: Option<StoredRow>) -> (r: Option<Lookup>)
    ensures
        row is None <==> r is None,
        row is Some && row->Some_0.content@ != marker() ==> r == Some(Lookup::Ready(Blob {
            path: row->Some_0.path,
            mime: row->Some_0.mime,
            date_updated: row->Some_0.date_updated,
            content: row->Some_0.content,
        })),
        row is Some && row->Some_0.content@ == marker() ==> r == Some(Lookup::Offloaded(row->Some_0)),
{
    match row {
        None => None,
        Some(row) => {
            if is_offloaded(&row.content) {
                Some(Lookup::Offloaded(row))
            } else {
                Some(Lookup::Ready(Blob {
                    path: row.path,
                    mime: row.mime,
                    date_updated: row.date_updated,
                    content: row.content,
                }))
            }
        },
    }
}

/// Completes an offloaded row with what object storage returned for its path;
/// a failed fetch is a `Fetch` error, with no other read path.
pub fn blob_from_object(row: StoredRow, fetched: Option<Vec<u8>>) -> (r: Result<Blob, FileError>)
    ensures
        fetched is None <==> r == Err::<Blob, FileError>(FileError::Fetch),
        fetched is Some ==> r == Ok::<Blob, FileError>(Blob {
            path: row.path,
            mime: row.mime,
            date_updated: row.date_updated,
            content: fetched->Some_0,
        }),
{
    match fetched {
        None => Err(FileError::Fetch),
        Some(content) => Ok(Blob { path: row.path, mime: row.mime, date_updated: row.date_updated, content }),
    }
}

/// What one ingestion run has staged: the manifest of `(content type,
/// relative path)` pairs and the row writes, both in processing order.
pub struct Ingestion {
    pub manifest: Vec<(String, String)>,
    pub writes: Vec<RowWrite>,
}

/// The key of the file at relative path `rel` ingested under `prefix`.
pub open spec fn key_spec(prefix: Seq<char>, rel: Seq<char>) -> Seq<char> {
    join_spec(prefix, rel)
}

impl Ingestion {
    /// An ingestion that has staged nothing.
    pub fn new() -> (r: Ingestion)
        ensures
            r.manifest@.len() == 0,
            r.writes@.len() == 0,
    {
        Ingestion { manifest: Vec::new(), writes: Vec::new() }
    }

    /// Records the file at `rel` under `prefix`. A file that could not be read
    /// (`content` is `None`) is skipped. Otherwise its content type is
    /// classified from `sniffed` and its extension, its row write is staged
    /// under the key `prefix/rel`, and the pair joins the manifest.
    pub fn record(
        &mut self,
        prefix: &str,
        rel: &String,
        content: Option<Vec<u8>>,
        sniffed: &str,
        offloaded: bool,
        existing_rows: i64,
    )
        ensures
            content is None ==> final(self).manifest@ == old(self).manifest@
                && final(self).writes@ == old(self).writes@,
            content is Some ==> {
                let mime = classify_spec(sniffed@, extension_spec(rel@));
                let n = old(self).manifest@.len();
                let w = final(self).writes@.last();
                &&& final(self).manifest@.len() == n + 1
                &&& final(self).manifest@.subrange(0, n as int) == old(self).manifest@
                &&& final(self).manifest@[n as int].0@ == mime
                &&& final(self).manifest@[n as int].1@ == rel@
                &&& final(self).writes@ == old(self).writes@.push(w)
                &&& w.path@ == key_spec(prefix@, rel@)
                &&& w.mime@ == mime
                &&& w.content@ == column_spec(offloaded, content->Some_0@)
                &&& (w.kind == Upsert::Insert) == (existing_rows == 0)
            },
    {
        match content {
            None => {},
            Some(bytes) => {
                let mime = classify_mime(sniffed, rel.as_str());
                let key = join_key(prefix, rel.as_str());
                let w = stage_put(key, mime.clone(), bytes, offloaded, existing_rows);
                let ghost n = self.manifest@.len();
                self.manifest.push((mime, rel.clone()));
                self.writes.push(w);
                assert(self.manifest@.subrange(0, n as int) =~= old(self).manifest@);
            },
        }
    }
}

/// One file of a tree as the caller found it: its path relative to the root,
/// its bytes (`None` where it could not be opened), what the sniffer reported
/// for them, whether they were uploaded to object storage, and how many rows
/// its key had.
pub struct FileInput {
    pub rel: String,
    pub content: Option<Vec<u8>>,
    pub sniffed: String,
    pub offloaded: bool,
    pub existing_rows: i64,
}

/// The views of a manifest.
pub open spec fn manifest_view(m: Seq<(String, String)>) -> Seq<(Seq<char>, Seq<char>)> {
    m.map_values(|p: (String, String)| (p.0@, p.1@))
}

/// The keys that a sequence of row writes stages.
pub open spec fn write_keys(w: Seq<RowWrite>) -> Seq<Seq<char>> {
    w.map_values(|w: RowWrite| w.path@)
}

/// The manifest of a tree: `(content type, relative path)` for each file that
/// could be read, in order.
pub open spec fn manifest_of(files: Seq<FileInput>) -> Seq<(Seq<char>, Seq<char>)>
    decreases files.len(),
{
    if files.len() == 0 {
        Seq::empty()
    } else {
        let f = files.last();
        let rest = manifest_of(files.drop_last());
        if f.content is Some {
            rest.push((classify_spec(f.sniffed@, extension_spec(f.rel@)), f.rel@))
        } else {
            rest
        }
    }
}

/// The keys written for a tree under `prefix`: one for each file that could
/// be read, in order.
pub open spec fn keys_of(prefix: Seq<char>, files: Seq<FileInput>) -> Seq<Seq<char>>
    decreases files.len(),
{
    if files.len() == 0 {
        Seq::empty()
    } else {
        let f = files.last();
        let rest = keys_of(prefix, files.drop_last());
        if f.content is Some {
            rest.push(key_spec(prefix, f.rel@))
        } else {
            rest
        }
    }
}

/// Stages the ingestion of a whole tree under `prefix`: files that could not
/// be read are skipped, every other one gets a row write under `prefix/rel`
/// and an entry of the manifest, in order.
pub fn add_path_into_database(prefix: &str, files: Vec<FileInput>) -> (r: Ingestion)
    ensures
        manifest_view(r.manifest@) == manifest_of(files@),
        write_keys(r.writes@) == keys_of(prefix@, files@),
{
    let ghost all = files@;
    let mut rest = files;
    let mut ing = Ingestion::new();
    let total = rest.len();
    let mut i: usize = 0;
    assert(manifest_view(ing.manifest@) =~= manifest_of(all.subrange(0, 0)));
    assert(write_keys(ing.writes@) =~= keys_of(prefix@, all.subrange(0, 0)));
    while rest.len() > 0
        invariant
            all.len() == total,
            all.len() == i + rest@.len(),
            rest@ == all.subrange(i as int, all.len() as int),
            manifest_view(ing.manifest@) == manifest_of(all.subrange(0, i as int)),
            write_keys(ing.writes@) == keys_of(prefix@, all.subrange(0, i as int)),
        decreases rest@.len(),
    {
        let f = rest.remove(0);
        assert(f == all[i as int]);
        let ghost next = all.subrange(0, i + 1);
        assert(next.drop_last() == all.subrange(0, i as int));
        assert(next.last() == f);
        let ghost m0 = ing.manifest@;
        let ghost w0 = ing.writes@;
        let ghost c = f.content;
        ing.record(prefix, &f.rel, f.content, f.sniffed.as_str(), f.offloaded, f.existing_rows);
        proof {
        if c is Some {
            let n = m0.len();
            assert(manifest_view(ing.manifest@) =~= manifest_view(m0).push(
                (classify_spec(f.sniffed@, extension_spec(f.rel@)), f.rel@),
            )) by {
                assert forall|k: int| 0 <= k < n implies ing.manifest@[k] == m0[k] by {
                    assert(ing.manifest@.subrange(0, n as int)[k] == ing.manifest@[k]);
                }
            }
            assert(write_keys(ing.writes@) =~= write_keys(w0).push(key_spec(prefix@, f.rel@)));
        } else {
            assert(manifest_view(ing.manifest@) =~= manifest_view(m0));
            assert(write_keys(ing.writes@) =~= write_keys(w0));
        }
        }
        assert(rest@ =~= all.subrange(i + 1, all.len() as int));
        i = i + 1;
    }
    assert(all.subrange(0, all.len() as int) == all);
    ing
}

/// The paths whose rows a migration batch flips to the offload marker, given
/// whether the upload of each succeeded: all of them where every upload did,
/// none (`None`) where any failed.
pub fn move_to_s3(paths: &Vec<String>, uploaded: &Vec<bool>) -> (r: Option<Vec<String>>)
    requires
        paths@.len() == uploaded@.len(),
    ensures
        r is Some <==> forall|i: int| 0 <= i < uploaded@.len() ==> uploaded@[i],
        r is Some ==> views(r->Some_0@) == views(paths@),
{
    let mut flips: Vec<String> = Vec::new();
    let mut i: usize = 0;
    while i < paths.len()
        invariant
            paths@.len() == uploaded@.len(),
            i <= paths@.len(),
            forall|k: int| 0 <= k < i ==> uploaded@[k],
            views(flips@) == views(paths@.subrange(0, i as int)),
        decreases paths@.len() - i,
    {
        if !uploaded[i] {
            return None;
        }
        let ghost f0 = flips@;
        flips.push(paths[i].clone());
        assert(views(flips@) =~= views(f0).push(paths@[i as int]@));
        assert(views(paths@.subrange(0, i + 1)) =~= views(paths@.subrange(0, i as int)).push(paths@[i as int]@));
        i = i + 1;
    }
    assert(paths@.subrange(0, paths@.len() as int) == paths@);
    Some(flips)
}

/// The relational tier: path key to (content type, content column).
pub type Rows = Map<Seq<char>, (Seq<char>, Seq<u8>)>;

/// The object tier: path key to bytes.
pub type Objects = Map<Seq<char>, Seq<u8>>;

/// What retrieval returns for `key`: the row's content type, with the inline
/// bytes or, for the marker, the object stored under the same key.
pub open spec fn get_model(rows: Rows, objects: Objects, key: Seq<char>) -> Option<(Seq<char>, Seq<u8>)> {
    if !rows.contains_key(key) {
        None
    } else if rows[key].1 == marker() {
        if objects.contains_key(key) {
            Some((rows[key].0, objects[key]))
        } else {
            None
        }
    } else {
        Some(rows[key])
    }
}

/// The two tiers after a completed `put` of `bytes` under `key`: with object
/// storage configured the bytes go there and the row holds the marker,
/// otherwise the row holds the bytes.
pub open spec fn put_model(rows: Rows, objects: Objects, key: Seq<char>, mime: Seq<char>, bytes: Seq<u8>, s3: bool) -> (Rows, Objects) {
    (
        rows.insert(key, (mime, column_spec(s3, bytes))),
        if s3 { objects.insert(key, bytes) } else { objects },
    )
}

/// A `put` followed by a `get` of the same key returns the content type and
/// bytes that were put, whichever tier holds them. Inline bytes that equal the
/// offload marker are the one exception, and are left out.
pub proof fn lemma_put_then_get(rows: Rows, objects: Objects, key: Seq<char>, mime: Seq<char>, bytes: Seq<u8>, s3: bool)
    requires
        s3 || bytes != marker(),
    ensures
        ({
            let (r1, o1) = put_model(rows, objects, key, mime, bytes, s3);
            get_model(r1, o1, key) == Some((mime, bytes))
        }),
{
}

/// A second `put` of a key replaces the first: `get` returns the later content
/// type and bytes, and the other keys read as they did.
pub proof fn lemma_put_replaces(
    rows: Rows,
    objects: Objects,
    key: Seq<char>,
    mime1: Seq<char>,
    bytes1: Seq<u8>,
    mime2: Seq<char>,
    bytes2: Seq<u8>,
    s3: bool,
    other: Seq<char>,
)
    requires
        s3 || bytes2 != marker(),
        other != key,
    ensures
        ({
            let (r1, o1) = put_model(rows, objects, key, mime1, bytes1, s3);
            let (r2, o2) = put_model(r1, o1, key, mime2, bytes2, s3);
            get_model(r2, o2, key) == Some((mime2, bytes2))
                && get_model(r2, o2, other) == get_model(rows, objects, other)
        }),
{
    let (r1, o1) = put_model(rows, objects, key, mime1, bytes1, s3);
    let (r2, o2) = put_model(r1, o1, key, mime2, bytes2, s3);
    assert(r2.contains_key(other) == rows.contains_key(other));
    assert(o2.contains_key(other) == objects.contains_key(other));
}

/// The two tiers after the row of `key` is migrated: its bytes go to object
/// storage and its row holds the marker.
pub open spec fn migrate_row(rows: Rows, objects: Objects, key: Seq<char>) -> (Rows, Objects) {
    (rows.insert(key, (rows[key].0, marker())), objects.insert(key, rows[key].1))
}

/// The two tiers after a committed migration batch of `keys`.
pub open spec fn migrate_model(rows: Rows, objects: Objects, keys: Seq<Seq<char>>) -> (Rows, Objects)
    decreases keys.len(),
{
    if keys.len() == 0 {
        (rows, objects)
    } else {
        let (r1, o1) = migrate_row(rows, objects, keys[0]);
        migrate_model(r1, o1, keys.drop_first())
    }
}

/// A committed migration batch of distinct inline rows marks each of them
/// offloaded, and every key reads back the same content type and bytes as
/// before.
pub proof fn lemma_migration_keeps_reads(rows: Rows, objects: Objects, keys: Seq<Seq<char>>, k: Seq<char>)
    requires
        keys.no_duplicates(),
        forall|i: int| 0 <= i < keys.len() ==> rows.contains_key(#[trigger] keys[i]) && rows[keys[i]].1 != marker(),
    ensures
        ({
            let (r1, o1) = migrate_model(rows, objects, keys);
            &&& get_model(r1, o1, k) == get_model(rows, objects, k)
            &&& keys.contains(k) ==> r1.contains_key(k) && r1[k].1 == marker()
            &&& !keys.contains(k) ==> r1.contains_key(k) == rows.contains_key(k)
                && (rows.contains_key(k) ==> r1[k] == rows[k])
        }),
    decreases keys.len(),
{
    if keys.len() > 0 {
        let x = keys[0];
        let (r1, o1) = migrate_row(rows, objects, x);
        let rest = keys.drop_first();
        assert forall|i: int| 0 <= i < rest.len() implies r1.contains_key(#[trigger] rest[i]) && r1[rest[i]].1 != marker() by {
            assert(rest[i] == keys[i + 1]);
            assert(keys[i + 1] != keys[0]);
        }
        assert(rest.no_duplicates());
        lemma_migration_keeps_reads(r1, o1, rest, k);
        assert(get_model(r1, o1, k) == get_model(rows, objects, k));
        if keys.contains(k) && !rest.contains(k) {
            assert(k == x) by {
                let j = choose|j: int| 0 <= j < keys.len() && keys[j] == k;
                if j > 0 {
                    assert(rest[j - 1] == k);
                }
            }
            lemma_migration_keeps_reads(r1, o1, rest, x);
        }
        if !keys.contains(k) {
            assert(k != x);
            assert(!rest.contains(k)) by {
                if rest.contains(k) {
                    let j = choose|j: int| 0 <= j < rest.len() && rest[j] == k;
                    assert(keys[j + 1] == k);
                }
            }
        }
        if rest.contains(k) {
            let j = choose|j: int| 0 <= j < rest.len() && rest[j] == k;
            assert(keys[j + 1] == k);
        }
    }
}

/// Keys ingested under two prefixes of which neither, followed by `/`, starts
/// the other followed by `/` are distinct, so trees ingested under such
/// prefixes never write each other's rows.
pub proof fn lemma_disjoint_prefixes(p1: Seq<char>, r1: Seq<char>, p2: Seq<char>, r2: Seq<char>)
    requires
        p1.len() > 0,
        p2.len() > 0,
        !(p1 + seq!['/']).is_prefix_of(p2 + seq!['/']),
        !(p2 + seq!['/']).is_prefix_of(p1 + seq!['/']),
    ensures
        key_spec(p1, r1) != key_spec(p2, r2),
{
    let a = p1 + seq!['/'];
    let b = p2 + seq!['/'];
    let k1 = key_spec(p1, r1);
    let k2 = key_spec(p2, r2);
    assert(k1 == a + r1);
    assert(k2 == b + r2);
    if k1 == k2 {
        if a.len() <= b.len() {
            assert forall|i: int| 0 <= i < a.len() implies a[i] == b[i] by {
                assert(k1[i] == a[i]);
                assert(k2[i] == b[i]);
            }
            assert(a.is_prefix_of(b));
        } else {
            assert forall|i: int| 0 <= i < b.len() implies b[i] == a[i] by {
                assert(k1[i] == a[i]);
                assert(k2[i] == b[i]);
            }
            assert(b.is_prefix_of(a));
        }
    }
}

} // verus!
