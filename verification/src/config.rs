//! Per-target configuration and the map index: the in-memory inventory of
//! installed maps, its uniqueness invariant, the mutations driven by
//! installs and filesystem events, and the merge rule for configuration
//! updates.

use vstd::prelude::*;
use vstd::string::StringExecFns;

verus! {

broadcast use vstd::string::group_string_axioms;

/// A Valid index entry's payload: where the map sits on disk, its
/// canonical content hash, and the number its catalog id denotes.
pub struct MapMetadata {
    pub path: String,
    pub hash: String,
    pub id: u32,
}

/// One entry of a target's map index: a recognized map, a map the catalog
/// does not know, or a directory that is not a parsable map.
pub enum MapData {
    Valid(MapMetadata),
    /// Hash computed but the catalog returned no match: path, then hash.
    Unknown(String, String),
    /// The directory is not a parsable map.
    Invalid(String),
}

/// The mathematical shape of an index entry, over character sequences.
pub enum EntryModel {
    Valid { path: Seq<char>, hash: Seq<char>, id: u32 },
    Unknown { path: Seq<char>, hash: Seq<char> },
    Invalid { path: Seq<char> },
}

impl View for MapData {
    type V = EntryModel;

    open spec fn view(&self) -> EntryModel {
        match self {
            MapData::Valid(m) => EntryModel::Valid { path: m.path@, hash: m.hash@, id: m.id },
            MapData::Unknown(p, h) => EntryModel::Unknown { path: p@, hash: h@ },
            MapData::Invalid(p) => EntryModel::Invalid { path: p@ },
        }
    }
}

/// The path an entry names; every entry has one.
pub open spec fn entry_path(e: EntryModel) -> Seq<char> {
    match e {
        EntryModel::Valid { path, .. } => path,
        EntryModel::Unknown { path, .. } => path,
        EntryModel::Invalid { path } => path,
    }
}

/// The content hash an entry carries, if it carries one.
pub open spec fn entry_hash(e: EntryModel) -> Option<Seq<char>> {
    match e {
        EntryModel::Valid { hash, .. } => Some(hash),
        EntryModel::Unknown { hash, .. } => Some(hash),
        EntryModel::Invalid { .. } => None,
    }
}

/// The numeric catalog id an entry carries, if it carries one.
pub open spec fn entry_id(e: EntryModel) -> Option<u32> {
    match e {
        EntryModel::Valid { id, .. } => Some(id),
        _ => None,
    }
}

/// The views of a whole index.
pub open spec fn index_view(idx: Seq<MapData>) -> Seq<EntryModel> {
    idx.map_values(|e: MapData| e@)
}

/// Some entry carries this hash: the dedup question.
pub open spec fn index_has_hash(idx: Seq<EntryModel>, h: Seq<char>) -> bool {
    exists|i: int| 0 <= i < idx.len() && entry_hash(idx[i]) == Some(h)
}

/// Some entry carries this numeric id.
pub open spec fn index_has_id(idx: Seq<EntryModel>, id: u32) -> bool {
    exists|i: int| 0 <= i < idx.len() && entry_id(idx[i]) == Some(id)
}

/// Some entry names this path.
pub open spec fn index_has_path(idx: Seq<EntryModel>, p: Seq<char>) -> bool {
    exists|i: int| 0 <= i < idx.len() && entry_path(idx[i]) == p
}

/// The index invariant: no two entries name the same path.
pub open spec fn paths_unique(idx: Seq<EntryModel>) -> bool {
    forall|i: int, j: int|
        0 <= i < idx.len() && 0 <= j < idx.len() && i != j ==> entry_path(idx[i])
            != entry_path(idx[j])
}

impl MapData {
    /// An explicit deep copy, equal to the original.
    pub fn duplicate(&self) -> (r: MapData)
        ensures
            r == *self,
    {
        match self {
            MapData::Valid(m) => MapData::Valid(
                MapMetadata { path: m.path.clone(), hash: m.hash.clone(), id: m.id },
            ),
            MapData::Unknown(p, h) => MapData::Unknown(p.clone(), h.clone()),
            MapData::Invalid(p) => MapData::Invalid(p.clone()),
        }
    }

    /// The path this entry names.
    pub fn path(&self) -> (r: &String)
        ensures
            r@ == entry_path(self@),
    {
        match self {
            MapData::Valid(m) => &m.path,
            MapData::Unknown(p, _) => p,
            MapData::Invalid(p) => p,
        }
    }

    /// Whether this entry carries exactly this content hash.
    pub fn has_hash(&self, hash: &str) -> (r: bool)
        ensures
            r == (entry_hash(self@) == Some(hash@)),
    {
        match self {
            MapData::Valid(m) => crate::chars::str_eq(m.hash.as_str(), hash),
            MapData::Unknown(_, h) => crate::chars::str_eq(h.as_str(), hash),
            MapData::Invalid(_) => false,
        }
    }

    /// Whether this entry is a recognized map whose numeric id is the one
    /// the given hex text denotes; undecodable text counts as id zero.
    pub fn has_id(&self, id: &str) -> (r: bool)
        ensures
            r == (entry_id(self@) == Some(
                match crate::hex::parse_hex_u32_spec(id@) {
                    Some(n) => n,
                    None => 0u32,
                },
            )),
    {
        match self {
            MapData::Valid(m) => {
                let wanted = match crate::hex::parse_hex_u32(&crate::chars::str_to_chars(id)) {
                    Some(n) => n,
                    None => 0,
                };
                m.id == wanted
            },
            MapData::Unknown(_, _) => false,
            MapData::Invalid(_) => false,
        }
    }
}

/// Whether any entry of the index carries this hash: the question the
/// installer queue asks before it installs.
pub fn index_contains_hash(index: &Vec<MapData>, hash: &str) -> (r: bool)
    ensures
        r == index_has_hash(index_view(index@), hash@),
{
    let mut i: usize = 0;
    while i < index.len()
        invariant
            i <= index@.len(),
            forall|k: int| 0 <= k < i as int ==> entry_hash(index_view(index@)[k]) != Some(
                hash@,
            ),
        decreases index.len() - i,
    {
        if index[i].has_hash(hash) {
            proof {
                assert(entry_hash(index_view(index@)[i as int]) == Some(hash@));
            }
            return true;
        }
        i = i + 1;
    }
    false
}

/// Whether any entry is a recognized map with the id this hex text
/// denotes (undecodable text counting as id zero).
pub fn index_contains_id(index: &Vec<MapData>, id: &str) -> (r: bool)
    ensures
        r == index_has_id(
            index_view(index@),
            match crate::hex::parse_hex_u32_spec(id@) {
                Some(n) => n,
                None => 0u32,
            },
        ),
{
    let mut i: usize = 0;
    while i < index.len()
        invariant
            i <= index@.len(),
            forall|k: int| 0 <= k < i as int ==> entry_id(index_view(index@)[k]) != Some(
                match crate::hex::parse_hex_u32_spec(id@) {
                    Some(n) => n,
                    None => 0u32,
                },
            ),
        decreases index.len() - i,
    {
        if index[i].has_id(id) {
            proof {
                assert(entry_id(index_view(index@)[i as int]) is Some);
            }
            return true;
        }
        i = i + 1;
    }
    false
}

/// The index with every entry at path `p` taken out, order kept.
pub open spec fn remove_path(idx: Seq<EntryModel>, p: Seq<char>) -> Seq<EntryModel>
    decreases idx.len(),
{
    if idx.len() == 0 {
        Seq::empty()
    } else if entry_path(idx.last()) == p {
        remove_path(idx.drop_last(), p)
    } else {
        remove_path(idx.drop_last(), p).push(idx.last())
    }
}

/// What removal leaves: exactly the entries at other paths, order kept,
/// and the uniqueness invariant survives.
pub proof fn lemma_remove_path(idx: Seq<EntryModel>, p: Seq<char>)
    ensures
        forall|k: int| 0 <= k < remove_path(idx, p).len() ==> entry_path(
            #[trigger] remove_path(idx, p)[k],
        ) != p,
        forall|e: EntryModel| remove_path(idx, p).contains(e) <==> (idx.contains(e)
            && entry_path(e) != p),
        paths_unique(idx) ==> paths_unique(remove_path(idx, p)),
        remove_path(idx, p).len() <= idx.len(),
        !index_has_path(idx, p) ==> remove_path(idx, p) == idx,
    decreases idx.len(),
{
    if idx.len() > 0 {
        lemma_remove_path(idx.drop_last(), p);
        let rp = remove_path(idx, p);
        let rpd = remove_path(idx.drop_last(), p);
        assert forall|e: EntryModel| rp.contains(e) implies (idx.contains(e) && entry_path(e)
            != p) by {
            if entry_path(idx.last()) != p && e == idx.last() {
                assert(idx.contains(e)) by {
                    assert(idx[idx.len() - 1] == e);
                }
            } else {
                let j = choose|j: int| 0 <= j < rp.len() && rp[j] == e;
                if entry_path(idx.last()) == p {
                    assert(rpd.contains(e));
                } else {
                    if j < rp.len() - 1 {
                        assert(rpd[j] == e);
                        assert(rpd.contains(e));
                    }
                }
                assert(idx.drop_last().contains(e) ==> idx.contains(e)) by {
                    if idx.drop_last().contains(e) {
                        let m = choose|m: int|
                            0 <= m < idx.drop_last().len() && idx.drop_last()[m] == e;
                        assert(idx[m] == e);
                    }
                }
            }
        }
        assert forall|e: EntryModel| (idx.contains(e) && entry_path(e) != p) implies rp.contains(
            e,
        ) by {
            let j = choose|j: int| 0 <= j < idx.len() && idx[j] == e;
            if j == idx.len() - 1 {
                assert(rp[rp.len() - 1] == e);
            } else {
                assert(idx.drop_last()[j] == e);
                assert(idx.drop_last().contains(e));
                assert(rpd.contains(e));
                let m = choose|m: int| 0 <= m < rpd.len() && rpd[m] == e;
                if entry_path(idx.last()) == p {
                } else {
                    assert(rp[m] == e);
                }
            }
        }
        if paths_unique(idx) {
            assert(paths_unique(idx.drop_last())) by {
                assert(forall|i: int, j: int|
                    0 <= i < idx.drop_last().len() && 0 <= j < idx.drop_last().len() && i != j
                        ==> entry_path(#[trigger] idx.drop_last()[i]) != entry_path(
                        #[trigger] idx.drop_last()[j],
                    ));
            }
            if entry_path(idx.last()) != p {
                assert forall|i: int, j: int|
                    0 <= i < rp.len() && 0 <= j < rp.len() && i != j implies entry_path(rp[i])
                    != entry_path(rp[j]) by {
                    if i < rp.len() - 1 && j < rp.len() - 1 {
                    } else {
                        let k = if i == rp.len() - 1 {
                            j
                        } else {
                            i
                        };
                        if k < rp.len() - 1 {
                            assert(rpd.contains(rp[k])) by {
                                assert(rpd[k] == rp[k]);
                            }
                            assert(idx.drop_last().contains(rp[k]));
                            let m = choose|m: int|
                                0 <= m < idx.drop_last().len() && idx.drop_last()[m] == rp[k];
                            assert(entry_path(idx[m]) != entry_path(idx.last()));
                        }
                    }
                }
            }
        }
        if !index_has_path(idx, p) {
            assert(entry_path(idx.last()) != p) by {
                assert(entry_path(idx[idx.len() - 1]) == entry_path(idx.last()));
            }
            assert(!index_has_path(idx.drop_last(), p)) by {
                if index_has_path(idx.drop_last(), p) {
                    let m = choose|m: int|
                        0 <= m < idx.drop_last().len() && entry_path(idx.drop_last()[m]) == p;
                    assert(entry_path(idx[m]) == p);
                }
            }
            assert(rp =~= idx);
        }
    }
}

/// Removes every entry at this path from the index, handing back the
/// first removed entry; exactly the entries at other paths stay, in
/// their order.
pub fn index_remove_path(index: &mut Vec<MapData>, path: &str) -> (removed: Option<MapData>)
    ensures
        index_view(final(index)@) == remove_path(index_view(old(index)@), path@),
        removed is Some <==> index_has_path(index_view(old(index)@), path@),
        removed matches Some(e) ==> exists|i: int|
            0 <= i < old(index)@.len() && old(index)@[i] == e && entry_path(e@) == path@,
{
    let ghost old_view = index_view(index@);
    let mut kept: Vec<MapData> = Vec::new();
    let mut removed: Option<MapData> = None;
    let mut i: usize = 0;
    while i < index.len()
        invariant
            i <= index@.len(),
            index_view(index@) == old_view,
            index@.len() == old_view.len(),
            index_view(kept@) == remove_path(old_view.take(i as int), path@),
            removed is Some <==> index_has_path(old_view.take(i as int), path@),
            removed matches Some(e) ==> exists|k: int|
                0 <= k < index@.len() && index@[k] == e && entry_path(e@) == path@,
        decreases index.len() - i,
    {
        proof {
            assert(old_view.take(i as int + 1).drop_last() =~= old_view.take(i as int));
            assert(old_view.take(i as int + 1).last() == old_view[i as int]);
        }
        let e = &index[i];
        if crate::chars::str_eq(e.path().as_str(), path) {
            if removed.is_none() {
                let d = e.duplicate();
                proof {
                    assert(index@[i as int] == d);
                }
                removed = Some(d);
            }
            proof {
                assert(index_has_path(old_view.take(i as int + 1), path@)) by {
                    assert(entry_path(old_view.take(i as int + 1)[i as int]) == path@);
                }
            }
        } else {
            kept.push(e.duplicate());
            proof {
                assert(index_view(kept@) =~= remove_path(old_view.take(i as int), path@).push(
                    old_view[i as int],
                ));
                assert(index_has_path(old_view.take(i as int + 1), path@)
                    == index_has_path(old_view.take(i as int), path@)) by {
                    if index_has_path(old_view.take(i as int), path@) {
                        let m = choose|m: int|
                            0 <= m < i as int && entry_path(old_view.take(i as int)[m]) == path@;
                        assert(entry_path(old_view.take(i as int + 1)[m]) == path@);
                    }
                    if index_has_path(old_view.take(i as int + 1), path@) {
                        let m = choose|m: int|
                            0 <= m < i as int + 1 && entry_path(
                                #[trigger] old_view.take(i as int + 1)[m],
                            ) == path@;
                        assert(m < i as int);
                        assert(entry_path(old_view.take(i as int)[m]) == path@);
                    }
                }
            }
        }
        i = i + 1;
    }
    proof {
        assert(old_view.take(old_view.len() as int) =~= old_view);
    }
    *index = kept;
    removed
}

/// Inserting `e` with the idempotent discipline keeps paths unique: the
/// entry's own path was just removed, and removal keeps all others
/// distinct.
pub proof fn lemma_insert_unique(idx: Seq<EntryModel>, e: EntryModel)
    requires
        paths_unique(idx),
    ensures
        paths_unique(remove_path(idx, entry_path(e)).push(e)),
{
    lemma_remove_path(idx, entry_path(e));
    let rp = remove_path(idx, entry_path(e));
    let out = rp.push(e);
    assert forall|i: int, j: int|
        0 <= i < out.len() && 0 <= j < out.len() && i != j implies entry_path(out[i])
        != entry_path(out[j]) by {
        if i < rp.len() && j < rp.len() {
            assert(entry_path(rp[i]) != entry_path(rp[j]));
        } else {
            let k = if i < rp.len() {
                i
            } else {
                j
            };
            assert(entry_path(rp[k]) != entry_path(e));
        }
    }
}

/// Puts an entry into the index idempotently: any previous entry at the
/// same path leaves first, then the entry goes at the end. The
/// uniqueness invariant survives.
pub fn index_insert(index: &mut Vec<MapData>, e: MapData)
    requires
        paths_unique(index_view(old(index)@)),
    ensures
        index_view(final(index)@) == remove_path(index_view(old(index)@), entry_path(e@)).push(
            e@,
        ),
        paths_unique(index_view(final(index)@)),
{
    let ghost old_view = index_view(index@);
    let p = e.path().clone();
    index_remove_path(index, p.as_str());
    proof {
        lemma_insert_unique(old_view, e@);
    }
    index.push(e);
    proof {
        assert(index_view(index@) =~= remove_path(old_view, entry_path(e@)).push(e@));
    }
}

/// The catalog's verdict on one content hash: a record with this numeric
/// id, a definite "not known" answer, or a transient failure that
/// decides nothing.
#[derive(Clone, Copy)]
pub enum CatalogLookup {
    Found(u32),
    NotFound,
    Transient,
}

/// What hashing a new directory produced: a canonical hash together with
/// the catalog's verdict on it, or no hash at all.
pub enum HashOutcome {
    Hashed(String, CatalogLookup),
    Unparsable,
}

/// The entry a watcher `Create` event adds: a recognized map when the
/// catalog knows the hash, an unknown-origin entry when it answers
/// anything else, and an invalid entry when the directory is not a map.
pub open spec fn watcher_entry_model(path: Seq<char>, outcome: HashOutcome) -> EntryModel {
    match outcome {
        HashOutcome::Hashed(h, CatalogLookup::Found(id)) => EntryModel::Valid {
            path,
            hash: h@,
            id,
        },
        HashOutcome::Hashed(h, _) => EntryModel::Unknown { path, hash: h@ },
        HashOutcome::Unparsable => EntryModel::Invalid { path },
    }
}

/// Applies a watcher `Create` event: the new directory's entry goes into
/// the index, replacing whatever entry the path had.
pub fn watcher_created(index: &mut Vec<MapData>, path: String, outcome: HashOutcome)
    requires
        paths_unique(index_view(old(index)@)),
    ensures
        index_view(final(index)@) == remove_path(index_view(old(index)@), path@).push(
            watcher_entry_model(path@, outcome),
        ),
        paths_unique(index_view(final(index)@)),
{
    let ghost target = watcher_entry_model(path@, outcome);
    let entry = match outcome {
        HashOutcome::Hashed(h, CatalogLookup::Found(id)) => MapData::Valid(
            MapMetadata { path, hash: h, id },
        ),
        HashOutcome::Hashed(h, _) => MapData::Unknown(path, h),
        HashOutcome::Unparsable => MapData::Invalid(path),
    };
    proof {
        assert(entry@ == target);
    }
    index_insert(index, entry);
}

/// Applies a watcher `Remove` event: every entry at the path leaves the
/// index. The first removed entry comes back so the caller can audit a
/// deleted recognized map; `None` means the path was not indexed.
pub fn watcher_removed(index: &mut Vec<MapData>, path: &str) -> (removed: Option<MapData>)
    requires
        paths_unique(index_view(old(index)@)),
    ensures
        index_view(final(index)@) == remove_path(index_view(old(index)@), path@),
        paths_unique(index_view(final(index)@)),
        removed is Some <==> index_has_path(index_view(old(index)@), path@),
        removed matches Some(e) ==> exists|i: int|
            0 <= i < old(index)@.len() && old(index)@[i] == e && entry_path(e@) == path@,
{
    proof {
        lemma_remove_path(index_view(index@), path@);
    }
    index_remove_path(index, path)
}

/// The entry as it reads after a rename to `new_path`: same kind, hash
/// and id, new path.
pub open spec fn relocated(e: EntryModel, new_path: Seq<char>) -> EntryModel {
    match e {
        EntryModel::Valid { hash, id, .. } => EntryModel::Valid { path: new_path, hash, id },
        EntryModel::Unknown { hash, .. } => EntryModel::Unknown { path: new_path, hash },
        EntryModel::Invalid { .. } => EntryModel::Invalid { path: new_path },
    }
}

/// Applies a watcher `Rename` event: the entry at the old path moves to
/// the new path, keeping its kind, hash and id. When no entry sat at the
/// old path the index stays as it was and the caller must treat the new
/// path as freshly created.
pub fn watcher_renamed(index: &mut Vec<MapData>, old_path: &str, new_path: String) -> (found:
    bool)
    requires
        paths_unique(index_view(old(index)@)),
    ensures
        found == index_has_path(index_view(old(index)@), old_path@),
        paths_unique(index_view(final(index)@)),
        !found ==> index_view(final(index)@) == index_view(old(index)@),
        found ==> exists|i: int|
            0 <= i < index_view(old(index)@).len() && entry_path(
                #[trigger] index_view(old(index)@)[i],
            ) == old_path@ && index_view(final(index)@) == remove_path(
                remove_path(index_view(old(index)@), old_path@),
                new_path@,
            ).push(relocated(index_view(old(index)@)[i], new_path@)),
{
    let ghost old_view = index_view(index@);
    proof {
        lemma_remove_path(old_view, old_path@);
    }
    let removed = index_remove_path(index, old_path);
    match removed {
        Some(e) => {
            let moved = match e {
                MapData::Valid(m) => MapData::Valid(
                    MapMetadata { path: new_path, hash: m.hash, id: m.id },
                ),
                MapData::Unknown(_, h) => MapData::Unknown(new_path, h),
                MapData::Invalid(_) => MapData::Invalid(new_path),
            };
            index_insert(index, moved);
            proof {
                let i = choose|i: int|
                    0 <= i < old(index)@.len() && old(index)@[i] == e && entry_path(e@)
                        == old_path@;
                assert(index_view(old(index)@)[i] == e@);
                assert(moved@ == relocated(e@, new_path@));
                assert(entry_path(moved@) == new_path@);
            }
            true
        },
        None => false,
    }
}

/// One result of scanning a maps directory: a hashed subdirectory with
/// the catalog's verdict on its hash, a subdirectory that is not a
/// parsable map, or a fault that indexes nothing and is reported back.
pub enum ScanResult {
    /// Path, canonical hash, and the catalog's verdict on the hash.
    Hashed(String, String, CatalogLookup),
    /// The subdirectory at this path is not a parsable map.
    ParseFailed(String),
    /// Enumeration or task fault; nothing is indexed for it.
    Faulted(crate::map_index::IndexError),
}

/// The entry a rebuild records for one scan result, if it records one:
/// a recognized map on a catalog match, an unknown-origin entry on a
/// definite "not known", an invalid entry on a parse failure — and
/// nothing on a transient catalog failure or a fault, so the directory
/// is retried on the next rebuild.
pub open spec fn scan_entry_model(s: ScanResult) -> Option<EntryModel> {
    match s {
        ScanResult::Hashed(p, h, CatalogLookup::Found(id)) => Some(
            EntryModel::Valid { path: p@, hash: h@, id },
        ),
        ScanResult::Hashed(p, h, CatalogLookup::NotFound) => Some(
            EntryModel::Unknown { path: p@, hash: h@ },
        ),
        ScanResult::Hashed(_, _, CatalogLookup::Transient) => None,
        ScanResult::ParseFailed(p) => Some(EntryModel::Invalid { path: p@ }),
        ScanResult::Faulted(_) => None,
    }
}

/// The index after a rebuild folds in each scan result in order, every
/// recorded entry inserted idempotently.
pub open spec fn apply_scans(idx: Seq<EntryModel>, scans: Seq<ScanResult>) -> Seq<EntryModel>
    decreases scans.len(),
{
    if scans.len() == 0 {
        idx
    } else {
        let prev = apply_scans(idx, scans.drop_last());
        match scan_entry_model(scans.last()) {
            Some(e) => remove_path(prev, entry_path(e)).push(e),
            None => prev,
        }
    }
}

/// The faults a scan reports back, in scan order.
pub open spec fn scan_faults(scans: Seq<ScanResult>) -> Seq<crate::map_index::IndexError>
    decreases scans.len(),
{
    if scans.len() == 0 {
        Seq::empty()
    } else {
        let rest = scan_faults(scans.drop_last());
        match scans.last() {
            ScanResult::Faulted(err) => rest.push(err),
            _ => rest,
        }
    }
}

/// What the latest scan of a path records survives the rebuild: the
/// recorded entry is in the rebuilt index whenever no later scan result
/// records anything at the same path. In particular, a directory the
/// catalog keeps answering "not known" for keeps its unknown-origin
/// entry across rebuilds.
pub proof fn lemma_rebuild_keeps_last_entry(
    idx: Seq<EntryModel>,
    scans: Seq<ScanResult>,
    k: int,
    e: EntryModel,
)
    requires
        0 <= k < scans.len(),
        scan_entry_model(scans[k]) == Some(e),
        forall|m: int| k < m < scans.len() ==> (match scan_entry_model(#[trigger] scans[m]) {
            Some(e2) => entry_path(e2) != entry_path(e),
            None => true,
        }),
    ensures
        apply_scans(idx, scans).contains(e),
    decreases scans.len(),
{
    let out = apply_scans(idx, scans);
    if k == scans.len() - 1 {
        let prev = apply_scans(idx, scans.drop_last());
        assert(out == remove_path(prev, entry_path(e)).push(e));
        assert(out[out.len() - 1] == e);
    } else {
        assert(scans.drop_last()[k] == scans[k]);
        lemma_rebuild_keeps_last_entry(idx, scans.drop_last(), k, e);
        let prev = apply_scans(idx, scans.drop_last());
        match scan_entry_model(scans.last()) {
            Some(e2) => {
                assert(entry_path(e2) != entry_path(e)) by {
                    assert(scans[scans.len() - 1] == scans.last());
                }
                lemma_remove_path(prev, entry_path(e2));
                assert(remove_path(prev, entry_path(e2)).contains(e));
                let w = choose|w: int|
                    0 <= w < remove_path(prev, entry_path(e2)).len() && remove_path(
                        prev,
                        entry_path(e2),
                    )[w] == e;
                assert(out[w] == e);
            },
            None => {},
        }
    }
}

/// Rebuilds a target's index from a directory scan: each scan result is
/// folded in, in order, with the idempotent insert, and the faults come
/// back in scan order. An entry whose catalog lookup failed transiently
/// is left unindexed, to be retried on the next rebuild.
pub fn rebuild_index(index: &mut Vec<MapData>, scans: &Vec<ScanResult>) -> (errors: Vec<
    crate::map_index::IndexError,
>)
    requires
        paths_unique(index_view(old(index)@)),
    ensures
        index_view(final(index)@) == apply_scans(index_view(old(index)@), scans@),
        paths_unique(index_view(final(index)@)),
        errors@ == scan_faults(scans@),
{
    let ghost old_view = index_view(index@);
    let mut errors: Vec<crate::map_index::IndexError> = Vec::new();
    let mut i: usize = 0;
    while i < scans.len()
        invariant
            i <= scans@.len(),
            paths_unique(index_view(index@)),
            index_view(index@) == apply_scans(old_view, scans@.take(i as int)),
            errors@ == scan_faults(scans@.take(i as int)),
        decreases scans.len() - i,
    {
        proof {
            assert(scans@.take(i as int + 1).drop_last() =~= scans@.take(i as int));
            assert(scans@.take(i as int + 1).last() == scans@[i as int]);
        }
        match &scans[i] {
            ScanResult::Hashed(p, h, lookup) => {
                match lookup {
                    CatalogLookup::Found(id) => {
                        let entry = MapData::Valid(
                            MapMetadata { path: p.clone(), hash: h.clone(), id: *id },
                        );
                        proof {
                            assert(Some(entry@) == scan_entry_model(scans@[i as int]));
                        }
                        index_insert(index, entry);
                    },
                    CatalogLookup::NotFound => {
                        let entry = MapData::Unknown(p.clone(), h.clone());
                        proof {
                            assert(Some(entry@) == scan_entry_model(scans@[i as int]));
                        }
                        index_insert(index, entry);
                    },
                    CatalogLookup::Transient => {},
                }
            },
            ScanResult::ParseFailed(p) => {
                let entry = MapData::Invalid(p.clone());
                proof {
                    assert(Some(entry@) == scan_entry_model(scans@[i as int]));
                }
                index_insert(index, entry);
            },
            ScanResult::Faulted(err) => {
                errors.push(err.duplicate());
            },
        }
        i = i + 1;
    }
    proof {
        assert(scans@.take(scans@.len() as int) =~= scans@);
    }
    errors
}

/// The kind of game installation a target is.
#[derive(Clone, Copy, PartialEq, Eq, Structural)]
pub enum InstallType {
    PC,
    Quest,
}

/// The text a target kind reads and writes as.
pub open spec fn install_type_name(t: InstallType) -> Seq<char> {
    match t {
        InstallType::PC => "PC"@,
        InstallType::Quest => "Quest"@,
    }
}

impl InstallType {
    /// The kind's configured spelling.
    pub fn to_string(&self) -> (r: String)
        ensures
            r@ == install_type_name(*self),
    {
        match self {
            InstallType::PC => String::from_str("PC"),
            InstallType::Quest => String::from_str("Quest"),
        }
    }

    /// The kind a configured spelling denotes; only the two exact
    /// spellings are accepted.
    pub fn from_str(s: &str) -> (r: Result<InstallType, ()>)
        ensures
            s@ == "PC"@ ==> r == Ok::<InstallType, ()>(InstallType::PC),
            s@ == "Quest"@ ==> r == Ok::<InstallType, ()>(InstallType::Quest),
            s@ != "PC"@ && s@ != "Quest"@ ==> r is Err,
    {
        proof {
            reveal_strlit("PC");
            reveal_strlit("Quest");
            assert("PC"@.len() == 2);
            assert("Quest"@.len() == 5);
            assert("PC"@ != "Quest"@);
        }
        if crate::chars::str_eq(s, "PC") {
            Ok(InstallType::PC)
        } else if crate::chars::str_eq(s, "Quest") {
            Ok(InstallType::Quest)
        } else {
            Err(())
        }
    }
}

/// One configured install destination: stable identifier, opaque REST
/// token, kind, and install location (a directory for PC; a device
/// address or on-device host URL for Quest).
pub struct ConfigData {
    pub id: String,
    pub rest_token: String,
    pub install_type: InstallType,
    pub install_location: String,
}

/// The mathematical shape of a target configuration.
pub struct ConfigModel {
    pub id: Seq<char>,
    pub rest_token: Seq<char>,
    pub install_type: InstallType,
    pub install_location: Seq<char>,
}

impl View for ConfigData {
    type V = ConfigModel;

    open spec fn view(&self) -> ConfigModel {
        ConfigModel {
            id: self.id@,
            rest_token: self.rest_token@,
            install_type: self.install_type,
            install_location: self.install_location@,
        }
    }
}

impl ConfigData {
    /// An explicit deep copy, equal to the original.
    pub fn duplicate(&self) -> (r: ConfigData)
        ensures
            r == *self,
    {
        ConfigData {
            id: self.id.clone(),
            rest_token: self.rest_token.clone(),
            install_type: self.install_type,
            install_location: self.install_location.clone(),
        }
    }
}

/// An entry the daemon's audit trail can record.
pub enum AuditLogAction {
    MapInstall(crate::beatsaver::BeatSaverMap),
    ModInstall(String),
    MapDelete(u32, String),
    ModDelete(String),
}

/// Relies on `uuid::Uuid::new_v4` and the hyphenated rendering: a fresh
/// random identifier, 36 characters in the hyphenated form. The value is
/// random, so nothing more is promised of it.
#[verifier::external_body]
fn fresh_uuid() -> (r: String)
    ensures
        r@.len() == 36,
{
    uuid::Uuid::new_v4().to_hyphenated().to_string()
}

/// Builds a target configuration from the fields a configuration
/// document carries. The token, kind and location are all required and
/// the kind must be a known spelling; a missing id gets a fresh one.
pub fn config_from_fields(
    id: Option<String>,
    rest_token: Option<String>,
    install_type: Option<String>,
    install_location: Option<String>,
) -> (r: Result<ConfigData, ()>)
    ensures
        r is Ok <==> (rest_token is Some && install_location is Some && (
        install_type matches Some(t) && (t@ == "PC"@ || t@ == "Quest"@))),
        r matches Ok(c) ==> {
            &&& c.rest_token == rest_token.unwrap()
            &&& c.install_location == install_location.unwrap()
            &&& install_type_name(c.install_type) == install_type.unwrap()@
            &&& (id matches Some(given) ==> c.id == given)
            &&& (id is None ==> c.id@.len() == 36)
        },
{
    let parsed_type = match &install_type {
        Some(t) => match InstallType::from_str(t.as_str()) {
            Ok(k) => Some(k),
            Err(_) => None,
        },
        None => None,
    };
    match (rest_token, parsed_type, install_location) {
        (Some(token), Some(kind), Some(location)) => {
            let the_id = match id {
                Some(given) => given,
                None => fresh_uuid(),
            };
            Ok(
                ConfigData {
                    id: the_id,
                    rest_token: token,
                    install_type: kind,
                    install_location: location,
                },
            )
        },
        _ => Err(()),
    }
}

/// The four fields a target writes into its configuration document, in
/// order: id, REST token, kind, and install location, under their
/// configured key spellings.
pub fn config_to_fields(c: &ConfigData) -> (r: Vec<(String, String)>)
    ensures
        r@.len() == 4,
        r@[0].0@ == "id"@ && r@[0].1 == c.id,
        r@[1].0@ == "restToken"@ && r@[1].1 == c.rest_token,
        r@[2].0@ == "installType"@ && r@[2].1@ == install_type_name(c.install_type),
        r@[3].0@ == "installLocation"@ && r@[3].1 == c.install_location,
{
    let mut fields: Vec<(String, String)> = Vec::new();
    fields.push((String::from_str("id"), c.id.clone()));
    fields.push((String::from_str("restToken"), c.rest_token.clone()));
    fields.push((String::from_str("installType"), c.install_type.to_string()));
    fields.push((String::from_str("installLocation"), c.install_location.clone()));
    fields
}

/// The views of a list of configurations.
pub open spec fn config_views(cs: Seq<ConfigData>) -> Seq<ConfigModel> {
    cs.map_values(|c: ConfigData| c@)
}

/// Some configuration carries this id.
pub open spec fn has_cfg_id(cs: Seq<ConfigModel>, id: Seq<char>) -> bool {
    exists|k: int| 0 <= k < cs.len() && cs[k].id == id
}

/// The configuration invariant: ids are pairwise distinct.
pub open spec fn cfg_ids_unique(cs: Seq<ConfigModel>) -> bool {
    forall|i: int, j: int|
        0 <= i < cs.len() && 0 <= j < cs.len() && i != j ==> cs[i].id != cs[j].id
}

/// The configuration in the list that carries this id (meaningful when
/// one does).
pub open spec fn find_cfg(cs: Seq<ConfigModel>, id: Seq<char>) -> ConfigModel {
    cs[choose|k: int| 0 <= k < cs.len() && cs[k].id == id]
}

/// A target changed in a way that invalidates its map index: its kind or
/// its install location differs.
pub open spec fn cfg_changed(before: ConfigModel, after: ConfigModel) -> bool {
    before.install_type != after.install_type || before.install_location
        != after.install_location
}

/// The configurations after the update: each current entry replaced by
/// the incoming one with its id, the others kept, order kept.
pub open spec fn updated_configs(cs: Seq<ConfigModel>, inc: Seq<ConfigModel>) -> Seq<
    ConfigModel,
> {
    cs.map_values(
        |x: ConfigModel|
            if has_cfg_id(inc, x.id) {
                find_cfg(inc, x.id)
            } else {
                x
            },
    )
}

/// The incoming configurations whose id the current list does not have,
/// in incoming order: the ones the update appends.
pub open spec fn new_configs(cs: Seq<ConfigModel>, inc: Seq<ConfigModel>) -> Seq<ConfigModel>
    decreases inc.len(),
{
    if inc.len() == 0 {
        Seq::empty()
    } else {
        let rest = new_configs(cs, inc.drop_last());
        if has_cfg_id(cs, inc.last().id) {
            rest
        } else {
            rest.push(inc.last())
        }
    }
}

/// The ids of current targets the update changes in kind or location, in
/// current order: exactly the targets whose map index must be rebuilt.
pub open spec fn changed_ids(cs: Seq<ConfigModel>, inc: Seq<ConfigModel>) -> Seq<Seq<char>>
    decreases cs.len(),
{
    if cs.len() == 0 {
        Seq::empty()
    } else {
        let rest = changed_ids(cs.drop_last(), inc);
        if has_cfg_id(inc, cs.last().id) && cfg_changed(cs.last(), find_cfg(inc, cs.last().id)) {
            rest.push(cs.last().id)
        } else {
            rest
        }
    }
}

/// The views of a list of id strings.
pub open spec fn string_views(ss: Seq<String>) -> Seq<Seq<char>> {
    ss.map_values(|s: String| s@)
}

/// A rebuild is scheduled for exactly the targets the update changes: an
/// id is among `changed_ids` precisely when a current target carries it
/// and the incoming list carries it with another kind or location. Every
/// other target keeps its index.
pub proof fn lemma_rebuild_exactly_changed(
    cs: Seq<ConfigModel>,
    inc: Seq<ConfigModel>,
    id: Seq<char>,
)
    requires
        cfg_ids_unique(inc),
    ensures
        changed_ids(cs, inc).contains(id) <==> exists|j: int, k: int|
            0 <= j < cs.len() && 0 <= k < inc.len() && cs[j].id == id && inc[k].id == id
                && cfg_changed(#[trigger] cs[j], #[trigger] inc[k]),
    decreases cs.len(),
{
    if cs.len() > 0 {
        lemma_rebuild_exactly_changed(cs.drop_last(), inc, id);
        let rest = changed_ids(cs.drop_last(), inc);
        let out = changed_ids(cs, inc);
        if has_cfg_id(inc, cs.last().id) && cfg_changed(cs.last(), find_cfg(inc, cs.last().id)) {
            assert(out == rest.push(cs.last().id));
            if out.contains(id) {
                let m = choose|m: int| 0 <= m < out.len() && out[m] == id;
                if m == out.len() - 1 {
                    let k = choose|k: int| 0 <= k < inc.len() && inc[k].id == cs.last().id;
                    assert(cs[cs.len() - 1].id == id);
                    assert(cfg_changed(cs[cs.len() - 1], inc[k]));
                } else {
                    assert(rest[m] == id);
                    assert(rest.contains(id));
                    let (j, k) = choose|j: int, k: int|
                        0 <= j < cs.drop_last().len() && 0 <= k < inc.len() && cs.drop_last()[j].id
                            == id && inc[k].id == id && cfg_changed(
                            #[trigger] cs.drop_last()[j],
                            #[trigger] inc[k],
                        );
                    assert(cs[j].id == id && cfg_changed(cs[j], inc[k]));
                }
            }
            if exists|j: int, k: int|
                0 <= j < cs.len() && 0 <= k < inc.len() && cs[j].id == id && inc[k].id == id
                    && cfg_changed(#[trigger] cs[j], #[trigger] inc[k]) {
                let (j, k) = choose|j: int, k: int|
                    0 <= j < cs.len() && 0 <= k < inc.len() && cs[j].id == id && inc[k].id == id
                        && cfg_changed(#[trigger] cs[j], #[trigger] inc[k]);
                if j == cs.len() - 1 {
                    assert(out[out.len() - 1] == id);
                } else {
                    assert(cs.drop_last()[j] == cs[j]);
                    assert(rest.contains(id));
                    let m = choose|m: int| 0 <= m < rest.len() && rest[m] == id;
                    assert(out[m] == id);
                }
            }
        } else {
            assert(out == rest);
            if exists|j: int, k: int|
                0 <= j < cs.len() && 0 <= k < inc.len() && cs[j].id == id && inc[k].id == id
                    && cfg_changed(#[trigger] cs[j], #[trigger] inc[k]) {
                let (j, k) = choose|j: int, k: int|
                    0 <= j < cs.len() && 0 <= k < inc.len() && cs[j].id == id && inc[k].id == id
                        && cfg_changed(#[trigger] cs[j], #[trigger] inc[k]);
                if j == cs.len() - 1 {
                    // the last entry is either unmatched or unchanged, so
                    // this pairing cannot be a change
                    assert(has_cfg_id(inc, cs.last().id)) by {
                        assert(inc[k].id == cs.last().id);
                    }
                    let k2 = choose|k2: int| 0 <= k2 < inc.len() && inc[k2].id == cs.last().id;
                    assert(inc[k2] == find_cfg(inc, cs.last().id));
                    assert(k == k2);
                    assert(false);
                } else {
                    assert(cs.drop_last()[j] == cs[j]);
                }
            }
            if rest.contains(id) {
                let (j, k) = choose|j: int, k: int|
                    0 <= j < cs.drop_last().len() && 0 <= k < inc.len() && cs.drop_last()[j].id
                        == id && inc[k].id == id && cfg_changed(
                        #[trigger] cs.drop_last()[j],
                        #[trigger] inc[k],
                    );
                assert(cs[j].id == id && cfg_changed(cs[j], inc[k]));
            }
        }
    }
}

/// Looks a configuration list up by id.
fn find_by_id(cs: &Vec<ConfigData>, id: &str) -> (r: Option<usize>)
    ensures
        r matches Some(k) ==> (k as int) < cs@.len() && config_views(cs@)[k as int].id == id@,
        r is None <==> !has_cfg_id(config_views(cs@), id@),
{
    let mut k: usize = 0;
    while k < cs.len()
        invariant
            k <= cs@.len(),
            forall|m: int| 0 <= m < k as int ==> config_views(cs@)[m].id != id@,
        decreases cs.len() - k,
    {
        if crate::chars::str_eq(cs[k].id.as_str(), id) {
            proof {
                assert(config_views(cs@)[k as int].id == id@);
            }
            return Some(k);
        }
        k = k + 1;
    }
    None
}

/// Applies a configuration update: each incoming target replaces the
/// current one with its id in place, targets with new ids are appended
/// in incoming order, and the ids whose kind or location changed come
/// back as the targets whose map index must be rebuilt. Target ids are
/// unique on both sides: the current list keeps that invariant, and the
/// caller drops duplicate ids from a client's update before merging.
pub fn merge_configs(current: &Vec<ConfigData>, incoming: &Vec<ConfigData>) -> (r: (
    Vec<ConfigData>,
    Vec<String>,
))
    requires
        cfg_ids_unique(config_views(current@)),
        cfg_ids_unique(config_views(incoming@)),
    ensures
        config_views(r.0@) == updated_configs(config_views(current@), config_views(incoming@))
            + new_configs(config_views(current@), config_views(incoming@)),
        string_views(r.1@) == changed_ids(config_views(current@), config_views(incoming@)),
{
    let ghost cur_views = config_views(current@);
    let ghost inc_views = config_views(incoming@);
    let mut merged: Vec<ConfigData> = Vec::new();
    let mut needs: Vec<String> = Vec::new();
    // replace in place
    let mut j: usize = 0;
    while j < current.len()
        invariant
            j <= current@.len(),
            cur_views == config_views(current@),
            inc_views == config_views(incoming@),
            cfg_ids_unique(inc_views),
            merged@.len() == j as int,
            forall|m: int| 0 <= m < j as int ==> config_views(merged@)[m] == updated_configs(
                cur_views,
                inc_views,
            )[m],
            string_views(needs@) == changed_ids(cur_views.take(j as int), inc_views),
        decreases current.len() - j,
    {
        proof {
            assert(cur_views.take(j as int + 1).drop_last() =~= cur_views.take(j as int));
            assert(cur_views.take(j as int + 1).last() == cur_views[j as int]);
        }
        let c = &current[j];
        match find_by_id(incoming, c.id.as_str()) {
            Some(k) => {
                proof {
                    let k2 = choose|k2: int|
                        0 <= k2 < inc_views.len() && inc_views[k2].id == cur_views[j as int].id;
                    assert(k2 == k as int);
                    assert(find_cfg(inc_views, cur_views[j as int].id) == inc_views[k as int]);
                }
                if c.install_type != incoming[k].install_type || !crate::chars::str_eq(
                    c.install_location.as_str(),
                    incoming[k].install_location.as_str(),
                ) {
                    needs.push(incoming[k].id.clone());
                    proof {
                        assert(string_views(needs@) =~= changed_ids(
                            cur_views.take(j as int),
                            inc_views,
                        ).push(cur_views[j as int].id));
                    }
                } else {
                    proof {
                        assert(!cfg_changed(
                            cur_views[j as int],
                            find_cfg(inc_views, cur_views[j as int].id),
                        ));
                    }
                }
                merged.push(incoming[k].duplicate());
            },
            None => {
                merged.push(c.duplicate());
            },
        }
        j = j + 1;
    }
    proof {
        assert(cur_views.take(cur_views.len() as int) =~= cur_views);
        assert(config_views(merged@) =~= updated_configs(cur_views, inc_views));
    }
    let ghost prefix = config_views(merged@);
    proof {
        assert(inc_views.take(0) =~= Seq::<ConfigModel>::empty());
        assert(prefix + new_configs(cur_views, inc_views.take(0)) =~= prefix);
    }
    // append targets with new ids
    let mut k: usize = 0;
    while k < incoming.len()
        invariant
            k <= incoming@.len(),
            cur_views == config_views(current@),
            inc_views == config_views(incoming@),
            config_views(merged@) == prefix + new_configs(cur_views, inc_views.take(k as int)),
        decreases incoming.len() - k,
    {
        proof {
            assert(inc_views.take(k as int + 1).drop_last() =~= inc_views.take(k as int));
            assert(inc_views.take(k as int + 1).last() == inc_views[k as int]);
        }
        match find_by_id(current, incoming[k].id.as_str()) {
            Some(_) => {
                proof {
                    assert(has_cfg_id(cur_views, inc_views[k as int].id));
                }
            },
            None => {
                let d = incoming[k].duplicate();
                let ghost prev = merged@;
                proof {
                    assert(d@ == inc_views[k as int]);
                }
                merged.push(d);
                proof {
                    let rhs = prefix + new_configs(cur_views, inc_views.take(k as int)).push(
                        inc_views[k as int],
                    );
                    assert(new_configs(cur_views, inc_views.take(k as int + 1)) == new_configs(
                        cur_views,
                        inc_views.take(k as int),
                    ).push(inc_views[k as int]));
                    assert(merged@ == prev.push(d));
                    assert(config_views(prev) == prefix + new_configs(
                        cur_views,
                        inc_views.take(k as int),
                    ));
                    assert(config_views(prev).len() == prev.len());
                    assert(config_views(merged@).len() == merged@.len());
                    assert forall|m: int|
                        0 <= m < config_views(merged@).len() implies config_views(merged@)[m]
                        == rhs[m] by {
                        let nc = new_configs(cur_views, inc_views.take(k as int));
                        assert(config_views(prev) == prefix + nc);
                        assert(config_views(prev).len() == prev.len());
                        assert(prev.len() == prefix.len() + nc.len());
                        if m < prev.len() {
                            assert(merged@[m] == prev[m]);
                            assert(config_views(merged@)[m] == merged@[m]@);
                            assert(config_views(prev)[m] == prev[m]@);
                            assert(rhs[m] == (prefix + nc)[m]);
                        } else {
                            assert(m == prev.len());
                            assert(merged@[m] == d);
                            assert(config_views(merged@)[m] == d@);
                            assert(rhs[m] == inc_views[k as int]);
                        }
                    }
                    assert(config_views(merged@).len() == merged@.len());
                    assert(config_views(merged@) =~= rhs);
                }
            },
        }
        k = k + 1;
    }
    proof {
        assert(inc_views.take(inc_views.len() as int) =~= inc_views);
    }
    (merged, needs)
}

} // verus!
