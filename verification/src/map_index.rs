//! Canonical content hashing of a map directory.
//!
//! The canonical hash of a map is SHA-1 over the raw bytes of its
//! `info.dat` manifest followed by the raw bytes of every difficulty file
//! the manifest names, in the order the manifest declares them. The host
//! application reads the files; this module extracts the declared
//! filenames from the manifest and computes the hash of the assembled
//! parts, and proves that the digest is taken over exactly that
//! concatenation.

use vstd::prelude::*;
use vstd::string::StrSliceExecFns;

verus! {

/// Per-directory indexing failure, mirrored at the hashing boundary.
/// Foreign error values are carried as their rendered text; paths are the
/// directory or file the failure names.
#[derive(Debug)]
pub enum IndexError {
    /// The maps root directory could not be enumerated.
    CannotReadMapsDir(String),
    /// One directory entry could not be read.
    CannotReadMap(String),
    /// The directory has no readable `info.dat`: cause, then path.
    NotAMap(String, String),
    /// `info.dat` is not valid JSON: cause, then path.
    MapJsonError(String, String),
    /// `info.dat` parses but does not have the manifest shape.
    InvalidMapInfoDat(String),
    /// A declared difficulty file could not be read: cause, then path.
    InvalidDifficulty(String, String),
    /// A helper task failed: cause, then path.
    JoinError(String, String),
}

impl IndexError {
    /// An explicit deep copy, equal to the original.
    pub fn duplicate(&self) -> (r: IndexError)
        ensures
            r == *self,
    {
        match self {
            IndexError::CannotReadMapsDir(c) => IndexError::CannotReadMapsDir(c.clone()),
            IndexError::CannotReadMap(c) => IndexError::CannotReadMap(c.clone()),
            IndexError::NotAMap(c, p) => IndexError::NotAMap(c.clone(), p.clone()),
            IndexError::MapJsonError(c, p) => IndexError::MapJsonError(c.clone(), p.clone()),
            IndexError::InvalidMapInfoDat(p) => IndexError::InvalidMapInfoDat(p.clone()),
            IndexError::InvalidDifficulty(c, p) => IndexError::InvalidDifficulty(
                c.clone(),
                p.clone(),
            ),
            IndexError::JoinError(c, p) => IndexError::JoinError(c.clone(), p.clone()),
        }
    }
}

/// Why a manifest yields no filename list: the bytes are not JSON, or the
/// JSON lacks the expected shape.
#[derive(Debug)]
pub enum InfoDatError {
    Json(String),
    Shape,
}

/// The SHA-1 digest of a byte sequence, rendered as 40 lowercase hex
/// characters. The digest function itself is outside this crate; the
/// name stands for its result.
pub uninterp spec fn sha1_hex_of(bytes: Seq<u8>) -> Seq<char>;

/// Relies on `sha1::Sha1::from` and `Digest`'s hex rendering: the SHA-1
/// of exactly the given bytes, as 40 hex characters (five 32-bit words,
/// eight hex digits each), a function of the bytes alone.
#[verifier::external_body]
fn sha1_hexdigest(bytes: &Vec<u8>) -> (r: String)
    ensures
        r@ == sha1_hex_of(bytes@),
        r@.len() == 40,
{
    sha1::Sha1::from(bytes.as_slice()).digest().to_string()
}

#[verifier::external_type_specification]
#[verifier::external_body]
pub struct ExValue(serde_json::Value);

#[verifier::external_type_specification]
#[verifier::external_body]
#[verifier::reject_recursive_types(K)]
#[verifier::reject_recursive_types(V)]
pub struct ExJsonMap<K, V>(serde_json::Map<K, V>);

/// The shape of a JSON document, as far as this library reads one:
/// objects as maps from key text to members, arrays as member
/// sequences, strings as their text. Numeric values are never read, so
/// a number's magnitude is not modelled.
pub enum JsonModel {
    Null,
    Bool(bool),
    Number,
    Text(Seq<char>),
    Array(Seq<JsonModel>),
    Object(Map<Seq<char>, JsonModel>),
}

/// The document a JSON value holds. The value type is outside this
/// crate and opaque; the trusted items below say how each navigation
/// call answers in terms of this name.
pub uninterp spec fn json_view(v: serde_json::Value) -> JsonModel;

/// The entries a JSON object holds, keyed by their text.
pub uninterp spec fn json_object_entries(
    m: serde_json::Map<String, serde_json::Value>,
) -> Map<Seq<char>, JsonModel>;

/// The document some bytes encode, if they are JSON at all: parsing is
/// a function of the bytes alone.
pub uninterp spec fn json_doc_of(bytes: Seq<u8>) -> Option<JsonModel>;

/// Relies on `serde_json::from_slice::<Value>`: the JSON document the
/// bytes encode — exactly when they encode one — or the rendered parse
/// error.
#[verifier::external_body]
fn parse_json_document(bytes: &Vec<u8>) -> (r: Result<serde_json::Value, String>)
    ensures
        r is Ok <==> json_doc_of(bytes@) is Some,
        r matches Ok(v) ==> json_doc_of(bytes@) == Some(json_view(v)),
{
    serde_json::from_slice::<serde_json::Value>(bytes.as_slice()).map_err(|e| e.to_string())
}

/// Relies on `serde_json::Value::as_object`: the object's entries
/// exactly when the value is an object, nothing otherwise.
pub assume_specification[ serde_json::Value::as_object ](
    v: &serde_json::Value,
) -> (r: Option<&serde_json::Map<String, serde_json::Value>>)
    ensures
        r matches Some(m) ==> json_view(*v) == JsonModel::Object(json_object_entries(*m)),
        r is None ==> !(json_view(*v) is Object),
;

/// Relies on `serde_json::Value::as_array`: the array's members exactly
/// when the value is an array, nothing otherwise.
pub assume_specification[ serde_json::Value::as_array ](
    v: &serde_json::Value,
) -> (r: Option<&Vec<serde_json::Value>>)
    ensures
        r matches Some(a) ==> json_view(*v) == JsonModel::Array(
            a@.map_values(|e: serde_json::Value| json_view(e)),
        ),
        r is None ==> !(json_view(*v) is Array),
;

/// Relies on `serde_json::Value::as_str`: the string's text exactly
/// when the value is a string, nothing otherwise.
pub assume_specification[ serde_json::Value::as_str ](
    v: &serde_json::Value,
) -> (r: Option<&str>)
    ensures
        r matches Some(s) ==> json_view(*v) == JsonModel::Text(s@),
        r is None ==> !(json_view(*v) is Text),
;

/// Relies on `serde_json::Map::get`: the member stored under the key —
/// exactly when the object has one.
#[verifier::external_body]
fn object_get<'a>(
    m: &'a serde_json::Map<String, serde_json::Value>,
    key: &str,
) -> (r: Option<&'a serde_json::Value>)
    ensures
        r matches Some(v) ==> json_object_entries(*m).contains_key(key@)
            && json_object_entries(*m)[key@] == json_view(*v),
        r is None ==> !json_object_entries(*m).contains_key(key@),
{
    m.get(key)
}

/// The filenames one beatmap entry declares: its `_beatmapFilename`
/// string, when the entry is an object carrying one.
pub open spec fn beatmap_name(b: JsonModel) -> Seq<Seq<char>> {
    match b {
        JsonModel::Object(entries) => if entries.contains_key("_beatmapFilename"@) {
            match entries["_beatmapFilename"@] {
                JsonModel::Text(s) => seq![s],
                _ => Seq::empty(),
            }
        } else {
            Seq::empty()
        },
        _ => Seq::empty(),
    }
}

/// The filenames a run of beatmap entries declares, in order.
pub open spec fn beatmap_list_names(bs: Seq<JsonModel>) -> Seq<Seq<char>>
    decreases bs.len(),
{
    if bs.len() == 0 {
        Seq::empty()
    } else {
        beatmap_list_names(bs.drop_last()) + beatmap_name(bs.last())
    }
}

/// The filenames one difficulty set declares: those of its
/// `_difficultyBeatmaps` array, when the set is an object carrying one.
pub open spec fn set_names(set: JsonModel) -> Seq<Seq<char>> {
    match set {
        JsonModel::Object(entries) => if entries.contains_key("_difficultyBeatmaps"@) {
            match entries["_difficultyBeatmaps"@] {
                JsonModel::Array(beatmaps) => beatmap_list_names(beatmaps),
                _ => Seq::empty(),
            }
        } else {
            Seq::empty()
        },
        _ => Seq::empty(),
    }
}

/// The filenames a run of difficulty sets declares, in order.
pub open spec fn set_list_names(sets: Seq<JsonModel>) -> Seq<Seq<char>>
    decreases sets.len(),
{
    if sets.len() == 0 {
        Seq::empty()
    } else {
        set_list_names(sets.drop_last()) + set_names(sets.last())
    }
}

/// What a parsed manifest declares: the `_beatmapFilename` of every
/// member of every `_difficultyBeatmapSets[*]._difficultyBeatmaps`
/// array, in document order, members without the expected shape
/// skipped — or nothing, when the document is not an object whose
/// `_difficultyBeatmapSets` member is an array.
pub open spec fn difficulty_filenames_model(doc: JsonModel) -> Option<Seq<Seq<char>>> {
    match doc {
        JsonModel::Object(entries) => if entries.contains_key("_difficultyBeatmapSets"@) {
            match entries["_difficultyBeatmapSets"@] {
                JsonModel::Array(sets) => Some(set_list_names(sets)),
                _ => None,
            }
        } else {
            None
        },
        _ => None,
    }
}

/// The difficulty filenames a manifest declares, in document order:
/// exactly what `difficulty_filenames_model` reads off the document the
/// bytes encode. Bytes that are not JSON give the JSON error — if and
/// only if — and a document without the manifest shape gives the shape
/// error.
pub fn extract_difficulty_filenames(info: &Vec<u8>) -> (r: Result<Vec<String>, InfoDatError>)
    ensures
        json_doc_of(info@) is None <==> (r matches Err(e) && e is Json),
        json_doc_of(info@) matches Some(doc) ==> (match difficulty_filenames_model(doc) {
            Some(names) => r matches Ok(out) && crate::config::string_views(out@) == names,
            None => r == Err::<Vec<String>, InfoDatError>(InfoDatError::Shape),
        }),
{
    let document = match parse_json_document(info) {
        Ok(v) => v,
        Err(cause) => {
            return Err(InfoDatError::Json(cause));
        },
    };
    let ghost doc = json_view(document);
    let root = match document.as_object() {
        Some(o) => o,
        None => {
            return Err(InfoDatError::Shape);
        },
    };
    let sets_value = match object_get(root, "_difficultyBeatmapSets") {
        Some(v) => v,
        None => {
            return Err(InfoDatError::Shape);
        },
    };
    let sets = match sets_value.as_array() {
        Some(a) => a,
        None => {
            return Err(InfoDatError::Shape);
        },
    };
    let ghost models = sets@.map_values(|e: serde_json::Value| json_view(e));
    proof {
        assert(difficulty_filenames_model(doc) == Some(set_list_names(models)));
    }
    let mut filenames: Vec<String> = Vec::new();
    let mut i: usize = 0;
    while i < sets.len()
        invariant
            i <= sets@.len(),
            models == sets@.map_values(|e: serde_json::Value| json_view(e)),
            models.len() == sets@.len(),
            crate::config::string_views(filenames@) == set_list_names(models.take(i as int)),
        decreases sets.len() - i,
    {
        proof {
            assert(models.take(i as int + 1).drop_last() =~= models.take(i as int));
            assert(models.take(i as int + 1).last() == models[i as int]);
            assert(models[i as int] == json_view(sets@[i as int]));
        }
        match (&sets[i]).as_object() {
            Some(set_obj) => {
                match object_get(set_obj, "_difficultyBeatmaps") {
                    Some(beatmaps_value) => {
                        match beatmaps_value.as_array() {
                            Some(beatmaps) => {
                                let ghost bmodels = beatmaps@.map_values(
                                    |e: serde_json::Value| json_view(e),
                                );
                                proof {
                                    assert(set_names(models[i as int]) == beatmap_list_names(
                                        bmodels,
                                    ));
                                    assert(bmodels.take(0) =~= Seq::<JsonModel>::empty());
                                    assert(crate::config::string_views(filenames@)
                                        =~= set_list_names(models.take(i as int))
                                        + beatmap_list_names(bmodels.take(0)));
                                }
                                let mut j: usize = 0;
                                while j < beatmaps.len()
                                    invariant
                                        j <= beatmaps@.len(),
                                        bmodels == beatmaps@.map_values(
                                            |e: serde_json::Value| json_view(e),
                                        ),
                                        bmodels.len() == beatmaps@.len(),
                                        i < models.len(),
                                        set_names(models[i as int]) == beatmap_list_names(
                                            bmodels,
                                        ),
                                        crate::config::string_views(filenames@)
                                            == set_list_names(models.take(i as int))
                                            + beatmap_list_names(bmodels.take(j as int)),
                                    decreases beatmaps.len() - j,
                                {
                                    proof {
                                        assert(bmodels.take(j as int + 1).drop_last()
                                            =~= bmodels.take(j as int));
                                        assert(bmodels.take(j as int + 1).last() == bmodels[
                                            j as int
                                        ]);
                                        assert(bmodels[j as int] == json_view(
                                            beatmaps@[j as int],
                                        ));
                                    }
                                    match (&beatmaps[j]).as_object() {
                                        Some(beatmap_obj) => {
                                            match object_get(beatmap_obj, "_beatmapFilename") {
                                                Some(name_value) => {
                                                    match name_value.as_str() {
                                                        Some(name) => {
                                                            let ghost before = filenames@;
                                                            filenames.push(name.to_owned());
                                                            proof {
                                                                assert(beatmap_name(bmodels[
                                                                    j as int
                                                                ]) == seq![name@]);
                                                                assert(
                                                                    crate::config::string_views(
                                                                        filenames@,
                                                                    )
                                                                    =~= crate::config::string_views(
                                                                        before,
                                                                    ) + seq![name@]);
                                                                assert(
                                                                    crate::config::string_views(
                                                                        filenames@,
                                                                    ) =~= set_list_names(
                                                                    models.take(i as int),
                                                                ) + beatmap_list_names(
                                                                    bmodels.take(j as int + 1),
                                                                ));
                                                            }
                                                        },
                                                        None => {
                                                            proof {
                                                                assert(beatmap_name(bmodels[
                                                                    j as int
                                                                ]) == Seq::<Seq<char>>::empty());
                                                                assert(
                                                                    crate::config::string_views(
                                                                        filenames@,
                                                                    ) =~= set_list_names(
                                                                    models.take(i as int),
                                                                ) + beatmap_list_names(
                                                                    bmodels.take(j as int + 1),
                                                                ));
                                                            }
                                                        },
                                                    }
                                                },
                                                None => {
                                                    proof {
                                                        assert(beatmap_name(bmodels[j as int])
                                                            == Seq::<Seq<char>>::empty());
                                                        assert(crate::config::string_views(
                                                            filenames@,
                                                        ) =~= set_list_names(
                                                            models.take(i as int),
                                                        ) + beatmap_list_names(
                                                            bmodels.take(j as int + 1),
                                                        ));
                                                    }
                                                },
                                            }
                                        },
                                        None => {
                                            proof {
                                                assert(beatmap_name(bmodels[j as int])
                                                    == Seq::<Seq<char>>::empty());
                                                assert(crate::config::string_views(filenames@)
                                                    =~= set_list_names(models.take(i as int))
                                                    + beatmap_list_names(
                                                    bmodels.take(j as int + 1),
                                                ));
                                            }
                                        },
                                    }
                                    j = j + 1;
                                }
                                proof {
                                    assert(bmodels.take(bmodels.len() as int) =~= bmodels);
                                    assert(crate::config::string_views(filenames@)
                                        =~= set_list_names(models.take(i as int)) + set_names(
                                        models[i as int],
                                    ));
                                }
                            },
                            None => {
                                proof {
                                    assert(set_names(models[i as int]) == Seq::<
                                        Seq<char>,
                                    >::empty());
                                    assert(crate::config::string_views(filenames@)
                                        =~= set_list_names(models.take(i as int)) + set_names(
                                        models[i as int],
                                    ));
                                }
                            },
                        }
                    },
                    None => {
                        proof {
                            assert(set_names(models[i as int]) == Seq::<Seq<char>>::empty());
                            assert(crate::config::string_views(filenames@) =~= set_list_names(
                                models.take(i as int),
                            ) + set_names(models[i as int]));
                        }
                    },
                }
            },
            None => {
                proof {
                    assert(set_names(models[i as int]) == Seq::<Seq<char>>::empty());
                    assert(crate::config::string_views(filenames@) =~= set_list_names(
                        models.take(i as int),
                    ) + set_names(models[i as int]));
                }
            },
        }
        proof {
            assert(set_list_names(models.take(i as int + 1)) == set_list_names(models.take(
                i as int,
            )) + set_names(models[i as int]));
        }
        i = i + 1;
    }
    proof {
        assert(models.take(models.len() as int) =~= models);
    }
    Ok(filenames)
}

/// The named manifest failure as the index records it, against the
/// directory's path.
pub fn info_dat_error_to_index_error(e: InfoDatError, path: String) -> (r: IndexError)
    ensures
        e matches InfoDatError::Json(cause) ==> (r matches IndexError::MapJsonError(c, p)
            && c@ == cause@ && p@ == path@),
        e is Shape ==> (r matches IndexError::InvalidMapInfoDat(p) && p@ == path@),
{
    match e {
        InfoDatError::Json(cause) => IndexError::MapJsonError(cause, path),
        InfoDatError::Shape => IndexError::InvalidMapInfoDat(path),
    }
}

/// All the parts, flattened in order.
pub open spec fn concat_all(parts: Seq<Seq<u8>>) -> Seq<u8>
    decreases parts.len(),
{
    if parts.len() == 0 {
        Seq::empty()
    } else {
        parts.first() + concat_all(parts.drop_first())
    }
}

/// The byte sequence the canonical hash is taken over: the manifest's
/// bytes followed by every difficulty file's bytes, in declared order.
pub open spec fn canonical_payload(info: Seq<u8>, parts: Seq<Seq<u8>>) -> Seq<u8> {
    info + concat_all(parts)
}

/// The views of a vector of byte vectors.
pub open spec fn byte_views(parts: Seq<Vec<u8>>) -> Seq<Seq<u8>> {
    parts.map_values(|p: Vec<u8>| p@)
}

proof fn lemma_concat_all_push(parts: Seq<Seq<u8>>, x: Seq<u8>)
    ensures
        concat_all(parts.push(x)) == concat_all(parts) + x,
    decreases parts.len(),
{
    if parts.len() == 0 {
        assert(parts.push(x).first() == x);
        assert(parts.push(x).drop_first() =~= Seq::<Seq<u8>>::empty());
        assert(concat_all(Seq::<Seq<u8>>::empty()) == Seq::<u8>::empty());
        assert(concat_all(parts.push(x)) == x + Seq::<u8>::empty());
        assert(x + Seq::<u8>::empty() =~= concat_all(parts) + x);
    } else {
        assert(parts.push(x).first() == parts.first());
        assert(parts.push(x).drop_first() =~= parts.drop_first().push(x));
        lemma_concat_all_push(parts.drop_first(), x);
        assert(concat_all(parts.push(x)) == parts.first() + (concat_all(parts.drop_first())
            + x));
        assert(parts.first() + (concat_all(parts.drop_first()) + x) =~= (parts.first()
            + concat_all(parts.drop_first())) + x);
    }
}

fn push_all(dst: &mut Vec<u8>, src: &Vec<u8>)
    ensures
        final(dst)@ == old(dst)@ + src@,
{
    let mut i: usize = 0;
    while i < src.len()
        invariant
            i <= src.len(),
            dst@ == old(dst)@ + src@.take(i as int),
        decreases src.len() - i,
    {
        dst.push(src[i]);
        proof {
            assert(old(dst)@ + src@.take(i as int + 1) =~= (old(dst)@ + src@.take(
                i as int,
            )).push(src@[i as int]));
        }
        i = i + 1;
    }
    proof {
        assert(src@.take(src@.len() as int) =~= src@);
    }
}

/// The canonical content hash of a map directory, given the manifest's
/// bytes and each declared difficulty file's bytes in declared order:
/// SHA-1 over exactly their concatenation, as 40 lowercase hex
/// characters. The same parts always hash to the same text.
pub fn canonical_hash(info: &Vec<u8>, difficulties: &Vec<Vec<u8>>) -> (r: String)
    ensures
        r@ == sha1_hex_of(canonical_payload(info@, byte_views(difficulties@))),
        r@.len() == 40,
{
    let mut payload: Vec<u8> = Vec::new();
    push_all(&mut payload, info);
    let mut i: usize = 0;
    while i < difficulties.len()
        invariant
            i <= difficulties.len(),
            payload@ == info@ + concat_all(byte_views(difficulties@).take(i as int)),
        decreases difficulties.len() - i,
    {
        push_all(&mut payload, &difficulties[i]);
        proof {
            assert(byte_views(difficulties@).take(i as int + 1) =~= byte_views(
                difficulties@,
            ).take(i as int).push(difficulties@[i as int]@));
            lemma_concat_all_push(
                byte_views(difficulties@).take(i as int),
                difficulties@[i as int]@,
            );
        }
        i = i + 1;
    }
    proof {
        assert(byte_views(difficulties@).take(difficulties@.len() as int) =~= byte_views(
            difficulties@,
        ));
    }
    sha1_hexdigest(&payload)
}

/// Whether the entry at `i` repeats a hash seen earlier in the scan.
pub open spec fn is_duplicate_at(entries: Seq<(String, String)>, i: int) -> bool {
    exists|j: int| 0 <= j < i && entries[j].0@ == entries[i].0@
}

/// Flags, per scanned `(hash, path)` pair, whether its hash already
/// appeared at an earlier position: the duplicate report of a directory
/// scan.
pub fn duplicate_hash_flags(entries: &Vec<(String, String)>) -> (flags: Vec<bool>)
    ensures
        flags@.len() == entries@.len(),
        forall|i: int| 0 <= i < flags@.len() ==> flags@[i] == is_duplicate_at(entries@, i),
{
    let mut flags: Vec<bool> = Vec::new();
    let mut i: usize = 0;
    while i < entries.len()
        invariant
            i <= entries@.len(),
            flags@.len() == i as int,
            forall|k: int| 0 <= k < i as int ==> flags@[k] == is_duplicate_at(entries@, k),
        decreases entries.len() - i,
    {
        let mut dup = false;
        let mut j: usize = 0;
        while j < i
            invariant
                j <= i < entries@.len(),
                dup == exists|m: int| 0 <= m < j as int && entries@[m].0@ == entries@[
                    i as int
                ].0@,
            decreases i - j,
        {
            if crate::chars::str_eq(entries[j].0.as_str(), entries[i].0.as_str()) {
                dup = true;
            }
            j = j + 1;
        }
        flags.push(dup);
        i = i + 1;
    }
    flags
}

/// Hashing is deterministic: equal manifest bytes and equal difficulty
/// parts give the same canonical payload, hence the same digest text.
pub proof fn lemma_canonical_hash_deterministic(
    info1: Seq<u8>,
    parts1: Seq<Seq<u8>>,
    info2: Seq<u8>,
    parts2: Seq<Seq<u8>>,
)
    requires
        info1 == info2,
        parts1 == parts2,
    ensures
        sha1_hex_of(canonical_payload(info1, parts1)) == sha1_hex_of(
            canonical_payload(info2, parts2),
        ),
{
}

} // verus!
