//! Resolves, validates, and names locally stored machine-learning model
//! artifacts from a content-addressed manifest store.
//!
//! The crate covers three tightly coupled pieces: deriving a canonical model
//! identity from a sequence of path segments, mapping content digests to
//! on-disk blob locations with size-integrity checking, and parsing and
//! serializing the layer media-type grammar.  Directory traversal, manifest
//! JSON decoding and filesystem metadata probes are collaborators that hand
//! the functions here plain values: path segments, decoded layer records,
//! observed blob sizes, and a file's modification time.

use vstd::prelude::*;

pub mod media_type;
pub mod models;
pub mod scan_args;
pub mod text;

use crate::models::{BlobPathInfo, LayerInfo, ListedModel, ModelId, ModelIdView, normalize_spec};
use crate::text::{
    is_prefix, lex_leq, lemma_lex_refl, lemma_lex_total, lemma_lex_trans, str_eq, str_lex_leq,
    str_starts_with,
};
use vstd::string::StringExecFns;

verus! {

/// The view of an optional borrowed string.
pub open spec fn opt_str_view(o: Option<&str>) -> Option<Seq<char>> {
    match o {
        Some(s) => Some(s@),
        None => None,
    }
}

/// An optional borrowed layer record, read as a value.
pub open spec fn opt_deref(o: Option<&LayerInfo>) -> Option<LayerInfo> {
    match o {
        Some(l) => Some(*l),
        None => None,
    }
}

/// What the identity resolver makes of the path segments: exactly 3 segments
/// are namespace/model/tag and exactly 4 are host/namespace/model/tag; any
/// other count is rejected, and so is any segment starting with `.` unless
/// hidden entries are included.
pub open spec fn resolve_id_spec(comps: Seq<Seq<char>>, include_hidden: bool) -> Option<
    ModelIdView,
> {
    if comps.len() != 3 && comps.len() != 4 {
        None
    } else if !include_hidden && (exists|i: int|
        0 <= i < comps.len() && (#[trigger] comps[i]).len() > 0 && comps[i][0] == '.') {
        None
    } else if comps.len() == 4 {
        Some(
            ModelIdView {
                host: Some(comps[0]),
                namespace: Some(comps[1]),
                model: comps[2],
                tag: comps[3],
            },
        )
    } else {
        Some(ModelIdView { host: None, namespace: Some(comps[0]), model: comps[1], tag: comps[2] })
    }
}

/// Interprets path segments as a model identity, or rejects them.
pub fn parse_components(comps: Vec<String>, include_hidden: bool) -> (r: Option<ModelId>)
    ensures
        match r {
            Some(id) => resolve_id_spec(comps.deep_view(), include_hidden) == Some(id@),
            None => resolve_id_spec(comps.deep_view(), include_hidden) is None,
        },
{
    let ghost all = comps.deep_view();
    let n = comps.len();
    if n != 3 && n != 4 {
        return None;
    }
    if !include_hidden {
        let mut i: usize = 0;
        while i < n
            invariant
                !include_hidden,
                all == comps.deep_view(),
                all.len() == n,
                n == comps@.len(),
                0 <= i <= n,
                forall|k: int| 0 <= k < i ==> !((#[trigger] all[k]).len() > 0 && all[k][0] == '.'),
            decreases n - i,
        {
            let s = &comps[i];
            if s.as_str().unicode_len() > 0 && s.as_str().get_char(0) == '.' {
                proof {
                    assert(all[i as int].len() > 0 && all[i as int][0] == '.');
                }
                return None;
            }
            i = i + 1;
        }
    }
    let mut comps = comps;
    if n == 4 {
        let tag = comps.pop().unwrap();
        let model = comps.pop().unwrap();
        let namespace = comps.pop().unwrap();
        let host = comps.pop().unwrap();
        proof {
            assert(host@ == all[0] && namespace@ == all[1] && model@ == all[2] && tag@ == all[3]);
        }
        Some(ModelId { host: Some(host), namespace: Some(namespace), model, tag })
    } else {
        let tag = comps.pop().unwrap();
        let model = comps.pop().unwrap();
        let namespace = comps.pop().unwrap();
        proof {
            assert(namespace@ == all[0] && model@ == all[1] && tag@ == all[2]);
        }
        Some(ModelId { host: None, namespace: Some(namespace), model, tag })
    }
}

/// A well-formed 3- or 4-segment path without hidden components is never
/// rejected, whatever the hidden-inclusion flag.
pub proof fn lemma_resolver_accepts(comps: Seq<Seq<char>>, include_hidden: bool)
    requires
        comps.len() == 3 || comps.len() == 4,
        forall|i: int| 0 <= i < comps.len() ==> ((#[trigger] comps[i]).len() == 0 || comps[i][0]
            != '.'),
    ensures
        resolve_id_spec(comps, include_hidden) is Some,
{
}

/// Hidden-segment exclusion: with hidden inclusion on, every 3- or
/// 4-segment path is accepted; with it off, a path with a `.`-prefixed
/// segment is rejected; and whenever both accept, the identities agree.
pub proof fn lemma_hidden_exclusion(comps: Seq<Seq<char>>)
    requires
        comps.len() == 3 || comps.len() == 4,
    ensures
        resolve_id_spec(comps, true) is Some,
        (exists|i: int| 0 <= i < comps.len() && (#[trigger] comps[i]).len() > 0 && comps[i][0]
            == '.') ==> resolve_id_spec(comps, false) is None,
        resolve_id_spec(comps, false) is Some ==> resolve_id_spec(comps, false) == resolve_id_spec(
            comps,
            true,
        ),
{
}

/// Builds the canonical display name from the identity parts, by the naming
/// table of `normalize_spec`.
pub fn normalize_name(host: Option<&str>, namespace: Option<&str>, model: &str, tag: &str) -> (r:
    String)
    ensures
        r@ == normalize_spec(
            ModelIdView {
                host: opt_str_view(host),
                namespace: opt_str_view(namespace),
                model: model@,
                tag: tag@,
            },
        ),
{
    let ghost idv = ModelIdView {
        host: opt_str_view(host),
        namespace: opt_str_view(namespace),
        model: model@,
        tag: tag@,
    };
    let mut out = String::new();
    match (host, namespace) {
        (Some(h), Some(ns)) => {
            if str_eq(h, "registry.ollama.ai") && str_eq(ns, "library") {
            } else if str_eq(h, "registry.ollama.ai") {
                out.append(ns);
                out.append("/");
            } else {
                out.append(h);
                out.append("/");
                out.append(ns);
                out.append("/");
            }
        },
        (None, Some(ns)) => {
            if str_eq(ns, "library") {
            } else {
                out.append(ns);
                out.append("/");
            }
        },
        _ => {},
    }
    out.append(model);
    out.append(":");
    out.append(tag);
    proof {
        assert(out@ =~= normalize_spec(idv));
    }
    out
}

/// `s` with every `:` replaced by `-`.
pub open spec fn replace_colons(s: Seq<char>) -> Seq<char> {
    s.map_values(|c: char| if c == ':' { '-' } else { c })
}

/// The on-disk path of the blob holding `digest`, under `root`, joined with
/// a `/`: a digest in the recognized `sha256:` scheme maps to
/// `sha256-<hex>`; any other digest has every `:` replaced by `-`.
pub open spec fn blob_path_spec(root: Seq<char>, digest: Seq<char>) -> Seq<char> {
    if is_prefix("sha256:"@, digest) {
        root + "/"@ + "sha256-"@ + digest.skip(7)
    } else {
        root + "/"@ + replace_colons(digest)
    }
}

/// Translates a content digest (e.g. `sha256:abcd...`) to the store's
/// on-disk blob path under `blobs_root`.
pub fn digest_to_blob_path(blobs_root: &str, digest: &str) -> (r: String)
    ensures
        r@ == blob_path_spec(blobs_root@, digest@),
{
    let mut out = blobs_root.to_owned();
    out.append("/");
    let len = digest.unicode_len();
    if str_starts_with(digest, "sha256:") {
        proof {
            reveal_strlit("sha256:");
        }
        out.append("sha256-");
        let rest = digest.substring_char(7, len);
        out.append(rest);
        proof {
            assert(digest@.subrange(7, len as int) =~= digest@.skip(7));
            assert(out@ =~= blob_path_spec(blobs_root@, digest@));
        }
        out
    } else {
        let mut i: usize = 0;
        proof {
            assert(replace_colons(digest@.take(0)) =~= Seq::<char>::empty());
            assert(out@ =~= blobs_root@ + "/"@ + replace_colons(digest@.take(0)));
        }
        while i < len
            invariant
                len == digest@.len(),
                0 <= i <= len,
                out@ == blobs_root@ + "/"@ + replace_colons(digest@.take(i as int)),
            decreases len - i,
        {
            let c = digest.get_char(i);
            if c == ':' {
                out.append("-");
                proof {
                    reveal_strlit("-");
                    assert("-"@ =~= seq!['-']);
                }
            } else {
                let piece = digest.substring_char(i, i + 1);
                proof {
                    assert(piece@ =~= seq![digest@[i as int]]);
                }
                out.append(piece);
            }
            proof {
                assert(replace_colons(digest@.take(i + 1)) =~= replace_colons(
                    digest@.take(i as int),
                ) + seq![if digest@[i as int] == ':' {
                    '-'
                } else {
                    digest@[i as int]
                }]);
                assert(out@ =~= blobs_root@ + "/"@ + replace_colons(digest@.take(i + 1)));
            }
            i = i + 1;
        }
        proof {
            assert(digest@.take(len as int) =~= digest@);
        }
        out
    }
}

/// `size_ok` of a record: known only when both sizes are known, and then
/// exactly their agreement.
pub open spec fn size_ok_spec(declared: Option<u64>, actual: Option<u64>) -> Option<bool> {
    match (declared, actual) {
        (Some(d), Some(a)) => Some(d == a),
        _ => None,
    }
}

/// `size_ok` is `None` whenever either size is unknown, and it reports
/// exactly whether the sizes agree when both are known.
pub proof fn lemma_size_ok(declared: Option<u64>, actual: Option<u64>)
    ensures
        (declared is None || actual is None) <==> size_ok_spec(declared, actual) is None,
        (declared matches Some(d) && actual matches Some(a) && d != a) ==> size_ok_spec(
            declared,
            actual,
        ) == Some(false),
        (declared matches Some(d) && actual matches Some(a) && d == a) ==> size_ok_spec(
            declared,
            actual,
        ) == Some(true),
{
}

/// The report `b` correctly describes record `l` probed with observed size
/// `actual`, with the primary mark keyed on the digest `primary`.
pub open spec fn blob_info_matches(
    b: BlobPathInfo,
    l: LayerInfo,
    root: Seq<char>,
    actual: Option<u64>,
    primary: Option<Seq<char>>,
) -> bool {
    &&& b.digest@ == l.digest@
    &&& b.media_type@ == l.media_type@
    &&& b.declared_size == l.size
    &&& b.path@ == blob_path_spec(root, l.digest@)
    &&& b.exists == (actual is Some)
    &&& b.actual_size == actual
    &&& b.size_ok == size_ok_spec(l.size, actual)
    &&& b.primary == (primary matches Some(d) && l.digest@ == d)
}

/// The report list covers the layers in order and then the config record,
/// each against its observed size.
pub open spec fn blob_infos_match(
    infos: Seq<BlobPathInfo>,
    layers: Seq<LayerInfo>,
    config: Option<LayerInfo>,
    root: Seq<char>,
    actual: Seq<Option<u64>>,
    primary: Option<Seq<char>>,
) -> bool {
    &&& infos.len() == layers.len() + (if config is Some {
        1int
    } else {
        0
    })
    &&& forall|i: int|
        0 <= i < layers.len() ==> blob_info_matches(
            #[trigger] infos[i],
            layers[i],
            root,
            actual[i],
            primary,
        )
    &&& (config matches Some(c) ==> blob_info_matches(
        infos[layers.len() as int],
        c,
        root,
        actual[layers.len() as int],
        primary,
    ))
}

/// Layer `i` is the primary choice: it declares a size, no declared size
/// exceeds it, and every earlier declared size is strictly smaller (so ties
/// keep the earliest).
pub open spec fn is_primary_layer(layers: Seq<LayerInfo>, i: int) -> bool {
    &&& 0 <= i < layers.len()
    &&& layers[i].size is Some
    &&& forall|j: int|
        0 <= j < layers.len() && (#[trigger] layers[j]).size is Some ==> layers[j].size->0
            <= layers[i].size->0
    &&& forall|j: int|
        0 <= j < i && (#[trigger] layers[j]).size is Some ==> layers[j].size->0
            < layers[i].size->0
}

/// At most one layer is primary.
pub proof fn lemma_primary_unique(layers: Seq<LayerInfo>, i: int, j: int)
    requires
        is_primary_layer(layers, i),
        is_primary_layer(layers, j),
    ensures
        i == j,
{
    if i < j {
        assert(layers[i].size->0 < layers[j].size->0);
        assert(layers[j].size->0 <= layers[i].size->0);
    } else if j < i {
        assert(layers[j].size->0 < layers[i].size->0);
        assert(layers[i].size->0 <= layers[j].size->0);
    }
}

/// The digest of the chosen primary record: the primary layer when one
/// declares a size, else the config record's digest, else none.
pub open spec fn primary_digest_spec(layers: Seq<LayerInfo>, config: Option<LayerInfo>) -> Option<
    Seq<char>,
> {
    if exists|i: int| is_primary_layer(layers, i) {
        Some(layers[choose|i: int| is_primary_layer(layers, i)].digest@)
    } else {
        match config {
            Some(c) => Some(c.digest@),
            None => None,
        }
    }
}

/// Produces the report for one record, given the observed size of its blob
/// (`None` when the blob is missing); the record is not marked primary.
pub fn build_blob_path_info(l: &LayerInfo, blobs_root: &str, actual_size: Option<u64>) -> (r:
    BlobPathInfo)
    ensures
        blob_info_matches(r, *l, blobs_root@, actual_size, None),
{
    let path = digest_to_blob_path(blobs_root, l.digest.as_str());
    let exists = actual_size.is_some();
    let size_ok = match (l.size, actual_size) {
        (Some(d), Some(a)) => Some(d == a),
        _ => None,
    };
    BlobPathInfo {
        digest: l.digest.clone(),
        media_type: l.media_type.clone(),
        declared_size: l.size,
        path,
        exists,
        size_ok,
        actual_size,
        primary: false,
    }
}

/// Builds the report list for the layers and the optional config record,
/// and chooses the primary digest: the first layer with the strictly
/// largest declared size, else the config record's digest if there is one.
/// `actual_sizes` holds the observed size of each record's blob, layers
/// first and config last, `None` where the blob is missing.
pub fn build_blob_infos(
    layers: &Vec<LayerInfo>,
    config: Option<&LayerInfo>,
    blobs_root: &str,
    actual_sizes: &Vec<Option<u64>>,
) -> (r: (Option<String>, Vec<BlobPathInfo>))
    requires
        actual_sizes@.len() == layers@.len() + (if config is Some {
            1int
        } else {
            0
        }),
    ensures
        (match r.0 {
            Some(d) => primary_digest_spec(layers@, opt_deref(config)) == Some(d@),
            None => primary_digest_spec(layers@, opt_deref(config)) is None,
        }),
        blob_infos_match(
            r.1@,
            layers@,
            opt_deref(config),
            blobs_root@,
            actual_sizes@,
            None,
        ),
{
    let n = layers.len();
    let mut best: Option<usize> = None;
    let mut max_size: u64 = 0;
    let mut i: usize = 0;
    while i < n
        invariant
            n == layers@.len(),
            0 <= i <= n,
            match best {
                None => forall|k: int| 0 <= k < i ==> (#[trigger] layers@[k]).size is None,
                Some(b) => b < i && layers@[b as int].size == Some(max_size) && (forall|k: int|
                    0 <= k < i && (#[trigger] layers@[k]).size is Some ==> layers@[k].size->0
                        <= max_size) && (forall|k: int|
                    0 <= k < b && (#[trigger] layers@[k]).size is Some ==> layers@[k].size->0
                        < max_size),
            },
        decreases n - i,
    {
        match layers[i].size {
            Some(sz) => {
                if best.is_none() || sz > max_size {
                    best = Some(i);
                    max_size = sz;
                }
            },
            None => {},
        }
        i = i + 1;
    }
    let primary_digest: Option<String> = match best {
        Some(b) => {
            proof {
                assert(is_primary_layer(layers@, b as int));
                let w = choose|k: int| is_primary_layer(layers@, k);
                lemma_primary_unique(layers@, w, b as int);
            }
            Some(layers[b].digest.clone())
        },
        None => {
            proof {
                if exists|k: int| is_primary_layer(layers@, k) {
                    let w = choose|k: int| is_primary_layer(layers@, k);
                    assert(layers@[w].size is Some);
                }
            }
            match config {
                Some(c) => Some(c.digest.clone()),
                None => None,
            }
        },
    };
    let mut infos: Vec<BlobPathInfo> = Vec::new();
    let mut i: usize = 0;
    while i < n
        invariant
            n == layers@.len(),
            actual_sizes@.len() == layers@.len() + (if config is Some {
                1int
            } else {
                0
            }),
            0 <= i <= n,
            infos@.len() == i,
            forall|k: int|
                0 <= k < i ==> blob_info_matches(
                    #[trigger] infos@[k],
                    layers@[k],
                    blobs_root@,
                    actual_sizes@[k],
                    None,
                ),
        decreases n - i,
    {
        let bi = build_blob_path_info(&layers[i], blobs_root, actual_sizes[i]);
        infos.push(bi);
        i = i + 1;
    }
    match config {
        Some(c) => {
            let bi = build_blob_path_info(c, blobs_root, actual_sizes[n]);
            infos.push(bi);
        },
        None => {},
    }
    (primary_digest, infos)
}

/// Builds the report list with the primary record marked, and the primary
/// blob's path: every record whose digest equals the chosen primary digest
/// is marked, since marking is keyed by digest.
pub fn gather_blob_info(
    layers: &Vec<LayerInfo>,
    config: Option<&LayerInfo>,
    blobs_root: &str,
    actual_sizes: &Vec<Option<u64>>,
) -> (r: (Option<String>, Vec<BlobPathInfo>))
    requires
        actual_sizes@.len() == layers@.len() + (if config is Some {
            1int
        } else {
            0
        }),
    ensures
        (match primary_digest_spec(layers@, opt_deref(config)) {
            Some(d) => r.0 matches Some(p) && p@ == blob_path_spec(blobs_root@, d),
            None => r.0 is None,
        }),
        blob_infos_match(
            r.1@,
            layers@,
            opt_deref(config),
            blobs_root@,
            actual_sizes@,
            primary_digest_spec(layers@, opt_deref(config)),
        ),
{
    let (primary_digest, infos) = build_blob_infos(layers, config, blobs_root, actual_sizes);
    match primary_digest {
        Some(pd) => {
            let primary_path = digest_to_blob_path(blobs_root, pd.as_str());
            let mut marked: Vec<BlobPathInfo> = Vec::new();
            let mut i: usize = 0;
            while i < infos.len()
                invariant
                    infos@.len() == layers@.len() + (if config is Some {
                        1int
                    } else {
                        0
                    }),
                    blob_infos_match(
                        infos@,
                        layers@,
                        opt_deref(config),
                        blobs_root@,
                        actual_sizes@,
                        None,
                    ),
                    0 <= i <= infos@.len(),
                    marked@.len() == i,
                    forall|k: int|
                        0 <= k < i ==> #[trigger] marked@[k] == (BlobPathInfo {
                            primary: infos@[k].digest@ == pd@,
                            ..infos@[k]
                        }),
                decreases infos@.len() - i,
            {
                let mut bi = infos[i].clone();
                bi.primary = str_eq(bi.digest.as_str(), pd.as_str());
                marked.push(bi);
                i = i + 1;
            }
            proof {
                assert forall|k: int| 0 <= k < layers@.len() implies blob_info_matches(
                    #[trigger] marked@[k],
                    layers@[k],
                    blobs_root@,
                    actual_sizes@[k],
                    Some(pd@),
                ) by {
                    assert(blob_info_matches(
                        infos@[k],
                        layers@[k],
                        blobs_root@,
                        actual_sizes@[k],
                        None,
                    ));
                }
                if opt_deref(config) is Some {
                    assert(blob_info_matches(
                        infos@[layers@.len() as int],
                        opt_deref(config)->0,
                        blobs_root@,
                        actual_sizes@[layers@.len() as int],
                        None,
                    ));
                }
            }
            (Some(primary_path), marked)
        },
        None => (None, infos),
    }
}

/// Primary marking is keyed by digest, not by index: with a primary digest
/// chosen, exactly the records carrying that digest are marked — every
/// record sharing it — and with none chosen, no record is marked.
pub proof fn lemma_primary_marking(
    infos: Seq<BlobPathInfo>,
    layers: Seq<LayerInfo>,
    config: Option<LayerInfo>,
    root: Seq<char>,
    actual: Seq<Option<u64>>,
    primary: Option<Seq<char>>,
)
    requires
        blob_infos_match(infos, layers, config, root, actual, primary),
    ensures
        forall|k: int|
            0 <= k < infos.len() ==> ((#[trigger] infos[k]).primary <==> (primary matches Some(d)
                && infos[k].digest@ == d)),
        primary is None ==> forall|k: int|
            0 <= k < infos.len() ==> !(#[trigger] infos[k]).primary,
{
    assert forall|k: int| 0 <= k < infos.len() implies ((#[trigger] infos[k]).primary <==> (
    primary matches Some(d) && infos[k].digest@ == d)) by {
        if k < layers.len() {
            assert(blob_info_matches(infos[k], layers[k], root, actual[k], primary));
        } else {
            assert(config is Some);
            assert(blob_info_matches(
                infos[layers.len() as int],
                config->0,
                root,
                actual[layers.len() as int],
                primary,
            ));
        }
    }
}

/// The sum of the declared layer sizes, counting layers without a declared
/// size as zero.
pub open spec fn sum_sizes(layers: Seq<LayerInfo>) -> int
    decreases layers.len(),
{
    if layers.len() == 0 {
        0
    } else {
        sum_sizes(layers.drop_last()) + (match layers.last().size {
            Some(s) => s as int,
            None => 0,
        })
    }
}

/// Some record among the layers and the config declares a size.
pub open spec fn any_size(layers: Seq<LayerInfo>, config: Option<LayerInfo>) -> bool {
    (exists|i: int| 0 <= i < layers.len() && (#[trigger] layers[i]).size is Some) || (
    config matches Some(c) && c.size is Some)
}

/// The mathematical total of all declared sizes.
pub open spec fn total_of(layers: Seq<LayerInfo>, config: Option<LayerInfo>) -> int {
    sum_sizes(layers) + (match config {
        Some(c) => match c.size {
            Some(s) => s as int,
            None => 0,
        },
        None => 0,
    })
}

/// The summed declared size: `None` when no record declares a size, and the
/// sum saturated at `u64::MAX` otherwise.
pub open spec fn total_size_spec(layers: Seq<LayerInfo>, config: Option<LayerInfo>) -> Option<
    u64,
> {
    if any_size(layers, config) {
        Some(
            if total_of(layers, config) > u64::MAX {
                u64::MAX
            } else {
                total_of(layers, config) as u64
            },
        )
    } else {
        None
    }
}

proof fn lemma_sum_sizes_nonneg(layers: Seq<LayerInfo>)
    ensures
        sum_sizes(layers) >= 0,
    decreases layers.len(),
{
    if layers.len() > 0 {
        lemma_sum_sizes_nonneg(layers.drop_last());
    }
}

/// Sums layer and config sizes, returning `None` if no record declares a
/// size; the sum saturates at `u64::MAX`.
pub fn compute_total_size(layers: &Vec<LayerInfo>, config: Option<&LayerInfo>) -> (r: Option<u64>)
    ensures
        r == total_size_spec(layers@, opt_deref(config)),
{
    let n = layers.len();
    let mut sum: u64 = 0;
    let mut any = false;
    let mut i: usize = 0;
    proof {
        assert(layers@.take(0) =~= Seq::<LayerInfo>::empty());
    }
    while i < n
        invariant
            n == layers@.len(),
            0 <= i <= n,
            any == (exists|k: int| 0 <= k < i && (#[trigger] layers@[k]).size is Some),
            sum as int == (if sum_sizes(layers@.take(i as int)) > u64::MAX {
                u64::MAX as int
            } else {
                sum_sizes(layers@.take(i as int))
            }),
        decreases n - i,
    {
        proof {
            assert(layers@.take(i + 1).drop_last() =~= layers@.take(i as int));
            assert(layers@.take(i + 1).last() == layers@[i as int]);
            lemma_sum_sizes_nonneg(layers@.take(i as int));
        }
        match layers[i].size {
            Some(sz) => {
                if sum <= u64::MAX - sz {
                    sum = sum + sz;
                } else {
                    sum = u64::MAX;
                }
                any = true;
                proof {
                    assert(exists|k: int|
                        0 <= k < i + 1 && (#[trigger] layers@[k]).size is Some);
                }
            },
            None => {},
        }
        i = i + 1;
    }
    proof {
        assert(layers@.take(n as int) =~= layers@);
        lemma_sum_sizes_nonneg(layers@);
    }
    let total = match config {
        Some(cfg) => match cfg.size {
            Some(sz) => {
                any = true;
                if sum <= u64::MAX - sz {
                    sum + sz
                } else {
                    u64::MAX
                }
            },
            None => sum,
        },
        None => sum,
    };
    if any {
        Some(total)
    } else {
        None
    }
}

/// Clones the decoded manifest's layer list and config record into the pair
/// the blob functions take.
pub fn manifest_to_layers(parsed: &crate::models::ManifestData) -> (r: (
    Vec<LayerInfo>,
    Option<LayerInfo>,
))
    ensures
        r.0@ == parsed.layers@,
        r.1 == parsed.config,
{
    let mut layers: Vec<LayerInfo> = Vec::new();
    let mut i: usize = 0;
    while i < parsed.layers.len()
        invariant
            0 <= i <= parsed.layers@.len(),
            layers@.len() == i,
            forall|k: int| 0 <= k < i ==> layers@[k] == parsed.layers@[k],
        decreases parsed.layers@.len() - i,
    {
        layers.push(parsed.layers[i].clone());
        i = i + 1;
    }
    proof {
        assert(layers@ =~= parsed.layers@);
    }
    let config = match &parsed.config {
        Some(c) => Some(c.clone()),
        None => None,
    };
    (layers, config)
}

/// Assembles one listed model from its identity parts, the manifest's
/// layers, and the probe results; verbose mode adds the layer list, the
/// summed size and the modification time, and blob paths are reported when
/// either flag asks for them (`None` when there are no records at all).
#[verifier::rlimit(30)]
pub fn build_listed_model(
    host: Option<String>,
    namespace: Option<String>,
    model: String,
    tag: String,
    manifest_path: &str,
    layers: Vec<LayerInfo>,
    config: Option<LayerInfo>,
    verbose: bool,
    blobs_root: &str,
    want_blob_paths: bool,
    mtime: Option<u64>,
    actual_sizes: &Vec<Option<u64>>,
) -> (r: ListedModel)
    requires
        (verbose || want_blob_paths) ==> actual_sizes@.len() == layers@.len() + (if config
            is Some {
            1int
        } else {
            0
        }),
    ensures
        r.name@ == normalize_spec(r.model_id@),
        (match r.model_id.host {
            Some(h) => host matches Some(h2) && h@ == h2@,
            None => host is None,
        }),
        (match r.model_id.namespace {
            Some(n) => namespace matches Some(n2) && n@ == n2@,
            None => namespace is None,
        }),
        r.model_id.model@ == model@,
        r.model_id.tag@ == tag@,
        r.manifest_path@ == manifest_path@,
        verbose ==> (r.layers matches Some(ls) && ls == layers),
        !verbose ==> r.layers is None,
        r.config == config,
        r.total_size == (if verbose {
            total_size_spec(layers@, config)
        } else {
            None
        }),
        r.mtime == (if verbose {
            mtime
        } else {
            None
        }),
        (verbose || want_blob_paths) ==> (match primary_digest_spec(layers@, config) {
            Some(d) => r.primary_blob_path matches Some(p) && p@ == blob_path_spec(blobs_root@, d),
            None => r.primary_blob_path is None,
        }) && (if layers@.len() == 0 && config is None {
            r.blob_paths is None
        } else {
            r.blob_paths matches Some(infos) && blob_infos_match(
                infos@,
                layers@,
                config,
                blobs_root@,
                actual_sizes@,
                primary_digest_spec(layers@, config),
            )
        }),
        !(verbose || want_blob_paths) ==> r.primary_blob_path is None && r.blob_paths is None,
{
    let display_name = normalize_name(
        match &host {
            Some(h) => Some(h.as_str()),
            None => None,
        },
        match &namespace {
            Some(ns) => Some(ns.as_str()),
            None => None,
        },
        model.as_str(),
        tag.as_str(),
    );
    let total_size = if verbose {
        compute_total_size(
        &layers,
        match &config {
            Some(c) => Some(c),
            None => None,
        },
    )
    } else {
        None
    };
    let (primary_blob_path, blob_paths) = if want_blob_paths || verbose {
        let config_ref = match &config {
            Some(c) => Some(c),
            None => None,
        };
        let (p, infos) = gather_blob_info(&layers, config_ref, blobs_root, actual_sizes);
        if infos.len() == 0 {
            (p, None)
        } else {
            (p, Some(infos))
        }
    } else {
        (None, None)
    };
    proof {
        if want_blob_paths || verbose {
            assert(opt_deref(match &config {
                Some(c) => Some(c),
                None => None,
            }) == config);
        }
    }
    ListedModel {
        name: display_name,
        model_id: ModelId { host, namespace, model, tag },
        manifest_path: manifest_path.to_owned(),
        layers: if verbose {
            Some(layers)
        } else {
            None
        },
        config,
        total_size,
        mtime: if verbose {
            mtime
        } else {
            None
        },
        primary_blob_path,
        blob_paths,
    }
}

/// The entries are in ascending canonical-name order.
pub open spec fn sorted_by_name(s: Seq<ListedModel>) -> bool {
    forall|i: int, j: int|
        0 <= i < j < s.len() ==> lex_leq((#[trigger] s[i]).name@, (#[trigger] s[j]).name@)
}

/// The subsequence of entries whose name is `n`, in their order.
pub open spec fn named_entries(s: Seq<ListedModel>, n: Seq<char>) -> Seq<ListedModel>
    decreases s.len(),
{
    if s.len() == 0 {
        Seq::<ListedModel>::empty()
    } else if s.last().name@ == n {
        named_entries(s.drop_last(), n).push(s.last())
    } else {
        named_entries(s.drop_last(), n)
    }
}

proof fn lemma_named_entries_add(a: Seq<ListedModel>, b: Seq<ListedModel>, n: Seq<char>)
    ensures
        named_entries(a + b, n) == named_entries(a, n) + named_entries(b, n),
    decreases b.len(),
{
    if b.len() == 0 {
        assert(a + b =~= a);
        assert(named_entries(a, n) + named_entries(b, n) =~= named_entries(a, n));
    } else {
        assert((a + b).drop_last() =~= a + b.drop_last());
        assert((a + b).last() == b.last());
        lemma_named_entries_add(a, b.drop_last(), n);
        if b.last().name@ == n {
            assert(named_entries(a, n) + named_entries(b.drop_last(), n).push(b.last()) =~= (
            named_entries(a, n) + named_entries(b.drop_last(), n)).push(b.last()));
        }
    }
}

proof fn lemma_named_entries_none(s: Seq<ListedModel>, n: Seq<char>)
    requires
        forall|k: int| 0 <= k < s.len() ==> (#[trigger] s[k]).name@ != n,
    ensures
        named_entries(s, n) == Seq::<ListedModel>::empty(),
    decreases s.len(),
{
    if s.len() > 0 {
        assert(s[s.len() - 1].name@ != n);
        lemma_named_entries_none(s.drop_last(), n);
    }
}

/// Sorts the scan result by canonical display name, ascending by code
/// point; the entries themselves are kept (as a multiset), and the sort is
/// stable: entries sharing a name keep their input order.
#[verifier::rlimit(80)]
pub fn sort_models_by_name(models: Vec<ListedModel>) -> (r: Vec<ListedModel>)
    ensures
        sorted_by_name(r@),
        r@.to_multiset() == models@.to_multiset(),
        forall|n: Seq<char>| #[trigger] named_entries(r@, n) == named_entries(models@, n),
{
    broadcast use vstd::seq_lib::group_to_multiset_ensures, vstd::seq_lib::to_multiset_insert;

    let mut v = models;
    if v.len() <= 1 {
        return v;
    }
    let mut i: usize = 1;
    while i < v.len()
        invariant
            1 <= i <= v@.len(),
            sorted_by_name(v@.take(i as int)),
            v@.to_multiset() == models@.to_multiset(),
            forall|n: Seq<char>| #[trigger] named_entries(v@, n) == named_entries(models@, n),
        decreases v@.len() - i,
    {
        let mut pos: usize = 0;
        while pos < i && str_lex_leq(v[pos].name.as_str(), v[i].name.as_str())
            invariant
                0 <= pos <= i < v@.len(),
                forall|k: int| 0 <= k < pos ==> lex_leq((#[trigger] v@[k]).name@, v@[i as int].name@),
            decreases i - pos,
        {
            pos = pos + 1;
        }
        let ghost old_v = v@;
        let x = v.remove(i);
        let ghost gx = x;
        v.insert(pos, x);
        proof {
            let nv = v@;
            assert(nv == old_v.remove(i as int).insert(pos as int, gx));
            // The multiset is unchanged: re-inserting the removed element,
            // at its old place or at its new one, adds the same occurrence.
            vstd::seq_lib::to_multiset_insert(old_v.remove(i as int), pos as int, gx);
            vstd::seq_lib::to_multiset_insert(old_v.remove(i as int), i as int, gx);
            assert(old_v.remove(i as int).insert(i as int, gx) =~= old_v);
            assert(nv.to_multiset() == old_v.to_multiset());
            // The sorted prefix, in plain index form.
            assert forall|a: int, b: int| 0 <= a < b < i implies lex_leq(
                (#[trigger] old_v[a]).name@,
                (#[trigger] old_v[b]).name@,
            ) by {
                assert(old_v.take(i as int)[a] == old_v[a]);
                assert(old_v.take(i as int)[b] == old_v[b]);
                assert(lex_leq(old_v.take(i as int)[a].name@, old_v.take(i as int)[b].name@));
            }
            // How the new order relates to the old one.
            assert forall|k: int| 0 <= k < pos implies #[trigger] nv[k] == old_v[k] by {}
            assert(nv[pos as int] == gx);
            assert forall|k: int| pos < k <= i implies #[trigger] nv[k] == old_v[k - 1] by {}
            // The inserted element is at or before everything it displaced.
            assert forall|k: int| pos <= k < i implies lex_leq(
                gx.name@,
                (#[trigger] old_v[k]).name@,
            ) by {
                lemma_lex_total(old_v[pos as int].name@, gx.name@);
                if k > pos {
                    assert(lex_leq(old_v[pos as int].name@, old_v[k].name@));
                    lemma_lex_trans(gx.name@, old_v[pos as int].name@, old_v[k].name@);
                }
            }
            // The longer prefix is sorted.
            assert forall|a: int, b: int| 0 <= a < b <= i implies lex_leq(
                (#[trigger] nv[a]).name@,
                (#[trigger] nv[b]).name@,
            ) by {
                if b < pos {
                } else if b == pos {
                    assert(lex_leq(old_v[a].name@, gx.name@));
                } else if a < pos {
                    assert(lex_leq(old_v[a].name@, old_v[b - 1].name@));
                } else if a == pos {
                    assert(lex_leq(gx.name@, old_v[b - 1].name@));
                } else {
                    assert(lex_leq(old_v[a - 1].name@, old_v[b - 1].name@));
                }
            }
            assert forall|a: int, b: int| 0 <= a < b < nv.take(i + 1).len() implies lex_leq(
                (#[trigger] nv.take(i + 1)[a]).name@,
                (#[trigger] nv.take(i + 1)[b]).name@,
            ) by {
                assert(lex_leq(nv[a].name@, nv[b].name@));
            }
            // Stability: moving the entry over the strictly greater segment
            // between its old and new place keeps the order of every name
            // class.
            let p = old_v.take(pos as int);
            let m = old_v.subrange(pos as int, i as int);
            let s = old_v.skip(i + 1);
            assert(old_v =~= ((p + m) + seq![gx]) + s);
            assert(nv =~= ((p + seq![gx]) + m) + s);
            assert forall|k: int| 0 <= k < m.len() implies (#[trigger] m[k]).name@ != gx.name@ by {
                assert(m[k] == old_v[pos + k]);
                if m[k].name@ == gx.name@ {
                    if k == 0 {
                        lemma_lex_refl(gx.name@);
                        assert(lex_leq(old_v[pos as int].name@, gx.name@));
                    } else {
                        assert(lex_leq(old_v[pos as int].name@, old_v[pos + k].name@));
                        assert(lex_leq(old_v[pos as int].name@, gx.name@));
                    }
                }
            }
            assert(seq![gx].drop_last() =~= Seq::<ListedModel>::empty());
            assert forall|n: Seq<char>| #[trigger] named_entries(nv, n) == named_entries(old_v, n)
                by {
                lemma_named_entries_add((p + m) + seq![gx], s, n);
                lemma_named_entries_add(p + m, seq![gx], n);
                lemma_named_entries_add(p, m, n);
                lemma_named_entries_add((p + seq![gx]) + m, s, n);
                lemma_named_entries_add(p + seq![gx], m, n);
                lemma_named_entries_add(p, seq![gx], n);
                assert(named_entries(old_v, n) == ((named_entries(p, n) + named_entries(m, n))
                    + named_entries(seq![gx], n)) + named_entries(s, n));
                assert(named_entries(nv, n) == ((named_entries(p, n) + named_entries(seq![gx], n))
                    + named_entries(m, n)) + named_entries(s, n));
                if n == gx.name@ {
                    lemma_named_entries_none(m, n);
                    assert(named_entries(m, n).len() == 0);
                    assert(((named_entries(p, n) + named_entries(m, n)) + named_entries(
                        seq![gx],
                        n,
                    )) + named_entries(s, n) =~= ((named_entries(p, n) + named_entries(seq![gx], n))
                        + named_entries(m, n)) + named_entries(s, n));
                } else {
                    assert(named_entries(Seq::<ListedModel>::empty(), n)
                        == Seq::<ListedModel>::empty());
                    assert(seq![gx].last() == gx);
                    assert(named_entries(seq![gx], n) == named_entries(seq![gx].drop_last(), n));
                    assert(named_entries(seq![gx], n).len() == 0);
                    assert(((named_entries(p, n) + named_entries(m, n)) + named_entries(
                        seq![gx],
                        n,
                    )) + named_entries(s, n) =~= ((named_entries(p, n) + named_entries(seq![gx], n))
                        + named_entries(m, n)) + named_entries(s, n));
                }
            }
        }
        i = i + 1;
    }
    proof {
        assert(v@.take(v@.len() as int) =~= v@);
    }
    v
}

} // verus!
