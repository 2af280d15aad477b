//! An S3-shaped partitioned source: a directory of objects under a
//! prefix, filtered into partitions by a predicate on evolving paths; a
//! single-object file; and pages of known length.
//!
//! The transport itself (listing a bucket, probing an object's length)
//! is outside code: callers fetch the listing and hand it in as plain
//! keys and sizes. Everything here — the ordering contract of the
//! listing, the prefix stripping, the cursor walk that calls the
//! predicate once per subtree, and which partitions come back — is
//! verified.

use vstd::prelude::*;
use core::cmp::Ordering;

use crate::bits::{bytes_cmp, bytes_cmp_spec, string_bytes};
use crate::path::{split_slash, split_slash_exec, starts_with, subvec_from, PathBuf};
use crate::util::IoError;

verus! {

/// The region an S3 bucket lives in, as its name.
#[derive(Debug)]
pub struct AwsRegion {
    pub name: String,
}

/// How the transport authenticates: anonymously, with a fixed key, or
/// from the process environment.
#[derive(Debug)]
pub enum AwsCredentials {
    /// No credentials; public buckets only.
    Anonymous,
    /// A fixed access key.
    AccessKey { id: String, secret: String },
    /// Discovered from the environment at transport time.
    Environment,
}

/// The errors the source surfaces.
#[derive(Debug)]
pub enum AwsError {
    /// A retryable dispatch failure or server-side response.
    TransportTransient(IoError),
    /// A non-retryable transport or protocol failure.
    TransportFatal(IoError),
    /// The listing broke its contract: a key out of order or missing
    /// the declared prefix.
    ListingContractViolation,
    /// An opaque underlying I/O failure.
    Io(IoError),
    /// The operation is not offered yet.
    Unsupported,
}

impl From<IoError> for AwsError {
    /// Wrap an opaque I/O failure.
    fn from(err: IoError) -> (r: Self) {
        AwsError::Io(err)
    }
}

impl vstd::std_specs::convert::FromSpecImpl<IoError> for AwsError {
    open spec fn obeys_from_spec() -> bool {
        true
    }

    open spec fn from_spec(v: IoError) -> Self {
        AwsError::Io(v)
    }
}

/// One object of a listing: its key and its size in bytes.
#[derive(Debug)]
pub struct ObjectMeta {
    pub key: Vec<u8>,
    pub size: u64,
}

/// One path the filter was asked: directory components, and the file
/// name if the path was a leaf.
pub type AskedPath = (Seq<Seq<u8>>, Option<Seq<u8>>);

/// A predicate on evolving paths, asked once per directory subtree and
/// once per leaf. Its verdict may not change while a walk runs; it may
/// keep state (say, a call count) that does not affect the verdict. It
/// remembers the paths it has been asked, so that a walk can promise
/// exactly which questions it posed.
pub trait PathFilter {
    /// The verdict on a path: directory components, and the file name
    /// for a leaf.
    spec fn accepts(&self, components: Seq<Seq<u8>>, file_name: Option<Seq<u8>>) -> bool;

    /// The paths this filter has been asked, oldest first, one entry per
    /// call.
    spec fn log(&self) -> Seq<AskedPath>;

    /// Ask the verdict on a path; the question is appended to the log.
    fn test(&mut self, path: &PathBuf) -> (r: bool)
        ensures
            r == old(self).accepts(path.components_view(), path.file_name_view()),
            forall|c: Seq<Seq<u8>>, n: Option<Seq<u8>>|
                #[trigger] final(self).accepts(c, n) == old(self).accepts(c, n),
            final(self).log() == old(self).log().push(
                (path.components_view(), path.file_name_view()),
            ),
    ;
}

/// The filter that accepts every path.
pub struct AcceptAll {
    pub asked: Ghost<Seq<AskedPath>>,
}

impl AcceptAll {
    /// A fresh filter with an empty log.
    pub fn new() -> (r: AcceptAll)
        ensures
            r.log() == Seq::<AskedPath>::empty(),
    {
        AcceptAll { asked: Ghost(Seq::empty()) }
    }
}

impl PathFilter for AcceptAll {
    open spec fn accepts(&self, components: Seq<Seq<u8>>, file_name: Option<Seq<u8>>) -> bool {
        true
    }

    open spec fn log(&self) -> Seq<AskedPath> {
        self.asked@
    }

    fn test(&mut self, path: &PathBuf) -> (r: bool) {
        self.asked = Ghost(self.asked@.push((path.components_view(), path.file_name_view())));
        true
    }
}

/// Whether a key, stripped of the listing prefix, is accepted by the
/// filter: every ancestor directory path must be accepted, and so must
/// the leaf path carrying the file name.
pub open spec fn key_accepted<F: PathFilter>(f: F, prefix: Seq<u8>, key: Seq<u8>) -> bool {
    let parts = split_slash(key.skip(prefix.len() as int));
    let nd = parts.len() - 1;
    (forall|d: int| 1 <= d <= nd ==> f.accepts(#[trigger] parts.take(d), None))
        && f.accepts(parts.take(nd), Some(parts[nd]))
}

/// The objects of a listing that the filter accepts, in listing order,
/// as (key, size) pairs.
pub open spec fn accepted_objects<F: PathFilter>(
    f: F,
    prefix: Seq<u8>,
    objs: Seq<(Seq<u8>, u64)>,
) -> Seq<(Seq<u8>, u64)>
    decreases objs.len(),
{
    if objs.len() == 0 {
        Seq::<(Seq<u8>, u64)>::empty()
    } else {
        (if key_accepted(f, prefix, objs[0].0) {
            seq![objs[0]]
        } else {
            Seq::<(Seq<u8>, u64)>::empty()
        }) + accepted_objects(f, prefix, objs.skip(1))
    }
}

/// Accepting one more object appends it exactly when its key is
/// accepted.
proof fn lemma_accepted_objects_snoc<F: PathFilter>(
    f: F,
    prefix: Seq<u8>,
    objs: Seq<(Seq<u8>, u64)>,
    i: int,
)
    requires
        0 <= i < objs.len(),
    ensures
        accepted_objects(f, prefix, objs.take(i + 1)) == accepted_objects(f, prefix, objs.take(i))
            + (if key_accepted(f, prefix, objs[i].0) {
            seq![objs[i]]
        } else {
            Seq::<(Seq<u8>, u64)>::empty()
        }),
    decreases i,
{
    if i == 0 {
        assert(objs.take(1) =~= seq![objs[0]]);
        assert(objs.take(1).skip(1) =~= Seq::<(Seq<u8>, u64)>::empty());
        assert(objs.take(0) =~= Seq::<(Seq<u8>, u64)>::empty());
        assert(accepted_objects(f, prefix, objs.take(1)) =~= accepted_objects(
            f,
            prefix,
            objs.take(0),
        ) + (if key_accepted(f, prefix, objs[0].0) {
            seq![objs[0]]
        } else {
            Seq::<(Seq<u8>, u64)>::empty()
        }));
    } else {
        lemma_accepted_objects_snoc(f, prefix, objs.skip(1), i - 1);
        assert(objs.take(i + 1).skip(1) =~= objs.skip(1).take(i));
        assert(objs.take(i).skip(1) =~= objs.skip(1).take(i - 1));
        assert(objs.take(i + 1)[0] == objs[0]);
        assert(objs.take(i)[0] == objs[0]);
        assert(objs.skip(1)[i - 1] == objs[i]);
        assert(accepted_objects(f, prefix, objs.take(i + 1)) =~= accepted_objects(
            f,
            prefix,
            objs.take(i),
        ) + (if key_accepted(f, prefix, objs[i].0) {
            seq![objs[i]]
        } else {
            Seq::<(Seq<u8>, u64)>::empty()
        }));
    }
}


/// How much of the cursor survives the pops for a key with directory
/// chain `dirs`: the longest prefix of the cursor that is a prefix of
/// `dirs`.
pub open spec fn settled_len(cursor: Seq<Seq<u8>>, dirs: Seq<Seq<u8>>) -> int
    decreases cursor.len(),
{
    if comp_prefix(cursor, dirs) {
        cursor.len() as int
    } else if cursor.len() == 0 {
        0
    } else {
        settled_len(cursor.drop_last(), dirs)
    }
}

/// The paths the walk asks from directory depth `d` on: each deeper
/// directory in turn while the filter accepts them, stopping at the
/// first rejection; if every directory is accepted, finally the leaf.
pub open spec fn walk_pushes<F: PathFilter>(
    f: F,
    dirs: Seq<Seq<u8>>,
    d: int,
    leaf: Seq<u8>,
) -> Seq<AskedPath>
    decreases dirs.len() - d,
{
    if d >= dirs.len() {
        seq![(dirs, Some(leaf))]
    } else if f.accepts(dirs.take(d + 1), None) {
        seq![(dirs.take(d + 1), None::<Seq<u8>>)] + walk_pushes(f, dirs, d + 1, leaf)
    } else {
        seq![(dirs.take(d + 1), None::<Seq<u8>>)]
    }
}

/// The cursor depth the walk ends at when pushing from depth `d`: the
/// full chain if every directory is accepted, else the depth of the
/// first rejected directory.
pub open spec fn walk_end<F: PathFilter>(f: F, dirs: Seq<Seq<u8>>, d: int) -> int
    decreases dirs.len() - d,
{
    if d >= dirs.len() {
        d
    } else if f.accepts(dirs.take(d + 1), None) {
        walk_end(f, dirs, d + 1)
    } else {
        d + 1
    }
}

/// Whether pushing from depth `d` runs into a rejected directory.
pub open spec fn walk_rejected<F: PathFilter>(f: F, dirs: Seq<Seq<u8>>, d: int) -> bool
    decreases dirs.len() - d,
{
    if d >= dirs.len() {
        false
    } else if f.accepts(dirs.take(d + 1), None) {
        walk_rejected(f, dirs, d + 1)
    } else {
        true
    }
}

/// One key's walk, as a function of the filter's verdicts: the paths it
/// asks, the cursor it leaves behind, and whether a rejection is then
/// pending. A key covered by a pending rejection asks nothing; else the
/// cursor pops to the shared directory chain and each new directory is
/// asked once, ancestors first, with the leaf asked only after the whole
/// chain is accepted.
pub open spec fn walk_model<F: PathFilter>(
    f: F,
    cursor: Seq<Seq<u8>>,
    skip: bool,
    parts: Seq<Seq<u8>>,
) -> (Seq<AskedPath>, Seq<Seq<u8>>, bool) {
    let dirs = parts.take(parts.len() - 1);
    let leaf = parts[parts.len() - 1];
    if skip && comp_prefix(cursor, dirs) {
        (Seq::<AskedPath>::empty(), cursor, skip)
    } else {
        let start = settled_len(cursor, dirs);
        (
            walk_pushes(f, dirs, start, leaf),
            dirs.take(walk_end(f, dirs, start)),
            walk_rejected(f, dirs, start),
        )
    }
}

/// A whole listing's walk: the walks of its keys, each starting from the
/// cursor and pending rejection the one before left behind.
pub open spec fn listing_model<F: PathFilter>(
    f: F,
    prefix: Seq<u8>,
    keys: Seq<Seq<u8>>,
    cursor: Seq<Seq<u8>>,
    skip: bool,
) -> (Seq<AskedPath>, Seq<Seq<u8>>, bool)
    decreases keys.len(),
{
    if keys.len() == 0 {
        (Seq::<AskedPath>::empty(), cursor, skip)
    } else {
        let parts = split_slash(keys[0].skip(prefix.len() as int));
        let step = walk_model(f, cursor, skip, parts);
        let rest = listing_model(f, prefix, keys.skip(1), step.1, step.2);
        (step.0 + rest.0, rest.1, rest.2)
    }
}

/// The paths the filter is asked while a fresh walk filters a listing,
/// in order.
pub open spec fn listing_calls<F: PathFilter>(f: F, prefix: Seq<u8>, keys: Seq<Seq<u8>>) -> Seq<
    AskedPath,
> {
    listing_model(f, prefix, keys, Seq::<Seq<u8>>::empty(), false).0
}

/// Walking one more key appends that key's own walk.
proof fn lemma_listing_model_snoc<F: PathFilter>(
    f: F,
    prefix: Seq<u8>,
    keys: Seq<Seq<u8>>,
    cursor: Seq<Seq<u8>>,
    skip: bool,
    i: int,
)
    requires
        0 <= i < keys.len(),
    ensures
        ({
            let before = listing_model(f, prefix, keys.take(i), cursor, skip);
            let parts = split_slash(keys[i].skip(prefix.len() as int));
            let step = walk_model(f, before.1, before.2, parts);
            listing_model(f, prefix, keys.take(i + 1), cursor, skip) == (
                before.0 + step.0,
                step.1,
                step.2,
            )
        }),
    decreases i,
{
    if i == 0 {
        assert(keys.take(0) =~= Seq::<Seq<u8>>::empty());
        assert(keys.take(1) =~= seq![keys[0]]);
        assert(keys.take(1)[0] == keys[0]);
        assert(keys.take(1).skip(1) =~= Seq::<Seq<u8>>::empty());
        let parts = split_slash(keys[0].skip(prefix.len() as int));
        let step = walk_model(f, cursor, skip, parts);
        let before = listing_model(f, prefix, keys.take(0), cursor, skip);
        assert(before.0 =~= Seq::<AskedPath>::empty());
        assert(listing_model(f, prefix, keys.take(1).skip(1), step.1, step.2) == (
            Seq::<AskedPath>::empty(),
            step.1,
            step.2,
        ));
        assert(listing_model(f, prefix, keys.take(1), cursor, skip) == (
            step.0 + Seq::<AskedPath>::empty(),
            step.1,
            step.2,
        ));
        assert(step.0 + Seq::<AskedPath>::empty() =~= step.0);
        assert(before.0 + step.0 =~= step.0);
        assert(listing_model(f, prefix, keys.take(1), cursor, skip).0 =~= step.0);
        assert(listing_model(f, prefix, keys.take(1), cursor, skip).1 == step.1);
        assert(listing_model(f, prefix, keys.take(1), cursor, skip).2 == step.2);
    } else {
        let parts0 = split_slash(keys[0].skip(prefix.len() as int));
        let step0 = walk_model(f, cursor, skip, parts0);
        lemma_listing_model_snoc(f, prefix, keys.skip(1), step0.1, step0.2, i - 1);
        assert(keys.take(i + 1)[0] == keys[0]);
        assert(keys.take(i)[0] == keys[0]);
        assert(keys.take(i + 1).skip(1) =~= keys.skip(1).take(i));
        assert(keys.take(i).skip(1) =~= keys.skip(1).take(i - 1));
        assert(keys.skip(1)[i - 1] == keys[i]);
        let before = listing_model(f, prefix, keys.take(i), cursor, skip);
        let before_rest = listing_model(f, prefix, keys.skip(1).take(i - 1), step0.1, step0.2);
        let parts = split_slash(keys[i].skip(prefix.len() as int));
        let step = walk_model(f, before.1, before.2, parts);
        assert(before.0 == step0.0 + before_rest.0);
        assert(before.1 == before_rest.1);
        assert(before.2 == before_rest.2);
        assert(listing_model(f, prefix, keys.take(i + 1), cursor, skip).0 == step0.0
            + listing_model(f, prefix, keys.skip(1).take(i), step0.1, step0.2).0);
        assert(listing_model(f, prefix, keys.skip(1).take(i), step0.1, step0.2).0 == before_rest.0
            + step.0);
        assert(listing_model(f, prefix, keys.take(i + 1), cursor, skip).0 =~= before.0 + step.0);
        assert(listing_model(f, prefix, keys.take(i + 1), cursor, skip).1 == step.1);
        assert(listing_model(f, prefix, keys.take(i + 1), cursor, skip).2 == step.2);
    }
}

/// The discipline of one key's questions, read off the walk model: the
/// walk asks one directory per depth, descending one level at a time, so
/// no path twice; a directory is asked only after the one above it was
/// asked and accepted; the leaf is asked exactly once, last, and only
/// when the whole directory chain is accepted; after a rejected
/// directory nothing further is asked.
pub proof fn lemma_walk_pushes_discipline<F: PathFilter>(
    f: F,
    dirs: Seq<Seq<u8>>,
    d: int,
    leaf: Seq<u8>,
)
    requires
        0 <= d <= dirs.len(),
    ensures
        ({
            let asked = walk_pushes(f, dirs, d, leaf);
            &&& asked.len() >= 1
            &&& (forall|t: int|
                0 <= t < asked.len() && (#[trigger] asked[t]).1 is None ==> asked[t] == (
                dirs.take(d + t + 1),
                None::<Seq<u8>>,
            ))
            &&& (forall|t: int|
                0 <= t < asked.len() && (#[trigger] asked[t]).1 is Some ==> t == asked.len() - 1
                    && asked[t] == (dirs, Some(leaf)) && (forall|e: int|
                    d < e <= dirs.len() ==> f.accepts(#[trigger] dirs.take(e), None)))
            &&& (forall|t: int| 0 < t < asked.len() ==> f.accepts(#[trigger] dirs.take(d + t), None))
        }),
    decreases dirs.len() - d,
{
    let asked = walk_pushes(f, dirs, d, leaf);
    if d >= dirs.len() {
        assert(dirs.take(d) =~= dirs);
    } else if f.accepts(dirs.take(d + 1), None) {
        lemma_walk_pushes_discipline(f, dirs, d + 1, leaf);
        let rest = walk_pushes(f, dirs, d + 1, leaf);
        assert forall|t: int| 0 <= t < asked.len() && (#[trigger] asked[t]).1 is None implies asked[t]
            == (dirs.take(d + t + 1), None::<Seq<u8>>) by {
            if t >= 1 {
                assert(asked[t] == rest[t - 1]);
            }
        }
        assert forall|t: int|
            0 <= t < asked.len() && (#[trigger] asked[t]).1 is Some implies t == asked.len() - 1
            && asked[t] == (dirs, Some(leaf)) && (forall|e: int|
            d < e <= dirs.len() ==> f.accepts(#[trigger] dirs.take(e), None)) by {
            assert(asked[t] == rest[t - 1]);
            assert forall|e: int| d < e <= dirs.len() implies f.accepts(
                #[trigger] dirs.take(e),
                None,
            ) by {
                if e > d + 1 {
                    assert(rest[rest.len() - 1].1 is Some);
                }
            }
        }
        assert forall|t: int| 0 < t < asked.len() implies f.accepts(
            #[trigger] dirs.take(d + t),
            None,
        ) by {
            if t >= 2 {
                assert(asked[t] == rest[t - 1]);
                assert(f.accepts(dirs.take(d + 1 + (t - 1)), None));
            }
        }
    } else {
    }
}

/// Two filters with the same verdicts are asked the same questions and
/// leave a walk in the same state.
proof fn lemma_walk_calls_agree<F: PathFilter>(
    f1: F,
    f2: F,
    dirs: Seq<Seq<u8>>,
    d: int,
    leaf: Seq<u8>,
)
    requires
        forall|c: Seq<Seq<u8>>, n: Option<Seq<u8>>|
            #[trigger] f1.accepts(c, n) == f2.accepts(c, n),
    ensures
        walk_pushes(f1, dirs, d, leaf) == walk_pushes(f2, dirs, d, leaf),
        walk_end(f1, dirs, d) == walk_end(f2, dirs, d),
        walk_rejected(f1, dirs, d) == walk_rejected(f2, dirs, d),
    decreases dirs.len() - d,
{
    if d < dirs.len() && f1.accepts(dirs.take(d + 1), None) {
        lemma_walk_calls_agree(f1, f2, dirs, d + 1, leaf);
    }
}

/// Two filters with the same verdicts make one key's walk identical.
proof fn lemma_walk_model_agrees<F: PathFilter>(
    f1: F,
    f2: F,
    cursor: Seq<Seq<u8>>,
    skip: bool,
    parts: Seq<Seq<u8>>,
)
    requires
        forall|c: Seq<Seq<u8>>, n: Option<Seq<u8>>|
            #[trigger] f1.accepts(c, n) == f2.accepts(c, n),
    ensures
        walk_model(f1, cursor, skip, parts) == walk_model(f2, cursor, skip, parts),
{
    let dirs = parts.take(parts.len() - 1);
    let leaf = parts[parts.len() - 1];
    if !(skip && comp_prefix(cursor, dirs)) {
        lemma_walk_calls_agree(f1, f2, dirs, settled_len(cursor, dirs), leaf);
    }
}

/// The contract an object-store listing must honour: every key starts
/// with the requested prefix, and the stripped keys come in strictly
/// ascending byte order.
pub open spec fn listing_wf(prefix: Seq<u8>, keys: Seq<Seq<u8>>) -> bool {
    (forall|i: int| 0 <= i < keys.len() ==> prefix.is_prefix_of(#[trigger] keys[i])) && (forall|
        i: int,
    |
        0 <= i < keys.len() - 1 ==> bytes_cmp_spec(
            (#[trigger] keys[i]).skip(prefix.len() as int),
            keys[i + 1].skip(prefix.len() as int),
        ) == Ordering::Less)
}

/// Whether one component sequence is a prefix of another.
pub open spec fn comp_prefix(a: Seq<Seq<u8>>, b: Seq<Seq<u8>>) -> bool {
    a.len() <= b.len() && (forall|j: int| 0 <= j < a.len() ==> a[j] == b[j])
}

/// Decide whether the cursor's components are a prefix of the first
/// `dirs_n` split components.
fn cursor_is_dir_prefix(cursor: &PathBuf, parts: &Vec<Vec<u8>>, dirs_n: usize) -> (r: bool)
    requires
        dirs_n <= parts@.len(),
    ensures
        r == comp_prefix(
            cursor.components_view(),
            parts@.map_values(|c: Vec<u8>| c@).take(dirs_n as int),
        ),
{
    let ghost dirs = parts@.map_values(|c: Vec<u8>| c@).take(dirs_n as int);
    proof {
        assert(dirs.len() == dirs_n);
    }
    let depth = cursor.depth();
    if depth > dirs_n {
        return false;
    }
    let mut j: usize = 0;
    loop
        invariant
            j <= depth,
            depth == cursor.components_view().len(),
            depth <= dirs_n <= parts@.len(),
            dirs == parts@.map_values(|c: Vec<u8>| c@).take(dirs_n as int),
            forall|t: int| 0 <= t < j ==> cursor.components_view()[t] == dirs[t],
        decreases depth - j,
    {
        if j == depth {
            return true;
        }
        if !crate::bits::bytes_eq(cursor.components[j].as_slice(), parts[j].as_slice()) {
            proof {
                assert(cursor.components_view()[j as int] == cursor.components@[j as int]@);
                assert(dirs[j as int] == parts@[j as int]@);
            }
            return false;
        }
        j = j + 1;
    }
}

/// A directory of objects in one bucket under one key prefix.
#[derive(Debug)]
pub struct S3Directory {
    pub region: AwsRegion,
    pub bucket: String,
    pub prefix: String,
    pub credentials: AwsCredentials,
}

/// A single-object file.
#[derive(Debug)]
pub struct S3File {
    pub region: AwsRegion,
    pub bucket: String,
    pub key: String,
    pub credentials: AwsCredentials,
}

/// One partition of a directory: an object with its key and size.
#[derive(Debug)]
pub struct S3Partition {
    pub region: AwsRegion,
    pub bucket: String,
    pub key: Vec<u8>,
    pub len: u64,
    pub credentials: AwsCredentials,
}

/// Copy a region value.
fn clone_region(r: &AwsRegion) -> (c: AwsRegion)
    ensures
        c.name@ == r.name@,
{
    AwsRegion { name: r.name.clone() }
}

/// Whether two credentials carry the same choice and the same key
/// material.
pub open spec fn credentials_match(a: AwsCredentials, b: AwsCredentials) -> bool {
    match (a, b) {
        (AwsCredentials::Anonymous, AwsCredentials::Anonymous) => true,
        (AwsCredentials::Environment, AwsCredentials::Environment) => true,
        (
            AwsCredentials::AccessKey { id: i1, secret: s1 },
            AwsCredentials::AccessKey { id: i2, secret: s2 },
        ) => i1@ == i2@ && s1@ == s2@,
        _ => false,
    }
}

/// Copy a credentials value.
fn clone_credentials(c: &AwsCredentials) -> (r: AwsCredentials)
    ensures
        credentials_match(r, *c),
{
    match c {
        AwsCredentials::Anonymous => AwsCredentials::Anonymous,
        AwsCredentials::AccessKey { id, secret } => AwsCredentials::AccessKey {
            id: id.clone(),
            secret: secret.clone(),
        },
        AwsCredentials::Environment => AwsCredentials::Environment,
    }
}

/// The walking state the cursor keeps between keys: every proper
/// ancestor on the cursor is accepted, and the cursor's own path is
/// accepted exactly when no skip is pending.
pub open spec fn cursor_wf<F: PathFilter>(f: F, cursor: PathBuf, skip: bool) -> bool {
    let cv = cursor.components_view();
    &&& cursor.file_name_view() is None
    &&& (forall|d: int| 1 <= d < cv.len() ==> f.accepts(#[trigger] cv.take(d), None))
    &&& (skip ==> cv.len() >= 1 && !f.accepts(cv, None))
    &&& (!skip ==> (cv.len() >= 1 ==> f.accepts(cv, None)))
}

/// Walk one split key with the evolving cursor: skip under a rejected
/// ancestor without asking again, pop to the common directory chain,
/// push and ask once per new directory, then ask about the leaf. Answers
/// whether the filter accepts the key.
#[verifier::rlimit(60)]
#[verifier::loop_isolation(false)]
fn walk_key<F: PathFilter>(
    f: &mut F,
    cursor: &mut PathBuf,
    skip: &mut bool,
    parts: &Vec<Vec<u8>>,
    Ghost(pfx): Ghost<Seq<u8>>,
    Ghost(key_i): Ghost<Seq<u8>>,
) -> (included: bool)
    requires
        parts@.len() >= 1,
        split_slash(key_i.skip(pfx.len() as int)) == parts@.map_values(|c: Vec<u8>| c@),
        cursor_wf(*old(f), *old(cursor), *old(skip)),
    ensures
        cursor_wf(*final(f), *final(cursor), *final(skip)),
        included == key_accepted(*old(f), pfx, key_i),
        forall|c: Seq<Seq<u8>>, n: Option<Seq<u8>>|
            #[trigger] final(f).accepts(c, n) == old(f).accepts(c, n),
        ({
            let model = walk_model(
                *old(f),
                old(cursor).components_view(),
                *old(skip),
                parts@.map_values(|c: Vec<u8>| c@),
            );
            &&& final(f).log() == old(f).log() + model.0
            &&& final(cursor).components_view() == model.1
            &&& *final(skip) == model.2
        }),
{
    let ghost partsv = parts@.map_values(|c: Vec<u8>| c@);
    let dirs_n = parts.len() - 1;
    let ghost dirs = partsv.take(dirs_n as int);
    let ghost nd = partsv.len() - 1;
    let ghost leafv = partsv[nd];
    proof {
        assert(partsv.len() == parts@.len());
    }

    if *skip {
        let covered = cursor_is_dir_prefix(cursor, parts, dirs_n);
        if covered {
            // a rejected ancestor still covers this key
            proof {
                let cv = cursor.components_view();
                let d = cv.len() as int;
                assert(cv =~= partsv.take(d));
                assert(!f.accepts(partsv.take(d), None));
                assert(!key_accepted(*old(f), pfx, key_i));
                let model = walk_model(*old(f), cv, true, partsv);
                assert(model.0 =~= Seq::<AskedPath>::empty());
                assert(f.log() =~= old(f).log() + model.0);
            }
            return false;
        }
    }
    *skip = false;
    proof {
        assert(!(*old(skip) && comp_prefix(old(cursor).components_view(), dirs)));
    }
    // pop the cursor until it is a prefix of this key's directory chain
    let mut settled = cursor_is_dir_prefix(cursor, parts, dirs_n);
    while !settled
        invariant
            settled == comp_prefix(cursor.components_view(), dirs),
            f.log() == old(f).log(),
            cursor.components_view().len() <= old(cursor).components_view().len(),
            cursor.components_view() == old(cursor).components_view().take(
                cursor.components_view().len() as int,
            ),
            settled_len(old(cursor).components_view(), dirs) == settled_len(
                cursor.components_view(),
                dirs,
            ),
            dirs == partsv.take(dirs_n as int),
            dirs_n < partsv.len(),
            partsv == parts@.map_values(|c: Vec<u8>| c@),
            dirs_n < parts@.len(),
            cursor.file_name_view() is None,
            forall|c: Seq<Seq<u8>>, fnm: Option<Seq<u8>>|
                #[trigger] f.accepts(c, fnm) == old(f).accepts(c, fnm),
            forall|d: int|
                1 <= d < cursor.components_view().len() ==> f.accepts(
                    #[trigger] cursor.components_view().take(d),
                    None,
                ),
            cursor.components_view().len() == 0 || f.accepts(cursor.components_view(), None)
                || !comp_prefix(cursor.components_view(), dirs),
        decreases cursor.components_view().len(),
    {
        let ghost before = cursor.components_view();
        let popped = cursor.pop();
        proof {
            assert(comp_prefix(Seq::<Seq<u8>>::empty(), dirs));
            assert(before.len() > 0);
            let cvn = cursor.components_view();
            assert(cvn =~= before.take(before.len() - 1));
            assert(cvn =~= before.drop_last());
            assert(settled_len(before, dirs) == settled_len(cvn, dirs));
            assert(before == old(cursor).components_view().take(before.len() as int));
            assert(old(cursor).components_view().take(before.len() as int).take(
                before.len() - 1,
            ) =~= old(cursor).components_view().take(before.len() - 1));
            assert(cvn =~= old(cursor).components_view().take(cvn.len() as int));
            assert forall|d: int| 1 <= d < cvn.len() implies f.accepts(
                #[trigger] cvn.take(d),
                None,
            ) by {
                assert(cvn.take(d) =~= before.take(d));
            }
            if cvn.len() >= 1 {
                assert(cvn =~= before.take(cvn.len() as int));
            }
        }
        settled = cursor_is_dir_prefix(cursor, parts, dirs_n);
    }
    let ghost start = cursor.components_view().len() as int;
    proof {
        assert(settled_len(old(cursor).components_view(), dirs) == start);
    }
    // the cursor now sits on an accepted ancestor chain
    proof {
        let cv = cursor.components_view();
        assert(comp_prefix(cv, dirs));
        assert forall|d: int| 1 <= d <= cv.len() implies f.accepts(#[trigger] cv.take(d), None) by {
            if d == cv.len() {
                assert(cv.take(d) =~= cv);
            }
        }
    }
    // push each new directory, asking the filter at each step
    while cursor.depth() < dirs_n
        invariant
            *skip == false,
            dirs == partsv.take(dirs_n as int),
            dirs_n < partsv.len(),
            partsv == parts@.map_values(|c: Vec<u8>| c@),
            dirs_n < parts@.len(),
            leafv == partsv[partsv.len() - 1],
            start <= cursor.components_view().len(),
            old(f).log() + walk_pushes(*old(f), dirs, start, leafv) == f.log() + walk_pushes(
                *old(f),
                dirs,
                cursor.components_view().len() as int,
                leafv,
            ),
            walk_end(*old(f), dirs, start) == walk_end(
                *old(f),
                dirs,
                cursor.components_view().len() as int,
            ),
            walk_rejected(*old(f), dirs, start) == walk_rejected(
                *old(f),
                dirs,
                cursor.components_view().len() as int,
            ),
            cursor.file_name_view() is None,
            forall|c: Seq<Seq<u8>>, fnm: Option<Seq<u8>>|
                #[trigger] f.accepts(c, fnm) == old(f).accepts(c, fnm),
            comp_prefix(cursor.components_view(), dirs),
            forall|d: int|
                1 <= d <= cursor.components_view().len() ==> f.accepts(
                    #[trigger] cursor.components_view().take(d),
                    None,
                ),
        decreases dirs_n - cursor.components_view().len(),
    {
        let depth = cursor.depth();
        let component = subvec_from(parts[depth].as_slice(), 0);
        proof {
            assert(component@ =~= partsv[depth as int]);
        }
        let ghost before = cursor.components_view();
        cursor.push(component);
        proof {
            assert(cursor.components_view() =~= before.push(partsv[depth as int]));
            assert(comp_prefix(cursor.components_view(), dirs)) by {
                assert(forall|j: int|
                    0 <= j < before.len() ==> #[trigger] cursor.components_view()[j] == dirs[j]);
                assert(cursor.components_view()[before.len() as int] == dirs[before.len() as int]);
            }
        }
        let ghost log_before = f.log();
        let ok = f.test(cursor);
        proof {
            let cv = cursor.components_view();
            let dd = before.len() as int;
            assert(cv =~= dirs.take(dd + 1));
            assert(f.log() =~= log_before.push((dirs.take(dd + 1), None::<Seq<u8>>)));
            assert(ok == old(f).accepts(dirs.take(dd + 1), None));
            assert forall|d: int| 1 <= d < cv.len() implies f.accepts(
                #[trigger] cv.take(d),
                None,
            ) by {
                assert(cv.take(d) =~= before.take(d));
            }
            if !ok {
                assert(cv =~= partsv.take(cv.len() as int));
                assert(!f.accepts(partsv.take(cv.len() as int), None));
                assert(!old(f).accepts(partsv.take(cv.len() as int), None));
                assert(1 <= cv.len() <= nd);
                assert(!key_accepted(*old(f), pfx, key_i));
                assert(cursor_wf(*f, *cursor, true));
                // the walk ends here: its last question was this
                // rejected directory
                assert(walk_pushes(*old(f), dirs, dd, leafv) == seq![
                    (dirs.take(dd + 1), None::<Seq<u8>>),
                ]);
                assert(f.log() =~= log_before + walk_pushes(*old(f), dirs, dd, leafv));
                assert(f.log() =~= old(f).log() + walk_pushes(*old(f), dirs, start, leafv));
                assert(walk_end(*old(f), dirs, start) == dd + 1);
                assert(walk_rejected(*old(f), dirs, start) == true);
                assert(cv == dirs.take(walk_end(*old(f), dirs, start)));
            } else {
                assert forall|d: int| 1 <= d <= cv.len() implies f.accepts(
                    #[trigger] cv.take(d),
                    None,
                ) by {
                    if d == cv.len() {
                        assert(cv.take(d) =~= cv);
                    } else {
                        assert(cv.take(d) =~= before.take(d));
                    }
                }
                // one accepted directory peels off the remaining pushes
                assert(walk_pushes(*old(f), dirs, dd, leafv) == seq![
                    (dirs.take(dd + 1), None::<Seq<u8>>),
                ] + walk_pushes(*old(f), dirs, dd + 1, leafv));
                assert(old(f).log() + walk_pushes(*old(f), dirs, start, leafv) =~= f.log()
                    + walk_pushes(*old(f), dirs, dd + 1, leafv));
            }
        }
        if !ok {
            *skip = true;
            return false;
        }
    }
    // the whole directory chain is accepted; ask about the leaf
    proof {
        assert(cursor.components_view() =~= dirs);
    }
    let leaf = subvec_from(parts[dirs_n].as_slice(), 0);
    proof {
        assert(leaf@ =~= partsv[dirs_n as int]);
    }
    cursor.set_file_name(Some(leaf));
    let ghost log_before = f.log();
    let ok = f.test(cursor);
    cursor.set_file_name(None);
    proof {
        let cv = cursor.components_view();
        assert(cv =~= dirs);
        assert(f.log() =~= log_before.push((dirs, Some(leafv))));
        assert(walk_pushes(*old(f), dirs, dirs_n as int, leafv) == seq![(dirs, Some(leafv))]);
        assert(f.log() =~= log_before + walk_pushes(*old(f), dirs, dirs_n as int, leafv));
        assert(f.log() =~= old(f).log() + walk_pushes(*old(f), dirs, start, leafv));
        assert(walk_end(*old(f), dirs, start) == dirs_n as int);
        assert(walk_rejected(*old(f), dirs, start) == false);
        assert(cv =~= dirs.take(walk_end(*old(f), dirs, start)));
        assert(dirs =~= partsv.take(nd));
        assert(ok == old(f).accepts(partsv.take(nd), Some(partsv[nd])));
        assert forall|d: int| 1 <= d <= nd implies old(f).accepts(
            #[trigger] partsv.take(d),
            None,
        ) by {
            assert(partsv.take(d) =~= dirs.take(d));
            assert(dirs.take(d) == cv.take(d));
            if d == cv.len() {
                assert(cv.take(d) =~= cv);
            }
            assert(f.accepts(cv.take(d), None));
        }
        if ok {
            assert(key_accepted(*old(f), pfx, key_i));
        } else {
            assert(!key_accepted(*old(f), pfx, key_i));
        }
        assert forall|d: int| 1 <= d < cv.len() implies f.accepts(
            #[trigger] cv.take(d),
            None,
        ) by {
            assert(old(f).accepts(partsv.take(d), None));
            assert(partsv.take(d) =~= cv.take(d));
        }
        if cv.len() >= 1 {
            assert(old(f).accepts(partsv.take(cv.len() as int), None));
            assert(partsv.take(cv.len() as int) =~= cv);
        }
        assert(cursor_wf(*f, *cursor, false));
        assert(*skip == false);
    }
    ok
}

impl S3Directory {
    /// A directory with credentials discovered from the environment.
    pub fn new(region: AwsRegion, bucket: &str, prefix: &str) -> (r: S3Directory)
        ensures
            r.region == region,
            r.bucket@ == bucket@,
            r.prefix@ == prefix@,
            r.credentials is Environment,
    {
        Self::new_with(region, bucket, prefix, AwsCredentials::Environment)
    }

    /// A directory with the given credentials.
    pub fn new_with(
        region: AwsRegion,
        bucket: &str,
        prefix: &str,
        credentials: AwsCredentials,
    ) -> (r: S3Directory)
        ensures
            r.region == region,
            r.bucket@ == bucket@,
            r.prefix@ == prefix@,
            r.credentials == credentials,
    {
        let (bucket, prefix) = (bucket.to_owned(), prefix.to_owned());
        S3Directory { region, bucket, prefix, credentials }
    }

    /// Walk a listing of this directory and keep the partitions the
    /// filter accepts.
    ///
    /// The listing must honour the store's contract — every key carries
    /// the prefix and stripped keys ascend strictly — else the walk
    /// fails with [`AwsError::ListingContractViolation`]. A kept
    /// partition is exactly one whose leaf path and every ancestor
    /// directory path the filter accepts; the filter is asked once per
    /// directory subtree, ancestors before descendants, and once per
    /// leaf.
    #[verifier::rlimit(100)]
    pub fn partitions_filter<F: PathFilter>(
        self,
        f: &mut F,
        objects: Vec<ObjectMeta>,
    ) -> (r: Result<Vec<S3Partition>, AwsError>)
        ensures
            (r is Ok) == listing_wf(
                string_bytes(self.prefix),
                objects@.map_values(|o: ObjectMeta| o.key@),
            ),
            r matches Err(e) ==> e is ListingContractViolation,
            r matches Ok(ps) ==> ps@.map_values(|p: S3Partition| (p.key@, p.len))
                == accepted_objects(
                *old(f),
                string_bytes(self.prefix),
                objects@.map_values(|o: ObjectMeta| (o.key@, o.size)),
            ),
            r matches Ok(ps) ==> forall|j: int|
                0 <= j < ps@.len() ==> (#[trigger] ps@[j].region.name@) == self.region.name@
                    && ps@[j].bucket@ == self.bucket@ && credentials_match(
                    ps@[j].credentials,
                    self.credentials,
                ),
            forall|c: Seq<Seq<u8>>, n: Option<Seq<u8>>|
                #[trigger] final(f).accepts(c, n) == old(f).accepts(c, n),
            r is Ok ==> final(f).log() == old(f).log() + listing_calls(
                *old(f),
                string_bytes(self.prefix),
                objects@.map_values(|o: ObjectMeta| o.key@),
            ),
    {
        let S3Directory { region, bucket, prefix, credentials } = self;
        let prefix_bytes: &[u8] = prefix.as_str().as_bytes();
        let plen = prefix_bytes.len();
        let ghost pfx = string_bytes(self.prefix);
        let ghost keys = objects@.map_values(|o: ObjectMeta| o.key@);
        let ghost objpairs = objects@.map_values(|o: ObjectMeta| (o.key@, o.size));

        let n = objects.len();
        let mut result: Vec<S3Partition> = Vec::new();
        let mut cursor = PathBuf::new();
        let mut skip = false;
        let mut last_rest: Option<Vec<u8>> = None;
        let mut i: usize = 0;
        proof {
            assert(objpairs.take(0) =~= Seq::<(Seq<u8>, u64)>::empty());
            assert(result@.map_values(|p: S3Partition| (p.key@, p.len)) =~= accepted_objects(
                *old(f),
                pfx,
                objpairs.take(0),
            ));
            assert(keys.take(0) =~= Seq::<Seq<u8>>::empty());
            let m0 = listing_model(*old(f), pfx, keys.take(0), Seq::<Seq<u8>>::empty(), false);
            assert(m0.0 =~= Seq::<AskedPath>::empty());
            assert(f.log() =~= old(f).log() + m0.0);
            assert(cursor.components_view() =~= m0.1);
        }
        loop
            invariant
                i <= n,
                n == objects@.len(),
                plen == pfx.len(),
                pfx == string_bytes(self.prefix),
                prefix_bytes@ == pfx,
                keys == objects@.map_values(|o: ObjectMeta| o.key@),
                objpairs == objects@.map_values(|o: ObjectMeta| (o.key@, o.size)),
                region.name@ == self.region.name@,
                bucket@ == self.bucket@,
                forall|c: Seq<Seq<u8>>, fnm: Option<Seq<u8>>|
                    #[trigger] f.accepts(c, fnm) == old(f).accepts(c, fnm),
                forall|j: int| 0 <= j < i ==> pfx.is_prefix_of(#[trigger] keys[j]),
                forall|j: int|
                    0 <= j < i - 1 ==> bytes_cmp_spec(
                        (#[trigger] keys[j]).skip(plen as int),
                        keys[j + 1].skip(plen as int),
                    ) == Ordering::Less,
                i == 0 <==> last_rest is None,
                i > 0 ==> (last_rest matches Some(lr) && lr@ == keys[i - 1].skip(plen as int)),
                result@.map_values(|p: S3Partition| (p.key@, p.len)) == accepted_objects(
                    *old(f),
                    pfx,
                    objpairs.take(i as int),
                ),
                forall|j: int|
                    0 <= j < result@.len() ==> (#[trigger] result@[j].region.name@)
                        == self.region.name@ && result@[j].bucket@ == self.bucket@
                        && credentials_match(result@[j].credentials, self.credentials),
                credentials_match(credentials, self.credentials),
                cursor_wf(*f, cursor, skip),
                f.log() == old(f).log() + listing_model(
                    *old(f),
                    pfx,
                    keys.take(i as int),
                    Seq::<Seq<u8>>::empty(),
                    false,
                ).0,
                cursor.components_view() == listing_model(
                    *old(f),
                    pfx,
                    keys.take(i as int),
                    Seq::<Seq<u8>>::empty(),
                    false,
                ).1,
                skip == listing_model(
                    *old(f),
                    pfx,
                    keys.take(i as int),
                    Seq::<Seq<u8>>::empty(),
                    false,
                ).2,
            decreases n - i,
        {
            if i == n {
                proof {
                    assert(objpairs.take(n as int) =~= objpairs);
                    assert(keys.len() == n);
                    assert(keys.take(n as int) =~= keys);
                }
                return Ok(result);
            }
            let obj = &objects[i];
            let ghost key_i = keys[i as int];
            proof {
                assert(objects@[i as int].key@ == key_i);
            }
            if !starts_with(obj.key.as_slice(), prefix_bytes) {
                proof {
                    assert(!listing_wf(pfx, keys)) by {
                        if listing_wf(pfx, keys) {
                            assert(pfx.is_prefix_of(keys[i as int]));
                        }
                    }
                }
                return Err(AwsError::ListingContractViolation);
            }
            let rest = subvec_from(obj.key.as_slice(), plen);
            match &last_rest {
                Some(lr) => {
                    let order = bytes_cmp(lr.as_slice(), rest.as_slice());
                    let ascending = match order {
                        Ordering::Less => true,
                        _ => false,
                    };
                    if !ascending {
                        proof {
                            assert(!listing_wf(pfx, keys)) by {
                                if listing_wf(pfx, keys) {
                                    assert(bytes_cmp_spec(
                                        keys[i - 1].skip(plen as int),
                                        keys[i as int].skip(plen as int),
                                    ) == Ordering::Less);
                                }
                            }
                        }
                        return Err(AwsError::ListingContractViolation);
                    }
                },
                None => {},
            }
            let parts = split_slash_exec(rest.as_slice());
            proof {
                assert(rest@ == key_i.skip(plen as int));
            }
            let ghost f_pre = *f;
            let included = walk_key(
                f,
                &mut cursor,
                &mut skip,
                &parts,
                Ghost(pfx),
                Ghost(key_i),
            );
            proof {
                lemma_listing_model_snoc(
                    *old(f),
                    pfx,
                    keys,
                    Seq::<Seq<u8>>::empty(),
                    false,
                    i as int,
                );
                let m_i = listing_model(*old(f), pfx, keys.take(i as int), Seq::<Seq<u8>>::empty(), false);
                let partsv = parts@.map_values(|c: Vec<u8>| c@);
                lemma_walk_model_agrees(f_pre, *old(f), m_i.1, m_i.2, partsv);
                assert(partsv == split_slash(keys[i as int].skip(plen as int)));
                let step = walk_model(*old(f), m_i.1, m_i.2, partsv);
                assert(f.log() =~= old(f).log() + (m_i.0 + step.0));
            }
            if included {
                let full_key = subvec_from(obj.key.as_slice(), 0);
                proof {
                    assert(full_key@ =~= key_i);
                }
                let partition = S3Partition {
                    region: clone_region(&region),
                    bucket: bucket.clone(),
                    key: full_key,
                    len: obj.size,
                    credentials: clone_credentials(&credentials),
                };
                let ghost before_res = result@.map_values(|p: S3Partition| (p.key@, p.len));
                let ghost before_full = result@;
                result.push(partition);
                proof {
                    assert(result@.map_values(|p: S3Partition| (p.key@, p.len)) =~= before_res.push(
                        (key_i, objpairs[i as int].1),
                    ));
                    assert forall|j: int| 0 <= j < result@.len() implies (
                    #[trigger] result@[j].region.name@) == self.region.name@ && result@[j].bucket@
                        == self.bucket@ && credentials_match(
                        result@[j].credentials,
                        self.credentials,
                    ) by {
                        if j < result@.len() - 1 {
                            assert(result@[j] == before_full[j]);
                        }
                    }
                }
            }
            proof {
                lemma_accepted_objects_snoc(*old(f), pfx, objpairs, i as int);
                assert(objpairs[i as int].0 == key_i);
                assert(included == key_accepted(*old(f), pfx, key_i));
                assert(result@.map_values(|p: S3Partition| (p.key@, p.len)) =~= accepted_objects(
                    *old(f),
                    pfx,
                    objpairs.take(i + 1),
                ));
            }
            last_rest = Some(rest);
            i = i + 1;
        }
    }

    /// Every partition of the listing, unfiltered.
    pub fn partitions(self, objects: Vec<ObjectMeta>) -> (r: Result<Vec<S3Partition>, AwsError>)
        ensures
            (r is Ok) == listing_wf(
                string_bytes(self.prefix),
                objects@.map_values(|o: ObjectMeta| o.key@),
            ),
            r matches Err(e) ==> e is ListingContractViolation,
            r matches Ok(ps) ==> ps@.map_values(|p: S3Partition| (p.key@, p.len)) == objects@.map_values(
                |o: ObjectMeta| (o.key@, o.size),
            ),
    {
        let ghost pfx = string_bytes(self.prefix);
        let ghost objpairs = objects@.map_values(|o: ObjectMeta| (o.key@, o.size));
        let mut f = AcceptAll::new();
        let ghost f0 = f;
        let r = self.partitions_filter(&mut f, objects);
        proof {
            if r is Ok {
                lemma_accept_all_keeps_everything(f0, pfx, objpairs);
            }
        }
        r
    }
}

/// The filter that accepts everything keeps every object.
proof fn lemma_accept_all_keeps_everything(f: AcceptAll, prefix: Seq<u8>, objs: Seq<(Seq<u8>, u64)>)
    ensures
        accepted_objects(f, prefix, objs) == objs,
    decreases objs.len(),
{
    if objs.len() == 0 {
        assert(accepted_objects(f, prefix, objs) =~= objs);
    } else {
        lemma_accept_all_keeps_everything(f, prefix, objs.skip(1));
        let parts = split_slash(objs[0].0.skip(prefix.len() as int));
        crate::path::lemma_split_slash_len(objs[0].0.skip(prefix.len() as int));
        assert(key_accepted(f, prefix, objs[0].0));
        assert(accepted_objects(f, prefix, objs) =~= seq![objs[0]] + objs.skip(1));
        assert(accepted_objects(f, prefix, objs) =~= objs);
    }
}


impl S3File {
    /// A file with credentials discovered from the environment.
    pub fn new(region: AwsRegion, bucket: &str, key: &str) -> (r: S3File)
        ensures
            r.region == region,
            r.bucket@ == bucket@,
            r.key@ == key@,
            r.credentials is Environment,
    {
        Self::new_with(region, bucket, key, AwsCredentials::Environment)
    }

    /// A file with the given credentials.
    pub fn new_with(
        region: AwsRegion,
        bucket: &str,
        key: &str,
        credentials: AwsCredentials,
    ) -> (r: S3File)
        ensures
            r.region == region,
            r.bucket@ == bucket@,
            r.key@ == key@,
            r.credentials == credentials,
    {
        let (bucket, key) = (bucket.to_owned(), key.to_owned());
        S3File { region, bucket, key, credentials }
    }

    /// A file is its own single partition.
    pub fn partitions(self) -> (r: Result<Vec<S3File>, AwsError>)
        ensures
            r matches Ok(v) && v@ == seq![self],
    {
        let mut v = Vec::new();
        v.push(self);
        proof {
            assert(v@ =~= seq![v@[0]]);
        }
        Ok(v)
    }

    /// The file's single page; its length comes from a probe of the
    /// store, made by the caller on open.
    pub fn pages(self, len: u64) -> (r: Result<Vec<crate::read::S3Page>, IoError>)
        ensures
            r matches Ok(v) && v@.len() == 1 && (v@[0].bucket@ == self.bucket@ && v@[0].key@
                == crate::bits::string_bytes(self.key) && v@[0].len == len && v@[0].region.name@
                == self.region.name@),
    {
        let S3File { region, bucket, key, credentials } = self;
        let key_bytes = subvec_from(key.as_str().as_bytes(), 0);
        proof {
            assert(key_bytes@ =~= crate::bits::string_bytes(self.key));
        }
        let page = crate::read::S3Page::new(region, bucket, key_bytes, credentials, len);
        let mut v = Vec::new();
        v.push(page);
        Ok(v)
    }
}

impl S3Partition {
    /// The partition's single page, of the length the listing declared.
    pub fn pages(self) -> (r: Result<Vec<crate::read::S3Page>, IoError>)
        ensures
            r matches Ok(v) && v@.len() == 1 && (v@[0].bucket@ == self.bucket@ && v@[0].key@
                == self.key@ && v@[0].len == self.len && v@[0].region.name@ == self.region.name@
                && v@[0].credentials == self.credentials),
    {
        let S3Partition { region, bucket, key, len, credentials } = self;
        let page = crate::read::S3Page::new(region, bucket, key, credentials, len);
        let mut v = Vec::new();
        v.push(page);
        Ok(v)
    }
}

/// A filter that rejects any path whose last component — the file name
/// on a leaf, else the deepest directory — equals a fixed name, and
/// counts how often it is asked.
pub struct RejectLastComponent {
    pub name: Vec<u8>,
    pub calls: u64,
    pub asked: Ghost<Seq<AskedPath>>,
}

impl RejectLastComponent {
    /// A fresh filter rejecting `name`, with no calls seen.
    pub fn new(name: Vec<u8>) -> (r: RejectLastComponent)
        ensures
            r.name@ == name@,
            r.calls == 0,
            r.log() == Seq::<AskedPath>::empty(),
    {
        RejectLastComponent { name, calls: 0, asked: Ghost(Seq::empty()) }
    }
}

impl PathFilter for RejectLastComponent {
    open spec fn accepts(&self, components: Seq<Seq<u8>>, file_name: Option<Seq<u8>>) -> bool {
        match file_name {
            Some(n) => n != self.name@,
            None => components.len() == 0 || components.last() != self.name@,
        }
    }

    open spec fn log(&self) -> Seq<AskedPath> {
        self.asked@
    }

    fn test(&mut self, path: &PathBuf) -> (r: bool) {
        self.asked = Ghost(self.asked@.push((path.components_view(), path.file_name_view())));
        if self.calls < u64::MAX {
            self.calls = self.calls + 1;
        }
        match path.file_name() {
            Some(n) => !crate::bits::bytes_eq(n.as_slice(), self.name.as_slice()),
            None => {
                let d = path.depth();
                if d == 0 {
                    true
                } else {
                    match path.last() {
                        Some(c) => !crate::bits::bytes_eq(c.as_slice(), self.name.as_slice()),
                        None => true,
                    }
                }
            },
        }
    }
}
} // verus!
