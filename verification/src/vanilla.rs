//! The vanilla install pipeline: which libraries of an upstream version
//! apply to the host, and the install record built by downloading them.

use vstd::prelude::*;
use vstd::string::*;
use crate::checksum::Checksum;
use crate::http::{Client, HttpRequest};
use crate::mc::{check_class, check_os, class_outcome, os_outcome, Host, Os, Unsupported};
use crate::pack::{FileMap, Install};
use crate::ranges::{semver_key, version_text, Key, Version};
use crate::search::{first_index, lemma_first_index};
use crate::checksum::{ChecksumView, HashFunc};
use crate::pack::InstallView;
use crate::storage::{
    artifact_views, checksum_views, Artifact, ArtifactView, StorageError, StorageManager,
};
use crate::storage_model::{
    artifact_result, consistent, distinct, download_log, download_post, indexed, lemma_download_hit,
    lemma_download_keeps_rows, lemma_lookup_finds_a_row, lookup, StoreView,
};
use crate::text::str_eq;

verus! {

/// What a rule does where its qualifiers are satisfied.
#[derive(Clone, Copy, Debug, PartialEq, Eq, Structural)]
pub enum RuleAction {
    Allow,
    Disallow,
}

/// A rule of a library.
#[derive(Clone, Debug)]
pub struct Rule {
    pub action: RuleAction,
    pub os: Option<Os>,
    /// The features the rule is qualified by, each with the value it asks.
    pub features: Vec<(String, bool)>,
}

/// A downloadable file of a library, as upstream describes it.
#[derive(Debug, PartialEq, Eq)]
pub struct McArtifact {
    pub path: String,
    pub sha1: String,
    pub size: u64,
    pub url: String,
}

/// What a [`McArtifact`] stands for.
pub struct McArtifactView {
    pub path: Seq<char>,
    pub sha1: Seq<char>,
    pub size: u64,
    pub url: Seq<char>,
}

impl View for McArtifact {
    type V = McArtifactView;

    open spec fn view(&self) -> McArtifactView {
        McArtifactView { path: self.path@, sha1: self.sha1@, size: self.size, url: self.url@ }
    }
}

impl Clone for McArtifact {
    fn clone(&self) -> (copy: Self)
        ensures
            copy@ == self@,
    {
        McArtifact {
            path: self.path.clone(),
            sha1: self.sha1.clone(),
            size: self.size,
            url: self.url.clone(),
        }
    }
}

/// What a list of upstream artifacts holds, artifact by artifact.
pub open spec fn mc_views(v: Seq<McArtifact>) -> Seq<McArtifactView> {
    Seq::new(v.len(), |i: int| v[i]@)
}

/// The files of a library: its primary artifact and its native artifacts
/// by classifier, in the order of their classifiers.
#[derive(Clone, Debug, PartialEq, Eq)]
pub struct Downloads {
    pub artifact: Option<McArtifact>,
    pub classifiers: Option<Vec<(String, McArtifact)>>,
}

/// A library of an upstream version.
#[derive(Clone, Debug)]
pub struct Library {
    pub name: String,
    pub downloads: Option<Downloads>,
    pub rules: Option<Vec<Rule>>,
}

/// Whether a rule applies on the host. A rule with features is not
/// evaluated. An `Allow` rule applies where its platform matches, a
/// `Disallow` rule where it does not.
pub open spec fn rule_outcome(rule: Rule, host: Host) -> Result<bool, Unsupported> {
    if rule.features@.len() > 0 {
        Err(Unsupported::Features)
    } else {
        let met = match rule.os {
            None => Ok(true),
            Some(os) => os_outcome(os, host),
        };
        match met {
            Err(e) => Err(e),
            Ok(met) => Ok(
                match rule.action {
                    RuleAction::Allow => met,
                    RuleAction::Disallow => !met,
                },
            ),
        }
    }
}

/// Whether every rule applies on the host. The rules are evaluated in
/// order up to the first that does not apply or cannot be evaluated.
pub open spec fn rules_outcome(rules: Seq<Rule>, host: Host) -> Result<bool, Unsupported>
    decreases rules.len(),
{
    if rules.len() == 0 {
        Ok(true)
    } else {
        match rule_outcome(rules[0], host) {
            Err(e) => Err(e),
            Ok(false) => Ok(false),
            Ok(true) => rules_outcome(rules.drop_first(), host),
        }
    }
}

/// A result with `front` put before what it holds.
pub open spec fn with_front(
    front: Seq<McArtifactView>,
    rest: Result<Seq<McArtifactView>, Unsupported>,
) -> Result<Seq<McArtifactView>, Unsupported> {
    match rest {
        Ok(tail) => Ok(front + tail),
        Err(e) => Err(e),
    }
}

/// The native artifacts whose classifier is that of the host, in order.
/// The first classifier that is not known fails the selection.
pub open spec fn class_candidates(classifiers: Seq<(String, McArtifact)>, host: Host) -> Result<
    Seq<McArtifactView>,
    Unsupported,
>
    decreases classifiers.len(),
{
    if classifiers.len() == 0 {
        Ok(Seq::empty())
    } else {
        match class_outcome(classifiers[0].0@, host) {
            Err(e) => Err(e),
            Ok(keep) => with_front(
                if keep {
                    seq![classifiers[0].1@]
                } else {
                    Seq::empty()
                },
                class_candidates(classifiers.drop_first(), host),
            ),
        }
    }
}

/// The rules of a library; none where it names none.
pub open spec fn rules_of(lib: Library) -> Seq<Rule> {
    match lib.rules {
        Some(rules) => rules@,
        None => Seq::empty(),
    }
}

/// The classifiers of a library's files; none where it names none.
pub open spec fn classifiers_of(d: Downloads) -> Seq<(String, McArtifact)> {
    match d.classifiers {
        Some(c) => c@,
        None => Seq::empty(),
    }
}

/// The primary artifact of a library's files as a list of at most one.
pub open spec fn primary_of(d: Downloads) -> Seq<McArtifactView> {
    match d.artifact {
        Some(a) => seq![a@],
        None => Seq::empty(),
    }
}

/// What a library contributes on the host: nothing unless all its rules
/// apply; otherwise the native artifacts for the host, then its primary
/// artifact.
pub open spec fn library_candidates(lib: Library, host: Host) -> Result<
    Seq<McArtifactView>,
    Unsupported,
> {
    match rules_outcome(rules_of(lib), host) {
        Err(e) => Err(e),
        Ok(false) => Ok(Seq::empty()),
        Ok(true) => match lib.downloads {
            None => Ok(Seq::empty()),
            Some(d) => match class_candidates(classifiers_of(d), host) {
                Err(e) => Err(e),
                Ok(natives) => Ok(natives + primary_of(d)),
            },
        },
    }
}

/// What the libraries contribute on the host, in order. The first thing
/// that cannot be evaluated fails the selection.
pub open spec fn all_candidates(libs: Seq<Library>, host: Host) -> Result<
    Seq<McArtifactView>,
    Unsupported,
>
    decreases libs.len(),
{
    if libs.len() == 0 {
        Ok(Seq::empty())
    } else {
        match library_candidates(libs[0], host) {
            Err(e) => Err(e),
            Ok(front) => with_front(front, all_candidates(libs.drop_first(), host)),
        }
    }
}

/// Whether one of the artifacts has the SHA-1 digest `sha1`.
pub open spec fn has_sha1(c: Seq<McArtifactView>, sha1: Seq<char>) -> bool {
    exists|j: int| 0 <= j < c.len() && (#[trigger] c[j]).sha1 == sha1
}

/// The artifacts with one entry per SHA-1 digest: of entries with the same
/// digest the last stays, and what stays keeps its order.
pub open spec fn deduped(c: Seq<McArtifactView>) -> Seq<McArtifactView>
    decreases c.len(),
{
    if c.len() == 0 {
        Seq::empty()
    } else if has_sha1(c.drop_first(), c[0].sha1) {
        deduped(c.drop_first())
    } else {
        seq![c[0]] + deduped(c.drop_first())
    }
}

fn rules_apply(rules: &Vec<Rule>, host: &Host) -> (out: Result<bool, Unsupported>)
    ensures
        out == rules_outcome(rules@, *host),
{
    let mut i: usize = 0;
    proof {
        assert(rules@.skip(0) =~= rules@);
    }
    while i < rules.len()
        invariant
            i <= rules@.len(),
            rules_outcome(rules@, *host) == rules_outcome(rules@.skip(i as int), *host),
        decreases rules@.len() - i,
    {
        let rule = &rules[i];
        proof {
            assert(rules@.skip(i as int)[0] == *rule);
            assert(rules@.skip(i as int).drop_first() =~= rules@.skip(i + 1));
        }
        if rule.features.len() > 0 {
            return Err(Unsupported::Features);
        }
        let met = match &rule.os {
            None => true,
            Some(os) => match check_os(os, host) {
                Ok(met) => met,
                Err(e) => {
                    return Err(e);
                },
            },
        };
        let apply = match rule.action {
            RuleAction::Allow => met,
            RuleAction::Disallow => !met,
        };
        if !apply {
            return Ok(false);
        }
        i += 1;
    }
    Ok(true)
}

fn library_artifacts(lib: &Library, host: &Host, out: &mut Vec<McArtifact>) -> (done: Result<
    (),
    Unsupported,
>)
    ensures
        match library_candidates(*lib, *host) {
            Err(e) => done == Err::<(), Unsupported>(e),
            Ok(found) => done is Ok && mc_views(final(out)@) == mc_views(old(out)@) + found,
        },
{
    let ghost start = mc_views(out@);
    let applies = match &lib.rules {
        None => true,
        Some(rules) => match rules_apply(rules, host) {
            Ok(applies) => applies,
            Err(e) => {
                return Err(e);
            },
        },
    };
    if !applies {
        proof {
            assert(mc_views(out@) =~= start + Seq::<McArtifactView>::empty());
        }
        return Ok(());
    }
    let d = match &lib.downloads {
        None => {
            proof {
                assert(mc_views(out@) =~= start + Seq::<McArtifactView>::empty());
            }
            return Ok(());
        },
        Some(d) => d,
    };
    let ghost natives: Seq<McArtifactView> = Seq::empty();
    match &d.classifiers {
        None => {},
        Some(classifiers) => {
            let mut i: usize = 0;
            proof {
                assert(classifiers@.skip(0) =~= classifiers@);
                assert(mc_views(out@) =~= start + natives);
            }
            while i < classifiers.len()
                invariant
                    i <= classifiers@.len(),
                    mc_views(out@) == start + natives,
                    library_candidates(*lib, *host) == (match class_candidates(
                        classifiers@,
                        *host,
                    ) {
                        Err(e) => Err(e),
                        Ok(found) => Ok(found + primary_of(*d)),
                    }),
                    class_candidates(classifiers@, *host) == with_front(
                        natives,
                        class_candidates(classifiers@.skip(i as int), *host),
                    ),
                decreases classifiers@.len() - i,
            {
                let entry = &classifiers[i];
                proof {
                    assert(classifiers@.skip(i as int)[0] == *entry);
                    assert(classifiers@.skip(i as int).drop_first() =~= classifiers@.skip(i + 1));
                }
                let ghost rest = class_candidates(classifiers@.skip(i + 1), *host);
                match check_class(entry.0.as_str(), host) {
                    Err(e) => {
                        return Err(e);
                    },
                    Ok(keep) => {
                        if keep {
                            let ghost before = mc_views(out@);
                            out.push(entry.1.clone());
                            proof {
                                assert(mc_views(out@) =~= before.push(entry.1@));
                                assert(mc_views(out@) =~= start + natives.push(entry.1@));
                                match rest {
                                    Ok(tail) => {
                                        assert(natives + (seq![entry.1@] + tail) =~= natives.push(
                                            entry.1@,
                                        ) + tail);
                                    },
                                    Err(_) => {},
                                }
                                natives = natives.push(entry.1@);
                            }
                        } else {
                            proof {
                                match rest {
                                    Ok(tail) => {
                                        assert(natives + (Seq::<McArtifactView>::empty() + tail)
                                            =~= natives + tail);
                                    },
                                    Err(_) => {},
                                }
                            }
                        }
                    },
                }
                i += 1;
            }
            proof {
                assert(natives + Seq::<McArtifactView>::empty() =~= natives);
            }
        },
    }
    match &d.artifact {
        None => {
            proof {
                assert(start + natives =~= start + (natives + primary_of(*d)));
            }
        },
        Some(a) => {
            out.push(a.clone());
            proof {
                assert(mc_views(out@) =~= (start + natives).push(a@));
                assert((start + natives).push(a@) =~= start + (natives + primary_of(*d)));
            }
        },
    }
    Ok(())
}

fn later_has(all: &Vec<McArtifact>, from: usize, sha1: &str) -> (yes: bool)
    requires
        from <= all@.len(),
    ensures
        yes == has_sha1(mc_views(all@).skip(from as int), sha1@),
{
    let ghost rest = mc_views(all@).skip(from as int);
    let mut j: usize = from;
    while j < all.len()
        invariant
            from <= j <= all@.len(),
            rest == mc_views(all@).skip(from as int),
            forall|k: int| 0 <= k < j - from ==> (#[trigger] rest[k]).sha1 != sha1@,
        decreases all@.len() - j,
    {
        if str_eq(all[j].sha1.as_str(), sha1) {
            assert(rest[j - from] == all@[j as int]@);
            return true;
        }
        assert(rest[j - from] == all@[j as int]@);
        j += 1;
    }
    false
}

/// The artifacts of `all` with one entry per SHA-1 digest.
fn dedup(all: Vec<McArtifact>) -> (out: Vec<McArtifact>)
    ensures
        mc_views(out@) == deduped(mc_views(all@)),
{
    let ghost views = mc_views(all@);
    let mut out: Vec<McArtifact> = Vec::new();
    let mut i: usize = 0;
    proof {
        assert(views.skip(0) =~= views);
        assert(mc_views(out@) + deduped(views) =~= deduped(views));
    }
    while i < all.len()
        invariant
            i <= all@.len(),
            views == mc_views(all@),
            deduped(views) == mc_views(out@) + deduped(views.skip(i as int)),
        decreases all@.len() - i,
    {
        proof {
            assert(views.skip(i as int)[0] == all@[i as int]@);
            assert(views.skip(i as int).drop_first() =~= views.skip(i + 1));
        }
        let ghost before = mc_views(out@);
        if !later_has(&all, i + 1, all[i].sha1.as_str()) {
            out.push(all[i].clone());
            proof {
                assert(mc_views(out@) =~= before.push(all@[i as int]@));
                assert(before + (seq![all@[i as int]@] + deduped(views.skip(i + 1))) =~= before.push(
                    all@[i as int]@,
                ) + deduped(views.skip(i + 1)));
            }
        }
        i += 1;
    }
    proof {
        assert(mc_views(out@) + Seq::<McArtifactView>::empty() =~= mc_views(out@));
    }
    out
}

/// The artifacts to download for the libraries of a version on the host:
/// what each library whose rules all apply contributes, with one entry per
/// SHA-1 digest.
pub fn filter_lib(lib: Vec<Library>, host: &Host) -> (out: Result<Vec<McArtifact>, Unsupported>)
    ensures
        match all_candidates(lib@, *host) {
            Err(e) => out == Err::<Vec<McArtifact>, Unsupported>(e),
            Ok(found) => out is Ok && mc_views(out->Ok_0@) == deduped(found),
        },
{
    let mut found: Vec<McArtifact> = Vec::new();
    let mut i: usize = 0;
    proof {
        assert(lib@.skip(0) =~= lib@);
    }
    while i < lib.len()
        invariant
            i <= lib@.len(),
            all_candidates(lib@, *host) == with_front(
                mc_views(found@),
                all_candidates(lib@.skip(i as int), *host),
            ),
        decreases lib@.len() - i,
    {
        proof {
            assert(lib@.skip(i as int)[0] == lib@[i as int]);
            assert(lib@.skip(i as int).drop_first() =~= lib@.skip(i + 1));
        }
        let ghost before = mc_views(found@);
        let ghost rest = all_candidates(lib@.skip(i + 1), *host);
        match library_artifacts(&lib[i], host, &mut found) {
            Err(e) => {
                return Err(e);
            },
            Ok(_) => {
                proof {
                    let front = library_candidates(lib@[i as int], *host)->Ok_0;
                    match rest {
                        Ok(tail) => {
                            assert(before + (front + tail) =~= (before + front) + tail);
                        },
                        Err(_) => {},
                    }
                }
            },
        }
        i += 1;
    }
    proof {
        assert(mc_views(found@) + Seq::<McArtifactView>::empty() =~= mc_views(found@));
    }
    Ok(dedup(found))
}

/// A file of a version, as upstream describes it.
#[derive(Clone, Debug)]
pub struct Download {
    pub sha1: String,
    pub size: u64,
    pub url: String,
}

/// The asset index of a version, as upstream describes it.
#[derive(Clone, Debug)]
pub struct AssetIndex {
    pub id: String,
    pub sha1: String,
    pub size: u64,
    pub url: String,
}

/// What the install pipeline reads of an upstream version descriptor.
#[derive(Clone, Debug)]
pub struct McVersion {
    pub main_class: String,
    pub asset_index: AssetIndex,
    pub client: Download,
    pub libraries: Vec<Library>,
}

/// Why a vanilla install failed.
#[derive(Clone, Copy, Debug, PartialEq, Eq, Structural)]
pub enum VanillaError {
    /// The libraries ask for something that is not evaluated.
    Unsupported(Unsupported),
    /// A download failed.
    Storage(StorageError),
}

/// Every artifact of the list is indexed.
pub open spec fn all_indexed(rows: Seq<ArtifactView>, arts: Seq<ArtifactView>) -> bool {
    forall|k: int| 0 <= k < arts.len() ==> indexed(rows, (#[trigger] arts[k]).blake3)
}

/// A file to download under its SHA-1 digest.
pub struct Request {
    pub name: Seq<char>,
    pub url: Seq<char>,
    pub sha1: Seq<char>,
}

/// The single checksum a file of upstream is downloaded under.
pub open spec fn sha1_only(sha1: Seq<char>) -> Seq<ChecksumView> {
    seq![ChecksumView { function: HashFunc::Sha1, hex_hash: sha1 }]
}

/// The downloads of an install, in order: the game jar under the name
/// `minecraft.jar`, each selected library artifact under its path, and the
/// asset index under its id.
pub open spec fn install_requests(version: McVersion, libs: Seq<McArtifactView>) -> Seq<Request> {
    seq![
        Request { name: "minecraft.jar"@, url: version.client.url@, sha1: version.client.sha1@ },
    ] + Seq::new(
        libs.len(),
        |i: int| Request { name: libs[i].path, url: libs[i].url, sha1: libs[i].sha1 },
    ) + seq![
        Request {
            name: version.asset_index.id@,
            url: version.asset_index.url@,
            sha1: version.asset_index.sha1@,
        },
    ]
}

/// Whether each state of `states` leads to the next by a successful
/// download of the request at its index, which returned the artifact at
/// that index, and each log of `logs` leads to the next by the requests
/// that this download made.
pub open spec fn download_chain(
    states: Seq<StoreView>,
    logs: Seq<Seq<Seq<char>>>,
    requests: Seq<Request>,
    arts: Seq<ArtifactView>,
) -> bool {
    &&& states.len() == requests.len() + 1
    &&& logs.len() == requests.len() + 1
    &&& arts.len() == requests.len()
    &&& forall|k: int|
        0 <= k < requests.len() ==> {
            &&& download_post(
                states[k],
                (#[trigger] requests[k]).name,
                requests[k].url,
                sha1_only(requests[k].sha1),
                states[k + 1],
                Ok(arts[k]),
            )
            &&& logs[k + 1] == logs[k] + download_log(
                states[k],
                requests[k].url,
                sha1_only(requests[k].sha1),
            )
        }
}

/// Whether the store went from `before` to `after`, and the log of the
/// client from `asked` to `asked_after`, by one successful download per
/// request, in order, and `arts` are the artifacts that the downloads
/// returned.
pub open spec fn fetched_all(
    before: StoreView,
    asked: Seq<Seq<char>>,
    requests: Seq<Request>,
    arts: Seq<ArtifactView>,
    after: StoreView,
    asked_after: Seq<Seq<char>>,
) -> bool {
    exists|states: Seq<StoreView>, logs: Seq<Seq<Seq<char>>>|
        {
            &&& #[trigger] download_chain(states, logs, requests, arts)
            &&& states.first() == before
            &&& states.last() == after
            &&& logs.first() == asked
            &&& logs.last() == asked_after
        }
}

/// Whether the store went from `before` to `after`, and the log of the
/// client from `asked` to `asked_after`, by successful downloads of the
/// requests before some request, in order, and a download of that request
/// that failed with `e`.
pub open spec fn failed_within(
    before: StoreView,
    asked: Seq<Seq<char>>,
    requests: Seq<Request>,
    after: StoreView,
    asked_after: Seq<Seq<char>>,
    e: StorageError,
) -> bool {
    exists|k: int, states: Seq<StoreView>, logs: Seq<Seq<Seq<char>>>, arts: Seq<ArtifactView>|
        {
            &&& 0 <= k < requests.len()
            &&& #[trigger] download_chain(states, logs, requests.take(k), arts)
            &&& states.first() == before
            &&& logs.first() == asked
            &&& download_post(
                states.last(),
                requests[k].name,
                requests[k].url,
                sha1_only(requests[k].sha1),
                after,
                Err(e),
            )
            &&& asked_after == logs.last() + download_log(
                states.last(),
                requests[k].url,
                sha1_only(requests[k].sha1),
            )
        }
}

/// One more successful download extends a chain of downloads.
pub proof fn lemma_chain_one_more(
    states: Seq<StoreView>,
    logs: Seq<Seq<Seq<char>>>,
    requests: Seq<Request>,
    arts: Seq<ArtifactView>,
    request: Request,
    art: ArtifactView,
    after: StoreView,
)
    requires
        download_chain(states, logs, requests, arts),
        download_post(
            states.last(),
            request.name,
            request.url,
            sha1_only(request.sha1),
            after,
            Ok(art),
        ),
    ensures
        download_chain(
            states.push(after),
            logs.push(logs.last() + download_log(states.last(), request.url, sha1_only(request.sha1))),
            requests.push(request),
            arts.push(art),
        ),
{
    let longer = requests.push(request);
    let more = states.push(after);
    let asked = logs.push(
        logs.last() + download_log(states.last(), request.url, sha1_only(request.sha1)),
    );
    let got = arts.push(art);
    assert forall|k: int| 0 <= k < longer.len() implies {
        &&& download_post(
            more[k],
            (#[trigger] longer[k]).name,
            longer[k].url,
            sha1_only(longer[k].sha1),
            more[k + 1],
            Ok(got[k]),
        )
        &&& asked[k + 1] == asked[k] + download_log(
            more[k],
            longer[k].url,
            sha1_only(longer[k].sha1),
        )
    } by {
        if k < requests.len() {
            assert(longer[k] == requests[k]);
            assert(more[k] == states[k]);
            assert(more[k + 1] == states[k + 1]);
            assert(got[k] == arts[k]);
            assert(asked[k] == logs[k]);
            assert(asked[k + 1] == logs[k + 1]);
        }
    }
}

/// Whether the SHA-1 digest of every request finds a row.
pub open spec fn all_hits(before: StoreView, requests: Seq<Request>) -> bool {
    forall|k: int|
        0 <= k < requests.len() ==> lookup(
            before.rows,
            sha1_only((#[trigger] requests[k]).sha1),
        ) is Some
}

/// A download under a single SHA-1 digest that finds a row succeeds with
/// that row, without a request, and changes nothing, in an index whose rows
/// do not share a BLAKE3 digest.
pub proof fn lemma_fetch_hit(
    before: StoreView,
    request: Request,
    after: StoreView,
    result: Result<ArtifactView, StorageError>,
)
    requires
        distinct(before),
        lookup(before.rows, sha1_only(request.sha1)) is Some,
        download_post(before, request.name, request.url, sha1_only(request.sha1), after, result),
    ensures
        result is Ok,
        after == before,
        download_log(before, request.url, sha1_only(request.sha1)) == Seq::<Seq<char>>::empty(),
{
    let cs = sha1_only(request.sha1);
    lemma_lookup_finds_a_row(before.rows, cs);
    lemma_download_hit(before, request.name, request.url, cs, after, result);
}

/// A chain of downloads that all find a row leaves the store and the log
/// of the client as they were.
pub proof fn lemma_chain_of_hits(
    states: Seq<StoreView>,
    logs: Seq<Seq<Seq<char>>>,
    requests: Seq<Request>,
    arts: Seq<ArtifactView>,
    j: int,
)
    requires
        download_chain(states, logs, requests, arts),
        distinct(states[0]),
        all_hits(states[0], requests),
        0 <= j <= requests.len(),
    ensures
        states[j] == states[0],
        logs[j] == logs[0],
    decreases j,
{
    if j > 0 {
        lemma_chain_of_hits(states, logs, requests, arts, j - 1);
        let request = requests[j - 1];
        lemma_fetch_hit(states[j - 1], request, states[j], Ok(arts[j - 1]));
        assert(logs[j] =~= logs[j - 1]);
    }
}

/// Where the SHA-1 digest of every request finds a row, in an index whose
/// rows do not share a BLAKE3 digest, no download of the install fails.
pub proof fn lemma_hits_do_not_fail(
    before: StoreView,
    asked: Seq<Seq<char>>,
    requests: Seq<Request>,
    after: StoreView,
    asked_after: Seq<Seq<char>>,
    e: StorageError,
)
    requires
        distinct(before),
        all_hits(before, requests),
    ensures
        !failed_within(before, asked, requests, after, asked_after, e),
{
    if failed_within(before, asked, requests, after, asked_after, e) {
        let (k, states, logs, arts) = choose|
            k: int,
            states: Seq<StoreView>,
            logs: Seq<Seq<Seq<char>>>,
            arts: Seq<ArtifactView>,
        |
            {
                &&& 0 <= k < requests.len()
                &&& #[trigger] download_chain(states, logs, requests.take(k), arts)
                &&& states.first() == before
                &&& logs.first() == asked
                &&& download_post(
                    states.last(),
                    requests[k].name,
                    requests[k].url,
                    sha1_only(requests[k].sha1),
                    after,
                    Err(e),
                )
                &&& asked_after == logs.last() + download_log(
                    states.last(),
                    requests[k].url,
                    sha1_only(requests[k].sha1),
                )
            };
        let shorter = requests.take(k);
        assert forall|i: int| 0 <= i < shorter.len() implies lookup(
            before.rows,
            sha1_only((#[trigger] shorter[i]).sha1),
        ) is Some by {
            assert(shorter[i] == requests[i]);
        }
        lemma_chain_of_hits(states, logs, shorter, arts, k);
        lemma_fetch_hit(before, requests[k], after, Err(e));
    }
}

/// Where the SHA-1 digest of every request finds a row, in an index whose
/// rows do not share a BLAKE3 digest, the downloads of the install leave
/// the store and the log of the client as they were.
pub proof fn lemma_hits_change_nothing(
    before: StoreView,
    asked: Seq<Seq<char>>,
    requests: Seq<Request>,
    arts: Seq<ArtifactView>,
    after: StoreView,
    asked_after: Seq<Seq<char>>,
)
    requires
        distinct(before),
        all_hits(before, requests),
        fetched_all(before, asked, requests, arts, after, asked_after),
    ensures
        after == before,
        asked_after == asked,
{
    let (states, logs) = choose|states: Seq<StoreView>, logs: Seq<Seq<Seq<char>>>|
        {
            &&& #[trigger] download_chain(states, logs, requests, arts)
            &&& states.first() == before
            &&& states.last() == after
            &&& logs.first() == asked
            &&& logs.last() == asked_after
        };
    lemma_chain_of_hits(states, logs, requests, arts, requests.len() as int);
}

/// The artifacts of an install that came from downloads, in the order of
/// the downloads: game jar, libraries, asset index.
pub open spec fn install_artifacts(install: InstallView) -> Seq<ArtifactView> {
    seq![install.mc_jar->Some_0] + install.java_lib + seq![install.mc_asset_index->Some_0]
}

/// Downloads one file through the store under a single SHA-1 checksum.
fn fetch<H: HttpRequest>(
    storage: &mut StorageManager,
    http: &mut Client<H>,
    name: String,
    url: String,
    size: u64,
    sha1: String,
) -> (out: Result<Artifact, StorageError>)
    ensures
        final(storage).root() == old(storage).root(),
        download_post(
            old(storage)@,
            name@,
            url@,
            sha1_only(sha1@),
            final(storage)@,
            artifact_result(out),
        ),
        final(http).requested() == old(http).requested() + download_log(
            old(storage)@,
            url@,
            sha1_only(sha1@),
        ),
        consistent(old(storage)@) ==> consistent(final(storage)@),
        forall|b: Seq<char>| #[trigger]
            indexed(old(storage)@.rows, b) ==> indexed(final(storage)@.rows, b),
        out matches Ok(art) ==> indexed(final(storage)@.rows, art@.blake3),
{
    let mut checksum: Vec<Checksum> = Vec::new();
    checksum.push(Checksum::sha1(sha1));
    let ghost cs = checksum_views(checksum@);
    let ghost before = storage@;
    proof {
        assert(cs =~= sha1_only(sha1@));
    }
    let out = storage.download(http, name, url, Some(size), checksum);
    proof {
        lemma_download_keeps_rows(before, name@, url@, cs, storage@, artifact_result(out));
    }
    out
}

/// Builds the install record of a vanilla version on the host. The game
/// jar, every library artifact that [`filter_lib`] selects and the asset
/// index are downloaded through the store, in this order, each under the
/// SHA-1 digest that upstream names for it. The libraries are selected
/// before anything is downloaded: where they cannot be evaluated, the store
/// is left as it was and nothing is requested. The install fails with the
/// first download that fails, and succeeds where none does.
pub fn vanilla_install<H: HttpRequest>(
    storage: &mut StorageManager,
    http: &mut Client<H>,
    version: McVersion,
    host: &Host,
) -> (out: Result<Install, VanillaError>)
    ensures
        final(storage).root() == old(storage).root(),
        consistent(old(storage)@) ==> consistent(final(storage)@),
        forall|b: Seq<char>| #[trigger]
            indexed(old(storage)@.rows, b) ==> indexed(final(storage)@.rows, b),
        match all_candidates(version.libraries@, *host) {
            Err(e) => out == Err::<Install, VanillaError>(VanillaError::Unsupported(e))
                && final(storage)@ == old(storage)@ && *final(http) == *old(http),
            Ok(found) => match out {
                Ok(install) => {
                    &&& install@.java_main_class == Some(version.main_class@)
                    &&& install@.mc_jar is Some
                    &&& install@.mc_asset_index is Some
                    &&& fetched_all(
                        old(storage)@,
                        old(http).requested(),
                        install_requests(version, deduped(found)),
                        install_artifacts(install@),
                        final(storage)@,
                        final(http).requested(),
                    )
                    &&& all_indexed(final(storage)@.rows, install_artifacts(install@))
                    &&& install@.native.len() == 0
                    &&& install@.java_flag.len() == 0
                    &&& install@.mc_flag.len() == 0
                    &&& install@.mc_mod.len() == 0
                },
                Err(e) => e matches VanillaError::Storage(failure) && failed_within(
                    old(storage)@,
                    old(http).requested(),
                    install_requests(version, deduped(found)),
                    final(storage)@,
                    final(http).requested(),
                    failure,
                ),
            },
        },
        all_candidates(version.libraries@, *host) matches Ok(found) && distinct(old(storage)@)
            && all_hits(old(storage)@, install_requests(version, deduped(found))) ==> {
            &&& out is Ok
            &&& final(storage)@ == old(storage)@
            &&& final(http).requested() == old(http).requested()
        },
{
    let ghost found = all_candidates(version.libraries@, *host);
    let ghost start = storage@;
    let ghost asked = http.requested();
    let McVersion { main_class, asset_index, client, libraries } = version;
    let arts = match filter_lib(libraries, host) {
        Ok(arts) => arts,
        Err(e) => {
            return Err(VanillaError::Unsupported(e));
        },
    };
    let ghost requests = install_requests(version, mc_views(arts@));
    let ghost mut states: Seq<StoreView> = seq![start];
    let ghost mut logs: Seq<Seq<Seq<char>>> = seq![asked];
    proof {
        assert(requests[0] == (Request {
            name: "minecraft.jar"@,
            url: version.client.url@,
            sha1: version.client.sha1@,
        }));
        assert(requests.take(0) =~= Seq::<Request>::empty());
        assert(download_chain(states, logs, requests.take(0), Seq::<ArtifactView>::empty()));
    }
    let jar = match fetch(
        storage,
        http,
        "minecraft.jar".to_owned(),
        client.url,
        client.size,
        client.sha1,
    ) {
        Ok(jar) => jar,
        Err(e) => {
            proof {
                assert(failed_within(start, asked, requests, storage@, http.requested(), e));
                if distinct(start) && all_hits(start, requests) {
                    lemma_hits_do_not_fail(start, asked, requests, storage@, http.requested(), e);
                }
            }
            return Err(VanillaError::Storage(e));
        },
    };
    proof {
        lemma_chain_one_more(
            states,
            logs,
            Seq::empty(),
            Seq::empty(),
            requests[0],
            jar@,
            storage@,
        );
        states = states.push(storage@);
        logs = logs.push(http.requested());
        assert(Seq::<Request>::empty().push(requests[0]) =~= requests.take(1));
        assert(Seq::<ArtifactView>::empty().push(jar@) =~= seq![jar@]);
    }
    let mut lib: Vec<Artifact> = Vec::new();
    let mut i: usize = 0;
    proof {
        assert(seq![jar@] + artifact_views(lib@) =~= seq![jar@]);
    }
    while i < arts.len()
        invariant
            i <= arts@.len(),
            lib@.len() == i,
            found == all_candidates(version.libraries@, *host),
            found is Ok,
            mc_views(arts@) == deduped(found->Ok_0),
            requests == install_requests(version, mc_views(arts@)),
            storage.root() == old(storage).root(),
            start == old(storage)@,
            asked == old(http).requested(),
            consistent(old(storage)@) ==> consistent(storage@),
            forall|b: Seq<char>| #[trigger]
                indexed(old(storage)@.rows, b) ==> indexed(storage@.rows, b),
            all_indexed(storage@.rows, seq![jar@] + artifact_views(lib@)),
            download_chain(states, logs, requests.take(i + 1), seq![jar@] + artifact_views(lib@)),
            states.first() == start,
            states.last() == storage@,
            logs.first() == asked,
            logs.last() == http.requested(),
        decreases arts@.len() - i,
    {
        let art = arts[i].clone();
        let ghost before = storage@;
        let ghost so_far = seq![jar@] + artifact_views(lib@);
        proof {
            assert(requests[i + 1] == (Request {
                name: art@.path,
                url: art@.url,
                sha1: art@.sha1,
            }));
        }
        match fetch(storage, http, art.path, art.url, art.size, art.sha1) {
            Ok(got) => {
                lib.push(got);
                proof {
                    let now = seq![jar@] + artifact_views(lib@);
                    assert(now =~= so_far.push(got@));
                    assert forall|k: int| 0 <= k < now.len() implies indexed(
                        storage@.rows,
                        (#[trigger] now[k]).blake3,
                    ) by {
                        if k < so_far.len() {
                            assert(now[k] == so_far[k]);
                            assert(indexed(before.rows, so_far[k].blake3));
                        }
                    }
                    lemma_chain_one_more(
                        states,
                        logs,
                        requests.take(i + 1),
                        so_far,
                        requests[i + 1],
                        got@,
                        storage@,
                    );
                    states = states.push(storage@);
                    logs = logs.push(http.requested());
                    assert(requests.take(i + 1).push(requests[i + 1]) =~= requests.take(i + 2));
                }
            },
            Err(e) => {
                proof {
                    assert(failed_within(start, asked, requests, storage@, http.requested(), e));
                    if distinct(start) && all_hits(start, requests) {
                        lemma_hits_do_not_fail(start, asked, requests, storage@, http.requested(), e);
                    }
                }
                return Err(VanillaError::Storage(e));
            },
        }
        i += 1;
    }
    let ghost before = storage@;
    let ghost so_far = seq![jar@] + artifact_views(lib@);
    proof {
        assert(requests.last() == (Request {
            name: version.asset_index.id@,
            url: version.asset_index.url@,
            sha1: version.asset_index.sha1@,
        }));
        assert(requests.last() == requests[arts@.len() as int + 1]);
    }
    let index = match fetch(
        storage,
        http,
        asset_index.id,
        asset_index.url,
        asset_index.size,
        asset_index.sha1,
    ) {
        Ok(index) => index,
        Err(e) => {
            proof {
                assert(failed_within(start, asked, requests, storage@, http.requested(), e));
                if distinct(start) && all_hits(start, requests) {
                    lemma_hits_do_not_fail(start, asked, requests, storage@, http.requested(), e);
                }
            }
            return Err(VanillaError::Storage(e));
        },
    };
    let install = Install {
        java_lib: lib,
        java_main_class: Some(main_class),
        native: FileMap::new(),
        java_flag: Vec::new(),
        mc_jar: Some(jar),
        mc_flag: Vec::new(),
        mc_asset_index: Some(index),
        mc_mod: Vec::new(),
    };
    proof {
        let all = install_artifacts(install@);
        assert(all =~= so_far.push(index@));
        assert forall|k: int| 0 <= k < all.len() implies indexed(
            storage@.rows,
            (#[trigger] all[k]).blake3,
        ) by {
            if k < so_far.len() {
                assert(all[k] == so_far[k]);
                assert(indexed(before.rows, so_far[k].blake3));
            }
        }
        lemma_chain_one_more(
            states,
            logs,
            requests.take(arts@.len() as int + 1),
            so_far,
            requests.last(),
            index@,
            storage@,
        );
        assert(requests.take(arts@.len() as int + 1).push(requests.last()) =~= requests);
        assert(download_chain(states.push(storage@), logs.push(http.requested()), requests, all));
        assert(states.push(storage@).first() == start);
        assert(states.push(storage@).last() == storage@);
        assert(logs.push(http.requested()).first() == asked);
        assert(logs.push(http.requested()).last() == http.requested());
        assert(fetched_all(start, asked, requests, all, storage@, http.requested()));
        if distinct(start) && all_hits(start, requests) {
            lemma_hits_change_nothing(start, asked, requests, all, storage@, http.requested());
        }
    }
    Ok(install)
}

/// One version of the upstream manifest.
#[derive(Clone, Debug)]
pub struct ManifestEntry {
    pub id: String,
    pub url: String,
}

/// What is read of the upstream version manifest.
#[derive(Clone, Debug)]
pub struct Manifest {
    pub versions: Vec<ManifestEntry>,
}

/// Whether an entry has the id `id`.
pub open spec fn entry_with_id(id: Seq<char>) -> spec_fn(ManifestEntry) -> bool {
    |entry: ManifestEntry| entry.id@ == id
}

/// The index of the first entry with the id `id`, or the number of entries
/// if none has it.
pub open spec fn entry_position(entries: Seq<ManifestEntry>, id: Seq<char>) -> int {
    first_index(entries, entry_with_id(id))
}

/// The versions that the ids of the entries name, in the order of the
/// entries; an id that is no semver version names none.
pub open spec fn named_versions(entries: Seq<ManifestEntry>) -> Seq<Key>
    decreases entries.len(),
{
    if entries.len() == 0 {
        Seq::empty()
    } else {
        match semver_key(entries.last().id@) {
            Some(t) => named_versions(entries.drop_last()).push(t),
            None => named_versions(entries.drop_last()),
        }
    }
}

/// The keys of a list of versions.
pub open spec fn keys(vs: Seq<Version>) -> Seq<Key> {
    Seq::new(vs.len(), |i: int| vs[i].key())
}

impl Manifest {
    /// The first entry whose id is `id`.
    pub fn get_version(&self, id: &str) -> (found: Option<&ManifestEntry>)
        ensures
            match found {
                Some(entry) => entry_position(self.versions@, id@) < self.versions@.len() && *entry
                    == self.versions@[entry_position(self.versions@, id@)],
                None => entry_position(self.versions@, id@) == self.versions@.len(),
            },
    {
        let mut i: usize = 0;
        while i < self.versions.len()
            invariant
                i <= self.versions@.len(),
                forall|j: int| 0 <= j < i ==> (#[trigger] self.versions@[j]).id@ != id@,
            decreases self.versions@.len() - i,
        {
            if str_eq(self.versions[i].id.as_str(), id) {
                proof {
                    lemma_first_index(self.versions@, entry_with_id(id@), i as int);
                }
                return Some(&self.versions[i]);
            }
            i += 1;
        }
        proof {
            lemma_first_index(self.versions@, entry_with_id(id@), i as int);
        }
        None
    }

    /// The URL of the descriptor of `version`: that of the first entry
    /// whose id is the text of the version.
    pub fn version_url(&self, version: &Version) -> (url: Option<String>)
        ensures
            match url {
                Some(url) => entry_position(self.versions@, version_text(version.numbers()))
                    < self.versions@.len() && url@ == self.versions@[entry_position(
                    self.versions@,
                    version_text(version.numbers()),
                )].url@,
                None => entry_position(self.versions@, version_text(version.numbers()))
                    == self.versions@.len(),
            },
    {
        let text = version.to_string();
        match self.get_version(text.as_str()) {
            Some(entry) => Some(entry.url.clone()),
            None => None,
        }
    }

    /// The versions of the game that the manifest offers under a semver id,
    /// in the order of the manifest.
    pub fn game_versions(&self) -> (out: Vec<Version>)
        ensures
            keys(out@) == named_versions(self.versions@),
    {
        let mut out: Vec<Version> = Vec::new();
        let mut i: usize = 0;
        proof {
            assert(keys(out@) =~= named_versions(self.versions@.take(0)));
        }
        while i < self.versions.len()
            invariant
                i <= self.versions@.len(),
                keys(out@) == named_versions(self.versions@.take(i as int)),
            decreases self.versions@.len() - i,
        {
            proof {
                assert(self.versions@.take(i + 1).drop_last() =~= self.versions@.take(i as int));
                assert(self.versions@.take(i + 1).last() == self.versions@[i as int]);
            }
            let ghost before = keys(out@);
            match Version::parse(self.versions[i].id.as_str()) {
                Some(v) => {
                    out.push(v);
                    proof {
                        assert(keys(out@) =~= before.push(v.key()));
                    }
                },
                None => {},
            }
            i += 1;
        }
        proof {
            assert(self.versions@.take(i as int) =~= self.versions@);
        }
        out
    }
}

/// Whether a descriptor is kept for the version with key `t`.
pub open spec fn descriptor_of(t: Key) -> spec_fn((Version, McVersion)) -> bool {
    |kept: (Version, McVersion)| kept.0.key() == t
}

/// The index of the first descriptor kept for the version with key `t`,
/// or the number of descriptors if none is.
pub open spec fn descriptor_position(kept: Seq<(Version, McVersion)>, t: Key) -> int {
    first_index(kept, descriptor_of(t))
}

/// What was fetched of the upstream metadata so far. Both the manifest and
/// the descriptor of a version are set once: what is offered later for a
/// slot that is taken is dropped.
#[derive(Debug)]
pub struct VanillaManager {
    manifest: Option<Manifest>,
    version: Vec<(Version, McVersion)>,
}

impl VanillaManager {
    /// The manifest, once it was set.
    pub closed spec fn spec_manifest(&self) -> Option<Manifest> {
        self.manifest
    }

    /// The descriptors that were set, in the order in which they were.
    pub closed spec fn spec_versions(&self) -> Seq<(Version, McVersion)> {
        self.version@
    }

    /// Nothing fetched yet.
    pub fn new() -> (manager: Self)
        ensures
            manager.spec_manifest() is None,
            manager.spec_versions().len() == 0,
    {
        VanillaManager { manifest: None, version: Vec::new() }
    }

    /// The manifest, if it was set.
    pub fn manifest(&self) -> (found: Option<&Manifest>)
        ensures
            match found {
                Some(manifest) => self.spec_manifest() == Some(*manifest),
                None => self.spec_manifest() is None,
            },
    {
        self.manifest.as_ref()
    }

    /// Sets the manifest unless it is set, and returns the one that is kept.
    pub fn set_manifest(&mut self, manifest: Manifest) -> (kept: &Manifest)
        ensures
            final(self).spec_versions() == old(self).spec_versions(),
            final(self).spec_manifest() == (match old(self).spec_manifest() {
                Some(first) => Some(first),
                None => Some(manifest),
            }),
            final(self).spec_manifest() == Some(*kept),
    {
        if self.manifest.is_none() {
            self.manifest = Some(manifest);
        }
        self.manifest.as_ref().unwrap()
    }

    /// The descriptor of `version`, if one was set.
    pub fn version(&self, version: &Version) -> (found: Option<&McVersion>)
        ensures
            match found {
                Some(meta) => descriptor_position(self.spec_versions(), version.key())
                    < self.spec_versions().len() && *meta == self.spec_versions()[descriptor_position(
                    self.spec_versions(),
                    version.key(),
                )].1,
                None => descriptor_position(self.spec_versions(), version.key())
                    == self.spec_versions().len(),
            },
    {
        let mut i: usize = 0;
        while i < self.version.len()
            invariant
                i <= self.version@.len(),
                forall|j: int| 0 <= j < i ==> (#[trigger] self.version@[j]).0.key() != version.key(),
            decreases self.version@.len() - i,
        {
            let at = &self.version[i].0;
            if at.major == version.major && at.minor == version.minor && at.patch == version.patch
                && at.pre == version.pre {
                proof {
                    lemma_first_index(self.version@, descriptor_of(version.key()), i as int);
                }
                return Some(&self.version[i].1);
            }
            i += 1;
        }
        proof {
            lemma_first_index(self.version@, descriptor_of(version.key()), i as int);
        }
        None
    }

    /// Sets the descriptor of `version` unless one is set.
    pub fn set_version(&mut self, version: Version, meta: McVersion)
        ensures
            final(self).spec_manifest() == old(self).spec_manifest(),
            final(self).spec_versions() == (if descriptor_position(
                old(self).spec_versions(),
                version.key(),
            ) < old(self).spec_versions().len() {
                old(self).spec_versions()
            } else {
                old(self).spec_versions().push((version, meta))
            }),
    {
        if self.version(&version).is_none() {
            self.version.push((version, meta));
        }
    }
}

} // verus!
