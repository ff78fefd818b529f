//! The search through Clippy's history for the revision that provides a given `clippy_utils`
//! version.
//!
//! History is read newest first, in batches that double in size, until a revision older than the
//! target is seen; then the revisions that were read are searched, oldest first, for the oldest one
//! whose version is at or above the target: the first commit where the version requirement is met.

use vstd::prelude::*;

verus! {

/// A git object id.
#[derive(Clone, Copy, Debug)]
pub struct Oid {
    pub bytes: [u8; 20],
}

/// A revision of Clippy: the `clippy_utils` version it declares, its toolchain channel, and its
/// commit.
#[derive(Debug)]
pub struct Rev {
    pub version: String,
    pub channel: String,
    pub oid: Oid,
}

/// The mathematical form of a [`Rev`].
pub struct RevView {
    pub version: Seq<char>,
    pub channel: Seq<char>,
    pub oid: Seq<u8>,
}

impl View for Rev {
    type V = RevView;

    open spec fn view(&self) -> RevView {
        RevView { version: self.version@, channel: self.channel@, oid: self.oid.bytes@ }
    }
}

impl Rev {
    /// A copy of the revision.
    pub fn copy(&self) -> (r: Rev)
        ensures
            r@ == self@,
    {
        Rev { version: self.version.clone(), channel: self.channel.clone(), oid: self.oid }
    }
}

/// The view of an optional revision.
pub open spec fn opt_rev_view(r: Option<Rev>) -> Option<RevView> {
    match r {
        Some(rev) => Some(rev@),
        None => None,
    }
}

/// The view of a list of optional revisions.
pub open spec fn revs_view(s: Seq<Option<Rev>>) -> Seq<Option<RevView>> {
    s.map_values(|r: Option<Rev>| opt_rev_view(r))
}

/// What `semver::Version::parse` gives for a string: `None` where it refuses it, else the
/// version's major, minor and patch numbers.
pub uninterp spec fn parse_semver(s: Seq<char>) -> Option<(u64, u64, u64)>;

/// Whether the version that the first string parses to precedes the second one in `semver`'s
/// order (pre-releases included).
pub uninterp spec fn semver_precedes(a: Seq<char>, b: Seq<char>) -> bool;

/// Parses a version with `semver::Version::parse` and returns its major, minor and patch numbers.
#[verifier::external_body]
pub(crate) fn version_triple(s: &str) -> (r: Option<(u64, u64, u64)>)
    ensures
        r == parse_semver(s@),
{
    semver::Version::parse(s).ok().map(|v| (v.major, v.minor, v.patch))
}

/// Compares two versions with `semver::Version`'s `<` (both strings must parse).
#[verifier::external_body]
pub(crate) fn version_lt(a: &str, b: &str) -> (r: bool)
    requires
        parse_semver(a@) is Some,
        parse_semver(b@) is Some,
    ensures
        r == semver_precedes(a@, b@),
{
    match (semver::Version::parse(a), semver::Version::parse(b)) {
        (Ok(x), Ok(y)) => x < y,
        _ => false,
    }
}

// ---------------------------------------------------------------------------------------------
// Selection
// ---------------------------------------------------------------------------------------------

/// The revision, where it has a parsable version.
pub open spec fn candidate_of(r: Option<RevView>) -> Seq<RevView> {
    match r {
        Some(rev) => if parse_semver(rev.version) is Some {
            seq![rev]
        } else {
            Seq::empty()
        },
        None => Seq::empty(),
    }
}

/// The revisions with a parsable version, oldest first, from revisions listed newest first.
pub open spec fn candidates(data: Seq<Option<RevView>>) -> Seq<RevView>
    decreases data.len(),
{
    if data.len() == 0 {
        Seq::empty()
    } else {
        candidates(data.drop_first()) + candidate_of(data[0])
    }
}

/// The revision's version is at or above the target (it does not precede it).
pub open spec fn at_least_target(r: RevView, target: Seq<char>) -> bool {
    !semver_precedes(r.version, target)
}

/// `k` is where the candidates (oldest first) cross from "below the target" to "at or above it":
/// a candidate at or above the target whose predecessor, where it has one, is below it.
pub open spec fn is_boundary(c: Seq<RevView>, target: Seq<char>, k: int) -> bool {
    &&& 0 <= k < c.len()
    &&& at_least_target(c[k], target)
    &&& (k == 0 || !at_least_target(c[k - 1], target))
}

/// What the search phase may return for the revisions read: a candidate at a boundary, or
/// nothing where there is no candidate or the newest one is below the target.
pub open spec fn selection_ok(data: Seq<Option<RevView>>, target: Seq<char>, r: Option<RevView>) -> bool {
    let c = candidates(data);
    match r {
        Some(x) => exists|k: int| is_boundary(c, target, k) && c[k] == x,
        None => c.len() == 0 || !at_least_target(c.last(), target),
    }
}

/// The versions are below the target on a prefix of the candidates and at or above it after.
pub open spec fn monotone(c: Seq<RevView>, target: Seq<char>) -> bool {
    forall|i: int, j: int|
        0 <= i < j < c.len() && at_least_target(#[trigger] c[i], target) ==> at_least_target(
            #[trigger] c[j],
            target,
        )
}

/// Where versions grow along history, there is at most one boundary: the oldest candidate whose
/// version is at or above the target.
pub proof fn lemma_boundary_unique(c: Seq<RevView>, target: Seq<char>, k1: int, k2: int)
    requires
        monotone(c, target),
        is_boundary(c, target, k1),
        is_boundary(c, target, k2),
    ensures
        k1 == k2,
{
    if k1 < k2 {
        assert(at_least_target(c[k2 - 1], target));
    } else if k2 < k1 {
        assert(at_least_target(c[k1 - 1], target));
    }
}

/// Where versions grow along history, the revision selected is the oldest one whose version is
/// at or above the target (every older candidate's version is below it); and nothing is selected
/// only where no candidate's version is at or above the target.
pub proof fn lemma_selected_is_oldest_at_least(
    data: Seq<Option<RevView>>,
    target: Seq<char>,
    r: Option<RevView>,
)
    requires
        selection_ok(data, target, r),
        monotone(candidates(data), target),
    ensures
        r matches Some(x) ==> at_least_target(x, target) && exists|k: int|
            0 <= k < candidates(data).len() && candidates(data)[k] == x && forall|j: int|
                0 <= j < k ==> !at_least_target(#[trigger] candidates(data)[j], target),
        r is None ==> forall|j: int|
            0 <= j < candidates(data).len() ==> !at_least_target(#[trigger] candidates(data)[j], target),
{
    let c = candidates(data);
    match r {
        Some(x) => {
            let k = choose|k: int| is_boundary(c, target, k) && c[k] == x;
            assert forall|j: int| 0 <= j < k implies !at_least_target(#[trigger] c[j], target) by {
                if at_least_target(c[j], target) {
                    assert(at_least_target(c[k - 1], target));
                }
            }
        },
        None => {
            assert forall|j: int| 0 <= j < c.len() implies !at_least_target(#[trigger] c[j], target) by {
                if at_least_target(c[j], target) && j < c.len() - 1 {
                    assert(at_least_target(c[c.len() - 1], target));
                }
            }
        },
    }
}

/// The candidates (oldest first) of revisions listed newest first.
fn collect_candidates(data: &Vec<Option<Rev>>) -> (r: Vec<Rev>)
    ensures
        r@.map_values(|x: Rev| x@) == candidates(revs_view(data@)),
{
    let mut out: Vec<Rev> = Vec::new();
    let mut i: usize = data.len();
    let ghost d = revs_view(data@);
    assert(d.subrange(data@.len() as int, data@.len() as int) =~= Seq::<Option<RevView>>::empty());
    while i > 0
        invariant
            i <= data@.len(),
            d == revs_view(data@),
            out@.map_values(|x: Rev| x@) == candidates(d.subrange(i as int, data@.len() as int)),
        decreases i,
    {
        i = i - 1;
        let ghost before = out@.map_values(|x: Rev| x@);
        assert(d.subrange(i as int, data@.len() as int).drop_first() =~= d.subrange(
            i + 1,
            data@.len() as int,
        ));
        assert(d.subrange(i as int, data@.len() as int)[0] == opt_rev_view(data@[i as int]));
        match &data[i] {
            Some(rev) => {
                if version_triple(rev.version.as_str()).is_some() {
                    out.push(rev.copy());
                    assert(out@.map_values(|x: Rev| x@) =~= before + seq![rev@]);
                } else {
                    assert(out@.map_values(|x: Rev| x@) =~= before + Seq::<RevView>::empty());
                }
            },
            None => {
                assert(out@.map_values(|x: Rev| x@) =~= before + Seq::<RevView>::empty());
            },
        }
    }
    assert(d.subrange(0, data@.len() as int) =~= d);
    out
}

/// Picks, among the revisions read (newest first), the one to upgrade to: the candidates are the
/// revisions with a parsable version, taken oldest first, and a binary search finds where they
/// cross from "below the target" to "at or above it" (see [`selection_ok`]). Where versions grow
/// along history this is the oldest revision whose version is at or above the target: the first
/// commit where the version requirement is met. Nothing is selected where no revision has a
/// parsable version, or the newest one is below the target.
/// A target that is not a version selects nothing.
pub fn select_version(data: &Vec<Option<Rev>>, target: &str) -> (r: Option<Rev>)
    ensures
        parse_semver(target@) is Some ==> selection_ok(revs_view(data@), target@, opt_rev_view(r)),
        parse_semver(target@) is None ==> r is None,
{
    if version_triple(target).is_none() {
        return None;
    }
    let cands = collect_candidates(data);
    let ghost c = candidates(revs_view(data@));
    if cands.len() == 0 {
        return None;
    }
    assert(forall|j: int| 0 <= j < cands@.len() ==> #[trigger] cands@[j]@ == c[j]);
    assert(forall|j: int| 0 <= j < c.len() ==> parse_semver(#[trigger] c[j].version) is Some) by {
        lemma_candidates_parse(revs_view(data@));
    }
    let mut lo: usize = 0;
    let mut hi: usize = cands.len();
    while lo < hi
        invariant
            0 <= lo <= hi <= cands@.len(),
            cands@.len() == c.len(),
            forall|j: int| 0 <= j < cands@.len() ==> #[trigger] cands@[j]@ == c[j],
            forall|j: int| 0 <= j < c.len() ==> parse_semver(#[trigger] c[j].version) is Some,
            parse_semver(target@) is Some,
            lo == 0 || !at_least_target(c[lo - 1], target@),
            hi == c.len() || at_least_target(c[hi as int], target@),
        decreases hi - lo,
    {
        let mid = lo + (hi - lo) / 2;
        assert(cands@[mid as int]@ == c[mid as int]);
        assert(parse_semver(c[mid as int].version) is Some);
        assert(cands@[mid as int].version@ == c[mid as int].version);
        if version_lt(cands[mid].version.as_str(), target) {
            lo = mid + 1;
        } else {
            hi = mid;
        }
    }
    if lo == cands.len() {
        assert(c.last() == c[c.len() - 1]);
        return None;
    }
    assert(is_boundary(c, target@, lo as int));
    Some(cands[lo].copy())
}

proof fn lemma_candidates_parse(data: Seq<Option<RevView>>)
    ensures
        forall|j: int|
            0 <= j < candidates(data).len() ==> parse_semver(#[trigger] candidates(data)[j].version)
                is Some,
    decreases data.len(),
{
    if data.len() > 0 {
        lemma_candidates_parse(data.drop_first());
    }
}


// ---------------------------------------------------------------------------------------------
// Reading history
// ---------------------------------------------------------------------------------------------

/// Why the search failed.
#[derive(Debug)]
pub enum SearchError {
    /// The target is not a version.
    InvalidTarget(String),
    /// History holds no commit.
    NoValidCommits,
    /// A revision that the search had to compare has a version that does not parse.
    InvalidVersion(String),
}

impl SearchError {
    /// The text with which the failure is reported. For a version that does not parse, the
    /// version parser's reason is not reproduced.
    pub fn message(&self) -> (r: String)
        ensures
            match self {
                SearchError::InvalidTarget(t) => r@ == "Invalid target version string: "@ + t@,
                SearchError::NoValidCommits => r@ == "No valid commits found in repository history"@,
                SearchError::InvalidVersion(v) => r@ == "Invalid version string: "@ + v@,
            },
    {
        let mut m = String::new();
        match self {
            SearchError::InvalidTarget(t) => {
                crate::text::append_str(&mut m, "Invalid target version string: ");
                crate::text::append_str(&mut m, t.as_str());
            },
            SearchError::NoValidCommits => {
                crate::text::append_str(&mut m, "No valid commits found in repository history");
            },
            SearchError::InvalidVersion(v) => {
                crate::text::append_str(&mut m, "Invalid version string: ");
                crate::text::append_str(&mut m, v.as_str());
            },
        }
        m
    }
}

/// What the search needs next.
#[derive(Debug)]
pub enum SearchStep {
    /// Read the next batch of commits (at most [`VersionSearch::limit`] of them).
    Continue,
    /// The search is over.
    Done(Option<Rev>),
    /// The search failed.
    Failed(SearchError),
}

/// The state of a search: the target, the size of the next batch, the revision information of
/// the commits read so far (newest first, `None` for a commit without it), whether the newest
/// revision with information has been seen, and the oldest revision with information read.
pub struct VersionSearch {
    pub target: String,
    pub limit: usize,
    pub data: Vec<Option<Rev>>,
    pub head_found: bool,
    pub oldest: Option<Rev>,
}

/// The mathematical form of a search's state.
pub struct SearchView {
    pub limit: nat,
    pub data: Seq<Option<RevView>>,
    pub head_found: bool,
    pub oldest: Option<RevView>,
}

/// How a batch ends early: the newest revision's version fails to parse, or the target is newer
/// than it.
pub enum EarlyEnd {
    InvalidVersion(Seq<char>),
    NewerThanHead,
}

impl VersionSearch {
    /// The state's mathematical form.
    pub open spec fn state(&self) -> SearchView {
        SearchView {
            limit: self.limit as nat,
            data: revs_view(self.data@),
            head_found: self.head_found,
            oldest: opt_rev_view(self.oldest),
        }
    }
}

/// The state after reading one commit's revision information.
pub open spec fn read_one(s: SearchView, r: Option<RevView>) -> SearchView {
    SearchView {
        limit: s.limit,
        data: s.data.push(r),
        head_found: s.head_found || r is Some,
        oldest: if r is Some {
            r
        } else {
            s.oldest
        },
    }
}

/// Whether reading `r` ends the search: it is the newest revision with information, and its
/// version fails to parse or precedes the target.
pub open spec fn early_end(target: Seq<char>, s: SearchView, r: Option<RevView>) -> Option<EarlyEnd> {
    match r {
        Some(rev) => if s.head_found {
            None
        } else if parse_semver(rev.version) is None {
            Some(EarlyEnd::InvalidVersion(rev.version))
        } else if semver_precedes(rev.version, target) {
            Some(EarlyEnd::NewerThanHead)
        } else {
            None
        },
        None => None,
    }
}

/// Reads a batch in order: the state after it, or how it ends the search early.
pub open spec fn read_batch(target: Seq<char>, s: SearchView, batch: Seq<Option<RevView>>) -> (
    SearchView,
    Option<EarlyEnd>,
)
    decreases batch.len(),
{
    if batch.len() == 0 {
        (s, None)
    } else if early_end(target, s, batch[0]) is Some {
        (s, early_end(target, s, batch[0]))
    } else {
        read_batch(target, read_one(s, batch[0]), batch.drop_first())
    }
}

/// The next batch size: double, where that fits.
pub open spec fn doubled(limit: nat) -> nat {
    if limit <= usize::MAX / 2 {
        2 * limit
    } else {
        limit
    }
}

/// Whether, after a full batch, the oldest revision read ends the loading.
pub open spec fn oldest_precedes_target(s: SearchView, target: Seq<char>) -> bool {
    s.oldest matches Some(o) && parse_semver(o.version) is Some && semver_precedes(
        o.version,
        target,
    )
}

/// After a full batch, the oldest revision read has a version that does not parse.
pub open spec fn oldest_invalid(s: SearchView) -> bool {
    s.oldest matches Some(o) && parse_semver(o.version) is None
}

impl VersionSearch {
    /// Starts a search for `target`; refuses a target that is not a version.
    pub fn new(target: &str) -> (r: Result<VersionSearch, SearchError>)
        ensures
            r matches Ok(s) ==> s.target@ == target@ && s.limit == 1 && s.data@.len() == 0
                && !s.head_found && s.oldest is None && parse_semver(target@) is Some,
            r is Err <==> parse_semver(target@) is None,
            r matches Err(e) ==> e matches SearchError::InvalidTarget(t) && t@ == target@,
    {
        if version_triple(target).is_none() {
            return Err(SearchError::InvalidTarget(target.to_owned()));
        }
        Ok(
            VersionSearch {
                target: target.to_owned(),
                limit: 1,
                data: Vec::new(),
                head_found: false,
                oldest: None,
            },
        )
    }

    /// Takes the revision information of the next batch of commits (newest first; at most
    /// `limit` of them, fewer only where history ends) and says what comes next:
    /// - an empty first batch fails: history holds no commit;
    /// - while no revision with information has been seen, the first one met ends the search
    ///   when its version does not parse (failure) or precedes the target (nothing to find);
    /// - a batch shorter than `limit` ends the loading, and so does a full batch whose oldest
    ///   revision read precedes the target (one whose version does not parse fails the search);
    ///   the revisions read are then searched by [`select_version`];
    /// - else the next batch is twice as large.
    pub fn feed(&mut self, batch: Vec<Option<Rev>>) -> (r: SearchStep)
        requires
            batch@.len() <= old(self).limit,
        ensures
            final(self).target == old(self).target,
            parse_semver(old(self).target@) is None ==> (r matches SearchStep::Failed(
                SearchError::InvalidTarget(x),
            ) && x@ == old(self).target@ && final(self).state() == old(self).state()),
            parse_semver(old(self).target@) is Some ==> ({
                let t = old(self).target@;
                let s0 = old(self).state();
                let b = revs_view(batch@);
                let (s1, early) = read_batch(t, s0, b);
                if b.len() == 0 && s0.data.len() == 0 {
                    r matches SearchStep::Failed(SearchError::NoValidCommits)
                } else if early is Some && early->0 is InvalidVersion {
                    r matches SearchStep::Failed(SearchError::InvalidVersion(x)) && x@
                        == early->0->InvalidVersion_0
                } else if early is Some {
                    r matches SearchStep::Done(None)
                } else if b.len() < s0.limit {
                    r matches SearchStep::Done(x) && final(self).state().data == s1.data
                        && selection_ok(s1.data, t, opt_rev_view(x))
                } else if oldest_invalid(s1) {
                    r matches SearchStep::Failed(SearchError::InvalidVersion(x)) && x@ == s1.oldest->0.version
                } else if oldest_precedes_target(s1, t) {
                    r matches SearchStep::Done(x) && final(self).state().data == s1.data
                        && selection_ok(s1.data, t, opt_rev_view(x))
                } else {
                    r is Continue && final(self).state() == SearchView {
                        limit: doubled(s0.limit),
                        ..s1
                    }
                }
            }),
    {
        let ghost t = self.target@;
        let ghost s0 = self.state();
        let ghost b = revs_view(batch@);
        if version_triple(self.target.as_str()).is_none() {
            return SearchStep::Failed(SearchError::InvalidTarget(self.target.clone()));
        }
        let reached_end = batch.len() < self.limit;
        if batch.len() == 0 && self.data.len() == 0 {
            return SearchStep::Failed(SearchError::NoValidCommits);
        }
        let mut i: usize = 0;
        assert(b.skip(0) =~= b);
        while i < batch.len()
            invariant
                i <= batch@.len(),
                b == revs_view(batch@),
                t == self.target@,
                self.target == old(self).target,
                s0 == old(self).state(),
                parse_semver(t) is Some,
                self.limit == s0.limit,
                read_batch(t, s0, b) == read_batch(t, self.state(), b.skip(i as int)),
            decreases batch@.len() - i,
        {
            let ghost cur = self.state();
            let rev_info = &batch[i];
            assert(b.skip(i as int)[0] == opt_rev_view(*rev_info));
            assert(b.skip(i as int).drop_first() =~= b.skip(i + 1));
            match rev_info {
                Some(rev) => {
                    if !self.head_found {
                        self.head_found = true;
                        if version_triple(rev.version.as_str()).is_none() {
                            assert(early_end(t, cur, b.skip(i as int)[0]) == Some(EarlyEnd::InvalidVersion(rev.version@)));
                            assert(read_batch(t, s0, b) == (cur, Some(EarlyEnd::InvalidVersion(rev.version@))));

                            return SearchStep::Failed(SearchError::InvalidVersion(rev.version.clone()));
                        }
                        if version_lt(rev.version.as_str(), self.target.as_str()) {
                            assert(early_end(t, cur, b.skip(i as int)[0]) == Some(EarlyEnd::NewerThanHead));
                            assert(read_batch(t, s0, b) == (cur, Some(EarlyEnd::NewerThanHead)));
                            return SearchStep::Done(None);
                        }
                    }
                    self.oldest = Some(rev.copy());
                    self.data.push(Some(rev.copy()));
                },
                None => {
                    self.data.push(None);
                },
            }
            assert(self.state().data =~= cur.data.push(opt_rev_view(*rev_info)));
            assert(self.state() == read_one(cur, opt_rev_view(*rev_info)));
            i = i + 1;
        }
        assert(b.skip(i as int) =~= Seq::<Option<RevView>>::empty());
        if reached_end {
            return SearchStep::Done(select_version(&self.data, self.target.as_str()));
        }
        match &self.oldest {
            Some(o) => {
                if version_triple(o.version.as_str()).is_none() {
                    return SearchStep::Failed(SearchError::InvalidVersion(o.version.clone()));
                }
                if version_lt(o.version.as_str(), self.target.as_str()) {
                    return SearchStep::Done(select_version(&self.data, self.target.as_str()));
                }
            },
            None => {},
        }
        self.limit = if self.limit <= usize::MAX / 2 {
            self.limit * 2
        } else {
            self.limit
        };
        SearchStep::Continue
    }
}

// ---------------------------------------------------------------------------------------------
// What a commit says of itself
// ---------------------------------------------------------------------------------------------

/// The string at `package.version` of a TOML document, where `contents` is one and has it.
pub uninterp spec fn toml_package_version(contents: Seq<char>) -> Option<Seq<char>>;

/// `toml`: parses `contents` as a document (`toml::Table`) and reads the string at
/// `package.version` (`Value::get`, `Value::as_str`). Claims that the outcome is determined by
/// `contents` alone; what it is is not stated.
#[verifier::external_body]
fn package_version_of(contents: &str) -> (r: Option<String>)
    ensures
        r matches Some(v) ==> toml_package_version(contents@) == Some(v@),
        r is None ==> toml_package_version(contents@) is None,
{
    let table = contents.parse::<toml::Table>().ok()?;
    table.get("package")?.get("version")?.as_str().map(ToOwned::to_owned)
}

/// The channel that a `rust-toolchain` file selects: the `channel = "..."` entry of a
/// `[toolchain]` file, or, for a file in the older one-line format, its trimmed text.
pub open spec fn toolchain_file_channel(t: Seq<char>) -> Seq<char> {
    match crate::clippy_utils::toolchain_channel(t) {
        Some(c) => c,
        None => crate::text::trim_spec(t),
    }
}

/// A commit that declares a version but whose `rust-toolchain` file is missing or not text.
#[derive(Debug)]
pub struct NoToolchainError {
    pub oid: Oid,
}

/// What a commit of Clippy says of itself, given the text of its `Cargo.toml` and
/// `rust-toolchain` files (`None` where a file is missing or not UTF-8): nothing where the
/// manifest declares no version; else the version, the channel that the toolchain file selects
/// (see [`toolchain_file_channel`]), and the commit; fails where a version is declared but the toolchain file is wanting.
pub fn rev_info(cargo_toml: Option<&str>, rust_toolchain: Option<&str>, oid: Oid) -> (r: Result<
    Option<Rev>,
    NoToolchainError,
>)
    ensures
        ({
            let version = match cargo_toml {
                Some(c) => toml_package_version(c@),
                None => None,
            };
            match r {
                Ok(None) => version is None,
                Ok(Some(rev)) => version == Some(rev.version@) && rev.oid == oid && (rust_toolchain matches Some(t)
                    && rev.channel@ == toolchain_file_channel(t@)),
                Err(e) => version is Some && rust_toolchain is None && e.oid == oid,
            }
        }),
{
    let version = match cargo_toml {
        Some(c) => match package_version_of(c) {
            Some(v) => v,
            None => return Ok(None),
        },
        None => return Ok(None),
    };
    let channel = match rust_toolchain {
        Some(t) => match crate::clippy_utils::channel(t) {
            Ok(c) => c,
            Err(_) => {
                let cs = crate::text::chars_of(t);
                let trimmed = crate::text::trim_chars(&cs);
                crate::text::string_from_chars(trimmed.as_slice())
            },
        },
        None => return Err(NoToolchainError { oid }),
    };
    Ok(Some(Rev { version, channel, oid }))
}

} // verus!
