use vstd::prelude::*;
use crate::decimal::u64_text;
use crate::error::CheckError;
use crate::model::{Commit, MergeRequest, Source};
use crate::reduce::DEFAULT_WINDOW_DAYS;
use crate::time::{instant_of, parse_instant, NANOS_PER_DAY};
use crate::version::{Candidate, Version};

verus! {

/// The default age limit on a request's last modification, in days.
pub const DEFAULT_MAX_AGE_DAYS: u32 = DEFAULT_WINDOW_DAYS;

/// The text compiles as a Unix shell glob pattern.
pub uninterp spec fn glob_valid(pattern: Seq<char>) -> bool;

/// A valid glob pattern matches a path, with default match options.
pub uninterp spec fn glob_match(pattern: Seq<char>, path: Seq<char>) -> bool;

/// Relies on `glob::Pattern::new`: whether the text compiles as a pattern.
#[verifier::external_body]
fn compiles_as_glob(pattern: &str) -> (r: bool)
    ensures
        r == glob_valid(pattern@),
{
    glob::Pattern::new(pattern).is_ok()
}

/// Relies on `glob::Pattern::matches` (default match options), on the pattern
/// that `glob::Pattern::new` compiles from the text.
#[verifier::external_body]
fn glob_matches(pattern: &str, path: &str) -> (r: bool)
    requires
        glob_valid(pattern@),
    ensures
        r == glob_match(pattern@, path@),
{
    match glob::Pattern::new(pattern) {
        Ok(p) => p.matches(path),
        Err(_) => false,
    }
}

/// Every pattern compiles.
pub open spec fn all_valid(patterns: Seq<String>) -> bool {
    forall|i: int| 0 <= i < patterns.len() ==> glob_valid(#[trigger] patterns[i]@)
}

/// Some changed path matches some pattern.
pub open spec fn path_matches(patterns: Seq<String>, paths: Seq<String>) -> bool {
    exists|i: int, j: int|
        0 <= i < patterns.len() && 0 <= j < paths.len() && glob_match(
            #[trigger] patterns[i]@,
            #[trigger] paths[j]@,
        )
}

/// A request last modified at `updated` is older than the age limit at `now`.
pub open spec fn too_old(updated: int, now: int, max_age_days: u32) -> bool {
    updated < now - max_age_days * NANOS_PER_DAY
}

/// Whether some changed path matches some pattern.
pub fn any_path_matches(patterns: &Vec<String>, paths: &Vec<String>) -> (r: bool)
    requires
        all_valid(patterns@),
    ensures
        r == path_matches(patterns@, paths@),
{
    let mut i: usize = 0;
    while i < patterns.len()
        invariant
            i <= patterns@.len(),
            all_valid(patterns@),
            forall|a: int, b: int|
                0 <= a < i && 0 <= b < paths@.len() ==> !glob_match(
                    #[trigger] patterns@[a]@,
                    #[trigger] paths@[b]@,
                ),
        decreases patterns@.len() - i,
    {
        let mut j: usize = 0;
        while j < paths.len()
            invariant
                i < patterns@.len(),
                j <= paths@.len(),
                all_valid(patterns@),
                forall|b: int| 0 <= b < j ==> !glob_match(patterns@[i as int]@, #[trigger] paths@[b]@),
            decreases paths@.len() - j,
        {
            assert(glob_valid(patterns@[i as int]@));
            if glob_matches(patterns[i].as_str(), paths[j].as_str()) {
                return true;
            }
            j = j + 1;
        }
        i = i + 1;
    }
    false
}

/// The first pattern that does not compile, if any.
pub fn first_invalid_pattern(patterns: &Vec<String>) -> (r: Option<usize>)
    ensures
        r is None <==> all_valid(patterns@),
        r matches Some(i) ==> i < patterns@.len() && !glob_valid(patterns@[i as int]@)
            && all_valid(patterns@.subrange(0, i as int)),
{
    let mut i: usize = 0;
    while i < patterns.len()
        invariant
            i <= patterns@.len(),
            all_valid(patterns@.subrange(0, i as int)),
        decreases patterns@.len() - i,
    {
        if !compiles_as_glob(patterns[i].as_str()) {
            return Some(i);
        }
        assert(all_valid(patterns@.subrange(0, i + 1))) by {
            assert forall|k: int| 0 <= k < i + 1 implies glob_valid(
                #[trigger] patterns@.subrange(0, i + 1)[k]@,
            ) by {
                if k < i {
                    assert(patterns@.subrange(0, i + 1)[k] == patterns@.subrange(0, i as int)[k]);
                }
            }
        }
        i = i + 1;
    }
    assert(patterns@.subrange(0, i as int) =~= patterns@);
    None
}

/// The filter settings of a run.
pub struct Config {
    /// Requests last modified longer ago than this are left out.
    pub max_age_days: u32,
    /// Other entities' candidates this far from the current version are kept.
    pub window_days: u32,
    /// Path globs; none means every request passes.
    pub patterns: Vec<String>,
    /// Resurrection is switched off for the run.
    pub resurrection_disabled: bool,
}

impl Config {
    /// Every pattern compiles.
    pub open spec fn wf(&self) -> bool {
        all_valid(self.patterns@)
    }

    /// Settles the configuration of a run: defaults for what is absent, and
    /// every path pattern checked before any request is fetched. Resurrection
    /// is off when the source says so or the override is set.
    pub fn from_source(source: &Source, resurrection_override: bool) -> (r: Result<Config, CheckError>)
        ensures
            r is Ok <==> (source.paths is None || all_valid(source.paths.unwrap()@)),
            r matches Err(e) ==> e matches CheckError::InvalidPattern(x) && exists|i: int|
                0 <= i < source.paths.unwrap()@.len() && !glob_valid(
                    #[trigger] source.paths.unwrap()@[i]@,
                ) && source.paths.unwrap()@[i]@ == x@ && all_valid(
                    source.paths.unwrap()@.subrange(0, i),
                ),
            r matches Ok(c) ==> {
                &&& c.wf()
                &&& c.max_age_days == match source.max_age_days {
                    Some(d) => d,
                    None => DEFAULT_MAX_AGE_DAYS,
                }
                &&& c.window_days == match source.commit_date_window_days {
                    Some(w) => w,
                    None => c.max_age_days,
                }
                &&& c.patterns@ == match source.paths {
                    Some(p) => p@,
                    None => Seq::<String>::empty(),
                }
                &&& c.resurrection_disabled == (resurrection_override
                    || source.disable_resurrection == Some(true))
            },
    {
        let max_age_days = match source.max_age_days {
            Some(d) => d,
            None => DEFAULT_MAX_AGE_DAYS,
        };
        let window_days = match source.commit_date_window_days {
            Some(w) => w,
            None => max_age_days,
        };
        let mut patterns: Vec<String> = Vec::new();
        if let Some(paths) = &source.paths {
            let mut i: usize = 0;
            while i < paths.len()
                invariant
                    source.paths is Some && source.paths.unwrap()@ == paths@,
                    i <= paths@.len(),
                    patterns@ == paths@.subrange(0, i as int),
                    all_valid(patterns@),
                decreases paths@.len() - i,
            {
                if !compiles_as_glob(paths[i].as_str()) {
                    assert(!all_valid(source.paths.unwrap()@)) by {
                        assert(source.paths.unwrap()@ == paths@);
                        assert(!glob_valid(paths@[i as int]@));
                    }
                    assert(paths@.subrange(0, i as int) == patterns@);
                    return Err(CheckError::InvalidPattern(paths[i].clone()));
                }
                patterns.push(paths[i].clone());
                assert(patterns@ =~= paths@.subrange(0, i + 1));
                i = i + 1;
            }
            assert(patterns@ =~= paths@);
        }
        assert(patterns@ =~= match source.paths {
            Some(p) => p@,
            None => Seq::<String>::empty(),
        });
        let disabled = resurrection_override || match source.disable_resurrection {
            Some(b) => b,
            None => false,
        };
        Ok(Config { max_age_days, window_days, patterns, resurrection_disabled: disabled })
    }
}

/// What happens next to a listed request.
#[derive(Debug, Clone, Copy, PartialEq, Eq, Structural)]
pub enum Screening {
    /// Leave the request out.
    Exclude(Exclusion),
    /// Fetch the paths the request changes, then screen it again with them.
    FetchChangedPaths,
    /// The request passes: fetch its head commit and build its candidate.
    FetchCommit,
}

/// Why a request was left out.
#[derive(Debug, Clone, Copy, PartialEq, Eq, Structural)]
pub enum Exclusion {
    /// Its head commit is gone.
    NoHeadCommit,
    /// None of its changed paths matches a pattern.
    NoMatchingPath,
    /// It was last modified before the age limit.
    TooOld,
}

/// What screening decides for a request, or `None` where it gets as far as
/// the age test and the modification time is unreadable.
pub open spec fn screening_of(
    mr: MergeRequest,
    changed: Option<Vec<String>>,
    patterns: Seq<String>,
    max_age_days: u32,
    now: int,
) -> Option<Screening> {
    if mr.sha is None {
        Some(Screening::Exclude(Exclusion::NoHeadCommit))
    } else if patterns.len() > 0 && changed is None {
        Some(Screening::FetchChangedPaths)
    } else if patterns.len() > 0 && !path_matches(patterns, changed.unwrap()@) {
        Some(Screening::Exclude(Exclusion::NoMatchingPath))
    } else {
        match instant_of(mr.updated_at@) {
            None => None,
            Some(t) => Some(
                if too_old(t, now, max_age_days) {
                    Screening::Exclude(Exclusion::TooOld)
                } else {
                    Screening::FetchCommit
                },
            ),
        }
    }
}

/// Screens a listed request: no head commit, then the path filter (asking
/// for the changed paths when patterns are set and they are not yet at hand),
/// then the age of the request's own last modification.
pub fn screen_request(
    mr: &MergeRequest,
    changed: &Option<Vec<String>>,
    config: &Config,
    now: i128,
) -> (r: Result<Screening, CheckError>)
    requires
        config.wf(),
    ensures
        match screening_of(*mr, *changed, config.patterns@, config.max_age_days, now as int) {
            Some(d) => r == Ok::<Screening, CheckError>(d),
            None => r matches Err(CheckError::InvalidTimestamp(x)) && x@ == mr.updated_at@,
        },
{
    if mr.sha.is_none() {
        return Ok(Screening::Exclude(Exclusion::NoHeadCommit));
    }
    if config.patterns.len() > 0 {
        match changed {
            None => return Ok(Screening::FetchChangedPaths),
            Some(paths) => {
                if !any_path_matches(&config.patterns, paths) {
                    return Ok(Screening::Exclude(Exclusion::NoMatchingPath));
                }
            },
        }
    }
    let updated = match parse_instant(&mr.updated_at) {
        Ok(t) => t,
        Err(e) => return Err(e),
    };
    let limit: i128 = config.max_age_days as i128 * NANOS_PER_DAY;
    // The age test, written so that it cannot overflow.
    let old = match now.checked_sub(limit) {
        Some(cutoff) => updated < cutoff,
        None => false,
    };
    if old {
        Ok(Screening::Exclude(Exclusion::TooOld))
    } else {
        Ok(Screening::FetchCommit)
    }
}

/// Screens a request under settings that were not checked: every pattern is
/// compiled first, and the first one that does not compile is the error.
pub fn screen_request_checked(
    mr: &MergeRequest,
    changed: &Option<Vec<String>>,
    config: &Config,
    now: i128,
) -> (r: Result<Screening, CheckError>)
    ensures
        !config.wf() ==> exists|i: int|
            0 <= i < config.patterns@.len() && !glob_valid(#[trigger] config.patterns@[i]@)
                && all_valid(config.patterns@.subrange(0, i)) && r == Err::<Screening, CheckError>(
                CheckError::InvalidPattern(config.patterns@[i]),
            ),
        config.wf() ==> match screening_of(
            *mr,
            *changed,
            config.patterns@,
            config.max_age_days,
            now as int,
        ) {
            Some(d) => r == Ok::<Screening, CheckError>(d),
            None => r matches Err(CheckError::InvalidTimestamp(x)) && x@ == mr.updated_at@,
        },
{
    match first_invalid_pattern(&config.patterns) {
        Some(i) => Err(CheckError::InvalidPattern(config.patterns[i].clone())),
        None => screen_request(mr, changed, config, now),
    }
}

/// The candidate of a request that passed screening: its entity id, its head
/// commit and that commit's timestamp (not the request's own modification
/// time, which unrelated activity moves).
pub fn candidate_for(mr: &MergeRequest, commit: &Commit) -> (r: Result<Candidate, CheckError>)
    ensures
        r is Ok <==> (mr.sha is Some && instant_of(commit.committed_date@) is Some),
        mr.sha is None ==> r == Err::<Candidate, CheckError>(CheckError::MissingHeadCommit(mr.iid)),
        mr.sha is Some && instant_of(commit.committed_date@) is None ==> (r matches Err(
            CheckError::InvalidTimestamp(x),
        ) && x@ == commit.committed_date@),
        r matches Ok(c) ==> {
            &&& c.wf()
            &&& c.id == mr.iid
            &&& c.at == instant_of(commit.committed_date@).unwrap()
            &&& c.version.sha == mr.sha.unwrap()
            &&& c.version.committed_date == commit.committed_date
        },
{
    let sha = match &mr.sha {
        Some(s) => s.clone(),
        None => return Err(CheckError::MissingHeadCommit(mr.iid)),
    };
    let at = match parse_instant(&commit.committed_date) {
        Ok(t) => t,
        Err(e) => return Err(e),
    };
    let iid = u64_text(mr.iid);
    proof {
        crate::decimal::lemma_decimal_text_value(mr.iid as nat);
    }
    Ok(Candidate {
        id: mr.iid,
        at,
        version: Version { iid, committed_date: commit.committed_date.clone(), sha },
    })
}

} // verus!
