use vstd::prelude::*;

use crate::bytes::copy_bytes;
use crate::naming::{artifact_name, artifact_name_spec};
use crate::paths::{period_dir, period_dir_spec};
use crate::period::{is_valid_period, parse_period};

verus! {

/// The plan for the build step of one retrieval: where the bucket lies and
/// what the ephemeral artifact must be called.
pub struct BuildPlan {
    pub source_dir: Vec<u8>,
    pub artifact: Vec<u8>,
}

/// How a retrieval starts: either the period argument is rejected before
/// anything is created, or the coordinator hands over a build plan.
pub enum BeginOutcome {
    /// the argument is not a period code: answer with parse guidance and
    /// create nothing
    Rejected,
    /// validated: build the archive of this bucket under this artifact name
    Proceed(BuildPlan),
}

/// What the archive attempt reported back.
#[derive(Debug, Clone, Copy, PartialEq, Eq, Structural)]
pub enum BuildStatus {
    /// the artifact stands complete
    Built,
    /// the bucket does not exist or holds no files
    NotFound,
    /// enumeration or an individual file read failed midway
    Failed,
}

/// The reply owed to the requester.
pub enum ReplyPlan {
    /// send the finished artifact at this path
    SendArchive(Vec<u8>),
    /// no archive: point at the periods that do have files
    SuggestPeriods(Vec<Vec<u8>>),
    /// the argument did not parse: ask for a period code
    AskForPeriod,
}

/// How a retrieval ends: one reply, and the unconditional cleanup
/// obligation for the ephemeral artifact if one may exist.
pub struct FinishPlan {
    pub reply: ReplyPlan,
    pub cleanup: Option<Vec<u8>>,
}

/// Starts a retrieval.  A six-digit period argument is accepted and turned
/// into a build plan for exactly that bucket, named with the request's own
/// token; anything else is rejected before any artifact can come into
/// being.
pub fn retrieve_begin(owner: &Vec<u8>, period_arg: &Vec<u8>, token: u64) -> (r: BeginOutcome)
    ensures
        r is Proceed <==> is_valid_period(period_arg@),
        (r matches BeginOutcome::Proceed(plan) ==> plan.source_dir@ == period_dir_spec(
            owner@,
            period_arg@,
        ) && plan.artifact@ == artifact_name_spec(owner@, period_arg@, token)),
{
    match parse_period(period_arg) {
        Some(_) => BeginOutcome::Proceed(
            BuildPlan {
                source_dir: period_dir(owner, period_arg),
                artifact: artifact_name(owner, period_arg, token),
            },
        ),
        None => BeginOutcome::Rejected,
    }
}

/// Ends a retrieval.  A built artifact is delivered; a missing or failed
/// build is answered with the period list instead, and a partial artifact
/// is never handed out.  Every path that may have created an artifact plans
/// its deletion — delivered or not, failed or not — and a rejected argument
/// cleans nothing because nothing was created.
pub fn retrieve_finish(begin: BeginOutcome, built: BuildStatus, available: Vec<Vec<u8>>) -> (r:
    FinishPlan)
    ensures
        begin is Rejected ==> r.reply is AskForPeriod && r.cleanup is None,
        (begin matches BeginOutcome::Proceed(plan) ==> (r.cleanup matches Some(c) && c@
            == plan.artifact@)),
        (begin matches BeginOutcome::Proceed(plan) ==> built == BuildStatus::Built ==> (
        r.reply matches ReplyPlan::SendArchive(a) && a@ == plan.artifact@)),
        (begin is Proceed ==> built != BuildStatus::Built ==> (
        r.reply matches ReplyPlan::SuggestPeriods(ps) && ps == available)),
{
    match begin {
        BeginOutcome::Rejected => FinishPlan { reply: ReplyPlan::AskForPeriod, cleanup: None },
        BeginOutcome::Proceed(plan) => {
            match built {
                BuildStatus::Built => FinishPlan {
                    reply: ReplyPlan::SendArchive(copy_bytes(&plan.artifact)),
                    cleanup: Some(plan.artifact),
                },
                BuildStatus::NotFound => FinishPlan {
                    reply: ReplyPlan::SuggestPeriods(available),
                    cleanup: Some(plan.artifact),
                },
                BuildStatus::Failed => FinishPlan {
                    reply: ReplyPlan::SuggestPeriods(available),
                    cleanup: Some(plan.artifact),
                },
            }
        },
    }
}

} // verus!
