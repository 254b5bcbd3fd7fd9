//! The decisions around what is kept between sessions: the caret of each
//! file, the history of opened files and the lock that guards both.

use vstd::prelude::*;
use vstd::string::*;
use crate::decimal::{decimal_text, format_decimal, lemma_decimal_round_trip, parse_decimal, parsed_decimal};

verus! {

/// How many entries of the history are listed at first.
pub const DEF_OLDFILES_LST_LEN: usize = 20;

/// The lower-case hexadecimal SHA-256 digest of the UTF-8 bytes of `path`.
pub uninterp spec fn sha256_hex(path: Seq<char>) -> Seq<char>;

/// `Sha256::digest` of sha2, written in lower-case hexadecimal: the digest
/// depends on the text alone.
#[verifier::external_body]
fn sha256hex_of_str(path: &str) -> (name: String)
    ensures
        name@ == sha256_hex(path@),
{
    format!("{:x}", <sha2::Sha256 as sha2::Digest>::digest(path.as_bytes()))
}

/// The body of the caret artifact that records `offset`: the offset in
/// decimal.
pub fn caret_body(offset: u64) -> (body: String)
    ensures
        body@ == decimal_text(offset as nat),
{
    format_decimal(offset)
}

/// What was found where a file's caret artifact should be.
pub enum CaretFile {
    /// Nothing is there.
    Missing,
    /// Something is there that is no plain file: a link, a directory.
    Irregular,
    /// A plain file with this body.
    Body(String),
}

/// Why a caret could not be taken up.
#[derive(Clone, Copy, Debug, PartialEq, Eq, Structural)]
pub enum CaretError {
    NotRegularFile,
    Malformed,
}

/// The caret that a find stands for: none where no artifact exists, an
/// error where the artifact is no plain file or its body no offset.
pub open spec fn caret_in(found: CaretFile) -> Result<Option<u64>, CaretError> {
    match found {
        CaretFile::Missing => Ok(None),
        CaretFile::Irregular => Err(CaretError::NotRegularFile),
        CaretFile::Body(body) => match parsed_decimal(body@) {
            Some(n) => Ok(Some(n)),
            None => Err(CaretError::Malformed),
        },
    }
}

/// Takes up the caret of a file.
pub fn load_caret(found: &CaretFile) -> (r: Result<Option<u64>, CaretError>)
    ensures
        r == caret_in(*found),
{
    match found {
        CaretFile::Missing => Ok(None),
        CaretFile::Irregular => Err(CaretError::NotRegularFile),
        CaretFile::Body(body) => match parse_decimal(body.as_str()) {
            Some(n) => Ok(Some(n)),
            None => Err(CaretError::Malformed),
        },
    }
}

/// A caret that was saved is the caret that is taken up: the body written
/// for an offset is read back as that offset.
pub proof fn lemma_caret_kept(offset: u64, body: String)
    requires
        body@ == decimal_text(offset as nat),
    ensures
        caret_in(CaretFile::Body(body)) == Ok::<Option<u64>, CaretError>(Some(offset)),
{
    lemma_decimal_round_trip(offset);
}

/// One row to delete from the history, with the name of its caret artifact.
#[derive(Debug)]
pub struct Removal {
    pub fullpath: String,
    pub caret: String,
}

/// The mathematical value of a removal.
pub struct RemovalModel {
    pub fullpath: Seq<char>,
    pub caret: Seq<char>,
}

impl View for Removal {
    type V = RemovalModel;

    open spec fn view(&self) -> RemovalModel {
        RemovalModel { fullpath: self.fullpath@, caret: self.caret@ }
    }
}

/// The values of a vector of removals.
pub open spec fn removals_view(plan: Seq<Removal>) -> Seq<RemovalModel> {
    Seq::new(plan.len(), |i: int| plan[i]@)
}

/// The removals for the first `n` of `paths`: one for each path that is not
/// to be kept, in order, its artifact named by the digest of the path.
pub open spec fn removals(paths: Seq<String>, keep: Seq<bool>, n: int) -> Seq<RemovalModel>
    decreases n,
{
    if n <= 0 {
        Seq::empty()
    } else if keep[n - 1] {
        removals(paths, keep, n - 1)
    } else {
        removals(paths, keep, n - 1).push(
            RemovalModel { fullpath: paths[n - 1]@, caret: sha256_hex(paths[n - 1]@) },
        )
    }
}

/// Plans the deletion of history rows: of the candidate `paths`, those not
/// marked in `keep` are to go, each with its caret artifact.
pub fn plan_removals(paths: &Vec<String>, keep: &Vec<bool>) -> (plan: Vec<Removal>)
    requires
        paths@.len() == keep@.len(),
    ensures
        removals_view(plan@) == removals(paths@, keep@, paths@.len() as int),
{
    let mut plan: Vec<Removal> = Vec::new();
    let mut i: usize = 0;
    assert(removals_view(plan@) =~= Seq::empty());
    while i < paths.len()
        invariant
            i <= paths@.len(),
            paths@.len() == keep@.len(),
            removals_view(plan@) == removals(paths@, keep@, i as int),
        decreases paths@.len() - i,
    {
        if !keep[i] {
            let ghost before = removals_view(plan@);
            let caret = sha256hex_of_str(paths[i].as_str());
            plan.push(Removal { fullpath: paths[i].clone(), caret });
            assert(removals_view(plan@) =~= before.push(
                RemovalModel { fullpath: paths@[i as int]@, caret: sha256_hex(paths@[i as int]@) },
            ));
        }
        i = i + 1;
    }
    plan
}

/// The name of the caret artifact of the file at `path`.
pub fn caret_name(path: &str) -> (name: String)
    ensures
        name@ == sha256_hex(path@),
{
    sha256hex_of_str(path)
}

/// What recording an opening does to the history.
#[derive(Clone, Copy, Debug, PartialEq, Eq, Structural)]
pub enum Upsert {
    /// The path has no row yet: one is inserted.
    Insert,
    /// The path has a row: its time is updated.
    Update,
}

/// Decides how an opening is recorded, from whether the path has a row.
pub fn upsert_action(present: bool) -> (a: Upsert)
    ensures
        a == if present {
            Upsert::Update
        } else {
            Upsert::Insert
        },
{
    if present {
        Upsert::Update
    } else {
        Upsert::Insert
    }
}

/// What follows the deletion of one history row.
#[derive(Clone, Copy, Debug, PartialEq, Eq, Structural)]
pub enum RemovalStep {
    /// The row went: its caret artifact is removed next.
    RemoveArtifact,
    /// The row could not be deleted: the transaction fails and the artifact
    /// stays.
    Abort,
}

/// Decides how a deletion goes on once the row has been dealt with.
pub fn removal_step(row_deleted: bool) -> (step: RemovalStep)
    ensures
        step == if row_deleted {
            RemovalStep::RemoveArtifact
        } else {
            RemovalStep::Abort
        },
{
    if row_deleted {
        RemovalStep::RemoveArtifact
    } else {
        RemovalStep::Abort
    }
}

/// What follows the removal of a caret artifact.
#[derive(Clone, Copy, Debug, PartialEq, Eq, Structural)]
pub enum ArtifactStep {
    /// On to the next row.
    Proceed,
    /// The artifact could not be removed: the failure is logged and the
    /// deletion goes on all the same.
    ProceedLogged,
}

/// Decides how a deletion goes on once the artifact has been dealt with: a
/// failure there never stops it.
pub fn artifact_step(artifact_removed: bool) -> (step: ArtifactStep)
    ensures
        step == if artifact_removed {
            ArtifactStep::Proceed
        } else {
            ArtifactStep::ProceedLogged
        },
{
    if artifact_removed {
        ArtifactStep::Proceed
    } else {
        ArtifactStep::ProceedLogged
    }
}

/// How a guarded section ended.
#[derive(Clone, Copy, Debug, PartialEq, Eq, Structural)]
pub enum Outcome {
    /// The operation went through and the lock was released cleanly.
    Success,
    /// The lock could not be taken: the operation was not run.
    NotAcquired,
    /// The operation itself failed.
    OperationFailed,
    /// The operation went through but the lock was not released cleanly.
    ReleaseFailed,
}

/// The outcome of an operation under the lock: it succeeds only if the
/// operation did and the lock was released cleanly.
pub open spec fn outcome_of(operation_ok: bool, released: bool) -> Outcome {
    if !operation_ok {
        Outcome::OperationFailed
    } else if !released {
        Outcome::ReleaseFailed
    } else {
        Outcome::Success
    }
}

/// Settles the outcome of an operation under the lock.
pub fn guarded_outcome(operation_ok: bool, released: bool) -> (r: Outcome)
    ensures
        r == outcome_of(operation_ok, released),
{
    if !operation_ok {
        Outcome::OperationFailed
    } else if !released {
        Outcome::ReleaseFailed
    } else {
        Outcome::Success
    }
}

/// Where a guarded section stands: each state but the last names the work
/// that is due next.
#[derive(Clone, Copy, Debug, PartialEq, Eq, Structural)]
pub enum Guard {
    /// The lock is to be taken.
    Acquire,
    /// The lock is held and the operation is to be run.
    Run,
    /// The operation has run and the lock is to be released.
    Release { operation_ok: bool },
    /// The section is over.
    Done { outcome: Outcome },
}

/// The state that follows `state` when the work due in it went well
/// (`ok`) or did not.
pub open spec fn guard_after(state: Guard, ok: bool) -> Guard {
    match state {
        Guard::Acquire => if ok {
            Guard::Run
        } else {
            Guard::Done { outcome: Outcome::NotAcquired }
        },
        Guard::Run => Guard::Release { operation_ok: ok },
        Guard::Release { operation_ok } => Guard::Done { outcome: outcome_of(operation_ok, ok) },
        Guard::Done { outcome } => state,
    }
}

/// Moves a guarded section on after the work that was due.
pub fn guard_next(state: Guard, ok: bool) -> (next: Guard)
    ensures
        next == guard_after(state, ok),
{
    match state {
        Guard::Acquire => if ok {
            Guard::Run
        } else {
            Guard::Done { outcome: Outcome::NotAcquired }
        },
        Guard::Run => Guard::Release { operation_ok: ok },
        Guard::Release { operation_ok } => Guard::Done { outcome: guarded_outcome(operation_ok, ok) },
        Guard::Done { outcome } => state,
    }
}

/// Once the lock is held it is released before the section is over,
/// whether the operation failed or not, and the section succeeds only if
/// both the operation and the release did.
pub proof fn lemma_lock_released(operation_ok: bool, released: bool)
    ensures
        guard_after(Guard::Acquire, true) == Guard::Run,
        guard_after(Guard::Run, operation_ok) == (Guard::Release { operation_ok }),
        guard_after(guard_after(Guard::Run, operation_ok), released) == (Guard::Done {
            outcome: outcome_of(operation_ok, released),
        }),
        outcome_of(operation_ok, released) == Outcome::Success <==> operation_ok && released,
{
}

/// What an answer to the history menu asks for.
#[derive(Clone, Copy, Debug, PartialEq, Eq, Structural)]
pub enum MenuChoice {
    /// Nothing: the menu is left.
    Cancel,
    /// The whole list.
    Full,
    /// The file at this index of the list.
    Open(usize),
    /// Neither: the question is put again.
    Invalid,
}

/// What the answer `text` asks for when `count` files are listed: nothing
/// where it is empty, the whole list for `full`, a file where it is the
/// decimal index of one.
pub open spec fn choice_of(text: Seq<char>, count: int) -> MenuChoice {
    if text.len() == 0 {
        MenuChoice::Cancel
    } else if text == "full"@ {
        MenuChoice::Full
    } else {
        match parsed_decimal(text) {
            Some(i) => if i < count {
                MenuChoice::Open(i as usize)
            } else {
                MenuChoice::Invalid
            },
            None => MenuChoice::Invalid,
        }
    }
}

/// Reads an answer to the history menu over `count` listed files.
pub fn menu_choice(text: &str, count: usize) -> (c: MenuChoice)
    ensures
        c == choice_of(text@, count as int),
{
    if text.is_empty() {
        MenuChoice::Cancel
    } else if String::from_str(text) == String::from_str("full") {
        MenuChoice::Full
    } else {
        match parse_decimal(text) {
            Some(i) => if i < count as u64 {
                MenuChoice::Open(i as usize)
            } else {
                MenuChoice::Invalid
            },
            None => MenuChoice::Invalid,
        }
    }
}

/// How many entries of a history of `count` files are listed at first.
pub fn listing_len(count: usize) -> (n: usize)
    ensures
        n == if count < DEF_OLDFILES_LST_LEN {
            count
        } else {
            DEF_OLDFILES_LST_LEN
        },
{
    if count < DEF_OLDFILES_LST_LEN {
        count
    } else {
        DEF_OLDFILES_LST_LEN
    }
}

} // verus!
