//! Replication of the cells' databases: where their state lies, which copy an
//! activation starts from, and when a write is durable.
use vstd::prelude::*;
#[allow(unused_imports)]
use vstd::string::*;

#[allow(unused_imports)]
use crate::json;
#[allow(unused_imports)]
use crate::json::{Json, JsonView};
#[allow(unused_imports)]
use crate::text;

verus! {

/// How many cells upload at once.
pub const SYNC_CONCURRENCY: usize = 64;

/// How many objects are downloaded at once for restores.
pub const RESTORE_DOWNLOAD_CONCURRENCY: usize = 64;

/// How many objects one compaction takes in.
pub const COMPACTION_MAX_FILES: usize = 256;

/// How many bytes one compaction takes in.
pub const COMPACTION_MAX_INPUT_BYTES: u64 = 67108864;

/// How many milliseconds a failed sync waits before it is tried again.
pub const SYNC_BACKOFF_MS: u64 = 50;

/// How many milliseconds a cell waits at most between two compactions.
pub const COMPACTION_PAUSE_MAX_MS: u64 = 2000;

// ---- places --------------------------------------------------------------

/// Where an ownership epoch of a cell lies, within the cells' root.
pub open spec fn epoch_place(cell: Seq<char>, epoch: u64) -> Seq<char> {
    cell + "/ltx/e"@ + text::decimal(epoch as nat)
}

fn epoch_place_text(cell: &str, epoch: u64) -> (r: String)
    ensures
        r@ == epoch_place(cell@, epoch),
{
    let mut r = text::join(cell, "/ltx/e");
    r.append(text::decimal_text(epoch).as_str());
    r
}

/// Where a cell's database lies on disk, within the data directory.
pub fn db_path(cell: &str, epoch: u64) -> (r: String)
    ensures
        r@ == epoch_place(cell@, epoch) + "/db.sqlite"@,
{
    text::join(epoch_place_text(cell, epoch).as_str(), "/db.sqlite")
}

/// Where a cell's replica lies in the bucket.
pub fn replica_path(prefix: &str, cell: &str, epoch: u64) -> (r: String)
    ensures
        r@ == prefix@ + "cells/"@ + epoch_place(cell@, epoch),
{
    text::join3(prefix, "cells/", epoch_place_text(cell, epoch).as_str())
}

/// Where a cell's epochs are listed in the bucket.
pub fn epochs_path(prefix: &str, cell: &str) -> (r: String)
    ensures
        r@ == prefix@ + "cells/"@ + cell@ + "/ltx"@,
{
    let mut r = text::join3(prefix, "cells/", cell);
    r.append("/ltx");
    r
}

/// Where the seal of an epoch lies: beside the epoch, so that nothing that
/// lists the epoch's contents, or the epochs, takes it for one.
pub fn seal_key(prefix: &str, cell: &str, epoch: u64) -> (r: String)
    ensures
        r@ == prefix@ + "cells/"@ + epoch_place(cell@, epoch) + ".seal.json"@,
{
    text::join(replica_path(prefix, cell, epoch).as_str(), ".seal.json")
}

/// Which epoch a directory is, by its name.
pub open spec fn named_epoch(name: Seq<char>) -> Option<u64> {
    if name.len() > 0 && name[0] == 'e' {
        match text::parse_unsigned(name.skip(1)) {
            Some(n) => if n <= u64::MAX {
                Some(n as u64)
            } else {
                None
            },
            None => None,
        }
    } else {
        None
    }
}

/// Which epoch a directory is, by its name.
pub fn epoch_of_name(name: &str) -> (r: Option<u64>)
    ensures
        r == named_epoch(name@),
{
    proof {
        reveal_strlit("e");
    }
    match text::strip_prefix(name, "e") {
        Some(digits) => {
            assert(name@.subrange(0, 1)[0] == name@[0]);
            text::parse_u64(digits.as_str())
        },
        None => {
            proof {
                if name@.len() > 0 && name@[0] == 'e' {
                    assert(name@.subrange(0, 1) =~= "e"@);
                }
            }
            None
        },
    }
}

/// The highest epoch among a cell's directories: the newest copy there is.
pub fn highest_nonempty_epoch(names: &Vec<String>) -> (r: Option<u64>)
    ensures
        match r {
            Some(best) => {
                &&& exists|i: int|
                    0 <= i < names@.len() && named_epoch((#[trigger] names@[i])@) == Some(best)
                &&& forall|i: int|
                    0 <= i < names@.len() ==> match named_epoch((#[trigger] names@[i])@) {
                        Some(epoch) => epoch <= best,
                        None => true,
                    }
            },
            None => forall|i: int|
                0 <= i < names@.len() ==> named_epoch((#[trigger] names@[i])@) is None,
        },
{
    let mut best: Option<u64> = None;
    let mut i: usize = 0;
    while i < names.len()
        invariant
            i <= names@.len(),
            match best {
                Some(best) => {
                    &&& exists|k: int|
                        0 <= k < i && named_epoch((#[trigger] names@[k])@) == Some(best)
                    &&& forall|k: int|
                        0 <= k < i ==> match named_epoch((#[trigger] names@[k])@) {
                            Some(epoch) => epoch <= best,
                            None => true,
                        }
                },
                None => forall|k: int|
                    0 <= k < i ==> named_epoch((#[trigger] names@[k])@) is None,
            },
        decreases names.len() - i,
    {
        if let Some(epoch) = epoch_of_name(names[i].as_str()) {
            let higher = match best {
                Some(current) => epoch > current,
                None => true,
            };
            if higher {
                best = Some(epoch);
                assert(named_epoch(names@[i as int]@) == Some(epoch));
            }
        }
        i = i + 1;
    }
    best
}

// ---- the seal ------------------------------------------------------------

/// What the bucket answered to a reading of a seal.
pub enum SealRead {
    /// The seal; or why it does not read as one.
    Found(Result<u64, String>),
    Missing,
    Failed(String),
}

/// What the bucket answered to the creation of a seal.
pub enum SealWrite {
    Created,
    /// Another activation sealed first.
    AlreadyExists,
    Failed(String),
}

/// A seal: the write through which every restore of its epoch reads, and the
/// epoch whose activation set it.
#[derive(Clone, Copy, Debug, PartialEq, Eq, Structural)]
pub struct EpochSeal {
    pub max_txid: u64,
    pub sealed_by_epoch: u64,
}

impl EpochSeal {
    pub open spec fn document(self) -> JsonView {
        JsonView::Object(
            seq![
                ("max_txid"@, json::number(self.max_txid as int)),
                ("sealed_by_epoch"@, json::number(self.sealed_by_epoch as int)),
            ],
        )
    }

    /// The document that lies in the bucket.
    pub fn text(&self) -> (r: String)
        ensures
            r@ == json::printed_json(self.document()),
    {
        let mut members = json::Members::new();
        members.put("max_txid", json::unsigned(self.max_txid));
        members.put("sealed_by_epoch", json::unsigned(self.sealed_by_epoch));
        let document = members.object();
        assert(document@->Object_0 =~= self.document()->Object_0);
        json::json_text(&document)
    }
}

/// What is to be done about a seal.
pub enum SealStep {
    /// The newest write of the epoch is looked up.
    Plan,
    /// The seal is created.
    Create(EpochSeal),
    /// The seal is read again.
    Reread,
    /// The write through which every restore of the epoch reads; or the error.
    Answer(Result<u64, String>),
}

/// An error's words: what was done, to which epoch, and why it failed.
pub open spec fn seal_words(
    what: Seq<char>,
    cell: Seq<char>,
    from: u64,
    why: Seq<char>,
) -> Seq<char> {
    what + cell + " e"@ + text::decimal(from as nat) + ": "@ + why
}

fn seal_error(what: &str, cell: &str, from: u64, why: &str) -> (r: String)
    ensures
        r@ == seal_words(what@, cell@, from, why@),
{
    let mut r = text::join3(what, cell, " e");
    r.append(text::decimal_text(from).as_str());
    r.append(": ");
    r.append(why);
    r
}

/// The greatest of several numbers.
pub open spec fn is_greatest(n: u64, items: Seq<u64>) -> bool {
    items.contains(n) && forall|i: int| 0 <= i < items.len() ==> #[trigger] items[i] <= n
}

/// Takes in the first reading of an epoch's seal.
pub fn seal_read(cell: &str, from: u64, read: SealRead) -> (r: SealStep)
    ensures
        match read {
            SealRead::Found(seal) => r == SealStep::Answer(seal),
            SealRead::Missing => r is Plan,
            SealRead::Failed(why) => r matches SealStep::Answer(Err(error)) && error@ == seal_words(
                "read seal for "@,
                cell@,
                from,
                why@,
            ),
        },
{
    match read {
        SealRead::Found(seal) => SealStep::Answer(seal),
        SealRead::Missing => SealStep::Plan,
        SealRead::Failed(why) => SealStep::Answer(
            Err(seal_error("read seal for ", cell, from, why.as_str())),
        ),
    }
}

/// Takes in the writes that a restore of the epoch would read: the seal is
/// set at the newest, by the epoch that is being activated.
pub fn seal_planned(cell: &str, from: u64, by_epoch: u64, plan: Result<Vec<u64>, String>) -> (r:
    SealStep)
    ensures
        match plan {
            Err(why) => r matches SealStep::Answer(Err(error)) && error@ == seal_words(
                "plan seal for "@,
                cell@,
                from,
                why@,
            ),
            Ok(writes) => if writes@.len() == 0 {
                r matches SealStep::Answer(Err(error)) && error@ == "seal target "@ + cell@ + " e"@
                    + text::decimal(from as nat) + " is empty"@
            } else {
                r matches SealStep::Create(seal) && is_greatest(seal.max_txid, writes@)
                    && seal.sealed_by_epoch == by_epoch
            },
        },
{
    let writes = match plan {
        Ok(writes) => writes,
        Err(why) => {
            return SealStep::Answer(Err(seal_error("plan seal for ", cell, from, why.as_str())));
        },
    };
    if writes.len() == 0 {
        let mut error = text::join3("seal target ", cell, " e");
        error.append(text::decimal_text(from).as_str());
        error.append(" is empty");
        return SealStep::Answer(Err(error));
    }
    let mut cap: u64 = writes[0];
    let mut i: usize = 1;
    while i < writes.len()
        invariant
            1 <= i <= writes@.len(),
            writes@.contains(cap),
            forall|k: int| 0 <= k < i ==> #[trigger] writes@[k] <= cap,
        decreases writes.len() - i,
    {
        if writes[i] > cap {
            cap = writes[i];
            assert(writes@[i as int] == cap);
        }
        i = i + 1;
    }
    SealStep::Create(EpochSeal { max_txid: cap, sealed_by_epoch: by_epoch })
}

/// Takes in the creation of the seal. The first seal stands: where another
/// activation was first, its seal is read.
pub fn seal_written(cell: &str, from: u64, seal: EpochSeal, write: SealWrite) -> (r: SealStep)
    ensures
        match write {
            SealWrite::Created => r == SealStep::Answer(Ok(seal.max_txid)),
            SealWrite::AlreadyExists => r is Reread,
            SealWrite::Failed(why) => r matches SealStep::Answer(Err(error)) && error@
                == seal_words("seal "@, cell@, from, why@),
        },
{
    match write {
        SealWrite::Created => SealStep::Answer(Ok(seal.max_txid)),
        SealWrite::AlreadyExists => SealStep::Reread,
        SealWrite::Failed(why) => SealStep::Answer(
            Err(seal_error("seal ", cell, from, why.as_str())),
        ),
    }
}

/// Takes in the second reading of the seal.
pub fn seal_reread(cell: &str, from: u64, read: Result<Result<u64, String>, String>) -> (r: Result<
    u64,
    String,
>)
    ensures
        match read {
            Ok(seal) => r == seal,
            Err(why) => r matches Err(error) && error@ == seal_words(
                "reread seal for "@,
                cell@,
                from,
                why@,
            ),
        },
{
    match read {
        Ok(seal) => seal,
        Err(why) => Err(seal_error("reread seal for ", cell, from, why.as_str())),
    }
}

/// What an activation reads through, and what the bucket holds after it, where
/// the bucket creates a seal only if there is none.
pub open spec fn sealed_at(seal: Option<u64>, cap: u64) -> u64 {
    match seal {
        Some(first) => first,
        None => cap,
    }
}

/// Every restore of an epoch reads through the same write, whatever was
/// uploaded into the epoch after the first one sealed it.
pub proof fn restores_share_one_cut(seal: Option<u64>, first: u64, later: u64)
    ensures
        sealed_at(Some(sealed_at(seal, first)), later) == sealed_at(seal, first),
{
}

// ---- restoring from the bucket -------------------------------------------

/// Where a restore from the bucket stands.
#[derive(Clone, Copy, Debug, PartialEq, Eq, Structural)]
pub enum RemoteStage {
    /// The cell's epochs are being listed.
    Listing,
    /// The seal of the newest one is being read.
    Reading { from: u64 },
    /// Its writes are being looked up.
    Planning { from: u64 },
    /// Its seal is being created.
    Creating { from: u64, seal: EpochSeal },
    /// The seal that another activation created is being read.
    Rereading { from: u64 },
    Over,
}

/// What a restore from the bucket asks for next.
pub enum RemoteStep {
    ReadSeal { from: u64 },
    Plan { from: u64 },
    Create { from: u64, seal: EpochSeal },
    Reread { from: u64 },
    /// The epoch is restored through this write, and no further.
    Restore { from: u64, cap: u64 },
    /// The bucket holds no copy.
    Nothing,
    Fail(String),
}

/// A restore of a cell's newest copy into an epoch.
pub struct RemoteRestore {
    pub cell: String,
    pub epoch: u64,
    pub stage: RemoteStage,
}

/// What becomes of a restore with a seal's step: the answer is what it reads
/// through.
pub open spec fn remote_step(from: u64, step: SealStep) -> RemoteStep {
    match step {
        SealStep::Plan => RemoteStep::Plan { from },
        SealStep::Create(seal) => RemoteStep::Create { from, seal },
        SealStep::Reread => RemoteStep::Reread { from },
        SealStep::Answer(Ok(cap)) => RemoteStep::Restore { from, cap },
        SealStep::Answer(Err(error)) => RemoteStep::Fail(error),
    }
}

/// Where a restore stands once it asked for something.
pub open spec fn stage_of(step: RemoteStep) -> RemoteStage {
    match step {
        RemoteStep::ReadSeal { from } => RemoteStage::Reading { from },
        RemoteStep::Plan { from } => RemoteStage::Planning { from },
        RemoteStep::Create { from, seal } => RemoteStage::Creating { from, seal },
        RemoteStep::Reread { from } => RemoteStage::Rereading { from },
        _ => RemoteStage::Over,
    }
}

/// Whether an epoch is the highest that one of the names names.
pub open spec fn is_newest(epoch: u64, names: Seq<String>) -> bool {
    &&& exists|i: int| 0 <= i < names.len() && named_epoch((#[trigger] names[i])@) == Some(epoch)
    &&& forall|i: int|
        0 <= i < names.len() ==> match named_epoch((#[trigger] names[i])@) {
            Some(other) => other <= epoch,
            None => true,
        }
}

impl RemoteRestore {
    pub fn begin(cell: &str, epoch: u64) -> (r: Self)
        ensures
            r.cell@ == cell@,
            r.epoch == epoch,
            r.stage == RemoteStage::Listing,
    {
        RemoteRestore { cell: String::from_str(cell), epoch, stage: RemoteStage::Listing }
    }

    fn take(&mut self, from: u64, step: SealStep) -> (r: RemoteStep)
        ensures
            r == remote_step(from, step),
            final(self).stage == stage_of(r),
            final(self).cell == old(self).cell,
            final(self).epoch == old(self).epoch,
    {
        match step {
            SealStep::Plan => {
                self.stage = RemoteStage::Planning { from };
                RemoteStep::Plan { from }
            },
            SealStep::Create(seal) => {
                self.stage = RemoteStage::Creating { from, seal };
                RemoteStep::Create { from, seal }
            },
            SealStep::Reread => {
                self.stage = RemoteStage::Rereading { from };
                RemoteStep::Reread { from }
            },
            SealStep::Answer(answer) => {
                self.stage = RemoteStage::Over;
                match answer {
                    Ok(cap) => RemoteStep::Restore { from, cap },
                    Err(error) => RemoteStep::Fail(error),
                }
            },
        }
    }

    /// Takes in the names of the epochs that the bucket holds writes of: the
    /// newest is the one to restore.
    pub fn listed(&mut self, names: &Vec<String>) -> (r: RemoteStep)
        requires
            old(self).stage == RemoteStage::Listing,
        ensures
            match r {
                RemoteStep::ReadSeal { from } => is_newest(from, names@),
                RemoteStep::Nothing => forall|i: int|
                    0 <= i < names@.len() ==> named_epoch((#[trigger] names@[i])@) is None,
                _ => false,
            },
            final(self).stage == stage_of(r),
            final(self).cell == old(self).cell,
            final(self).epoch == old(self).epoch,
    {
        match highest_nonempty_epoch(names) {
            Some(from) => {
                self.stage = RemoteStage::Reading { from };
                RemoteStep::ReadSeal { from }
            },
            None => {
                self.stage = RemoteStage::Over;
                RemoteStep::Nothing
            },
        }
    }

    /// Takes in the first reading of the seal: where there is one, it is what
    /// the restore reads through.
    pub fn read(&mut self, read: SealRead) -> (r: RemoteStep)
        requires
            old(self).stage is Reading,
        ensures
            ({
                let from = old(self).stage->Reading_from;
                match read {
                    SealRead::Found(Ok(cap)) => r == (RemoteStep::Restore { from, cap }),
                    SealRead::Found(Err(error)) => r == RemoteStep::Fail(error),
                    SealRead::Missing => r == (RemoteStep::Plan { from }),
                    SealRead::Failed(why) => r matches RemoteStep::Fail(error) && error@
                        == seal_words("read seal for "@, old(self).cell@, from, why@),
                }
            }),
            final(self).stage == stage_of(r),
            final(self).cell == old(self).cell,
            final(self).epoch == old(self).epoch,
    {
        let from: u64 = match self.stage {
            RemoteStage::Reading { from } => from,
            _ => 0,
        };
        let step = seal_read(self.cell.as_str(), from, read);
        self.take(from, step)
    }

    /// Takes in the epoch's writes: its seal is set at the newest of them.
    pub fn planned(&mut self, plan: Result<Vec<u64>, String>) -> (r: RemoteStep)
        requires
            old(self).stage is Planning,
        ensures
            ({
                let from = old(self).stage->Planning_from;
                match plan {
                    Err(why) => r matches RemoteStep::Fail(error) && error@ == seal_words(
                        "plan seal for "@,
                        old(self).cell@,
                        from,
                        why@,
                    ),
                    Ok(writes) => if writes@.len() == 0 {
                        r matches RemoteStep::Fail(error) && error@ == "seal target "@
                            + old(self).cell@ + " e"@ + text::decimal(from as nat) + " is empty"@
                    } else {
                        r matches RemoteStep::Create { from: f, seal } && f == from && is_greatest(
                            seal.max_txid,
                            writes@,
                        ) && seal.sealed_by_epoch == old(self).epoch
                    },
                }
            }),
            final(self).stage == stage_of(r),
            final(self).cell == old(self).cell,
            final(self).epoch == old(self).epoch,
    {
        let from: u64 = match self.stage {
            RemoteStage::Planning { from } => from,
            _ => 0,
        };
        let step = seal_planned(self.cell.as_str(), from, self.epoch, plan);
        self.take(from, step)
    }

    /// Takes in the creation of the seal. Nothing is read before it stands.
    pub fn written(&mut self, write: SealWrite) -> (r: RemoteStep)
        requires
            old(self).stage is Creating,
        ensures
            ({
                let from = old(self).stage->Creating_from;
                match write {
                    SealWrite::Created => r == (RemoteStep::Restore {
                        from,
                        cap: old(self).stage->Creating_seal.max_txid,
                    }),
                    SealWrite::AlreadyExists => r == (RemoteStep::Reread { from }),
                    SealWrite::Failed(why) => r matches RemoteStep::Fail(error) && error@
                        == seal_words("seal "@, old(self).cell@, from, why@),
                }
            }),
            final(self).stage == stage_of(r),
            final(self).cell == old(self).cell,
            final(self).epoch == old(self).epoch,
    {
        let (from, seal): (u64, EpochSeal) = match self.stage {
            RemoteStage::Creating { from, seal } => (from, seal),
            _ => (0, EpochSeal { max_txid: 0, sealed_by_epoch: 0 }),
        };
        let step = seal_written(self.cell.as_str(), from, seal, write);
        self.take(from, step)
    }

    /// Takes in the seal that another activation created first.
    pub fn reread(&mut self, read: Result<Result<u64, String>, String>) -> (r: RemoteStep)
        requires
            old(self).stage is Rereading,
        ensures
            ({
                let from = old(self).stage->Rereading_from;
                match read {
                    Ok(Ok(cap)) => r == (RemoteStep::Restore { from, cap }),
                    Ok(Err(error)) => r == RemoteStep::Fail(error),
                    Err(why) => r matches RemoteStep::Fail(error) && error@ == seal_words(
                        "reread seal for "@,
                        old(self).cell@,
                        from,
                        why@,
                    ),
                }
            }),
            final(self).stage == stage_of(r),
            final(self).cell == old(self).cell,
            final(self).epoch == old(self).epoch,
    {
        let from: u64 = match self.stage {
            RemoteStage::Rereading { from } => from,
            _ => 0,
        };
        let answer = seal_reread(self.cell.as_str(), from, read);
        self.take(from, SealStep::Answer(answer))
    }
}

/// Whether a restore keeps to the seal that the bucket holds.
pub open spec fn keeps_to_the_seal(step: RemoteStep, seal: Option<u64>) -> bool {
    step matches RemoteStep::Restore { cap, .. } ==> seal == Some(cap)
}

/// What a bucket that holds a seal, or none, answers to its creation, and the
/// seal that it holds then.
pub open spec fn bucket_creates(seal: Option<u64>, cap: u64) -> (SealWrite, Option<u64>) {
    match seal {
        Some(first) => (SealWrite::AlreadyExists, Some(first)),
        None => (SealWrite::Created, Some(cap)),
    }
}

/// What a bucket that holds a seal, or none, answers to its reading.
pub open spec fn bucket_reads(seal: Option<u64>) -> SealRead {
    match seal {
        Some(cap) => SealRead::Found(Ok(cap)),
        None => SealRead::Missing,
    }
}

/// A restore reads up to the seal and never past it: whichever step it comes
/// from, what it reads through is the seal that the bucket holds from then on.
pub proof fn restore_reads_to_the_seal(from: u64, seal: Option<u64>, planned: EpochSeal)
    ensures
        keeps_to_the_seal(
            match bucket_reads(seal) {
                SealRead::Found(answer) => remote_step(from, SealStep::Answer(answer)),
                _ => RemoteStep::Plan { from },
            },
            seal,
        ),
        keeps_to_the_seal(
            match bucket_creates(seal, planned.max_txid).0 {
                SealWrite::Created => remote_step(from, SealStep::Answer(Ok(planned.max_txid))),
                _ => RemoteStep::Reread { from },
            },
            bucket_creates(seal, planned.max_txid).1,
        ),
        bucket_creates(seal, planned.max_txid).1 == Some(sealed_at(seal, planned.max_txid)),
{
}

// ---- activation ----------------------------------------------------------

/// What an activation is told.
#[derive(Clone, Copy, Debug, PartialEq, Eq)]
pub struct ActivationOptions {
    pub epoch: u64,
    /// The cell is new: there is nothing to start from.
    pub fresh: bool,
    /// The files that a clean reload left are taken up again.
    pub resume_local: bool,
    /// The snapshot of the epoch before may be taken.
    pub previous_reusable: bool,
}

/// Which of a cell's files are on disk.
#[derive(Clone, Copy, Debug, PartialEq, Eq)]
pub struct LocalFiles {
    pub database: bool,
    pub evicted: bool,
    pub hibernated: bool,
    pub previous_evicted: bool,
    pub previous_hibernated: bool,
}

/// A snapshot that an eviction kept.
#[derive(Clone, Copy, Debug, PartialEq, Eq, Structural)]
pub struct KeptSnapshot {
    /// The epoch that it is of.
    pub epoch: u64,
    /// It has the name that earlier releases gave it.
    pub legacy: bool,
}

/// What an activation starts from.
pub enum ActivationStart {
    /// The files that are there.
    Resume,
    /// A snapshot that an eviction kept.
    Snapshot(KeptSnapshot),
    /// The newest copy in the bucket, if there is one.
    Remote(RemoteRestore),
    /// Nothing.
    Empty,
}

/// The snapshot that an activation may take: of its own epoch first, then of
/// the epoch before, and the newer name before the older.
pub open spec fn kept_snapshot(options: ActivationOptions, files: LocalFiles) -> Option<
    KeptSnapshot,
> {
    if options.fresh || options.resume_local {
        None
    } else if files.evicted {
        Some(KeptSnapshot { epoch: options.epoch, legacy: false })
    } else if files.hibernated {
        Some(KeptSnapshot { epoch: options.epoch, legacy: true })
    } else if !options.previous_reusable {
        None
    } else if files.previous_evicted {
        Some(KeptSnapshot { epoch: (options.epoch - 1) as u64, legacy: false })
    } else if files.previous_hibernated {
        Some(KeptSnapshot { epoch: (options.epoch - 1) as u64, legacy: true })
    } else {
        None
    }
}

/// Decides what an activation starts from.
pub fn activate(cell: &str, options: ActivationOptions, files: LocalFiles, database: &str) -> (r:
    Result<ActivationStart, String>)
    requires
        options.previous_reusable ==> options.epoch > 0,
    ensures
        if options.resume_local {
            if files.database {
                r matches Ok(ActivationStart::Resume)
            } else {
                r matches Err(error) && error@ == "clean reload database is missing: "@ + database@
            }
        } else {
            match kept_snapshot(options, files) {
                Some(snapshot) => r == Ok::<ActivationStart, String>(
                    ActivationStart::Snapshot(snapshot),
                ),
                None => if options.fresh {
                    r matches Ok(ActivationStart::Empty)
                } else {
                    r matches Ok(ActivationStart::Remote(restore)) && restore.cell@ == cell@
                        && restore.epoch == options.epoch && restore.stage == RemoteStage::Listing
                },
            }
        },
{
    if options.resume_local {
        return if files.database {
            Ok(ActivationStart::Resume)
        } else {
            Err(text::join("clean reload database is missing: ", database))
        };
    }
    if options.fresh {
        return Ok(ActivationStart::Empty);
    }
    if files.evicted {
        return Ok(ActivationStart::Snapshot(KeptSnapshot { epoch: options.epoch, legacy: false }));
    }
    if files.hibernated {
        return Ok(ActivationStart::Snapshot(KeptSnapshot { epoch: options.epoch, legacy: true }));
    }
    if options.previous_reusable {
        if files.previous_evicted {
            return Ok(ActivationStart::Snapshot(KeptSnapshot { epoch: options.epoch - 1, legacy: false }));
        }
        if files.previous_hibernated {
            return Ok(ActivationStart::Snapshot(KeptSnapshot { epoch: options.epoch - 1, legacy: true }));
        }
    }
    Ok(ActivationStart::Remote(RemoteRestore::begin(cell, options.epoch)))
}

impl ActivationStart {
    /// Whether the cell has the state it had before. `remote` is whether the
    /// bucket holds a copy.
    pub fn restored(&self, remote: bool) -> (r: bool)
        ensures
            r == (match *self {
                ActivationStart::Resume => true,
                ActivationStart::Snapshot(_) => true,
                ActivationStart::Remote(_) => remote,
                ActivationStart::Empty => false,
            }),
    {
        match self {
            ActivationStart::Resume => true,
            ActivationStart::Snapshot(_) => true,
            ActivationStart::Remote(_) => remote,
            ActivationStart::Empty => false,
        }
    }
}

/// Where a kept snapshot lies, within the data directory. Its epoch is the one
/// that was kept.
pub fn snapshot_path(cell: &str, epoch: u64, legacy: bool) -> (r: String)
    ensures
        r@ == epoch_place(cell@, epoch) + (if legacy {
            "/db.hibernated"@
        } else {
            "/db.evicted"@
        }),
{
    text::join(
        epoch_place_text(cell, epoch).as_str(),
        if legacy {
            "/db.hibernated"
        } else {
            "/db.evicted"
        },
    )
}

/// The error of a restore that failed.
pub fn restore_error(cell: &str, from: u64, cap: u64, why: &str) -> (r: String)
    ensures
        r@ == "restore "@ + cell@ + " e"@ + text::decimal(from as nat) + "@"@ + text::decimal(
            cap as nat,
        ) + ": "@ + why@,
{
    let mut r = text::join3("restore ", cell, " e");
    r.append(text::decimal_text(from).as_str());
    r.append("@");
    r.append(text::decimal_text(cap).as_str());
    r.append(": ");
    r.append(why);
    r
}

/// A cell that took its place from another node starts from no snapshot of an
/// earlier epoch of its own.
pub proof fn taken_cell_reuses_no_older_snapshot(options: ActivationOptions, files: LocalFiles)
    requires
        !options.previous_reusable,
    ensures
        kept_snapshot(options, files) matches Some(snapshot) ==> snapshot.epoch == options.epoch,
{
}

// ---- durability ----------------------------------------------------------

/// The compaction of one cell's uploads.
#[derive(Clone, Copy, Debug, PartialEq, Eq)]
pub struct CellCompaction {
    pub min_txids: u64,
    pub compacted_txid: u64,
    pub queued: bool,
    pub cancelled: bool,
}

/// What is known of one resident cell's uploads: the last ticket that a write
/// took, the last ticket that an upload covered, and the last uploaded write.
#[derive(Clone, Copy, Debug, PartialEq, Eq)]
pub struct CellSync {
    pub req_seq: u64,
    pub synced_seq: u64,
    pub durable_txid: u64,
    pub syncing: bool,
    pub compaction: Option<CellCompaction>,
}

/// What becomes of a cell once an upload is over.
#[derive(Clone, Copy, Debug, PartialEq, Eq, Structural)]
pub enum AfterSync {
    /// The cell is clean, and its upload task ends.
    Rest,
    /// The cell is dirty again, and uploads at once.
    Again,
    /// The upload failed, and is tried again after a while.
    BackOff,
}

/// How a compaction ended.
#[derive(Clone, Copy, Debug, PartialEq, Eq)]
pub enum CompactionOutcome {
    /// Everything up to this write was compacted.
    Compacted(u64),
    /// There was nothing to compact.
    NoWork,
    Failed,
    Cancelled,
}

impl CellCompaction {
    /// Whether a compaction is due for an uploaded write.
    pub open spec fn due(self, durable_txid: u64) -> bool {
        &&& !self.cancelled
        &&& !self.queued
        &&& (if durable_txid < self.compacted_txid {
            0
        } else {
            durable_txid - self.compacted_txid
        }) >= self.min_txids
    }
}

impl CellSync {
    /// No upload covers a ticket that no write took.
    pub open spec fn wf(self) -> bool {
        self.synced_seq <= self.req_seq
    }

    /// Whether a compaction is due for an uploaded write.
    pub open spec fn compaction_due(self, durable_txid: u64) -> bool {
        match self.compaction {
            Some(compaction) => compaction.due(durable_txid),
            None => false,
        }
    }

    /// The cell with its compaction in the queue, where one is due.
    pub open spec fn with_queued(self, durable_txid: u64) -> Self {
        match self.compaction {
            Some(compaction) => if compaction.due(durable_txid) {
                CellSync {
                    compaction: Some(CellCompaction { queued: true, ..compaction }),
                    ..self
                }
            } else {
                self
            },
            None => self,
        }
    }

    /// The cell after an upload that began when `captured` was the last ticket
    /// came to cover `durable_txid`.
    pub open spec fn synced(self, captured: u64, durable_txid: u64) -> Self {
        (CellSync {
            synced_seq: if captured > self.synced_seq {
                captured
            } else {
                self.synced_seq
            },
            durable_txid,
            ..self
        }).with_queued(durable_txid)
    }

    /// A cell that was just activated. `seed` is the position its database was
    /// opened at. A compaction may be due at once.
    pub fn activated(seed: Option<u64>, compaction_min_txids: Option<u64>) -> (r: (Self, bool))
        ensures
            ({
                let start = CellSync {
                    req_seq: 0,
                    synced_seq: 0,
                    durable_txid: match seed {
                        Some(txid) => txid,
                        None => 0,
                    },
                    syncing: false,
                    compaction: match compaction_min_txids {
                        Some(min_txids) => Some(
                            CellCompaction {
                                min_txids,
                                compacted_txid: 0,
                                queued: false,
                                cancelled: false,
                            },
                        ),
                        None => None,
                    },
                };
                match seed {
                    Some(txid) => r == (start.with_queued(txid), start.compaction_due(txid)),
                    None => r == (start, false),
                }
            }),
            r.0.wf(),
    {
        let compaction = match compaction_min_txids {
            Some(min_txids) => Some(
                CellCompaction { min_txids, compacted_txid: 0, queued: false, cancelled: false },
            ),
            None => None,
        };
        let durable_txid: u64 = match seed {
            Some(txid) => txid,
            None => 0,
        };
        let mut cell = CellSync {
            req_seq: 0,
            synced_seq: 0,
            durable_txid,
            syncing: false,
            compaction,
        };
        let due = match seed {
            Some(txid) => cell.maybe_queue_compaction(txid),
            None => false,
        };
        (cell, due)
    }

    /// Takes a ticket for a write that was committed.
    pub fn take_ticket(&mut self) -> (r: u64)
        requires
            old(self).wf(),
            old(self).req_seq < u64::MAX,
        ensures
            r == old(self).req_seq + 1,
            *final(self) == (CellSync { req_seq: r, ..*old(self) }),
            final(self).wf(),
    {
        self.req_seq = self.req_seq + 1;
        self.req_seq
    }

    /// Whether an upload covered a ticket.
    pub open spec fn covers(self, ticket: u64) -> bool {
        self.synced_seq >= ticket
    }

    /// Whether an upload covered a ticket.
    pub fn is_durable(&self, ticket: u64) -> (r: bool)
        ensures
            r == self.covers(ticket),
    {
        self.synced_seq >= ticket
    }

    /// Whether a write waits for an upload.
    pub fn is_dirty(&self) -> (r: bool)
        ensures
            r == (self.req_seq > self.synced_seq),
    {
        self.req_seq > self.synced_seq
    }

    /// Claims a dirty cell for an upload task, unless one has it.
    pub fn claim(&mut self) -> (r: bool)
        ensures
            r == (old(self).req_seq > old(self).synced_seq && !old(self).syncing),
            *final(self) == (if r {
                CellSync { syncing: true, ..*old(self) }
            } else {
                *old(self)
            }),
    {
        if self.req_seq > self.synced_seq && !self.syncing {
            self.syncing = true;
            true
        } else {
            false
        }
    }

    /// The last ticket that an upload which begins now will cover.
    pub fn begin_sync(&self) -> (r: u64)
        ensures
            r == self.req_seq,
    {
        self.req_seq
    }

    /// Takes in that an upload is over: the position it reached, or that it
    /// failed. Answers whether a compaction is due.
    pub fn finish_sync(&mut self, captured: u64, durable_txid: Option<u64>) -> (r: bool)
        requires
            old(self).wf(),
            captured <= old(self).req_seq,
        ensures
            match durable_txid {
                Some(txid) => *final(self) == old(self).synced(captured, txid) && r == old(
                    self,
                ).compaction_due(txid),
                None => *final(self) == *old(self) && !r,
            },
            final(self).wf(),
    {
        match durable_txid {
            None => false,
            Some(txid) => {
                if captured > self.synced_seq {
                    self.synced_seq = captured;
                }
                self.durable_txid = txid;
                self.maybe_queue_compaction(txid)
            },
        }
    }

    /// What the cell's upload task does next.
    pub open spec fn next_upload(self, succeeded: bool) -> AfterSync {
        if self.covers(self.req_seq) {
            AfterSync::Rest
        } else if succeeded {
            AfterSync::Again
        } else {
            AfterSync::BackOff
        }
    }

    /// The cell after a compaction was over.
    pub open spec fn compacted(self, outcome: CompactionOutcome) -> Self {
        match self.compaction {
            None => self,
            Some(compaction) => CellSync {
                compaction: Some(
                    CellCompaction {
                        compacted_txid: match outcome {
                            CompactionOutcome::Compacted(txid) => txid,
                            CompactionOutcome::NoWork => self.durable_txid,
                            _ => compaction.compacted_txid,
                        },
                        queued: false,
                        ..compaction
                    },
                ),
                ..self
            },
        }
    }

    /// What the cell's upload task does next.
    pub fn after_sync(&self, succeeded: bool) -> (r: AfterSync)
        ensures
            r == self.next_upload(succeeded),
            r == (if self.req_seq <= self.synced_seq {
                AfterSync::Rest
            } else if succeeded {
                AfterSync::Again
            } else {
                AfterSync::BackOff
            }),
    {
        if self.req_seq <= self.synced_seq {
            AfterSync::Rest
        } else if succeeded {
            AfterSync::Again
        } else {
            AfterSync::BackOff
        }
    }

    /// Takes in that the cell's upload task ends. Answers whether a write came
    /// meanwhile.
    pub fn release(&mut self) -> (r: bool)
        ensures
            *final(self) == (CellSync { syncing: false, ..*old(self) }),
            r == (old(self).req_seq > old(self).synced_seq),
    {
        self.syncing = false;
        self.req_seq > self.synced_seq
    }

    /// Puts the cell's compaction in the queue, where one is due.
    pub fn maybe_queue_compaction(&mut self, durable_txid: u64) -> (r: bool)
        ensures
            r == old(self).compaction_due(durable_txid),
            *final(self) == old(self).with_queued(durable_txid),
    {
        if let Some(compaction) = self.compaction {
            if !compaction.cancelled && !compaction.queued && durable_txid.saturating_sub(
                compaction.compacted_txid,
            ) >= compaction.min_txids {
                self.compaction = Some(CellCompaction { queued: true, ..compaction });
                return true;
            }
        }
        false
    }

    /// Takes in that the queue is gone.
    pub fn queue_refused(&mut self)
        ensures
            *final(self) == (match old(self).compaction {
                Some(compaction) => CellSync {
                    compaction: Some(CellCompaction { queued: false, ..compaction }),
                    ..*old(self)
                },
                None => *old(self),
            }),
    {
        if let Some(compaction) = self.compaction {
            self.compaction = Some(CellCompaction { queued: false, ..compaction });
        }
    }

    /// Stops the cell's compactions for good.
    pub fn cancel_compaction(&mut self)
        ensures
            *final(self) == (match old(self).compaction {
                Some(compaction) => CellSync {
                    compaction: Some(CellCompaction { cancelled: true, ..compaction }),
                    ..*old(self)
                },
                None => *old(self),
            }),
    {
        if let Some(compaction) = self.compaction {
            self.compaction = Some(CellCompaction { cancelled: true, ..compaction });
        }
    }

    /// Whether a compaction that came out of the queue runs.
    pub fn begin_compaction(&self) -> (r: bool)
        ensures
            r == (self.compaction matches Some(compaction) && !compaction.cancelled),
    {
        match self.compaction {
            Some(compaction) => !compaction.cancelled,
            None => false,
        }
    }

    /// Takes in that a compaction is over. Answers whether the next one is
    /// asked about after a pause.
    pub fn compact_cell(&mut self, outcome: CompactionOutcome) -> (r: bool)
        ensures
            *final(self) == old(self).compacted(outcome),
            match old(self).compaction {
                None => !r && *final(self) == *old(self),
                Some(compaction) => {
                    let through = match outcome {
                        CompactionOutcome::Compacted(txid) => txid,
                        CompactionOutcome::NoWork => old(self).durable_txid,
                        _ => compaction.compacted_txid,
                    };
                    &&& *final(self) == (CellSync {
                        compaction: Some(
                            CellCompaction {
                                compacted_txid: through,
                                queued: false,
                                ..compaction
                            },
                        ),
                        ..*old(self)
                    })
                    &&& r == (!compaction.cancelled && (outcome is Compacted || outcome is NoWork))
                },
            },
    {
        match self.compaction {
            None => false,
            Some(compaction) => {
                let (through, completed): (u64, bool) = match outcome {
                    CompactionOutcome::Compacted(txid) => (txid, true),
                    CompactionOutcome::NoWork => (self.durable_txid, true),
                    CompactionOutcome::Failed => (compaction.compacted_txid, false),
                    CompactionOutcome::Cancelled => (compaction.compacted_txid, false),
                };
                self.compaction = Some(
                    CellCompaction { compacted_txid: through, queued: false, ..compaction },
                );
                completed && !compaction.cancelled
            },
        }
    }
}

/// How long the pause between two compactions of a cell is: as long as the
/// first took, two seconds at most.
pub fn compaction_pause_ms(elapsed_ms: u64) -> (r: u64)
    ensures
        r == (if elapsed_ms < COMPACTION_PAUSE_MAX_MS {
            elapsed_ms
        } else {
            COMPACTION_PAUSE_MAX_MS
        }),
{
    if elapsed_ms < COMPACTION_PAUSE_MAX_MS {
        elapsed_ms
    } else {
        COMPACTION_PAUSE_MAX_MS
    }
}

fn cell_epoch_error(what: &str, cell: &str, epoch: u64) -> (r: String)
    ensures
        r@ == what@ + cell@ + " epoch "@ + text::decimal(epoch as nat),
{
    let mut r = text::join3(what, cell, " epoch ");
    r.append(text::decimal_text(epoch).as_str());
    r
}

/// Takes a ticket for a write that was committed to a cell, where the cell is
/// resident.
pub fn await_durable(cell: &str, epoch: u64, resident: Option<CellSync>) -> (r: Result<
    (u64, CellSync),
    String,
>)
    requires
        resident matches Some(sync) ==> sync.wf() && sync.req_seq < u64::MAX,
    ensures
        match resident {
            None => r matches Err(error) && error@ == "ltx cell not resident: "@ + cell@
                + " epoch "@ + text::decimal(epoch as nat),
            Some(sync) => r matches Ok((ticket, after)) && ticket == sync.req_seq + 1 && after == (
            CellSync { req_seq: ticket, ..sync }) && !after.covers(ticket),
        },
{
    match resident {
        None => Err(cell_epoch_error("ltx cell not resident: ", cell, epoch)),
        Some(sync) => {
            let mut sync = sync;
            let ticket = sync.take_ticket();
            Ok((ticket, sync))
        },
    }
}

/// What a wait for a ticket comes to: the position that was written, once an
/// upload covers the ticket; the error, once the time is over.
pub fn durability_answer(
    sync: &CellSync,
    ticket: u64,
    position: u64,
    timed_out: bool,
    cell: &str,
    epoch: u64,
) -> (r: Option<Result<u64, String>>)
    ensures
        if sync.covers(ticket) {
            r == Some(Ok::<u64, String>(position))
        } else if timed_out {
            r matches Some(Err(error)) && error@ == "ltx durability timed out for "@ + cell@
                + " epoch "@ + text::decimal(epoch as nat)
        } else {
            r is None
        },
{
    if sync.is_durable(ticket) {
        Some(Ok(position))
    } else if timed_out {
        Some(Err(cell_epoch_error("ltx durability timed out for ", cell, epoch)))
    } else {
        None
    }
}

/// What a direct pass over a cell came to.
#[derive(Clone, Copy, Debug, PartialEq, Eq, Structural)]
pub enum SyncWait {
    /// The cell is not resident, or has no database any more.
    Unsupported,
    Durable,
    Failed,
}

/// What a direct pass over a cell came to.
pub fn sync_wait(outcome: Option<bool>) -> (r: SyncWait)
    ensures
        r == (match outcome {
            Some(true) => SyncWait::Durable,
            Some(false) => SyncWait::Failed,
            None => SyncWait::Unsupported,
        }),
{
    match outcome {
        Some(succeeded) => if succeeded {
            SyncWait::Durable
        } else {
            SyncWait::Failed
        },
        None => SyncWait::Unsupported,
    }
}

/// An upload covers the tickets that were taken before it began, and no other:
/// a write that came while it ran waits for the next.
pub proof fn upload_covers_what_it_captured(sync: CellSync, captured: u64, txid: u64, ticket: u64)
    requires
        sync.wf(),
        captured <= sync.req_seq,
        !sync.covers(ticket),
    ensures
        sync.synced(captured, txid).covers(ticket) <==> ticket <= captured,
{
}

/// A write that is durable stays durable, whatever uploads follow.
pub proof fn durable_stays_durable(sync: CellSync, captured: u64, txid: u64, ticket: u64)
    requires
        sync.covers(ticket),
    ensures
        sync.synced(captured, txid).covers(ticket),
{
}

/// A cell has one compaction in the queue at a time, and none once its
/// compactions were stopped.
pub proof fn one_compaction_at_a_time(sync: CellSync, first: u64, second: u64)
    requires
        sync.compaction_due(first),
    ensures
        !sync.with_queued(first).compaction_due(second),
        sync.compaction matches Some(compaction) && !(CellSync {
            compaction: Some(CellCompaction { cancelled: true, ..compaction }),
            ..sync
        }).compaction_due(second),
{
}

// ---- eviction ------------------------------------------------------------

/// One step of taking a cell's files away.
#[derive(Clone, Copy, Debug, PartialEq, Eq, Structural)]
pub enum EvictStep {
    /// The database is kept as a snapshot.
    KeepSnapshot,
    RemoveWal,
    RemoveShm,
    RemoveMeta,
    RemoveDatabase,
}

/// What becomes of a cell's files when it is evicted.
pub open spec fn evict_steps(preserve_local: bool) -> Seq<EvictStep> {
    if preserve_local {
        seq![
            EvictStep::KeepSnapshot,
            EvictStep::RemoveWal,
            EvictStep::RemoveShm,
            EvictStep::RemoveMeta,
        ]
    } else {
        seq![
            EvictStep::RemoveWal,
            EvictStep::RemoveShm,
            EvictStep::RemoveMeta,
            EvictStep::RemoveDatabase,
        ]
    }
}

/// What becomes of a cell's files when it is evicted.
pub fn evict(preserve_local: bool) -> (r: Vec<EvictStep>)
    ensures
        r@ == evict_steps(preserve_local),
{
    let mut steps: Vec<EvictStep> = Vec::new();
    if preserve_local {
        steps.push(EvictStep::KeepSnapshot);
    }
    steps.push(EvictStep::RemoveWal);
    steps.push(EvictStep::RemoveShm);
    steps.push(EvictStep::RemoveMeta);
    if !preserve_local {
        steps.push(EvictStep::RemoveDatabase);
    }
    assert(steps@ =~= evict_steps(preserve_local));
    steps
}

/// Whether a resident cell's database is where a reload takes it up.
pub fn close_for_reload(database: &str, present: bool) -> (r: Result<(), String>)
    ensures
        r is Ok <==> present,
        r matches Err(error) ==> error@ == "resident database is missing: "@ + database@,
{
    if present {
        Ok(())
    } else {
        Err(text::join("resident database is missing: ", database))
    }
}

// ---- local cells ---------------------------------------------------------

/// A cell's database on disk.
pub struct LocalCell {
    pub id: String,
    pub epoch: u64,
}

pub type LocalCellView = (Seq<char>, u64);

impl View for LocalCell {
    type V = LocalCellView;

    open spec fn view(&self) -> LocalCellView {
        (self.id@, self.epoch)
    }
}

pub open spec fn cell_views(cells: Seq<LocalCell>) -> Seq<LocalCellView> {
    cells.map_values(|c: LocalCell| c@)
}

/// The order of cells: by id, then by epoch.
pub open spec fn cell_less(a: LocalCellView, b: LocalCellView) -> bool {
    text::text_less(a.0, b.0) || (a.0 == b.0 && a.1 < b.1)
}

pub open spec fn ascending_cells(cells: Seq<LocalCell>) -> bool {
    forall|i: int, j: int|
        0 <= i < j < cells.len() ==> cell_less((#[trigger] cells[i])@, (#[trigger] cells[j])@)
}

proof fn lemma_cell_less(a: LocalCellView, b: LocalCellView, c: LocalCellView)
    ensures
        cell_less(a, b) && cell_less(b, c) ==> cell_less(a, c),
        !cell_less(a, a),
        a == b || cell_less(a, b) || cell_less(b, a),
{
    if text::text_less(a.0, b.0) && text::text_less(b.0, c.0) {
        text::text_less_transitive(a.0, b.0, c.0);
    }
    text::text_less_irreflexive(a.0);
    text::text_less_total(a.0, b.0);
}

fn before(a: &LocalCell, b: &LocalCell) -> (r: bool)
    ensures
        r == cell_less(a@, b@),
{
    text::less(a.id.as_str(), b.id.as_str()) || (text::same(a.id.as_str(), b.id.as_str())
        && a.epoch < b.epoch)
}

/// Puts a cell in its place among others in order; one that is there already
/// stays single.
fn insert_cell(cells: &mut Vec<LocalCell>, cell: LocalCell)
    requires
        ascending_cells(old(cells)@),
    ensures
        ascending_cells(final(cells)@),
        cell_views(final(cells)@).to_set() == cell_views(old(cells)@).to_set().insert(cell@),
{
    let mut p: usize = 0;
    while p < cells.len() && before(&cells[p], &cell)
        invariant
            p <= cells@.len(),
            forall|k: int| 0 <= k < p ==> cell_less((#[trigger] cells@[k])@, cell@),
        decreases cells.len() - p,
    {
        p = p + 1;
    }
    let ghost was = cells@;
    let ghost all = cell_views(was);
    if p < cells.len() && !before(&cell, &cells[p]) {
        proof {
            lemma_cell_less(cell@, was[p as int]@, cell@);
            assert(all[p as int] == cell@);
            assert(all.to_set().insert(cell@) =~= all.to_set());
        }
        return;
    }
    proof {
        assert forall|k: int| p <= k < was.len() implies cell_less(
            cell@,
            (#[trigger] was[k])@,
        ) by {
            if k > p {
                assert(cell_less(was[p as int]@, was[k]@));
                lemma_cell_less(cell@, was[p as int]@, was[k]@);
            }
        }
    }
    cells.insert(p, cell);
    proof {
        let now = cells@;
        assert(now =~= was.insert(p as int, cell));
        assert forall|i: int, j: int| 0 <= i < j < now.len() implies cell_less(
            (#[trigger] now[i])@,
            (#[trigger] now[j])@,
        ) by {
            let i0 = if i < p {
                i
            } else {
                i - 1
            };
            let j0 = if j < p {
                j
            } else {
                j - 1
            };
            if i != p && j != p {
                assert(now[i] == was[i0] && now[j] == was[j0]);
            } else if i == p {
                assert(now[j] == was[j0]);
            } else {
                assert(now[i] == was[i0]);
            }
        }
        let views = cell_views(now);
        assert forall|c: LocalCellView| views.to_set().contains(c) <==> all.to_set().insert(
            cell@,
        ).contains(c) by {
            if views.to_set().contains(c) {
                let k = choose|k: int| 0 <= k < views.len() && views[k] == c;
                if k < p {
                    assert(all[k] == c);
                } else if k > p {
                    assert(all[k - 1] == c);
                }
            }
            if all.to_set().contains(c) {
                let k = choose|k: int| 0 <= k < all.len() && all[k] == c;
                if k < p {
                    assert(views[k] == c);
                } else {
                    assert(views[k + 1] == c);
                }
            }
            assert(views[p as int] == cell@);
        }
        assert(views.to_set() =~= all.to_set().insert(cell@));
    }
}

/// The cells' databases on disk, each once, in order.
pub fn local_cells(found: Vec<LocalCell>) -> (r: Vec<LocalCell>)
    ensures
        ascending_cells(r@),
        cell_views(r@).to_set() == cell_views(found@).to_set(),
{
    let ghost given = found@;
    let ghost all = cell_views(given);
    let mut r: Vec<LocalCell> = Vec::new();
    assert(cell_views(r@).to_set() =~= all.take(0).to_set());
    for cell in iter: found
        invariant
            iter.seq() == given,
            all == cell_views(given),
            ascending_cells(r@),
            cell_views(r@).to_set() == all.take(iter.index() as int).to_set(),
    {
        let ghost i = iter.index() as int;
        let ghost was = cell_views(r@).to_set();
        assert(cell == given[i]);
        insert_cell(&mut r, cell);
        proof {
            let now = all.take(i + 1);
            let before = all.take(i);
            assert(now =~= before.push(all[i]));
            assert forall|c: LocalCellView| now.to_set().contains(c)
                <==> before.to_set().insert(all[i]).contains(c) by {
                if now.to_set().contains(c) {
                    let k = choose|k: int| 0 <= k < now.len() && now[k] == c;
                    if k < i {
                        assert(before[k] == c);
                    }
                }
                if before.to_set().contains(c) {
                    let k = choose|k: int| 0 <= k < before.len() && before[k] == c;
                    assert(now[k] == c);
                }
                assert(now[i] == all[i]);
            }
            assert(now.to_set() =~= before.to_set().insert(all[i]));
        }
    }
    assert(all.take(all.len() as int) =~= all);
    r
}

fn is_kept(keep: &Vec<LocalCell>, cell: &LocalCell) -> (r: bool)
    ensures
        r == cell_views(keep@).contains(cell@),
{
    let mut i: usize = 0;
    while i < keep.len()
        invariant
            i <= keep@.len(),
            forall|k: int| 0 <= k < i ==> (#[trigger] keep@[k])@ != cell@,
        decreases keep.len() - i,
    {
        if keep[i].epoch == cell.epoch && text::same(keep[i].id.as_str(), cell.id.as_str()) {
            assert(cell_views(keep@)[i as int] == cell@);
            return true;
        }
        i = i + 1;
    }
    proof {
        if cell_views(keep@).contains(cell@) {
            let k = choose|k: int|
                0 <= k < cell_views(keep@).len() && cell_views(keep@)[k] == cell@;
            assert(keep@[k]@ == cell@);
        }
    }
    false
}

/// The databases on disk that no resident cell has: they are stale.
pub fn stale_cells(local: Vec<LocalCell>, keep: &Vec<LocalCell>) -> (r: Vec<LocalCell>)
    ensures
        r@ == local@.filter(|c: LocalCell| !cell_views(keep@).contains(c@)),
{
    let ghost given = local@;
    let ghost stale = |c: LocalCell| !cell_views(keep@).contains(c@);
    let mut r: Vec<LocalCell> = Vec::new();
    proof {
        reveal(Seq::filter);
        assert(given.take(0) =~= Seq::<LocalCell>::empty());
    }
    for cell in iter: local
        invariant
            iter.seq() == given,
            stale == (|c: LocalCell| !cell_views(keep@).contains(c@)),
            r@ == given.take(iter.index() as int).filter(stale),
    {
        let ghost i = iter.index() as int;
        proof {
            reveal(Seq::filter);
            assert(given.take(i + 1).drop_last() =~= given.take(i));
            assert(given.take(i + 1).last() == given[i]);
        }
        if !is_kept(keep, &cell) {
            r.push(cell);
        }
    }
    assert(given.take(given.len() as int) =~= given);
    r
}

/// Whether exactly the resident cells' databases are left after stale ones
/// went. Both lists are in order.
pub fn check_inventory(keep: &Vec<LocalCell>, remaining: &Vec<LocalCell>) -> (r: Result<
    (),
    String,
>)
    ensures
        if cell_views(keep@) == cell_views(remaining@) {
            r is Ok
        } else {
            r matches Err(error) && error@
                == "clean reload inventory mismatch after pruning: expected "@ + text::decimal(
                keep@.len(),
            ) + ", found "@ + text::decimal(remaining@.len())
        },
{
    let mut same = keep.len() == remaining.len();
    let mut i: usize = 0;
    assert(cell_views(keep@).len() == keep@.len() && cell_views(remaining@).len()
        == remaining@.len());
    while same && i < keep.len()
        invariant
            i <= keep@.len(),
            same ==> keep@.len() == remaining@.len(),
            same ==> forall|k: int| 0 <= k < i ==> (#[trigger] keep@[k])@ == remaining@[k]@,
            !same ==> cell_views(keep@) != cell_views(remaining@),
        decreases keep.len() - i,
    {
        same = keep[i].epoch == remaining[i].epoch && text::same(
            keep[i].id.as_str(),
            remaining[i].id.as_str(),
        );
        proof {
            assert(cell_views(keep@)[i as int] == keep@[i as int]@);
            assert(cell_views(remaining@)[i as int] == remaining@[i as int]@);
        }
        i = i + 1;
    }
    if same {
        assert(cell_views(keep@) =~= cell_views(remaining@));
        return Ok(());
    }
    let mut error = String::from_str("clean reload inventory mismatch after pruning: expected ");
    error.append(text::decimal_text(keep.len() as u64).as_str());
    error.append(", found ");
    error.append(text::decimal_text(remaining.len() as u64).as_str());
    Err(error)
}

// ---- settings ------------------------------------------------------------

/// How compactions run.
#[derive(Clone, Copy, Debug, PartialEq, Eq)]
pub struct CompactionConfig {
    pub min_txids: u64,
    pub concurrency: usize,
}

/// How compactions run, if they do. What is not configured is 256 writes and
/// two at a time.
pub fn compaction_config(enabled: bool, min_txids: Option<i64>, concurrency: Option<usize>) -> (r:
    Result<Option<CompactionConfig>, String>)
    ensures
        ({
            let least = match min_txids {
                Some(n) => n,
                None => 256,
            };
            let slots = match concurrency {
                Some(n) => n,
                None => 2,
            };
            if !enabled {
                r == Ok::<Option<CompactionConfig>, String>(None)
            } else if least < 2 {
                r matches Err(error) && error@
                    == "CELLD_LTX_COMPACTION_MIN_TXIDS must be at least 2"@
            } else if slots == 0 {
                r matches Err(error) && error@ == "CELLD_LTX_COMPACTIONS must be positive"@
            } else {
                r == Ok::<Option<CompactionConfig>, String>(
                    Some(CompactionConfig { min_txids: least as u64, concurrency: slots }),
                )
            }
        }),
{
    if !enabled {
        return Ok(None);
    }
    let least: i64 = match min_txids {
        Some(n) => n,
        None => 256,
    };
    let slots: usize = match concurrency {
        Some(n) => n,
        None => 2,
    };
    if least < 2 {
        return Err(String::from_str("CELLD_LTX_COMPACTION_MIN_TXIDS must be at least 2"));
    }
    if slots == 0 {
        return Err(String::from_str("CELLD_LTX_COMPACTIONS must be positive"));
    }
    Ok(Some(CompactionConfig { min_txids: least as u64, concurrency: slots }))
}

/// The first of two texts that is there and not empty; else the empty text.
pub open spec fn first_filled(given: Option<Seq<char>>, fallback: Option<Seq<char>>) -> Seq<char> {
    match (given, fallback) {
        (Some(text), Some(other)) => if text.len() > 0 {
            text
        } else {
            other
        },
        (Some(text), None) => text,
        (None, Some(other)) => other,
        (None, None) => seq![],
    }
}

pub open spec fn optional(t: Option<&str>) -> Option<Seq<char>> {
    match t {
        Some(t) => Some(t@),
        None => None,
    }
}

/// A credential of the bucket: the managed one, or the one of the node's
/// environment where that is missing or empty.
pub fn credential(managed: Option<&str>, environment: Option<&str>) -> (r: String)
    ensures
        r@ == first_filled(optional(managed), optional(environment)),
{
    proof {
        reveal_strlit("");
    }
    if let Some(t) = managed {
        if !text::same(t, "") {
            proof {
                if t@.len() == 0 {
                    assert(t@ =~= ""@);
                }
            }
            return String::from_str(t);
        }
    }
    match environment {
        Some(t) => String::from_str(t),
        None => {
            let r = String::new();
            assert(r@ =~= first_filled(optional(managed), optional(environment)));
            r
        },
    }
}

/// Whether a bucket is addressed by path: every one that has an endpoint of
/// its own.
pub fn force_path_style(endpoint: Option<&str>) -> (r: bool)
    ensures
        r == (endpoint matches Some(t) && t@.len() > 0),
{
    proof {
        reveal_strlit("");
    }
    match endpoint {
        Some(t) => {
            let empty = text::same(t, "");
            proof {
                if t@.len() == 0 {
                    assert(t@ =~= ""@);
                }
            }
            !empty
        },
        None => false,
    }
}

// ---- laws ----------------------------------------------------------------

/// The last part of an epoch's place names the epoch, so that a listing of the
/// places gives the epochs back.
pub proof fn places_name_their_epoch(cell: Seq<char>, epoch: u64)
    ensures
        ({
            let place = epoch_place(cell, epoch);
            let above = cell + "/ltx/"@;
            &&& text::has_prefix(place, above)
            &&& named_epoch(place.skip(above.len() as int)) == Some(epoch)
        }),
{
    reveal_strlit("/ltx/e");
    reveal_strlit("/ltx/");
    let place = epoch_place(cell, epoch);
    let above = cell + "/ltx/"@;
    assert(place.subrange(0, above.len() as int) =~= above);
    let name = place.skip(above.len() as int);
    assert(name =~= seq!['e'] + text::decimal(epoch as nat));
    assert(name.skip(1) =~= text::decimal(epoch as nat));
    text::decimal_reads_back(epoch as nat);
}

/// A seal's document holds the write that restores read through and the epoch
/// that set it, each under its own name.
pub proof fn seals_are_written(seal: EpochSeal)
    ensures
        seal.document().member("max_txid"@) == Some(json::number(seal.max_txid as int)),
        seal.document().member("sealed_by_epoch"@) == Some(
            json::number(seal.sealed_by_epoch as int),
        ),
{
    reveal_strlit("max_txid");
    reveal_strlit("sealed_by_epoch");
    assert("max_txid"@.len() == 8 && "sealed_by_epoch"@.len() == 15);
    let members = seal.document()->Object_0;
    json::a_member_is_found(members, 0);
    json::a_member_is_found(members, 1);
}

/// A restore goes on with the epoch that it began with, and is over exactly
/// where there is nothing left to ask the bucket for.
pub proof fn restores_keep_to_one_epoch(from: u64, step: SealStep)
    ensures
        match stage_of(remote_step(from, step)) {
            RemoteStage::Planning { from: f } => f == from && step is Plan,
            RemoteStage::Creating { from: f, seal } => f == from && step == SealStep::Create(seal),
            RemoteStage::Rereading { from: f } => f == from && step is Reread,
            RemoteStage::Over => step is Answer,
            _ => false,
        },
        step matches SealStep::Answer(Ok(cap)) ==> (remote_step(from, step) matches RemoteStep::Restore {
            from: f,
            cap: c,
        } && f == from && c == step->Answer_0->Ok_0),
        step matches SealStep::Answer(Err(error)) ==> remote_step(from, step) is Fail,
{
}

/// A snapshot is taken only where its file is there and the cell is neither new
/// nor taken up as it was left; where a snapshot of the cell's own epoch is
/// there it is that one, and where both names are there it is the newer.
pub proof fn snapshots_are_taken_from_what_is_there(
    options: ActivationOptions,
    files: LocalFiles,
)
    requires
        options.previous_reusable ==> options.epoch > 0,
    ensures
        match kept_snapshot(options, files) {
            Some(snapshot) => {
                &&& !options.fresh && !options.resume_local
                &&& snapshot.epoch == options.epoch ==> (if snapshot.legacy {
                    files.hibernated && !files.evicted
                } else {
                    files.evicted
                })
                &&& snapshot.epoch != options.epoch ==> {
                    &&& options.previous_reusable && snapshot.epoch + 1 == options.epoch
                    &&& !files.evicted && !files.hibernated
                    &&& if snapshot.legacy {
                        files.previous_hibernated && !files.previous_evicted
                    } else {
                        files.previous_evicted
                    }
                }
            },
            None => options.fresh || options.resume_local || (!files.evicted && !files.hibernated
                && (!options.previous_reusable || (!files.previous_evicted
                && !files.previous_hibernated))),
        },
{
}

/// A compaction is due once as many writes as it takes were uploaded after the
/// last one, unless one waits already or they were stopped; queueing it changes
/// nothing else.
pub proof fn compactions_wait_for_enough_writes(
    sync: CellSync,
    compaction: CellCompaction,
    captured: u64,
    durable_txid: u64,
)
    requires
        sync.compaction == Some(compaction),
        durable_txid >= compaction.compacted_txid,
    ensures
        sync.compaction_due(durable_txid) <==> !compaction.queued && !compaction.cancelled
            && compaction.compacted_txid + compaction.min_txids <= durable_txid,
        ({
            let after = sync.synced(captured, durable_txid);
            &&& after.durable_txid == durable_txid
            &&& after.req_seq == sync.req_seq && after.syncing == sync.syncing
            &&& after.synced_seq == sync.synced_seq || after.synced_seq == captured
            &&& after.compaction matches Some(now)
            &&& now.queued == (compaction.queued || sync.compaction_due(durable_txid))
            &&& now.min_txids == compaction.min_txids
            &&& now.compacted_txid == compaction.compacted_txid
            &&& now.cancelled == compaction.cancelled
        }),
{
}

/// A cell that leaves keeps its database where that is to stay, as a snapshot
/// that is taken before anything goes, and loses it where it is not; the files
/// beside it always go, each once.
pub proof fn evictions_keep_what_is_to_stay(preserve_local: bool)
    ensures
        ({
            let steps = evict_steps(preserve_local);
            &&& steps.contains(EvictStep::KeepSnapshot) <==> preserve_local
            &&& steps.contains(EvictStep::RemoveDatabase) <==> !preserve_local
            &&& preserve_local ==> steps[0] == EvictStep::KeepSnapshot
            &&& !preserve_local ==> steps.last() == EvictStep::RemoveDatabase
            &&& steps.contains(EvictStep::RemoveWal)
            &&& steps.contains(EvictStep::RemoveShm)
            &&& steps.contains(EvictStep::RemoveMeta)
            &&& steps.len() == 4
        }),
{
    let steps = evict_steps(preserve_local);
    if preserve_local {
        assert(steps[0] == EvictStep::KeepSnapshot && steps[1] == EvictStep::RemoveWal);
        assert(steps[2] == EvictStep::RemoveShm && steps[3] == EvictStep::RemoveMeta);
    } else {
        assert(steps[0] == EvictStep::RemoveWal && steps[1] == EvictStep::RemoveShm);
        assert(steps[2] == EvictStep::RemoveMeta && steps[3] == EvictStep::RemoveDatabase);
    }
}

/// The managed credential counts where it is there and not empty; where it is
/// not, the environment's does; where there is none, it is empty.
pub proof fn managed_credential_comes_first(
    managed: Option<Seq<char>>,
    environment: Option<Seq<char>>,
)
    ensures
        managed is Some && managed->Some_0.len() > 0 ==> first_filled(managed, environment)
            == managed->Some_0,
        (managed is None || managed->Some_0.len() == 0) && environment is Some ==> first_filled(
            managed,
            environment,
        ) == environment->Some_0,
        (managed is None || managed->Some_0.len() == 0) && environment is None ==> first_filled(
            managed,
            environment,
        ).len() == 0,
{
}

/// Cells are in order by their ids, and those of one id by their epochs; the
/// newest epoch is the highest, and the greatest of some numbers is one of them.
pub proof fn cells_and_epochs_are_ordered(
    id: Seq<char>,
    other: Seq<char>,
    a: u64,
    b: u64,
    items: Seq<u64>,
    n: u64,
)
    ensures
        cell_less((id, a), (id, b)) <==> a < b,
        text::text_less(id, other) ==> cell_less((id, a), (other, b)),
        is_greatest(n, items) && items.contains(a) ==> a <= n,
        is_greatest(n, items) && is_greatest(a, items) ==> a == n,
{
    text::text_less_irreflexive(id);
    if is_greatest(n, items) && items.contains(a) {
        let i = choose|i: int| 0 <= i < items.len() && items[i] == a;
        assert(items[i] <= n);
    }
    if is_greatest(n, items) && is_greatest(a, items) {
        let i = choose|i: int| 0 <= i < items.len() && items[i] == n;
        assert(items[i] <= a);
    }
}

/// The newest epoch is one that is there, and none that is there is newer.
pub proof fn newest_epoch_is_the_highest(epoch: u64, names: Seq<String>, i: int, other: u64)
    requires
        is_newest(epoch, names),
        0 <= i < names.len(),
        named_epoch(names[i]@) == Some(other),
    ensures
        other <= epoch,
        exists|k: int| 0 <= k < names.len() && named_epoch((#[trigger] names[k])@) == Some(epoch),
{
    assert(named_epoch(names[i]@) is Some);
}

/// The words of a failure name the cell and its epoch, and end with the cause.
pub proof fn seal_failures_are_told(what: Seq<char>, cell: Seq<char>, from: u64, why: Seq<char>)
    ensures
        text::has_prefix(
            seal_words(what, cell, from, why),
            what + cell + " e"@ + text::decimal(from as nat),
        ),
        seal_words(what, cell, from, why).skip(
            seal_words(what, cell, from, why).len() - why.len(),
        ) == why,
{
    let words = seal_words(what, cell, from, why);
    let head = what + cell + " e"@ + text::decimal(from as nat);
    assert(words.subrange(0, head.len() as int) =~= head);
    assert(words.skip(words.len() - why.len()) =~= why);
}

/// A cell's upload task rests exactly where every write is durable; while one
/// waits it goes on, at once after an upload that succeeded and after a while
/// after one that failed.
pub proof fn uploads_rest_when_all_is_durable(sync: CellSync, succeeded: bool, ticket: u64)
    requires
        sync.wf(),
        0 < ticket <= sync.req_seq,
    ensures
        sync.next_upload(succeeded) == AfterSync::Rest ==> sync.covers(ticket),
        !sync.covers(ticket) ==> sync.next_upload(succeeded) == (if succeeded {
            AfterSync::Again
        } else {
            AfterSync::BackOff
        }),
        sync.synced_seq == sync.req_seq ==> sync.next_upload(succeeded) == AfterSync::Rest,
{
}

/// A compaction that is over leaves the queue. One that succeeded counts from
/// the write that it reached, and one with nothing to do from the last uploaded
/// one, so that the next is due only after enough further writes; one that
/// failed counts for nothing, and is due again.
pub proof fn compactions_count_from_what_they_reached(
    sync: CellSync,
    compaction: CellCompaction,
    txid: u64,
    durable_txid: u64,
)
    requires
        sync.compaction == Some(compaction),
        !compaction.cancelled,
        durable_txid >= txid,
        durable_txid >= sync.durable_txid,
        durable_txid >= compaction.compacted_txid,
    ensures
        sync.compacted(CompactionOutcome::Compacted(txid)).compaction_due(durable_txid)
            <==> durable_txid - txid >= compaction.min_txids,
        sync.compacted(CompactionOutcome::NoWork).compaction_due(durable_txid) <==> durable_txid
            - sync.durable_txid >= compaction.min_txids,
        sync.compacted(CompactionOutcome::Failed).compaction_due(durable_txid) <==> durable_txid
            - compaction.compacted_txid >= compaction.min_txids,
        sync.compacted(CompactionOutcome::Cancelled).compaction == sync.compacted(
            CompactionOutcome::Failed,
        ).compaction,
        sync.compacted(CompactionOutcome::Compacted(txid)).durable_txid == sync.durable_txid,
        sync.compacted(CompactionOutcome::Compacted(txid)).synced_seq == sync.synced_seq,
{
}

} // verus!
