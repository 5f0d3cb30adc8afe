//! The facets of resident cells: which streams are open under each root, and
//! what opening, deleting and stopping them comes to.
use vstd::prelude::*;
#[allow(unused_imports)]
use vstd::string::*;

#[allow(unused_imports)]
use crate::engine_api;
#[allow(unused_imports)]
use crate::maps;
use crate::maps::TextMap;
#[allow(unused_imports)]
use crate::text;

verus! {

/// How long the first retry of a facet's stop waits, in milliseconds.
pub const FACET_STOP_RETRY_FIRST: u64 = 50;

/// How long a retry of a facet's stop waits at most, in milliseconds.
pub const FACET_STOP_RETRY_MAX: u64 = 5000;

/// How a root was restored; what else the restore was given stays open (`S`).
pub struct RestoreSpec<S> {
    pub epoch: u64,
    /// The files that a clean reload left are taken up again.
    pub resume_local: bool,
    pub rest: S,
}

struct FacetRoot<S> {
    epoch: u64,
    spec: Option<RestoreSpec<S>>,
    streams: TextMap<bool>,
    stopping: bool,
}

#[verifier::ext_equal]
pub struct RootView<S> {
    pub epoch: u64,
    pub spec: Option<RestoreSpec<S>>,
    /// The facets that are open.
    pub streams: Set<Seq<char>>,
    pub stopping: bool,
}

impl<S> FacetRoot<S> {
    spec fn view(&self) -> RootView<S> {
        RootView {
            epoch: self.epoch,
            spec: self.spec,
            streams: self.streams@.dom(),
            stopping: self.stopping,
        }
    }
}

/// The facets of the cells that are resident.
pub struct FacetStreams<S> {
    roots: TextMap<FacetRoot<S>>,
}

pub type FacetsView<S> = Map<Seq<char>, RootView<S>>;

impl<S> View for FacetStreams<S> {
    type V = FacetsView<S>;

    closed spec fn view(&self) -> FacetsView<S> {
        self.roots@.map_values(|r: FacetRoot<S>| r.view())
    }
}

/// Whether a root is resident at an ownership epoch and not about to stop.
pub open spec fn is_resident<S>(view: FacetsView<S>, root: Seq<char>, epoch: u64) -> bool {
    view.contains_key(root) && view[root].epoch == epoch && !view[root].stopping
}

/// Whether a root is there at an ownership epoch.
pub open spec fn is_at<S>(view: FacetsView<S>, root: Seq<char>, epoch: u64) -> bool {
    view.contains_key(root) && view[root].epoch == epoch
}

pub open spec fn not_resident(root: Seq<char>, epoch: u64) -> Seq<char> {
    root + " epoch "@ + text::decimal(epoch as nat) + " is not resident"@
}

fn not_resident_error(root: &str, epoch: u64) -> (r: String)
    ensures
        r@ == not_resident(root@, epoch),
{
    let mut r = String::from_str(root);
    r.append(" epoch ");
    r.append(text::decimal_text(epoch).as_str());
    r.append(" is not resident");
    r
}

/// Whether a stream is a facet or lies under it.
pub open spec fn is_under(stream: Seq<char>, facet: Seq<char>) -> bool {
    stream == facet || text::has_prefix(stream, facet + "/"@)
}

/// What is to be done to open a facet.
#[derive(Clone, Copy, Debug, PartialEq, Eq, Structural)]
pub enum OpenStep {
    /// Nothing: it is open.
    AlreadyOpen,
    /// Its database is restored; the files of a clean reload are taken up if
    /// there are any.
    Restore { resume_local: bool },
    /// A directory is made for its database.
    CreateDirectory,
}

impl<S> FacetStreams<S> {
    pub fn new() -> (r: Self)
        ensures
            r@ == Map::<Seq<char>, RootView<S>>::empty(),
    {
        let r = FacetStreams { roots: TextMap::new() };
        assert(r@ =~= Map::<Seq<char>, RootView<S>>::empty());
        r
    }

    /// Takes in that a root was activated: none of its facets is open.
    pub fn register(&mut self, root: &str, spec: RestoreSpec<S>)
        ensures
            final(self)@ == old(self)@.insert(
                root@,
                RootView {
                    epoch: spec.epoch,
                    spec: Some(spec),
                    streams: Set::empty(),
                    stopping: false,
                },
            ),
    {
        let entry = FacetRoot {
            epoch: spec.epoch,
            spec: Some(spec),
            streams: TextMap::new(),
            stopping: false,
        };
        assert(entry.streams@.dom() =~= Set::<Seq<char>>::empty());
        let ghost view = entry.view();
        self.roots.insert(String::from_str(root), entry);
        assert(self@ =~= old(self)@.insert(root@, view));
    }

    /// Whether a facet is open, before its turn to be opened comes.
    pub fn is_open(&self, root: &str, epoch: u64, facet: &str) -> (r: Result<bool, String>)
        ensures
            match r {
                Ok(open) => is_resident(self@, root@, epoch) && open
                    == self@[root@].streams.contains(facet@),
                Err(error) => !is_resident(self@, root@, epoch) && error@ == not_resident(
                    root@,
                    epoch,
                ),
            },
    {
        match self.roots.get(root) {
            Some(entry) => {
                assert(self@.contains_key(root@) && self@[root@] == entry.view());
                if entry.epoch == epoch && !entry.stopping {
                    Ok(entry.streams.contains(facet))
                } else {
                    Err(not_resident_error(root, epoch))
                }
            },
            None => Err(not_resident_error(root, epoch)),
        }
    }

    /// What is to be done to open a facet, once its turn came. `replicated` is
    /// whether cells are replicated, and `has_files` whether the facet's
    /// database is on disk.
    pub fn open(&self, root: &str, epoch: u64, facet: &str, replicated: bool, has_files: bool) -> (r:
        Result<OpenStep, String>)
        ensures
            if !is_resident(self@, root@, epoch) {
                r matches Err(error) && error@ == not_resident(root@, epoch)
            } else if self@[root@].streams.contains(facet@) {
                r == Ok::<OpenStep, String>(OpenStep::AlreadyOpen)
            } else if !replicated {
                r == Ok::<OpenStep, String>(OpenStep::CreateDirectory)
            } else {
                match self@[root@].spec {
                    None => r matches Err(error) && error@ == root@
                        + " was activated without a restore"@,
                    Some(spec) => r == Ok::<OpenStep, String>(
                        OpenStep::Restore { resume_local: spec.resume_local && has_files },
                    ),
                }
            },
    {
        match self.is_open(root, epoch, facet) {
            Err(error) => Err(error),
            Ok(open) => {
                if open {
                    return Ok(OpenStep::AlreadyOpen);
                }
                if !replicated {
                    return Ok(OpenStep::CreateDirectory);
                }
                let entry = self.roots.at(root);
                assert(self@[root@] == entry.view());
                match &entry.spec {
                    None => Err(text::join(root, " was activated without a restore")),
                    Some(spec) => Ok(
                        OpenStep::Restore { resume_local: spec.resume_local && has_files },
                    ),
                }
            },
        }
    }

    /// Takes in that a facet's database is there: the facet is open, unless its
    /// root stopped meanwhile.
    pub fn opened(&mut self, root: &str, epoch: u64, facet: &str) -> (r: Result<(), String>)
        ensures
            if is_resident(old(self)@, root@, epoch) {
                &&& r is Ok
                &&& final(self)@ == old(self)@.insert(
                    root@,
                    RootView {
                        streams: old(self)@[root@].streams.insert(facet@),
                        ..old(self)@[root@]
                    },
                )
            } else {
                &&& r matches Err(error) && error@ == root@ + " epoch "@ + text::decimal(
                    epoch as nat,
                ) + " stopped while its facet opened"@
                &&& final(self)@ == old(self)@
            },
    {
        match self.roots.remove(root) {
            Some(mut entry) => {
                assert(old(self)@[root@] == entry.view());
                if entry.epoch == epoch && !entry.stopping {
                    let ghost before = entry.view();
                    entry.streams.insert(String::from_str(facet), true);
                    assert(entry.view() =~= (RootView {
                        streams: before.streams.insert(facet@),
                        ..before
                    }));
                    let ghost now = entry.view();
                    self.roots.insert(String::from_str(root), entry);
                    assert(self@ =~= old(self)@.insert(root@, now));
                    return Ok(());
                }
                self.roots.insert(String::from_str(root), entry);
                assert(self@ =~= old(self)@);
            },
            None => {
                assert(self@ =~= old(self)@);
            },
        }
        let mut error = String::from_str(root);
        error.append(" epoch ");
        error.append(text::decimal_text(epoch).as_str());
        error.append(" stopped while its facet opened");
        Err(error)
    }

    /// Takes a facet and every facet under it out, for their streams to be
    /// discarded.
    pub fn delete(&mut self, root: &str, epoch: u64, facet: &str) -> (r: Result<
        Vec<String>,
        String,
    >)
        ensures
            if is_resident(old(self)@, root@, epoch) {
                let streams = old(self)@[root@].streams;
                &&& r matches Ok(doomed) && maps::ascending_text(doomed@) && (forall|
                    stream: Seq<char>,
                | #[trigger]
                    maps::views(doomed@).contains(stream) <==> streams.contains(stream)
                        && is_under(stream, facet@))
                &&& final(self)@ == old(self)@.insert(
                    root@,
                    RootView {
                        streams: streams.filter(|stream: Seq<char>| !is_under(stream, facet@)),
                        ..old(self)@[root@]
                    },
                )
            } else {
                &&& r matches Err(error) && error@ == not_resident(root@, epoch)
                &&& final(self)@ == old(self)@
            },
    {
        let mut entry = match self.roots.remove(root) {
            Some(entry) => entry,
            None => {
                assert(self@ =~= old(self)@);
                return Err(not_resident_error(root, epoch));
            },
        };
        assert(old(self)@[root@] == entry.view());
        if entry.epoch != epoch || entry.stopping {
            self.roots.insert(String::from_str(root), entry);
            assert(self@ =~= old(self)@);
            return Err(not_resident_error(root, epoch));
        }
        let ghost streams = entry.view().streams;
        let below = text::join(facet, "/");
        let keys = entry.streams.keys();
        let ghost all = maps::views(keys@);
        let mut doomed: TextMap<bool> = TextMap::new();
        let mut i: usize = 0;
        while i < keys.len()
            invariant
                i <= keys@.len(),
                all == maps::views(keys@),
                all.to_set() == streams,
                below@ == facet@ + "/"@,
                entry.epoch == epoch,
                !entry.stopping,
                entry.spec == old(self)@[root@].spec,
                forall|stream: Seq<char>| #[trigger]
                    doomed@.contains_key(stream) <==> is_under(stream, facet@) && exists|k: int|
                        0 <= k < i && #[trigger] all[k] == stream,
                forall|stream: Seq<char>| #[trigger]
                    entry.streams@.contains_key(stream) <==> streams.contains(stream)
                        && !doomed@.contains_key(stream),
            decreases keys.len() - i,
        {
            let ghost before = doomed@;
            let ghost name = keys@[i as int]@;
            assert(all[i as int] == name);
            if text::same(keys[i].as_str(), facet) || text::starts_with(
                keys[i].as_str(),
                below.as_str(),
            ) {
                entry.streams.remove(keys[i].as_str());
                doomed.insert(keys[i].clone(), true);
            }
            proof {
                assert forall|stream: Seq<char>| #[trigger]
                    doomed@.contains_key(stream) <==> is_under(stream, facet@) && exists|k: int|
                    0 <= k < i + 1 && #[trigger] all[k] == stream by {
                    if before.contains_key(stream) {
                        let k = choose|k: int| 0 <= k < i && #[trigger] all[k] == stream;
                        assert(all[k] == stream);
                    }
                    if is_under(stream, facet@) && exists|k: int|
                        0 <= k < i + 1 && #[trigger] all[k] == stream {
                        let k = choose|k: int| 0 <= k < i + 1 && #[trigger] all[k] == stream;
                        if k < i {
                            assert(before.contains_key(stream));
                        }
                    }
                }
            }
            i = i + 1;
        }
        let out = doomed.keys();
        proof {
            assert forall|stream: Seq<char>| #[trigger]
                doomed@.contains_key(stream) <==> streams.contains(stream) && is_under(
                stream,
                facet@,
            ) by {
                if streams.contains(stream) {
                    assert(all.to_set().contains(stream));
                    let k = choose|k: int| 0 <= k < all.len() && all[k] == stream;
                    assert(all[k] == stream);
                }
                if doomed@.contains_key(stream) {
                    let k = choose|k: int| 0 <= k < all.len() && #[trigger] all[k] == stream;
                    assert(all.to_set().contains(stream));
                }
            }
            assert forall|stream: Seq<char>| #[trigger]
                maps::views(out@).contains(stream) <==> streams.contains(stream) && is_under(
                stream,
                facet@,
            ) by {
                assert(maps::views(out@).contains(stream) == maps::views(out@).to_set().contains(
                    stream,
                ));
                assert(doomed@.contains_key(stream) == doomed@.dom().contains(stream));
            }
            assert(entry.streams@.dom() =~= streams.filter(
                |stream: Seq<char>| !is_under(stream, facet@),
            ));
        }
        let ghost now = entry.view();
        self.roots.insert(String::from_str(root), entry);
        assert(self@ =~= old(self)@.insert(root@, now));
        Ok(out)
    }

    /// Marks a root as about to stop, and answers the facets that are open.
    pub fn stopping(&mut self, root: &str, epoch: u64) -> (r: Vec<String>)
        ensures
            maps::ascending_text(r@),
            if is_at(old(self)@, root@, epoch) {
                &&& maps::views(r@).to_set() == old(self)@[root@].streams
                &&& final(self)@ == old(self)@.insert(
                    root@,
                    RootView { stopping: true, ..old(self)@[root@] },
                )
            } else {
                r@.len() == 0 && final(self)@ == old(self)@
            },
    {
        self.mark(root, epoch, true);
        self.resident(root, epoch)
    }

    /// Takes in that a root that was about to stop goes on.
    pub fn resume(&mut self, root: &str, epoch: u64)
        ensures
            final(self)@ == (if is_at(old(self)@, root@, epoch) {
                old(self)@.insert(root@, RootView { stopping: false, ..old(self)@[root@] })
            } else {
                old(self)@
            }),
    {
        self.mark(root, epoch, false);
    }

    fn mark(&mut self, root: &str, epoch: u64, stopping: bool)
        ensures
            final(self)@ == (if is_at(old(self)@, root@, epoch) {
                old(self)@.insert(root@, RootView { stopping, ..old(self)@[root@] })
            } else {
                old(self)@
            }),
    {
        match self.roots.remove(root) {
            Some(mut entry) => {
                assert(old(self)@[root@] == entry.view());
                if entry.epoch == epoch {
                    let ghost before = entry.view();
                    entry.stopping = stopping;
                    assert(entry.view() =~= (RootView { stopping, ..before }));
                }
                let ghost now = entry.view();
                self.roots.insert(String::from_str(root), entry);
                assert(self@ =~= old(self)@.insert(root@, now));
                assert(!is_at(old(self)@, root@, epoch) ==> self@ =~= old(self)@);
            },
            None => {
                assert(self@ =~= old(self)@);
            },
        }
    }

    /// The facets that are open under a root.
    pub fn resident(&self, root: &str, epoch: u64) -> (r: Vec<String>)
        ensures
            maps::ascending_text(r@),
            if is_at(self@, root@, epoch) {
                maps::views(r@).to_set() == self@[root@].streams
            } else {
                r@.len() == 0
            },
    {
        match self.roots.get(root) {
            Some(entry) => {
                assert(self@[root@] == entry.view());
                if entry.epoch == epoch {
                    entry.streams.keys()
                } else {
                    Vec::new()
                }
            },
            None => Vec::new(),
        }
    }

    /// Takes in that a facet stopped.
    pub fn stopped(&mut self, root: &str, epoch: u64, stream: &str)
        ensures
            final(self)@ == (if is_at(old(self)@, root@, epoch) {
                old(self)@.insert(
                    root@,
                    RootView {
                        streams: old(self)@[root@].streams.remove(stream@),
                        ..old(self)@[root@]
                    },
                )
            } else {
                old(self)@
            }),
    {
        match self.roots.remove(root) {
            Some(mut entry) => {
                assert(old(self)@[root@] == entry.view());
                if entry.epoch == epoch {
                    let ghost before = entry.view();
                    entry.streams.remove(stream);
                    assert(entry.view() =~= (RootView {
                        streams: before.streams.remove(stream@),
                        ..before
                    }));
                }
                let ghost now = entry.view();
                self.roots.insert(String::from_str(root), entry);
                assert(self@ =~= old(self)@.insert(root@, now));
                assert(!is_at(old(self)@, root@, epoch) ==> self@ =~= old(self)@);
            },
            None => {
                assert(self@ =~= old(self)@);
            },
        }
    }

    /// Forgets a root that stopped.
    pub fn forget(&mut self, root: &str, epoch: u64)
        ensures
            final(self)@ == (if is_at(old(self)@, root@, epoch) {
                old(self)@.remove(root@)
            } else {
                old(self)@
            }),
    {
        let there = match self.roots.get(root) {
            Some(entry) => {
                assert(self@[root@] == entry.view());
                entry.epoch == epoch
            },
            None => false,
        };
        if there {
            self.roots.remove(root);
            assert(self@ =~= old(self)@.remove(root@));
        }
    }
}

/// Whether a restore put a facet's database where it belongs.
pub fn check_restored(restored: &str, expected: &str) -> (r: Result<(), String>)
    ensures
        if restored@ == expected@ {
            r is Ok
        } else {
            r matches Err(error) && error@ == "replication restored "@ + restored@ + " instead of "@
                + expected@
        },
{
    if text::same(restored, expected) {
        Ok(())
    } else {
        let mut error = String::from_str("replication restored ");
        error.append(restored);
        error.append(" instead of ");
        error.append(expected);
        Err(error)
    }
}

/// How long the retry after one that waited `delay` waits.
pub fn next_stop_delay(delay: u64) -> (r: u64)
    requires
        delay <= FACET_STOP_RETRY_MAX,
    ensures
        r == (if delay * 2 < FACET_STOP_RETRY_MAX {
            delay * 2
        } else {
            FACET_STOP_RETRY_MAX as int
        }),
{
    if delay * 2 < FACET_STOP_RETRY_MAX {
        delay * 2
    } else {
        FACET_STOP_RETRY_MAX
    }
}

/// What stopping a root and its facets comes to next.
pub enum StopAction {
    /// The root itself stops.
    StopRoot,
    /// This facet stops.
    StopFacet(String),
    /// This facet's stop is tried again after so many milliseconds.
    RetryFacet(String, u64),
    /// Everything stopped.
    Done,
    /// The root did not stop, and goes on.
    Failed,
}

/// A root that is being stopped: the facets still to stop, and how long the
/// next retry of the one at hand waits.
pub struct RootStop {
    root: String,
    epoch: u64,
    facets: Vec<String>,
    next: usize,
    delay: u64,
}

impl RootStop {
    pub closed spec fn root(&self) -> Seq<char> {
        self.root@
    }

    pub closed spec fn epoch(&self) -> u64 {
        self.epoch
    }

    /// The facets that have not stopped.
    pub closed spec fn left(&self) -> Seq<Seq<char>> {
        maps::views(self.facets@).skip(self.next as int)
    }

    /// How long the next retry waits.
    pub closed spec fn delay(&self) -> u64 {
        self.delay
    }

    pub closed spec fn wf(&self) -> bool {
        self.next <= self.facets@.len() && self.delay <= FACET_STOP_RETRY_MAX
    }

    /// Begins to stop a root: no facet opens under it any more. A root that is
    /// not resident has nothing of its own to stop.
    pub fn begin<S>(
        facets: &mut FacetStreams<S>,
        root: &str,
        epoch: u64,
        root_resident: bool,
    ) -> (r: (Self, StopAction))
        ensures
            r.0.wf(),
            r.0.root() == root@,
            r.0.epoch() == epoch,
            ({
                let marked = if is_at(old(facets)@, root@, epoch) {
                    old(facets)@.insert(
                        root@,
                        RootView { stopping: true, ..old(facets)@[root@] },
                    )
                } else {
                    old(facets)@
                };
                if root_resident {
                    &&& r.1 == StopAction::StopRoot
                    &&& final(facets)@ == marked
                } else {
                    after_root(marked, r.0, r.1, final(facets)@)
                }
            }),
    {
        facets.stopping(root, epoch);
        let stop = RootStop {
            root: String::from_str(root),
            epoch,
            facets: Vec::new(),
            next: 0,
            delay: FACET_STOP_RETRY_FIRST,
        };
        if root_resident {
            return (stop, StopAction::StopRoot);
        }
        proof {
            let marked = facets@;
            if is_at(marked, root@, epoch) {
                assert(marked.insert(root@, RootView { stopping: true, ..marked[root@] })
                    =~= marked);
            }
        }
        stop.facets_next(facets)
    }

    /// Takes in whether the root stopped. Where it did not, it goes on as
    /// before.
    pub fn root_stopped<S>(self, facets: &mut FacetStreams<S>, succeeded: bool) -> (r: (
        Self,
        StopAction,
    ))
        requires
            self.wf(),
        ensures
            r.0.wf(),
            r.0.root() == self.root(),
            r.0.epoch() == self.epoch(),
            if succeeded {
                after_root(
                    if is_at(old(facets)@, self.root(), self.epoch()) {
                        old(facets)@.insert(
                            self.root(),
                            RootView { stopping: true, ..old(facets)@[self.root()] },
                        )
                    } else {
                        old(facets)@
                    },
                    r.0,
                    r.1,
                    final(facets)@,
                )
            } else {
                &&& r.1 == StopAction::Failed
                &&& final(facets)@ == (if is_at(old(facets)@, self.root(), self.epoch()) {
                    old(facets)@.insert(
                        self.root(),
                        RootView { stopping: false, ..old(facets)@[self.root()] },
                    )
                } else {
                    old(facets)@
                })
            },
    {
        if !succeeded {
            facets.resume(self.root.as_str(), self.epoch);
            return (self, StopAction::Failed);
        }
        self.facets_next(facets)
    }

    fn facets_next<S>(self, facets: &mut FacetStreams<S>) -> (r: (Self, StopAction))
        requires
            self.wf(),
        ensures
            r.0.wf(),
            r.0.root() == self.root(),
            r.0.epoch() == self.epoch(),
            after_root(
                if is_at(old(facets)@, self.root(), self.epoch()) {
                    old(facets)@.insert(
                        self.root(),
                        RootView { stopping: true, ..old(facets)@[self.root()] },
                    )
                } else {
                    old(facets)@
                },
                r.0,
                r.1,
                final(facets)@,
            ),
    {
        let open = facets.stopping(self.root.as_str(), self.epoch);
        let ghost marked = facets@;
        let stop = RootStop {
            root: self.root,
            epoch: self.epoch,
            facets: open,
            next: 0,
            delay: FACET_STOP_RETRY_FIRST,
        };
        proof {
            assert(stop.left() =~= maps::views(open@));
            assert forall|i: int, j: int| 0 <= i < j < stop.left().len() implies text::text_less(
                #[trigger] stop.left()[i],
                #[trigger] stop.left()[j],
            ) by {
                assert(text::text_less(open@[i]@, open@[j]@));
            }
            if open@.len() == 0 {
                assert(stop.left().to_set() =~= Set::<Seq<char>>::empty());
            }
        }
        if stop.facets.len() == 0 {
            facets.forget(stop.root.as_str(), stop.epoch);
            proof {
                assert(maps::views(open@) =~= Seq::<Seq<char>>::empty());
            }
            return (stop, StopAction::Done);
        }
        let first = stop.facets[0].clone();
        assert(maps::views(open@)[0] == first@);
        (stop, StopAction::StopFacet(first))
    }

    /// Takes in whether the facet at hand stopped. One that did not is tried
    /// again, for its root is gone; the wait doubles up to five seconds.
    pub fn facet_stopped<S>(self, facets: &mut FacetStreams<S>, succeeded: bool) -> (r: (
        Self,
        StopAction,
    ))
        requires
            self.wf(),
            self.left().len() > 0,
        ensures
            r.0.wf(),
            r.0.root() == self.root(),
            r.0.epoch() == self.epoch(),
            if succeeded {
                let there = is_at(old(facets)@, self.root(), self.epoch());
                let without = if there {
                    old(facets)@.insert(
                        self.root(),
                        RootView {
                            streams: old(facets)@[self.root()].streams.remove(self.left()[0]),
                            ..old(facets)@[self.root()]
                        },
                    )
                } else {
                    old(facets)@
                };
                &&& r.0.left() == self.left().skip(1)
                &&& r.0.delay() == FACET_STOP_RETRY_FIRST
                &&& if self.left().len() == 1 {
                    &&& r.1 == StopAction::Done
                    &&& final(facets)@ == (if there {
                        without.remove(self.root())
                    } else {
                        without
                    })
                } else {
                    &&& r.1 matches StopAction::StopFacet(facet) && facet@ == self.left()[1]
                    &&& final(facets)@ == without
                }
            } else {
                &&& r.1 matches StopAction::RetryFacet(facet, wait) && facet@ == self.left()[0]
                    && wait == self.delay()
                &&& r.0.left() == self.left()
                &&& r.0.delay() == (if self.delay() * 2 < FACET_STOP_RETRY_MAX {
                    self.delay() * 2
                } else {
                    FACET_STOP_RETRY_MAX as int
                })
                &&& final(facets)@ == old(facets)@
            },
    {
        let ghost left = self.left();
        let ghost all = maps::views(self.facets@);
        assert(left[0] == self.facets@[self.next as int]@);
        let mut stop = self;
        let facet = stop.facets[stop.next].clone();
        if !succeeded {
            let wait = stop.delay;
            stop.delay = next_stop_delay(wait);
            return (stop, StopAction::RetryFacet(facet, wait));
        }
        facets.stopped(stop.root.as_str(), stop.epoch, facet.as_str());
        assert(stop.next < stop.facets.len());
        stop.next = stop.next + 1;
        stop.delay = FACET_STOP_RETRY_FIRST;
        assert(stop.left() =~= left.skip(1));
        if stop.next == stop.facets.len() {
            facets.forget(stop.root.as_str(), stop.epoch);
            (stop, StopAction::Done)
        } else {
            let following = stop.facets[stop.next].clone();
            assert(left[1] == following@);
            (stop, StopAction::StopFacet(following))
        }
    }
}

/// What follows once a root is gone: its facets stop one after the other, in
/// the order of text, and then the root is forgotten.
pub open spec fn after_root<S>(
    marked: FacetsView<S>,
    stop: RootStop,
    action: StopAction,
    now: FacetsView<S>,
) -> bool {
    let there = is_at(marked, stop.root(), stop.epoch());
    let open = if there {
        marked[stop.root()].streams
    } else {
        Set::empty()
    };
    &&& stop.left().to_set() == open
    &&& forall|i: int, j: int|
        0 <= i < j < stop.left().len() ==> text::text_less(
            #[trigger] stop.left()[i],
            #[trigger] stop.left()[j],
        )
    &&& stop.delay() == FACET_STOP_RETRY_FIRST
    &&& if stop.left().len() == 0 {
        &&& action == StopAction::Done
        &&& now == (if there {
            marked.remove(stop.root())
        } else {
            marked
        })
    } else {
        &&& action matches StopAction::StopFacet(facet) && facet@ == stop.left()[0]
        &&& now == marked
    }
}

/// While a root is about to stop, none of its facets can be opened, and one
/// whose opening had begun does not come to be open.
pub proof fn stopping_root_opens_nothing<S>(view: FacetsView<S>, root: Seq<char>, epoch: u64)
    requires
        is_at(view, root, epoch),
    ensures
        !is_resident(view.insert(root, RootView { stopping: true, ..view[root] }), root, epoch),
{
}

/// An ownership that is over cannot change what a later one holds.
pub proof fn earlier_ownership_is_powerless<S>(view: FacetsView<S>, root: Seq<char>, epoch: u64)
    requires
        view.contains_key(root),
        view[root].epoch != epoch,
    ensures
        !is_at(view, root, epoch),
        !is_resident(view, root, epoch),
{
}

/// A facet and whatever lies below it on its path is under it; a stream whose
/// name only begins like the facet's is not.
pub proof fn paths_lie_under_their_facets(
    root: Seq<char>,
    names: Seq<Seq<char>>,
    n: int,
    facet: Seq<char>,
    rest: Seq<char>,
)
    requires
        0 <= n <= names.len(),
    ensures
        is_under(engine_api::facet_of(root, names), engine_api::facet_of(root, names.take(n))),
        is_under(facet, facet),
        rest.len() > 0 ==> (is_under(facet + rest, facet) <==> rest[0] == '/'),
{
    if n < names.len() {
        engine_api::facets_nest(root, names, n);
    } else {
        assert(names.take(n) =~= names);
    }
    reveal_strlit("/");
    if rest.len() > 0 {
        let stream = facet + rest;
        assert(stream.len() != facet.len());
        let head = facet + "/"@;
        assert(stream[facet.len() as int] == rest[0]);
        assert(head[facet.len() as int] == '/');
        if rest[0] == '/' {
            assert(stream.subrange(0, head.len() as int) =~= head);
        } else if text::has_prefix(stream, head) {
            assert(stream.subrange(0, head.len() as int)[facet.len() as int] == rest[0]);
        }
    }
}

/// Once a root is gone, the facets that were open stop one after the other: the
/// first one next, and all of them before the root is forgotten. Where none was
/// open, the root is forgotten at once; a root of another ownership is not.
pub proof fn facets_stop_before_the_root_is_forgotten<S>(
    marked: FacetsView<S>,
    stop: RootStop,
    action: StopAction,
    now: FacetsView<S>,
    facet: Seq<char>,
)
    requires
        after_root(marked, stop, action, now),
    ensures
        ({
            let there = marked.contains_key(stop.root()) && marked[stop.root()].epoch
                == stop.epoch();
            let open = there && marked[stop.root()].streams.contains(facet);
            &&& open ==> stop.left().contains(facet)
            &&& open ==> action is StopFacet && now == marked
            &&& action matches StopAction::StopFacet(first) ==> {
                &&& there && marked[stop.root()].streams.contains(first@)
                &&& open && facet != first@ ==> text::text_less(first@, facet)
            }
            &&& action is StopFacet || action == StopAction::Done
            &&& action == StopAction::Done && there ==> !now.contains_key(stop.root())
            &&& !there ==> now == marked
        }),
{
    let there = is_at(marked, stop.root(), stop.epoch());
    let left = stop.left();
    if there && marked[stop.root()].streams.contains(facet) {
        assert(left.to_set().contains(facet));
        let k = choose|k: int| 0 <= k < left.len() && left[k] == facet;
        if k > 0 {
            assert(text::text_less(left[0], left[k]));
        }
    }
    if left.len() > 0 {
        assert(left.to_set().contains(left[0]));
    } else {
        if there {
            assert forall|s: Seq<char>| !marked[stop.root()].streams.contains(s) by {
                if marked[stop.root()].streams.contains(s) {
                    assert(left.to_set().contains(s));
                }
            }
        }
    }
    if !there {
        assert(left.len() == 0) by {
            if left.len() > 0 {
                assert(left.to_set().contains(left[0]));
            }
        }
    }
}

} // verus!
