//! The cells of one node: the generations they run on, the scopes they are
//! named by, and where their databases lie.
use vstd::prelude::*;
#[allow(unused_imports)]
use vstd::string::*;

use crate::generation::GenerationId;
use crate::ltx_repl;
#[allow(unused_imports)]
use crate::text;

verus! {

/// The generation that serves, and those whose isolates are still draining.
pub struct Generations {
    pub current: GenerationId,
    pub draining: Vec<GenerationId>,
}

/// Which of the generations a caller's is.
#[derive(Clone, Copy, Debug, PartialEq, Eq)]
pub enum Resolved {
    Current,
    /// The draining one at this position.
    Draining(usize),
}

impl Generations {
    /// The generation that serves.
    pub fn generation(&self) -> (r: GenerationId)
        ensures
            r == self.current,
    {
        self.current
    }

    /// The generation that a caller was built for: the current one, unless it
    /// is still draining. No caller has number zero.
    pub fn generation_by_id(&self, id: GenerationId) -> (r: Resolved)
        ensures
            match r {
                Resolved::Draining(i) => {
                    &&& id != 0
                    &&& id != self.current
                    &&& i < self.draining@.len()
                    &&& self.draining@[i as int] == id
                    &&& forall|k: int| 0 <= k < i ==> #[trigger] self.draining@[k] != id
                },
                Resolved::Current => id == 0 || id == self.current || !self.draining@.contains(id),
            },
    {
        if id == 0 || self.current == id {
            return Resolved::Current;
        }
        let mut i: usize = 0;
        while i < self.draining.len()
            invariant
                i <= self.draining@.len(),
                id != 0,
                id != self.current,
                forall|k: int| 0 <= k < i ==> #[trigger] self.draining@[k] != id,
            decreases self.draining.len() - i,
        {
            if self.draining[i] == id {
                return Resolved::Draining(i);
            }
            i = i + 1;
        }
        Resolved::Current
    }

    /// A number that no generation here has: one above the highest.
    pub fn next_generation_id(&self) -> (r: GenerationId)
        requires
            self.current < u64::MAX,
            forall|i: int| 0 <= i < self.draining@.len() ==> #[trigger] self.draining@[i] < u64::MAX,
        ensures
            r > self.current,
            forall|i: int| 0 <= i < self.draining@.len() ==> #[trigger] self.draining@[i] < r,
            r == self.current + 1 || exists|i: int|
                0 <= i < self.draining@.len() && #[trigger] self.draining@[i] + 1 == r,
    {
        let mut highest: u64 = self.current;
        let mut i: usize = 0;
        while i < self.draining.len()
            invariant
                i <= self.draining@.len(),
                self.current <= highest < u64::MAX,
                forall|k: int|
                    0 <= k < self.draining@.len() ==> #[trigger] self.draining@[k] < u64::MAX,
                forall|k: int| 0 <= k < i ==> #[trigger] self.draining@[k] <= highest,
                highest == self.current || exists|k: int|
                    0 <= k < i && #[trigger] self.draining@[k] == highest,
            decreases self.draining.len() - i,
        {
            if self.draining[i] > highest {
                highest = self.draining[i];
                assert(self.draining@[i as int] == highest);
            }
            i = i + 1;
        }
        proof {
            if highest != self.current {
                let k = choose|k: int|
                    0 <= k < self.draining@.len() && #[trigger] self.draining@[k] == highest;
                assert(self.draining@[k] + 1 == highest + 1);
            }
        }
        highest + 1
    }

    /// The generations that are still draining.
    pub fn draining_generations(&self) -> (r: &Vec<GenerationId>)
        ensures
            *r == self.draining,
    {
        &self.draining
    }
}

// ---- scopes --------------------------------------------------------------

/// What a cell's id comes to.
pub enum CellScope {
    /// The id is a scope.
    Scope(String),
    /// The scope that the id makes with the default class; it is still to be
    /// held to what a scope may be.
    Composed(String),
}

/// The error of an id that makes no scope.
pub const MALFORMED_SCOPE: &'static str = "cell id is not a well-formed scope";

/// What a cell's id comes to: a scope holds a colon, and an id without one is
/// of the default class. `well_formed` is whether the id is as a scope may be.
pub fn cell_scope(id: &str, well_formed: bool, default_class: Option<&str>) -> (r: Result<
    CellScope,
    String,
>)
    ensures
        if !well_formed {
            r matches Err(error) && error@ == MALFORMED_SCOPE@
        } else if id@.contains(':') {
            r matches Ok(CellScope::Scope(scope)) && scope@ == id@
        } else {
            match default_class {
                Some(class) => r matches Ok(CellScope::Composed(scope)) && scope@ == class@ + ":"@
                    + id@,
                None => r matches Err(error) && error@
                    == "a bare cell id requires exactly one configured Durable Object class"@,
            }
        },
{
    if !well_formed {
        return Err(String::from_str(MALFORMED_SCOPE));
    }
    if text::contains_char(id, ':') {
        return Ok(CellScope::Scope(String::from_str(id)));
    }
    match default_class {
        Some(class) => Ok(CellScope::Composed(text::join3(class, ":", id))),
        None => Err(
            String::from_str(
                "a bare cell id requires exactly one configured Durable Object class",
            ),
        ),
    }
}

/// Holds a composed scope to what a scope may be.
pub fn check_scope(scope: String, well_formed: bool) -> (r: Result<String, String>)
    ensures
        if well_formed {
            r == Ok::<String, String>(scope)
        } else {
            r matches Err(error) && error@ == MALFORMED_SCOPE@
        },
{
    if well_formed {
        Ok(scope)
    } else {
        Err(String::from_str(MALFORMED_SCOPE))
    }
}

/// Whether the data directory's file system takes names as long as a scope can
/// be.
pub fn require_cell_scope_name_max(name_max: u64, max_cell_scope: u64) -> (r: Result<(), String>)
    ensures
        if name_max >= max_cell_scope {
            r is Ok
        } else {
            r matches Err(error) && error@ == "the data filesystem supports "@ + text::decimal(
                name_max as nat,
            ) + "-byte names, but celld requires "@ + text::decimal(max_cell_scope as nat)
        },
{
    if name_max >= max_cell_scope {
        return Ok(());
    }
    let mut error = String::from_str("the data filesystem supports ");
    error.append(text::decimal_text(name_max).as_str());
    error.append("-byte names, but celld requires ");
    error.append(text::decimal_text(max_cell_scope).as_str());
    Err(error)
}

// ---- databases and alarms ------------------------------------------------

/// Where a cell's database lies, within the data directory. Cells that are not
/// replicated keep one place across ownership epochs.
pub fn db_path(cell: &str, epoch: u64, replicated: bool) -> (r: String)
    ensures
        r@ == ltx_repl::epoch_place(
            cell@,
            if replicated {
                epoch
            } else {
                1
            },
        ) + "/db.sqlite"@,
{
    ltx_repl::db_path(
        cell,
        if replicated {
            epoch
        } else {
            1
        },
    )
}

/// Whether a cell's alarm will wake it after the cell left this node. `armed`
/// is whether there is an alarm, and `covered` what the wake entries say of
/// it, where there are any.
pub fn alarm_covered(armed: bool, covered: Option<bool>, replicated: bool) -> (r: bool)
    ensures
        r == (!armed || (replicated && covered == Some(true))),
{
    if !armed {
        return true;
    }
    match covered {
        Some(covered) => replicated && covered,
        None => false,
    }
}

/// The streams that a cell's durability is proved over: its facets, and then
/// the cell.
pub fn durable_streams(facets: Vec<String>, cell: &str) -> (r: Vec<String>)
    ensures
        r@.len() == facets@.len() + 1,
        r@.take(facets@.len() as int) == facets@,
        r@[facets@.len() as int]@ == cell@,
{
    let ghost given = facets@;
    let mut r = facets;
    r.push(String::from_str(cell));
    assert(r@.take(given.len() as int) =~= given);
    r
}

// ---- the wake entry ------------------------------------------------------

/// What publishes alarms for cells to be woken by.
pub struct ArmGate<B, F> {
    pub bucket: B,
    pub flusher: F,
}

/// What alarms wait for before they are acknowledged, once it is set.
pub struct WakeEntryService<B, F> {
    gate: Option<ArmGate<B, F>>,
}

impl<B, F> WakeEntryService<B, F> {
    pub closed spec fn gate(&self) -> Option<ArmGate<B, F>> {
        self.gate
    }

    pub fn new() -> (r: Self)
        ensures
            r.gate() is None,
    {
        WakeEntryService { gate: None }
    }

    /// What an alarm waits for: nothing where nothing is set, and nothing for a
    /// cell without an alarm.
    pub fn launch_arm_gate(&self, armed: bool) -> (r: Option<&ArmGate<B, F>>)
        ensures
            match r {
                Some(gate) => armed && self.gate() == Some(*gate),
                None => !armed || self.gate() is None,
            },
    {
        if !armed {
            return None;
        }
        match &self.gate {
            Some(gate) => Some(gate),
            None => None,
        }
    }
}

/// Sets what alarms wait for; the first one stands.
pub fn set_arm_gate<B, F>(service: &mut WakeEntryService<B, F>, gate: ArmGate<B, F>)
    ensures
        final(service).gate() == (if old(service).gate() is Some {
            old(service).gate()
        } else {
            Some(gate)
        }),
{
    if service.gate.is_none() {
        service.gate = Some(gate);
    }
}

/// The flusher that is to forget a cell that left, if there is one.
pub fn forget_wake_entry<B, F>(service: &WakeEntryService<B, F>) -> (r: Option<&F>)
    ensures
        match r {
            Some(flusher) => service.gate() matches Some(gate) && gate.flusher == *flusher,
            None => service.gate() is None,
        },
{
    match &service.gate {
        Some(gate) => Some(&gate.flusher),
        None => None,
    }
}

/// The error of an alarm that was not published.
pub fn arm_gate_error(why: &str) -> (r: String)
    ensures
        r@ == "setAlarm wake entry: "@ + why@,
{
    text::join("setAlarm wake entry: ", why)
}

// ---- clean reloads -------------------------------------------------------

/// The file that a clean reload leaves in the data directory.
pub const CLEAN_RELOAD_MARKER: &'static str = ".clean-reload.json";

/// The name under which that file is written before it is put in place.
pub const CLEAN_RELOAD_TEMPORARY: &'static str = ".clean-reload.tmp";

/// What a clean reload's file says.
pub struct CleanReloadMarker {
    pub node: String,
    pub generation: String,
}

/// The generation that a node takes up again: the one its own file names.
pub fn take_clean_reload_generation(marker: Option<CleanReloadMarker>, node: &str) -> (r: Option<
    String,
>)
    ensures
        match r {
            Some(generation) => marker matches Some(marker) && marker.node@ == node@ && generation
                == marker.generation,
            None => marker matches Some(marker) ==> marker.node@ != node@,
        },
{
    match marker {
        Some(marker) => if text::same(marker.node.as_str(), node) {
            Some(marker.generation)
        } else {
            None
        },
        None => None,
    }
}

/// What a clean reload's file is to say.
pub fn write_clean_reload_marker(node: &str, generation: &str) -> (r: CleanReloadMarker)
    ensures
        r.node@ == node@,
        r.generation@ == generation@,
{
    CleanReloadMarker { node: String::from_str(node), generation: String::from_str(generation) }
}

} // verus!
