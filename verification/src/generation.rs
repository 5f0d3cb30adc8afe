//! One application deployment as the running process holds it: the walk that
//! resolves the scripts a deployment reaches, and the registry built from them.
use vstd::prelude::*;
#[allow(unused_imports)]
use vstd::string::*;

use crate::engine_api::{PoolCensus, QueueBinding};
#[allow(unused_imports)]
use crate::maps;
use crate::maps::TextMap;
#[allow(unused_imports)]
use crate::text;

verus! {

/// Which generation, within this process; never reused.
pub type GenerationId = u64;

/// The generation a node boots on.
pub const FIRST_GENERATION: GenerationId = 1;

/// What one adoption attempt concluded.
pub enum ReloadOutcome {
    /// A new generation serves.
    Adopted { generation: GenerationId, version: String, prefix: String },
    /// The deployment already serves and the request forced no rebuild.
    Unchanged { generation: GenerationId, version: String },
    /// The deployment did not build; the current generation is untouched.
    Failed { version: String, prefix: String, error: String },
}

/// The generation an isolate was built for.
#[derive(Clone, Copy, Debug, PartialEq, Eq, Structural)]
pub struct GenerationTag {
    pub id: GenerationId,
}

/// How many seconds pass between readings of the pointer: as configured, or
/// thirty.
pub fn poll_interval(configured: Option<u64>) -> (r: u64)
    requires
        configured != Some(0u64),
    ensures
        r == (match configured {
            Some(seconds) => seconds,
            None => 30,
        }),
        r > 0,
{
    match configured {
        Some(seconds) => seconds,
        None => 30,
    }
}

/// How many seconds a resident cell may keep running a superseded generation:
/// as configured, where zero forces every cell at once, or sixty.
pub fn max_age(configured: Option<u64>) -> (r: u64)
    ensures
        r == (match configured {
            Some(seconds) => seconds,
            None => 60,
        }),
{
    match configured {
        Some(seconds) => seconds,
        None => 60,
    }
}

// ---- deployments ---------------------------------------------------------

/// What kind of name a Durable Object class has.
#[derive(Clone, Copy, Debug, PartialEq, Eq, Structural)]
pub enum ClassKind {
    /// The user declared it.
    User,
    /// The engine supplies it, for one script.
    Reserved,
    /// The engine supplies it, and scripts share it.
    SharedReserved,
}

/// One class a script registers.
pub struct CellClass {
    pub name: String,
    pub kind: ClassKind,
}

/// One queue a script consumes.
pub struct QueueConsumer {
    pub queue: String,
    pub dead_letter_queue: Option<String>,
}

/// One script of a deployment; what else was loaded with it stays open (`D`).
pub struct LoadedDeployment<D> {
    pub script_name: String,
    pub version: String,
    pub prefix: String,
    /// The scripts its service bindings name.
    pub services: Vec<String>,
    pub do_classes: Vec<CellClass>,
    pub queue_bindings: Vec<QueueBinding>,
    pub queue_consumers: Vec<QueueConsumer>,
    pub crons: Vec<String>,
    pub fence_image: Option<String>,
    pub rest: D,
}

/// The scripts one deployment reaches.
pub struct DeploymentGraph<D> {
    pub primary: LoadedDeployment<D>,
    pub cohosted: Vec<LoadedDeployment<D>>,
}

impl<D> DeploymentGraph<D> {
    /// One script and nothing else.
    pub fn single(primary: LoadedDeployment<D>) -> (r: Self)
        ensures
            r.primary == primary,
            r.cohosted@.len() == 0,
    {
        DeploymentGraph { primary, cohosted: Vec::new() }
    }
}

/// What a script needs beside itself.
pub enum Dependency {
    Service(String),
    Queue(String),
}

pub enum DependencyView {
    Service(Seq<char>),
    Queue(Seq<char>),
}

impl View for Dependency {
    type V = DependencyView;

    open spec fn view(&self) -> DependencyView {
        match self {
            Dependency::Service(script) => DependencyView::Service(script@),
            Dependency::Queue(queue) => DependencyView::Queue(queue@),
        }
    }
}

pub open spec fn dependency_views(items: Seq<Dependency>) -> Seq<DependencyView> {
    items.map_values(|d: Dependency| d@)
}

/// The queues a script consumes.
pub open spec fn consumes<D>(loaded: LoadedDeployment<D>, queue: Seq<char>) -> bool {
    exists|i: int|
        0 <= i < loaded.queue_consumers@.len() && #[trigger] loaded.queue_consumers@[i].queue@
            == queue
}

/// The queues a script sends to, consumes, or sends its dead letters to.
pub open spec fn reaches_queue<D>(loaded: LoadedDeployment<D>, queue: Seq<char>) -> bool {
    ||| exists|i: int|
        0 <= i < loaded.queue_bindings@.len() && #[trigger] loaded.queue_bindings@[i].queue@
            == queue
    ||| consumes(loaded, queue)
    ||| exists|i: int|
        0 <= i < loaded.queue_consumers@.len() && (
        #[trigger] loaded.queue_consumers@[i]).dead_letter_queue is Some
            && loaded.queue_consumers@[i].dead_letter_queue->0@ == queue
}

/// The queues a script consumes, as a set.
fn consumed_queues<D>(loaded: &LoadedDeployment<D>) -> (r: TextMap<bool>)
    ensures
        forall|queue: Seq<char>| #[trigger] r@.contains_key(queue) <==> consumes(*loaded, queue),
{
    let mut r: TextMap<bool> = TextMap::new();
    let mut i: usize = 0;
    while i < loaded.queue_consumers.len()
        invariant
            i <= loaded.queue_consumers@.len(),
            forall|queue: Seq<char>| #[trigger]
                r@.contains_key(queue) <==> exists|k: int|
                    0 <= k < i && #[trigger] loaded.queue_consumers@[k].queue@ == queue,
        decreases loaded.queue_consumers.len() - i,
    {
        let ghost before = r@;
        r.insert(loaded.queue_consumers[i].queue.clone(), true);
        proof {
            let name = loaded.queue_consumers@[i as int].queue@;
            assert forall|queue: Seq<char>| #[trigger] r@.contains_key(queue) <==> exists|k: int|
                0 <= k < i + 1 && #[trigger] loaded.queue_consumers@[k].queue@ == queue by {
                if r@.contains_key(queue) && queue != name {
                    assert(before.contains_key(queue));
                    let k = choose|k: int|
                        0 <= k < i && #[trigger] loaded.queue_consumers@[k].queue@ == queue;
                    assert(loaded.queue_consumers@[k].queue@ == queue);
                }
                if exists|k: int|
                    0 <= k < i + 1 && #[trigger] loaded.queue_consumers@[k].queue@ == queue {
                    let k = choose|k: int|
                        0 <= k < i + 1 && #[trigger] loaded.queue_consumers@[k].queue@ == queue;
                    if k < i {
                        assert(before.contains_key(queue));
                    }
                }
            }
        }
        i = i + 1;
    }
    r
}

/// Whether a list of dependencies is exactly a script's: its services in
/// order, then every queue it reaches once, in order of text.
pub open spec fn lists_dependencies<D>(
    items: Seq<DependencyView>,
    loaded: LoadedDeployment<D>,
) -> bool {
    let n = loaded.services@.len() as int;
    &&& items.len() >= n
    &&& forall|i: int|
        0 <= i < n ==> #[trigger] items[i] == DependencyView::Service(loaded.services@[i]@)
    &&& forall|i: int|
        n <= i < items.len() ==> (#[trigger] items[i]) is Queue && reaches_queue(
            loaded,
            items[i]->Queue_0,
        )
    &&& forall|i: int, j: int|
        n <= i < j < items.len() ==> text::text_less(
            (#[trigger] items[i])->Queue_0,
            (#[trigger] items[j])->Queue_0,
        )
    &&& forall|queue: Seq<char>|
        reaches_queue(loaded, queue) ==> exists|i: int|
            n <= i < items.len() && #[trigger] items[i] == DependencyView::Queue(queue)
}

fn reached_queues<D>(loaded: &LoadedDeployment<D>) -> (r: TextMap<bool>)
    ensures
        forall|queue: Seq<char>| #[trigger] r@.contains_key(queue) <==> reaches_queue(*loaded, queue),
{
    let mut r = consumed_queues(loaded);
    let mut i: usize = 0;
    while i < loaded.queue_bindings.len()
        invariant
            i <= loaded.queue_bindings@.len(),
            forall|queue: Seq<char>| #[trigger]
                r@.contains_key(queue) <==> consumes(*loaded, queue) || exists|k: int|
                    0 <= k < i && #[trigger] loaded.queue_bindings@[k].queue@ == queue,
        decreases loaded.queue_bindings.len() - i,
    {
        let ghost before = r@;
        r.insert(loaded.queue_bindings[i].queue.clone(), true);
        proof {
            let name = loaded.queue_bindings@[i as int].queue@;
            assert forall|queue: Seq<char>| #[trigger] r@.contains_key(queue) <==> consumes(
                *loaded,
                queue,
            ) || exists|k: int|
                0 <= k < i + 1 && #[trigger] loaded.queue_bindings@[k].queue@ == queue by {
                if r@.contains_key(queue) && queue != name {
                    assert(before.contains_key(queue));
                    if !consumes(*loaded, queue) {
                        let k = choose|k: int|
                            0 <= k < i && #[trigger] loaded.queue_bindings@[k].queue@ == queue;
                        assert(loaded.queue_bindings@[k].queue@ == queue);
                    }
                }
                if exists|k: int|
                    0 <= k < i + 1 && #[trigger] loaded.queue_bindings@[k].queue@ == queue {
                    let k = choose|k: int|
                        0 <= k < i + 1 && #[trigger] loaded.queue_bindings@[k].queue@ == queue;
                    if k < i {
                        assert(before.contains_key(queue));
                    }
                }
                if consumes(*loaded, queue) {
                    assert(before.contains_key(queue));
                }
            }
        }
        i = i + 1;
    }
    let ghost base = r@;
    let mut j: usize = 0;
    while j < loaded.queue_consumers.len()
        invariant
            j <= loaded.queue_consumers@.len(),
            forall|queue: Seq<char>| #[trigger]
                r@.contains_key(queue) <==> base.contains_key(queue) || exists|k: int|
                    0 <= k < j && (
                    #[trigger] loaded.queue_consumers@[k]).dead_letter_queue is Some
                        && loaded.queue_consumers@[k].dead_letter_queue->0@ == queue,
        decreases loaded.queue_consumers.len() - j,
    {
        let ghost before = r@;
        if let Some(dead) = &loaded.queue_consumers[j].dead_letter_queue {
            r.insert(dead.clone(), true);
        }
        proof {
            let here = loaded.queue_consumers@[j as int];
            assert forall|queue: Seq<char>| #[trigger] r@.contains_key(queue) <==> base.contains_key(
                queue,
            ) || exists|k: int|
                0 <= k < j + 1 && (
                #[trigger] loaded.queue_consumers@[k]).dead_letter_queue is Some
                    && loaded.queue_consumers@[k].dead_letter_queue->0@ == queue by {
                let is_here = here.dead_letter_queue is Some && here.dead_letter_queue->0@ == queue;
                if r@.contains_key(queue) && !is_here {
                    assert(before.contains_key(queue));
                    if !base.contains_key(queue) {
                        let k = choose|k: int|
                            0 <= k < j && (
                            #[trigger] loaded.queue_consumers@[k]).dead_letter_queue is Some
                                && loaded.queue_consumers@[k].dead_letter_queue->0@ == queue;
                        assert(loaded.queue_consumers@[k].dead_letter_queue is Some);
                    }
                }
                if exists|k: int|
                    0 <= k < j + 1 && (
                    #[trigger] loaded.queue_consumers@[k]).dead_letter_queue is Some
                        && loaded.queue_consumers@[k].dead_letter_queue->0@ == queue {
                    let k = choose|k: int|
                        0 <= k < j + 1 && (
                        #[trigger] loaded.queue_consumers@[k]).dead_letter_queue is Some
                            && loaded.queue_consumers@[k].dead_letter_queue->0@ == queue;
                    if k < j {
                        assert(before.contains_key(queue));
                    }
                }
                if base.contains_key(queue) {
                    assert(before.contains_key(queue));
                }
            }
        }
        j = j + 1;
    }
    r
}

/// What a script needs beside itself.
pub fn dependencies_of<D>(loaded: &LoadedDeployment<D>) -> (r: Vec<Dependency>)
    ensures
        lists_dependencies(dependency_views(r@), *loaded),
{
    let mut r: Vec<Dependency> = Vec::new();
    let mut i: usize = 0;
    while i < loaded.services.len()
        invariant
            i <= loaded.services@.len(),
            r@.len() == i,
            forall|k: int|
                0 <= k < i ==> (#[trigger] r@[k])@ == DependencyView::Service(
                    loaded.services@[k]@,
                ),
        decreases loaded.services.len() - i,
    {
        r.push(Dependency::Service(loaded.services[i].clone()));
        i = i + 1;
    }
    let set = reached_queues(loaded);
    let queues = set.keys();
    let ghost n = loaded.services@.len();
    let mut j: usize = 0;
    while j < queues.len()
        invariant
            j <= queues@.len(),
            n == loaded.services@.len(),
            r@.len() == n + j,
            forall|k: int|
                0 <= k < n ==> (#[trigger] r@[k])@ == DependencyView::Service(
                    loaded.services@[k]@,
                ),
            forall|k: int|
                n <= k < n + j ==> (#[trigger] r@[k])@ == DependencyView::Queue(queues@[k - n]@),
        decreases queues.len() - j,
    {
        r.push(Dependency::Queue(queues[j].clone()));
        j = j + 1;
    }
    proof {
        let items = dependency_views(r@);
        assert forall|k: int| n <= k < items.len() implies (#[trigger] items[k]) is Queue
            && reaches_queue(*loaded, items[k]->Queue_0) by {
            assert(items[k] == r@[k]@);
            let name = queues@[k - n]@;
            assert(maps::views(queues@)[k - n] == name);
            assert(maps::views(queues@).to_set().contains(name));
            assert(set@.contains_key(name));
        }
        assert forall|a: int, b: int| n <= a < b < items.len() implies text::text_less(
            (#[trigger] items[a])->Queue_0,
            (#[trigger] items[b])->Queue_0,
        ) by {
            assert(items[a] == r@[a]@ && items[b] == r@[b]@);
            assert(text::text_less(queues@[a - n]@, queues@[b - n]@));
        }
        assert forall|queue: Seq<char>| reaches_queue(*loaded, queue) implies exists|k: int|
            n <= k < items.len() && #[trigger] items[k] == DependencyView::Queue(queue) by {
            assert(set@.contains_key(queue));
            assert(maps::views(queues@).to_set().contains(queue));
            let k = choose|k: int|
                0 <= k < maps::views(queues@).len() && maps::views(queues@)[k] == queue;
            assert(items[n + k] == r@[n + k]@);
            assert(queues@[k]@ == queue);
        }
        assert forall|k: int| 0 <= k < n implies #[trigger] items[k] == DependencyView::Service(
            loaded.services@[k]@,
        ) by {
            assert(items[k] == r@[k]@);
        }
    }
    r
}

// ---- the walk ------------------------------------------------------------

/// A queue's consumer, as its attachment names it.
pub struct ConsumerAttachment {
    pub script_name: String,
    pub version: String,
    pub prefix: String,
}

/// Why a deployment's scripts do not resolve.
pub enum GraphError {
    /// A service's pointer named another script.
    WrongScript { target: String, resolved: String },
    /// A loaded script consumes a queue that nothing is attached to.
    NoAttachment { script: String, queue: String },
    /// A queue is attached to one script and consumed by another.
    OtherConsumer { queue: String, attached: String, script: String },
    /// A queue is attached to another deployment of a loaded script.
    OtherDeployment { queue: String, version: String, script: String, prefix: String },
    /// A queue is attached to a loaded script that does not consume it.
    NotConsumed { queue: String, script: String },
    /// One script resolved twice.
    LoadedTwice { script: String },
}

/// The words a text is quoted in: `Debug` of `str`.
pub uninterp spec fn quoted(text: Seq<char>) -> Seq<char>;

/// `Debug` of `str`: the text in quotation marks with its special characters
/// escaped, which is a function of the text.
#[verifier::external_body]
pub(crate) fn quote(text: &str) -> (r: String)
    ensures
        r@ == quoted(text@),
{
    format!("{text:?}")
}

impl GraphError {
    pub open spec fn words(self) -> Seq<char> {
        match self {
            GraphError::WrongScript { target, resolved } => "service pointer "@ + target@
                + " resolved script "@ + resolved@,
            GraphError::NoAttachment { script, queue } => "script "@ + quoted(script@)
                + " consumes queue "@ + quoted(queue@)
                + ", but the queue has no active consumer attachment; re-run `celld deploy`"@,
            GraphError::OtherConsumer { queue, attached, script } => "queue "@ + quoted(queue@)
                + " is attached to script "@ + quoted(attached@) + ", but loaded script "@ + quoted(
                script@,
            ) + " also consumes it"@,
            GraphError::OtherDeployment { queue, version, script, prefix } => "queue "@ + quoted(
                queue@,
            ) + " is attached to deployment "@ + version@ + " of script "@ + quoted(script@)
                + ", but deployment "@ + prefix@
                + " is already loaded; re-run `celld deploy`"@,
            GraphError::NotConsumed { queue, script } => "queue "@ + quoted(queue@)
                + " is attached to script "@ + quoted(script@)
                + ", but its loaded deployment does not consume that queue"@,
            GraphError::LoadedTwice { script } => "script "@ + quoted(script@)
                + " was loaded twice"@,
        }
    }

    pub fn message(&self) -> (r: String)
        ensures
            r@ == self.words(),
    {
        match self {
            GraphError::WrongScript { target, resolved } => {
                let mut r = String::from_str("service pointer ");
                r.append(target.as_str());
                r.append(" resolved script ");
                r.append(resolved.as_str());
                r
            },
            GraphError::NoAttachment { script, queue } => {
                let mut r = String::from_str("script ");
                r.append(quote(script.as_str()).as_str());
                r.append(" consumes queue ");
                r.append(quote(queue.as_str()).as_str());
                r.append(
                    ", but the queue has no active consumer attachment; re-run `celld deploy`",
                );
                r
            },
            GraphError::OtherConsumer { queue, attached, script } => {
                let mut r = String::from_str("queue ");
                r.append(quote(queue.as_str()).as_str());
                r.append(" is attached to script ");
                r.append(quote(attached.as_str()).as_str());
                r.append(", but loaded script ");
                r.append(quote(script.as_str()).as_str());
                r.append(" also consumes it");
                r
            },
            GraphError::OtherDeployment { queue, version, script, prefix } => {
                let mut r = String::from_str("queue ");
                r.append(quote(queue.as_str()).as_str());
                r.append(" is attached to deployment ");
                r.append(version.as_str());
                r.append(" of script ");
                r.append(quote(script.as_str()).as_str());
                r.append(", but deployment ");
                r.append(prefix.as_str());
                r.append(" is already loaded; re-run `celld deploy`");
                r
            },
            GraphError::NotConsumed { queue, script } => {
                let mut r = String::from_str("queue ");
                r.append(quote(queue.as_str()).as_str());
                r.append(" is attached to script ");
                r.append(quote(script.as_str()).as_str());
                r.append(", but its loaded deployment does not consume that queue");
                r
            },
            GraphError::LoadedTwice { script } => {
                let mut r = String::from_str("script ");
                r.append(quote(script.as_str()).as_str());
                r.append(" was loaded twice");
                r
            },
        }
    }
}

/// What the walk asks for next.
pub enum WalkAction {
    /// The deployment that a script's own pointer names.
    LoadService(String),
    /// The attachment of a queue.
    FindConsumer(String),
    /// Nothing: every dependency is resolved.
    Done,
}

/// What is to be done about a queue's consumer.
pub enum ConsumerAction {
    /// Nothing more is needed for the queue.
    Resolved,
    /// The attached deployment is to be loaded.
    Load(ConsumerAttachment),
}

/// What the walk handed out and has no answer to yet.
pub enum Asked {
    Nothing,
    /// The deployment that a service's pointer names.
    Service(String),
    /// The attachment of a queue.
    Queue(String),
    /// The deployment that a queue is attached to.
    Consumer(String),
}

pub enum AskedView {
    Nothing,
    Service(Seq<char>),
    Queue(Seq<char>),
    Consumer(Seq<char>),
}

impl View for Asked {
    type V = AskedView;

    open spec fn view(&self) -> AskedView {
        match self {
            Asked::Nothing => AskedView::Nothing,
            Asked::Service(script) => AskedView::Service(script@),
            Asked::Queue(queue) => AskedView::Queue(queue@),
            Asked::Consumer(queue) => AskedView::Consumer(queue@),
        }
    }
}

impl AskedView {
    /// Whether it is this queue's consumer that is looked for.
    pub open spec fn of_queue(self, queue: Seq<char>) -> bool {
        self == AskedView::Queue(queue) || self == AskedView::Consumer(queue)
    }
}

/// The walk over a deployment's dependencies, between two loads. `consumers` is
/// an index: the queues that each loaded script consumes.
pub struct GraphWalk<D> {
    primary: LoadedDeployment<D>,
    cohosted: Vec<LoadedDeployment<D>>,
    scripts: TextMap<String>,
    consumers: TextMap<TextMap<bool>>,
    visited: TextMap<bool>,
    attached: TextMap<Option<String>>,
    dependencies: Vec<Dependency>,
    asked: Asked,
}

#[verifier::ext_equal]
pub struct WalkView<D> {
    pub primary: LoadedDeployment<D>,
    pub cohosted: Seq<LoadedDeployment<D>>,
    /// The deployment each loaded script came from.
    pub scripts: Map<Seq<char>, Seq<char>>,
    /// The queues whose consumer was asked for.
    pub visited: Set<Seq<char>>,
    /// The script that consumes each queue whose consumer was looked for, or
    /// none where nothing is attached to it.
    pub attached: Map<Seq<char>, Option<Seq<char>>>,
    pub dependencies: Seq<DependencyView>,
    pub asked: AskedView,
}

impl<D> View for GraphWalk<D> {
    type V = WalkView<D>;

    closed spec fn view(&self) -> WalkView<D> {
        WalkView {
            primary: self.primary,
            cohosted: self.cohosted@,
            scripts: self.scripts@.map_values(|p: String| p@),
            visited: self.visited@.dom(),
            attached: self.attached@.map_values(|script: Option<String>| optional(script)),
            dependencies: dependency_views(self.dependencies@),
            asked: self.asked@,
        }
    }
}

/// Whether one of the scripts has this name.
pub open spec fn has_script<D>(scripts: Seq<LoadedDeployment<D>>, name: Seq<char>) -> bool {
    exists|i: int| 0 <= i < scripts.len() && (#[trigger] scripts[i]).script_name@ == name
}

/// Whether a script binds a service of this name.
pub open spec fn binds_service<D>(loaded: LoadedDeployment<D>, name: Seq<char>) -> bool {
    exists|i: int| 0 <= i < loaded.services@.len() && #[trigger] loaded.services@[i]@ == name
}

/// Whether the scripts hold everything they need: the script of each service
/// that one of them binds, and the consumer of each queue that one of them
/// reaches, where the queue has one.
pub open spec fn resolves<D>(
    scripts: Seq<LoadedDeployment<D>>,
    attached: Map<Seq<char>, Option<Seq<char>>>,
) -> bool {
    &&& forall|i: int, name: Seq<char>|
        #![trigger binds_service(scripts[i], name)]
        0 <= i < scripts.len() && binds_service(scripts[i], name) ==> has_script(scripts, name)
    &&& forall|i: int, queue: Seq<char>|
        #![trigger reaches_queue(scripts[i], queue)]
        0 <= i < scripts.len() && reaches_queue(scripts[i], queue) ==> attached.contains_key(queue)
    &&& forall|queue: Seq<char>| #[trigger]
        attached.contains_key(queue) ==> match attached[queue] {
            Some(name) => has_script(scripts, name),
            None => true,
        }
}

impl<D> WalkView<D> {
    /// The scripts that were loaded, the primary first.
    pub open spec fn loaded(self) -> Seq<LoadedDeployment<D>> {
        seq![self.primary] + self.cohosted
    }

    /// No script is loaded twice, and what is known of each is what it was
    /// loaded from.
    pub open spec fn consistent(self) -> bool {
        &&& forall|i: int, j: int|
            0 <= i < j < self.loaded().len() ==> (#[trigger] self.loaded()[i]).script_name@ != (
            #[trigger] self.loaded()[j]).script_name@
        &&& forall|i: int|
            0 <= i < self.loaded().len() ==> self.scripts.contains_key(
                (#[trigger] self.loaded()[i]).script_name@,
            ) && self.scripts[self.loaded()[i].script_name@] == self.loaded()[i].prefix@
        &&& forall|script: Seq<char>| #[trigger]
            self.scripts.contains_key(script) ==> exists|i: int|
                0 <= i < self.loaded().len() && (#[trigger] self.loaded()[i]).script_name@
                    == script
    }

    /// Whether a loaded script consumes the queue.
    pub open spec fn consumed_by(self, script: Seq<char>, queue: Seq<char>) -> bool {
        exists|i: int|
            0 <= i < self.loaded().len() && (#[trigger] self.loaded()[i]).script_name@ == script
                && consumes(self.loaded()[i], queue)
    }

    /// The loaded script that is named as the queue's consumer: the first one
    /// in the order of text.
    pub open spec fn declares(self, script: Seq<char>, queue: Seq<char>) -> bool {
        &&& self.consumed_by(script, queue)
        &&& forall|other: Seq<char>| #[trigger]
            self.consumed_by(other, queue) ==> other == script || text::text_less(script, other)
    }

    pub open spec fn undeclared(self, queue: Seq<char>) -> bool {
        forall|other: Seq<char>| !#[trigger] self.consumed_by(other, queue)
    }

    /// What comes of a queue's attachment. A queue that a loaded script
    /// consumes must be attached to that script, and an attachment to a loaded
    /// script must name the very deployment that was loaded.
    pub open spec fn consumer_answer(
        self,
        queue: Seq<char>,
        attachment: Option<ConsumerAttachment>,
        r: Result<ConsumerAction, GraphError>,
    ) -> bool {
        match attachment {

            None => match r {
                Ok(action) => action is Resolved && self.undeclared(queue),
                Err(error) => error matches GraphError::NoAttachment { script, queue: q }
                    && self.declares(script@, queue) && q@ == queue,
            },
            Some(found) => {
                let name = found.script_name@;
                let is_loaded = self.scripts.contains_key(name);
                match r {
                    Err(GraphError::OtherConsumer { queue: q, attached, script }) => {
                        &&& q@ == queue && attached@ == name
                        &&& self.declares(script@, queue) && script@ != name
                    },
                    Err(GraphError::OtherDeployment { queue: q, version, script, prefix }) => {
                        &&& q@ == queue && version@ == found.version@ && script@ == name
                        &&& self.undeclared(queue) || self.declares(name, queue)
                        &&& is_loaded && self.scripts[name] == prefix@ && prefix@
                            != found.prefix@
                    },
                    Err(GraphError::NotConsumed { queue: q, script }) => {
                        &&& q@ == queue && script@ == name
                        &&& self.undeclared(queue) || self.declares(name, queue)
                        &&& is_loaded && self.scripts[name] == found.prefix@
                        &&& !self.consumed_by(name, queue)
                    },
                    Err(_) => false,
                    Ok(ConsumerAction::Resolved) => {
                        &&& self.declares(name, queue)
                        &&& is_loaded && self.scripts[name] == found.prefix@
                    },
                    Ok(ConsumerAction::Load(load)) => {
                        &&& load == found
                        &&& self.undeclared(queue)
                        &&& !is_loaded
                    },
                }
            },
        }
    }

    /// Whether a dependency still waits for its turn.
    pub open spec fn waits(self, dependency: DependencyView) -> bool {
        exists|i: int| 0 <= i < self.dependencies.len() && #[trigger] self.dependencies[i] == dependency
    }

    /// Nothing that a loaded script needs is forgotten: it is there, waits, or
    /// was asked for.
    pub open spec fn forgets_nothing(self) -> bool {
        &&& forall|i: int, name: Seq<char>|
            #![trigger binds_service(self.loaded()[i], name)]
            0 <= i < self.loaded().len() && binds_service(self.loaded()[i], name)
                ==> self.scripts.contains_key(name) || self.waits(DependencyView::Service(name))
                || self.asked == AskedView::Service(name)
        &&& forall|i: int, queue: Seq<char>|
            #![trigger reaches_queue(self.loaded()[i], queue)]
            0 <= i < self.loaded().len() && reaches_queue(self.loaded()[i], queue)
                ==> self.visited.contains(queue) || self.waits(DependencyView::Queue(queue))
        &&& forall|queue: Seq<char>| #[trigger]
            self.visited.contains(queue) ==> self.attached.contains_key(queue)
                || self.asked.of_queue(queue)
        &&& forall|queue: Seq<char>| #[trigger]
            self.attached.contains_key(queue) ==> match self.attached[queue] {
                Some(name) => self.scripts.contains_key(name),
                None => true,
            }
    }

    /// Whether a dependency is resolved already.
    pub open spec fn resolved(self, dependency: DependencyView) -> bool {
        match dependency {
            DependencyView::Service(script) => self.scripts.contains_key(script),
            DependencyView::Queue(queue) => self.visited.contains(queue),
        }
    }

    /// The walk after its next open dependency was taken off.
    pub open spec fn advanced(self) -> Self
        decreases self.dependencies.len(),
    {
        if self.dependencies.len() == 0 {
            self
        } else {
            let rest = WalkView { dependencies: self.dependencies.skip(1), ..self };
            if self.resolved(self.dependencies[0]) {
                rest.advanced()
            } else {
                match self.dependencies[0] {
                    DependencyView::Service(script) => WalkView {
                        asked: AskedView::Service(script),
                        ..rest
                    },
                    DependencyView::Queue(queue) => WalkView {
                        visited: self.visited.insert(queue),
                        asked: AskedView::Queue(queue),
                        ..rest
                    },
                }
            }
        }
    }

    /// The next open dependency.
    pub open spec fn next_open(self) -> Option<DependencyView>
        decreases self.dependencies.len(),
    {
        if self.dependencies.len() == 0 {
            None
        } else if self.resolved(self.dependencies[0]) {
            WalkView { dependencies: self.dependencies.skip(1), ..self }.next_open()
        } else {
            Some(self.dependencies[0])
        }
    }
}

impl<D> GraphWalk<D> {
    pub closed spec fn wf(&self) -> bool {
        &&& self@.consistent()
        &&& self@.forgets_nothing()
        &&& forall|script: Seq<char>| #[trigger]
            self.consumers@.contains_key(script) <==> self.scripts@.contains_key(script)
        &&& forall|script: Seq<char>, queue: Seq<char>|
            self.consumers@.contains_key(script) ==> (
            #[trigger] self.consumers@[script]@.contains_key(queue) <==> self@.consumed_by(
                script,
                queue,
            ))
    }

    /// The walk that starts from a primary script.
    pub fn start(primary: LoadedDeployment<D>) -> (r: Self)
        ensures
            r.wf(),
            r@.primary == primary,
            r@.cohosted.len() == 0,
            r@.scripts == Map::<Seq<char>, Seq<char>>::empty().insert(
                primary.script_name@,
                primary.prefix@,
            ),
            r@.visited == Set::<Seq<char>>::empty(),
            r@.attached == Map::<Seq<char>, Option<Seq<char>>>::empty(),
            r@.asked is Nothing,
            lists_dependencies(r@.dependencies, primary),
    {
        let mut scripts: TextMap<String> = TextMap::new();
        scripts.insert(primary.script_name.clone(), primary.prefix.clone());
        let mut consumers: TextMap<TextMap<bool>> = TextMap::new();
        let queues = consumed_queues(&primary);
        consumers.insert(primary.script_name.clone(), queues);
        let dependencies = dependencies_of(&primary);
        let r = GraphWalk {
            primary,
            cohosted: Vec::new(),
            scripts,
            consumers,
            visited: TextMap::new(),
            attached: TextMap::new(),
            dependencies,
            asked: Asked::Nothing,
        };
        proof {
            assert(r@.scripts =~= Map::<Seq<char>, Seq<char>>::empty().insert(
                primary.script_name@,
                primary.prefix@,
            ));
            assert(r@.visited =~= Set::<Seq<char>>::empty());
            assert(r@.attached =~= Map::<Seq<char>, Option<Seq<char>>>::empty());
            assert(r@.loaded() =~= seq![primary]);
            assert(r@.loaded()[0] == primary);
            assert(r@.dependencies.skip(0) =~= r@.dependencies);
            lemma_listed_waits(r@, 0, primary);
        }
        r
    }

    /// Takes the next dependency that is not resolved off the list, once the
    /// one before it is settled.
    pub fn next_action(&mut self) -> (r: WalkAction)
        requires
            old(self).wf(),
            old(self)@.asked is Nothing,
        ensures
            final(self).wf(),
            final(self)@ == old(self)@.advanced(),
            match r {
                WalkAction::LoadService(script) => old(self)@.next_open() == Some(
                    DependencyView::Service(script@),
                ) && !final(self)@.scripts.contains_key(script@)
                    && final(self)@.asked == AskedView::Service(script@),
                WalkAction::FindConsumer(queue) => old(self)@.next_open() == Some(
                    DependencyView::Queue(queue@),
                ) && !old(self)@.visited.contains(queue@)
                    && final(self)@.asked == AskedView::Queue(queue@),
                WalkAction::Done => old(self)@.next_open() is None
                    && final(self)@.dependencies.len() == 0 && final(self)@.asked is Nothing,
            },
    {
        while self.dependencies.len() > 0
            invariant
                self.wf(),
                self@.advanced() == old(self)@.advanced(),
                self@.next_open() == old(self)@.next_open(),
                self@.scripts == old(self)@.scripts,
                self@.visited == old(self)@.visited,
                self@.asked is Nothing,
            decreases self.dependencies.len(),
        {
            let ghost before = self@;
            let ghost was = self.dependencies@;
            let dependency = self.dependencies.remove(0);
            proof {
                assert(dependency_views(self.dependencies@) =~= before.dependencies.skip(1));
                assert(self@ =~= (WalkView { dependencies: before.dependencies.skip(1), ..before }));
                assert(before.dependencies[0] == dependency@);
                lemma_same_consumers(before, self@);
                lemma_first_leaves(before);
            }
            match dependency {
                Dependency::Service(script) => {
                    if !self.scripts.contains(script.as_str()) {
                        assert(!before.resolved(before.dependencies[0]));
                        let ghost rest = self@;
                        self.asked = Asked::Service(script.clone());
                        proof {
                            assert(self@ =~= (WalkView {
                                asked: AskedView::Service(script@),
                                ..rest
                            }));
                            lemma_same_consumers(rest, self@);
                            lemma_same_waits(rest, self@);
                        }
                        return WalkAction::LoadService(script);
                    }
                    assert(before.resolved(before.dependencies[0]));
                },
                Dependency::Queue(queue) => {
                    if !self.visited.contains(queue.as_str()) {
                        let ghost rest = self@;
                        self.visited.insert(queue.clone(), true);
                        self.asked = Asked::Queue(queue.clone());
                        proof {
                            assert(self@ =~= (WalkView {
                                visited: before.visited.insert(queue@),
                                asked: AskedView::Queue(queue@),
                                ..rest
                            }));
                            lemma_same_consumers(rest, self@);
                            lemma_same_waits(rest, self@);
                            assert(!before.resolved(before.dependencies[0]));
                        }
                        return WalkAction::FindConsumer(queue);
                    }
                    assert(before.resolved(before.dependencies[0]));
                },
            }
        }
        assert(self@.dependencies.len() == 0);
        WalkAction::Done
    }

    fn is_consumed_by(&self, script: &str, queue: &str) -> (r: bool)
        requires
            self.wf(),
        ensures
            r == self@.consumed_by(script@, queue@),
    {
        match self.consumers.get(script) {
            Some(queues) => {
                assert(self.consumers@[script@]@.contains_key(queue@) <==> self@.consumed_by(
                    script@,
                    queue@,
                ));
                queues.contains(queue)
            },
            None => {
                proof {
                    if self@.consumed_by(script@, queue@) {
                        let i = choose|i: int|
                            0 <= i < self@.loaded().len() && (
                            #[trigger] self@.loaded()[i]).script_name@ == script@ && consumes(
                                self@.loaded()[i],
                                queue@,
                            );
                        assert(self@.scripts.contains_key(self@.loaded()[i].script_name@));
                        assert(self.scripts@.contains_key(script@));
                        assert(self.consumers@.contains_key(script@));
                    }
                }
                false
            },
        }
    }

    /// The loaded script that is named as the queue's consumer.
    fn declared_by(&self, queue: &str) -> (r: Option<String>)
        requires
            self.wf(),
        ensures
            match r {
                Some(script) => self@.declares(script@, queue@),
                None => self@.undeclared(queue@),
            },
    {
        let scripts = self.consumers.keys();
        let mut i: usize = 0;
        while i < scripts.len()
            invariant
                i <= scripts@.len(),
                self.wf(),
                maps::ascending_text(scripts@),
                maps::views(scripts@).to_set() == self.consumers@.dom(),
                forall|k: int| 0 <= k < i ==> !self@.consumed_by(#[trigger] scripts@[k]@, queue@),
            decreases scripts.len() - i,
        {
            if self.is_consumed_by(scripts[i].as_str(), queue) {
                proof {
                    let script = scripts@[i as int]@;
                    assert forall|other: Seq<char>| #[trigger]
                        self@.consumed_by(other, queue@) implies other == script
                        || text::text_less(script, other) by {
                        self.lemma_consumer_listed(other, queue@, scripts@);
                        let k = choose|k: int|
                            0 <= k < scripts@.len() && #[trigger] scripts@[k]@ == other;
                        if k > i {
                            assert(text::text_less(scripts@[i as int]@, scripts@[k]@));
                        }
                    }
                }
                return Some(scripts[i].clone());
            }
            i = i + 1;
        }
        proof {
            assert forall|other: Seq<char>| !#[trigger] self@.consumed_by(other, queue@) by {
                if self@.consumed_by(other, queue@) {
                    self.lemma_consumer_listed(other, queue@, scripts@);
                    let k = choose|k: int|
                        0 <= k < scripts@.len() && #[trigger] scripts@[k]@ == other;
                    assert(!self@.consumed_by(scripts@[k]@, queue@));
                }
            }
        }
        None
    }

    proof fn lemma_consumer_listed(&self, script: Seq<char>, queue: Seq<char>, keys: Seq<String>)
        requires
            self.wf(),
            self@.consumed_by(script, queue),
            maps::views(keys).to_set() == self.consumers@.dom(),
        ensures
            exists|k: int| 0 <= k < keys.len() && #[trigger] keys[k]@ == script,
    {
        let i = choose|i: int|
            0 <= i < self@.loaded().len() && (#[trigger] self@.loaded()[i]).script_name@ == script
                && consumes(self@.loaded()[i], queue);
        assert(self@.scripts.contains_key(self@.loaded()[i].script_name@));
        assert(self.scripts@.contains_key(script));
        assert(self.consumers@.contains_key(script));
        assert(maps::views(keys).to_set().contains(script));
        let k = choose|k: int| 0 <= k < maps::views(keys).len() && maps::views(keys)[k] == script;
        assert(keys[k]@ == script);
    }

    /// Takes in what a queue is attached to. A queue that a loaded script
    /// consumes must be attached to that script, and an attachment to a loaded
    /// script must name the very deployment that was loaded.
    pub fn consumer_found(&mut self, queue: &str, attachment: Option<ConsumerAttachment>) -> (r:
        Result<ConsumerAction, GraphError>)
        requires
            old(self).wf(),
            old(self)@.asked == AskedView::Queue(queue@),
        ensures
            final(self).wf(),
            final(self)@ == (match r {
                Ok(ConsumerAction::Resolved) => WalkView {
                    attached: old(self)@.attached.insert(
                        queue@,
                        match attachment {
                            Some(found) => Some(found.script_name@),
                            None => None,
                        },
                    ),
                    asked: AskedView::Nothing,
                    ..old(self)@
                },
                Ok(ConsumerAction::Load(_)) => WalkView {
                    asked: AskedView::Consumer(queue@),
                    ..old(self)@
                },
                Err(_) => old(self)@,
            }),
            old(self)@.consumer_answer(queue@, attachment, r),
    {
        let ghost before = self@;
        let script = script_of(&attachment);
        let ghost name = optional(script);
        let r = self.judge(queue, attachment);
        match &r {
            Ok(ConsumerAction::Resolved) => {
                self.attached.insert(String::from_str(queue), script);
                self.asked = Asked::Nothing;
            },
            Ok(ConsumerAction::Load(_)) => {
                self.asked = Asked::Consumer(String::from_str(queue));
            },
            Err(_) => {},
        }
        proof {
            let expected = match r {
                Ok(ConsumerAction::Resolved) => WalkView {
                    attached: before.attached.insert(
                        queue@,
                        name,
                    ),
                    asked: AskedView::Nothing,
                    ..before
                },
                Ok(ConsumerAction::Load(_)) => WalkView {
                    asked: AskedView::Consumer(queue@),
                    ..before
                },
                Err(_) => before,
            };
            assert(self@.attached =~= expected.attached);
            assert(self@ =~= expected);
            lemma_same_consumers(before, self@);
            lemma_same_waits(before, self@);
        }
        r
    }

    fn judge(&self, queue: &str, attachment: Option<ConsumerAttachment>) -> (r: Result<
        ConsumerAction,
        GraphError,
    >)
        requires
            self.wf(),
        ensures
            self@.consumer_answer(queue@, attachment, r),
    {
        let declared = self.declared_by(queue);
        let found = match attachment {
            None => {
                return match declared {
                    Some(script) => Err(
                        GraphError::NoAttachment { script, queue: String::from_str(queue) },
                    ),
                    None => Ok(ConsumerAction::Resolved),
                };
            },
            Some(found) => found,
        };
        if let Some(script) = &declared {
            if !text::same(script.as_str(), found.script_name.as_str()) {
                return Err(
                    GraphError::OtherConsumer {
                        queue: String::from_str(queue),
                        attached: found.script_name,
                        script: script.clone(),
                    },
                );
            }
        }
        match self.scripts.get(found.script_name.as_str()) {
            Some(prefix) => {
                if !text::same(prefix.as_str(), found.prefix.as_str()) {
                    return Err(
                        GraphError::OtherDeployment {
                            queue: String::from_str(queue),
                            version: found.version,
                            script: found.script_name,
                            prefix: prefix.clone(),
                        },
                    );
                }
                if !self.is_consumed_by(found.script_name.as_str(), queue) {
                    return Err(
                        GraphError::NotConsumed {
                            queue: String::from_str(queue),
                            script: found.script_name,
                        },
                    );
                }
                Ok(ConsumerAction::Resolved)
            },
            None => {
                proof {
                    if declared is Some {
                        let i = choose|i: int|
                            0 <= i < self@.loaded().len() && (
                            #[trigger] self@.loaded()[i]).script_name@ == found.script_name@
                                && consumes(self@.loaded()[i], queue@);
                        assert(self@.scripts.contains_key(self@.loaded()[i].script_name@));
                    }
                }
                Ok(ConsumerAction::Load(found))
            },
        }
    }

    /// Takes in the script that a service's pointer led to.
    pub fn service_loaded(&mut self, target: &str, loaded: LoadedDeployment<D>) -> (r: Result<
        (),
        GraphError,
    >)
        requires
            old(self).wf(),
            old(self)@.asked == AskedView::Service(target@),
        ensures
            final(self).wf(),
            match r {
                Ok(_) => loaded.script_name@ == target@ && adopts(
                    old(self)@,
                    loaded,
                    old(self)@.attached,
                    final(self)@,
                ),
                Err(GraphError::WrongScript { target: t, resolved }) => t@ == target@ && resolved@
                    == loaded.script_name@ && t@ != resolved@ && final(self)@ == old(self)@,
                Err(GraphError::LoadedTwice { script }) => script@ == target@
                    && loaded.script_name@ == target@ && old(self)@.scripts.contains_key(target@)
                    && final(self)@ == old(self)@,
                Err(_) => false,
            },
    {
        if !text::same(loaded.script_name.as_str(), target) {
            return Err(
                GraphError::WrongScript {
                    target: String::from_str(target),
                    resolved: loaded.script_name,
                },
            );
        }
        self.adopt(loaded, None)
    }

    /// Takes in the script that a queue is attached to.
    pub fn consumer_loaded(&mut self, queue: &str, loaded: LoadedDeployment<D>) -> (r: Result<
        (),
        GraphError,
    >)
        requires
            old(self).wf(),
            old(self)@.asked == AskedView::Consumer(queue@),
        ensures
            final(self).wf(),
            match r {
                Ok(_) => adopts(
                    old(self)@,
                    loaded,
                    old(self)@.attached.insert(queue@, Some(loaded.script_name@)),
                    final(self)@,
                ),
                Err(GraphError::LoadedTwice { script }) => script@ == loaded.script_name@
                    && old(self)@.scripts.contains_key(script@) && final(self)@ == old(self)@,
                Err(_) => false,
            },
    {
        self.adopt(loaded, Some(String::from_str(queue)))
    }

    /// Takes a script in: the one that was asked for, by a service or for a
    /// queue.
    fn adopt(&mut self, loaded: LoadedDeployment<D>, queue: Option<String>) -> (r: Result<
        (),
        GraphError,
    >)
        requires
            old(self).wf(),
            match queue {
                Some(queue) => old(self)@.asked == AskedView::Consumer(queue@),
                None => old(self)@.asked == AskedView::Service(loaded.script_name@),
            },
        ensures
            final(self).wf(),
            match r {
                Ok(_) => adopts(
                    old(self)@,
                    loaded,
                    match queue {
                        Some(queue) => old(self)@.attached.insert(
                            queue@,
                            Some(loaded.script_name@),
                        ),
                        None => old(self)@.attached,
                    },
                    final(self)@,
                ),
                Err(GraphError::LoadedTwice { script }) => script@ == loaded.script_name@
                    && old(self)@.scripts.contains_key(script@) && final(self)@ == old(self)@,
                Err(_) => false,
            },
    {
        let ghost before = self@;
        if self.scripts.contains(loaded.script_name.as_str()) {
            return Err(GraphError::LoadedTwice { script: loaded.script_name });
        }
        let ghost name = loaded.script_name@;
        let mut more = dependencies_of(&loaded);
        let ghost added = dependency_views(more@);
        let ghost old_dependencies = self.dependencies@;
        let ghost old_consumers = self.consumers@;
        self.scripts.insert(loaded.script_name.clone(), loaded.prefix.clone());
        let queues = consumed_queues(&loaded);
        let ghost mine = queues@;
        self.consumers.insert(loaded.script_name.clone(), queues);
        self.dependencies.append(&mut more);
        if let Some(queue) = queue {
            self.attached.insert(queue, Some(loaded.script_name.clone()));
        }
        self.asked = Asked::Nothing;
        self.cohosted.push(loaded);
        proof {
            let after = self@;
            assert(after.attached =~= match queue {
                Some(queue) => before.attached.insert(queue@, Some(name)),
                None => before.attached,
            });
            assert(after.dependencies =~= before.dependencies + added);
            assert(after.scripts =~= before.scripts.insert(name, loaded.prefix@));
            assert(after.cohosted =~= before.cohosted.push(loaded));
            assert(after.loaded() =~= before.loaded().push(loaded));
            let n = before.loaded().len() as int;
            assert(after.loaded()[n] == loaded);
            assert forall|i: int| 0 <= i < n implies after.loaded()[i] == before.loaded()[i]
                && before.loaded()[i].script_name@ != name by {
                assert(before.scripts.contains_key(before.loaded()[i].script_name@));
            }
            assert forall|script: Seq<char>| #[trigger]
                after.scripts.contains_key(script) implies exists|i: int|
                0 <= i < after.loaded().len() && (#[trigger] after.loaded()[i]).script_name@
                    == script by {
                if script == name {
                    assert(after.loaded()[n].script_name@ == script);
                } else {
                    assert(before.scripts.contains_key(script));
                    let i = choose|i: int|
                        0 <= i < before.loaded().len() && (
                        #[trigger] before.loaded()[i]).script_name@ == script;
                    assert(after.loaded()[i].script_name@ == script);
                }
            }
            assert forall|script: Seq<char>, queue: Seq<char>|
                self.consumers@.contains_key(script) implies (
            #[trigger] self.consumers@[script]@.contains_key(queue) <==> after.consumed_by(
                script,
                queue,
            )) by {
                if script == name {
                    assert(mine.contains_key(queue) <==> consumes(loaded, queue));
                    if consumes(loaded, queue) {
                        assert(after.loaded()[n].script_name@ == script);
                    }
                    if after.consumed_by(script, queue) {
                        let i = choose|i: int|
                            0 <= i < after.loaded().len() && (
                            #[trigger] after.loaded()[i]).script_name@ == script && consumes(
                                after.loaded()[i],
                                queue,
                            );
                        assert(i == n);
                    }
                } else {
                    assert(old_consumers.contains_key(script));
                    assert(old_consumers[script]@.contains_key(queue) <==> before.consumed_by(
                        script,
                        queue,
                    ));
                    if before.consumed_by(script, queue) {
                        let i = choose|i: int|
                            0 <= i < before.loaded().len() && (
                            #[trigger] before.loaded()[i]).script_name@ == script && consumes(
                                before.loaded()[i],
                                queue,
                            );
                        assert(after.loaded()[i].script_name@ == script);
                    }
                    if after.consumed_by(script, queue) {
                        let i = choose|i: int|
                            0 <= i < after.loaded().len() && (
                            #[trigger] after.loaded()[i]).script_name@ == script && consumes(
                                after.loaded()[i],
                                queue,
                            );
                        assert(i < n);
                        assert(before.loaded()[i].script_name@ == script);
                    }
                }
            }
            let waiting = before.dependencies.len() as int;
            assert(after.dependencies.take(waiting) =~= before.dependencies);
            assert(after.dependencies.skip(waiting) =~= added);
            assert(after.visited =~= before.visited);
            assert forall|dependency: DependencyView| #[trigger] before.waits(dependency) implies after.waits(
                dependency,
            ) by {
                let i = choose|i: int|
                    0 <= i < before.dependencies.len() && #[trigger] before.dependencies[i]
                        == dependency;
                assert(after.dependencies[i] == dependency);
            }
            lemma_listed_waits(after, waiting, loaded);
            assert forall|i: int, service: Seq<char>|
                #![trigger binds_service(after.loaded()[i], service)]
                0 <= i < after.loaded().len() && binds_service(
                    after.loaded()[i],
                    service,
                ) implies after.scripts.contains_key(service) || after.waits(
                DependencyView::Service(service),
            ) || after.asked == AskedView::Service(service) by {
                if i < n {
                    assert(binds_service(before.loaded()[i], service));
                }
            }
            assert forall|i: int, q: Seq<char>|
                #![trigger reaches_queue(after.loaded()[i], q)]
                0 <= i < after.loaded().len() && reaches_queue(
                    after.loaded()[i],
                    q,
                ) implies after.visited.contains(q) || after.waits(DependencyView::Queue(q)) by {
                if i < n {
                    assert(reaches_queue(before.loaded()[i], q));
                }
            }
        }
        Ok(())
    }

    /// The resolved graph, once nothing waits and nothing is asked: it holds
    /// every script that one of its scripts needs.
    pub fn finish(self) -> (r: DeploymentGraph<D>)
        requires
            self.wf(),
            self@.dependencies.len() == 0,
            self@.asked is Nothing,
        ensures
            r.primary == self@.primary,
            r.cohosted@ == self@.cohosted,
            self@.consistent(),
            resolves(r.scripts(), self@.attached),
    {
        proof {
            let scripts = seq![self.primary] + self.cohosted@;
            assert(scripts =~= self@.loaded());
            assert forall|name: Seq<char>| #[trigger] self@.scripts.contains_key(
                name,
            ) implies has_script(scripts, name) by {
                let i = choose|i: int|
                    0 <= i < self@.loaded().len() && (#[trigger] self@.loaded()[i]).script_name@
                        == name;
                assert(scripts[i].script_name@ == name);
            }
            assert forall|i: int, name: Seq<char>|
                #![trigger binds_service(scripts[i], name)]
                0 <= i < scripts.len() && binds_service(scripts[i], name) implies has_script(
                scripts,
                name,
            ) by {
                assert(binds_service(self@.loaded()[i], name));
                assert(self@.scripts.contains_key(name));
            }
            assert forall|i: int, queue: Seq<char>|
                #![trigger reaches_queue(scripts[i], queue)]
                0 <= i < scripts.len() && reaches_queue(
                    scripts[i],
                    queue,
                ) implies self@.attached.contains_key(queue) by {
                assert(reaches_queue(self@.loaded()[i], queue));
                assert(self@.visited.contains(queue));
            }
        }
        DeploymentGraph { primary: self.primary, cohosted: self.cohosted }
    }
}

/// The walk after one more script was loaded: its own dependencies queue up
/// behind the others.
pub open spec fn adopts<D>(
    before: WalkView<D>,
    loaded: LoadedDeployment<D>,
    attached: Map<Seq<char>, Option<Seq<char>>>,
    after: WalkView<D>,
) -> bool {
    &&& !before.scripts.contains_key(loaded.script_name@)
    &&& after.primary == before.primary
    &&& after.cohosted == before.cohosted.push(loaded)
    &&& after.scripts == before.scripts.insert(loaded.script_name@, loaded.prefix@)
    &&& after.visited == before.visited
    &&& after.attached == attached
    &&& after.asked is Nothing
    &&& after.dependencies.len() >= before.dependencies.len()
    &&& after.dependencies.take(before.dependencies.len() as int) == before.dependencies
    &&& lists_dependencies(
        after.dependencies.skip(before.dependencies.len() as int),
        loaded,
    )
}

fn script_of(attachment: &Option<ConsumerAttachment>) -> (r: Option<String>)
    ensures
        optional(r) == (match *attachment {
            Some(found) => Some(found.script_name@),
            None => None::<Seq<char>>,
        }),
{
    match attachment {
        Some(found) => Some(found.script_name.clone()),
        None => None,
    }
}

proof fn lemma_listed_waits<D>(view: WalkView<D>, from: int, loaded: LoadedDeployment<D>)
    requires
        0 <= from <= view.dependencies.len(),
        lists_dependencies(view.dependencies.skip(from), loaded),
    ensures
        forall|name: Seq<char>| #[trigger]
            binds_service(loaded, name) ==> view.waits(DependencyView::Service(name)),
        forall|queue: Seq<char>| #[trigger]
            reaches_queue(loaded, queue) ==> view.waits(DependencyView::Queue(queue)),
{
    let items = view.dependencies.skip(from);
    assert forall|name: Seq<char>| #[trigger] binds_service(loaded, name) implies view.waits(
        DependencyView::Service(name),
    ) by {
        let i = choose|i: int|
            0 <= i < loaded.services@.len() && #[trigger] loaded.services@[i]@ == name;
        assert(items[i] == DependencyView::Service(name));
        assert(view.dependencies[from + i] == DependencyView::Service(name));
    }
    assert forall|queue: Seq<char>| #[trigger] reaches_queue(loaded, queue) implies view.waits(
        DependencyView::Queue(queue),
    ) by {
        let i = choose|i: int|
            loaded.services@.len() <= i < items.len() && #[trigger] items[i]
                == DependencyView::Queue(queue);
        assert(view.dependencies[from + i] == DependencyView::Queue(queue));
    }
}

proof fn lemma_first_leaves<D>(view: WalkView<D>)
    requires
        view.dependencies.len() > 0,
    ensures
        forall|dependency: DependencyView| #[trigger]
            view.waits(dependency) ==> dependency == view.dependencies[0] || (WalkView {
                dependencies: view.dependencies.skip(1),
                ..view
            }).waits(dependency),
{
    let rest = WalkView { dependencies: view.dependencies.skip(1), ..view };
    assert forall|dependency: DependencyView| #[trigger] view.waits(dependency) implies dependency
        == view.dependencies[0] || rest.waits(dependency) by {
        let i = choose|i: int|
            0 <= i < view.dependencies.len() && #[trigger] view.dependencies[i] == dependency;
        if i > 0 {
            assert(rest.dependencies[i - 1] == dependency);
        }
    }
}

proof fn lemma_same_waits<D>(a: WalkView<D>, b: WalkView<D>)
    requires
        a.dependencies == b.dependencies,
    ensures
        forall|dependency: DependencyView| #[trigger] a.waits(dependency) == b.waits(dependency),
{
}

proof fn lemma_same_consumers<D>(a: WalkView<D>, b: WalkView<D>)
    requires
        a.loaded() == b.loaded(),
    ensures
        forall|script: Seq<char>, queue: Seq<char>| #[trigger]
            a.consumed_by(script, queue) == b.consumed_by(script, queue),
{
}

/// No queue's consumer is asked for twice: once its turn came, the queue is
/// resolved for the rest of the walk.
pub proof fn queue_is_asked_once<D>(view: WalkView<D>, queue: Seq<char>)
    requires
        view.next_open() == Some(DependencyView::Queue(queue)),
    ensures
        !view.visited.contains(queue),
        view.advanced().visited == view.visited.insert(queue),
        view.advanced().resolved(DependencyView::Queue(queue)),
    decreases view.dependencies.len(),
{
    if view.dependencies.len() > 0 && view.resolved(view.dependencies[0]) {
        queue_is_asked_once(
            WalkView { dependencies: view.dependencies.skip(1), ..view },
            queue,
        );
    }
}

// ---- building ------------------------------------------------------------

/// What a generation is built with beside its deployment.
pub struct GenerationOptions {
    pub node: String,
    pub region: String,
}

/// Why a deployment does not build.
pub enum BuildError {
    /// Two scripts consume one queue.
    SharedQueue { queue: String, first: String, second: String },
    /// One script name came twice.
    DuplicateScript { script: String },
    /// A class came twice within the primary script.
    DuplicateClass { class: String },
    /// A class of one script is another script's already.
    SharedClass { class: String },
}

impl BuildError {
    pub open spec fn words(self) -> Seq<char> {
        match self {
            BuildError::SharedQueue { queue, first, second } => "queue "@ + quoted(queue@)
                + " is consumed by both "@ + first@ + " and "@ + second@,
            BuildError::DuplicateScript { script } => "duplicate co-hosted Worker script "@
                + script@,
            BuildError::DuplicateClass { class } => "duplicate Durable Object class "@ + class@,
            BuildError::SharedClass { class } => "Durable Object class "@ + class@
                + " is exported by more than one co-hosted script"@,
        }
    }

    pub fn message(&self) -> (r: String)
        ensures
            r@ == self.words(),
    {
        match self {
            BuildError::SharedQueue { queue, first, second } => {
                let mut r = String::from_str("queue ");
                r.append(quote(queue.as_str()).as_str());
                r.append(" is consumed by both ");
                r.append(first.as_str());
                r.append(" and ");
                r.append(second.as_str());
                r
            },
            BuildError::DuplicateScript { script } => {
                let mut r = String::from_str("duplicate co-hosted Worker script ");
                r.append(script.as_str());
                r
            },
            BuildError::DuplicateClass { class } => {
                let mut r = String::from_str("duplicate Durable Object class ");
                r.append(class.as_str());
                r
            },
            BuildError::SharedClass { class } => {
                let mut r = String::from_str("Durable Object class ");
                r.append(class.as_str());
                r.append(" is exported by more than one co-hosted script");
                r
            },
        }
    }
}

/// One queue's consumer within a deployment: which script, and which of that
/// script's consumers. The primary is script zero, the others follow in order.
pub struct QueueConsumerRegistration {
    pub queue: String,
    pub script: String,
    pub deployment: usize,
    pub consumer: usize,
}

pub struct RegistrationView {
    pub queue: Seq<char>,
    pub script: Seq<char>,
    pub deployment: nat,
    pub consumer: nat,
}

impl View for QueueConsumerRegistration {
    type V = RegistrationView;

    open spec fn view(&self) -> RegistrationView {
        RegistrationView {
            queue: self.queue@,
            script: self.script@,
            deployment: self.deployment as nat,
            consumer: self.consumer as nat,
        }
    }
}

pub open spec fn registration_views(items: Seq<QueueConsumerRegistration>) -> Seq<
    RegistrationView,
> {
    items.map_values(|r: QueueConsumerRegistration| r@)
}

/// The consumers of one script.
pub open spec fn script_consumers<D>(loaded: LoadedDeployment<D>, deployment: nat) -> Seq<
    RegistrationView,
> {
    Seq::new(
        loaded.queue_consumers@.len(),
        |i: int|
            RegistrationView {
                queue: loaded.queue_consumers@[i].queue@,
                script: loaded.script_name@,
                deployment,
                consumer: i as nat,
            },
    )
}

/// The consumers of every script, in the order they are declared.
pub open spec fn all_consumers<D>(scripts: Seq<LoadedDeployment<D>>) -> Seq<RegistrationView>
    decreases scripts.len(),
{
    if scripts.len() == 0 {
        seq![]
    } else {
        all_consumers(scripts.drop_last()) + script_consumers(
            scripts.last(),
            (scripts.len() - 1) as nat,
        )
    }
}

impl<D> DeploymentGraph<D> {
    pub open spec fn scripts(self) -> Seq<LoadedDeployment<D>> {
        seq![self.primary] + self.cohosted@
    }
}

fn push_consumers<D>(
    loaded: &LoadedDeployment<D>,
    deployment: usize,
    out: &mut Vec<QueueConsumerRegistration>,
)
    ensures
        registration_views(final(out)@) == registration_views(old(out)@) + script_consumers(
            *loaded,
            deployment as nat,
        ),
{
    let ghost before = registration_views(out@);
    let ghost mine = script_consumers(*loaded, deployment as nat);
    let mut i: usize = 0;
    assert(registration_views(out@) =~= before + mine.take(0));
    while i < loaded.queue_consumers.len()
        invariant
            i <= loaded.queue_consumers@.len(),
            mine == script_consumers(*loaded, deployment as nat),
            registration_views(out@) == before + mine.take(i as int),
        decreases loaded.queue_consumers.len() - i,
    {
        let ghost was = out@;
        out.push(
            QueueConsumerRegistration {
                queue: loaded.queue_consumers[i].queue.clone(),
                script: loaded.script_name.clone(),
                deployment,
                consumer: i,
            },
        );
        proof {
            assert(registration_views(out@) =~= registration_views(was).push(mine[i as int]));
            assert(mine.take(i as int).push(mine[i as int]) =~= mine.take(i + 1));
            assert(before + mine.take(i + 1) =~= (before + mine.take(i as int)).push(
                mine[i as int],
            ));
        }
        i = i + 1;
    }
    assert(mine.take(i as int) =~= mine);
}

/// Whether a list is the consumers of a deployment, one for each queue, in
/// the order of the queues' names.
pub open spec fn catalogs(list: Seq<RegistrationView>, declared: Seq<RegistrationView>) -> bool {
    &&& forall|i: int, j: int|
        0 <= i < j < list.len() ==> text::text_less(
            (#[trigger] list[i]).queue,
            (#[trigger] list[j]).queue,
        )
    &&& forall|i: int| 0 <= i < list.len() ==> declared.contains(#[trigger] list[i])
    &&& forall|i: int| 0 <= i < declared.len() ==> list.contains(#[trigger] declared[i])
}

/// Whether no queue has two consumers among the first `n`.
pub open spec fn queues_differ(declared: Seq<RegistrationView>, n: int) -> bool {
    forall|i: int, j: int|
        0 <= i < j < n ==> (#[trigger] declared[i]).queue != (#[trigger] declared[j]).queue
}

/// Whether the error names the first queue that is consumed a second time.
pub open spec fn shares_queue(error: BuildError, declared: Seq<RegistrationView>) -> bool {
    error matches BuildError::SharedQueue { queue, first, second } && exists|i: int, j: int|
        {
            &&& 0 <= i < j < declared.len()
            &&& queues_differ(declared, j)
            &&& (#[trigger] declared[i]).queue == queue@
            &&& (#[trigger] declared[j]).queue == queue@
            &&& declared[i].script == first@
            &&& declared[j].script == second@
        }
}

/// One catalog of queue consumers for a whole deployment, or the first queue
/// that is consumed a second time.
pub fn queue_catalog<D>(graph: &DeploymentGraph<D>) -> (r: Result<
    Vec<QueueConsumerRegistration>,
    BuildError,
>)
    requires
        graph.cohosted@.len() < usize::MAX,
    ensures
        match r {
            Ok(list) => {
                &&& queues_differ(
                    all_consumers(graph.scripts()),
                    all_consumers(graph.scripts()).len() as int,
                )
                &&& catalogs(registration_views(list@), all_consumers(graph.scripts()))
            },
            Err(error) => shares_queue(error, all_consumers(graph.scripts())),
        },
{
    let ghost scripts = graph.scripts();
    let mut list: Vec<QueueConsumerRegistration> = Vec::new();
    push_consumers(&graph.primary, 0, &mut list);
    proof {
        reveal_with_fuel(all_consumers, 2);
        assert(scripts.take(1).drop_last() =~= Seq::<LoadedDeployment<D>>::empty());
        assert(all_consumers(scripts.take(1)) =~= registration_views(list@));
    }
    let mut n: usize = 0;
    while n < graph.cohosted.len()
        invariant
            n <= graph.cohosted@.len() < usize::MAX,
            scripts == seq![graph.primary] + graph.cohosted@,
            registration_views(list@) == all_consumers(scripts.take(n + 1)),
        decreases graph.cohosted.len() - n,
    {
        push_consumers(&graph.cohosted[n], n + 1, &mut list);
        proof {
            assert(scripts.take(n + 2).drop_last() =~= scripts.take(n + 1));
            assert(scripts.take(n + 2).last() == graph.cohosted@[n as int]);
        }
        n = n + 1;
    }
    assert(scripts.take(n + 1) =~= scripts);
    let ghost declared = all_consumers(scripts);
    let mut seen: TextMap<usize> = TextMap::new();
    let mut i: usize = 0;
    while i < list.len()
        invariant
            i <= list@.len(),
            declared == registration_views(list@),
            queues_differ(declared, i as int),
            forall|queue: Seq<char>| #[trigger]
                seen@.contains_key(queue) ==> seen@[queue] < i && list@[seen@[queue] as int].queue@
                    == queue,
            forall|k: int| 0 <= k < i ==> seen@.contains_key((#[trigger] list@[k]).queue@),
            graph.scripts() == scripts,
            declared == all_consumers(scripts),
        decreases list.len() - i,
    {
        if let Some(earlier) = seen.get(list[i].queue.as_str()) {
            let k: usize = *earlier;
            proof {
                assert(declared[k as int] == list@[k as int]@);
                assert(declared[i as int] == list@[i as int]@);
            }
            return Err(
                BuildError::SharedQueue {
                    queue: list[i].queue.clone(),
                    first: list[k].script.clone(),
                    second: list[i].script.clone(),
                },
            );
        }
        let ghost was = seen@;
        seen.insert(list[i].queue.clone(), i);
        proof {
            assert forall|a: int, b: int| 0 <= a < b < i + 1 implies (#[trigger] declared[a]).queue
                != (#[trigger] declared[b]).queue by {
                assert(declared[a] == list@[a]@ && declared[b] == list@[b]@);
                assert(was.contains_key(list@[a].queue@));
            }
        }
        i = i + 1;
    }
    let keys = seen.keys();
    let mut out: Vec<QueueConsumerRegistration> = Vec::new();
    let mut k: usize = 0;
    while k < keys.len()
        invariant
            k <= keys@.len(),
            out@.len() == k,
            declared == registration_views(list@),
            maps::ascending_text(keys@),
            maps::views(keys@).to_set() == seen@.dom(),
            forall|queue: Seq<char>| #[trigger]
                seen@.contains_key(queue) ==> seen@[queue] < list@.len()
                    && list@[seen@[queue] as int].queue@ == queue,
            forall|a: int|
                0 <= a < k ==> (#[trigger] out@[a])@ == list@[seen@[keys@[a]@] as int]@
                    && out@[a].queue@ == keys@[a]@,
        decreases keys.len() - k,
    {
        proof {
            assert(maps::views(keys@)[k as int] == keys@[k as int]@);
            assert(maps::views(keys@).to_set().contains(keys@[k as int]@));
            assert(seen@.contains_key(keys@[k as int]@));
        }
        if let Some(at) = seen.get(keys[k].as_str()) {
            let at: usize = *at;
            out.push(
                QueueConsumerRegistration {
                    queue: list[at].queue.clone(),
                    script: list[at].script.clone(),
                    deployment: list[at].deployment,
                    consumer: list[at].consumer,
                },
            );
        }
        k = k + 1;
    }
    proof {
        let view = registration_views(out@);
        assert forall|a: int, b: int| 0 <= a < b < view.len() implies text::text_less(
            (#[trigger] view[a]).queue,
            (#[trigger] view[b]).queue,
        ) by {
            assert(view[a] == out@[a]@ && view[b] == out@[b]@);
            assert(text::text_less(keys@[a]@, keys@[b]@));
        }
        assert forall|a: int| 0 <= a < view.len() implies declared.contains(#[trigger] view[a]) by {
            assert(view[a] == out@[a]@);
            assert(maps::views(keys@)[a] == keys@[a]@);
            assert(maps::views(keys@).to_set().contains(keys@[a]@));
            assert(seen@.contains_key(keys@[a]@));
            let at = seen@[keys@[a]@] as int;
            assert(declared[at] == list@[at]@);
        }
        assert forall|a: int| 0 <= a < declared.len() implies view.contains(
            #[trigger] declared[a],
        ) by {
            assert(declared[a] == list@[a]@);
            let queue = list@[a].queue@;
            assert(seen@.contains_key(queue));
            assert(maps::views(keys@).to_set().contains(queue));
            let b = choose|b: int|
                0 <= b < maps::views(keys@).len() && maps::views(keys@)[b] == queue;
            assert(keys@[b]@ == queue);
            let at = seen@[queue] as int;
            assert(declared[at] == list@[at]@);
            assert(at == a) by {
                if at < a {
                    assert(declared[at].queue != declared[a].queue);
                } else if a < at {
                    assert(declared[a].queue != declared[at].queue);
                }
            }
            assert(view[b] == out@[b]@);
            assert(view[b] == declared[a]);
        }
    }
    Ok(out)
}

/// The class that requests without a class name address: the one class the
/// user declared, if there is exactly one.
pub open spec fn default_class(classes: Seq<CellClass>) -> Option<Seq<char>> {
    let user = classes.filter(|c: CellClass| c.kind == ClassKind::User);
    if user.len() == 1 {
        Some(user[0].name@)
    } else {
        None
    }
}

fn find_default_class(classes: &Vec<CellClass>) -> (r: Option<String>)
    ensures
        match r {
            Some(name) => default_class(classes@) == Some(name@),
            None => default_class(classes@) is None,
        },
{
    let ghost is_user = |c: CellClass| c.kind == ClassKind::User;
    let mut found: Option<String> = None;
    let mut many = false;
    let mut i: usize = 0;
    assert(classes@.take(0).filter(is_user) =~= Seq::<CellClass>::empty()) by {
        reveal(Seq::filter);
    }
    while i < classes.len()
        invariant
            i <= classes@.len(),
            is_user == (|c: CellClass| c.kind == ClassKind::User),
            match found {
                None => classes@.take(i as int).filter(is_user).len() == 0,
                Some(name) => classes@.take(i as int).filter(is_user).len() >= 1
                    && classes@.take(i as int).filter(is_user)[0].name@ == name@,
            },
            many <==> classes@.take(i as int).filter(is_user).len() > 1,
        decreases classes.len() - i,
    {
        proof {
            reveal(Seq::filter);
            assert(classes@.take(i + 1).drop_last() =~= classes@.take(i as int));
            assert(classes@.take(i + 1).last() == classes@[i as int]);
        }
        if classes[i].kind == ClassKind::User {
            if found.is_some() {
                many = true;
            } else {
                found = Some(classes[i].name.clone());
            }
        }
        i = i + 1;
    }
    assert(classes@.take(i as int) =~= classes@);
    if many {
        None
    } else {
        found
    }
}

/// One entry of the cell registry: the script whose configuration serves it.
pub struct CellEntry {
    pub script: String,
    pub kind: ClassKind,
}

pub struct CellEntryView {
    pub script: Seq<char>,
    pub kind: ClassKind,
}

impl View for CellEntry {
    type V = CellEntryView;

    open spec fn view(&self) -> CellEntryView {
        CellEntryView { script: self.script@, kind: self.kind }
    }
}

pub open spec fn cell_views(cells: Map<Seq<char>, CellEntry>) -> Map<Seq<char>, CellEntryView> {
    cells.map_values(|c: CellEntry| c@)
}

/// The registry after one script's classes were claimed in order. A class
/// that scripts share keeps its first claim; any other class that is claimed
/// again is the error.
pub open spec fn registered(
    cells: Map<Seq<char>, CellEntryView>,
    classes: Seq<CellClass>,
    script: Seq<char>,
) -> Result<Map<Seq<char>, CellEntryView>, Seq<char>>
    decreases classes.len(),
{
    if classes.len() == 0 {
        Ok(cells)
    } else {
        let class = classes[0];
        let rest = classes.skip(1);
        if !cells.contains_key(class.name@) {
            registered(
                cells.insert(class.name@, CellEntryView { script, kind: class.kind }),
                rest,
                script,
            )
        } else if class.kind == ClassKind::SharedReserved {
            registered(cells, rest, script)
        } else {
            Err(class.name@)
        }
    }
}

/// Claims one script's classes in the registry, or names the class that stops
/// it.
fn register_cell_classes(
    cells: &mut TextMap<CellEntry>,
    classes: &Vec<CellClass>,
    script: &str,
) -> (r: Result<(), String>)
    ensures
        match r {
            Ok(_) => registered(cell_views(old(cells)@), classes@, script@) == Ok::<
                Map<Seq<char>, CellEntryView>,
                Seq<char>,
            >(cell_views(final(cells)@)),
            Err(class) => registered(cell_views(old(cells)@), classes@, script@) == Err::<
                Map<Seq<char>, CellEntryView>,
                Seq<char>,
            >(class@),
        },
{
    let mut i: usize = 0;
    assert(classes@.skip(0) =~= classes@);
    while i < classes.len()
        invariant
            i <= classes@.len(),
            registered(cell_views(old(cells)@), classes@, script@) == registered(
                cell_views(cells@),
                classes@.skip(i as int),
                script@,
            ),
        decreases classes.len() - i,
    {
        assert(classes@.skip(i as int).skip(1) =~= classes@.skip(i + 1));
        assert(classes@.skip(i as int)[0] == classes@[i as int]);
        let class = &classes[i];
        if !cells.contains(class.name.as_str()) {
            let ghost before = cells@;
            cells.insert(
                class.name.clone(),
                CellEntry { script: String::from_str(script), kind: class.kind },
            );
            assert(cell_views(cells@) =~= cell_views(before).insert(
                class.name@,
                CellEntryView { script: script@, kind: class.kind },
            ));
        } else if class.kind != ClassKind::SharedReserved {
            return Err(class.name.clone());
        }
        i = i + 1;
    }
    Ok(())
}

/// One script whose pool was started.
pub struct StartedScript<C, P, A, N> {
    pub config: C,
    pub pool: P,
    pub assets: Option<A>,
    pub containers: Vec<N>,
}

/// What a generation is made of: the scripts that were started and the cell
/// registry they form. A configuration is held once, under its script.
pub struct GenerationParts<C, P, A, N> {
    id: GenerationId,
    version: String,
    prefix: String,
    script_name: String,
    cron_class: String,
    default_do_class: Option<String>,
    services: TextMap<P>,
    configs: TextMap<C>,
    cell_configs: TextMap<CellEntry>,
    assets: TextMap<A>,
    containers: Vec<N>,
    fence_image: Option<String>,
}

pub struct BuildView<C, P, A, N> {
    pub id: GenerationId,
    pub version: Seq<char>,
    pub prefix: Seq<char>,
    pub script_name: Seq<char>,
    pub cron_class: Seq<char>,
    pub default_do_class: Option<Seq<char>>,
    pub services: Map<Seq<char>, P>,
    pub configs: Map<Seq<char>, C>,
    pub cells: Map<Seq<char>, CellEntryView>,
    pub assets: Map<Seq<char>, A>,
    pub containers: Seq<N>,
    pub fence_image: Option<Seq<char>>,
}

pub open spec fn optional(text: Option<String>) -> Option<Seq<char>> {
    match text {
        Some(text) => Some(text@),
        None => None,
    }
}

impl<C, P, A, N> View for GenerationParts<C, P, A, N> {
    type V = BuildView<C, P, A, N>;

    closed spec fn view(&self) -> BuildView<C, P, A, N> {
        BuildView {
            id: self.id,
            version: self.version@,
            prefix: self.prefix@,
            script_name: self.script_name@,
            cron_class: self.cron_class@,
            default_do_class: optional(self.default_do_class),
            services: self.services@,
            configs: self.configs@,
            cells: cell_views(self.cell_configs@),
            assets: self.assets@,
            containers: self.containers@,
            fence_image: optional(self.fence_image),
        }
    }
}

impl<C, P, A, N> BuildView<C, P, A, N> {
    /// Every script has its configuration, and every cell a script.
    pub open spec fn complete(self) -> bool {
        &&& self.services.dom() == self.configs.dom()
        &&& forall|class: Seq<char>| #[trigger]
            self.cells.contains_key(class) ==> self.configs.contains_key(self.cells[class].script)
        &&& forall|script: Seq<char>| #[trigger]
            self.assets.contains_key(script) ==> self.services.contains_key(script)
    }

    /// An empty build for a deployment.
    pub open spec fn is_new<D>(
        self,
        id: GenerationId,
        primary: LoadedDeployment<D>,
        cron_class: Seq<char>,
    ) -> bool {
        &&& self.id == id
        &&& self.version == primary.version@
        &&& self.prefix == primary.prefix@
        &&& self.script_name == primary.script_name@
        &&& self.cron_class == cron_class
        &&& self.default_do_class == default_class(primary.do_classes@)
        &&& self.services == Map::<Seq<char>, P>::empty()
        &&& self.configs == Map::<Seq<char>, C>::empty()
        &&& self.cells == Map::<Seq<char>, CellEntryView>::empty()
        &&& self.assets == Map::<Seq<char>, A>::empty()
        &&& self.containers == Seq::<N>::empty()
        &&& self.fence_image is None
    }

    /// Whether the cron schedule is this script's.
    pub open spec fn runs_crons_of(self, script: Seq<char>) -> bool {
        self.cells.contains_key(self.cron_class) && self.cells[self.cron_class].script == script
    }

    /// Whether a cell lives under one of the script's classes.
    pub open spec fn has_cells(self, script: Seq<char>) -> bool {
        exists|class: Seq<char>|
            self.cells.contains_key(class) && (#[trigger] self.cells[class]).script == script
    }

    /// The build after one more script. The first is the primary, and only its
    /// cron schedule runs.
    pub open spec fn with_script<D>(
        self,
        loaded: LoadedDeployment<D>,
        started: StartedScript<C, P, A, N>,
        cells: Map<Seq<char>, CellEntryView>,
    ) -> Self {
        let script = loaded.script_name@;
        BuildView {
            services: self.services.insert(script, started.pool),
            configs: self.configs.insert(script, started.config),
            cells: if self.services.dom() == Set::<Seq<char>>::empty() && loaded.crons@.len() > 0 {
                cells.insert(
                    self.cron_class,
                    CellEntryView { script, kind: ClassKind::Reserved },
                )
            } else {
                cells
            },
            assets: match started.assets {
                Some(assets) => self.assets.insert(script, assets),
                None => self.assets,
            },
            containers: self.containers + started.containers@,
            fence_image: if self.fence_image is Some {
                self.fence_image
            } else {
                optional(loaded.fence_image)
            },
            ..self
        }
    }

    /// What comes of one more script.
    pub open spec fn adds<D>(
        self,
        loaded: LoadedDeployment<D>,
        started: StartedScript<C, P, A, N>,
        r: Result<Self, BuildError>,
    ) -> bool {
        let script = loaded.script_name@;
        if self.services.contains_key(script) {
            r matches Err(BuildError::DuplicateScript { script: name }) && name@ == script
        } else {
            match registered(self.cells, loaded.do_classes@, script) {
                Ok(cells) => r matches Ok(build) && build == self.with_script(
                    loaded,
                    started,
                    cells,
                ),
                Err(class) => if self.services.dom() == Set::<Seq<char>>::empty() {
                    r matches Err(BuildError::DuplicateClass { class: name }) && name@ == class
                } else {
                    r matches Err(BuildError::SharedClass { class: name }) && name@ == class
                },
            }
        }
    }
}

/// A script beside the primary brings its classes alone to the cells: its cron
/// schedule does not run, whatever it is.
pub proof fn cohosted_crons_are_dropped<D, C, P, A, N>(
    build: BuildView<C, P, A, N>,
    loaded: LoadedDeployment<D>,
    started: StartedScript<C, P, A, N>,
    cells: Map<Seq<char>, CellEntryView>,
    primary: Seq<char>,
)
    requires
        build.services.contains_key(primary),
    ensures
        build.with_script(loaded, started, cells).cells == cells,
{
    assert(build.services.dom().contains(primary));
}

proof fn lemma_registered_scripts(
    cells: Map<Seq<char>, CellEntryView>,
    classes: Seq<CellClass>,
    script: Seq<char>,
)
    ensures
        match registered(cells, classes, script) {
            Ok(after) => forall|class: Seq<char>| #[trigger]
                after.contains_key(class) ==> after[class].script == script || (
                cells.contains_key(class) && after[class] == cells[class]),
            Err(_) => true,
        },
    decreases classes.len(),
{
    if classes.len() > 0 {
        let class = classes[0];
        if !cells.contains_key(class.name@) {
            lemma_registered_scripts(
                cells.insert(class.name@, CellEntryView { script, kind: class.kind }),
                classes.skip(1),
                script,
            );
        } else {
            lemma_registered_scripts(cells, classes.skip(1), script);
        }
    }
}

/// Whether one of the classes has this name.
pub open spec fn names_class(classes: Seq<CellClass>, name: Seq<char>) -> bool {
    exists|i: int| 0 <= i < classes.len() && (#[trigger] classes[i]).name@ == name
}

/// Whether one of the scripts declares a class of this name.
pub open spec fn has_class<D>(scripts: Seq<LoadedDeployment<D>>, name: Seq<char>) -> bool {
    exists|i: int|
        0 <= i < scripts.len() && names_class((#[trigger] scripts[i]).do_classes@, name)
}

/// A script's classes come to those that were there, and nothing else does.
proof fn lemma_registered_classes(
    cells: Map<Seq<char>, CellEntryView>,
    classes: Seq<CellClass>,
    script: Seq<char>,
)
    ensures
        match registered(cells, classes, script) {
            Ok(after) => forall|class: Seq<char>| #[trigger]
                after.contains_key(class) <==> cells.contains_key(class) || names_class(
                    classes,
                    class,
                ),
            Err(_) => true,
        },
    decreases classes.len(),
{
    if classes.len() > 0 {
        let first = classes[0];
        let rest = classes.skip(1);
        assert forall|class: Seq<char>| #[trigger]
            names_class(classes, class) <==> class == first.name@ || names_class(rest, class) by {
            if names_class(classes, class) {
                let i = choose|i: int|
                    0 <= i < classes.len() && (#[trigger] classes[i]).name@ == class;
                if i > 0 {
                    assert(rest[i - 1].name@ == class);
                }
            }
            if names_class(rest, class) {
                let i = choose|i: int| 0 <= i < rest.len() && (#[trigger] rest[i]).name@ == class;
                assert(classes[i + 1].name@ == class);
            }
        }
        if !cells.contains_key(first.name@) {
            lemma_registered_classes(
                cells.insert(first.name@, CellEntryView { script, kind: first.kind }),
                rest,
                script,
            );
        } else {
            lemma_registered_classes(cells, rest, script);
        }
    }
}

proof fn lemma_one_more_script<D>(scripts: Seq<LoadedDeployment<D>>, n: int, name: Seq<char>)
    requires
        0 <= n < scripts.len(),
    ensures
        has_class(scripts.take(n + 1), name) <==> has_class(scripts.take(n), name) || names_class(
            scripts[n].do_classes@,
            name,
        ),
{
    let one_less = scripts.take(n);
    let one_more = scripts.take(n + 1);
    if has_class(one_more, name) {
        let i = choose|i: int|
            0 <= i < one_more.len() && names_class((#[trigger] one_more[i]).do_classes@, name);
        if i < n {
            assert(names_class(one_less[i].do_classes@, name));
        }
    }
    if has_class(one_less, name) {
        let i = choose|i: int|
            0 <= i < one_less.len() && names_class((#[trigger] one_less[i]).do_classes@, name);
        assert(names_class(one_more[i].do_classes@, name));
    }
    if names_class(scripts[n].do_classes@, name) {
        assert(names_class(one_more[n].do_classes@, name));
    }
}

impl<C, P, A, N> GenerationParts<C, P, A, N> {
    pub closed spec fn wf(&self) -> bool {
        self@.complete()
    }

    fn begin<D>(id: GenerationId, primary: &LoadedDeployment<D>, cron_class: &str) -> (r: Self)
        ensures
            r.wf(),
            r@.is_new(id, *primary, cron_class@),
    {
        let r = GenerationParts {
            id,
            version: primary.version.clone(),
            prefix: primary.prefix.clone(),
            script_name: primary.script_name.clone(),
            cron_class: String::from_str(cron_class),
            default_do_class: find_default_class(&primary.do_classes),
            services: TextMap::new(),
            configs: TextMap::new(),
            cell_configs: TextMap::new(),
            assets: TextMap::new(),
            containers: Vec::new(),
            fence_image: None,
        };
        proof {
            assert(r@.cells =~= Map::<Seq<char>, CellEntryView>::empty());
            assert(r@.services.dom() =~= r@.configs.dom());
        }
        r
    }

    /// Adds one started script; the first is the primary.
    fn add_script<D>(
        self,
        loaded: &LoadedDeployment<D>,
        started: StartedScript<C, P, A, N>,
    ) -> (r: Result<Self, BuildError>)
        requires
            self.wf(),
        ensures
            match r {
                Ok(parts) => self@.adds(*loaded, started, Ok(parts@)) && parts.wf(),
                Err(error) => self@.adds(*loaded, started, Err(error)),
            },
    {
        let ghost before = self@;
        let ghost given = started;
        let mut build = self;
        if build.services.contains(loaded.script_name.as_str()) {
            return Err(BuildError::DuplicateScript { script: loaded.script_name.clone() });
        }
        let is_primary = build.services.is_empty();
        let registered_all = register_cell_classes(
            &mut build.cell_configs,
            &loaded.do_classes,
            loaded.script_name.as_str(),
        );
        if let Err(class) = registered_all {
            return if is_primary {
                Err(BuildError::DuplicateClass { class })
            } else {
                proof {
                    if before.services.dom() == Set::<Seq<char>>::empty() {
                        assert(before.services =~= Map::<Seq<char>, P>::empty());
                    }
                }
                Err(BuildError::SharedClass { class })
            };
        }
        proof {
            lemma_registered_scripts(before.cells, loaded.do_classes@, loaded.script_name@);
        }
        let ghost cells = cell_views(build.cell_configs@);
        proof {
            if is_primary {
                assert(before.services.dom() =~= Set::<Seq<char>>::empty());
            } else if before.services.dom() == Set::<Seq<char>>::empty() {
                assert(before.services =~= Map::<Seq<char>, P>::empty());
            }
        }
        let script_name = loaded.script_name.clone();
        let StartedScript { config, pool, assets, containers } = started;
        if is_primary && loaded.crons.len() > 0 {
            let ghost was = build.cell_configs@;
            build.cell_configs.insert(
                build.cron_class.clone(),
                CellEntry { script: script_name.clone(), kind: ClassKind::Reserved },
            );
            assert(cell_views(build.cell_configs@) =~= cells.insert(
                before.cron_class,
                CellEntryView { script: script_name@, kind: ClassKind::Reserved },
            ));
        }
        if let Some(assets) = assets {
            build.assets.insert(script_name.clone(), assets);
        }
        if build.fence_image.is_none() {
            build.fence_image = loaded.fence_image.clone();
        }
        let mut more = containers;
        build.containers.append(&mut more);
        build.configs.insert(script_name.clone(), config);
        build.services.insert(script_name, pool);
        proof {
            let after = build@;
            let expected = before.with_script(*loaded, given, cells);
            assert(after.containers =~= expected.containers);
            assert(after.cells =~= expected.cells);
            assert(after.assets =~= expected.assets);
            assert(after == expected);
            assert(after.services.dom() =~= after.configs.dom());
        }
        Ok(build)
    }

    /// The scripts whose classes cells live under, each once, in the order of
    /// text.
    fn cell_scripts(&self) -> (r: Vec<String>)
        ensures
            maps::ascending_text(r@),
            forall|script: Seq<char>| #[trigger]
                maps::views(r@).contains(script) <==> self@.has_cells(script),
    {
        let keys = self.cell_configs.keys();
        let mut scripts: TextMap<bool> = TextMap::new();
        let mut i: usize = 0;
        while i < keys.len()
            invariant
                i <= keys@.len(),
                maps::views(keys@).to_set() == self.cell_configs@.dom(),
                forall|script: Seq<char>| #[trigger]
                    scripts@.contains_key(script) <==> exists|k: int|
                        0 <= k < i && self.cell_configs@[(#[trigger] keys@[k])@].script@ == script,
            decreases keys.len() - i,
        {
            let ghost before = scripts@;
            proof {
                assert(maps::views(keys@)[i as int] == keys@[i as int]@);
                assert(maps::views(keys@).to_set().contains(keys@[i as int]@));
            }
            if let Some(entry) = self.cell_configs.get(keys[i].as_str()) {
                scripts.insert(entry.script.clone(), true);
                proof {
                    assert forall|script: Seq<char>| #[trigger]
                        scripts@.contains_key(script) <==> exists|k: int|
                        0 <= k < i + 1 && self.cell_configs@[(#[trigger] keys@[k])@].script@
                            == script by {
                        if before.contains_key(script) {
                            let k = choose|k: int|
                                0 <= k < i && self.cell_configs@[(#[trigger] keys@[k])@].script@
                                    == script;
                            assert(keys@[k]@ == keys@[k]@);
                        }
                        if script == entry.script@ {
                            assert(self.cell_configs@[keys@[i as int]@].script@ == script);
                        }
                    }
                }
            }
            i = i + 1;
        }
        let r = scripts.keys();
        proof {
            assert forall|script: Seq<char>| #[trigger]
                maps::views(r@).contains(script) <==> exists|class: Seq<char>|
                self@.cells.contains_key(class) && (#[trigger] self@.cells[class]).script
                    == script by {
                if maps::views(r@).contains(script) {
                    assert(maps::views(r@).to_set().contains(script));
                    assert(scripts@.contains_key(script));
                    let k = choose|k: int|
                        0 <= k < keys@.len() && self.cell_configs@[(#[trigger] keys@[k])@].script@
                            == script;
                    assert(maps::views(keys@)[k] == keys@[k]@);
                    assert(maps::views(keys@).to_set().contains(keys@[k]@));
                    assert(self@.cells.contains_key(keys@[k]@));
                    assert(self@.cells[keys@[k]@].script == script);
                }
                if exists|class: Seq<char>|
                    self@.cells.contains_key(class) && (#[trigger] self@.cells[class]).script
                        == script {
                    let class = choose|class: Seq<char>|
                        self@.cells.contains_key(class) && (#[trigger] self@.cells[class]).script
                            == script;
                    assert(maps::views(keys@).to_set().contains(class));
                    let k = choose|k: int|
                        0 <= k < maps::views(keys@).len() && maps::views(keys@)[k] == class;
                    assert(self.cell_configs@[keys@[k]@].script@ == script);
                    assert(scripts@.contains_key(script));
                    assert(maps::views(r@).to_set().contains(script));
                }
            }
        }
        r
    }
}

/// What one script is started with beside what it was loaded with.
pub struct ScriptStart<'a> {
    pub script_name: &'a str,
    /// The schedule that it runs: the primary its own, another script none.
    pub crons: Vec<String>,
    /// The queue consumers of the whole deployment.
    pub catalog: &'a Vec<QueueConsumerRegistration>,
}

fn copied(texts: &Vec<String>) -> (r: Vec<String>)
    ensures
        maps::views(r@) == maps::views(texts@),
{
    let mut r: Vec<String> = Vec::new();
    let mut i: usize = 0;
    while i < texts.len()
        invariant
            i <= texts@.len(),
            r@.len() == i,
            forall|k: int| 0 <= k < i ==> (#[trigger] r@[k])@ == texts@[k]@,
        decreases texts.len() - i,
    {
        r.push(texts[i].clone());
        i = i + 1;
    }
    assert(maps::views(r@) =~= maps::views(texts@));
    r
}

/// A generation under construction: its deployment, one catalog of queue
/// consumers, and what was started of its scripts, in their order.
pub struct GenerationBuild<D, C, P, A, N> {
    graph: DeploymentGraph<D>,
    catalog: Vec<QueueConsumerRegistration>,
    added: usize,
    parts: GenerationParts<C, P, A, N>,
}

impl<D, C, P, A, N> View for GenerationBuild<D, C, P, A, N> {
    type V = BuildView<C, P, A, N>;

    closed spec fn view(&self) -> BuildView<C, P, A, N> {
        self.parts@
    }
}

impl<D, C, P, A, N> GenerationBuild<D, C, P, A, N> {
    pub closed spec fn graph(&self) -> DeploymentGraph<D> {
        self.graph
    }

    pub closed spec fn catalog(&self) -> Seq<RegistrationView> {
        registration_views(self.catalog@)
    }

    /// The generation that is being built.
    pub closed spec fn id(&self) -> GenerationId {
        self.parts@.id
    }

    /// How many scripts were started.
    pub closed spec fn added(&self) -> nat {
        self.added as nat
    }

    /// The parts are those of the scripts that were started, and the cron
    /// class is the primary's.
    pub closed spec fn wf(&self) -> bool {
        let scripts = self.graph.scripts();
        &&& self.parts.wf()
        &&& self.graph.cohosted@.len() < usize::MAX
        &&& self.added <= scripts.len()
        &&& self@.version == self.graph.primary.version@
        &&& self@.prefix == self.graph.primary.prefix@
        &&& self@.script_name == self.graph.primary.script_name@
        &&& self@.default_do_class == default_class(self.graph.primary.do_classes@)
        &&& catalogs(self.catalog(), all_consumers(scripts))
        &&& forall|name: Seq<char>| #[trigger]
            self@.services.contains_key(name) <==> has_script(
                scripts.take(self.added as int),
                name,
            )
        &&& self.added > 0 && self.graph.primary.crons@.len() > 0 ==> self@.runs_crons_of(
            self.graph.primary.script_name@,
        )
        &&& forall|class: Seq<char>| #[trigger]
            self@.cells.contains_key(class) <==> has_class(
                scripts.take(self.added as int),
                class,
            ) || (class == self@.cron_class && self.added > 0 && self.graph.primary.crons@.len()
                > 0)
    }

    /// Starts a build. `cron_class` is the class that carries a cron schedule.
    /// A queue that two scripts consume stops it.
    pub fn begin(id: GenerationId, graph: DeploymentGraph<D>, cron_class: &str) -> (r: Result<
        Self,
        BuildError,
    >)
        requires
            graph.cohosted@.len() < usize::MAX,
        ensures
            match r {
                Ok(build) => {
                    &&& build.wf()
                    &&& build.graph() == graph
                    &&& build.id() == id
                    &&& build.added() == 0
                    &&& queues_differ(
                        all_consumers(graph.scripts()),
                        all_consumers(graph.scripts()).len() as int,
                    )
                    &&& catalogs(build.catalog(), all_consumers(graph.scripts()))
                    &&& build@.is_new(id, graph.primary, cron_class@)
                },
                Err(error) => shares_queue(error, all_consumers(graph.scripts())),
            },
    {
        match queue_catalog(&graph) {
            Err(error) => Err(error),
            Ok(catalog) => {
                let parts = GenerationParts::begin(id, &graph.primary, cron_class);
                let build = GenerationBuild { graph, catalog, added: 0, parts };
                assert(build.graph.scripts().take(0) =~= Seq::<LoadedDeployment<D>>::empty());
                Ok(build)
            },
        }
    }

    /// The script to start next. Every script gets the one catalog.
    pub fn next_script(&self) -> (r: Option<ScriptStart<'_>>)
        requires
            self.wf(),
        ensures
            match r {
                Some(start) => {
                    &&& self.added() < self.graph().scripts().len()
                    &&& start.script_name@ == self.graph().scripts()[self.added() as int].script_name@
                    &&& maps::views(start.crons@) == (if self.added() == 0 {
                        maps::views(self.graph().primary.crons@)
                    } else {
                        Seq::<Seq<char>>::empty()
                    })
                    &&& registration_views(start.catalog@) == self.catalog()
                },
                None => self.added() == self.graph().scripts().len(),
            },
    {
        if self.added == 0 {
            Some(
                ScriptStart {
                    script_name: self.graph.primary.script_name.as_str(),
                    crons: copied(&self.graph.primary.crons),
                    catalog: &self.catalog,
                },
            )
        } else if self.added - 1 < self.graph.cohosted.len() {
            let crons: Vec<String> = Vec::new();
            assert(maps::views(crons@) =~= Seq::<Seq<char>>::empty());
            Some(
                ScriptStart {
                    script_name: self.graph.cohosted[self.added - 1].script_name.as_str(),
                    crons,
                    catalog: &self.catalog,
                },
            )
        } else {
            None
        }
    }

    /// Adds the script that was to be started next.
    pub fn add_script(self, started: StartedScript<C, P, A, N>) -> (r: Result<Self, BuildError>)
        requires
            self.wf(),
            self.added() < self.graph().scripts().len(),
        ensures
            match r {
                Ok(build) => {
                    &&& build.wf()
                    &&& build.graph() == self.graph()
                    &&& build.id() == self.id()
                    &&& build.catalog() == self.catalog()
                    &&& build.added() == self.added() + 1
                    &&& self@.adds(
                        self.graph().scripts()[self.added() as int],
                        started,
                        Ok(build@),
                    )
                },
                Err(error) => self@.adds(
                    self.graph().scripts()[self.added() as int],
                    started,
                    Err(error),
                ),
            },
    {
        let ghost before = self;
        let GenerationBuild { graph, catalog, added, parts } = self;
        let ghost scripts = graph.scripts();
        let ghost loaded = scripts[added as int];
        let ghost was = parts@;
        let r = if added == 0 {
            parts.add_script(&graph.primary, started)
        } else {
            parts.add_script(&graph.cohosted[added - 1], started)
        };
        match r {
            Err(error) => Err(error),
            Ok(parts) => {
                let build = GenerationBuild { graph, catalog, added: added + 1, parts };
                proof {
                    let name = loaded.script_name@;
                    let one_less = scripts.take(added as int);
                    let one_more = scripts.take(added + 1);
                    assert(one_more[added as int].script_name@ == name);
                    assert forall|script: Seq<char>| has_script(one_more, script) <==> script == name
                        || #[trigger] has_script(one_less, script) by {
                        if has_script(one_more, script) {
                            let i = choose|i: int|
                                0 <= i < one_more.len() && (#[trigger] one_more[i]).script_name@
                                    == script;
                            if i < added {
                                assert(one_less[i].script_name@ == script);
                            }
                        }
                        if has_script(one_less, script) {
                            let i = choose|i: int|
                                0 <= i < one_less.len() && (#[trigger] one_less[i]).script_name@
                                    == script;
                            assert(one_more[i].script_name@ == script);
                        }
                    }
                    assert forall|script: Seq<char>| #[trigger]
                        build@.services.contains_key(script) <==> has_script(one_more, script) by {
                        assert(was.services.contains_key(script) <==> has_script(one_less, script));
                    }
                    if added == 0 {
                        assert(one_less =~= Seq::<LoadedDeployment<D>>::empty());
                        assert(was.services.dom() =~= Set::<Seq<char>>::empty()) by {
                            assert forall|script: Seq<char>| !was.services.dom().contains(script) by {
                                assert(was.services.contains_key(script) <==> has_script(
                                    one_less,
                                    script,
                                ));
                            }
                        }
                    } else {
                        assert(one_less[0].script_name@ == graph.primary.script_name@);
                        assert(has_script(one_less, graph.primary.script_name@));
                        assert(was.services.contains_key(graph.primary.script_name@));
                        assert(was.services.dom().contains(graph.primary.script_name@));
                        if graph.primary.crons@.len() > 0 {
                            first_claim_stands(was.cells, loaded.do_classes@, name, was.cron_class);
                        }
                    }
                    lemma_registered_classes(was.cells, loaded.do_classes@, name);
                    assert forall|class: Seq<char>| #[trigger]
                        build@.cells.contains_key(class) <==> has_class(one_more, class) || (class
                            == build@.cron_class && graph.primary.crons@.len() > 0) by {
                        lemma_one_more_script(scripts, added as int, class);
                        assert(was.cells.contains_key(class) <==> has_class(one_less, class) || (
                        class == was.cron_class && added > 0 && graph.primary.crons@.len() > 0));
                    }
                }
                Ok(build)
            },
        }
    }

    /// The scripts whose classes cells live under, each once, in the order of
    /// text.
    pub fn cell_scripts(&self) -> (r: Vec<String>)
        ensures
            maps::ascending_text(r@),
            forall|script: Seq<char>| #[trigger]
                maps::views(r@).contains(script) <==> self@.has_cells(script),
    {
        self.parts.cell_scripts()
    }

    /// The generation, once every script was started and a pool was made for
    /// each script that has cells. It serves the deployment's scripts and no
    /// others, under the classes that they declare and no others, and the cron
    /// schedule is the primary's.
    pub fn build<L>(self, cell_isolates: TextMap<L>) -> (r: Generation<C, P, L, A, N>)
        requires
            self.wf(),
            self.added() == self.graph().scripts().len(),
            forall|script: Seq<char>| #[trigger]
                cell_isolates@.contains_key(script) <==> self@.has_cells(script),
        ensures
            r.parts() == self@,
            r.cell_pools() == cell_isolates@,
            r.wf(),
            forall|name: Seq<char>| #[trigger]
                r.parts().services.contains_key(name) <==> has_script(
                    self.graph().scripts(),
                    name,
                ),
            self.graph().primary.crons@.len() > 0 ==> r.parts().runs_crons_of(
                self.graph().primary.script_name@,
            ),
            forall|class: Seq<char>| #[trigger]
                r.parts().cells.contains_key(class) <==> has_class(self.graph().scripts(), class)
                    || (class == r.parts().cron_class && self.graph().primary.crons@.len() > 0),
            r.parts().id == self.id(),
            r.parts().version == self.graph().primary.version@,
            r.parts().prefix == self.graph().primary.prefix@,
            r.parts().script_name == self.graph().primary.script_name@,
            r.parts().default_do_class == default_class(self.graph().primary.do_classes@),
    {
        proof {
            let scripts = self.graph.scripts();
            assert(scripts.take(self.added as int) =~= scripts);
            assert(scripts[0] == self.graph.primary);
            assert(has_script(scripts, self@.script_name));
            assert(self@.services.contains_key(self@.script_name));
        }
        Generation { parts: self.parts, cell_isolates }
    }
}

/// One deployment, ready to serve.
pub struct Generation<C, P, L, A, N> {
    parts: GenerationParts<C, P, A, N>,
    cell_isolates: TextMap<L>,
}

impl<C, P, L, A, N> Generation<C, P, L, A, N> {
    pub closed spec fn parts(&self) -> BuildView<C, P, A, N> {
        self.parts@
    }

    pub closed spec fn cell_pools(&self) -> Map<Seq<char>, L> {
        self.cell_isolates@
    }

    /// Whether the scripts' parts belong together and the primary is there.
    pub closed spec fn wf(&self) -> bool {
        &&& self.parts.wf()
        &&& self.parts().services.contains_key(self.parts().script_name)
        &&& forall|script: Seq<char>| #[trigger]
            self.cell_pools().contains_key(script) <==> self.parts().has_cells(script)
    }

    pub fn id(&self) -> (r: GenerationId)
        ensures
            r == self.parts().id,
    {
        self.parts.id
    }

    pub fn version(&self) -> (r: &str)
        ensures
            r@ == self.parts().version,
    {
        self.parts.version.as_str()
    }

    pub fn prefix(&self) -> (r: &str)
        ensures
            r@ == self.parts().prefix,
    {
        self.parts.prefix.as_str()
    }

    pub fn script_name(&self) -> (r: &str)
        ensures
            r@ == self.parts().script_name,
    {
        self.parts.script_name.as_str()
    }

    /// The pool of the primary script's stateless handlers.
    pub fn stateless(&self) -> (r: &P)
        requires
            self.wf(),
        ensures
            *r == self.parts().services[self.parts().script_name],
    {
        self.parts.services.at(self.parts.script_name.as_str())
    }

    pub fn service(&self, script: &str) -> (r: Option<&P>)
        ensures
            match r {
                Some(pool) => self.parts().services.contains_key(script@) && *pool
                    == self.parts().services[script@],
                None => !self.parts().services.contains_key(script@),
            },
    {
        self.parts.services.get(script)
    }

    /// One script's static assets.
    pub fn assets(&self, script: &str) -> (r: Option<&A>)
        ensures
            match r {
                Some(assets) => self.parts().assets.contains_key(script@) && *assets
                    == self.parts().assets[script@],
                None => !self.parts().assets.contains_key(script@),
            },
    {
        self.parts.assets.get(script)
    }

    /// The static assets of the script that owns ingress.
    pub fn ingress_assets(&self) -> (r: Option<&A>)
        ensures
            match r {
                Some(assets) => self.parts().assets.contains_key(self.parts().script_name)
                    && *assets == self.parts().assets[self.parts().script_name],
                None => !self.parts().assets.contains_key(self.parts().script_name),
            },
    {
        self.parts.assets.get(self.parts.script_name.as_str())
    }

    pub fn has_cell_classes(&self) -> (r: bool)
        ensures
            r <==> exists|class: Seq<char>| #[trigger] self.parts().cells.contains_key(class),
    {
        let empty = self.parts.cell_configs.is_empty();
        proof {
            if empty {
                assert(self.parts().cells.dom() =~= Set::<Seq<char>>::empty());
            } else if forall|class: Seq<char>| !#[trigger] self.parts().cells.contains_key(class) {
                assert(self.parts.cell_configs@.dom() =~= Set::<Seq<char>>::empty()) by {
                    assert forall|class: Seq<char>|
                        !self.parts.cell_configs@.dom().contains(class) by {
                        assert(!self.parts().cells.contains_key(class));
                    }
                }
                assert(self.parts.cell_configs@ =~= Map::<Seq<char>, CellEntry>::empty());
            }
        }
        !empty
    }

    /// The configuration that a class's cells run.
    pub fn cell_config(&self, class: &str) -> (r: Option<&C>)
        requires
            self.wf(),
        ensures
            match r {
                Some(config) => self.parts().cells.contains_key(class@) && *config
                    == self.parts().configs[self.parts().cells[class@].script],
                None => !self.parts().cells.contains_key(class@),
            },
    {
        match self.parts.cell_configs.get(class) {
            Some(entry) => {
                proof {
                    assert(self.parts().cells.contains_key(class@));
                    assert(self.parts().cells[class@] == entry@);
                }
                self.parts.configs.get(entry.script.as_str())
            },
            None => None,
        }
    }

    /// The script that carries the deployment's cron schedule, if there is
    /// one.
    pub fn cron_script(&self) -> (r: Option<&str>)
        ensures
            match r {
                Some(script) => self.parts().cells.contains_key(self.parts().cron_class) && script@
                    == self.parts().cells[self.parts().cron_class].script,
                None => !self.parts().cells.contains_key(self.parts().cron_class),
            },
    {
        match self.parts.cell_configs.get(self.parts.cron_class.as_str()) {
            Some(entry) => {
                assert(self.parts().cells.contains_key(self.parts().cron_class));
                Some(entry.script.as_str())
            },
            None => None,
        }
    }

    /// Whether a class is one the engine supplies.
    pub open spec fn is_reserved(&self, class: Seq<char>) -> bool {
        &&& self.parts().cells.contains_key(class)
        &&& self.parts().cells[class].kind != ClassKind::User || class == self.parts().cron_class
    }

    /// The classes the engine supplies, in the order of text.
    pub fn reserved_classes(&self) -> (r: Vec<String>)
        ensures
            maps::ascending_text(r@),
            forall|class: Seq<char>| #[trigger]
                maps::views(r@).contains(class) <==> self.is_reserved(class),
    {
        let keys = self.parts.cell_configs.keys();
        let mut out: TextMap<bool> = TextMap::new();
        let mut i: usize = 0;
        while i < keys.len()
            invariant
                i <= keys@.len(),
                maps::views(keys@).to_set() == self.parts.cell_configs@.dom(),
                forall|class: Seq<char>| #[trigger]
                    out@.contains_key(class) <==> self.is_reserved(class) && exists|k: int|
                        0 <= k < i && (#[trigger] keys@[k])@ == class,
            decreases keys.len() - i,
        {
            let ghost before = out@;
            let ghost name = keys@[i as int]@;
            proof {
                assert(maps::views(keys@)[i as int] == name);
                assert(maps::views(keys@).to_set().contains(name));
                assert(self.parts().cells.contains_key(name));
            }
            if let Some(entry) = self.parts.cell_configs.get(keys[i].as_str()) {
                assert(self.parts().cells[name] == entry@);
                if entry.kind != ClassKind::User || text::same(
                    keys[i].as_str(),
                    self.parts.cron_class.as_str(),
                ) {
                    out.insert(keys[i].clone(), true);
                }
            }
            proof {
                assert forall|class: Seq<char>| #[trigger]
                    out@.contains_key(class) <==> self.is_reserved(class) && exists|k: int|
                    0 <= k < i + 1 && (#[trigger] keys@[k])@ == class by {
                    if before.contains_key(class) {
                        let k = choose|k: int| 0 <= k < i && (#[trigger] keys@[k])@ == class;
                        assert(keys@[k]@ == class);
                    }
                    if class == name {
                        assert(keys@[i as int]@ == class);
                    } else if self.is_reserved(class) && exists|k: int|
                        0 <= k < i + 1 && (#[trigger] keys@[k])@ == class {
                        let k = choose|k: int| 0 <= k < i + 1 && (#[trigger] keys@[k])@ == class;
                        assert(k < i);
                        assert(before.contains_key(class));
                    }
                }
            }
            i = i + 1;
        }
        let r = out.keys();
        proof {
            assert forall|class: Seq<char>| #[trigger]
                maps::views(r@).contains(class) <==> self.is_reserved(class) by {
                if maps::views(r@).contains(class) {
                    assert(maps::views(r@).to_set().contains(class));
                    assert(out@.contains_key(class));
                }
                if self.is_reserved(class) {
                    assert(self.parts.cell_configs@.dom().contains(class));
                    assert(maps::views(keys@).to_set().contains(class));
                    let k = choose|k: int|
                        0 <= k < maps::views(keys@).len() && maps::views(keys@)[k] == class;
                    assert(keys@[k]@ == class);
                    assert(out@.contains_key(class));
                    assert(maps::views(r@).to_set().contains(class));
                }
            }
        }
        r
    }

    pub fn cell_isolates(&self, script: &str) -> (r: Option<&L>)
        ensures
            match r {
                Some(pool) => self.cell_pools().contains_key(script@) && *pool
                    == self.cell_pools()[script@],
                None => !self.cell_pools().contains_key(script@),
            },
    {
        self.cell_isolates.get(script)
    }

    pub fn default_do_class(&self) -> (r: Option<&str>)
        ensures
            match r {
                Some(class) => self.parts().default_do_class == Some(class@),
                None => self.parts().default_do_class is None,
            },
    {
        match &self.parts.default_do_class {
            Some(class) => Some(class.as_str()),
            None => None,
        }
    }

    /// The image that fences containers, from the first script that names one.
    pub fn fence_image(&self) -> (r: Option<&str>)
        ensures
            match r {
                Some(image) => self.parts().fence_image == Some(image@),
                None => self.parts().fence_image is None,
            },
    {
        match &self.parts.fence_image {
            Some(image) => Some(image.as_str()),
            None => None,
        }
    }

    pub fn containers(&self) -> (r: &Vec<N>)
        ensures
            r@ == self.parts().containers,
    {
        &self.parts.containers
    }
}

/// Whether every isolate of a generation has been freed, given whether each of
/// its pools has drained.
pub fn is_drained(services: &Vec<bool>, cells: &Vec<bool>) -> (r: bool)
    ensures
        r <==> (forall|i: int| 0 <= i < services@.len() ==> #[trigger] services@[i]) && (forall|
            i: int,
        |
            0 <= i < cells@.len() ==> #[trigger] cells@[i]),
{
    let mut i: usize = 0;
    while i < services.len()
        invariant
            i <= services@.len(),
            forall|k: int| 0 <= k < i ==> #[trigger] services@[k],
        decreases services.len() - i,
    {
        if !services[i] {
            return false;
        }
        i = i + 1;
    }
    let mut j: usize = 0;
    while j < cells.len()
        invariant
            j <= cells@.len(),
            forall|k: int| 0 <= k < j ==> #[trigger] cells@[k],
        decreases cells.len() - j,
    {
        if !cells[j] {
            return false;
        }
        j = j + 1;
    }
    true
}

/// The isolates one generation holds, by the pool they belong to.
pub struct IsolateCensus {
    /// The pool of the primary script's stateless handlers.
    pub stateless: PoolCensus,
    /// The pools of the scripts, by name.
    pub services: TextMap<PoolCensus>,
    /// The pools that cells live in, by script.
    pub cells: TextMap<PoolCensus>,
}

/// A class that scripts share stays with the script that claimed it first,
/// whatever later scripts declare.
pub proof fn first_claim_stands(
    cells: Map<Seq<char>, CellEntryView>,
    classes: Seq<CellClass>,
    script: Seq<char>,
    class: Seq<char>,
)
    requires
        cells.contains_key(class),
        registered(cells, classes, script) is Ok,
    ensures
        registered(cells, classes, script)->Ok_0.contains_key(class),
        registered(cells, classes, script)->Ok_0[class] == cells[class],
    decreases classes.len(),
{
    if classes.len() > 0 {
        let first = classes[0];
        if !cells.contains_key(first.name@) {
            first_claim_stands(
                cells.insert(first.name@, CellEntryView { script, kind: first.kind }),
                classes.skip(1),
                script,
                class,
            );
        } else {
            first_claim_stands(cells, classes.skip(1), script, class);
        }
    }
}

/// A class that the user declared belongs to one script alone: a second claim
/// stops the build.
pub proof fn user_class_has_one_script(
    cells: Map<Seq<char>, CellEntryView>,
    classes: Seq<CellClass>,
    script: Seq<char>,
    i: int,
)
    requires
        0 <= i < classes.len(),
        classes[i].kind == ClassKind::User,
        cells.contains_key(classes[i].name@),
    ensures
        registered(cells, classes, script) is Err,
    decreases classes.len(),
{
    let first = classes[0];
    if i > 0 {
        assert(classes.skip(1)[i - 1] == classes[i]);
        if !cells.contains_key(first.name@) {
            user_class_has_one_script(
                cells.insert(first.name@, CellEntryView { script, kind: first.kind }),
                classes.skip(1),
                script,
                i - 1,
            );
        } else if first.kind == ClassKind::SharedReserved {
            user_class_has_one_script(cells, classes.skip(1), script, i - 1);
        }
    }
}

/// What is asked for next is the first dependency that is not resolved yet:
/// those before it are left out, those after it wait. Where every one is
/// resolved, nothing is asked for and nothing waits.
pub proof fn first_open_dependency_is_next<D>(view: WalkView<D>)
    ensures
        match view.next_open() {
            Some(dependency) => exists|i: int|
                {
                    &&& 0 <= i < view.dependencies.len()
                    &&& #[trigger] view.dependencies[i] == dependency
                    &&& !view.resolved(dependency)
                    &&& forall|k: int|
                        0 <= k < i ==> view.resolved(#[trigger] view.dependencies[k])
                    &&& view.advanced().dependencies == view.dependencies.skip(i + 1)
                    &&& view.advanced().asked == (match dependency {
                        DependencyView::Service(script) => AskedView::Service(script),
                        DependencyView::Queue(queue) => AskedView::Queue(queue),
                    })
                },
            None => {
                &&& forall|k: int|
                    0 <= k < view.dependencies.len() ==> view.resolved(
                        #[trigger] view.dependencies[k],
                    )
                &&& view.advanced().dependencies.len() == 0
                &&& view.advanced().asked == view.asked
            },
        },
        view.advanced().primary == view.primary,
        view.advanced().cohosted == view.cohosted,
        view.advanced().scripts == view.scripts,
        view.advanced().attached == view.attached,
    decreases view.dependencies.len(),
{
    if view.dependencies.len() > 0 {
        let rest = WalkView { dependencies: view.dependencies.skip(1), ..view };
        if view.resolved(view.dependencies[0]) {
            first_open_dependency_is_next(rest);
            match rest.next_open() {
                Some(dependency) => {
                    let i = choose|i: int|
                        {
                            &&& 0 <= i < rest.dependencies.len()
                            &&& #[trigger] rest.dependencies[i] == dependency
                            &&& !rest.resolved(dependency)
                            &&& forall|k: int|
                                0 <= k < i ==> rest.resolved(#[trigger] rest.dependencies[k])
                            &&& rest.advanced().dependencies == rest.dependencies.skip(i + 1)
                            &&& rest.advanced().asked == (match dependency {
                                DependencyView::Service(script) => AskedView::Service(script),
                                DependencyView::Queue(queue) => AskedView::Queue(queue),
                            })
                        };
                    assert(view.dependencies[i + 1] == dependency);
                    assert forall|k: int| 0 <= k < i + 1 implies view.resolved(
                        #[trigger] view.dependencies[k],
                    ) by {
                        if k > 0 {
                            assert(rest.resolved(rest.dependencies[k - 1]));
                        }
                    }
                    assert(rest.dependencies.skip(i + 1) =~= view.dependencies.skip(i + 2));
                },
                None => {
                    assert forall|k: int| 0 <= k < view.dependencies.len() implies view.resolved(
                        #[trigger] view.dependencies[k],
                    ) by {
                        if k > 0 {
                            assert(rest.resolved(rest.dependencies[k - 1]));
                        }
                    }
                },
            }
        } else {
            assert(view.dependencies[0] == view.next_open()->Some_0);
            assert(view.advanced().dependencies == view.dependencies.skip(1));
        }
    }
}

/// A queue is resolved exactly where nothing is attached to it and no loaded
/// script consumes it, or where the script that consumes it is the one it is
/// attached to, in the deployment that was loaded. Its consumer is loaded where
/// no loaded script consumes it and the one it is attached to is not there yet.
/// Anything else stops the walk.
pub proof fn queues_agree_with_their_attachment<D>(
    view: WalkView<D>,
    queue: Seq<char>,
    attachment: Option<ConsumerAttachment>,
    r: Result<ConsumerAction, GraphError>,
)
    requires
        view.consumer_answer(queue, attachment, r),
    ensures
        attachment is None ==> (r is Ok <==> view.undeclared(queue)),
        attachment is None && r is Ok ==> r->Ok_0 is Resolved,
        attachment matches Some(found) ==> {
            let name = found.script_name@;
            let is_loaded = view.scripts.contains_key(name);
            &&& (r is Ok && r->Ok_0 is Load) <==> view.undeclared(queue) && !is_loaded
            &&& (r is Ok && r->Ok_0 is Resolved) <==> view.declares(name, queue) && is_loaded
                && view.scripts[name] == found.prefix@
        },
{
    if let Some(found) = attachment {
        let name = found.script_name@;
        if let Err(GraphError::OtherConsumer { queue: q, attached, script }) = r {
            assert(view.consumed_by(script@, queue));
            if view.declares(name, queue) {
                assert(view.consumed_by(name, queue));
                text::text_less_irreflexive(name);
                text::text_less_transitive(name, script@, name);
            }
        }
        if r is Ok && r->Ok_0 is Load {
            if view.declares(name, queue) {
                assert(view.consumed_by(name, queue));
            }
        }
        if r is Ok && r->Ok_0 is Resolved {
            assert(view.consumed_by(name, queue));
        }
    } else {
        if let Err(GraphError::NoAttachment { script, queue: q }) = r {
            assert(view.consumed_by(script@, queue));
        }
    }
}

/// Requests without a class name address a class exactly where the user declared
/// one and no more.
pub proof fn one_user_class_is_the_default(classes: Seq<CellClass>, i: int)
    requires
        0 <= i < classes.len(),
        classes[i].kind == ClassKind::User,
    ensures
        (forall|j: int| 0 <= j < classes.len() && j != i ==> (#[trigger] classes[j]).kind
            != ClassKind::User) ==> default_class(classes) == Some(classes[i].name@),
        (exists|j: int| 0 <= j < classes.len() && j != i && (#[trigger] classes[j]).kind
            == ClassKind::User) ==> default_class(classes) is None,
{
    lemma_user_classes(classes);
    lemma_user_count(classes, i);
    if forall|j: int|
        0 <= j < classes.len() && j != i ==> (#[trigger] classes[j]).kind != ClassKind::User {
        lemma_single_user(classes, i);
    }
    if exists|j: int|
        0 <= j < classes.len() && j != i && (#[trigger] classes[j]).kind == ClassKind::User {
        let j = choose|j: int|
            0 <= j < classes.len() && j != i && (#[trigger] classes[j]).kind == ClassKind::User;
        if i < j {
            lemma_two_users(classes, i, j);
        } else {
            lemma_two_users(classes, j, i);
        }
    }
}

/// How many classes the user declared.
spec fn user_count(classes: Seq<CellClass>) -> nat
    decreases classes.len(),
{
    if classes.len() == 0 {
        0
    } else if classes.last().kind == ClassKind::User {
        user_count(classes.drop_last()) + 1
    } else {
        user_count(classes.drop_last())
    }
}

proof fn lemma_user_classes(classes: Seq<CellClass>)
    ensures
        classes.filter(|c: CellClass| c.kind == ClassKind::User).len() == user_count(classes),
    decreases classes.len(),
{
    reveal(Seq::filter);
    if classes.len() > 0 {
        lemma_user_classes(classes.drop_last());
    }
}

proof fn lemma_user_count(classes: Seq<CellClass>, i: int)
    requires
        0 <= i < classes.len(),
        classes[i].kind == ClassKind::User,
    ensures
        user_count(classes) >= 1,
    decreases classes.len(),
{
    if i < classes.len() - 1 {
        assert(classes.drop_last()[i] == classes[i]);
        lemma_user_count(classes.drop_last(), i);
    }
}

proof fn lemma_two_users(classes: Seq<CellClass>, i: int, j: int)
    requires
        0 <= i < j < classes.len(),
        classes[i].kind == ClassKind::User,
        classes[j].kind == ClassKind::User,
    ensures
        user_count(classes) >= 2,
    decreases classes.len(),
{
    let fewer = classes.drop_last();
    if j < fewer.len() {
        assert(fewer[i] == classes[i] && fewer[j] == classes[j]);
        lemma_two_users(fewer, i, j);
    } else {
        assert(fewer[i] == classes[i]);
        lemma_user_count(fewer, i);
    }
}

proof fn lemma_no_users(classes: Seq<CellClass>)
    requires
        forall|j: int| 0 <= j < classes.len() ==> (#[trigger] classes[j]).kind != ClassKind::User,
    ensures
        user_count(classes) == 0,
        classes.filter(|c: CellClass| c.kind == ClassKind::User).len() == 0,
    decreases classes.len(),
{
    lemma_user_classes(classes);
    if classes.len() > 0 {
        let fewer = classes.drop_last();
        assert forall|j: int| 0 <= j < fewer.len() implies (#[trigger] fewer[j]).kind
            != ClassKind::User by {
            assert(fewer[j] == classes[j]);
        }
        assert(classes[classes.len() - 1].kind != ClassKind::User);
        lemma_no_users(fewer);
    }
}

proof fn lemma_single_user(classes: Seq<CellClass>, i: int)
    requires
        0 <= i < classes.len(),
        classes[i].kind == ClassKind::User,
        forall|j: int|
            0 <= j < classes.len() && j != i ==> (#[trigger] classes[j]).kind != ClassKind::User,
    ensures
        ({
            let user = classes.filter(|c: CellClass| c.kind == ClassKind::User);
            user.len() == 1 && user[0] == classes[i]
        }),
    decreases classes.len(),
{
    reveal(Seq::filter);
    let fewer = classes.drop_last();
    let is_user = |c: CellClass| c.kind == ClassKind::User;
    if i < fewer.len() {
        assert forall|j: int| 0 <= j < fewer.len() && j != i implies (#[trigger] fewer[j]).kind
            != ClassKind::User by {
            assert(fewer[j] == classes[j]);
        }
        assert(fewer[i] == classes[i]);
        assert(classes[classes.len() - 1].kind != ClassKind::User);
        lemma_single_user(fewer, i);
    } else {
        assert forall|j: int| 0 <= j < fewer.len() implies (#[trigger] fewer[j]).kind
            != ClassKind::User by {
            assert(fewer[j] == classes[j]);
        }
        lemma_no_users(fewer);
        assert(classes.filter(is_user) =~= seq![classes[i]]);
    }
}

/// A class that nobody has is claimed by the script that declares it, with the
/// kind that it is declared as.
pub proof fn new_classes_are_claimed(
    cells: Map<Seq<char>, CellEntryView>,
    classes: Seq<CellClass>,
    script: Seq<char>,
    i: int,
)
    requires
        0 <= i < classes.len(),
        !cells.contains_key(classes[i].name@),
        forall|k: int| 0 <= k < i ==> (#[trigger] classes[k]).name@ != classes[i].name@,
        registered(cells, classes, script) is Ok,
    ensures
        ({
            let after = registered(cells, classes, script)->Ok_0;
            &&& after.contains_key(classes[i].name@)
            &&& after[classes[i].name@].script == script
            &&& after[classes[i].name@].kind == classes[i].kind
        }),
    decreases classes.len(),
{
    let first = classes[0];
    let rest = classes.skip(1);
    if i == 0 {
        let claimed = cells.insert(first.name@, CellEntryView { script, kind: first.kind });
        first_claim_stands(claimed, rest, script, first.name@);
    } else {
        assert(classes[0].name@ != classes[i].name@);
        assert(rest[i - 1] == classes[i]);
        assert forall|k: int| 0 <= k < i - 1 implies (#[trigger] rest[k]).name@
            != rest[i - 1].name@ by {
            assert(rest[k] == classes[k + 1]);
        }
        if !cells.contains_key(first.name@) {
            new_classes_are_claimed(
                cells.insert(first.name@, CellEntryView { script, kind: first.kind }),
                rest,
                script,
                i - 1,
            );
        } else {
            new_classes_are_claimed(cells, rest, script, i - 1);
        }
    }
}

/// A build is stopped by a class only where that class is not one that scripts
/// share, and is claimed already: by an earlier script or earlier by this one.
pub proof fn only_a_second_claim_stops(
    cells: Map<Seq<char>, CellEntryView>,
    classes: Seq<CellClass>,
    script: Seq<char>,
)
    requires
        registered(cells, classes, script) is Err,
    ensures
        exists|i: int|
            {
                &&& 0 <= i < classes.len()
                &&& (#[trigger] classes[i]).name@ == registered(cells, classes, script)->Err_0
                &&& classes[i].kind != ClassKind::SharedReserved
                &&& cells.contains_key(classes[i].name@) || names_class(
                    classes.take(i),
                    classes[i].name@,
                )
            },
    decreases classes.len(),
{
    if classes.len() > 0 {
        let first = classes[0];
        let rest = classes.skip(1);
        let next = if !cells.contains_key(first.name@) {
            cells.insert(first.name@, CellEntryView { script, kind: first.kind })
        } else {
            cells
        };
        if cells.contains_key(first.name@) && first.kind != ClassKind::SharedReserved {
            assert(classes[0].name@ == registered(cells, classes, script)->Err_0);
        } else {
            only_a_second_claim_stops(next, rest, script);
            let i = choose|i: int|
                {
                    &&& 0 <= i < rest.len()
                    &&& (#[trigger] rest[i]).name@ == registered(next, rest, script)->Err_0
                    &&& rest[i].kind != ClassKind::SharedReserved
                    &&& next.contains_key(rest[i].name@) || names_class(rest.take(i), rest[i].name@)
                };
            assert(classes[i + 1] == rest[i]);
            let name = rest[i].name@;
            if names_class(rest.take(i), name) {
                let k = choose|k: int|
                    0 <= k < rest.take(i).len() && (#[trigger] rest.take(i)[k]).name@ == name;
                assert(classes.take(i + 1)[k + 1] == rest[k]);
                assert(names_class(classes.take(i + 1), name));
            } else if !cells.contains_key(name) {
                assert(classes.take(i + 1)[0].name@ == name);
            }
        }
    }
}

/// A script that was added has its pool and its configuration, and what it
/// brought of assets and containers; the scripts before it keep theirs. The
/// schedule is the primary's, where it has one, and the image that fences
/// containers is that of the first script that names one.
pub proof fn added_scripts_are_kept<D, C, P, A, N>(
    build: BuildView<C, P, A, N>,
    loaded: LoadedDeployment<D>,
    started: StartedScript<C, P, A, N>,
    cells: Map<Seq<char>, CellEntryView>,
    other: Seq<char>,
)
    requires
        other != loaded.script_name@,
    ensures
        ({
            let script = loaded.script_name@;
            let after = build.with_script(loaded, started, cells);
            &&& after.services.contains_key(script) && after.services[script] == started.pool
            &&& after.configs.contains_key(script) && after.configs[script] == started.config
            &&& started.assets matches Some(assets) ==> after.assets.contains_key(script)
                && after.assets[script] == assets
            &&& after.containers == build.containers + started.containers@
            &&& after.services.contains_key(other) == build.services.contains_key(other)
            &&& build.services.contains_key(other) ==> after.services[other]
                == build.services[other]
            &&& build.configs.contains_key(other) ==> after.configs[other] == build.configs[other]
            &&& build.assets.contains_key(other) ==> after.assets[other] == build.assets[other]
            &&& build.fence_image is Some ==> after.fence_image == build.fence_image
            &&& build.fence_image is None ==> match loaded.fence_image {
                Some(image) => after.fence_image == Some(image@),
                None => after.fence_image is None,
            }
            &&& build.services.dom() =~= Set::<Seq<char>>::empty() && loaded.crons@.len() > 0
                ==> after.runs_crons_of(script)
            &&& loaded.crons@.len() == 0 ==> after.cells == cells
            &&& after.id == build.id && after.version == build.version && after.prefix
                == build.prefix && after.script_name == build.script_name && after.cron_class
                == build.cron_class && after.default_do_class == build.default_do_class
        }),
{
}

/// Every consumer that a script declares is among the deployment's, under the
/// queue and the script that it is of, and can be found again by its place.
pub proof fn declared_consumers_are_listed<D>(
    scripts: Seq<LoadedDeployment<D>>,
    d: int,
    i: int,
)
    requires
        0 <= d < scripts.len(),
        0 <= i < scripts[d].queue_consumers@.len(),
    ensures
        exists|k: int|
            {
                &&& 0 <= k < all_consumers(scripts).len()
                &&& (#[trigger] all_consumers(scripts)[k]).queue
                    == scripts[d].queue_consumers@[i].queue@
                &&& all_consumers(scripts)[k].script == scripts[d].script_name@
                &&& all_consumers(scripts)[k].deployment == d
                &&& all_consumers(scripts)[k].consumer == i
            },
    decreases scripts.len(),
{
    let fewer = scripts.drop_last();
    let before = all_consumers(fewer);
    let all = all_consumers(scripts);
    if d < fewer.len() {
        assert(fewer[d] == scripts[d]);
        declared_consumers_are_listed(fewer, d, i);
        let k = choose|k: int|
            {
                &&& 0 <= k < before.len()
                &&& (#[trigger] before[k]).queue == scripts[d].queue_consumers@[i].queue@
                &&& before[k].script == scripts[d].script_name@
                &&& before[k].deployment == d
                &&& before[k].consumer == i
            };
        assert(all[k] == before[k]);
    } else {
        assert(all[before.len() + i] == script_consumers(
            scripts.last(),
            (scripts.len() - 1) as nat,
        )[i]);
    }
}

/// A script is added to a build exactly where it is not there yet and its
/// classes can be claimed; the build then has it. What stops it is named: the
/// script that came twice, or the class, as one of the primary's own where it is
/// the first script and as one that scripts may not share where it is not.
pub proof fn scripts_are_added_once<D, C, P, A, N>(
    build: BuildView<C, P, A, N>,
    loaded: LoadedDeployment<D>,
    started: StartedScript<C, P, A, N>,
    r: Result<BuildView<C, P, A, N>, BuildError>,
    primary: Seq<char>,
)
    requires
        build.adds(loaded, started, r),
    ensures
        r is Ok <==> !build.services.contains_key(loaded.script_name@) && registered(
            build.cells,
            loaded.do_classes@,
            loaded.script_name@,
        ) is Ok,
        r matches Ok(after) ==> after.services.contains_key(loaded.script_name@)
            && after.services[loaded.script_name@] == started.pool,
        r matches Err(BuildError::DuplicateScript { script }) ==> script@ == loaded.script_name@
            && build.services.contains_key(script@),
        build.services.contains_key(loaded.script_name@) ==> r is Err && r->Err_0 is DuplicateScript,
        r is Err && r->Err_0 is DuplicateClass ==> !build.services.contains_key(primary),
        r is Err && r->Err_0 is SharedClass ==> build.services.dom() != Set::<Seq<char>>::empty(),
        !(r is Err && r->Err_0 is SharedQueue),
{
    if build.services.contains_key(primary) {
        assert(build.services.dom().contains(primary));
    }
}

/// A queue that two scripts consume stops the build, and the error names the
/// queue, the script that declared it first and the one that did next.
pub proof fn shared_queues_are_named(error: BuildError, declared: Seq<RegistrationView>)
    requires
        shares_queue(error, declared),
    ensures
        !queues_differ(declared, declared.len() as int),
        error is SharedQueue,
        exists|i: int, j: int|
            {
                &&& 0 <= i < j < declared.len()
                &&& (#[trigger] declared[i]).queue == (#[trigger] declared[j]).queue
                &&& declared[i].queue == error->SharedQueue_queue@
                &&& declared[i].script == error->first@
                &&& declared[j].script == error->second@
                &&& forall|k: int|
                    0 <= k < j && k != i ==> (#[trigger] declared[k]).queue != declared[j].queue
            },
{
    let (i, j) = choose|i: int, j: int|
        {
            &&& 0 <= i < j < declared.len()
            &&& queues_differ(declared, j)
            &&& (#[trigger] declared[i]).queue == error->SharedQueue_queue@
            &&& (#[trigger] declared[j]).queue == error->SharedQueue_queue@
            &&& declared[i].script == error->first@
            &&& declared[j].script == error->second@
        };
    assert(declared[i].queue == declared[j].queue);
    assert forall|k: int| 0 <= k < j && k != i implies (#[trigger] declared[k]).queue
        != declared[j].queue by {
        if k < i {
            assert(declared[k].queue != declared[i].queue);
        } else {
            assert(declared[i].queue != declared[k].queue);
        }
    }
}

/// A script that was loaded is there from then on, with what it was loaded from,
/// and what it needs waits behind what waited before.
pub proof fn adopted_scripts_stay<D>(
    before: WalkView<D>,
    loaded: LoadedDeployment<D>,
    attached: Map<Seq<char>, Option<Seq<char>>>,
    after: WalkView<D>,
    name: Seq<char>,
    queue: Seq<char>,
)
    requires
        adopts(before, loaded, attached, after),
    ensures
        after.scripts.contains_key(loaded.script_name@),
        after.scripts[loaded.script_name@] == loaded.prefix@,
        after.loaded() == before.loaded().push(loaded),
        before.scripts.contains_key(name) ==> after.scripts.contains_key(name)
            && after.scripts[name] == before.scripts[name],
        binds_service(loaded, name) ==> after.waits(DependencyView::Service(name)),
        reaches_queue(loaded, queue) ==> after.waits(DependencyView::Queue(queue)),
        before.waits(DependencyView::Service(name)) ==> after.waits(DependencyView::Service(name)),
        before.waits(DependencyView::Queue(queue)) ==> after.waits(DependencyView::Queue(queue)),
{
    let n = before.dependencies.len() as int;
    let mine = after.dependencies.skip(n);
    assert(after.loaded() =~= before.loaded().push(loaded));
    if binds_service(loaded, name) {
        let i = choose|i: int|
            0 <= i < loaded.services@.len() && #[trigger] loaded.services@[i]@ == name;
        assert(mine[i] == DependencyView::Service(name));
        assert(after.dependencies[n + i] == mine[i]);
    }
    if reaches_queue(loaded, queue) {
        let m = loaded.services@.len() as int;
        let i = choose|i: int|
            m <= i < mine.len() && #[trigger] mine[i] == DependencyView::Queue(queue);
        assert(after.dependencies[n + i] == mine[i]);
    }
    if before.waits(DependencyView::Service(name)) {
        let i = choose|i: int|
            0 <= i < n && #[trigger] before.dependencies[i] == DependencyView::Service(name);
        assert(after.dependencies.take(n)[i] == after.dependencies[i]);
    }
    if before.waits(DependencyView::Queue(queue)) {
        let i = choose|i: int|
            0 <= i < n && #[trigger] before.dependencies[i] == DependencyView::Queue(queue);
        assert(after.dependencies.take(n)[i] == after.dependencies[i]);
    }
}

/// A deployment is whole: every service that a script binds is there, and so is
/// every script that a queue which one of them reaches is attached to.
pub proof fn resolved_deployments_are_whole<D>(
    scripts: Seq<LoadedDeployment<D>>,
    attached: Map<Seq<char>, Option<Seq<char>>>,
    i: int,
    name: Seq<char>,
    queue: Seq<char>,
)
    requires
        resolves(scripts, attached),
        0 <= i < scripts.len(),
    ensures
        binds_service(scripts[i], name) ==> exists|k: int|
            0 <= k < scripts.len() && (#[trigger] scripts[k]).script_name@ == name,
        reaches_queue(scripts[i], queue) ==> attached.contains_key(queue) && (attached[queue]
            matches Some(consumer) ==> exists|k: int|
            0 <= k < scripts.len() && (#[trigger] scripts[k]).script_name@ == consumer),
{
    if binds_service(scripts[i], name) {
        assert(has_script(scripts, name));
    }
    if reaches_queue(scripts[i], queue) {
        assert(attached.contains_key(queue));
    }
}

/// A script reaches the queues that it sends to, those that it consumes and
/// those that its dead letters go to, and no other.
pub proof fn scripts_reach_their_queues<D>(
    loaded: LoadedDeployment<D>,
    queue: Seq<char>,
    i: int,
)
    ensures
        0 <= i < loaded.queue_bindings@.len() ==> reaches_queue(
            loaded,
            loaded.queue_bindings@[i].queue@,
        ),
        0 <= i < loaded.queue_consumers@.len() ==> reaches_queue(
            loaded,
            loaded.queue_consumers@[i].queue@,
        ) && consumes(loaded, loaded.queue_consumers@[i].queue@),
        0 <= i < loaded.queue_consumers@.len() && loaded.queue_consumers@[i].dead_letter_queue is Some
            ==> reaches_queue(loaded, loaded.queue_consumers@[i].dead_letter_queue->Some_0@),
        loaded.queue_bindings@.len() == 0 && loaded.queue_consumers@.len() == 0 ==> !reaches_queue(
            loaded,
            queue,
        ),
{
    if 0 <= i < loaded.queue_bindings@.len() {
        let name = loaded.queue_bindings@[i].queue@;
        assert(loaded.queue_bindings@[i].queue@ == name);
    }
    if 0 <= i < loaded.queue_consumers@.len() {
        let name = loaded.queue_consumers@[i].queue@;
        assert(loaded.queue_consumers@[i].queue@ == name);
        if loaded.queue_consumers@[i].dead_letter_queue is Some {
            assert(loaded.queue_consumers@[i].dead_letter_queue->0@
                == loaded.queue_consumers@[i].dead_letter_queue->Some_0@);
        }
    }
}

/// What stops a walk is told in words that name what disagrees, each in its
/// place: what was asked for before what was found.
pub proof fn walk_errors_name_what_disagrees(error: GraphError)
    ensures
        match error {
            GraphError::WrongScript { target, resolved } => text::has_prefix(
                error.words(),
                "service pointer "@ + target@ + " resolved script "@ + resolved@,
            ),
            GraphError::NoAttachment { script, queue } => text::has_prefix(
                error.words(),
                "script "@ + quoted(script@) + " consumes queue "@ + quoted(queue@),
            ),
            GraphError::OtherConsumer { queue, attached, script } => text::has_prefix(
                error.words(),
                "queue "@ + quoted(queue@) + " is attached to script "@ + quoted(attached@)
                    + ", but loaded script "@ + quoted(script@),
            ),
            GraphError::OtherDeployment { queue, version, script, prefix } => text::has_prefix(
                error.words(),
                "queue "@ + quoted(queue@) + " is attached to deployment "@ + version@
                    + " of script "@ + quoted(script@) + ", but deployment "@ + prefix@,
            ),
            GraphError::NotConsumed { queue, script } => text::has_prefix(
                error.words(),
                "queue "@ + quoted(queue@) + " is attached to script "@ + quoted(script@),
            ),
            GraphError::LoadedTwice { script } => text::has_prefix(
                error.words(),
                "script "@ + quoted(script@),
            ),
        },
{
    let words = error.words();
    match error {
        GraphError::WrongScript { target, resolved } => {
            let head = "service pointer "@ + target@ + " resolved script "@ + resolved@;
            assert(words.subrange(0, head.len() as int) =~= head);
        },
        GraphError::NoAttachment { script, queue } => {
            let head = "script "@ + quoted(script@) + " consumes queue "@ + quoted(queue@);
            assert(words.subrange(0, head.len() as int) =~= head);
        },
        GraphError::OtherConsumer { queue, attached, script } => {
            let head = "queue "@ + quoted(queue@) + " is attached to script "@ + quoted(attached@)
                + ", but loaded script "@ + quoted(script@);
            assert(words.subrange(0, head.len() as int) =~= head);
        },
        GraphError::OtherDeployment { queue, version, script, prefix } => {
            let head = "queue "@ + quoted(queue@) + " is attached to deployment "@ + version@
                + " of script "@ + quoted(script@) + ", but deployment "@ + prefix@;
            assert(words.subrange(0, head.len() as int) =~= head);
        },
        GraphError::NotConsumed { queue, script } => {
            let head = "queue "@ + quoted(queue@) + " is attached to script "@ + quoted(script@);
            assert(words.subrange(0, head.len() as int) =~= head);
        },
        GraphError::LoadedTwice { script } => {
            let head = "script "@ + quoted(script@);
            assert(words.subrange(0, head.len() as int) =~= head);
        },
    }
}

/// What stops a build is told in words that name the queue and its two scripts,
/// the script, or the class.
pub proof fn build_errors_name_what_stops(error: BuildError)
    ensures
        match error {
            BuildError::SharedQueue { queue, first, second } => error.words() == "queue "@ + quoted(
                queue@,
            ) + " is consumed by both "@ + first@ + " and "@ + second@,
            BuildError::DuplicateScript { script } => error.words().skip(
                error.words().len() - script@.len(),
            ) == script@,
            BuildError::DuplicateClass { class } => error.words().skip(
                error.words().len() - class@.len(),
            ) == class@,
            BuildError::SharedClass { class } => text::has_prefix(
                error.words(),
                "Durable Object class "@ + class@ + " is exported by more than one"@,
            ),
        },
{
    let words = error.words();
    match error {
        BuildError::SharedQueue { queue, first, second } => {},
        BuildError::DuplicateScript { script } => {
            assert(words.skip(words.len() - script@.len()) =~= script@);
        },
        BuildError::DuplicateClass { class } => {
            assert(words.skip(words.len() - class@.len()) =~= class@);
        },
        BuildError::SharedClass { class } => {
            reveal_strlit(" is exported by more than one");
            reveal_strlit(" is exported by more than one co-hosted script");
            let head = "Durable Object class "@ + class@ + " is exported by more than one"@;
            assert(words.subrange(0, head.len() as int) =~= head);
        },
    }
}

} // verus!
