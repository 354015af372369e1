//! The program handle's lifecycle (open, load, attach, teardown) and the set
//! of live attachments it owns.
//!
//! The kernel work of each stage is done by the caller; these types decide,
//! from the outcome of each piece of that work, the next state and what to do.
use vstd::prelude::*;

verus! {

/// Errors that end the pipeline: those of its setup and a failed poll.
#[derive(Debug, Clone, Copy, PartialEq, Eq, Structural)]
pub enum PipelineError {
    /// The program object is malformed or incompatible with the kernel.
    Load,
    /// The kernel's verifier rejected the program.
    Verification,
    /// Attaching the hook with this index failed; earlier hooks were rolled back.
    Attach(usize),
    /// The consumer was configured with a buffer that the program does not have.
    Config,
    /// The poll mechanism failed.
    Poll,
}

/// Where a program handle stands in its lifecycle.
#[derive(Debug, Clone, Copy, PartialEq, Eq, Structural)]
pub enum Stage {
    Unopened,
    Opened,
    Loaded,
    Attached,
    Detached,
}

/// The live attachments, in the order in which they were created.
pub struct AttachmentSet {
    links: Vec<u64>,
}

/// `s` in reverse order.
pub open spec fn reversed(s: Seq<u64>) -> Seq<u64> {
    Seq::new(s.len(), |i: int| s[s.len() - 1 - i])
}

impl View for AttachmentSet {
    type V = Seq<u64>;

    closed spec fn view(&self) -> Seq<u64> {
        self.links@
    }
}

impl AttachmentSet {
    /// An empty set.
    pub fn new() -> (r: AttachmentSet)
        ensures
            r@ == Seq::<u64>::empty(),
    {
        AttachmentSet { links: Vec::new() }
    }

    /// Records an attachment that the kernel has just created.
    pub fn add(&mut self, link: u64)
        ensures
            final(self)@ == old(self)@.push(link),
    {
        self.links.push(link);
    }

    /// Number of live attachments.
    pub fn len(&self) -> (r: usize)
        ensures
            r == self@.len(),
    {
        self.links.len()
    }

    /// Empties the set and returns its attachments in the order in which they
    /// are to be detached: the reverse of their creation.
    pub fn teardown_all(&mut self) -> (r: Vec<u64>)
        ensures
            r@ == reversed(old(self)@),
            final(self)@ == Seq::<u64>::empty(),
    {
        let mut r: Vec<u64> = Vec::new();
        let n = self.links.len();
        while self.links.len() > 0
            invariant
                self.links@.len() <= n,
                n == old(self)@.len(),
                self.links@ == old(self)@.subrange(0, self.links@.len() as int),
                r@ == reversed(old(self)@).subrange(0, n - self.links@.len()),
            decreases self.links@.len(),
        {
            let l = self.links.pop().unwrap();
            r.push(l);
            assert(r@ =~= reversed(old(self)@).subrange(0, n - self.links@.len()));
            assert(self.links@ =~= old(self)@.subrange(0, self.links@.len() as int));
        }
        assert(r@ =~= reversed(old(self)@));
        assert(self@ =~= Seq::<u64>::empty());
        r
    }
}

/// The links whose detach failed, in the order in which they were tried.
pub open spec fn failed_links(links: Seq<u64>, ok: Seq<bool>) -> Seq<u64>
    decreases links.len(),
{
    if links.len() == 0 {
        Seq::empty()
    } else {
        let rest = failed_links(links.drop_last(), ok.drop_last());
        if ok.last() {
            rest
        } else {
            rest.push(links.last())
        }
    }
}

/// Aggregates the outcome of a best-effort teardown: `ok[i]` tells whether
/// detaching `links[i]` succeeded; the links that failed are returned.
pub fn failed_detaches(links: &Vec<u64>, ok: &Vec<bool>) -> (r: Vec<u64>)
    requires
        links@.len() == ok@.len(),
    ensures
        r@ == failed_links(links@, ok@),
{
    let mut r: Vec<u64> = Vec::new();
    let mut i: usize = 0;
    while i < links.len()
        invariant
            i <= links@.len(),
            links@.len() == ok@.len(),
            r@ == failed_links(links@.subrange(0, i as int), ok@.subrange(0, i as int)),
        decreases links@.len() - i,
    {
        assert(links@.subrange(0, i + 1).drop_last() =~= links@.subrange(0, i as int));
        assert(ok@.subrange(0, i + 1).drop_last() =~= ok@.subrange(0, i as int));
        if !ok[i] {
            r.push(links[i]);
        }
        i = i + 1;
    }
    assert(links@.subrange(0, i as int) =~= links@);
    assert(ok@.subrange(0, i as int) =~= ok@);
    r
}

/// What opening a program object reveals: its hook points and its maps, by name.
pub struct ProgramInfo {
    pub hooks: Vec<String>,
    pub maps: Vec<String>,
}

/// The mathematical value of a [`ProgramHandle`].
pub struct HandleView {
    pub stage: Stage,
    pub hooks: Seq<Seq<char>>,
    pub maps: Seq<Seq<char>>,
    pub links: Seq<u64>,
}

/// The stages at which the program's maps exist.
pub open spec fn has_maps(stage: Stage) -> bool {
    stage == Stage::Loaded || stage == Stage::Attached
}

/// The states that a handle can be in.
pub open spec fn handle_wf(h: HandleView) -> bool {
    &&& h.links.len() <= h.hooks.len()
    &&& (h.stage == Stage::Attached ==> h.links.len() == h.hooks.len())
    &&& (h.stage == Stage::Loaded ==> h.links.len() < h.hooks.len() || h.links.len() == 0)
    &&& (h.stage != Stage::Loaded && h.stage != Stage::Attached ==> h.links.len() == 0)
}

/// A handle that was never opened.
pub open spec fn fresh() -> HandleView {
    HandleView {
        stage: Stage::Unopened,
        hooks: Seq::empty(),
        maps: Seq::empty(),
        links: Seq::empty(),
    }
}

/// The handle after its open finished, with `info` when the object was accepted.
pub open spec fn after_open(h: HandleView, info: Option<(Seq<Seq<char>>, Seq<Seq<char>>)>) -> HandleView {
    match info {
        Some(i) => HandleView { stage: Stage::Opened, hooks: i.0, maps: i.1, ..h },
        None => h,
    }
}

/// The handle after its load finished.
pub open spec fn after_load(h: HandleView, accepted: bool) -> HandleView {
    if accepted {
        HandleView { stage: Stage::Loaded, ..h }
    } else {
        h
    }
}

/// The handle when attaching starts: a program with no hook points is
/// attached at once.
pub open spec fn after_begin(h: HandleView) -> HandleView {
    if h.hooks.len() == 0 {
        HandleView { stage: Stage::Attached, ..h }
    } else {
        h
    }
}

/// The handle after the next hook's attach gave `link`, or failed.
pub open spec fn after_hook(h: HandleView, link: Option<u64>) -> HandleView {
    match link {
        Some(l) => HandleView {
            stage: if h.links.len() + 1 == h.hooks.len() {
                Stage::Attached
            } else {
                Stage::Loaded
            },
            links: h.links.push(l),
            ..h
        },
        None => HandleView { stage: Stage::Loaded, links: Seq::empty(), ..h },
    }
}

/// The handle after the attach outcomes `outs` were fed to it in order,
/// stopping at the first failure or once every hook is attached.
pub open spec fn after_hooks(h: HandleView, outs: Seq<Option<u64>>) -> HandleView
    decreases outs.len(),
{
    if outs.len() == 0 || h.stage != Stage::Loaded || h.links.len() >= h.hooks.len() {
        h
    } else if outs[0] is None {
        after_hook(h, None)
    } else {
        after_hooks(after_hook(h, outs[0]), outs.drop_first())
    }
}

/// Number of hook points that an open outcome declares.
pub open spec fn declared_hooks(info: Option<(Seq<Seq<char>>, Seq<Seq<char>>)>) -> nat {
    match info {
        Some(i) => i.0.len(),
        None => 0,
    }
}

/// The whole setup of a fresh handle from the outcome of each piece of kernel work.
pub open spec fn setup(
    info: Option<(Seq<Seq<char>>, Seq<Seq<char>>)>,
    accepted: bool,
    outs: Seq<Option<u64>>,
) -> HandleView {
    let opened = after_open(fresh(), info);
    if opened.stage != Stage::Opened {
        opened
    } else {
        let loaded = after_load(opened, accepted);
        if loaded.stage != Stage::Loaded {
            loaded
        } else {
            after_hooks(after_begin(loaded), outs)
        }
    }
}

/// What to do next while attaching.
#[derive(Debug)]
pub enum AttachStep {
    /// Attach the hook with this index.
    Next(usize),
    /// Every hook is attached.
    Attached,
    /// The hook with index `hook` failed: detach `rollback`, in that order,
    /// and report the failure.
    Failed { hook: usize, rollback: Vec<u64> },
}

/// A compiled tracing program, driven once through its lifecycle.
pub struct ProgramHandle {
    stage: Stage,
    hooks: Vec<String>,
    maps: Vec<String>,
    attachments: AttachmentSet,
}

impl View for ProgramHandle {
    type V = HandleView;

    closed spec fn view(&self) -> HandleView {
        HandleView {
            stage: self.stage,
            hooks: self.hooks@.map_values(|s: String| s@),
            maps: self.maps@.map_values(|s: String| s@),
            links: self.attachments@,
        }
    }
}

impl ProgramHandle {
    /// A handle whose program is not opened yet.
    pub fn new() -> (r: ProgramHandle)
        ensures
            r@ == fresh(),
    {
        let r = ProgramHandle {
            stage: Stage::Unopened,
            hooks: Vec::new(),
            maps: Vec::new(),
            attachments: AttachmentSet::new(),
        };
        assert(r@.hooks =~= Seq::<Seq<char>>::empty());
        assert(r@.maps =~= Seq::<Seq<char>>::empty());
        r
    }

    /// The current stage.
    pub fn stage(&self) -> (r: Stage)
        ensures
            r == self@.stage,
    {
        self.stage
    }

    /// Number of live attachments.
    pub fn live_attachments(&self) -> (r: usize)
        ensures
            r == self@.links.len(),
    {
        self.attachments.len()
    }

    /// Number of hook points that the program declares.
    pub fn hook_count(&self) -> (r: usize)
        ensures
            r == self@.hooks.len(),
    {
        self.hooks.len()
    }

    /// Records the outcome of opening the program object: what it declares,
    /// or `None` when it was malformed or incompatible.
    pub fn on_open(&mut self, info: Option<ProgramInfo>) -> (r: Result<(), PipelineError>)
        requires
            old(self)@.stage == Stage::Unopened,
            handle_wf(old(self)@),
        ensures
            handle_wf(final(self)@),
            info is None <==> r is Err,
            r matches Err(e) ==> e == PipelineError::Load,
            final(self)@ == after_open(
                old(self)@,
                match info {
                    Some(i) => Some((i.hooks@.map_values(|s: String| s@), i.maps@.map_values(|s: String| s@))),
                    None => None,
                },
            ),
    {
        match info {
            Some(i) => {
                self.hooks = i.hooks;
                self.maps = i.maps;
                self.stage = Stage::Opened;
                Ok(())
            },
            None => Err(PipelineError::Load),
        }
    }

    /// Records whether the kernel's verifier accepted the program.
    pub fn on_load(&mut self, accepted: bool) -> (r: Result<(), PipelineError>)
        requires
            old(self)@.stage == Stage::Opened,
            handle_wf(old(self)@),
        ensures
            handle_wf(final(self)@),
            accepted <==> r is Ok,
            r matches Err(e) ==> e == PipelineError::Verification,
            final(self)@ == after_load(old(self)@, accepted),
    {
        if accepted {
            self.stage = Stage::Loaded;
            Ok(())
        } else {
            Err(PipelineError::Verification)
        }
    }

    /// Starts attaching: says which hook to attach first, or that there is none.
    pub fn begin_attach(&mut self) -> (r: AttachStep)
        requires
            old(self)@.stage == Stage::Loaded,
            old(self)@.links.len() == 0,
            handle_wf(old(self)@),
        ensures
            handle_wf(final(self)@),
            final(self)@ == after_begin(old(self)@),
            old(self)@.hooks.len() == 0 ==> r is Attached,
            old(self)@.hooks.len() > 0 ==> r == AttachStep::Next(0),
    {
        if self.hooks.len() == 0 {
            self.stage = Stage::Attached;
            AttachStep::Attached
        } else {
            AttachStep::Next(0)
        }
    }

    /// Records the outcome of attaching the next hook: the new link, or `None`
    /// when the kernel refused it. On a refusal every attachment made so far
    /// is handed back for rollback and the handle returns to `Loaded`.
    pub fn on_hook(&mut self, link: Option<u64>) -> (r: AttachStep)
        requires
            old(self)@.stage == Stage::Loaded,
            old(self)@.links.len() < old(self)@.hooks.len(),
            handle_wf(old(self)@),
        ensures
            handle_wf(final(self)@),
            final(self)@ == after_hook(old(self)@, link),
            link is Some && old(self)@.links.len() + 1 < old(self)@.hooks.len() ==> r
                == AttachStep::Next((old(self)@.links.len() + 1) as usize),
            link is Some && old(self)@.links.len() + 1 == old(self)@.hooks.len() ==> r is Attached,
            link is None ==> (r matches AttachStep::Failed { hook, rollback } && hook
                == old(self)@.links.len() && rollback@ == reversed(old(self)@.links)),
    {
        match link {
            Some(l) => {
                self.attachments.add(l);
                if self.attachments.len() == self.hooks.len() {
                    self.stage = Stage::Attached;
                    AttachStep::Attached
                } else {
                    AttachStep::Next(self.attachments.len())
                }
            },
            None => {
                let hook = self.attachments.len();
                let rollback = self.attachments.teardown_all();
                AttachStep::Failed { hook, rollback }
            },
        }
    }

    /// Index of the map with this name.
    pub fn map_index(&self, name: &str) -> (r: Option<usize>)
        requires
            has_maps(self@.stage),
        ensures
            r matches Some(i) ==> i < self@.maps.len() && self@.maps[i as int] == name@,
            r is None ==> forall|i: int| 0 <= i < self@.maps.len() ==> self@.maps[i] != name@,
    {
        let wanted = name.to_owned();
        let mut i: usize = 0;
        while i < self.maps.len()
            invariant
                i <= self.maps@.len(),
                wanted@ == name@,
                forall|k: int| 0 <= k < i ==> self@.maps[k] != name@,
            decreases self.maps@.len() - i,
        {
            if self.maps[i].eq(&wanted) {
                return Some(i);
            }
            i = i + 1;
        }
        None
    }

    /// Ends the handle's life: every live attachment is handed back to be
    /// detached, newest first, and the program counts as unloaded.
    pub fn teardown(&mut self) -> (r: Vec<u64>)
        requires
            old(self)@.stage != Stage::Detached,
            handle_wf(old(self)@),
        ensures
            handle_wf(final(self)@),
            r@ == reversed(old(self)@.links),
            final(self)@ == (HandleView { stage: Stage::Detached, links: Seq::empty(), ..old(self)@ }),
    {
        self.stage = Stage::Detached;
        self.attachments.teardown_all()
    }
}

/// From a handle in the middle of attaching, the outcomes `outs` end with every
/// hook attached exactly when they hold a link for each remaining hook.
pub proof fn lemma_hooks_attached_iff(h: HandleView, outs: Seq<Option<u64>>)
    requires
        h.stage == Stage::Loaded,
        h.links.len() < h.hooks.len(),
    ensures
        after_hooks(h, outs).stage == Stage::Attached <==> (outs.len() >= h.hooks.len()
            - h.links.len() && forall|i: int|
            0 <= i < h.hooks.len() - h.links.len() ==> #[trigger] outs[i] is Some),
    decreases outs.len(),
{
    let n = h.hooks.len() - h.links.len();
    if outs.len() == 0 {
    } else if outs[0] is None {
    } else {
        let h2 = after_hook(h, outs[0]);
        let rest = outs.drop_first();
        if h.links.len() + 1 == h.hooks.len() {
            assert(after_hooks(h, outs) == h2);
            assert(after_hooks(h2, rest) == h2);
        } else {
            lemma_hooks_attached_iff(h2, rest);
            assert(forall|i: int| 0 <= i < rest.len() ==> rest[i] == #[trigger] outs[i + 1]);
            if after_hooks(h, outs).stage == Stage::Attached {
                assert forall|i: int| 0 <= i < n implies #[trigger] outs[i] is Some by {
                    if i > 0 {
                        assert(rest[i - 1] is Some);
                    }
                }
            } else {
                if outs.len() >= n && forall|i: int| 0 <= i < n ==> #[trigger] outs[i] is Some {
                    assert forall|i: int| 0 <= i < n - 1 implies #[trigger] rest[i] is Some by {
                        assert(outs[i + 1] is Some);
                    }
                }
            }
        }
    }
}

/// From a handle in the middle of attaching, a refusal among the outcomes
/// leaves the handle loaded with no live attachment.
pub proof fn lemma_hooks_failure_rolls_back(h: HandleView, outs: Seq<Option<u64>>, j: int)
    requires
        h.stage == Stage::Loaded,
        h.links.len() < h.hooks.len(),
        0 <= j < outs.len(),
        j < h.hooks.len() - h.links.len(),
        outs[j] is None,
    ensures
        after_hooks(h, outs).stage == Stage::Loaded,
        after_hooks(h, outs).links.len() == 0,
    decreases outs.len(),
{
    if outs[0] is Some {
        let h2 = after_hook(h, outs[0]);
        let rest = outs.drop_first();
        assert(rest[j - 1] == outs[j]);
        lemma_hooks_failure_rolls_back(h2, rest, j - 1);
    }
}

/// A fresh handle ends its setup attached exactly when the program object was
/// accepted at open, the verifier accepted it at load, and every hook it
/// declares was attached.
pub proof fn lemma_setup_attached_iff_every_stage(
    info: Option<(Seq<Seq<char>>, Seq<Seq<char>>)>,
    accepted: bool,
    outs: Seq<Option<u64>>,
)
    ensures
        setup(info, accepted, outs).stage == Stage::Attached <==> {
            &&& info is Some
            &&& accepted
            &&& outs.len() >= declared_hooks(info)
            &&& forall|i: int| 0 <= i < declared_hooks(info) ==> #[trigger] outs[i] is Some
        },
{
    if info is Some && accepted {
        let loaded = after_load(after_open(fresh(), info), accepted);
        if loaded.hooks.len() > 0 {
            lemma_hooks_attached_iff(after_begin(loaded), outs);
        }
    }
}

/// When attaching any hook of a program fails, setup ends with the program
/// loaded and no attachment live.
pub proof fn lemma_setup_attach_failure_leaves_nothing(
    info: Option<(Seq<Seq<char>>, Seq<Seq<char>>)>,
    outs: Seq<Option<u64>>,
    j: int,
)
    requires
        info is Some,
        0 <= j < outs.len(),
        j < declared_hooks(info),
        outs[j] is None,
    ensures
        setup(info, true, outs).stage == Stage::Loaded,
        setup(info, true, outs).links.len() == 0,
{
    let loaded = after_load(after_open(fresh(), info), true);
    lemma_hooks_failure_rolls_back(after_begin(loaded), outs, j);
}

} // verus!
