use vstd::prelude::*;

use crate::checkpoint::KvStore;
use crate::exclusion::{matches_any, starts_with_any, strings_view, ExclusionPolicy};
use crate::index::{upsert_all, DocView, SearchIndex};
use crate::metrics::{end_home_step, law_progress_monotonic, phase_percent, root_step, WalkMetrics, WalkPhase};
use crate::text::{is_prefix, name_of, path2name, walk_key, walk_key_of};

verus! {

/// Where a walk run stands.
#[derive(Clone, Copy, PartialEq, Eq, Structural, Debug)]
pub enum WalkStage {
    Start,
    HomeWalking,
    Roots,
    Finished,
}

/// What the caller is to do next: walk a tree, pruning below every directory
/// that `should_prune` picks, then call `run` again; or stop.
pub enum WalkAction {
    Walk { root: String, skip: Vec<String> },
    Done,
}

/// The value stored under a walk checkpoint.
pub open spec fn checkpoint_mark() -> Seq<char> {
    seq!['1']
}

/// A root must still be walked: no checkpoint records it.
pub open spec fn needs_walk(store: Map<Seq<char>, Seq<char>>, root: Seq<char>) -> bool {
    !store.contains_key(walk_key_of(root))
}

/// One walk run: the home directory first, then the other roots in order.
pub struct WalkSession {
    home: String,
    home_name: String,
    roots: Vec<String>,
    stage: WalkStage,
    next_root: usize,
    current: Option<String>,
    failed: bool,
}

impl WalkSession {
    pub closed spec fn home_spec(&self) -> Seq<char> {
        self.home@
    }

    pub closed spec fn roots_spec(&self) -> Seq<Seq<char>> {
        strings_view(self.roots@)
    }

    /// The index of the next root to consider.
    pub closed spec fn next_root_spec(&self) -> int {
        self.next_root as int
    }

    pub closed spec fn stage_spec(&self) -> WalkStage {
        self.stage
    }

    /// The root whose walk was handed out and not yet reported.
    pub closed spec fn current_spec(&self) -> Option<Seq<char>> {
        match self.current {
            Some(c) => Some(c@),
            None => None,
        }
    }

    /// Some walk handed out in this run was reported as failed.
    pub closed spec fn failed_spec(&self) -> bool {
        self.failed
    }

    /// How many more walks the run can hand out at most, plus one.
    pub closed spec fn steps_left(&self) -> nat {
        match self.stage {
            WalkStage::Start => (self.roots@.len() + 2) as nat,
            WalkStage::HomeWalking => (self.roots@.len() + 1) as nat,
            WalkStage::Roots => (self.roots@.len() - self.next_root) as nat,
            WalkStage::Finished => 0,
        }
    }

    /// A walk is outstanding only while the home or the roots are walked.
    pub closed spec fn wf(&self) -> bool {
        &&& self.next_root <= self.roots@.len()
        &&& self.home_name@ == name_of(self.home@)
        &&& (self.current is Some ==> (self.stage == WalkStage::HomeWalking || self.stage
            == WalkStage::Roots))
        &&& (self.stage == WalkStage::HomeWalking ==> self.current is Some)
        &&& (self.stage == WalkStage::Start ==> self.next_root == 0)
        &&& (self.stage == WalkStage::HomeWalking ==> self.next_root == 0)
        &&& (self.stage == WalkStage::Finished ==> self.next_root == self.roots@.len())
    }

    /// Every root that the run has passed needs no walk, but for the one
    /// whose walk is handed out.
    pub closed spec fn passed_settled(&self, store: Map<Seq<char>, Seq<char>>, excluded: Seq<Seq<char>>) -> bool {
        &&& (self.stage != WalkStage::Start ==> settled(store, excluded, self.home@) || (self.stage
            == WalkStage::HomeWalking && self.current_spec() == Some(self.home@)))
        &&& forall|i: int|
            0 <= i < self.next_root ==> settled(store, excluded, #[trigger] self.roots@[i]@) || (
            self.stage == WalkStage::Roots && i == self.next_root - 1 && self.current_spec()
                == Some(self.roots@[i]@))
    }

    /// A run over `home` (already normalised) and the other `roots`, in order.
    pub fn new(home: String, roots: Vec<String>) -> (r: WalkSession)
        ensures
            r.wf(),
            r.home_spec() == home@,
            r.roots_spec() == strings_view(roots@),
            r.stage_spec() == WalkStage::Start,
            r.current_spec() is None,
            !r.failed_spec(),
            forall|m: Map<Seq<char>, Seq<char>>, e: Seq<Seq<char>>| #[trigger] r.passed_settled(m, e),
    {
        let home_name = path2name(home.as_str());
        WalkSession { home, home_name, roots, stage: WalkStage::Start, next_root: 0, current: None, failed: false }
    }

    /// Whether a walk of this run was reported as failed: the run met a
    /// storage or read error, and that root keeps no checkpoint.
    pub fn had_failures(&self) -> (r: bool)
        ensures
            r == self.failed_spec(),
    {
        self.failed
    }

    /// Where the run stands.
    pub fn stage(&self) -> (r: WalkStage)
        ensures
            r == self.stage_spec(),
    {
        self.stage
    }
}

/// The document of the home directory itself.
pub open spec fn home_doc(home: Seq<char>) -> DocView {
    DocView { name: name_of(home), path: home, is_dir: true, ext: Seq::empty() }
}

/// The run's step hands out the home walk: the run starts, and the home
/// directory is neither excluded nor checkpointed.
pub open spec fn hands_out_home(
    stage: WalkStage,
    store: Map<Seq<char>, Seq<char>>,
    excluded: Seq<Seq<char>>,
    home: Seq<char>,
) -> bool {
    stage == WalkStage::Start && !matches_any(excluded, home) && needs_walk(store, home)
}

/// The phase from which a step goes on to the roots: a starting run has
/// recorded the start and the end of the home phase, a run that walked the
/// home directory records its end.
pub open spec fn entry_phase(stage: WalkStage, p: WalkPhase, now: u64) -> WalkPhase {
    match stage {
        WalkStage::Start => end_home_step(WalkPhase::HomeScan { started_at: now }, now),
        WalkStage::HomeWalking => end_home_step(p, now),
        _ => p,
    }
}

/// A root needs no walk: a checkpoint records it, or it is excluded.
pub open spec fn settled(store: Map<Seq<char>, Seq<char>>, excluded: Seq<Seq<char>>, root: Seq<char>) -> bool {
    !needs_walk(store, root) || matches_any(excluded, root)
}

/// Every root of the run, the home directory included, needs no walk.
pub open spec fn all_settled(
    store: Map<Seq<char>, Seq<char>>,
    excluded: Seq<Seq<char>>,
    home: Seq<char>,
    roots: Seq<Seq<char>>,
) -> bool {
    &&& settled(store, excluded, home)
    &&& forall|i: int| 0 <= i < roots.len() ==> settled(store, excluded, #[trigger] roots[i])
}

/// Whether the home directory lies under an excluded prefix.
fn need_skip_home(home: &String, policy: &ExclusionPolicy) -> (r: bool)
    ensures
        r == matches_any(policy@, home@),
{
    policy.matches(home.as_str())
}

fn start_walk_home_matrix(metrics: &mut WalkMetrics, now: u64)
    ensures
        final(metrics).phase == (WalkPhase::HomeScan { started_at: now }),
{
    metrics.start_home(now);
}

fn end_walk_home_matrix(metrics: &mut WalkMetrics, now: u64)
    ensures
        final(metrics).phase == end_home_step(old(metrics).phase, now),
{
    metrics.end_home(now);
}

fn clamp_u32(n: usize) -> (r: u32)
    ensures
        r as int == if n > u32::MAX { u32::MAX as int } else { n as int },
{
    if n > u32::MAX as usize {
        u32::MAX
    } else {
        n as u32
    }
}

fn inc_root_walk_metrics(metrics: &mut WalkMetrics, sz: usize, i: usize)
    requires
        i < sz,
    ensures
        final(metrics).phase == root_step(old(metrics).phase, clamp_spec(i + 1), clamp_spec(sz as int)),
{
    metrics.root_inc_percent(clamp_u32(i + 1), clamp_u32(sz));
}

/// `n` held in a `u32`, saturating.
pub open spec fn clamp_spec(n: int) -> u32 {
    if n > u32::MAX {
        u32::MAX
    } else {
        n as u32
    }
}

/// Whether `store` records `root` as walked.
pub fn is_walked(store: &KvStore, root: &String) -> (r: bool)
    requires
        store.wf(),
    ensures
        r == !needs_walk(store@, root@),
{
    let key = walk_key(root.as_str());
    store.get_str(key.as_str()).is_some()
}

/// The prefixes pruned below the home directory of the user `name`.
pub open spec fn home_skip_spec(name: Seq<char>) -> Seq<Seq<char>> {
    seq![
        "/Users/"@ + name + "/Library/Calendars"@,
        "/Users/"@ + name + "/Library/Reminders"@,
        "/Users/"@ + name + "/Library/Application Support/AddressBook"@,
    ]
}

/// The prefixes pruned below every other root, for the home directory `home`.
pub open spec fn root_skip_spec(home: Seq<char>) -> Seq<Seq<char>> {
    seq![home, "/proc"@, "/System/Volumes/Data/Users/"@ + name_of(home)]
}

/// The phase after the roots from index `from` up to `to` were reached, one
/// `root_inc_percent` each, out of `n`.
pub open spec fn roots_phase(p: WalkPhase, from: int, to: int, n: int) -> WalkPhase
    decreases to - from,
{
    if to <= from {
        p
    } else {
        root_step(roots_phase(p, from, to - 1, n), clamp_spec(to), clamp_spec(n))
    }
}

proof fn lemma_roots_phase_monotonic(p: WalkPhase, from: int, to: int, n: int)
    ensures
        phase_percent(roots_phase(p, from, to, n)) >= phase_percent(p),
    decreases to - from,
{
    if to > from {
        lemma_roots_phase_monotonic(p, from, to - 1, n);
        law_progress_monotonic(roots_phase(p, from, to - 1, n), 0, clamp_spec(to), clamp_spec(n));
    }
}

/// The prefixes pruned below the home directory: the calendar, reminder and
/// address-book stores of the user `home_name`.
pub fn home_skip_paths(home_name: &String) -> (r: Vec<String>)
    ensures
        strings_view(r@) == home_skip_spec(home_name@),
        r@.len() == 3,
        r@[0]@ == "/Users/"@ + home_name@ + "/Library/Calendars"@,
        r@[1]@ == "/Users/"@ + home_name@ + "/Library/Reminders"@,
        r@[2]@ == "/Users/"@ + home_name@ + "/Library/Application Support/AddressBook"@,
{
    let mut r: Vec<String> = Vec::new();
    r.push(String::from_str("/Users/").concat(home_name.as_str()).concat("/Library/Calendars"));
    r.push(String::from_str("/Users/").concat(home_name.as_str()).concat("/Library/Reminders"));
    r.push(
        String::from_str("/Users/").concat(home_name.as_str()).concat(
            "/Library/Application Support/AddressBook",
        ),
    );
    assert(strings_view(r@) =~= home_skip_spec(home_name@));
    r
}

/// The prefixes pruned below every other root: the home directory, which
/// has its own walk, the process file system, and the user-data copy of the
/// home directory.
pub fn root_skip_paths(home: &String, home_name: &String) -> (r: Vec<String>)
    requires
        home_name@ == name_of(home@),
    ensures
        strings_view(r@) == root_skip_spec(home@),
        r@.len() == 3,
        r@[0]@ == home@,
        r@[1]@ == "/proc"@,
        r@[2]@ == "/System/Volumes/Data/Users/"@ + home_name@,
{
    let mut r: Vec<String> = Vec::new();
    r.push(home.clone());
    r.push(String::from_str("/proc"));
    r.push(String::from_str("/System/Volumes/Data/Users/").concat(home_name.as_str()));
    assert(strings_view(r@) =~= root_skip_spec(home@));
    r
}

/// Whether the walk prunes the children of the directory `path`: it lies
/// under an excluded prefix or under one of the walk's own `skip` prefixes.
pub fn should_prune(policy: &ExclusionPolicy, skip: &Vec<String>, path: &str) -> (r: bool)
    ensures
        r == (matches_any(policy@, path@) || matches_any(strings_view(skip@), path@)),
{
    policy.matches(path) || starts_with_any(skip, path)
}

/// Buffers the home directory itself and hands out its walk, unless a
/// checkpoint records it.
fn walk_home(session: &mut WalkSession, store: &KvStore, index: &mut SearchIndex) -> (r: Option<WalkAction>)
    requires
        store.wf(),
    ensures
        final(session).home == old(session).home,
        final(session).home_name == old(session).home_name,
        final(session).roots == old(session).roots,
        final(session).stage == old(session).stage,
        final(session).failed == old(session).failed,
        final(session).next_root == old(session).next_root,
        final(index).docs() == old(index).docs(),
        r is None ==> !needs_walk(store@, old(session).home@) && *final(index) == *old(index)
            && final(session).current == old(session).current,
        r matches Some(a) ==> final(index).buffered() == old(index).buffered().push(
            DocView { name: old(session).home_name@, path: old(session).home@, is_dir: true, ext: Seq::empty() },
        ),
        r matches Some(a) ==> needs_walk(store@, old(session).home@) && final(session).current_spec() == Some(old(session).home@) && (a matches WalkAction::Walk { root, skip }
            && root@ == old(session).home@ && strings_view(skip@) == home_skip_spec(old(session).home_name@)),
{
    if is_walked(store, &session.home) {
        return None;
    }
    let ext = String::new();
    index.add(session.home_name.clone(), session.home.clone(), true, ext);
    assert(ext@ =~= Seq::<char>::empty());
    let skip = home_skip_paths(&session.home_name);
    session.current = Some(session.home.clone());
    Some(WalkAction::Walk { root: session.home.clone(), skip })
}

/// Moves to the next root that has no checkpoint and is not excluded,
/// recording progress for each root reached; `None` when none is left.
fn unix_walk_root(
    session: &mut WalkSession,
    policy: &ExclusionPolicy,
    store: &KvStore,
    metrics: &mut WalkMetrics,
) -> (r: Option<String>)
    requires
        store.wf(),
        old(session).next_root <= old(session).roots@.len(),
    ensures
        final(session).home == old(session).home,
        final(session).home_name == old(session).home_name,
        final(session).roots == old(session).roots,
        final(session).stage == old(session).stage,
        final(session).failed == old(session).failed,
        final(session).current == old(session).current,
        old(session).next_root <= final(session).next_root <= final(session).roots@.len(),
        r is None ==> final(session).next_root == final(session).roots@.len(),
        r is Some ==> final(session).next_root > old(session).next_root,
        final(metrics).phase == roots_phase(
            old(metrics).phase,
            old(session).next_root as int,
            final(session).next_root as int,
            old(session).roots@.len() as int,
        ),
        r matches Some(root) ==> needs_walk(store@, root@) && !matches_any(policy@, root@)
            && final(session).next_root >= 1 && root@ == final(session).roots@[final(session).next_root - 1]@,
        forall|i: int|
            old(session).next_root <= i < final(session).next_root && (r is None || i
                < final(session).next_root - 1) ==> settled(
                store@,
                policy@,
                #[trigger] old(session).roots@[i]@,
            ),
        (forall|i: int|
            old(session).next_root <= i < old(session).roots@.len() ==> settled(
                store@,
                policy@,
                #[trigger] old(session).roots@[i]@,
            )) ==> r is None,
{
    let sz = session.roots.len();
    let ghost start = session.next_root;
    while session.next_root < sz
        invariant
            sz == session.roots@.len(),
            start <= session.next_root <= sz,
            session.home == old(session).home,
            session.home_name == old(session).home_name,
            session.roots == old(session).roots,
            session.stage == old(session).stage,
            session.failed == old(session).failed,
            session.current == old(session).current,
            start == old(session).next_root,
            store.wf(),
            metrics.phase == roots_phase(old(metrics).phase, start as int, session.next_root as int, sz as int),
            forall|i: int|
                start <= i < session.next_root ==> settled(store@, policy@, #[trigger] session.roots@[i]@),
        decreases sz - session.next_root,
    {
        let i = session.next_root;
        inc_root_walk_metrics(metrics, sz, i);
        session.next_root = i + 1;
        if !is_walked(store, &session.roots[i]) && !policy.matches(session.roots[i].as_str()) {
            let root = session.roots[i].clone();
            return Some(root);
        }
    }
    None
}

/// Advances the run by one step.
///
/// When a walk was handed out by the previous call, this call first reports
/// it: the index commits every buffered document, and only then, when
/// `walked_ok` says the traversal finished, the root's checkpoint is stored.
/// Then the run goes on to the next root that no checkpoint records and
/// hands out its walk, or ends the run and answers `Done`.
pub fn run(
    session: &mut WalkSession,
    policy: &ExclusionPolicy,
    store: &mut KvStore,
    index: &mut SearchIndex,
    metrics: &mut WalkMetrics,
    now: u64,
    walked_ok: bool,
) -> (r: WalkAction)
    requires
        old(session).wf(),
        old(store).wf(),
        old(index).wf(),
    ensures
        final(session).wf(),
        final(store).wf(),
        final(index).wf(),
        final(session).home_spec() == old(session).home_spec(),
        final(session).roots_spec() == old(session).roots_spec(),
        final(store)@ == (match old(session).current_spec() {
            Some(c) => if walked_ok {
                old(store)@.insert(walk_key_of(c), checkpoint_mark())
            } else {
                old(store)@
            },
            None => old(store)@,
        }),
        old(session).current_spec() is Some ==> final(index).docs() == upsert_all(
            old(index).docs(),
            old(index).buffered(),
        ),
        old(session).current_spec() is None ==> final(index).docs() == old(index).docs(),
        old(session).current_spec() is Some ==> final(index).buffered() == Seq::<DocView>::empty(),
        old(session).current_spec() is None ==> final(index).buffered() == (if hands_out_home(
            old(session).stage_spec(),
            old(store)@,
            policy@,
            old(session).home_spec(),
        ) {
            old(index).buffered().push(home_doc(old(session).home_spec()))
        } else {
            old(index).buffered()
        }),
        final(session).failed_spec() == (old(session).failed_spec() || (old(
            session,
        ).current_spec() is Some && !walked_ok)),
        final(session).next_root_spec() >= old(session).next_root_spec(),
        r is Walk ==> final(session).steps_left() < old(session).steps_left(),
        r matches WalkAction::Walk { skip, .. } ==> strings_view(skip@) == (if hands_out_home(
            old(session).stage_spec(),
            old(store)@,
            policy@,
            old(session).home_spec(),
        ) {
            home_skip_spec(name_of(old(session).home_spec()))
        } else {
            root_skip_spec(old(session).home_spec())
        }),
        hands_out_home(old(session).stage_spec(), old(store)@, policy@, old(session).home_spec())
            ==> final(metrics).phase == (WalkPhase::HomeScan { started_at: now }),
        r matches WalkAction::Walk { root, .. } ==> !hands_out_home(
            old(session).stage_spec(),
            old(store)@,
            policy@,
            old(session).home_spec(),
        ) ==> {
            &&& old(session).next_root_spec() < final(session).next_root_spec()
            &&& root@ == old(session).roots_spec()[final(session).next_root_spec() - 1]
            &&& forall|i: int|
                old(session).next_root_spec() <= i < final(session).next_root_spec() - 1
                    ==> settled(final(store)@, policy@, #[trigger] old(session).roots_spec()[i])
            &&& final(metrics).phase == roots_phase(
                entry_phase(old(session).stage_spec(), old(metrics).phase, now),
                old(session).next_root_spec(),
                final(session).next_root_spec(),
                old(session).roots_spec().len() as int,
            )
        },
        old(session).stage_spec() != WalkStage::Start ==> phase_percent(final(metrics).phase)
            >= phase_percent(old(metrics).phase),
        r matches WalkAction::Walk { root, .. } ==> needs_walk(final(store)@, root@)
            && !matches_any(policy@, root@) && final(session).current_spec() == Some(root@),
        r is Done ==> final(session).stage_spec() == WalkStage::Finished && final(session).current_spec() is None && final(metrics).phase == WalkPhase::Idle,
        r is Done ==> forall|i: int|
            old(session).next_root_spec() <= i < old(session).roots_spec().len() ==> settled(
                final(store)@,
                policy@,
                #[trigger] old(session).roots_spec()[i],
            ),
        walked_ok && old(session).passed_settled(old(store)@, policy@) ==> final(session).passed_settled(final(store)@, policy@),
        old(session).stage_spec() == WalkStage::Start && !matches_any(policy@, old(session).home_spec())
            && needs_walk(old(store)@, old(session).home_spec()) ==> (r matches WalkAction::Walk {
            root,
            ..
        } && root@ == old(session).home_spec() && final(index).buffered() == old(index).buffered().push(home_doc(old(session).home_spec()))),
        r is Done && old(session).stage_spec() == WalkStage::Start ==> settled(
            final(store)@,
            policy@,
            old(session).home_spec(),
        ),
        old(session).stage_spec() == WalkStage::Start && all_settled(
            old(store)@,
            policy@,
            old(session).home_spec(),
            old(session).roots_spec(),
        ) ==> r is Done,
{
    let ghost store0 = store@;
    let ghost metrics0 = metrics.phase;
    proof {
        law_progress_monotonic(metrics0, now, 0, 0);
    }
    let taken = session.current.take();
    match taken {
        Some(c) => {
            index.commit();
            if !walked_ok {
                session.failed = true;
            }
            if walked_ok {
                let key = walk_key(c.as_str());
                let mark = String::from_str("1");
                proof {
                    reveal_strlit("1");
                    assert(mark@ =~= checkpoint_mark());
                }
                store.put_str(key, mark);
            }
        },
        None => {},
    }
    if session.stage == WalkStage::Start {
        start_walk_home_matrix(metrics, now);
        if !need_skip_home(&session.home, policy) {
            match walk_home(session, store, index) {
                Some(a) => {
                    session.stage = WalkStage::HomeWalking;
                    return a;
                },
                None => {},
            }
        }
        session.stage = WalkStage::HomeWalking;
    }
    if session.stage == WalkStage::HomeWalking {
        end_walk_home_matrix(metrics, now);
        session.stage = WalkStage::Roots;
    }
    if session.stage == WalkStage::Roots {
        proof {
            if old(session).stage == WalkStage::Start && all_settled(
                store0,
                policy@,
                old(session).home@,
                strings_view(old(session).roots@),
            ) {
                assert forall|i: int| 0 <= i < session.roots@.len() implies settled(
                    store@,
                    policy@,
                    #[trigger] session.roots@[i]@,
                ) by {
                    assert(strings_view(old(session).roots@)[i] == old(session).roots@[i]@);
                }
            }
        }
        let ghost first = session.next_root;
        let ghost entry = metrics.phase;
        proof {
            law_progress_monotonic(entry, now, 0, 0);
        }
        match unix_walk_root(session, policy, store, metrics) {
            Some(root) => {
                proof {
                    lemma_roots_phase_monotonic(entry, first as int, session.next_root as int, session.roots@.len() as int);
                    assert(strings_view(old(session).roots@)[session.next_root - 1] == session.roots@[session.next_root - 1]@);
                    assert forall|i: int|
                        old(session).next_root <= i < session.next_root - 1 implies settled(
                        store@,
                        policy@,
                        #[trigger] strings_view(old(session).roots@)[i],
                    ) by {
                        assert(strings_view(old(session).roots@)[i] == session.roots@[i]@);
                    }
                }
                session.current = Some(root.clone());
                let skip = root_skip_paths(&session.home, &session.home_name);
                return WalkAction::Walk { root, skip };
            },
            None => {
                session.stage = WalkStage::Finished;
                proof {
                    assert forall|i: int|
                        old(session).next_root <= i < old(session).roots@.len() implies !needs_walk(
                        store@,
                        #[trigger] strings_view(old(session).roots@)[i],
                    ) || matches_any(policy@, strings_view(old(session).roots@)[i]) by {
                        assert(strings_view(old(session).roots@)[i] == session.roots@[i]@);
                        assert(first <= i);
                    }
                }
            },
        }
    }
    if session.stage == WalkStage::Finished {
        metrics.end_walk();
    }
    WalkAction::Done
}

/// A second run walks nothing: once a run has finished with every walk it
/// handed out reported as done, every root it covers, the home directory
/// included, needs no walk. A new run over the same roots, with the same
/// exclusions and this store, then answers `Done` on its first step.
pub proof fn law_second_run_walks_nothing(
    session: WalkSession,
    store: Map<Seq<char>, Seq<char>>,
    excluded: Seq<Seq<char>>,
)
    requires
        session.wf(),
        session.stage_spec() == WalkStage::Finished,
        session.passed_settled(store, excluded),
    ensures
        all_settled(store, excluded, session.home_spec(), session.roots_spec()),
{
    assert forall|i: int| 0 <= i < session.roots_spec().len() implies settled(
        store,
        excluded,
        #[trigger] session.roots_spec()[i],
    ) by {
        assert(session.roots_spec()[i] == session.roots@[i]@);
    }
}

/// A root whose walk was reported as finished is never handed out again
/// while its checkpoint stands: once `run` stores the mark, the root no
/// longer needs a walk, whatever else the store holds.
pub proof fn law_reported_root_is_skipped(store: Map<Seq<char>, Seq<char>>, root: Seq<char>)
    ensures
        !needs_walk(store.insert(walk_key_of(root), checkpoint_mark()), root),
{
}

/// Exclusion prunes whole subtrees: every path under a directory that lies
/// under an excluded prefix lies under that prefix too, so the walk prunes
/// below each of them and indexes nothing beneath the directory's children.
pub proof fn law_exclusion_covers_subtree(
    excluded: Seq<Seq<char>>,
    dir: Seq<char>,
    path: Seq<char>,
)
    requires
        matches_any(excluded, dir),
        is_prefix(dir, path),
    ensures
        matches_any(excluded, path),
{
    let i = choose|i: int| 0 <= i < excluded.len() && is_prefix(#[trigger] excluded[i], dir);
    let p = excluded[i];
    assert(path.subrange(0, p.len() as int) =~= dir.subrange(0, p.len() as int));
}

} // verus!
