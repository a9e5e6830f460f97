use vstd::prelude::*;
use crate::script::{Direction, Migration, down_target};
use crate::store::{StateStore, StoreView, first_pos, recorded, removed};

verus! {

/// Why a run was refused before any step was taken.
#[derive(PartialEq, Eq, Structural, Clone, Copy, Debug)]
pub enum RunError {
    /// The requested target is not the identifier of any migration.
    TargetNotFound,
    /// The requested step count is negative or exceeds the eligible steps.
    InvalidCount,
}

/// The steps of a run, as positions in the ascending list of migrations.
pub struct Plan {
    pub direction: Direction,
    /// Whether the current position was found in the list at all.
    pub started: bool,
    pub steps: Vec<usize>,
}

/// The identifiers of the migrations, in list order.
pub open spec fn ids(ms: Seq<Migration>) -> Seq<Seq<char>> {
    ms.map_values(|m: Migration| m.id@)
}

/// Where an upgrade starts: at the first script when nothing is applied, else
/// right after the current migration.
pub open spec fn up_start(ms: Seq<Migration>, cur: Option<Seq<char>>) -> Option<int> {
    match cur {
        None => Some(0),
        Some(id) => match first_pos(ids(ms), id) {
            Some(i) => Some(i + 1),
            None => None,
        },
    }
}

/// Where a downgrade starts: at the current migration itself.
pub open spec fn down_start(ms: Seq<Migration>, cur: Option<Seq<char>>) -> Option<int> {
    match cur {
        None => None,
        Some(id) => first_pos(ids(ms), id),
    }
}

/// The position of the first step in `dir`, when the current position is found.
pub open spec fn boundary(ms: Seq<Migration>, cur: Option<Seq<char>>, dir: Direction) -> Option<
    int,
> {
    match dir {
        Direction::Up => up_start(ms, cur),
        Direction::Down => down_start(ms, cur),
    }
}

/// How many steps can be taken in `dir` from the current position.
pub open spec fn eligible(ms: Seq<Migration>, cur: Option<Seq<char>>, dir: Direction) -> int {
    match boundary(ms, cur, dir) {
        None => 0,
        Some(b) => match dir {
            Direction::Up => ms.len() - b,
            Direction::Down => b + 1,
        },
    }
}

/// `n` consecutive positions from `b`, ascending for an upgrade, descending for a downgrade.
pub open spec fn walk(dir: Direction, b: int, n: int) -> Seq<int> {
    match dir {
        Direction::Up => Seq::new(n as nat, |k: int| b + k),
        Direction::Down => Seq::new(n as nat, |k: int| b - k),
    }
}

/// The identifier of the newest migration.
pub open spec fn head_of(ms: Seq<Migration>) -> Option<Seq<char>> {
    if ms.len() == 0 {
        None
    } else {
        Some(ms.last().id@)
    }
}

/// The run to head: every upgrade step from the start up to the newest migration.
pub open spec fn head_plan(ms: Seq<Migration>, cur: Option<Seq<char>>) -> (bool, Seq<int>) {
    match up_start(ms, cur) {
        None => (false, Seq::empty()),
        Some(b) => (true, walk(Direction::Up, b, ms.len() - b)),
    }
}

/// The run towards `target`. An upgrade stops after the target's step; a
/// downgrade stops before it, so the target stays applied. A target that the
/// walk never meets leaves the walk running to the end of the list.
pub open spec fn target_plan(
    ms: Seq<Migration>,
    cur: Option<Seq<char>>,
    dir: Direction,
    target: Seq<char>,
) -> Result<(bool, Seq<int>), RunError> {
    match first_pos(ids(ms), target) {
        None => Err(RunError::TargetNotFound),
        Some(t) => match boundary(ms, cur, dir) {
            None => Ok((false, Seq::empty())),
            Some(b) => Ok(
                (
                    true,
                    match dir {
                        Direction::Up => walk(
                            dir,
                            b,
                            if t >= b {
                                t + 1 - b
                            } else {
                                ms.len() - b
                            },
                        ),
                        Direction::Down => walk(
                            dir,
                            b,
                            if t <= b {
                                b - t
                            } else {
                                b + 1
                            },
                        ),
                    },
                ),
            ),
        },
    }
}

/// The run of exactly `n` steps, refused when fewer are eligible.
pub open spec fn count_plan(ms: Seq<Migration>, cur: Option<Seq<char>>, dir: Direction, n: int) -> Result<
    (bool, Seq<int>),
    RunError,
> {
    if n < 0 || n > eligible(ms, cur, dir) {
        Err(RunError::InvalidCount)
    } else {
        match boundary(ms, cur, dir) {
            None => Ok((false, Seq::empty())),
            Some(b) => Ok((true, walk(dir, b, n))),
        }
    }
}

/// The positions of a plan.
pub open spec fn steps_of(p: Plan) -> Seq<int> {
    p.steps@.map_values(|i: usize| i as int)
}

/// `r` is the plan `s` in direction `dir`, or the same refusal.
pub open spec fn plan_is(r: Result<Plan, RunError>, dir: Direction, s: Result<(bool, Seq<int>), RunError>) -> bool {
    match r {
        Ok(p) => s == Ok::<(bool, Seq<int>), RunError>((p.started, steps_of(p))) && p.direction == dir,
        Err(e) => s == Err::<(bool, Seq<int>), RunError>(e),
    }
}

/// The store after one step on `m`: an upgrade points at `m` and records it; a
/// downgrade points at its down-revision and drops it from the history.
pub open spec fn step_effect(st: StoreView, m: Migration, dir: Direction) -> StoreView {
    match dir {
        Direction::Up => StoreView {
            current: Some(m.id@),
            history: recorded(st.history, m.id@, m.name@),
        },
        Direction::Down => StoreView {
            current: down_target(m),
            history: removed(st.history, m.id@),
        },
    }
}

/// The store after the steps at `steps`, in order.
pub open spec fn after_steps(st: StoreView, ms: Seq<Migration>, dir: Direction, steps: Seq<int>) -> StoreView
    decreases steps.len(),
{
    if steps.len() == 0 {
        st
    } else {
        step_effect(after_steps(st, ms, dir, steps.drop_last()), ms[steps.last()], dir)
    }
}

/// Position of the migration with identifier `id`.
pub fn find_migration(ms: &Vec<Migration>, id: &String) -> (r: Option<usize>)
    ensures
        match r {
            Some(i) => first_pos(ids(ms@), id@) == Some(i as int),
            None => first_pos(ids(ms@), id@) is None,
        },
        r matches Some(i) ==> i < ms@.len(),
{
    let ghost s = ids(ms@);
    let mut i: usize = 0;
    while i < ms.len()
        invariant
            0 <= i <= ms@.len(),
            s == ids(ms@),
            s.len() == ms@.len(),
            forall|j: int| 0 <= j < i ==> s[j] != id@,
        decreases ms@.len() - i,
    {
        if ms[i].id == *id {
            proof {
                assert(s[i as int] == id@);
                assert(s.contains(id@));
            }
            return Some(i);
        }
        i = i + 1;
    }
    proof {
        assert(!s.contains(id@));
    }
    None
}

/// The position of the first step in `dir`, when the current position is found.
pub fn find_boundary(ms: &Vec<Migration>, current: &Option<String>, dir: Direction) -> (r: Option<usize>)
    ensures
        match r {
            Some(b) => boundary(ms@, crate::store::opt_view(*current), dir) == Some(b as int),
            None => boundary(ms@, crate::store::opt_view(*current), dir) is None,
        },
        r matches Some(b) ==> b <= ms@.len() && (dir == Direction::Down ==> b < ms@.len()),
{
    match current {
        None => match dir {
            Direction::Up => Some(0),
            Direction::Down => None,
        },
        Some(id) => {
            // positions below the length fit in usize
            let _len = ms.len();
            let p = find_migration(ms, id);
            match p {
                Some(i) => match dir {
                    Direction::Up => Some(i + 1),
                    Direction::Down => Some(i),
                },
                None => None,
            }
        },
    }
}

/// How many steps can be taken in `dir` from the current position.
pub fn eligible_steps(ms: &Vec<Migration>, current: &Option<String>, dir: Direction) -> (r: usize)
    ensures
        r as int == eligible(ms@, crate::store::opt_view(*current), dir),
{
    // positions up to the length fit in usize
    let _len = ms.len();
    match find_boundary(ms, current, dir) {
        None => 0,
        Some(b) => match dir {
            Direction::Up => ms.len() - b,
            Direction::Down => b + 1,
        },
    }
}

/// Whether `n` steps can be taken in `dir` from the current position.
pub fn count_is_feasible(ms: &Vec<Migration>, current: &Option<String>, dir: Direction, n: i32) -> (r: bool)
    ensures
        r == (0 <= n <= eligible(ms@, crate::store::opt_view(*current), dir)),
{
    if n < 0 {
        false
    } else {
        (n as usize) <= eligible_steps(ms, current, dir)
    }
}

/// The `n` positions from `b` in `dir`.
fn make_walk(dir: Direction, b: usize, n: usize) -> (r: Vec<usize>)
    requires
        dir == Direction::Up ==> b + n <= usize::MAX,
        dir == Direction::Down ==> n <= b + 1,
    ensures
        r@.map_values(|i: usize| i as int) == walk(dir, b as int, n as int),
        forall|k: int| 0 <= k < r@.len() ==> (dir == Direction::Up ==> r@[k] < b + n) && (dir
            == Direction::Down ==> r@[k] <= b),
{
    let mut r: Vec<usize> = Vec::new();
    let mut k: usize = 0;
    while k < n
        invariant
            k <= n,
            dir == Direction::Up ==> b + n <= usize::MAX,
            dir == Direction::Down ==> n <= b + 1,
            r@.len() == k,
            forall|j: int|
                0 <= j < k ==> #[trigger] r@[j] as int == match dir {
                    Direction::Up => b + j,
                    Direction::Down => b - j,
                },
        decreases n - k,
    {
        match dir {
            Direction::Up => r.push(b + k),
            Direction::Down => r.push(b - k),
        }
        k = k + 1;
    }
    proof {
        assert(r@.map_values(|i: usize| i as int) =~= walk(dir, b as int, n as int));
    }
    r
}

/// Plans the upgrade to the newest migration.
pub fn plan_to_head(ms: &Vec<Migration>, current: &Option<String>) -> (r: Plan)
    ensures
        plan_is(Ok(r), Direction::Up, Ok(head_plan(ms@, crate::store::opt_view(*current)))),
        forall|k: int| 0 <= k < r.steps@.len() ==> r.steps@[k] < ms@.len(),
{
    match find_boundary(ms, current, Direction::Up) {
        None => {
            let steps: Vec<usize> = Vec::new();
            proof {
                assert(steps@.map_values(|i: usize| i as int) =~= Seq::<int>::empty());
            }
            Plan { direction: Direction::Up, started: false, steps }
        },
        Some(b) => {
            let steps = make_walk(Direction::Up, b, ms.len() - b);
            Plan { direction: Direction::Up, started: true, steps }
        },
    }
}


/// A plan that takes no step.
fn empty_plan(dir: Direction, started: bool) -> (r: Plan)
    ensures
        r.direction == dir,
        r.started == started,
        steps_of(r) == Seq::<int>::empty(),
        r.steps@.len() == 0,
{
    let steps: Vec<usize> = Vec::new();
    proof {
        assert(steps@.map_values(|i: usize| i as int) =~= Seq::<int>::empty());
    }
    Plan { direction: dir, started, steps }
}

/// Plans the run towards `target` in `dir`; refused when no migration has that identifier.
pub fn plan_to_target(ms: &Vec<Migration>, current: &Option<String>, dir: Direction, target: &String) -> (r: Result<Plan, RunError>)
    ensures
        plan_is(r, dir, target_plan(ms@, crate::store::opt_view(*current), dir, target@)),
        r matches Ok(p) ==> forall|k: int| 0 <= k < p.steps@.len() ==> p.steps@[k] < ms@.len(),
{
    let n = ms.len();
    let t = match find_migration(ms, target) {
        None => {
            return Err(RunError::TargetNotFound);
        },
        Some(t) => t,
    };
    match find_boundary(ms, current, dir) {
        None => Ok(empty_plan(dir, false)),
        Some(b) => {
            let count = match dir {
                Direction::Up => if t >= b {
                    t + 1 - b
                } else {
                    n - b
                },
                Direction::Down => if t <= b {
                    b - t
                } else {
                    b + 1
                },
            };
            let steps = make_walk(dir, b, count);
            Ok(Plan { direction: dir, started: true, steps })
        },
    }
}

/// Plans a run of exactly `n` steps in `dir`; refused when `n` is negative or
/// more than the eligible steps.
pub fn plan_by_count(ms: &Vec<Migration>, current: &Option<String>, dir: Direction, n: i32) -> (r: Result<Plan, RunError>)
    ensures
        plan_is(r, dir, count_plan(ms@, crate::store::opt_view(*current), dir, n as int)),
        r matches Ok(p) ==> forall|k: int| 0 <= k < p.steps@.len() ==> p.steps@[k] < ms@.len(),
{
    if !count_is_feasible(ms, current, dir, n) {
        return Err(RunError::InvalidCount);
    }
    // a walk within the list stays within usize
    let _len = ms.len();
    match find_boundary(ms, current, dir) {
        None => Ok(empty_plan(dir, false)),
        Some(b) => {
            let steps = make_walk(dir, b, n as usize);
            Ok(Plan { direction: dir, started: true, steps })
        },
    }
}

/// Applies one step on `m` to the store.
pub fn apply_step(store: &mut StateStore, m: &Migration, dir: Direction)
    requires
        old(store).wf(),
    ensures
        final(store).wf(),
        final(store)@ == step_effect(old(store)@, *m, dir),
{
    match dir {
        Direction::Up => {
            store.set_current(Some(m.id.clone()));
            store.record_history(m.id.clone(), m.name.clone());
        },
        Direction::Down => {
            store.set_current(m.down_target());
            store.remove_history(&m.id);
        },
    }
}

/// Applies every step of `plan` to the store, in order.
pub fn run_plan(store: &mut StateStore, ms: &Vec<Migration>, plan: &Plan)
    requires
        old(store).wf(),
        forall|k: int| 0 <= k < plan.steps@.len() ==> plan.steps@[k] < ms@.len(),
    ensures
        final(store).wf(),
        final(store)@ == after_steps(old(store)@, ms@, plan.direction, steps_of(*plan)),
{
    let ghost st0 = store@;
    let ghost all = steps_of(*plan);
    let mut k: usize = 0;
    while k < plan.steps.len()
        invariant
            store.wf(),
            k <= plan.steps@.len(),
            all == steps_of(*plan),
            all.len() == plan.steps@.len(),
            forall|j: int| 0 <= j < plan.steps@.len() ==> plan.steps@[j] < ms@.len(),
            store@ == after_steps(st0, ms@, plan.direction, all.take(k as int)),
        decreases plan.steps@.len() - k,
    {
        let i = plan.steps[k];
        apply_step(store, &ms[i], plan.direction);
        proof {
            let next = all.take(k + 1);
            assert(next.drop_last() =~= all.take(k as int));
            assert(next.last() == i as int);
        }
        k = k + 1;
    }
    proof {
        assert(all.take(k as int) =~= all);
    }
}

/// Upgrades the store to the newest migration.
pub fn run_to_head(store: &mut StateStore, ms: &Vec<Migration>) -> (r: Plan)
    requires
        old(store).wf(),
    ensures
        final(store).wf(),
        plan_is(Ok(r), Direction::Up, Ok(head_plan(ms@, old(store)@.current))),
        final(store)@ == after_steps(old(store)@, ms@, Direction::Up, steps_of(r)),
{
    let current = store.get_current();
    let plan = plan_to_head(ms, &current);
    run_plan(store, ms, &plan);
    plan
}

/// Moves the store towards `target` in `dir`; on a refusal the store is unchanged.
pub fn run_to_target(store: &mut StateStore, ms: &Vec<Migration>, dir: Direction, target: &String) -> (r: Result<Plan, RunError>)
    requires
        old(store).wf(),
    ensures
        final(store).wf(),
        plan_is(r, dir, target_plan(ms@, old(store)@.current, dir, target@)),
        final(store)@ == match r {
            Ok(p) => after_steps(old(store)@, ms@, dir, steps_of(p)),
            Err(_) => old(store)@,
        },
{
    let current = store.get_current();
    let r = plan_to_target(ms, &current, dir, target);
    if let Ok(plan) = &r {
        run_plan(store, ms, plan);
    }
    r
}

/// Moves the store exactly `n` steps in `dir`; on a refusal the store is unchanged.
pub fn run_by_count(store: &mut StateStore, ms: &Vec<Migration>, dir: Direction, n: i32) -> (r: Result<Plan, RunError>)
    requires
        old(store).wf(),
    ensures
        final(store).wf(),
        plan_is(r, dir, count_plan(ms@, old(store)@.current, dir, n as int)),
        final(store)@ == match r {
            Ok(p) => after_steps(old(store)@, ms@, dir, steps_of(p)),
            Err(_) => old(store)@,
        },
{
    let current = store.get_current();
    let r = plan_by_count(ms, &current, dir, n);
    if let Ok(plan) = &r {
        run_plan(store, ms, plan);
    }
    r
}

/// The identifier of the newest migration, if there is any.
pub fn query_head(ms: &Vec<Migration>) -> (r: Option<String>)
    ensures
        crate::store::opt_view(r) == head_of(ms@),
{
    let n = ms.len();
    if n == 0 {
        None
    } else {
        Some(ms[n - 1].id.clone())
    }
}

} // verus!
