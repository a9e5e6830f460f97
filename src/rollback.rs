use vstd::prelude::*;
use crate::engine::{after_steps, count_plan, head_plan, ids, walk};
use crate::script::{Direction, Migration, down_target};
use crate::store::{StoreView, distinct, first_pos, history_ids};

verus! {

/// The migrations form one chain: identifiers are distinct, the first reverses
/// to the absent pointer and every later one to its predecessor.
pub open spec fn chained(ms: Seq<Migration>) -> bool {
    &&& distinct(ids(ms))
    &&& forall|i: int|
        0 <= i < ms.len() ==> #[trigger] down_target(ms[i]) == if i == 0 {
            None
        } else {
            Some(ms[i - 1].id@)
        }
}

/// The store when exactly the first `c` migrations are applied, in order.
pub open spec fn applied_through(ms: Seq<Migration>, c: int) -> StoreView {
    StoreView {
        current: if c == 0 {
            None
        } else {
            Some(ms[c - 1].id@)
        },
        history: Seq::new(c as nat, |i: int| (ms[i].id@, ms[i].name@)),
    }
}

proof fn lemma_first_pos_distinct(s: Seq<Seq<char>>, i: int)
    requires
        distinct(s),
        0 <= i < s.len(),
    ensures
        first_pos(s, s[i]) == Some(i),
{
    assert(s.contains(s[i]));
    let j = first_pos(s, s[i])->Some_0;
    assert(s[j] == s[i]);
}

proof fn lemma_applied_ids(ms: Seq<Migration>, c: int)
    requires
        0 <= c <= ms.len(),
    ensures
        history_ids(applied_through(ms, c).history) == ids(ms).take(c),
{
    assert(history_ids(applied_through(ms, c).history) =~= ids(ms).take(c));
}

proof fn lemma_upgrade_steps(ms: Seq<Migration>, c: int, k: int)
    requires
        chained(ms),
        0 <= c,
        0 <= k,
        c + k <= ms.len(),
    ensures
        after_steps(applied_through(ms, c), ms, Direction::Up, walk(Direction::Up, c, k))
            == applied_through(ms, c + k),
    decreases k,
{
    let w = walk(Direction::Up, c, k);
    if k == 0 {
        assert(applied_through(ms, c).history =~= applied_through(ms, c + k).history);
    } else {
        assert(w.drop_last() =~= walk(Direction::Up, c, k - 1));
        lemma_upgrade_steps(ms, c, k - 1);
        let j = c + k - 1;
        let prev = applied_through(ms, j);
        lemma_applied_ids(ms, j);
        let s = ids(ms);
        if history_ids(prev.history).contains(s[j]) {
            let x = choose|x: int| 0 <= x < j && #[trigger] s.take(j)[x] == s[j];
            assert(s[x] == s[j]);
        }
        assert(prev.history.push((ms[j].id@, ms[j].name@)) =~= applied_through(
            ms,
            c + k,
        ).history);
    }
}

proof fn lemma_downgrade_steps(ms: Seq<Migration>, top: int, k: int)
    requires
        chained(ms),
        0 <= k <= top,
        top <= ms.len(),
    ensures
        after_steps(applied_through(ms, top), ms, Direction::Down, walk(Direction::Down, top - 1, k))
            == applied_through(ms, top - k),
    decreases k,
{
    let w = walk(Direction::Down, top - 1, k);
    if k == 0 {
        assert(applied_through(ms, top).history =~= applied_through(ms, top - k).history);
    } else {
        assert(w.drop_last() =~= walk(Direction::Down, top - 1, k - 1));
        lemma_downgrade_steps(ms, top, k - 1);
        let j = top - k;
        let prev = applied_through(ms, j + 1);
        lemma_applied_ids(ms, j + 1);
        let s = ids(ms);
        assert(down_target(ms[j]) == if j == 0 {
            None
        } else {
            Some(ms[j - 1].id@)
        });
        assert(distinct(s.take(j + 1)));
        assert(s.take(j + 1)[j] == s[j]);
        lemma_first_pos_distinct(s.take(j + 1), j);
        assert(prev.history.remove(j) =~= applied_through(ms, j).history);
    }
}

/// Upgrading `n` steps and then downgrading `n` steps returns the store to
/// where it was, when the store is consistent with a chained list of migrations.
pub proof fn lemma_upgrade_then_downgrade(ms: Seq<Migration>, c: int, n: int)
    requires
        chained(ms),
        0 <= c <= ms.len(),
        0 <= n <= ms.len() - c,
    ensures
        count_plan(ms, applied_through(ms, c).current, Direction::Up, n) is Ok,
        ({
            let up = count_plan(ms, applied_through(ms, c).current, Direction::Up, n)->Ok_0.1;
            let mid = after_steps(applied_through(ms, c), ms, Direction::Up, up);
            &&& count_plan(ms, mid.current, Direction::Down, n) is Ok
            &&& after_steps(
                mid,
                ms,
                Direction::Down,
                count_plan(ms, mid.current, Direction::Down, n)->Ok_0.1,
            ) == applied_through(ms, c)
        }),
{
    let s = ids(ms);
    if c > 0 {
        lemma_first_pos_distinct(s, c - 1);
    }
    lemma_upgrade_steps(ms, c, n);
    if c + n > 0 {
        lemma_first_pos_distinct(s, c + n - 1);
        lemma_downgrade_steps(ms, c + n, n);
    } else {
        assert(walk(Direction::Down, 0, 0) =~= Seq::<int>::empty());
    }
}

/// From an empty store, running to head and then downgrading by the number of
/// steps taken leaves no current migration and an empty history.
pub proof fn lemma_head_then_full_rollback(ms: Seq<Migration>, st: StoreView)
    requires
        chained(ms),
        st.current is None,
        st.history.len() == 0,
    ensures
        ({
            let up = head_plan(ms, st.current).1;
            let mid = after_steps(st, ms, Direction::Up, up);
            &&& count_plan(ms, mid.current, Direction::Down, up.len() as int) is Ok
            &&& after_steps(
                mid,
                ms,
                Direction::Down,
                count_plan(ms, mid.current, Direction::Down, up.len() as int)->Ok_0.1,
            ) == st
        }),
{
    assert(st.history =~= applied_through(ms, 0).history);
    assert(st == applied_through(ms, 0));
    lemma_upgrade_then_downgrade(ms, 0, ms.len() as int);
}

} // verus!
