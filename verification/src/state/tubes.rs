//! Steps that touch several tubes at once.
use crate::model::TubeView;
use crate::names::NameSet;
use crate::order::first_ready;
use crate::tables::TubeTable;
use vstd::prelude::*;

verus! {

/// Applying `f` to one more of the named tubes.
pub proof fn lemma_on_names_step(
    tubes: Map<Seq<char>, TubeView>,
    done: Set<Seq<char>>,
    n: Seq<char>,
    f: spec_fn(TubeView) -> TubeView,
)
    requires
        !done.contains(n),
    ensures
        tubes.contains_key(n) ==> {
            &&& crate::view::on_names(tubes, done, f)[n] == tubes[n]
            &&& crate::view::on_names(tubes, done.insert(n), f) == crate::view::on_names(
                tubes,
                done,
                f,
            ).insert(n, f(tubes[n]))
        },
        !tubes.contains_key(n) ==> crate::view::on_names(tubes, done.insert(n), f)
            == crate::view::on_names(tubes, done, f),
        crate::view::on_names(tubes, done, f).contains_key(n) == tubes.contains_key(n),
{
    let a = crate::view::on_names(tubes, done, f);
    let b = crate::view::on_names(tubes, done.insert(n), f);
    if tubes.contains_key(n) {
        assert(b =~= a.insert(n, f(tubes[n])));
    } else {
        assert(b =~= a);
    }
}

/// Applying `f` to none of the tubes changes nothing.
pub proof fn lemma_on_names_none(
    tubes: Map<Seq<char>, TubeView>,
    f: spec_fn(TubeView) -> TubeView,
)
    ensures
        crate::view::on_names(tubes, Set::empty(), f) == tubes,
{
    assert(crate::view::on_names(tubes, Set::empty(), f) =~= tubes);
}

/// The first names of an ascending list, with the next one and without it.
proof fn lemma_next_name(v: Seq<Seq<char>>, i: int)
    requires
        crate::names::ascending(v),
        0 <= i < v.len(),
    ensures
        !v.take(i).to_set().contains(v[i]),
        v.take(i + 1).to_set() == v.take(i).to_set().insert(v[i]),
{
    crate::names::lemma_ascending(v);
    if v.take(i).contains(v[i]) {
        let j = choose|j: int| 0 <= j < i && v.take(i)[j] == v[i];
        assert(v[j] == v[i]);
    }
    assert(v.take(i + 1) =~= v.take(i).push(v[i]));
    broadcast use vstd::seq_lib::group_seq_properties;

    assert(v.take(i + 1).to_set() =~= v.take(i).to_set().insert(v[i]));
}

/// One more, or one fewer, request waits on each of the named tubes.
pub fn wait_on(tubes: &mut TubeTable, names: &NameSet, waiting: bool)
    requires
        old(tubes).wf(),
        names.wf(),
    ensures
        final(tubes).wf(),
        final(tubes)@ == crate::view::on_names(
            old(tubes)@,
            names@,
            crate::view::waited_on(waiting),
        ),
{
    let list: Vec<String> = names.sorted();
    let ghost v = crate::text::texts(list@);
    let ghost f = crate::view::waited_on(waiting);
    let ghost start = tubes@;
    proof {
        lemma_on_names_none(start, f);
        assert(v.take(0).to_set() =~= Set::<Seq<char>>::empty());
    }
    let mut i: usize = 0;
    while i < list.len()
        invariant
            i <= list.len(),
            v == crate::text::texts(list@),
            crate::names::ascending(v),
            f == crate::view::waited_on(waiting),
            tubes.wf(),
            tubes@ == crate::view::on_names(start, v.take(i as int).to_set(), f),
        decreases list.len() - i,
    {
        proof {
            lemma_next_name(v, i as int);
            lemma_on_names_step(start, v.take(i as int).to_set(), v[i as int], f);
        }
        if let Some(t) = tubes.get_mut(list[i].as_str()) {
            if waiting {
                t.stats.waiting_ct = t.stats.waiting_ct.wrapping_add(1);
            } else {
                t.stats.waiting_ct = super::down(t.stats.waiting_ct);
            }
        }
        i += 1;
    }
    assert(v.take(v.len() as int) =~= v);
}

/// One watcher fewer on each of the named tubes.
pub fn unwatch(tubes: &mut TubeTable, names: &NameSet)
    requires
        old(tubes).wf(),
        names.wf(),
    ensures
        final(tubes).wf(),
        final(tubes)@ == crate::view::on_names(old(tubes)@, names@, crate::view::unwatched()),
{
    let list: Vec<String> = names.sorted();
    let ghost v = crate::text::texts(list@);
    let ghost f = crate::view::unwatched();
    let ghost start = tubes@;
    proof {
        lemma_on_names_none(start, f);
        assert(v.take(0).to_set() =~= Set::<Seq<char>>::empty());
    }
    let mut i: usize = 0;
    while i < list.len()
        invariant
            i <= list.len(),
            v == crate::text::texts(list@),
            crate::names::ascending(v),
            f == crate::view::unwatched(),
            tubes.wf(),
            tubes@ == crate::view::on_names(start, v.take(i as int).to_set(), f),
        decreases list.len() - i,
    {
        proof {
            lemma_next_name(v, i as int);
            lemma_on_names_step(start, v.take(i as int).to_set(), v[i as int], f);
        }
        if let Some(t) = tubes.get_mut(list[i].as_str()) {
            t.watching_ct = t.watching_ct.saturating_sub(1);
        }
        i += 1;
    }
    assert(v.take(v.len() as int) =~= v);
}

/// Whether `best` is the least of a set of ready jobs, or the set is empty.
pub open spec fn best_of(s: Set<(u32, u64)>, best: Option<(u32, u64)>) -> bool {
    match best {
        Some(k) => crate::order::is_least(s, crate::order::ready_lt(), k),
        None => s =~= Set::empty(),
    }
}

/// The best of a set is its least element.
pub proof fn lemma_best_of(s: Set<(u32, u64)>, best: Option<(u32, u64)>)
    requires
        best_of(s, best),
    ensures
        crate::order::least(s, crate::order::ready_lt()) == best,
{
    match best {
        Some(k) => crate::order::lemma_least(s, crate::order::ready_lt(), k),
        None => {
            assert forall|k: (u32, u64)|
                !crate::order::is_least(s, crate::order::ready_lt(), k) by {
                assert(!s.contains(k));
            }
        },
    }
}

/// What is available in the named tubes does not change when they are looked at.
pub proof fn lemma_available_looked_at(
    tubes: Map<Seq<char>, TubeView>,
    names: Set<Seq<char>>,
    now: i128,
)
    ensures
        crate::view::available(
            crate::view::on_names(tubes, names, crate::view::looked_at(now)),
            names,
            now,
        ) == crate::view::available(tubes, names, now),
{
    let after = crate::view::on_names(tubes, names, crate::view::looked_at(now));
    let a = crate::view::available(after, names, now);
    let b = crate::view::available(tubes, names, now);
    assert forall|k: (u32, u64)| a.contains(k) <==> b.contains(k) by {
        if a.contains(k) {
            let n = choose|n: Seq<char>|
                #![trigger after[n]]
                names.contains(n) && after.contains_key(n) && !after[n].paused(now)
                    && after[n].ready.contains(k);
            assert(tubes[n].ready.contains(k));
        }
        if b.contains(k) {
            let n = choose|n: Seq<char>|
                #![trigger tubes[n]]
                names.contains(n) && tubes.contains_key(n) && !tubes[n].paused(now)
                    && tubes[n].ready.contains(k);
            assert(after[n].ready.contains(k));
        }
    }
    assert(a =~= b);
}

proof fn lemma_available_step(
    tubes: Map<Seq<char>, TubeView>,
    done: Set<Seq<char>>,
    n: Seq<char>,
    now: i128,
)
    ensures
        crate::view::available(tubes, done.insert(n), now) == (if tubes.contains_key(n)
            && !tubes[n].paused(now) {
            crate::view::available(tubes, done, now).union(tubes[n].ready)
        } else {
            crate::view::available(tubes, done, now)
        }),
{
    let a = crate::view::available(tubes, done, now);
    let b = crate::view::available(tubes, done.insert(n), now);
    assert forall|k: (u32, u64)| #[trigger] a.contains(k) implies b.contains(k) by {
        let m = choose|m: Seq<char>|
            #![trigger tubes[m]]
            done.contains(m) && tubes.contains_key(m) && !tubes[m].paused(now)
                && tubes[m].ready.contains(k);
        assert(done.insert(n).contains(m));
        assert(tubes[m].ready.contains(k));
    }
    if tubes.contains_key(n) && !tubes[n].paused(now) {
        assert forall|k: (u32, u64)| b.contains(k) <==> a.union(tubes[n].ready).contains(k) by {
            if b.contains(k) && !tubes[n].ready.contains(k) {
                let m = choose|m: Seq<char>|
                    #![trigger tubes[m]]
                    done.insert(n).contains(m) && tubes.contains_key(m) && !tubes[m].paused(now)
                        && tubes[m].ready.contains(k);
                assert(done.contains(m));
            }
            if tubes[n].ready.contains(k) {
                assert(done.insert(n).contains(n));
            }
        }
        assert(b =~= a.union(tubes[n].ready));
    } else {
        assert forall|k: (u32, u64)| b.contains(k) implies a.contains(k) by {
            let m = choose|m: Seq<char>|
                #![trigger tubes[m]]
                done.insert(n).contains(m) && tubes.contains_key(m) && !tubes[m].paused(now)
                    && tubes[m].ready.contains(k);
            assert(done.contains(m));
        }
        assert(b =~= a);
    }
}

/// Looks at the named tubes for the next job to hand out.
pub fn look(tubes: &mut TubeTable, names: &NameSet, now: u64) -> (best: Option<(u32, u64)>)
    requires
        old(tubes).wf(),
        names.wf(),
    ensures
        final(tubes).wf(),
        final(tubes)@ == crate::view::on_names(
            old(tubes)@,
            names@,
            crate::view::looked_at(now as i128),
        ),
        best == crate::order::least(
            crate::view::available(final(tubes)@, names@, now as i128),
            crate::order::ready_lt(),
        ),
        best_of(crate::view::available(old(tubes)@, names@, now as i128), best),
{
    let at: i128 = now as i128;
    let list: Vec<String> = names.sorted();
    let ghost v = crate::text::texts(list@);
    let ghost f = crate::view::looked_at(at);
    let ghost start = tubes@;
    let mut best: Option<(u32, u64)> = None;
    proof {
        lemma_on_names_none(start, f);
        assert(v.take(0).to_set() =~= Set::<Seq<char>>::empty());
        assert(crate::view::available(start, Set::empty(), at) =~= Set::empty());
    }
    let mut i: usize = 0;
    while i < list.len()
        invariant
            i <= list.len(),
            v == crate::text::texts(list@),
            crate::names::ascending(v),
            f == crate::view::looked_at(at),
            tubes.wf(),
            tubes@ == crate::view::on_names(start, v.take(i as int).to_set(), f),
            best_of(crate::view::available(start, v.take(i as int).to_set(), at), best),
        decreases list.len() - i,
    {
        let ghost done = v.take(i as int).to_set();
        proof {
            lemma_next_name(v, i as int);
            lemma_on_names_step(start, done, v[i as int], f);
            lemma_available_step(start, done, v[i as int], at);
        }
        if let Some(t) = tubes.get_mut(list[i].as_str()) {
            if !t.paused(at) {
                let first: Option<(u32, u64)> = first_ready(&t.ready);
                let ghost a = crate::view::available(start, done, at);
                let ghost ready = start[v[i as int]].ready;
                match first {
                    Some(key) => {
                        let better: bool = match best {
                            Some(b) => key.0 < b.0 || (key.0 == b.0 && key.1 < b.1),
                            None => true,
                        };
                        proof {
                            assert(crate::order::is_least(ready, crate::order::ready_lt(), key));
                            assert(ready.contains(key));
                            if best is Some {
                                assert(a.contains(best->0));
                            }
                        }
                        if better {
                            best = Some(key);
                        }
                        assert(crate::order::is_least(
                            a.union(ready),
                            crate::order::ready_lt(),
                            best->0,
                        ));
                    },
                    None => {
                        assert(a.union(ready) =~= a);
                    },
                }
            }
        }
        i += 1;
    }
    proof {
        assert(v.take(v.len() as int) =~= v);
        lemma_available_looked_at(start, names@, at);
        lemma_best_of(crate::view::available(start, names@, at), best);
    }
    best
}

} // verus!
