//! Laws of the configuration store, stated over the abstract states that
//! the operations' contracts use: what a round trip returns, how updates
//! to distinct bases compose, and that a reload is deterministic.

use crate::app_manager::spec_init;
use crate::value::Value;
use vstd::prelude::*;

verus! {

/// Round trip: after `set(key, value)` on a document, `get(key)` finds
/// exactly that value. `set` leaves the document at
/// `props.insert(key, value)` and `get` reads `props[key]`, so this law
/// closes the loop between the two contracts.
pub proof fn lemma_set_get_round_trip(props: Map<Seq<char>, Value>, key: Seq<char>, value: Value)
    ensures
        props.insert(key, value).contains_key(key),
        props.insert(key, value)[key] == value,
{
}

/// Independence: a write into one base neither reads nor changes any
/// other base, and writes into two distinct bases compose the same way in
/// either order. Handlers run serialized under the single state lock, so
/// any interleaving of `config_set` calls on distinct bases is one of
/// these orders, and each base ends with exactly its own update.
pub proof fn lemma_set_value_independent(
    st: Map<Seq<char>, Map<Seq<char>, Value>>,
    p1: Seq<char>,
    d1: Map<Seq<char>, Value>,
    p2: Seq<char>,
    d2: Map<Seq<char>, Value>,
)
    requires
        p1 != p2,
    ensures
        st.contains_key(p2) ==> st.insert(p1, d1)[p2] == st[p2],
        st.insert(p1, d1).insert(p2, d2) == st.insert(p2, d2).insert(p1, d1),
{
    assert(st.insert(p1, d1).insert(p2, d2) =~= st.insert(p2, d2).insert(p1, d1));
}

/// Convergence: two writes to the same key of the same base leave the
/// state that the later write alone would have left; under the single
/// state lock, concurrent writes to one key serialize into such a chain,
/// so the store converges to one of the written values.
pub proof fn lemma_set_value_last_wins(
    st: Map<Seq<char>, Map<Seq<char>, Value>>,
    p: Seq<char>,
    k: Seq<char>,
    v1: Value,
    v2: Value,
)
    requires
        st.contains_key(p),
    ensures
        ({
            let st1 = st.insert(p, st[p].insert(k, v1));
            st1.insert(p, st1[p].insert(k, v2)) == st.insert(p, st[p].insert(k, v2))
        }),
{
    let st1 = st.insert(p, st[p].insert(k, v1));
    assert(st1[p] == st[p].insert(k, v1));
    assert(st1[p].insert(k, v2) =~= st[p].insert(k, v2));
    assert(st1.insert(p, st1[p].insert(k, v2)) =~= st.insert(p, st[p].insert(k, v2)));
}

/// Determinism of a reload: the registry contents after a system
/// initialization are a function of the scanned content alone, whatever
/// bundle table it started from; initializing twice over identical scans
/// therefore yields identical registry contents both times.
pub proof fn lemma_init_registry_deterministic(
    m1: Map<Seq<char>, Seq<char>>,
    m2: Map<Seq<char>, Seq<char>>,
    reg: Map<Seq<char>, Map<Seq<char>, Value>>,
    loads: Seq<(Seq<char>, Seq<(Seq<char>, Option<Seq<(Seq<char>, Value)>>)>)>,
)
    ensures
        spec_init(m1, reg, loads).1 == spec_init(m2, reg, loads).1,
    decreases loads.len(),
{
    if loads.len() > 0 {
        lemma_init_registry_deterministic(m1, m2, reg, loads.drop_last());
    }
}

/// Loading is replacement, not merge: after `load_base`, the registry
/// holds under that path exactly the mapping of the loaded entries,
/// whatever stood there before.
pub proof fn lemma_load_base_replaces(
    st: Map<Seq<char>, Map<Seq<char>, Value>>,
    path: Seq<char>,
    doc: Map<Seq<char>, Value>,
)
    ensures
        st.insert(path, doc)[path] == doc,
        forall|other: Seq<char>|
            other != path && st.contains_key(other) ==> st.insert(path, doc)[other] == st[other],
{
}

} // verus!
