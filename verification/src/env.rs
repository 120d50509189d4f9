//! Environments from variable names to stack offsets, held in the
//! persistent hash map of the `im` crate.
use vstd::prelude::*;

verus! {

#[verifier::external_type_specification]
#[verifier::external_body]
#[verifier::reject_recursive_types(K)]
#[verifier::reject_recursive_types(V)]
#[verifier::reject_recursive_types(S)]
pub struct ExImHashMap<K, V, S>(im::HashMap<K, V, S>);

/// An environment: the persistent hash map of the `im` crate from names to
/// stack offsets.
pub type Env = im::HashMap<String, i32>;

/// The bindings that an environment holds: each name to its offset.
pub uninterp spec fn env_contents(m: im::HashMap<String, i32>) -> Map<Seq<char>, i32>;

/// The environment with no binding.
pub open spec fn no_bindings() -> Map<Seq<char>, i32> {
    Map::empty()
}

/// `im::HashMap::new`: the contract claims that the new map holds no binding.
#[verifier::external_body]
pub(crate) fn env_new() -> (r: Env)
    ensures
        env_contents(r) == no_bindings(),
        env_contents(r).dom().finite(),
{
    im::HashMap::new()
}

/// `im::HashMap::get`: the contract claims that the result is the value bound
/// to a key with the same characters as `k`, if there is one.
#[verifier::external_body]
pub(crate) fn env_get(m: &im::HashMap<String, i32>, k: &str) -> (r: Option<i32>)
    ensures
        r == (if env_contents(*m).contains_key(k@) {
            Some(env_contents(*m)[k@])
        } else {
            None::<i32>
        }),
{
    m.get(k).copied()
}

/// `im::HashMap::update`: the contract claims that the new map binds `k` to
/// `v` and holds every other binding of `m` unchanged.
#[verifier::external_body]
pub(crate) fn env_update(m: &im::HashMap<String, i32>, k: String, v: i32) -> (r: Env)
    ensures
        env_contents(r) == env_contents(*m).insert(k@, v),
        env_contents(*m).dom().finite() ==> env_contents(r).dom().finite(),
{
    m.update(k, v)
}

/// `im::HashMap::insert`: the contract claims that afterwards the map binds
/// `k` to `v` and holds every other binding of it unchanged (the value it
/// returns, the one replaced, is dropped).
#[verifier::external_body]
pub(crate) fn env_insert(m: &mut im::HashMap<String, i32>, k: String, v: i32)
    ensures
        env_contents(*final(m)) == env_contents(*old(m)).insert(k@, v),
{
    m.insert(k, v);
}

/// `Clone::clone` of `im::HashMap`: the contract claims that the copy holds
/// the same bindings.
#[verifier::external_body]
pub(crate) fn env_clone(m: &im::HashMap<String, i32>) -> (r: Env)
    ensures
        env_contents(r) == env_contents(*m),
{
    m.clone()
}

/// What `im::HashMap::union` gives: every binding of either map; where
/// both bind a key, the larger map's value (the first map's on a tie), as
/// the crate's source does (its documentation says the first map's value).
pub open spec fn im_union<V>(a: Map<Seq<char>, V>, b: Map<Seq<char>, V>) -> Map<Seq<char>, V> {
    if a.dom().len() >= b.dom().len() {
        b.union_prefer_right(a)
    } else {
        a.union_prefer_right(b)
    }
}

/// `im::HashMap::union`: the contract claims the bindings that [`im_union`]
/// describes, and that the union of two finite maps is finite.
#[verifier::external_body]
pub(crate) fn env_union(a: Env, b: Env) -> (r: Env)
    ensures
        env_contents(r) == im_union(env_contents(a), env_contents(b)),
        env_contents(a).dom().finite() && env_contents(b).dom().finite() ==> env_contents(r).dom().finite(),
{
    a.union(b)
}

/// Where two maps agree on every key that both bind, their union by `im`
/// is the union that prefers either side.
pub proof fn lemma_im_union_agreeing<V>(a: Map<Seq<char>, V>, b: Map<Seq<char>, V>)
    requires
        forall|k: Seq<char>| a.contains_key(k) && b.contains_key(k) ==> a[k] == b[k],
    ensures
        im_union(a, b) == b.union_prefer_right(a),
{
    assert(a.union_prefer_right(b) =~= b.union_prefer_right(a));
}

/// A map of the `im` crate from names to 64-bit stack slots (or to counts).
pub type Slots = im::HashMap<String, i64>;

/// The bindings that a map of slots holds.
pub uninterp spec fn slots_contents(m: im::HashMap<String, i64>) -> Map<Seq<char>, i64>;

/// The map of slots with no binding.
pub open spec fn no_slots() -> Map<Seq<char>, i64> {
    Map::empty()
}

/// `im::HashMap::new`: the contract claims that the new map holds no binding.
#[verifier::external_body]
pub(crate) fn slots_new() -> (r: Slots)
    ensures
        slots_contents(r) == no_slots(),
{
    im::HashMap::new()
}

/// `im::HashMap::get`: the contract claims that the result is the value bound
/// to a key with the same characters as `k`, if there is one.
#[verifier::external_body]
pub(crate) fn slots_get(m: &im::HashMap<String, i64>, k: &str) -> (r: Option<i64>)
    ensures
        r == (if slots_contents(*m).contains_key(k@) {
            Some(slots_contents(*m)[k@])
        } else {
            None::<i64>
        }),
{
    m.get(k).copied()
}

/// `im::HashMap::update`: the contract claims that the new map binds `k` to
/// `v` and holds every other binding of `m` unchanged.
#[verifier::external_body]
pub(crate) fn slots_update(m: &im::HashMap<String, i64>, k: String, v: i64) -> (r: Slots)
    ensures
        slots_contents(r) == slots_contents(*m).insert(k@, v),
{
    m.update(k, v)
}

/// `Clone::clone` of `im::HashMap`: the contract claims that the copy holds
/// the same bindings.
#[verifier::external_body]
pub(crate) fn slots_clone(m: &im::HashMap<String, i64>) -> (r: Slots)
    ensures
        slots_contents(r) == slots_contents(*m),
{
    m.clone()
}

/// `im::HashMap::union`: the contract claims the bindings that [`im_union`]
/// describes.
#[verifier::external_body]
pub(crate) fn slots_union(a: Slots, b: Slots) -> (r: Slots)
    ensures
        slots_contents(r) == im_union(slots_contents(a), slots_contents(b)),
{
    a.union(b)
}

} // verus!
