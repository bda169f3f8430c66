use vstd::prelude::*;

verus! {

/// A PPPoE identity: the router-side user name and its secret.
pub struct Identity {
    pub name: String,
    pub secret: String,
}

impl View for Identity {
    type V = (Seq<char>, Seq<char>);

    open spec fn view(&self) -> (Seq<char>, Seq<char>) {
        (self.name@, self.secret@)
    }
}

impl Identity {
    pub fn new(name: String, secret: String) -> (r: Identity)
        ensures
            r.name@ == name@,
            r.secret@ == secret@,
    {
        Identity { name, secret }
    }

    /// A copy that holds the same name and secret.
    pub fn duplicate(&self) -> (r: Identity)
        ensures
            r@ == self@,
    {
        Identity { name: self.name.clone(), secret: self.secret.clone() }
    }
}

/// The usage limits, in minutes, that drive the rotation policy.
#[derive(Clone, Copy, Debug, PartialEq, Eq)]
pub struct Thresholds {
    /// Above this usage the active identity is to be replaced.
    pub switch_threshold: i32,
    /// An identity whose usage is at most this is available.
    pub available_threshold: i32,
    /// Above this usage, with no identity available, the connection is disabled.
    pub disable_threshold: i32,
}

impl Thresholds {
    pub fn new(switch_threshold: i32, available_threshold: i32, disable_threshold: i32) -> (r:
        Thresholds)
        ensures
            r.switch_threshold == switch_threshold,
            r.available_threshold == available_threshold,
            r.disable_threshold == disable_threshold,
    {
        Thresholds { switch_threshold, available_threshold, disable_threshold }
    }
}

/// The view of a pool of identities: each one's name and secret, in order.
pub open spec fn pool_view(pool: Seq<Identity>) -> Seq<(Seq<char>, Seq<char>)> {
    pool.map_values(|i: Identity| i@)
}

/// The names of a pool are pairwise distinct.
pub open spec fn names_unique(pool: Seq<(Seq<char>, Seq<char>)>) -> bool {
    forall|i: int, j: int|
        0 <= i < pool.len() && 0 <= j < pool.len() && i != j ==> #[trigger] pool[i].0
            != #[trigger] pool[j].0
}

/// The position of the first identity of `pool` named `name`, if any.
pub open spec fn locate(pool: Seq<(Seq<char>, Seq<char>)>, name: Seq<char>) -> Option<int> {
    if exists|i: int| 0 <= i < pool.len() && pool[i].0 == name {
        Some(
            choose|i: int|
                0 <= i < pool.len() && pool[i].0 == name && forall|j: int|
                    0 <= j < i ==> pool[j].0 != name,
        )
    } else {
        None
    }
}

/// The position of the first identity of `pool` named `name`, or `None`
/// when no identity has that name.
pub fn find_identity(pool: &Vec<Identity>, name: &String) -> (r: Option<usize>)
    ensures
        match r {
            Some(i) => i < pool@.len() && locate(pool_view(pool@), name@) == Some(i as int),
            None => locate(pool_view(pool@), name@) is None,
        },
{
    let ghost pv = pool_view(pool@);
    let mut i: usize = 0;
    while i < pool.len()
        invariant
            i <= pool@.len(),
            pv == pool_view(pool@),
            forall|j: int| 0 <= j < i ==> pv[j].0 != name@,
        decreases pool@.len() - i,
    {
        if pool[i].name == *name {
            proof {
                assert(pv[i as int].0 == name@);
                let c = choose|c: int|
                    0 <= c < pv.len() && pv[c].0 == name@ && forall|j: int|
                        0 <= j < c ==> pv[j].0 != name@;
                assert(0 <= c < pv.len() && pv[c].0 == name@ && forall|j: int|
                    0 <= j < c ==> pv[j].0 != name@);
                if c < i {
                    assert(pv[c].0 != name@);
                }
                if i < c {
                    assert(pv[i as int].0 != name@);
                }
            }
            return Some(i);
        }
        i = i + 1;
    }
    None
}

} // verus!
