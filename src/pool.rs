use vstd::prelude::*;
use crate::identity::{Identity, pool_view, names_unique};
use crate::text::{pieces, trimmed, trim, split_at_char, strings_view};

verus! {

/// Why a list of identities was rejected.
#[derive(Clone, Copy, Debug, PartialEq, Eq, Structural)]
pub enum PoolError {
    /// A pair does not hold exactly one `:` between its name and secret.
    MalformedPair,
    /// Two pairs give the same name.
    DuplicateName,
}

/// The name and secret of one `name:secret` pair, once trimmed: `None`
/// unless the pair holds exactly one `:`.
pub open spec fn entry_of(pair: Seq<char>) -> Option<(Seq<char>, Seq<char>)> {
    let parts = pieces(trimmed(pair), ':');
    if parts.len() == 2 {
        Some((parts[0], parts[1]))
    } else {
        None
    }
}

/// Some pair of the list is malformed.
pub open spec fn has_malformed_pair(pairs: Seq<Seq<char>>) -> bool {
    exists|k: int| 0 <= k < pairs.len() && #[trigger] entry_of(pairs[k]) is None
}

/// The entries of a list of pairs that are all well formed, in order.
pub open spec fn entries_of(pairs: Seq<Seq<char>>) -> Seq<(Seq<char>, Seq<char>)> {
    Seq::new(pairs.len(), |k: int| entry_of(pairs[k])->0)
}

/// The pool that a comma-separated list of `name:secret` pairs describes:
/// a malformed pair rejects the list, and so does a name given twice.
pub open spec fn pool_of(text: Seq<char>) -> Result<Seq<(Seq<char>, Seq<char>)>, PoolError> {
    let pairs = pieces(text, ',');
    if has_malformed_pair(pairs) {
        Err(PoolError::MalformedPair)
    } else if !names_unique(entries_of(pairs)) {
        Err(PoolError::DuplicateName)
    } else {
        Ok(entries_of(pairs))
    }
}

/// Parses a comma-separated list of `name:secret` pairs into a pool of
/// identities, in the order of the list. White space around a pair is
/// dropped. The whole list is rejected if any pair does not hold exactly one
/// `:` (an empty text is one empty pair), and otherwise if two pairs give
/// the same name.
pub fn parse_pool(text: &str) -> (r: Result<Vec<Identity>, PoolError>)
    ensures
        match r {
            Ok(v) => pool_of(text@) == Ok::<_, PoolError>(pool_view(v@)),
            Err(e) => pool_of(text@) == Err::<Seq<(Seq<char>, Seq<char>)>, _>(e),
        },
        r matches Ok(v) ==> names_unique(pool_view(v@)),
{
    let pairs = split_at_char(text, ',');
    let ghost ps = strings_view(pairs@);
    let mut pool: Vec<Identity> = Vec::new();
    let mut k: usize = 0;
    while k < pairs.len()
        invariant
            ps == strings_view(pairs@),
            ps == pieces(text@, ','),
            k <= pairs@.len(),
            pool@.len() == k,
            forall|j: int| 0 <= j < k ==> #[trigger] entry_of(ps[j]) == Some(pool_view(pool@)[j]),
        decreases pairs@.len() - k,
    {
        let ghost pv = pool_view(pool@);
        assert(ps[k as int] == pairs@[k as int]@);
        let t = trim(pairs[k].as_str());
        let parts = split_at_char(t.as_str(), ':');
        if parts.len() != 2 {
            assert(entry_of(ps[k as int]) is None);
            return Err(PoolError::MalformedPair);
        }
        let name = parts[0].clone();
        let secret = parts[1].clone();
        pool.push(Identity::new(name, secret));
        assert forall|j: int| 0 <= j < k + 1 implies #[trigger] entry_of(ps[j]) == Some(
            pool_view(pool@)[j],
        ) by {
            if j < k {
                assert(pool_view(pool@)[j] == pv[j]);
            }
        }
        k = k + 1;
    }
    let ghost es = entries_of(ps);
    assert(!has_malformed_pair(ps));
    assert(pool_view(pool@) =~= es);
    let mut b: usize = 0;
    while b < pool.len()
        invariant
            pool_view(pool@) == es,
            es == entries_of(ps),
            ps == pieces(text@, ','),
            !has_malformed_pair(ps),
            b <= pool@.len(),
            forall|x: int, y: int| 0 <= x < y < b ==> #[trigger] es[x].0 != #[trigger] es[y].0,
        decreases pool@.len() - b,
    {
        let mut a: usize = 0;
        while a < b
            invariant
                pool_view(pool@) == es,
                es == entries_of(ps),
                ps == pieces(text@, ','),
                !has_malformed_pair(ps),
                a <= b < pool@.len(),
                forall|x: int| 0 <= x < a ==> #[trigger] es[x].0 != es[b as int].0,
            decreases b - a,
        {
            if pool[a].name == pool[b].name {
                assert(es[a as int].0 == es[b as int].0);
                return Err(PoolError::DuplicateName);
            }
            a = a + 1;
        }
        b = b + 1;
    }
    assert forall|x: int, y: int|
        0 <= x < es.len() && 0 <= y < es.len() && x != y implies #[trigger] es[x].0
        != #[trigger] es[y].0 by {
        if x < y {
            assert(es[x].0 != es[y].0);
        } else {
            assert(es[y].0 != es[x].0);
        }
    }
    Ok(pool)
}

} // verus!
