use vstd::prelude::*;

verus! {

/// The last `n` items of `s` when the bound is `Some(n)`, all of `s` otherwise.
pub open spec fn keep_last<A>(s: Seq<A>, bound: Option<usize>) -> Seq<A> {
    match bound {
        Some(n) => if s.len() <= n {
            s
        } else {
            s.subrange(s.len() - n, s.len() as int)
        },
        None => s,
    }
}

/// Appends `item` to `buffer`, first dropping the oldest items so that no more
/// than `bound` remain once `item` is in.
pub fn push_bounded<A>(buffer: &mut Vec<A>, bound: Option<usize>, item: A)
    ensures
        final(buffer)@ == keep_last(old(buffer)@.push(item), bound),
{
    let ghost original = buffer@;
    if let Some(n) = bound {
        if n == 0 {
            buffer.clear();
            assert(buffer@ =~= keep_last(original.push(item), bound));
            return;
        }
        let ghost mut dropped: int = 0;
        while buffer.len() >= n
            invariant
                n > 0,
                0 <= dropped <= original.len(),
                buffer@ == original.subrange(dropped, original.len() as int),
                dropped > 0 ==> buffer@.len() + 1 >= n,
            decreases buffer@.len(),
        {
            buffer.remove(0);
            proof {
                dropped = dropped + 1;
            }
        }
        proof {
            let whole = original.push(item);
            if whole.len() > n {
                assert(buffer@.len() == n - 1);
                assert(dropped == whole.len() - n);
            } else {
                assert(dropped == 0);
            }
        }
    }
    buffer.push(item);
    assert(final(buffer)@ =~= keep_last(original.push(item), bound));
}

/// Keeping the last `n` items, then appending one and keeping the last `n`
/// again, is the same as appending to the whole sequence and keeping the last `n`.
pub proof fn lemma_keep_last_push<A>(s: Seq<A>, bound: Option<usize>, item: A)
    ensures
        keep_last(keep_last(s, bound).push(item), bound) == keep_last(s.push(item), bound),
{
    if let Some(n) = bound {
        if s.len() > n {
            assert(keep_last(keep_last(s, bound).push(item), bound) =~= keep_last(
                s.push(item),
                bound,
            ));
        } else if s.len() == n {
            assert(keep_last(keep_last(s, bound).push(item), bound) =~= keep_last(
                s.push(item),
                bound,
            ));
        }
    }
}

/// Keeping at most `n` items leaves at most `n`.
pub proof fn lemma_keep_last_len<A>(s: Seq<A>, bound: Option<usize>)
    ensures
        keep_last(s, bound).len() <= s.len(),
        bound matches Some(n) ==> keep_last(s, bound).len() <= n,
{
}

} // verus!
