use vstd::prelude::*;

verus! {

/// One mutating call on a list: `push(v)` or `remove(i)`.
pub enum ListOp<T> {
    Push(T),
    Remove(usize),
}

/// The elements after `op` runs on a list holding `s`, as `push` and `remove`
/// state it: a push appends, a remove in range drops that position, a
/// remove out of range changes nothing.
pub open spec fn apply_op<T>(s: Seq<T>, op: ListOp<T>) -> Seq<T> {
    match op {
        ListOp::Push(v) => s.push(v),
        ListOp::Remove(i) => if i < s.len() {
            s.remove(i as int)
        } else {
            s
        },
    }
}

/// The elements after `ops` run in turn on a new, empty list.
pub open spec fn replay<T>(ops: Seq<ListOp<T>>) -> Seq<T>
    decreases ops.len(),
{
    if ops.len() == 0 {
        Seq::empty()
    } else {
        apply_op(replay(ops.drop_last()), ops.last())
    }
}

/// How many of `ops` are pushes.
pub open spec fn push_count<T>(ops: Seq<ListOp<T>>) -> nat
    decreases ops.len(),
{
    if ops.len() == 0 {
        0
    } else {
        push_count(ops.drop_last()) + if ops.last() is Push {
            1nat
        } else {
            0nat
        }
    }
}

/// How many of `ops` are removes that succeed: their index was a position of
/// the list at the moment they ran.
pub open spec fn removed_count<T>(ops: Seq<ListOp<T>>) -> nat
    decreases ops.len(),
{
    if ops.len() == 0 {
        0
    } else {
        removed_count(ops.drop_last()) + match ops.last() {
            ListOp::Remove(i) => if i < replay(ops.drop_last()).len() {
                1nat
            } else {
                0nat
            },
            ListOp::Push(_) => 0nat,
        }
    }
}

/// Starting from an empty list, the length after any sequence of pushes and
/// removes is the number of pushes minus the number of successful removes.
pub proof fn lemma_len_counts<T>(ops: Seq<ListOp<T>>)
    ensures
        removed_count(ops) <= push_count(ops),
        replay(ops).len() == push_count(ops) - removed_count(ops),
    decreases ops.len(),
{
    if ops.len() > 0 {
        lemma_len_counts(ops.drop_last());
    }
}

/// Starting from an empty list, the list is empty after a sequence of pushes
/// and removes exactly when the successful removes took out every pushed
/// element.
pub proof fn lemma_empty_iff_all_removed<T>(ops: Seq<ListOp<T>>)
    ensures
        replay(ops).len() == 0 <==> removed_count(ops) == push_count(ops),
{
    lemma_len_counts(ops);
}

/// Pushing `vs` in order onto a new list leaves the element `vs[i]` at
/// position `i`, for every position.
pub proof fn lemma_pushes_keep_order<T>(vs: Seq<T>)
    ensures
        replay(vs.map_values(|v: T| ListOp::Push(v))) == vs,
    decreases vs.len(),
{
    let ops = vs.map_values(|v: T| ListOp::Push(v));
    if vs.len() > 0 {
        lemma_pushes_keep_order(vs.drop_last());
        assert(ops.drop_last() =~= vs.drop_last().map_values(|v: T| ListOp::Push(v)));
        assert(vs.drop_last().push(vs.last()) =~= vs);
    } else {
        assert(vs =~= Seq::<T>::empty());
    }
}

/// Removing position `i` and pushing the removed element again keeps the
/// same elements: the others in their order, the removed one now last.
pub proof fn lemma_remove_then_push<T>(s: Seq<T>, i: usize)
    requires
        i < s.len(),
    ensures
        apply_op(apply_op(s, ListOp::Remove(i)), ListOp::Push(s[i as int])) == s.subrange(
            0,
            i as int,
        ) + s.subrange(i + 1, s.len() as int) + seq![s[i as int]],
        apply_op(apply_op(s, ListOp::Remove(i)), ListOp::Push(s[i as int])).to_multiset()
            == s.to_multiset(),
{
    let r = s.remove(i as int);
    let t = r.push(s[i as int]);
    assert(t =~= s.subrange(0, i as int) + s.subrange(i + 1, s.len() as int) + seq![s[i as int]]);
    r.to_multiset_ensures();
    s.to_multiset_ensures();
    assert(r.to_multiset() =~= s.to_multiset().remove(s[i as int]));
    assert(t.to_multiset() =~= r.to_multiset().insert(s[i as int]));
}

} // verus!
