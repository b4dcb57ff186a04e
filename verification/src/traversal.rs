//! A specification model of double-ended production, and the laws the
//! iterators inherit from it: a producer driven from both ends yields each
//! element exactly once, attempts past exhaustion yield nothing, and
//! back-to-front collection is front-to-back collection reversed.
use vstd::prelude::*;
use vstd::seq_lib::lemma_multiset_commutative;

verus! {

/// The outputs, in production order, of driving a double-ended producer
/// over the remaining sequence `s` with one produce call per entry of
/// `moves`: `true` produces from the front, `false` from the back. Calls
/// made once `s` is exhausted produce nothing. This is exactly how
/// `ListIterG::next`/`next_back` (and the `ListIterMut` pair) evolve their
/// remaining elements, by their contracts.
pub open spec fn produced_by<T>(s: Seq<T>, moves: Seq<bool>) -> Seq<T>
    decreases moves.len(),
{
    if moves.len() == 0 || s.len() == 0 {
        Seq::empty()
    } else if moves[0] {
        seq![s.first()] + produced_by(s.drop_first(), moves.drop_first())
    } else {
        seq![s.last()] + produced_by(s.drop_last(), moves.drop_first())
    }
}

/// However front and back produce calls are interleaved, driving a
/// sequence of length `n` with at least `n` calls yields its elements and
/// nothing else: each exactly once (the multisets agree), and every call
/// past the `n`-th yields nothing (the output's length stays `n`).
pub proof fn lemma_each_element_once<T>(s: Seq<T>, moves: Seq<bool>)
    requires
        moves.len() >= s.len(),
    ensures
        produced_by(s, moves).len() == s.len(),
        produced_by(s, moves).to_multiset() == s.to_multiset(),
    decreases s.len(),
{
    broadcast use vstd::seq_lib::group_to_multiset_ensures;

    if s.len() == 0 {
        assert(produced_by(s, moves) =~= s);
    } else if moves[0] {
        lemma_each_element_once(s.drop_first(), moves.drop_first());
        lemma_multiset_commutative(seq![s.first()], produced_by(s.drop_first(), moves.drop_first()));
        lemma_multiset_commutative(seq![s.first()], s.drop_first());
        assert(seq![s.first()] + s.drop_first() =~= s);
    } else {
        lemma_each_element_once(s.drop_last(), moves.drop_first());
        lemma_multiset_commutative(seq![s.last()], produced_by(s.drop_last(), moves.drop_first()));
        lemma_multiset_commutative(seq![s.last()], s.drop_last());
        assert(seq![s.last()] + s.drop_last() =~= s.drop_last().insert(0, s.last()));
        assert(s.drop_last().push(s.last()) =~= s);
    }
}

/// The outputs of the front produce calls alone, in production order,
/// when `s` is driven by `moves` as in `produced_by`.
pub open spec fn front_outputs<T>(s: Seq<T>, moves: Seq<bool>) -> Seq<T>
    decreases moves.len(),
{
    if moves.len() == 0 || s.len() == 0 {
        Seq::empty()
    } else if moves[0] {
        seq![s.first()] + front_outputs(s.drop_first(), moves.drop_first())
    } else {
        front_outputs(s.drop_last(), moves.drop_first())
    }
}

/// The outputs of the back produce calls alone, in production order,
/// when `s` is driven by `moves` as in `produced_by`.
pub open spec fn back_outputs<T>(s: Seq<T>, moves: Seq<bool>) -> Seq<T>
    decreases moves.len(),
{
    if moves.len() == 0 || s.len() == 0 {
        Seq::empty()
    } else if moves[0] {
        back_outputs(s.drop_first(), moves.drop_first())
    } else {
        seq![s.last()] + back_outputs(s.drop_last(), moves.drop_first())
    }
}

/// In any interleaving of front and back produce calls, the front end
/// yields a prefix of the sequence in link order, the back end yields the
/// matching suffix in reverse link order, the two never overlap — and with
/// at least `s.len()` calls they exhaust the sequence between them.
pub proof fn lemma_two_ends_split<T>(s: Seq<T>, moves: Seq<bool>)
    ensures
        front_outputs(s, moves) == s.take(front_outputs(s, moves).len() as int),
        back_outputs(s, moves) == s.skip(s.len() - back_outputs(s, moves).len() as int).reverse(),
        front_outputs(s, moves).len() + back_outputs(s, moves).len() <= s.len(),
        moves.len() >= s.len() ==> front_outputs(s, moves).len() + back_outputs(s, moves).len()
            == s.len(),
    decreases moves.len(),
{
    if moves.len() == 0 || s.len() == 0 {
        assert(front_outputs(s, moves) =~= s.take(0));
        assert(back_outputs(s, moves) =~= s.skip(s.len() as int).reverse());
    } else if moves[0] {
        lemma_two_ends_split(s.drop_first(), moves.drop_first());
        let f = front_outputs(s.drop_first(), moves.drop_first()).len() as int;
        let b = back_outputs(s.drop_first(), moves.drop_first()).len() as int;
        assert(front_outputs(s, moves) =~= s.take(f + 1));
        assert(back_outputs(s, moves) =~= s.skip(s.len() - b).reverse());
    } else {
        lemma_two_ends_split(s.drop_last(), moves.drop_first());
        let f = front_outputs(s.drop_last(), moves.drop_first()).len() as int;
        let b = back_outputs(s.drop_last(), moves.drop_first()).len() as int;
        assert(front_outputs(s, moves) =~= s.take(f));
        assert(back_outputs(s, moves) =~= s.skip(s.len() - (b + 1)).reverse());
    }
}

/// Driving only front produce calls yields the sequence itself, in order.
pub proof fn lemma_front_to_back<T>(s: Seq<T>)
    ensures
        produced_by(s, Seq::new(s.len(), |i: int| true)) == s,
    decreases s.len(),
{
    let moves = Seq::new(s.len(), |i: int| true);
    if s.len() == 0 {
        assert(produced_by(s, moves) =~= s);
    } else {
        lemma_front_to_back(s.drop_first());
        assert(moves.drop_first() =~= Seq::new(s.drop_first().len(), |i: int| true));
        assert(seq![s.first()] + s.drop_first() =~= s);
    }
}

/// Reverse-then-forward equivalence: collecting every element from the
/// back and reversing the result equals collecting from the front — that
/// is, it equals the sequence itself.
pub proof fn lemma_back_to_front_reversed<T>(s: Seq<T>)
    ensures
        produced_by(s, Seq::new(s.len(), |i: int| false)).reverse() == s,
    decreases s.len(),
{
    let moves = Seq::new(s.len(), |i: int| false);
    if s.len() == 0 {
        assert(produced_by(s, moves).reverse() =~= s);
    } else {
        lemma_back_to_front_reversed(s.drop_last());
        assert(moves.drop_first() =~= Seq::new(s.drop_last().len(), |i: int| false));
        let rest = produced_by(s.drop_last(), moves.drop_first());
        assert(rest == s.drop_last().reverse());
        assert((seq![s.last()] + rest).reverse() =~= s);
    }
}

} // verus!
