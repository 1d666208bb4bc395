//! Builds the deck: `n` pairs of symbols taken from a fixed alphabet, cycling
//! through it when more pairs are asked for than it has symbols.
use vstd::prelude::*;

verus! {

/// Number of distinct symbols in the alphabet.
pub const ALPHABET_LEN: usize = 6;

/// The symbols a card may show, as ASCII bytes (`A` to `F`), in the order pairs are dealt.
pub open spec fn alphabet() -> Seq<u8> {
    seq![0x41u8, 0x42, 0x43, 0x44, 0x45, 0x46]
}

/// The symbol of the `k`-th pair: the alphabet, repeated as often as needed.
pub open spec fn pair_symbol(k: nat) -> u8 {
    alphabet()[(k % (ALPHABET_LEN as nat)) as int]
}

/// The card values of `n` pairs before shuffling: each pair's symbol twice,
/// pair after pair.
pub open spec fn pair_values(n: nat) -> Seq<u8>
    decreases n,
{
    if n == 0 {
        Seq::empty()
    } else {
        pair_values((n - 1) as nat).push(pair_symbol((n - 1) as nat)).push(
            pair_symbol((n - 1) as nat),
        )
    }
}

/// The `k`-th symbol of the alphabet.
pub fn symbol(k: usize) -> (r: u8)
    requires
        k < ALPHABET_LEN,
    ensures
        r == alphabet()[k as int],
{
    match k {
        0 => 0x41,
        1 => 0x42,
        2 => 0x43,
        3 => 0x44,
        4 => 0x45,
        _ => 0x46,
    }
}

/// The values of `number_of_pairs` pairs in dealing order, unshuffled.
pub fn unshuffled_values(number_of_pairs: usize) -> (r: Vec<u8>)
    requires
        number_of_pairs <= usize::MAX / 2,
    ensures
        r@ == pair_values(number_of_pairs as nat),
        r@.len() == 2 * number_of_pairs,
{
    let mut values: Vec<u8> = Vec::new();
    let mut k: usize = 0;
    while k < number_of_pairs
        invariant
            k <= number_of_pairs,
            values@ == pair_values(k as nat),
        decreases number_of_pairs - k,
    {
        let s = symbol(k % ALPHABET_LEN);
        values.push(s);
        values.push(s);
        k = k + 1;
    }
    proof {
        lemma_pair_values_len(number_of_pairs as nat);
    }
    values
}

/// Relies on fastrand::shuffle, which reorders a slice in place by swaps
/// only: the same elements come out, in an order drawn at random.
#[verifier::external_body]
fn shuffle(values: &mut Vec<u8>)
    ensures
        final(values)@.to_multiset() == old(values)@.to_multiset(),
{
    fastrand::shuffle(values)
}

/// A shuffled deck of `number_of_pairs` pairs: the same values as
/// `unshuffled_values`, in random order.
pub fn build_deck(number_of_pairs: usize) -> (r: Vec<u8>)
    requires
        number_of_pairs <= usize::MAX / 2,
    ensures
        r@.to_multiset() == pair_values(number_of_pairs as nat).to_multiset(),
        r@.len() == 2 * number_of_pairs,
{
    let mut values = unshuffled_values(number_of_pairs);
    shuffle(&mut values);
    proof {
        broadcast use vstd::seq_lib::group_to_multiset_ensures;
        assert(values@.len() == values@.to_multiset().len());
        assert(pair_values(number_of_pairs as nat).len() == pair_values(
            number_of_pairs as nat,
        ).to_multiset().len());
    }
    values
}

/// The unshuffled deck of `n` pairs holds `2n` values.
pub proof fn lemma_pair_values_len(n: nat)
    ensures
        pair_values(n).len() == 2 * n,
    decreases n,
{
    if n > 0 {
        lemma_pair_values_len((n - 1) as nat);
    }
}

/// Every value occurs an even number of times among the cards of `n` pairs,
/// and when `n` does not exceed the alphabet, each value that occurs occurs
/// exactly twice: then the values of different pairs are distinct.
pub proof fn lemma_deck_pairs(n: nat, v: u8)
    ensures
        pair_values(n).len() == 2 * n,
        pair_values(n).to_multiset().count(v) % 2 == 0,
        n <= ALPHABET_LEN ==> (pair_values(n).to_multiset().count(v) == 0
            || pair_values(n).to_multiset().count(v) == 2),
        n <= ALPHABET_LEN ==> (pair_values(n).to_multiset().count(v) == 2 <==> exists|k: nat|
            k < n && #[trigger] pair_symbol(k) == v),
    decreases n,
{
    broadcast use vstd::seq_lib::group_to_multiset_ensures;

    lemma_pair_values_len(n);
    if n > 0 {
        let m = (n - 1) as nat;
        lemma_deck_pairs(m, v);
        let s = pair_symbol(m);
        let p = pair_values(m);
        assert(pair_values(n) == p.push(s).push(s));
        assert(pair_values(n).to_multiset() == p.to_multiset().insert(s).insert(s));
        if n <= ALPHABET_LEN {
            if s == v {
                assert forall|k: nat| k < m implies #[trigger] pair_symbol(k) != v by {
                    assert(k % 6 == k);
                    assert(m % 6 == m);
                }
            } else {
                assert forall|k: nat| k < n && #[trigger] pair_symbol(k) == v implies k < m by {}
            }
        }
    }
}

} // verus!
