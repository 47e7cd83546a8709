//! The encoder: rejection sampling of random bytes onto the alphabet.
//!
//! A byte whose candidate index lies beyond the alphabet is thrown away, so
//! no number of bytes is sure to be enough for an identifier. Verus asks
//! every loop for a bound, and the encoder takes one from its caller: the
//! number of bytes that it may draw.

use crate::alphabet::{alphabet, candidate, symbol, symbol_of, ALPHABET_LEN};
use crate::source::InfiniteRand;
use vstd::prelude::*;

verus! {

/// `String::push` of std: appends the character to the end of the string.
/// As vstd does for `Vec::push`, the contract leaves the allocator aside.
pub assume_specification[ String::push ](s: &mut String, ch: char)
    ensures
        final(s)@ == old(s)@.push(ch),
;

/// The identifier that a run of random bytes yields: the symbols of the bytes
/// that are not rejected, in the order of the bytes.
pub open spec fn encode(bytes: Seq<u8>) -> Seq<char> {
    bytes.filter_map(|byte: u8| symbol_of(byte))
}

/// `bytes` is a run that the encoder stops after, for an identifier of `size`
/// symbols: it yields `size` symbols, and its last byte yields the last of
/// them.
pub open spec fn completes(bytes: Seq<u8>, size: nat) -> bool {
    &&& encode(bytes).len() == size
    &&& bytes.len() > 0 ==> symbol_of(bytes.last()) is Some
}

/// How many of the waiting bytes a call that may draw `max_draws` bytes can
/// reach.
pub open spec fn budget(max_draws: usize, waiting: Seq<u8>) -> int {
    if max_draws < waiting.len() {
        max_draws as int
    } else {
        waiting.len() as int
    }
}

/// The bytes that the source has served between two of its states.
pub open spec fn drawn(before: InfiniteRand, after: InfiniteRand) -> Seq<u8> {
    after.served().skip(before.served().len() as int)
}

/// One more byte adds its symbol to the identifier, or nothing if it is
/// rejected.
pub proof fn lemma_encode_push(bytes: Seq<u8>, byte: u8)
    ensures
        encode(bytes.push(byte)) == match symbol_of(byte) {
            Some(c) => encode(bytes).push(c),
            None => encode(bytes),
        },
{
    assert(bytes.push(byte).drop_last() =~= bytes);
    match symbol_of(byte) {
        Some(c) => {
            assert(encode(bytes) + seq![c] =~= encode(bytes).push(c));
        },
        None => {},
    }
}

/// The identifier of two runs of bytes, one after the other, is the
/// identifier of the first followed by that of the second.
pub proof fn lemma_encode_concat(first: Seq<u8>, second: Seq<u8>)
    ensures
        encode(first + second) == encode(first) + encode(second),
    decreases second.len(),
{
    if second.len() == 0 {
        assert(first + second =~= first);
        assert(encode(first) + encode(second) =~= encode(first));
    } else {
        let front = second.drop_last();
        let byte = second.last();
        assert(first + second =~= (first + front).push(byte));
        assert(second =~= front.push(byte));
        lemma_encode_concat(first, front);
        lemma_encode_push(first + front, byte);
        lemma_encode_push(front, byte);
        match symbol_of(byte) {
            Some(c) => {
                assert((encode(first) + encode(front)).push(c) =~= encode(first) + encode(
                    front,
                ).push(c));
            },
            None => {},
        }
    }
}

/// An identifier has no more symbols than the run has bytes.
pub proof fn lemma_encode_len(bytes: Seq<u8>)
    ensures
        encode(bytes).len() <= bytes.len(),
    decreases bytes.len(),
{
    if bytes.len() > 0 {
        lemma_encode_len(bytes.drop_last());
        assert(bytes =~= bytes.drop_last().push(bytes.last()));
        lemma_encode_push(bytes.drop_last(), bytes.last());
    }
}

/// The symbol of a byte is a character of the alphabet.
pub proof fn lemma_symbol_in_alphabet(byte: u8)
    ensures
        symbol_of(byte) matches Some(c) ==> alphabet().contains(c),
{
    if candidate(byte) < ALPHABET_LEN {
        assert(alphabet()[candidate(byte)] == symbol_of(byte)->0);
    }
}

/// Every character of an identifier is a character of the alphabet, whatever
/// the bytes.
pub proof fn lemma_encode_in_alphabet(bytes: Seq<u8>)
    ensures
        forall|i: int| 0 <= i < encode(bytes).len() ==> alphabet().contains(#[trigger] encode(bytes)[i]),
    decreases bytes.len(),
{
    if bytes.len() > 0 {
        lemma_encode_in_alphabet(bytes.drop_last());
        assert(bytes =~= bytes.drop_last().push(bytes.last()));
        lemma_encode_push(bytes.drop_last(), bytes.last());
        lemma_symbol_in_alphabet(bytes.last());
    }
}

/// What the source serves decides where the encoder stops: of two runs that
/// the encoder stops after for the same size, one of which begins the other,
/// neither is longer.
pub proof fn lemma_completes_once(shorter: Seq<u8>, longer: Seq<u8>, size: nat)
    requires
        shorter.is_prefix_of(longer),
        completes(shorter, size),
        completes(longer, size),
    ensures
        shorter == longer,
{
    if shorter.len() < longer.len() {
        let rest = longer.skip(shorter.len() as int);
        assert(longer =~= shorter + rest);
        assert(rest =~= rest.drop_last().push(longer.last()));
        lemma_encode_concat(shorter, rest);
        lemma_encode_push(rest.drop_last(), longer.last());
    }
    assert(shorter =~= longer);
}

/// Draws bytes from `inf` until `size` of them have been accepted, or until
/// `max_draws` bytes have been drawn, whichever comes first. In the first
/// case the result is the identifier made of the accepted bytes' symbols; in
/// the second it is `None`, and what was accepted is dropped.
pub fn nanoid_within(inf: &mut InfiniteRand, size: usize, max_draws: usize) -> (id: Option<String>)
    ensures
        ({
            let bytes = drawn(*old(inf), *final(inf));
            let waiting = old(inf).pending();
            &&& final(inf).served() == old(inf).served() + bytes
            &&& bytes.len() <= max_draws
            &&& match id {
                Some(s) => s@ == encode(bytes) && completes(bytes, size as nat),
                None => bytes.len() == max_draws && encode(bytes).len() < size,
            }
            &&& forall|i: int|
                0 <= i < bytes.len() && i < waiting.len() ==> #[trigger] bytes[i] == waiting[i]
            &&& bytes.len() < waiting.len() ==> {
                &&& final(inf).pending() == waiting.skip(bytes.len() as int)
                &&& final(inf).fills() == old(inf).fills()
                &&& final(inf).generator() == old(inf).generator()
            }
        }),
        final(inf).wf(),
        id matches Some(s) ==> s@.len() == size,
        id matches Some(s) ==> forall|i: int|
            0 <= i < s@.len() ==> alphabet().contains(#[trigger] s@[i]),
        size == 0 ==> id is Some && *final(inf) == *old(inf),
        max_draws < size ==> id is None,
        encode(old(inf).pending().take(budget(max_draws, old(inf).pending()))).len() >= size
            ==> id is Some,
{
    let mut id = String::new();
    let mut count: usize = 0;
    let mut draws: usize = 0;
    let ghost mut bytes: Seq<u8> = Seq::empty();
    let ghost waiting = inf.pending();
    proof {
        use_type_invariant(&*inf);
    }
    assert(inf.served() + bytes =~= inf.served());
    assert(waiting.skip(0) =~= waiting);
    while count < size && draws < max_draws
        invariant
            inf.served() == old(inf).served() + bytes,
            waiting == old(inf).pending(),
            bytes.len() == draws,
            draws <= max_draws,
            id@ == encode(bytes),
            id@.len() == count,
            count <= size,
            draws > 0 && count == size ==> symbol_of(bytes.last()) is Some,
            draws == 0 ==> *inf == *old(inf),
            forall|i: int|
                0 <= i < bytes.len() && i < waiting.len() ==> #[trigger] bytes[i] == waiting[i],
            draws < waiting.len() ==> {
                &&& inf.pending() == waiting.skip(draws as int)
                &&& inf.fills() == old(inf).fills()
                &&& inf.generator() == old(inf).generator()
            },
            inf.wf(),
        decreases max_draws - draws,
    {
        let byte = inf.next().unwrap();
        proof {
            lemma_encode_push(bytes, byte);
            assert(old(inf).served() + bytes.push(byte) =~= (old(inf).served() + bytes).push(byte));
            if draws + 1 < waiting.len() {
                assert(waiting.skip(draws as int).skip(1) =~= waiting.skip(draws + 1));
            }
            bytes = bytes.push(byte);
        }
        draws += 1;
        match symbol(byte) {
            Some(c) => {
                id.push(c);
                count += 1;
            },
            None => {},
        }
    }
    proof {
        assert(drawn(*old(inf), *inf) =~= bytes);
        lemma_encode_in_alphabet(bytes);
        lemma_encode_len(bytes);
        if count < size {
            let reach = budget(max_draws, waiting);
            assert(bytes =~= waiting.take(reach) + bytes.skip(reach));
            lemma_encode_concat(waiting.take(reach), bytes.skip(reach));
        }
    }
    if count == size {
        Some(id)
    } else {
        None
    }
}

/// Draws bytes from `inf` until `size` of them have been accepted, and
/// returns the identifier made of their symbols. The result is `None` only
/// where `usize::MAX` bytes did not hold `size` accepted ones.
pub fn nanoid(inf: &mut InfiniteRand, size: usize) -> (id: Option<String>)
    ensures
        ({
            let bytes = drawn(*old(inf), *final(inf));
            let waiting = old(inf).pending();
            &&& final(inf).served() == old(inf).served() + bytes
            &&& bytes.len() <= usize::MAX
            &&& match id {
                Some(s) => s@ == encode(bytes) && completes(bytes, size as nat),
                None => bytes.len() == usize::MAX && encode(bytes).len() < size,
            }
            &&& forall|i: int|
                0 <= i < bytes.len() && i < waiting.len() ==> #[trigger] bytes[i] == waiting[i]
            &&& bytes.len() < waiting.len() ==> {
                &&& final(inf).pending() == waiting.skip(bytes.len() as int)
                &&& final(inf).fills() == old(inf).fills()
                &&& final(inf).generator() == old(inf).generator()
            }
        }),
        final(inf).wf(),
        id matches Some(s) ==> s@.len() == size,
        id matches Some(s) ==> forall|i: int|
            0 <= i < s@.len() ==> alphabet().contains(#[trigger] s@[i]),
        size == 0 ==> id is Some && *final(inf) == *old(inf),
        encode(old(inf).pending()).len() >= size ==> id is Some,
{
    proof {
        use_type_invariant(&*inf);
        inf.lemma_pending_len();
        assert(inf.pending().take(inf.pending().len() as int) =~= inf.pending());
    }
    nanoid_within(inf, size, usize::MAX)
}

} // verus!
