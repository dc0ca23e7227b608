//! FNV-1a hashing of basenames.

use vstd::prelude::*;

verus! {

/// FNV-1a 64-bit offset basis.
pub const FNV1A_64_OFFSET_BASIS: u64 = 0xcbf2_9ce4_8422_2325;

/// FNV-1a 64-bit prime.
pub const FNV1A_64_PRIME: u64 = 0x0000_0100_0000_01b3;

/// The hash state after one more byte: exclusive or with the byte, then the
/// product with the prime, modulo 2 to the 64.
pub open spec fn fnv1a_byte(state: u64, byte: u8) -> u64 {
    (((state ^ (byte as u64)) as nat * FNV1A_64_PRIME as nat) % 0x1_0000_0000_0000_0000) as u64
}

/// The hash state after `bytes` have been fed to it, first byte first.
pub open spec fn fnv1a_feed(state: u64, bytes: Seq<u8>) -> u64
    decreases bytes.len(),
{
    if bytes.len() == 0 {
        state
    } else {
        fnv1a_byte(fnv1a_feed(state, bytes.drop_last()), bytes.last())
    }
}

/// The FNV-1a 64-bit hash of `bytes`.
pub open spec fn fnv1a(bytes: Seq<u8>) -> u64 {
    fnv1a_feed(FNV1A_64_OFFSET_BASIS, bytes)
}

/// Feeding two byte strings one after the other is feeding their concatenation.
pub proof fn lemma_fnv1a_feed_concat(state: u64, a: Seq<u8>, b: Seq<u8>)
    ensures
        fnv1a_feed(state, a + b) == fnv1a_feed(fnv1a_feed(state, a), b),
    decreases b.len(),
{
    if b.len() == 0 {
        assert(a + b =~= a);
    } else {
        lemma_fnv1a_feed_concat(state, a, b.drop_last());
        assert((a + b).drop_last() =~= a + b.drop_last());
    }
}

/// Computes [`fnv1a_feed`].
pub fn feed_bytes(state: u64, input_bytes: &[u8]) -> (hash: u64)
    ensures
        hash == fnv1a_feed(state, input_bytes@),
{
    let mut hash_state: u64 = state;
    let mut i: usize = 0;
    while i < input_bytes.len()
        invariant
            i <= input_bytes.len(),
            hash_state == fnv1a_feed(state, input_bytes@.take(i as int)),
        decreases input_bytes.len() - i,
    {
        hash_state = (hash_state ^ (input_bytes[i] as u64)).wrapping_mul(FNV1A_64_PRIME);
        assert(input_bytes@.take(i + 1).drop_last() =~= input_bytes@.take(i as int));
        i = i + 1;
    }
    assert(input_bytes@.take(i as int) =~= input_bytes@);
    hash_state
}

/// The FNV-1a 64-bit hash of `input_bytes`.
pub fn fnv1a_64(input_bytes: &[u8]) -> (hash: u64)
    ensures
        hash == fnv1a(input_bytes@),
{
    feed_bytes(FNV1A_64_OFFSET_BASIS, input_bytes)
}

/// The exclusive or of the hashes of `names`: the signal hash of a directory
/// that holds them.
pub open spec fn signal_hash(names: Seq<Seq<u8>>) -> u64
    decreases names.len(),
{
    if names.len() == 0 {
        0
    } else {
        signal_hash(names.drop_last()) ^ fnv1a(names.last())
    }
}

proof fn lemma_xor_laws(a: u64, b: u64, c: u64)
    ensures
        a ^ 0 == a,
        0 ^ a == a,
        a ^ a == 0,
        a ^ b == b ^ a,
        (a ^ b) ^ c == a ^ (b ^ c),
{
    assert(a ^ 0 == a) by (bit_vector);
    assert(0 ^ a == a) by (bit_vector);
    assert(a ^ a == 0) by (bit_vector);
    assert(a ^ b == b ^ a) by (bit_vector);
    assert((a ^ b) ^ c == a ^ (b ^ c)) by (bit_vector);
}

/// The signal hash of two groups of names is the exclusive or of theirs.
pub proof fn lemma_signal_hash_concat(a: Seq<Seq<u8>>, b: Seq<Seq<u8>>)
    ensures
        signal_hash(a + b) == signal_hash(a) ^ signal_hash(b),
    decreases b.len(),
{
    if b.len() == 0 {
        assert(a + b =~= a);
        lemma_xor_laws(signal_hash(a), 0, 0);
    } else {
        lemma_signal_hash_concat(a, b.drop_last());
        assert((a + b).drop_last() =~= a + b.drop_last());
        lemma_xor_laws(signal_hash(a), signal_hash(b.drop_last()), fnv1a(b.last()));
    }
}

/// The signal hash does not depend on the order of the names.
pub proof fn signal_hash_ignores_order(a: Seq<Seq<u8>>, b: Seq<Seq<u8>>)
    requires
        a.to_multiset() == b.to_multiset(),
    ensures
        signal_hash(a) == signal_hash(b),
    decreases a.len(),
{
    broadcast use vstd::seq_lib::group_to_multiset_ensures;

    vstd::seq_lib::to_multiset_len(a);
    vstd::seq_lib::to_multiset_len(b);
    if a.len() > 0 {
        let x = a.last();
        assert(a.to_multiset().contains(x));
        assert(b.contains(x));
        let i = choose|i: int| 0 <= i < b.len() && b[i] == x;
        let front = b.take(i);
        let back = b.skip(i + 1);
        let rest = b.remove(i);
        assert(rest =~= front + back);
        assert(b =~= front + seq![x] + back);
        assert(a =~= a.drop_last().push(x));
        vstd::seq_lib::to_multiset_remove(b, i);
        vstd::seq_lib::to_multiset_build(a.drop_last(), x);
        assert(a.drop_last().to_multiset() =~= rest.to_multiset());
        signal_hash_ignores_order(a.drop_last(), rest);
        lemma_signal_hash_concat(front + seq![x], back);
        lemma_signal_hash_concat(front, seq![x]);
        lemma_signal_hash_concat(front, back);
        assert(seq![x].drop_last() =~= Seq::<Seq<u8>>::empty());
        assert(signal_hash(seq![x]) == fnv1a(x)) by {
            reveal_with_fuel(signal_hash, 2);
            lemma_xor_laws(fnv1a(x), 0, 0);
        }
        let f = signal_hash(front);
        let k = signal_hash(back);
        let h = fnv1a(x);
        lemma_xor_laws(f, h, k);
        lemma_xor_laws(h, k, 0);
        lemma_xor_laws(f, k, h);
    }
}

/// The names that a directory has gained are recognised by the exclusive or of
/// its signal hash before and after.
pub proof fn signal_hash_delta_is_that_of_new_names(
    existing: Seq<Seq<u8>>,
    added: Seq<Seq<u8>>,
    live: Seq<Seq<u8>>,
)
    requires
        live.to_multiset() == (existing + added).to_multiset(),
    ensures
        signal_hash(existing) ^ signal_hash(added) == signal_hash(live),
        signal_hash(existing) ^ signal_hash(live) == signal_hash(added),
{
    signal_hash_ignores_order(live, existing + added);
    lemma_signal_hash_concat(existing, added);
    let e = signal_hash(existing);
    let n = signal_hash(added);
    lemma_xor_laws(e, e, n);
    lemma_xor_laws(n, 0, 0);
}

/// Hashing nothing leaves the state, and the hash of the empty string is the
/// offset basis of 64-bit FNV-1a.
pub proof fn hash_of_nothing_is_offset_basis(state: u64)
    ensures
        fnv1a_feed(state, Seq::empty()) == state,
        fnv1a(Seq::empty()) == 0xcbf2_9ce4_8422_2325,
{
}

/// Every byte is hashed as it is: from whatever state, and whatever its value,
/// one more byte turns the state into its exclusive or with the byte, times the
/// prime 2^40 + 2^8 + 0xb3, modulo 2^64.
pub proof fn one_more_byte_is_hashed_as_it_is(state: u64, bytes: Seq<u8>, byte: u8)
    ensures
        fnv1a_feed(state, bytes.push(byte)) as int == ((fnv1a_feed(state, bytes) ^ (
        byte as u64)) as int * 0x100_0000_01b3int) % 0x1_0000_0000_0000_0000int,
        fnv1a(bytes.push(byte)) as int == ((fnv1a(bytes) ^ (byte as u64)) as int
            * 0x100_0000_01b3int) % 0x1_0000_0000_0000_0000int,
{
    assert(bytes.push(byte).drop_last() =~= bytes);
}

/// The prime is odd, so that multiplying by it modulo 2^64 loses nothing.
proof fn lemma_prime_is_invertible(x: u64, y: u64)
    requires
        (x as int * 0x100_0000_01b3int) % 0x1_0000_0000_0000_0000int == (y as int
            * 0x100_0000_01b3int) % 0x1_0000_0000_0000_0000int,
    ensures
        x == y,
{
    let m: int = 0x1_0000_0000_0000_0000;
    let p: int = 0x100_0000_01b3;
    let q: int = 0xce96_5057_aff6_957b;
    let k: int = 887_285_111_055;
    let a: int = x as int * p;
    let b: int = y as int * p;
    let d: int = x as int - y as int;
    let e: int = a / m - b / m;
    assert(p * q == 1 + m * k);
    assert(d * p == m * e) by {
        vstd::arithmetic::div_mod::lemma_fundamental_div_mod(a, m);
        vstd::arithmetic::div_mod::lemma_fundamental_div_mod(b, m);
    }
    assert(d * (p * q) == m * (e * q)) by (nonlinear_arith)
        requires
            d * p == m * e,
    ;
    assert(d * (1 + m * k) == d + m * (d * k)) by (nonlinear_arith);
    let f: int = e * q - d * k;
    assert(m * (e * q) - m * (d * k) == m * f) by (nonlinear_arith)
        requires
            f == e * q - d * k,
    ;
    assert(d == m * f);
    assert(-m < d < m);
    assert(f == 0);
}

/// Different states stay different, whatever is hashed next.
pub proof fn different_states_stay_different(a: u64, b: u64, bytes: Seq<u8>)
    requires
        a != b,
    ensures
        fnv1a_feed(a, bytes) != fnv1a_feed(b, bytes),
    decreases bytes.len(),
{
    if bytes.len() > 0 {
        let front = bytes.drop_last();
        let byte = bytes.last();
        different_states_stay_different(a, b, front);
        let x = fnv1a_feed(a, front);
        let y = fnv1a_feed(b, front);
        let c = byte as u64;
        one_more_byte_is_hashed_as_it_is(a, front, byte);
        one_more_byte_is_hashed_as_it_is(b, front, byte);
        assert(front.push(byte) =~= bytes);
        assert(x ^ c == y ^ c ==> x == y) by (bit_vector);
        if fnv1a_feed(a, bytes) == fnv1a_feed(b, bytes) {
            lemma_prime_is_invertible(x ^ c, y ^ c);
        }
    }
}

/// From one state, different bytes lead to different states.
pub proof fn different_bytes_lead_to_different_states(
    state: u64,
    bytes: Seq<u8>,
    a: u8,
    b: u8,
)
    requires
        a != b,
    ensures
        fnv1a_feed(state, bytes.push(a)) != fnv1a_feed(state, bytes.push(b)),
{
    let x = fnv1a_feed(state, bytes);
    one_more_byte_is_hashed_as_it_is(state, bytes, a);
    one_more_byte_is_hashed_as_it_is(state, bytes, b);
    assert(x ^ (a as u64) == x ^ (b as u64) ==> a == b) by (bit_vector);
    if fnv1a_feed(state, bytes.push(a)) == fnv1a_feed(state, bytes.push(b)) {
        lemma_prime_is_invertible(x ^ (a as u64), x ^ (b as u64));
    }
}

/// Byte strings of one length that differ in exactly one byte, be it only the
/// case of a letter, are hashed differently, from whatever state.
pub proof fn strings_that_differ_in_one_byte_hash_differently(
    state: u64,
    a: Seq<u8>,
    b: Seq<u8>,
    place: int,
)
    requires
        a.len() == b.len(),
        0 <= place < a.len(),
        a[place] != b[place],
        forall|i: int| 0 <= i < a.len() && i != place ==> a[i] == b[i],
    ensures
        fnv1a_feed(state, a) != fnv1a_feed(state, b),
        fnv1a(a) != fnv1a(b),
{
    let front = a.take(place);
    let back = a.skip(place + 1);
    assert(a =~= front.push(a[place]) + back);
    assert(b =~= front.push(b[place]) + back);
    lemma_one_byte(state, front, a[place], b[place], back);
    lemma_one_byte(FNV1A_64_OFFSET_BASIS, front, a[place], b[place], back);
}

proof fn lemma_one_byte(state: u64, front: Seq<u8>, a: u8, b: u8, back: Seq<u8>)
    requires
        a != b,
    ensures
        fnv1a_feed(state, front.push(a) + back) != fnv1a_feed(state, front.push(b) + back),
{
    lemma_fnv1a_feed_concat(state, front.push(a), back);
    lemma_fnv1a_feed_concat(state, front.push(b), back);
    different_bytes_lead_to_different_states(state, front, a, b);
    different_states_stay_different(
        fnv1a_feed(state, front.push(a)),
        fnv1a_feed(state, front.push(b)),
        back,
    );
}

/// A directory without files has the signal hash zero, and every file that it
/// gains changes it by exactly the hash of its name.
pub proof fn every_name_enters_the_signal_hash(names: Seq<Seq<u8>>, name: Seq<u8>)
    ensures
        signal_hash(Seq::empty()) == 0,
        signal_hash(names.push(name)) == signal_hash(names) ^ fnv1a(name),
        signal_hash(names.push(name)) ^ signal_hash(names) == fnv1a(name),
{
    assert(names.push(name).drop_last() =~= names);
    let s = signal_hash(names);
    let h = fnv1a(name);
    assert((s ^ h) ^ s == h) by (bit_vector);
}

/// A file that is renamed changes the signal hash exactly where the hash of its
/// name changes, wherever it is listed.
pub proof fn renamed_file_changes_signal_hash(names: Seq<Seq<u8>>, i: int, name: Seq<u8>)
    requires
        0 <= i < names.len(),
    ensures
        signal_hash(names.update(i, name)) == signal_hash(names) <==> fnv1a(name) == fnv1a(
            names[i],
        ),
{
    let before = names.take(i);
    let after = names.skip(i + 1);
    assert(names =~= before.push(names[i]) + after);
    assert(names.update(i, name) =~= before.push(name) + after);
    lemma_signal_hash_concat(before.push(names[i]), after);
    lemma_signal_hash_concat(before.push(name), after);
    every_name_enters_the_signal_hash(before, names[i]);
    every_name_enters_the_signal_hash(before, name);
    let s = signal_hash(before);
    let t = signal_hash(after);
    let x = fnv1a(names[i]);
    let y = fnv1a(name);
    assert((s ^ y) ^ t == (s ^ x) ^ t <==> y == x) by (bit_vector);
}

/// What calls of [`fnv1a_64`] return: for nothing the offset basis, for one more
/// byte the product of the prime and of the exclusive or of that byte and what was
/// returned without it, modulo 2 to the 64; and [`feed_bytes`] goes on from there.
pub proof fn calls_hash_byte_by_byte(
    bytes: &[u8],
    longer: &[u8],
    byte: u8,
    shorter_hash: u64,
    longer_hash: u64,
    fed: u64,
)
    requires
        longer@ == bytes@.push(byte),
        call_ensures(fnv1a_64, (bytes,), shorter_hash),
        call_ensures(fnv1a_64, (longer,), longer_hash),
        call_ensures(feed_bytes, (0xcbf2_9ce4_8422_2325u64, longer), fed),
    ensures
        bytes@.len() == 0 ==> shorter_hash == 0xcbf2_9ce4_8422_2325,
        longer_hash as int == ((shorter_hash ^ (byte as u64)) as int * 0x100_0000_01b3int)
            % 0x1_0000_0000_0000_0000int,
        fed == longer_hash,
{
    one_more_byte_is_hashed_as_it_is(FNV1A_64_OFFSET_BASIS, bytes@, byte);
}

} // verus!
