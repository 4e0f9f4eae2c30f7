//! The min-shingle fingerprint: construction from a token sequence and
//! comparison of two fingerprints.

use std::marker::PhantomData;

use vstd::prelude::*;

pub use crate::hasher::{Murmur3Hasher, SeedHasher};

verus! {

/// A unit of input (a character, a byte, a word id) with a canonical byte
/// encoding that is absorbed into a hasher.
pub trait Token: Copy {
    /// The bytes that stand for this token.
    spec fn encoding(&self) -> Seq<u8>;

    /// Absorbs this token's encoding into `hasher`.
    fn hash_into<H: SeedHasher>(&self, hasher: &mut H)
        ensures
            final(hasher).seed() == old(hasher).seed(),
            final(hasher).absorbed() == old(hasher).absorbed() + self.encoding(),
    ;
}

/// The four little-endian bytes of `v`.
pub open spec fn le_bytes(v: u32) -> Seq<u8> {
    seq![
        (v & 0xff) as u8,
        ((v >> 8u32) & 0xff) as u8,
        ((v >> 16u32) & 0xff) as u8,
        (v >> 24u32) as u8,
    ]
}

/// Absorbs the four little-endian bytes of `v`, as std's `Hash` does for a
/// `u32` or a `char` on a little-endian machine.
fn write_le_u32<H: SeedHasher>(v: u32, hasher: &mut H)
    ensures
        final(hasher).seed() == old(hasher).seed(),
        final(hasher).absorbed() == old(hasher).absorbed() + le_bytes(v),
{
    let bytes: [u8; 4] = [
        (v & 0xff) as u8,
        ((v >> 8u32) & 0xff) as u8,
        ((v >> 16u32) & 0xff) as u8,
        (v >> 24u32) as u8,
    ];
    hasher.write(bytes.as_slice());
    assert(bytes@ =~= le_bytes(v));
}

impl Token for u8 {
    open spec fn encoding(&self) -> Seq<u8> {
        seq![*self]
    }

    fn hash_into<H: SeedHasher>(&self, hasher: &mut H) {
        let bytes: [u8; 1] = [*self];
        hasher.write(bytes.as_slice());
        assert(bytes@ =~= seq![*self]);
    }
}

impl Token for u32 {
    open spec fn encoding(&self) -> Seq<u8> {
        le_bytes(*self)
    }

    fn hash_into<H: SeedHasher>(&self, hasher: &mut H) {
        write_le_u32(*self, hasher);
    }
}

impl Token for char {
    /// A character is encoded as its scalar value, in four little-endian bytes.
    open spec fn encoding(&self) -> Seq<u8> {
        le_bytes(*self as u32)
    }

    fn hash_into<H: SeedHasher>(&self, hasher: &mut H) {
        write_le_u32(*self as u32, hasher);
    }
}

/// The concatenated encodings of the tokens of `s`, in order.
pub open spec fn encode_all<T: Token>(s: Seq<T>) -> Seq<u8>
    decreases s.len(),
{
    if s.len() == 0 {
        Seq::empty()
    } else {
        encode_all(s.drop_last()) + s.last().encoding()
    }
}

/// Shifts the buffer left by one position: the first item is dropped, and the
/// last slot keeps its old value until it is overwritten.
pub fn shift<T: Copy>(arr: &mut [T])
    ensures
        final(arr)@.len() == old(arr)@.len(),
        forall|i: int| 0 <= i < old(arr)@.len() - 1 ==> final(arr)@[i] == old(arr)@[i + 1],
        old(arr)@.len() > 0 ==> final(arr)@.last() == old(arr)@.last(),
{
    let len = arr.len();
    if len == 0 {
        return;
    }
    let mut i: usize = 0;
    while i < len - 1
        invariant
            arr@.len() == len == old(arr)@.len(),
            0 < len,
            i < len,
            forall|j: int| 0 <= j < i ==> arr@[j] == old(arr)@[j + 1],
            forall|j: int| i <= j < len ==> arr@[j] == old(arr)@[j],
        decreases len - i,
    {
        let next = arr[i + 1];
        arr[i] = next;
        i += 1;
    }
}

/// The digest of one window of tokens under `seed`, truncated to 32 bits.
pub open spec fn window_digest_of<H: SeedHasher, T: Token>(seed: u32, window: Seq<T>) -> u32 {
    H::digest(seed, encode_all(window)) as u32
}

/// Hashes every token of `window`, in order, with a fresh hasher for `seed`.
fn window_digest<H: SeedHasher, T: Token>(seed: u32, window: &[T]) -> (r: u32)
    ensures
        r == window_digest_of::<H, T>(seed, window@),
{
    let mut hasher = H::with_seed(seed);
    let mut j: usize = 0;
    while j < window.len()
        invariant
            j <= window@.len(),
            hasher.seed() == seed,
            hasher.absorbed() == encode_all(window@.subrange(0, j as int)),
        decreases window@.len() - j,
    {
        window[j].hash_into(&mut hasher);
        proof {
            assert(window@.subrange(0, j + 1).drop_last() =~= window@.subrange(0, j as int));
        }
        j += 1;
    }
    assert(window@.subrange(0, j as int) =~= window@);
    hasher.finish() as u32
}

/// The number of windows of `l` contiguous tokens in an input of `len` tokens.
pub open spec fn window_count(len: int, l: int) -> int {
    if len >= l {
        len - l + 1
    } else {
        0
    }
}

/// A longer window never forms more windows from the same input: with
/// `l1 < l2`, an input of `len` tokens has at most as many windows of length
/// `l2` as of length `l1`. A window as long as the input is formed exactly
/// once, and a longer one never.
pub proof fn lemma_window_count_monotone(len: nat, l1: nat, l2: nat)
    requires
        l1 < l2,
    ensures
        window_count(len as int, l2 as int) <= window_count(len as int, l1 as int),
        window_count(len as int, len as int) == 1,
        l2 > len ==> window_count(len as int, l2 as int) == 0,
{
}

/// The smaller of `a` and `b`.
pub open spec fn min_u32(a: u32, b: u32) -> u32 {
    if a <= b {
        a
    } else {
        b
    }
}

/// The smallest digest under `seed` of the first `count` windows of length
/// `l` of `s`, or `u32::MAX` when `count` is zero.
pub open spec fn min_digest<H: SeedHasher, T: Token>(seed: u32, s: Seq<T>, l: int, count: nat) -> u32
    decreases count,
{
    if count == 0 {
        u32::MAX
    } else {
        min_u32(
            min_digest::<H, T>(seed, s, l, (count - 1) as nat),
            window_digest_of::<H, T>(seed, s.subrange(count - 1, count - 1 + l)),
        )
    }
}

/// The running minimum is the minimum over the windows: it is no larger than
/// the digest of any of the first `count` windows, and, where there is one,
/// it is the digest of one of them.
pub proof fn lemma_min_digest_is_minimum<H: SeedHasher, T: Token>(seed: u32, s: Seq<T>, l: int, count: nat)
    ensures
        forall|j: int|
            0 <= j < count ==> min_digest::<H, T>(seed, s, l, count) <= #[trigger] window_digest_of::<H, T>(
                seed,
                s.subrange(j, j + l),
            ),
        count > 0 ==> exists|j: int|
            0 <= j < count && min_digest::<H, T>(seed, s, l, count) == #[trigger] window_digest_of::<H, T>(
                seed,
                s.subrange(j, j + l),
            ),
    decreases count,
{
    if count > 0 {
        lemma_min_digest_is_minimum::<H, T>(seed, s, l, (count - 1) as nat);
        let last = count - 1;
        if count > 1 {
            let j = choose|j: int|
                0 <= j < count - 1 && min_digest::<H, T>(seed, s, l, (count - 1) as nat) == #[trigger] window_digest_of::<H, T>(
                    seed,
                    s.subrange(j, j + l),
                );
            if min_digest::<H, T>(seed, s, l, count) != window_digest_of::<H, T>(seed, s.subrange(last, last + l)) {
                assert(min_digest::<H, T>(seed, s, l, count) == window_digest_of::<H, T>(seed, s.subrange(j, j + l)));
            }
        } else {
            assert(min_digest::<H, T>(seed, s, l, 0) == u32::MAX);
            assert(min_digest::<H, T>(seed, s, l, count) == window_digest_of::<H, T>(seed, s.subrange(last, last + l)));
        }
    }
}

/// The fingerprint of `s`: for each seed below `n`, the smallest digest of a
/// window of `l` tokens of `s`.
pub open spec fn fingerprint<H: SeedHasher, T: Token>(s: Seq<T>, n: nat, l: int) -> Seq<u32> {
    Seq::new(n, |i: int| min_digest::<H, T>(i as u32, s, l, window_count(s.len() as int, l) as nat))
}

/// The number of positions below `n` at which `a` and `b` hold the same value.
pub open spec fn count_matches(a: Seq<u32>, b: Seq<u32>, n: int) -> nat
    decreases n,
{
    if n <= 0 {
        0
    } else {
        count_matches(a, b, n - 1) + if a[n - 1] == b[n - 1] {
            1nat
        } else {
            0nat
        }
    }
}

proof fn lemma_count_matches_symmetric(a: Seq<u32>, b: Seq<u32>, n: int)
    ensures
        count_matches(a, b, n) == count_matches(b, a, n),
    decreases n,
{
    if n > 0 {
        lemma_count_matches_symmetric(a, b, n - 1);
    }
}

proof fn lemma_count_matches_bounded(a: Seq<u32>, b: Seq<u32>, n: int)
    ensures
        n >= 0 ==> count_matches(a, b, n) <= n,
    decreases n,
{
    if n > 0 {
        lemma_count_matches_bounded(a, b, n - 1);
    }
}

proof fn lemma_count_matches_full(a: Seq<u32>, b: Seq<u32>, n: int)
    requires
        n >= 0,
    ensures
        (count_matches(a, b, n) == n) == (forall|i: int| 0 <= i < n ==> a[i] == b[i]),
    decreases n,
{
    if n > 0 {
        lemma_count_matches_full(a, b, n - 1);
        lemma_count_matches_bounded(a, b, n - 1);
        if count_matches(a, b, n) == n {
            assert forall|i: int| 0 <= i < n implies a[i] == b[i] by {
                if i < n - 1 {
                }
            }
        }
    }
}

proof fn lemma_count_matches_self(a: Seq<u32>, n: int)
    requires
        n >= 0,
    ensures
        count_matches(a, a, n) == n,
    decreases n,
{
    if n > 0 {
        lemma_count_matches_self(a, n - 1);
    }
}

/// Extending the input leaves the running minimum over windows that lie
/// wholly within the old input unchanged.
proof fn lemma_min_digest_extend<H: SeedHasher, T: Token>(seed: u32, s: Seq<T>, t: Seq<T>, l: int, count: nat)
    requires
        l >= 0,
        s.len() <= t.len(),
        t.subrange(0, s.len() as int) == s,
        count > 0 ==> count - 1 + l <= s.len(),
    ensures
        min_digest::<H, T>(seed, t, l, count) == min_digest::<H, T>(seed, s, l, count),
    decreases count,
{
    if count > 0 {
        let j = count - 1;
        assert(t.subrange(j, j + l) =~= s.subrange(j, j + l)) by {
            assert forall|k: int| 0 <= k < l implies #[trigger] t.subrange(j, j + l)[k] == s.subrange(j, j + l)[k] by {
                assert(t.subrange(0, s.len() as int)[j + k] == t[j + k]);
            }
        }
        lemma_min_digest_extend::<H, T>(seed, s, t, l, (count - 1) as nat);
    }
}

/// Builds a fingerprint from tokens handed over one at a time, holding only
/// the running minima and the last `L - 1` tokens.
pub struct MinShingleBuilder<H: SeedHasher, T: Token, const N: usize, const L: usize> {
    hash: [u32; N],
    buf: Vec<T>,
    tokens: Ghost<Seq<T>>,
    seed_hasher: PhantomData<H>,
}

impl<H: SeedHasher, T: Token, const N: usize, const L: usize> MinShingleBuilder<H, T, N, L> {
    /// The tokens pushed so far, in order.
    pub closed spec fn tokens(&self) -> Seq<T> {
        self.tokens@
    }

    /// The minima are those of the tokens pushed so far, and the buffer holds
    /// the last `L - 1` of them (all of them while there are fewer).
    pub closed spec fn wf(&self) -> bool {
        let s = self.tokens@;
        let kept = if s.len() < L - 1 {
            s.len() as int
        } else {
            L - 1
        };
        &&& L >= 1
        &&& self.hash@ == fingerprint::<H, T>(s, N as nat, L as int)
        &&& self.buf@ == s.subrange(s.len() - kept, s.len() as int)
    }

    /// Starts a fingerprint with no token seen.
    pub fn new() -> (r: Self)
        requires
            L >= 1,
        ensures
            r.wf(),
            r.tokens() == Seq::<T>::empty(),
    {
        let r = MinShingleBuilder {
            hash: [u32::MAX; N],
            buf: Vec::new(),
            tokens: Ghost(Seq::empty()),
            seed_hasher: PhantomData,
        };
        assert(r.hash@ =~= fingerprint::<H, T>(Seq::empty(), N as nat, L as int));
        assert(r.buf@ =~= Seq::<T>::empty().subrange(0, 0));
        r
    }

    /// Feeds the next token: when it completes a window, every running
    /// minimum takes that window's digest into account.
    pub fn push(&mut self, token: T)
        requires
            old(self).wf(),
        ensures
            final(self).wf(),
            final(self).tokens() == old(self).tokens().push(token),
    {
        let ghost s0 = self.tokens@;
        let ghost s1 = s0.push(token);
        let ghost c0 = window_count(s0.len() as int, L as int);
        self.buf.push(token);
        self.tokens = Ghost(s1);
        proof {
            assert(s1.subrange(0, s0.len() as int) =~= s0);
            assert(self.buf@ =~= s1.subrange(
                s0.len() - (if s0.len() < L - 1 { s0.len() as int } else { L - 1 }),
                s1.len() as int,
            ));
        }
        if self.buf.len() == L {
            let ghost start: int = s1.len() - L;
            assert(c0 == start);
            let mut hash = self.hash;
            let mut i: usize = 0;
            while i < N
                invariant
                    0 <= i <= N,
                    1 <= L,
                    s1.len() >= L,
                    start == s1.len() - L,
                    c0 == start,
                    s1.subrange(0, s0.len() as int) == s0,
                    s0.len() + 1 == s1.len(),
                    hash@.len() == N,
                    self.buf@ == s1.subrange(start, start + L),
                    self.hash@ == fingerprint::<H, T>(s0, N as nat, L as int),
                    forall|j: int|
                        0 <= j < i ==> hash@[j] == min_digest::<H, T>(j as u32, s1, L as int, (start + 1) as nat),
                    forall|j: int| i <= j < N ==> hash@[j] == self.hash@[j],
                decreases N - i,
            {
                let shingle_hash = window_digest::<H, T>(i as u32, self.buf.as_slice());
                proof {
                    lemma_min_digest_extend::<H, T>(i as u32, s0, s1, L as int, c0 as nat);
                    assert(min_digest::<H, T>(i as u32, s1, L as int, (start + 1) as nat) == min_u32(
                        min_digest::<H, T>(i as u32, s1, L as int, start as nat),
                        shingle_hash,
                    ));
                }
                if shingle_hash < hash[i] {
                    hash[i] = shingle_hash;
                }
                i += 1;
            }
            self.hash = hash;
            shift(self.buf.as_mut_slice());
            self.buf.pop();
            proof {
                assert(self.buf@ =~= s1.subrange(s1.len() - (L - 1), s1.len() as int));
                assert(self.hash@ =~= fingerprint::<H, T>(s1, N as nat, L as int));
            }
        } else {
            proof {
                assert(self.hash@ =~= fingerprint::<H, T>(s1, N as nat, L as int));
            }
        }
    }

    /// Freezes the minima into the fingerprint of the tokens pushed so far.
    pub fn finish(self) -> (r: MinShingleHash<H, N, L>)
        requires
            self.wf(),
        ensures
            r@ == fingerprint::<H, T>(self.tokens(), N as nat, L as int),
            r@.len() == N,
            self.tokens().len() < L ==> forall|i: int| 0 <= i < N ==> r@[i] == u32::MAX,
    {
        MinShingleHash { hash: self.hash, seed_hasher: PhantomData }
    }
}

/// Min-shingle hash. The hash is configurable and can be parametrized by hash
/// function, hash size etc.
///
/// * `H` - Hasher to be used to hash items from the input.
/// * `N` - Hash size: the number of hash functions.
/// * `L` - N-gram length: the number of contiguous items from the input that
///   are hashed together.
#[derive(Debug)]
pub struct MinShingleHash<H: SeedHasher, const N: usize, const L: usize> {
    hash: [u32; N],
    seed_hasher: PhantomData<H>,
}

impl<H: SeedHasher, const N: usize, const L: usize> View for MinShingleHash<H, N, L> {
    type V = Seq<u32>;

    closed spec fn view(&self) -> Seq<u32> {
        self.hash@
    }
}

impl<H: SeedHasher, const N: usize, const L: usize> MinShingleHash<H, N, L> {
    /// Creates a hash from the input.
    pub fn new<T: Token>(input: &[T]) -> (r: Self)
        requires
            L >= 1,
        ensures
            r@ == fingerprint::<H, T>(input@, N as nat, L as int),
            r@.len() == N,
            input@.len() < L ==> forall|i: int| 0 <= i < N ==> r@[i] == u32::MAX,
    {
        let mut builder = MinShingleBuilder::<H, T, N, L>::new();
        let mut k: usize = 0;
        while k < input.len()
            invariant
                k <= input@.len(),
                builder.wf(),
                builder.tokens() == input@.subrange(0, k as int),
            decreases input@.len() - k,
        {
            builder.push(input[k]);
            proof {
                assert(input@.subrange(0, k as int).push(input@[k as int]) =~= input@.subrange(0, k + 1));
            }
            k += 1;
        }
        assert(input@.subrange(0, k as int) =~= input@);
        builder.finish()
    }

    /// A fingerprint holds one value per hash function.
    pub proof fn lemma_view_len(&self)
        ensures
            self@.len() == N,
    {
    }

    /// The hash values, one per hash function, in order.
    pub fn to_vec(&self) -> (r: Vec<u32>)
        ensures
            r@ == self@,
            r@.len() == N,
    {
        let mut r: Vec<u32> = Vec::new();
        let mut i: usize = 0;
        while i < N
            invariant
                i <= N,
                self@.len() == N,
                r@ == self@.subrange(0, i as int),
            decreases N - i,
        {
            r.push(self.hash[i]);
            proof {
                assert(r@ =~= self@.subrange(0, i + 1));
            }
            i += 1;
        }
        assert(r@ =~= self@);
        r
    }

    /// Returns an iterator over hash values.
    pub fn iter(&self) -> (r: std::slice::Iter<'_, u32>)
        ensures
            vstd::std_specs::slice::into_iter_elts(r) == self@,
            self@.len() == N,
    {
        let r = self.hash.as_slice().iter();
        proof {
            broadcast use vstd::std_specs::slice::axiom_spec_slice_iter;
            assert(vstd::std_specs::iter::IteratorSpec::remaining(&r).unref() =~= self@);
        }
        r
    }

    /// The number of hash functions on which the two fingerprints hold the
    /// same minimum. Divided by `N` it estimates the Jaccard resemblance of
    /// the two inputs' shingle sets.
    pub fn match_count(&self, other: &Self) -> (r: usize)
        ensures
            r == count_matches(self@, other@, N as int),
            r <= N,
            self@.len() == N,
            other@.len() == N,
            (r == N) == (self@ == other@),
    {
        let mut count: usize = 0;
        let mut i: usize = 0;
        while i < N
            invariant
                i <= N,
                self@.len() == N,
                other@.len() == N,
                count == count_matches(self@, other@, i as int),
                count <= i,
            decreases N - i,
        {
            if self.hash[i] == other.hash[i] {
                count += 1;
            }
            i += 1;
        }
        proof {
            lemma_count_matches_full(self@, other@, N as int);
            if count == N {
                assert(self@ =~= other@);
            }
        }
        count
    }

    /// Building a fingerprint twice from the same input under the same
    /// configuration gives the same fingerprint.
    pub proof fn lemma_new_deterministic<T: Token>(input: Seq<T>, a: Self, b: Self)
        requires
            a@ == fingerprint::<H, T>(input, N as nat, L as int),
            b@ == fingerprint::<H, T>(input, N as nat, L as int),
        ensures
            a@ == b@,
            vstd::std_specs::cmp::PartialEqSpec::eq_spec(&a, &b),
    {
    }

    /// Comparison is symmetric: `a` matches `b` on as many hash functions as
    /// `b` matches `a`.
    pub proof fn lemma_match_count_symmetric(a: Self, b: Self)
        ensures
            count_matches(a@, b@, N as int) == count_matches(b@, a@, N as int),
    {
        lemma_count_matches_symmetric(a@, b@, N as int);
    }

    /// Comparison is reflexive: a fingerprint matches itself on all `N` hash
    /// functions, so its similarity to itself is one.
    pub proof fn lemma_match_count_reflexive(a: Self)
        ensures
            count_matches(a@, a@, N as int) == N,
    {
        lemma_count_matches_self(a@, N as int);
    }

    /// The number of matching hash functions lies between zero and `N`, so the
    /// similarity lies between zero and one.
    pub proof fn lemma_match_count_bounded(a: Self, b: Self)
        ensures
            0 <= count_matches(a@, b@, N as int) <= N,
    {
        lemma_count_matches_bounded(a@, b@, N as int);
    }

    /// Two inputs that are both shorter than `L` tokens form no window: their
    /// fingerprints consist of the sentinel alone and match on all `N` hash
    /// functions.
    pub proof fn lemma_short_inputs_match<T: Token>(s1: Seq<T>, s2: Seq<T>, a: Self, b: Self)
        requires
            s1.len() < L,
            s2.len() < L,
            a@ == fingerprint::<H, T>(s1, N as nat, L as int),
            b@ == fingerprint::<H, T>(s2, N as nat, L as int),
        ensures
            forall|i: int| 0 <= i < N ==> a@[i] == u32::MAX,
            a@ == b@,
            count_matches(a@, b@, N as int) == N,
    {
        assert(a@ =~= b@);
        lemma_count_matches_self(a@, N as int);
    }
}

impl<H: SeedHasher, const N: usize, const L: usize> PartialEq for MinShingleHash<H, N, L> {
    fn eq(&self, other: &Self) -> (r: bool) {
        let mut i: usize = 0;
        while i < N
            invariant
                i <= N,
                self@.len() == N,
                other@.len() == N,
                forall|j: int| 0 <= j < i ==> self@[j] == other@[j],
            decreases N - i,
        {
            if self.hash[i] != other.hash[i] {
                return false;
            }
            i += 1;
        }
        assert(self@ =~= other@);
        true
    }
}

impl<H: SeedHasher, const N: usize, const L: usize> vstd::std_specs::cmp::PartialEqSpecImpl for MinShingleHash<H, N, L> {
    open spec fn obeys_eq_spec() -> bool {
        true
    }

    open spec fn eq_spec(&self, other: &Self) -> bool {
        self@ == other@
    }
}

impl<H: SeedHasher, const N: usize, const L: usize> Eq for MinShingleHash<H, N, L> {

}

} // verus!
