use vstd::prelude::*;

verus! {

/// `x` rotated left by `k` bits (`0 < k < 64`).
pub open spec fn rotl(x: u64, k: u64) -> u64 {
    (x << k) | (x >> ((64 - k) as u64))
}

pub fn rotate_left(x: u64, k: u64) -> (r: u64)
    requires
        0 < k < 64,
    ensures
        r == rotl(x, k),
{
    (x << k) | (x >> (64 - k))
}

/// The state of the small pseudo random generator behind the hash keys.
#[derive(Copy, Clone, PartialEq, Eq, Debug, Structural)]
pub struct JenkinsRng {
    pub a: u64,
    pub b: u64,
    pub c: u64,
    pub d: u64,
}

/// One step of the generator.
pub open spec fn rng_step(s: JenkinsRng) -> JenkinsRng {
    let e = vstd::wrapping::u64_specs::wrapping_sub(s.a, rotl(s.b, 7));
    let a = s.b ^ rotl(s.c, 13);
    let b = vstd::wrapping::u64_specs::wrapping_add(s.c, rotl(s.d, 37));
    let c = vstd::wrapping::u64_specs::wrapping_add(s.d, e);
    let d = vstd::wrapping::u64_specs::wrapping_add(e, a);
    JenkinsRng { a, b, c, d }
}

/// The generator seeded with `seed`, before any step.
pub open spec fn rng_seeded(seed: u64) -> JenkinsRng {
    JenkinsRng { a: 0xf1ea_5eed, b: seed, c: seed, d: seed }
}

/// The generator after `k` steps from `s`.
pub open spec fn rng_after(s: JenkinsRng, k: nat) -> JenkinsRng
    decreases k,
{
    if k == 0 {
        s
    } else {
        rng_step(rng_after(s, (k - 1) as nat))
    }
}

impl JenkinsRng {
    /// The generator seeded with `seed` and warmed up by twenty steps.
    pub fn new(seed: u64) -> (rng: Self)
        ensures
            rng == rng_after(rng_seeded(seed), 20),
    {
        let mut rng = JenkinsRng { a: 0xf1ea_5eed, b: seed, c: seed, d: seed };
        let mut i: u32 = 0;
        while i < 20
            invariant
                i <= 20,
                rng == rng_after(rng_seeded(seed), i as nat),
            decreases 20 - i,
        {
            rng.next();
            i += 1;
        }
        rng
    }

    /// Steps the generator and returns its new `d` word.
    pub fn next(&mut self) -> (r: u64)
        ensures
            *final(self) == rng_step(*old(self)),
            r == final(self).d,
    {
        let e = self.a.wrapping_sub(rotate_left(self.b, 7));
        self.a = self.b ^ rotate_left(self.c, 13);
        self.b = self.c.wrapping_add(rotate_left(self.d, 37));
        self.c = self.d.wrapping_add(e);
        self.d = e.wrapping_add(self.a);
        self.d
    }
}

/// A copy of `v`.
pub fn copy_u64s(v: &Vec<u64>) -> (r: Vec<u64>)
    ensures
        r@ == v@,
{
    let mut r: Vec<u64> = Vec::new();
    let mut i: usize = 0;
    while i < v.len()
        invariant
            i <= v.len(),
            r@ == v@.subrange(0, i as int),
        decreases v.len() - i,
    {
        r.push(v[i]);
        i += 1;
        assert(r@ =~= v@.subrange(0, i as int));
    }
    assert(v@.subrange(0, i as int) =~= v@);
    r
}

/// The `k`-th number the generator gives after its warm-up (counting from 0).
pub open spec fn zobrist_number(k: nat) -> u64 {
    rng_after(rng_seeded(12), 21 + k).d
}

/// The random keys of the position hash: one per piece kind and square, one per
/// castling byte, one per en passant file, and one for black to move.
#[derive(Clone, Debug)]
pub struct ZobristTable {
    pub pieces: Vec<u64>,
    pub castling: Vec<u64>,
    pub en_passant: Vec<u64>,
    pub side_to_move: u64,
}

/// The contents of a key table.
pub struct Keys {
    pub pieces: Seq<u64>,
    pub castling: Seq<u64>,
    pub en_passant: Seq<u64>,
    pub side_to_move: u64,
}

impl Keys {
    /// The key of piece index `idx` on square `sq`.
    pub open spec fn piece_key(&self, idx: nat, sq: nat) -> u64 {
        self.pieces[(idx * 64 + sq) as int]
    }
}

/// The engine's keys: the generator's numbers, in the order the table holds them.
pub open spec fn canonical_keys() -> Keys {
    Keys {
        pieces: Seq::new(768, |i: int| zobrist_number(i as nat)),
        castling: Seq::new(16, |i: int| zobrist_number((768 + i) as nat)),
        en_passant: Seq::new(8, |i: int| zobrist_number((784 + i) as nat)),
        side_to_move: zobrist_number(792),
    }
}

impl ZobristTable {
    pub open spec fn view(&self) -> Keys {
        Keys {
            pieces: self.pieces@,
            castling: self.castling@,
            en_passant: self.en_passant@,
            side_to_move: self.side_to_move,
        }
    }

    /// The table holds the generator's numbers, in order: pieces (piece index
    /// times 64 plus square), castling bytes, en passant files, side to move.
    pub open spec fn canonical(&self) -> bool {
        &&& self.pieces@.len() == 768
        &&& self.castling@.len() == 16
        &&& self.en_passant@.len() == 8
        &&& forall|i: int| 0 <= i < 768 ==> #[trigger] self.pieces@[i] == zobrist_number(i as nat)
        &&& forall|i: int| 0 <= i < 16 ==> #[trigger] self.castling@[i] == zobrist_number((768 + i) as nat)
        &&& forall|i: int| 0 <= i < 8 ==> #[trigger] self.en_passant@[i] == zobrist_number((784 + i) as nat)
        &&& self.side_to_move == zobrist_number(792)
    }


    /// Whether the table holds the engine's keys (compared with a fresh table).
    pub fn is_canonical(&self) -> (r: bool)
        ensures
            r == self.canonical(),
    {
        let fresh = ZobristTable::new();
        proof {
            self.lemma_canonical_keys();
            fresh.lemma_canonical_keys();
        }
        crate::chess::board::same_u64s(self.pieces.as_slice(), fresh.pieces.as_slice())
            && crate::chess::board::same_u64s(self.castling.as_slice(), fresh.castling.as_slice())
            && crate::chess::board::same_u64s(self.en_passant.as_slice(), fresh.en_passant.as_slice())
            && self.side_to_move == fresh.side_to_move
    }

    /// A table holds the engine's keys exactly when its contents are them.
    pub proof fn lemma_canonical_keys(&self)
        ensures
            self.canonical() <==> self@ == canonical_keys(),
    {
        if self.canonical() {
            assert(self.pieces@ =~= canonical_keys().pieces);
            assert(self.castling@ =~= canonical_keys().castling);
            assert(self.en_passant@ =~= canonical_keys().en_passant);
        }
        if self@ == canonical_keys() {
            assert forall|i: int| 0 <= i < 768 implies #[trigger] self.pieces@[i] == zobrist_number(i as nat) by {
                assert(self.pieces@[i] == canonical_keys().pieces[i]);
            }
            assert forall|i: int| 0 <= i < 16 implies #[trigger] self.castling@[i] == zobrist_number((768 + i) as nat) by {
                assert(self.castling@[i] == canonical_keys().castling[i]);
            }
            assert forall|i: int| 0 <= i < 8 implies #[trigger] self.en_passant@[i] == zobrist_number((784 + i) as nat) by {
                assert(self.en_passant@[i] == canonical_keys().en_passant[i]);
            }
        }
    }

    pub fn new() -> (t: Self)
        ensures
            t.canonical(),
    {
        let mut prng = JenkinsRng::new(12);
        let mut pieces: Vec<u64> = Vec::new();
        let mut k: usize = 0;
        while k < 768
            invariant
                k <= 768,
                pieces@.len() == k,
                prng == rng_after(rng_seeded(12), (20 + k) as nat),
                forall|i: int| 0 <= i < k ==> #[trigger] pieces@[i] == zobrist_number(i as nat),
            decreases 768 - k,
        {
            let v = prng.next();
            pieces.push(v);
            k += 1;
        }
        let mut castling: Vec<u64> = Vec::new();
        let mut c: usize = 0;
        while c < 16
            invariant
                c <= 16,
                castling@.len() == c,
                prng == rng_after(rng_seeded(12), (788 + c) as nat),
                forall|i: int| 0 <= i < c ==> #[trigger] castling@[i] == zobrist_number((768 + i) as nat),
            decreases 16 - c,
        {
            let v = prng.next();
            castling.push(v);
            c += 1;
        }
        let mut en_passant: Vec<u64> = Vec::new();
        let mut e: usize = 0;
        while e < 8
            invariant
                e <= 8,
                en_passant@.len() == e,
                prng == rng_after(rng_seeded(12), (804 + e) as nat),
                forall|i: int| 0 <= i < e ==> #[trigger] en_passant@[i] == zobrist_number((784 + i) as nat),
            decreases 8 - e,
        {
            let v = prng.next();
            en_passant.push(v);
            e += 1;
        }
        let side_to_move = prng.next();
        ZobristTable { pieces, castling, en_passant, side_to_move }
    }

    /// A copy of the table.
    pub fn duplicate(&self) -> (t: Self)
        ensures
            t@ == self@,
    {
        ZobristTable {
            pieces: copy_u64s(&self.pieces),
            castling: copy_u64s(&self.castling),
            en_passant: copy_u64s(&self.en_passant),
            side_to_move: self.side_to_move,
        }
    }

    /// The key of piece index `idx` (0..12) on square `sq`.
    pub fn piece(&self, idx: usize, sq: usize) -> (r: u64)
        requires
            self.canonical(),
            idx < 12,
            sq < 64,
        ensures
            r == self@.piece_key(idx as nat, sq as nat),
    {
        self.pieces[idx * 64 + sq]
    }
}

/// The hashes of the positions of a game, oldest first; `N` is how many it can hold.
#[derive(Clone, Debug)]
pub struct HashList<const N: usize> {
    pub positions: Vec<u64>,
}

impl<const N: usize> HashList<N> {
    pub open spec fn view(&self) -> Seq<u64> {
        self.positions@
    }

    pub fn new() -> (l: Self)
        ensures
            l@ == Seq::<u64>::empty(),
    {
        HashList { positions: Vec::new() }
    }

    pub fn push(&mut self, hash: u64)
        requires
            old(self)@.len() < N,
        ensures
            final(self)@ == old(self)@.push(hash),
    {
        self.positions.push(hash);
    }

    pub fn pop(&mut self)
        requires
            old(self)@.len() > 0,
        ensures
            final(self)@ == old(self)@.drop_last(),
    {
        self.positions.pop();
    }

    pub fn len(&self) -> (r: usize)
        ensures
            r == self@.len(),
    {
        self.positions.len()
    }

    /// A copy of the list.
    pub fn duplicate(&self) -> (l: Self)
        ensures
            l@ == self@,
    {
        HashList { positions: copy_u64s(&self.positions) }
    }

    /// The last `num_halfmoves` hashes (all of them if there are fewer).
    pub fn half_move_iter(&self, num_halfmoves: u64) -> (s: &[u64])
        ensures
            s@ == self@.subrange(
                if num_halfmoves >= self@.len() { 0 } else { self@.len() - num_halfmoves },
                self@.len() as int,
            ),
    {
        let count = self.positions.len();
        let num: usize = if num_halfmoves >= count as u64 { 0 } else { count - num_halfmoves as usize };
        &self.positions.as_slice()[num..count]
    }
}

} // verus!
