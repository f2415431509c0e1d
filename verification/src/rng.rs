use vstd::prelude::*;

verus! {

/// The golden-ratio increment of splitmix64.
pub const SPLITMIX_GAMMA: u64 = 0x9E37_79B9_7F4A_7C15u64;

/// Mixed into the seed, above the component index, before the streams are derived.
pub const DERIVE_SALT: u64 = 0x5DEE_CE66u64;

/// `x` rotated left by `k` bits (`0 < k < 64`).
pub open spec fn spec_rotl(x: u64, k: u64) -> u64
    recommends
        0 < k < 64,
{
    (x << k) | (x >> (64 - k) as u64)
}

/// Multiplication modulo 2^64.
pub open spec fn mul64(x: u64, y: u64) -> u64 {
    vstd::wrapping::u64_specs::wrapping_mul(x, y)
}

/// Addition modulo 2^64.
pub open spec fn add64(x: u64, y: u64) -> u64 {
    vstd::wrapping::u64_specs::wrapping_add(x, y)
}

/// The output finaliser of splitmix64, applied to the advanced state.
pub open spec fn splitmix_mix(z: u64) -> u64 {
    let z1 = mul64(z ^ (z >> 30u64), 0xBF58_476D_1CE4_E5B9u64);
    let z2 = mul64(z1 ^ (z1 >> 27u64), 0x94D0_49BB_1331_11EBu64);
    z2 ^ (z2 >> 31u64)
}

/// The state of a splitmix64 generator after `n` draws from state `x`.
pub open spec fn splitmix_state(x: u64, n: nat) -> u64
    decreases n,
{
    if n == 0 {
        x
    } else {
        add64(splitmix_state(x, (n - 1) as nat), SPLITMIX_GAMMA)
    }
}

/// The `n`-th value (counting from 1) that a splitmix64 generator started at `x` returns.
pub open spec fn splitmix_output(x: u64, n: nat) -> u64 {
    splitmix_mix(splitmix_state(x, n))
}

/// The splitmix64 state from which the streams of a run are derived for one component.
pub open spec fn derive_origin(run_seed: u64, component_id: u32) -> u64 {
    run_seed ^ (((component_id as u64) << 32u64) | DERIVE_SALT)
}

/// The xoshiro256** state derived for component `component_id` of the run seeded with `run_seed`:
/// four consecutive splitmix64 outputs.
pub open spec fn derived_state(run_seed: u64, component_id: u32) -> Seq<u64> {
    let x = derive_origin(run_seed, component_id);
    seq![splitmix_output(x, 1), splitmix_output(x, 2), splitmix_output(x, 3), splitmix_output(x, 4)]
}

/// The value xoshiro256** returns from state `s`.
pub open spec fn xoshiro_output(s: Seq<u64>) -> u64 {
    mul64(spec_rotl(mul64(s[1], 5), 7), 9)
}

/// The xoshiro256** state that follows `s`.
pub open spec fn xoshiro_next(s: Seq<u64>) -> Seq<u64> {
    let t = s[1] << 17u64;
    let s2 = s[2] ^ s[0];
    let s3 = s[3] ^ s[1];
    let s1 = s[1] ^ s2;
    let s0 = s[0] ^ s3;
    seq![s0, s1, s2 ^ t, spec_rotl(s3, 45)]
}

fn rotl(x: u64, k: u64) -> (r: u64)
    requires
        0 < k < 64,
    ensures
        r == spec_rotl(x, k),
{
    (x << k) | (x >> (64 - k))
}

/// One splitmix64 draw: advances `x` by the golden-ratio increment and returns the mixed value.
pub fn splitmix64(x: &mut u64) -> (r: u64)
    ensures
        *final(x) == add64(*old(x), SPLITMIX_GAMMA),
        r == splitmix_mix(*final(x)),
{
    *x = x.wrapping_add(SPLITMIX_GAMMA);
    let mut z = *x;
    z = (z ^ (z >> 30)).wrapping_mul(0xBF58_476D_1CE4_E5B9);
    z = (z ^ (z >> 27)).wrapping_mul(0x94D0_49BB_1331_11EB);
    z ^ (z >> 31)
}

/// The per-component random stream: xoshiro256**, written out here so that no dependency update
/// can change the number stream. The spare normal deviate of the polar method is kept in the state,
/// as the bit pattern of the value, so that it replays too.
pub struct SimRng {
    s: [u64; 4],
    spare_normal: Option<u64>,
}

impl SimRng {
    /// The four words of xoshiro256** state.
    pub closed spec fn state(&self) -> Seq<u64> {
        self.s@
    }

    /// The kept second deviate of the last polar-method draw, as a bit pattern.
    pub closed spec fn spare(&self) -> Option<u64> {
        self.spare_normal
    }

    /// Derives an independent stream for one component from the run seed and the component's
    /// registration index. The stream depends on nothing else.
    pub fn derive(run_seed: u64, component_id: u32) -> (r: SimRng)
        ensures
            r.state() == derived_state(run_seed, component_id),
            r.spare() is None,
    {
        let mut x = run_seed ^ (((component_id as u64) << 32) | DERIVE_SALT);
        let ghost x0 = x;
        let a = splitmix64(&mut x);
        let b = splitmix64(&mut x);
        let c = splitmix64(&mut x);
        let d = splitmix64(&mut x);
        proof {
            assert(x0 == derive_origin(run_seed, component_id));
            reveal_with_fuel(splitmix_state, 5);
        }
        let r = SimRng { s: [a, b, c, d], spare_normal: None };
        assert(r.state() =~= derived_state(run_seed, component_id));
        r
    }

    /// The next 64-bit value of the stream.
    pub fn next_u64(&mut self) -> (r: u64)
        ensures
            r == xoshiro_output(old(self).state()),
            final(self).state() == xoshiro_next(old(self).state()),
            final(self).spare() == old(self).spare(),
    {
        let r = self.s[1].wrapping_mul(5);
        let r = rotl(r, 7).wrapping_mul(9);
        let t = self.s[1] << 17;
        let s0 = self.s[0];
        let s1 = self.s[1];
        let s2 = self.s[2] ^ s0;
        let s3 = self.s[3] ^ s1;
        let s1 = s1 ^ s2;
        let s0 = s0 ^ s3;
        let s2 = s2 ^ t;
        let s3 = rotl(s3, 45);
        let ghost before = self.s@;
        self.s = [s0, s1, s2, s3];
        assert(self.s@ =~= xoshiro_next(before));
        r
    }

    /// Takes the kept spare deviate, leaving none behind.
    pub fn take_spare_normal(&mut self) -> (r: Option<u64>)
        ensures
            r == old(self).spare(),
            final(self).spare() is None,
            final(self).state() == old(self).state(),
    {
        self.spare_normal.take()
    }

    /// Keeps `bits` as the spare deviate for the next draw.
    pub fn keep_spare_normal(&mut self, bits: u64)
        ensures
            final(self).spare() == Some(bits),
            final(self).state() == old(self).state(),
    {
        self.spare_normal = Some(bits);
    }
}

/// Multiplying by `c` modulo 2^64 is undone by multiplying by `cinv`, its inverse modulo 2^64.
proof fn lemma_mul64_undone(x: u64, c: u64, cinv: u64, q: int)
    requires
        q >= 0,
        c as int * cinv as int == q * 0x1_0000_0000_0000_0000 + 1,
    ensures
        (mul64(x, c) as int * cinv as int) % 0x1_0000_0000_0000_0000 == x as int,
{
    let m: int = 0x1_0000_0000_0000_0000;
    let xc: int = x as int * c as int;
    assert(0 <= xc % m < m) by {
        vstd::arithmetic::div_mod::lemma_mod_bound(xc, m);
    }
    assert(mul64(x, c) as int == xc % m);
    vstd::arithmetic::div_mod::lemma_mul_mod_noop_left(xc, cinv as int, m);
    vstd::arithmetic::mul::lemma_mul_is_associative(x as int, c as int, cinv as int);
    assert(x as int * (c as int * cinv as int) == m * (x as int * q) + x as int) by (nonlinear_arith)
        requires
            c as int * cinv as int == q * m + 1,
    ;
    vstd::arithmetic::div_mod::lemma_mod_multiples_vanish(x as int * q, x as int, m);
    vstd::arithmetic::div_mod::lemma_small_mod(x as nat, m as nat);
}

/// Multiplication modulo 2^64 by an odd constant loses nothing: equal products have equal
/// factors. `cinv` is the constant's inverse modulo 2^64, `q` the quotient of their product.
proof fn lemma_mul64_injective(x: u64, y: u64, c: u64, cinv: u64, q: int)
    requires
        q >= 0,
        c as int * cinv as int == q * 0x1_0000_0000_0000_0000 + 1,
        mul64(x, c) == mul64(y, c),
    ensures
        x == y,
{
    lemma_mul64_undone(x, c, cinv, q);
    lemma_mul64_undone(y, c, cinv, q);
}

proof fn lemma_xorshift_injective(x: u64, y: u64)
    ensures
        x ^ (x >> 30u64) == y ^ (y >> 30u64) ==> x == y,
        x ^ (x >> 27u64) == y ^ (y >> 27u64) ==> x == y,
        x ^ (x >> 31u64) == y ^ (y >> 31u64) ==> x == y,
{
    assert(x ^ (x >> 30u64) == y ^ (y >> 30u64) ==> x == y) by (bit_vector);
    assert(x ^ (x >> 27u64) == y ^ (y >> 27u64) ==> x == y) by (bit_vector);
    assert(x ^ (x >> 31u64) == y ^ (y >> 31u64) ==> x == y) by (bit_vector);
}

/// The splitmix64 finaliser is a bijection: different states give different values.
pub proof fn lemma_mix_injective(a: u64, b: u64)
    requires
        splitmix_mix(a) == splitmix_mix(b),
    ensures
        a == b,
{
    let a1 = mul64(a ^ (a >> 30u64), 0xBF58_476D_1CE4_E5B9u64);
    let b1 = mul64(b ^ (b >> 30u64), 0xBF58_476D_1CE4_E5B9u64);
    let a2 = mul64(a1 ^ (a1 >> 27u64), 0x94D0_49BB_1331_11EBu64);
    let b2 = mul64(b1 ^ (b1 >> 27u64), 0x94D0_49BB_1331_11EBu64);
    lemma_xorshift_injective(a2, b2);
    lemma_mul64_injective(
        a1 ^ (a1 >> 27u64),
        b1 ^ (b1 >> 27u64),
        0x94D0_49BB_1331_11EBu64,
        0x3196_42B2_D24D_8EC3u64,
        (0x94D0_49BB_1331_11EBint * 0x3196_42B2_D24D_8EC3int) / 0x1_0000_0000_0000_0000,
    );
    lemma_xorshift_injective(a1, b1);
    lemma_mul64_injective(
        a ^ (a >> 30u64),
        b ^ (b >> 30u64),
        0xBF58_476D_1CE4_E5B9u64,
        0x96DE_1B17_3F11_9089u64,
        (0xBF58_476D_1CE4_E5B9int * 0x96DE_1B17_3F11_9089int) / 0x1_0000_0000_0000_0000,
    );
    lemma_xorshift_injective(a, b);
}

/// The first value of a xoshiro256** stream determines the second state word.
pub proof fn lemma_first_output_injective(s: Seq<u64>, t: Seq<u64>)
    requires
        s.len() == 4,
        t.len() == 4,
        xoshiro_output(s) == xoshiro_output(t),
    ensures
        s[1] == t[1],
{
    let rs = spec_rotl(mul64(s[1], 5), 7);
    let rt = spec_rotl(mul64(t[1], 5), 7);
    lemma_mul64_injective(rs, rt, 9, 0x8E38_E38E_38E3_8E39u64, (9 * 0x8E38_E38E_38E3_8E39int) / 0x1_0000_0000_0000_0000);
    let us = mul64(s[1], 5);
    let ut = mul64(t[1], 5);
    assert((us << 7u64) | (us >> 57u64) == (ut << 7u64) | (ut >> 57u64) ==> us == ut) by (bit_vector);
    lemma_mul64_injective(s[1], t[1], 5, 0xCCCC_CCCC_CCCC_CCCDu64, (5 * 0xCCCC_CCCC_CCCC_CCCDint) / 0x1_0000_0000_0000_0000);
}

/// Replay and independence of the per-component streams. The stream of a component depends only
/// on the run seed and its registration index, so the same pair replays the same stream; and two
/// components of one run, or one component in two runs with different seeds, start their streams
/// with different values.
pub proof fn lemma_distinct_streams(seed_a: u64, id_a: u32, seed_b: u64, id_b: u32)
    ensures
        seed_a == seed_b && id_a == id_b ==> derived_state(seed_a, id_a) == derived_state(seed_b, id_b),
        (seed_a == seed_b && id_a != id_b) || (seed_a != seed_b && id_a == id_b) ==> xoshiro_output(
            derived_state(seed_a, id_a),
        ) != xoshiro_output(derived_state(seed_b, id_b)),
{
    if (seed_a == seed_b && id_a != id_b) || (seed_a != seed_b && id_a == id_b) {
        let xa = derive_origin(seed_a, id_a);
        let xb = derive_origin(seed_b, id_b);
        let ia = id_a as u64;
        let ib = id_b as u64;
        assert(((seed_a == seed_b && ia != ib) || (seed_a != seed_b && ia == ib)) ==> (seed_a ^ ((
        ia << 32u64) | 0x5DEE_CE66u64)) != (seed_b ^ ((ib << 32u64) | 0x5DEE_CE66u64)))
            by (bit_vector)
            requires
                ia <= 0xFFFF_FFFFu64,
                ib <= 0xFFFF_FFFFu64,
        ;
        assert(xa != xb);
        if xoshiro_output(derived_state(seed_a, id_a)) == xoshiro_output(derived_state(seed_b, id_b)) {
            lemma_first_output_injective(derived_state(seed_a, id_a), derived_state(seed_b, id_b));
            lemma_mix_injective(splitmix_state(xa, 2), splitmix_state(xb, 2));
            reveal_with_fuel(splitmix_state, 3);
            assert(splitmix_state(xa, 2) == add64(add64(xa, SPLITMIX_GAMMA), SPLITMIX_GAMMA));
            assert(splitmix_state(xb, 2) == add64(add64(xb, SPLITMIX_GAMMA), SPLITMIX_GAMMA));
            assert(false);
        }
    }
}

} // verus!
