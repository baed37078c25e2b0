//! The pseudo-random secret numbers that market buyers evolve.
use vstd::prelude::*;

verus! {

/// Bitwise exclusive or of two secrets.
pub open spec fn mixed(secret: u64, other: u64) -> u64 {
    secret ^ other
}

/// The low 24 bits of a secret.
pub open spec fn pruned(secret: u64) -> u64 {
    (secret % 16777216) as u64
}

/// The secret that follows `secret` in the generator's sequence.
pub open spec fn next_secret(secret: u64) -> u64 {
    let a = pruned(mixed(secret, (secret * 64) as u64));
    let b = pruned(mixed(a, a / 32));
    pruned(mixed(b, (b * 2048) as u64))
}

/// The `n`-th secret of the sequence that starts at `secret`.
pub open spec fn secret_at(secret: u64, n: nat) -> u64
    decreases n,
{
    if n == 0 {
        secret
    } else {
        next_secret(secret_at(secret, (n - 1) as nat))
    }
}

pub fn mix(secret: u64, other: u64) -> (r: u64)
    ensures
        r == mixed(secret, other),
{
    secret ^ other
}

pub fn prune(secret: u64) -> (r: u64)
    ensures
        r == pruned(secret),
        r < 16777216,
{
    secret % 16777216
}

pub fn mul_64(secret: u64) -> (r: u64)
    requires
        secret * 64 <= u64::MAX,
    ensures
        r == pruned(mixed(secret, (secret * 64) as u64)),
{
    prune(mix(secret, secret * 64))
}

pub fn div_32(secret: u64) -> (r: u64)
    ensures
        r == pruned(mixed(secret, secret / 32)),
{
    prune(mix(secret, secret / 32))
}

pub fn mul_2048(secret: u64) -> (r: u64)
    requires
        secret * 2048 <= u64::MAX,
    ensures
        r == pruned(mixed(secret, (secret * 2048) as u64)),
{
    prune(mix(secret, secret * 2048))
}

/// The secret that follows `secret`.
pub fn evolve_one(secret: u64) -> (r: u64)
    requires
        secret * 64 <= u64::MAX,
    ensures
        r == next_secret(secret),
        r < 16777216,
{
    mul_2048(div_32(mul_64(secret)))
}

/// The first `count` secrets of the sequence that starts at `secret`, `secret` itself first.
pub fn evolve(secret: u64, count: usize) -> (r: Vec<u64>)
    requires
        secret * 64 <= u64::MAX,
    ensures
        r@.len() == count,
        forall|i: int| 0 <= i < count ==> #[trigger] r@[i] == secret_at(secret, i as nat),
{
    let mut out: Vec<u64> = Vec::new();
    let mut current = secret;
    let mut i: usize = 0;
    while i < count
        invariant
            i <= count,
            out@.len() == i,
            current == secret_at(secret, i as nat),
            current * 64 <= u64::MAX,
            forall|j: int| 0 <= j < i ==> #[trigger] out@[j] == secret_at(secret, j as nat),
        decreases count - i,
    {
        out.push(current);
        current = evolve_one(current);
        i = i + 1;
    }
    out
}

} // verus!
