use vstd::prelude::*;
use rand::{OsRng, Rng, ThreadRng};

verus! {

/// The thread-local random number generator of `rand`.
#[verifier::external_type_specification]
#[verifier::external_body]
pub struct ExThreadRng(rand::ThreadRng);

/// The random number generator of `rand` that reads from the operating system.
#[verifier::external_type_specification]
#[verifier::external_body]
pub struct ExOsRng(rand::OsRng);

/// A handle on the thread-local generator (`rand::thread_rng`).
#[verifier::external_body]
fn new_thread_rng() -> (r: ThreadRng) {
    rand::thread_rng()
}

/// The next `u64` of a generator (`Rng::next_u64`). Nothing is stated of it: it is random.
#[verifier::external_body]
fn next_u64(rng: &mut ThreadRng) -> (r: u64) {
    rng.next_u64()
}

/// A `u32` in `[low, high)` (`Rng::gen_range`, which panics unless `low < high`).
#[verifier::external_body]
fn gen_range_u32(rng: &mut ThreadRng, low: u32, high: u32) -> (r: u32)
    requires
        low < high,
    ensures
        low <= r < high,
{
    rng.gen_range(low, high)
}

/// The operating system's generator (`rand::OsRng::new`), or `None` where it cannot be opened.
#[verifier::external_body]
fn new_os_rng() -> (r: Option<OsRng>) {
    match OsRng::new() {
        Ok(rng) => Some(rng),
        Err(_) => None,
    }
}

/// Eighteen bytes of a generator (`Rng::fill_bytes` on a zeroed array). Nothing is stated of
/// them: they are random.
#[verifier::external_body]
fn fill_18_bytes(rng: &mut OsRng) -> (r: [u8; 18]) {
    let mut bytes = [0u8; 18];
    rng.fill_bytes(&mut bytes);
    bytes
}

/// Eighteen bytes of the operating system's generator, or `None` where it cannot be opened.
pub(crate) fn os_random_bytes_18() -> (r: Option<[u8; 18]>) {
    match new_os_rng() {
        Some(mut rng) => Some(fill_18_bytes(&mut rng)),
        None => None,
    }
}

/// A random `u64` of the thread-local generator.
pub(crate) fn thread_random_u64() -> (r: u64) {
    let mut rng = new_thread_rng();
    next_u64(&mut rng)
}

/// A random `u32` in `[low, high)` of the thread-local generator.
pub(crate) fn thread_random_u32_in_range(low: u32, high: u32) -> (r: u32)
    requires
        low < high,
    ensures
        low <= r < high,
{
    let mut rng = new_thread_rng();
    gen_range_u32(&mut rng, low, high)
}

} // verus!
