//! Small things that everything uses: distance, the clock, and a random direction.

use vstd::prelude::*;

verus! {

/// The square of the distance between two points.
pub open spec fn square_distance(ax: int, ay: int, bx: int, by: int) -> int {
    (ax - bx) * (ax - bx) + (ay - by) * (ay - by)
}

/// Squared distance between two points, which must be near enough for an `i64` to hold it.
pub fn dist2(ax: i32, ay: i32, bx: i32, by: i32) -> (d: i64)
    requires
        square_distance(ax as int, ay as int, bx as int, by as int) <= i64::MAX,
    ensures
        d == square_distance(ax as int, ay as int, bx as int, by as int),
{
    let dx: i64 = ax as i64 - bx as i64;
    let dy: i64 = ay as i64 - by as i64;
    assert(dx * dx >= 0) by (nonlinear_arith);
    assert(dy * dy >= 0) by (nonlinear_arith);
    dx * dx + dy * dy
}

/// The distance between two points is the same both ways, and zero only from a point to itself.
pub proof fn law_distance_is_symmetric(ax: int, ay: int, bx: int, by: int)
    ensures
        square_distance(ax, ay, bx, by) == square_distance(bx, by, ax, ay),
        square_distance(ax, ay, bx, by) >= 0,
        square_distance(ax, ay, bx, by) == 0 <==> ax == bx && ay == by,
{
    assert((ax - bx) * (ax - bx) == (bx - ax) * (bx - ax)) by (nonlinear_arith);
    assert((ay - by) * (ay - by) == (by - ay) * (by - ay)) by (nonlinear_arith);
    assert((ax - bx) * (ax - bx) >= 0) by (nonlinear_arith);
    assert((ay - by) * (ay - by) >= 0) by (nonlinear_arith);
    if (ax - bx) != 0 {
        assert((ax - bx) * (ax - bx) > 0) by (nonlinear_arith)
            requires
                ax - bx != 0,
        ;
    }
    if (ay - by) != 0 {
        assert((ay - by) * (ay - by) > 0) by (nonlinear_arith)
            requires
                ay - by != 0,
        ;
    }
}

/// `std::time::SystemTime`.
#[verifier::external_type_specification]
#[verifier::external_body]
pub struct ExSystemTime(std::time::SystemTime);

/// `std::time::SystemTimeError`.
#[verifier::external_type_specification]
#[verifier::external_body]
pub struct ExSystemTimeError(std::time::SystemTimeError);

/// `std::time::SystemTime::now`. Nothing is claimed of what the clock says.
pub assume_specification[ std::time::SystemTime::now ]() -> std::time::SystemTime
;

/// `std::time::SystemTime::duration_since`, from the start of the epoch. Nothing is claimed of how
/// long ago that is; it fails when the clock is set before it.
#[verifier::external_body]
fn since_epoch(t: &std::time::SystemTime) -> Result<std::time::Duration, std::time::SystemTimeError> {
    t.duration_since(std::time::UNIX_EPOCH)
}

/// `std::time::Duration::as_secs`. What a `Duration` holds is not visible here, so nothing is claimed of the count.
pub assume_specification[ std::time::Duration::as_secs ](d: &std::time::Duration) -> u64
;

/// A count of seconds since the start of the epoch; 0 for a clock that is set before it. A count that an
/// `i64` cannot hold wraps round.
pub fn clock_secs(elapsed: Option<u64>) -> (secs: i64)
    ensures
        elapsed is None ==> secs == 0,
        elapsed matches Some(n) ==> secs == if n <= i64::MAX {
            n as int
        } else {
            n - 0x1_0000_0000_0000_0000
        },
{
    match elapsed {
        Some(n) => {
            if n <= 0x7fff_ffff_ffff_ffff {
                n as i64
            } else {
                let above: u64 = n - 0x8000_0000_0000_0000;
                above as i64 + i64::MIN
            }
        },
        None => 0,
    }
}

/// The time, in seconds since the start of the epoch. Nothing is stated of what the clock says, and every `i64` is
/// what [`clock_secs`] makes of some reading; what it makes of each is stated there.
pub fn now_secs() -> i64 {
    let now = std::time::SystemTime::now();
    match since_epoch(&now) {
        Ok(d) => clock_secs(Some(d.as_secs())),
        Err(_) => clock_secs(None),
    }
}

/// Every direction of a grid step: straight and diagonal, never standing still.
pub open spec fn headings() -> Seq<(int, int)> {
    seq![
        (1int, 0int),
        (-1int, 0int),
        (0int, 1int),
        (0int, -1int),
        (1int, 1int),
        (1int, -1int),
        (-1int, 1int),
        (-1int, -1int),
    ]
}

/// The direction with this number.
pub fn heading(k: usize) -> (d: (i32, i32))
    requires
        k < 8,
    ensures
        (d.0 as int, d.1 as int) == headings()[k as int],
{
    let all: [(i32, i32); 8] = [(1, 0), (-1, 0), (0, 1), (0, -1), (1, 1), (1, -1), (-1, 1), (-1, -1)];
    all[k]
}

/// A random number below `n`, from `rand::Rng::gen_range` on `rand::thread_rng`. Which one it is, is a
/// matter of chance; that it is below `n` is not. The range must not be empty.
#[verifier::external_body]
fn random_below(n: usize) -> (k: usize)
    requires
        n > 0,
    ensures
        k < n,
{
    rand::Rng::gen_range(&mut rand::thread_rng(), 0..n)
}

/// A random direction of a grid step.
pub fn random_heading() -> (d: (i32, i32))
    ensures
        headings().contains((d.0 as int, d.1 as int)),
        d.0 != 0 || d.1 != 0,
{
    let k: usize = random_below(8);
    let d = heading(k);
    assert(headings()[k as int] == (d.0 as int, d.1 as int));
    d
}

} // verus!
