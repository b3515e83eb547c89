//! Random instances: a number of stations and the inhabitants of each
//! neighbourhood.

use vstd::prelude::*;
use rand::Rng;

verus! {

/// The fewest stations an instance can have.
pub const MIN_ESTACIONES: i32 = 2;

/// The most stations an instance can have.
pub const MAX_ESTACIONES: i32 = 5;

/// The fewest inhabitants a neighbourhood can have.
pub const MIN_HABITANTES: i32 = 1;

/// The most inhabitants a neighbourhood can have.
pub const MAX_HABITANTES: i32 = 500;

/// One instance: how many stations there are, and how many inhabitants
/// each neighbourhood has.
#[derive(Debug)]
pub struct Data {
    pub estaciones: i32,
    pub habitantes: Vec<i32>,
}

impl Data {
    /// The station count and every neighbourhood are within their limits.
    pub open spec fn wf(&self) -> bool {
        &&& MIN_ESTACIONES <= self.estaciones <= MAX_ESTACIONES
        &&& forall|i: int|
            0 <= i < self.habitantes@.len() ==> MIN_HABITANTES <= #[trigger] self.habitantes@[i]
                <= MAX_HABITANTES
    }
}

/// Calls `gen_range` of the `rand` crate on the thread's own generator
/// (`rand::thread_rng()`) with the half-open range `low..high`. Believed
/// without proof: the value lies in the range, `low` included and `high`
/// not. Which value comes is left open, and two calls may differ.
/// `gen_range` panics on an empty range, which `requires` rules out; the
/// generator itself gives up only where the system has no entropy to seed
/// it with.
#[verifier::external_body]
fn random_in_range(low: i32, high: i32) -> (r: i32)
    requires
        low < high,
    ensures
        low <= r < high,
{
    rand::thread_rng().gen_range(low..high)
}

/// Draws an instance with `numero_barrios` neighbourhoods (none where the
/// number is not positive): the station count first, then the inhabitants
/// of each neighbourhood in turn.
pub fn generate_data(numero_barrios: i32) -> (data: Data)
    ensures
        data.wf(),
        data.habitantes@.len() == (if numero_barrios > 0 {
            numero_barrios as int
        } else {
            0
        }),
{
    let estaciones: i32 = random_in_range(MIN_ESTACIONES, MAX_ESTACIONES + 1);
    let mut habitantes: Vec<i32> = Vec::new();
    let mut i: i32 = 0;
    while i < numero_barrios
        invariant
            0 <= i,
            i <= numero_barrios || i == 0,
            habitantes@.len() == i,
            forall|a: int|
                0 <= a < habitantes@.len() ==> MIN_HABITANTES <= #[trigger] habitantes@[a]
                    <= MAX_HABITANTES,
        decreases numero_barrios - i,
    {
        let h: i32 = random_in_range(MIN_HABITANTES, MAX_HABITANTES + 1);
        habitantes.push(h);
        i = i + 1;
    }
    Data { estaciones, habitantes }
}

} // verus!
