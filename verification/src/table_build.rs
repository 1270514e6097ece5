//! Settings and progress reports of an exact-table build, and how its work
//! is cut into batches.
use crate::sheet::ScoreSheet;
use crate::text::{decimal_chars, push_decimal, push_str};
use crate::KeiriError;
use vstd::prelude::*;

verus! {

/// How far a build has come: the layer being built (by its number of open
/// categories), the last layer, and the states of this layer done so far.
#[derive(Debug, Clone, Copy, PartialEq, Eq, Structural)]
pub struct AnchorBuildProgress {
    pub open_count: usize,
    pub total_open_count: usize,
    pub layer_states: usize,
    pub completed_layer_states: usize,
}

/// Which solver computes a layer.
#[derive(Debug, Clone, Copy, PartialEq, Eq, Structural)]
pub enum AnchorBuildStrategy {
    Dense,
    Recursive,
}

/// Build settings: a fixed number of worker threads, or as many as the
/// machine offers, and the solver to use.
#[derive(Debug, Clone, Copy, PartialEq, Eq, Structural)]
pub struct AnchorBuildOptions {
    pub threads: Option<usize>,
    pub strategy: AnchorBuildStrategy,
}

impl Default for AnchorBuildOptions {
    fn default() -> (r: Self)
        ensures
            r.threads is None,
            r.strategy == AnchorBuildStrategy::Dense,
    {
        AnchorBuildOptions { threads: None, strategy: AnchorBuildStrategy::Dense }
    }
}

impl AnchorBuildOptions {
    /// Number of workers: the fixed number, or `available` (what the machine
    /// offers) where none is fixed, and at least one.
    pub fn thread_count(self, available: usize) -> (r: usize)
        ensures
            r == {
                let n = match self.threads {
                    Some(t) => t,
                    None => available,
                };
                if n == 0 {
                    1
                } else {
                    n
                }
            },
    {
        let n = match self.threads {
            Some(t) => t,
            None => available,
        };
        if n == 0 {
            1
        } else {
            n
        }
    }
}

/// `a / b` rounded up.
pub open spec fn ceil_div(a: nat, b: nat) -> nat {
    if a % b == 0 {
        a / b
    } else {
        a / b + 1
    }
}

/// Size of the batches handed to `workers` threads for `work_len` states:
/// about two batches per worker, at least 1 and at most 2048 states each.
pub fn dense_batch_size(work_len: usize, workers: usize) -> (r: usize)
    requires
        workers <= usize::MAX / 2,
    ensures
        r == {
            let d = if workers == 0 {
                2nat
            } else {
                (workers * 2) as nat
            };
            let q = ceil_div(work_len as nat, d);
            if q < 1 {
                1
            } else if q > 2048 {
                2048
            } else {
                q
            }
        },
        1 <= r <= 2048,
{
    let w = if workers == 0 {
        1
    } else {
        workers
    };
    let d = w * 2;
    assert(work_len / d < usize::MAX) by (nonlinear_arith)
        requires
            d >= 2,
            work_len <= usize::MAX,
    ;
    let q = if work_len % d == 0 {
        work_len / d
    } else {
        work_len / d + 1
    };
    if q < 1 {
        1
    } else if q > 2048 {
        2048
    } else {
        q
    }
}

/// Whether every roll count of `rolls` is from 1 to 3.
pub open spec fn depths_ok(rolls: Seq<u8>) -> bool {
    forall|j: int| 0 <= j < rolls.len() ==> 1 <= #[trigger] rolls[j] <= 3
}

/// Checks that an endgame table can be built for `sheet` at the roll counts
/// `rolls_used`: exactly one open category and at least one roll count,
/// each from 1 to 3.  A sheet with another number of open categories, or an
/// empty list, is an `InvalidTableSlice`; the first roll count out of range
/// is an `InvalidRollCount`.
pub fn validate_endgame_slice(sheet: &ScoreSheet, rolls_used: &[u8]) -> (r: Result<(), KeiriError>)
    ensures
        r is Ok <==> sheet.open_categories().len() == 1 && rolls_used@.len() > 0 && depths_ok(rolls_used@),
        sheet.open_categories().len() != 1 ==> r is Err && r->Err_0 is InvalidTableSlice
            && r->Err_0->InvalidTableSlice_0@ == "endgame table slices require exactly one open category; found "@
            + decimal_chars(sheet.open_categories().len()),
        sheet.open_categories().len() == 1 && rolls_used@.len() == 0 ==> r is Err && r->Err_0 is InvalidTableSlice
            && r->Err_0->InvalidTableSlice_0@ == "table slice requires at least one roll depth"@,
        sheet.open_categories().len() == 1 && rolls_used@.len() > 0 && !depths_ok(rolls_used@) ==> exists|k: int|
            0 <= k < rolls_used@.len() && !(1 <= rolls_used@[k] <= 3) && depths_ok(rolls_used@.take(k)) && r
                == Err::<(), KeiriError>(KeiriError::InvalidRollCount(rolls_used@[k])),
{
    let remaining = sheet.remaining_categories();
    if remaining.len() != 1 {
        let mut msg = String::new();
        push_str(&mut msg, "endgame table slices require exactly one open category; found ");
        push_decimal(&mut msg, remaining.len() as u64);
        return Err(KeiriError::InvalidTableSlice(msg));
    }
    if rolls_used.len() == 0 {
        return Err(KeiriError::InvalidTableSlice(String::from_str("table slice requires at least one roll depth")));
    }
    let mut i: usize = 0;
    while i < rolls_used.len()
        invariant
            i <= rolls_used@.len(),
            sheet.open_categories().len() == 1,
            rolls_used@.len() > 0,
            depths_ok(rolls_used@.take(i as int)),
        decreases rolls_used@.len() - i,
    {
        let roll_count = rolls_used[i];
        if roll_count < 1 || roll_count > 3 {
            return Err(KeiriError::InvalidRollCount(roll_count));
        }
        assert(rolls_used@.take(i as int + 1) == rolls_used@.take(i as int).push(roll_count));
        i += 1;
    }
    assert(rolls_used@.take(rolls_used@.len() as int) == rolls_used@);
    Ok(())
}

} // verus!
