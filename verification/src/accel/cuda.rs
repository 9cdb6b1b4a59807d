//! Batched brick generation on a GPU: what is handed to the kernel, and how the
//! words that it returns become bricks.

use crate::coord::{IVec3, BRICK_EDGE, BRICK_LEN};
use crate::text::{append_decimal, decimal};
use crate::voxel::{cell_index, Brick, Voxel};
use vstd::prelude::*;
use vstd::string::*;

verus! {

/// Seconds that the GPU device may take to come up.
pub const DEVICE_TIMEOUT_SECS: u64 = 10;

/// Milliseconds between two looks at a device that is coming up.
pub const DEVICE_POLL_MS: u64 = 50;

/// A span of time: whole seconds, and nanoseconds below one second.
#[derive(Clone, Copy, Debug, PartialEq, Eq, Structural)]
pub struct Duration {
    secs: u64,
    nanos: u32,
}

impl Duration {
    #[verifier::type_invariant]
    spec fn below_one_second(self) -> bool {
        self.nanos < 1_000_000_000
    }

    pub closed spec fn spec_secs(self) -> u64 {
        self.secs
    }

    pub closed spec fn spec_nanos(self) -> u32 {
        self.nanos
    }

    /// The span in nanoseconds.
    pub open spec fn total(self) -> nat {
        (self.spec_secs() * 1_000_000_000 + self.spec_nanos()) as nat
    }

    pub fn new(secs: u64, nanos: u32) -> (r: Self)
        requires
            nanos < 1_000_000_000,
        ensures
            r.spec_secs() == secs,
            r.spec_nanos() == nanos,
    {
        Duration { secs, nanos }
    }

    pub fn from_secs(secs: u64) -> (r: Self)
        ensures
            r.spec_secs() == secs,
            r.spec_nanos() == 0,
    {
        Duration { secs, nanos: 0 }
    }

    /// The span in nanoseconds.
    pub fn as_nanos(&self) -> (r: u128)
        ensures
            r as nat == self.total(),
    {
        self.secs as u128 * 1_000_000_000 + self.nanos as u128
    }

    /// The whole seconds.
    pub fn as_secs(&self) -> (r: u64)
        ensures
            r == self.spec_secs(),
    {
        self.secs
    }

    /// The nanoseconds below one second.
    pub fn subsec_nanos(&self) -> (r: u32)
        ensures
            r == self.spec_nanos(),
            r < 1_000_000_000,
    {
        proof {
            use_type_invariant(self);
        }
        self.nanos
    }

    /// The span as it is printed.
    pub fn text(&self) -> (r: String)
        ensures
            r@ == duration_text(self.spec_secs(), self.spec_nanos()),
    {
        proof {
            use_type_invariant(self);
        }
        debug_duration(self.secs, self.nanos)
    }
}

/// How `std::time::Duration` prints a span with `{:?}`, by its whole seconds
/// and the nanoseconds below one second.
pub uninterp spec fn duration_text(secs: u64, nanos: u32) -> Seq<char>;

/// `{:?}` of `std::time::Duration`: what is printed depends on the seconds and
/// the nanoseconds alone. The unit and the number of digits that it chooses are
/// left unsaid.
#[verifier::external_body]
fn debug_duration(secs: u64, nanos: u32) -> (r: String)
    requires
        nanos < 1_000_000_000,
    ensures
        r@ == duration_text(secs, nanos),
{
    format!("{:?}", std::time::Duration::new(secs, nanos))
}

#[derive(Debug)]
pub enum CudaError {
    /// The actor system failed.
    Sys(String),
    /// The device was not ready within this time.
    DeviceNotReady(Duration),
    NvrtcDisabled,
    /// A request was not answered.
    Ask(String),
    Gpu(String),
    /// The kernel returned a word that is no material number.
    BadMaterial(u32),
    NoRuntime,
}

impl CudaError {
    /// The error in words.
    pub open spec fn text(self) -> Seq<char> {
        match self {
            CudaError::Sys(e) => "atomr actor system error: "@ + e@,
            CudaError::DeviceNotReady(d) => "CUDA device not ready after "@ + duration_text(
                d.spec_secs(),
                d.spec_nanos(),
            ),
            CudaError::NvrtcDisabled => "NVRTC actor not available (enable EnabledLibraries::NVRTC)"@,
            CudaError::Ask(e) => "ask error: "@ + e@,
            CudaError::Gpu(e) => "GPU error: "@ + e@,
            CudaError::BadMaterial(raw) => "kernel returned non-u16 voxel material: "@ + decimal(
                raw as nat,
            ),
            CudaError::NoRuntime => {
                "no current Tokio runtime; construct CudaAccelerator from inside a runtime"@
            },
        }
    }

    /// The error in words.
    pub fn message(&self) -> (r: String)
        ensures
            r@ == self.text(),
    {
        match self {
            CudaError::Sys(e) => String::from_str("atomr actor system error: ").concat(e.as_str()),
            CudaError::DeviceNotReady(d) => {
                let t: String = d.text();
                String::from_str("CUDA device not ready after ").concat(t.as_str())
            },
            CudaError::NvrtcDisabled => String::from_str(
                "NVRTC actor not available (enable EnabledLibraries::NVRTC)",
            ),
            CudaError::Ask(e) => String::from_str("ask error: ").concat(e.as_str()),
            CudaError::Gpu(e) => String::from_str("GPU error: ").concat(e.as_str()),
            CudaError::BadMaterial(raw) => {
                let mut s: String = String::from_str("kernel returned non-u16 voxel material: ");
                append_decimal(&mut s, *raw as u64);
                s
            },
            CudaError::NoRuntime => String::from_str(
                "no current Tokio runtime; construct CudaAccelerator from inside a runtime",
            ),
        }
    }
}

/// The grid of a kernel launch.
#[derive(Clone, Copy, Debug)]
pub struct LaunchConfig {
    pub grid_dim: (u32, u32, u32),
    pub block_dim: (u32, u32, u32),
    pub shared_mem_bytes: u32,
}

/// What a batch hands to the kernel.
#[derive(Debug)]
pub struct BatchPlan {
    /// The brick coordinates: x, y, z of each in turn.
    pub coords: Vec<i64>,
    /// Words that the kernel writes.
    pub out_len: usize,
    pub launch: LaunchConfig,
}

/// The coordinates in one row: x, y, z of each brick in turn.
pub open spec fn flat_coords(coords: Seq<IVec3>) -> Seq<i64> {
    Seq::new(
        3 * coords.len(),
        |i: int|
            if i % 3 == 0 {
                coords[i / 3].x
            } else if i % 3 == 1 {
                coords[i / 3].y
            } else {
                coords[i / 3].z
            },
    )
}

/// What to hand to the kernel for a batch: one thread per cell, a block per
/// layer of a brick. An empty batch needs no launch.
pub fn plan_batch(brick_coords: &Vec<IVec3>) -> (r: Option<BatchPlan>)
    requires
        brick_coords@.len() * BRICK_LEN <= usize::MAX,
    ensures
        r is None <==> brick_coords@.len() == 0,
        match r {
            Some(plan) => {
                &&& plan.coords@ == flat_coords(brick_coords@)
                &&& plan.coords@.len() == 3 * brick_coords@.len()
                &&& forall|i: int|
                    0 <= i < brick_coords@.len() ==> plan.coords@[3 * i] == (#[trigger] brick_coords@[i]).x
                        && plan.coords@[3 * i + 1] == brick_coords@[i].y && plan.coords@[3 * i + 2]
                        == brick_coords@[i].z
                &&& plan.out_len == brick_coords@.len() * BRICK_LEN
                &&& plan.launch == (LaunchConfig {
                    grid_dim: ((brick_coords@.len() % 0x1_0000_0000) as u32, 16, 1),
                    block_dim: (16, 16, 1),
                    shared_mem_bytes: 0,
                })
            },
            None => true,
        },
{
    let n: usize = brick_coords.len();
    if n == 0 {
        return None;
    }
    let mut flat: Vec<i64> = Vec::new();
    let mut i: usize = 0;
    while i < n
        invariant
            i <= n,
            n == brick_coords@.len(),
            flat@.len() == 3 * i,
            forall|k: int| 0 <= k < 3 * i ==> #[trigger] flat@[k] == flat_coords(brick_coords@)[k],
        decreases n - i,
    {
        let c: IVec3 = brick_coords[i];
        flat.push(c.x);
        flat.push(c.y);
        flat.push(c.z);
        i += 1;
    }
    proof {
        assert(flat@ =~= flat_coords(brick_coords@));
    }
    let blocks: u32 = (n as u64 % 0x1_0000_0000) as u32;
    Some(
        BatchPlan {
            coords: flat,
            out_len: n * BRICK_LEN,
            launch: LaunchConfig {
                grid_dim: (blocks, BRICK_EDGE as u32, 1),
                block_dim: (BRICK_EDGE as u32, BRICK_EDGE as u32, 1),
                shared_mem_bytes: 0,
            },
        },
    )
}

/// The first word that is no material number, among the first `n`.
pub open spec fn first_bad(words: Seq<u32>, n: int) -> Option<u32>
    decreases n,
{
    if n <= 0 {
        None
    } else {
        match first_bad(words, n - 1) {
            Some(w) => Some(w),
            None => if words[n - 1] > 0xffff {
                Some(words[n - 1])
            } else {
                None
            },
        }
    }
}

proof fn lemma_first_bad_stays(words: Seq<u32>, m: int, n: int)
    requires
        m <= n,
        first_bad(words, m) is Some,
    ensures
        first_bad(words, n) == first_bad(words, m),
    decreases n - m,
{
    if m < n {
        lemma_first_bad_stays(words, m, n - 1);
    }
}

/// The cells of brick `i` in the kernel's output.
pub open spec fn decoded_cells(words: Seq<u32>, i: int) -> Seq<Voxel> {
    Seq::new(BRICK_LEN as nat, |k: int| Voxel(words[i * BRICK_LEN + k] as u16))
}

/// Turns the kernel's output into `n` bricks. A word that is no material number
/// refuses the batch; of several, the first is named.
pub fn decode_bricks(words: &Vec<u32>, n: usize) -> (r: Result<Vec<Brick>, CudaError>)
    requires
        n * BRICK_LEN == words@.len(),
    ensures
        match r {
            Err(e) => match first_bad(words@, words@.len() as int) {
                Some(w) => e == CudaError::BadMaterial(w),
                None => false,
            },
            Ok(bricks) => {
                &&& first_bad(words@, words@.len() as int) is None
                &&& bricks@.len() == n
                &&& forall|i: int|
                    0 <= i < n ==> (#[trigger] bricks@[i]).wf() && bricks@[i]@ == decoded_cells(words@, i)
                &&& forall|i: int, k: int|
                    0 <= i < n && 0 <= k < 4096 ==> #[trigger] bricks@[i]@[k] == Voxel(words@[4096 * i + k] as u16)
            },
        },
{
    let len: usize = words.len();
    let mut out: Vec<Brick> = Vec::new();
    let mut i: usize = 0;
    while i < n
        invariant
            i <= n,
            len == words@.len(),
            n * BRICK_LEN == words@.len(),
            first_bad(words@, i * BRICK_LEN) is None,
            out@.len() == i,
            forall|k: int|
                0 <= k < i ==> (#[trigger] out@[k]).wf() && out@[k]@ == decoded_cells(words@, k),
        decreases n - i,
    {
        let base: usize = i * BRICK_LEN;
        let mut b: Brick = Brick::new();
        proof {
            b.lemma_len();
        }
        let mut z: usize = 0;
        while z < BRICK_EDGE
            invariant
                i < n,
                z <= 16,
                base == i * BRICK_LEN,
                len == words@.len(),
                n * BRICK_LEN == words@.len(),
                b.wf(),
                b@.len() == BRICK_LEN,
                first_bad(words@, base + cell_index(0, 0, z as int)) is None,
                forall|k: int|
                    0 <= k < cell_index(0, 0, z as int) ==> #[trigger] b@[k] == decoded_cells(words@, i as int)[k],
                forall|k: int| cell_index(0, 0, z as int) <= k < BRICK_LEN ==> #[trigger] b@[k] == Voxel(0),
            decreases 16 - z,
        {
            let mut y: usize = 0;
            while y < BRICK_EDGE
                invariant
                    i < n,
                    z < 16,
                    y <= 16,
                    base == i * BRICK_LEN,
                    len == words@.len(),
                    n * BRICK_LEN == words@.len(),
                    b.wf(),
                    b@.len() == BRICK_LEN,
                    first_bad(words@, base + cell_index(0, y as int, z as int)) is None,
                    forall|k: int|
                        0 <= k < cell_index(0, y as int, z as int) ==> #[trigger] b@[k] == decoded_cells(
                            words@,
                            i as int,
                        )[k],
                    forall|k: int|
                        cell_index(0, y as int, z as int) <= k < BRICK_LEN ==> #[trigger] b@[k] == Voxel(0),
                decreases 16 - y,
            {
                let mut x: usize = 0;
                while x < BRICK_EDGE
                    invariant
                        i < n,
                        z < 16,
                        y < 16,
                        x <= 16,
                        base == i * BRICK_LEN,
                        len == words@.len(),
                        n * BRICK_LEN == words@.len(),
                        b.wf(),
                        b@.len() == BRICK_LEN,
                        first_bad(words@, base + cell_index(x as int, y as int, z as int)) is None,
                        forall|k: int|
                            0 <= k < cell_index(x as int, y as int, z as int) ==> #[trigger] b@[k]
                                == decoded_cells(words@, i as int)[k],
                        forall|k: int|
                            cell_index(x as int, y as int, z as int) <= k < BRICK_LEN ==> #[trigger] b@[k]
                                == Voxel(0),
                    decreases 16 - x,
                {
                    let idx: usize = base + (z * BRICK_EDGE + y) * BRICK_EDGE + x;
                    let raw: u32 = words[idx];
                    if raw > 0xffff {
                        proof {
                            assert(first_bad(words@, idx + 1) == Some(raw));
                            lemma_first_bad_stays(words@, idx + 1, words@.len() as int);
                        }
                        return Err(CudaError::BadMaterial(raw));
                    }
                    if raw != 0 {
                        b.set(IVec3 { x: x as i64, y: y as i64, z: z as i64 }, Voxel(raw as u16));
                    }
                    x += 1;
                }
                y += 1;
            }
            z += 1;
        }
        proof {
            assert(b@ =~= decoded_cells(words@, i as int));
        }
        out.push(b);
        i += 1;
    }
    Ok(out)
}

/// The brick of a batch of one.
pub fn single_brick(bricks: Vec<Brick>) -> (r: Brick)
    requires
        bricks@.len() > 0,
    ensures
        r == bricks@[bricks@.len() - 1],
{
    let mut all: Vec<Brick> = bricks;
    all.pop().unwrap()
}

/// What to do while the device comes up.
#[derive(Clone, Copy, Debug, PartialEq, Eq, Structural)]
pub enum WaitStep {
    /// The device's workers are there.
    Ready,
    /// The time is up: [`CudaError::DeviceNotReady`].
    TimedOut,
    /// Look again after this many milliseconds.
    Sleep(u64),
}

/// One look at a device that is coming up: whether its workers are there, and
/// how long it has taken, in nanoseconds.
pub fn wait_for_children(ready: bool, elapsed_ns: u128, timeout: Duration) -> (r: WaitStep)
    ensures
        r == (if ready {
            WaitStep::Ready
        } else if elapsed_ns > timeout.total() {
            WaitStep::TimedOut
        } else {
            WaitStep::Sleep(DEVICE_POLL_MS)
        }),
{
    if ready {
        WaitStep::Ready
    } else if elapsed_ns > timeout.as_nanos() {
        WaitStep::TimedOut
    } else {
        WaitStep::Sleep(DEVICE_POLL_MS)
    }
}

/// The word that a batch is refused for is the first that is no material number;
/// a batch without such a word is not refused.
pub proof fn the_first_bad_word_is_named(words: Seq<u32>, n: int)
    requires
        0 <= n <= words.len(),
    ensures
        first_bad(words, n) is None <==> forall|i: int| 0 <= i < n ==> #[trigger] words[i] <= 0xffff,
        first_bad(words, n) matches Some(w) ==> exists|i: int|
            0 <= i < n && #[trigger] words[i] == w && w > 0xffff && forall|j: int|
                0 <= j < i ==> #[trigger] words[j] <= 0xffff,
    decreases n,
{
    if n > 0 {
        the_first_bad_word_is_named(words, n - 1);
        if first_bad(words, n - 1) is Some {
            let w = first_bad(words, n - 1)->0;
            let i = choose|i: int|
                0 <= i < n - 1 && #[trigger] words[i] == w && w > 0xffff && forall|j: int|
                    0 <= j < i ==> #[trigger] words[j] <= 0xffff;
            assert(words[i] == w);
        } else {
            assert(words[n - 1] == words[n - 1]);
        }
    }
}

} // verus!
