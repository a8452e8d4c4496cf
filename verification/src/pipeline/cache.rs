//! What is kept of a calibration between runs of the program.

use std::collections::hash_map::DefaultHasher;
use std::hash::Hasher;

use vstd::prelude::*;
use vstd::std_specs::hash::DefaultHasherAdditionalSpecFns;
use vstd::string::*;
use vstd::utf8::*;

use super::stage::PipelineState;
use super::Stage;
use crate::text::push_number;

verus! {

/// The version of the state's layout: raise it when the fields of `PipelineState` change.
pub const STATE_SCHEMA_VERSION: u32 = 1;

/// The names of the stages, in order.
pub open spec fn stage_names<S: Stage>(stages: Seq<S>) -> Seq<Seq<char>> {
    stages.map_values(|s: S| s.spec_descriptor().name@)
}

/// What is hashed of the stage names: the bytes of each name, and a byte that occurs in none.
pub open spec fn name_writes(names: Seq<Seq<char>>) -> Seq<Seq<u8>>
    decreases names.len(),
{
    if names.len() == 0 {
        Seq::empty()
    } else {
        name_writes(names.drop_last()).push(encode_utf8(names.last())).push(seq![0xffu8])
    }
}

/// The bytes of a number, the lowest first.
pub open spec fn number_bytes(n: u32) -> Seq<u8> {
    seq![
        (n % 256) as u8,
        (n / 256 % 256) as u8,
        (n / 65_536 % 256) as u8,
        (n / 16_777_216) as u8,
    ]
}

/// The cache version of stages with these names.
pub open spec fn version_of(names: Seq<Seq<char>>) -> u64 {
    DefaultHasher::spec_finish(name_writes(names).push(number_bytes(STATE_SCHEMA_VERSION)))
}

/// Computes a cache version from the ordered stage names and the schema version.
pub fn compute_cache_version<S: Stage>(stages: &[S]) -> (r: u64)
    ensures
        r == version_of(stage_names(stages@)),
{
    let mut hasher: DefaultHasher = DefaultHasher::new();
    let ghost names = stage_names(stages@);
    let n: usize = stages.len();
    let mut i: usize = 0;
    let end_of_name: [u8; 1] = [0xff];
    let version: u32 = STATE_SCHEMA_VERSION;
    let schema: [u8; 4] = [
        (version % 256) as u8,
        (version / 256 % 256) as u8,
        (version / 65_536 % 256) as u8,
        (version / 16_777_216) as u8,
    ];
    assert(names.take(0) =~= Seq::empty());
    while i < n
        invariant
            n == stages@.len(),
            i <= n,
            names == stage_names(stages@),
            end_of_name@ == seq![0xffu8],
            hasher@ == name_writes(names.take(i as int)),
        decreases n - i,
    {
        let name: &'static str = stages[i].descriptor().name;
        hasher.write(name.as_bytes());
        hasher.write(end_of_name.as_slice());
        assert(names.take(i as int + 1).drop_last() =~= names.take(i as int));
        assert(names.take(i as int + 1).last() == name@);
        i = i + 1;
    }
    assert(names.take(n as int) =~= names);
    hasher.write(schema.as_slice());
    assert(schema@ =~= number_bytes(STATE_SCHEMA_VERSION));
    hasher.finish()
}

/// A pipeline state with what decides whether it can be used again.
#[derive(Debug, PartialEq, Eq)]
pub struct PipelineCache {
    pub version: u64,
    /// Frame dimensions at calibration time: another size invalidates the cache.
    pub frame_width: u32,
    pub frame_height: u32,
    pub state: PipelineState,
}

/// Why a cache cannot be used.
#[derive(Debug, PartialEq, Eq)]
pub enum CacheError {
    /// The file could not be read or written, with the reason.
    Io(String),
    /// The file is not the JSON of a cache, with the reason.
    Json(String),
    VersionMismatch { on_disk: u64, expected: u64 },
    FrameSizeMismatch { cached: (u32, u32), current: (u32, u32) },
    /// The state was not fully validated.
    Incomplete,
}

impl CacheError {
    /// The message for this error.
    pub open spec fn spec_text(&self) -> Seq<char> {
        match *self {
            CacheError::Io(reason) => "cache I/O error: "@ + reason@,
            CacheError::Json(reason) => "cache JSON error: "@ + reason@,
            CacheError::VersionMismatch { on_disk, expected } => "cache version mismatch: on-disk="@
                + crate::text::decimal(on_disk as int) + ", expected="@ + crate::text::decimal(
                expected as int,
            ),
            CacheError::FrameSizeMismatch { cached, current } => "frame size mismatch: cached="@
                + crate::text::decimal(cached.0 as int) + "x"@ + crate::text::decimal(cached.1 as int)
                + ", current="@ + crate::text::decimal(current.0 as int) + "x"@
                + crate::text::decimal(current.1 as int),
            CacheError::Incomplete => "cached pipeline state is not fully validated"@,
        }
    }

    /// The message for this error.
    pub fn text(&self) -> (r: String)
        ensures
            r@ == self.spec_text(),
    {
        match self {
            CacheError::Io(reason) => {
                let mut s: String = String::from_str("cache I/O error: ");
                s.append(reason.as_str());
                s
            },
            CacheError::Json(reason) => {
                let mut s: String = String::from_str("cache JSON error: ");
                s.append(reason.as_str());
                s
            },
            CacheError::VersionMismatch { on_disk, expected } => {
                let mut s: String = String::from_str("cache version mismatch: on-disk=");
                push_number(&mut s, *on_disk as u128);
                s.append(", expected=");
                push_number(&mut s, *expected as u128);
                s
            },
            CacheError::FrameSizeMismatch { cached, current } => {
                let mut s: String = String::from_str("frame size mismatch: cached=");
                push_number(&mut s, cached.0 as u128);
                s.append("x");
                push_number(&mut s, cached.1 as u128);
                s.append(", current=");
                push_number(&mut s, current.0 as u128);
                s.append("x");
                push_number(&mut s, current.1 as u128);
                s
            },
            CacheError::Incomplete => String::from_str(
                "cached pipeline state is not fully validated",
            ),
        }
    }
}

impl PipelineCache {
    /// Makes a cache entry from a pipeline state.
    pub fn new(state: PipelineState, frame_width: u32, frame_height: u32, version: u64) -> (r: Self)
        ensures
            r == (PipelineCache { version, frame_width, frame_height, state }),
    {
        PipelineCache { version, frame_width, frame_height, state }
    }

    /// What a cache holds for frames of the given size and stages of the given version: its
    /// state where both are those of the cache and the state is validated.
    pub open spec fn usable_state(
        self,
        width: u32,
        height: u32,
        version: u64,
    ) -> Result<PipelineState, CacheError> {
        if self.version != version {
            Err(CacheError::VersionMismatch { on_disk: self.version, expected: version })
        } else if self.frame_width != width || self.frame_height != height {
            Err(
                CacheError::FrameSizeMismatch {
                    cached: (self.frame_width, self.frame_height),
                    current: (width, height),
                },
            )
        } else if !self.state.validated {
            Err(CacheError::Incomplete)
        } else {
            Ok(self.state)
        }
    }

    /// Takes the state out of a cache. Refuses where the version does not match, the frame
    /// dimensions changed, or the pipeline state is not fully validated.
    pub fn load(
        self,
        current_width: u32,
        current_height: u32,
        expected_version: u64,
    ) -> (r: Result<PipelineState, CacheError>)
        ensures
            r == self.usable_state(current_width, current_height, expected_version),
    {
        if self.version != expected_version {
            return Err(
                CacheError::VersionMismatch { on_disk: self.version, expected: expected_version },
            );
        }
        if self.frame_width != current_width || self.frame_height != current_height {
            return Err(
                CacheError::FrameSizeMismatch {
                    cached: (self.frame_width, self.frame_height),
                    current: (current_width, current_height),
                },
            );
        }
        if !self.state.validated {
            return Err(CacheError::Incomplete);
        }
        Ok(self.state)
    }
}

/// A validated state that was put into a cache comes out of it unchanged, for frames of the
/// same size and stages of the same version, and for no others.
pub proof fn cache_gives_back_what_it_holds(
    state: PipelineState,
    width: u32,
    height: u32,
    version: u64,
    wanted_width: u32,
    wanted_height: u32,
    wanted_version: u64,
)
    ensures
        ({
            let cache = PipelineCache { version, frame_width: width, frame_height: height, state };
            let r = cache.usable_state(wanted_width, wanted_height, wanted_version);
            if state.validated && width == wanted_width && height == wanted_height && version
                == wanted_version {
                r == Ok::<PipelineState, CacheError>(state)
            } else {
                r is Err
            }
        }),
{
}


/// The bytes of a number are its digits to the base 256, the lowest first.
pub proof fn bytes_make_up_the_number(n: u32)
    ensures
        ({
            let b = number_bytes(n);
            &&& b.len() == 4
            &&& n == b[0] + 256 * b[1] + 65_536 * b[2] + 16_777_216 * b[3]
        }),
{
}

/// The names of the stages are written one after the other, each with a mark behind it.
pub proof fn names_are_written_in_turn(a: Seq<Seq<char>>, b: Seq<Seq<char>>)
    ensures
        name_writes(a + b) == name_writes(a) + name_writes(b),
        a.len() == 1 ==> name_writes(a) == seq![encode_utf8(a[0]), seq![0xffu8]],
    decreases b.len(),
{
    reveal_with_fuel(name_writes, 2);
    if a.len() == 1 {
        assert(name_writes(a) =~= seq![encode_utf8(a[0]), seq![0xffu8]]);
    }
    if b.len() == 0 {
        assert(a + b =~= a);
        assert(name_writes(a + b) =~= name_writes(a) + name_writes(b));
    } else {
        names_are_written_in_turn(a, b.drop_last());
        assert((a + b).drop_last() =~= a + b.drop_last());
        assert((a + b).last() == b.last());
        assert(name_writes(a + b) =~= name_writes(a) + name_writes(b));
    }
}

/// A cache is used exactly if it was made by the same stages, for frames of the same size, and by a
/// run that came to its end.
pub proof fn caches_are_used_where_they_fit(cache: PipelineCache, width: u32, height: u32, version: u64)
    ensures
        cache.usable_state(width, height, version) is Ok <==> cache.version == version
            && cache.frame_width == width && cache.frame_height == height && cache.state.validated,
        cache.usable_state(width, height, version) matches Ok(s) ==> s == cache.state,
        cache.version != version ==> cache.usable_state(width, height, version) == Err::<
            PipelineState,
            CacheError,
        >(CacheError::VersionMismatch { on_disk: cache.version, expected: version }),
        cache.version == version && (cache.frame_width != width || cache.frame_height != height)
            ==> cache.usable_state(width, height, version) == Err::<PipelineState, CacheError>(
            CacheError::FrameSizeMismatch {
                cached: (cache.frame_width, cache.frame_height),
                current: (width, height),
            },
        ),
{
}

} // verus!
