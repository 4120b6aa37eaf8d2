//! Sessions: what is kept of a track's settings, where it is kept, and what
//! becomes of it when the track is opened again.

use vstd::prelude::*;
use vstd::string::{StrSliceExecFns, StringExecFns};

use crate::dsp::eq::EqSettings;
use crate::dsp::DspKind;
use crate::engine::metronome::MetronomeSettings;
use crate::engine::speed_ramp::SpeedRampSettings;
use crate::text::{append_numeral, numeral};
use crate::track::{LoopRegion, Marker, NamedLoop};

verus! {

/// The settings of a track.
pub struct Session<S> {
    pub version: u32,
    pub track_path: String,
    pub track_sample_rate: u32,
    pub loop_region: Option<LoopRegion>,
    pub loops: Vec<NamedLoop>,
    pub active_loop: Option<usize>,
    pub speed: S,
    pub pitch_semitones: S,
    pub last_position: u64,
    pub dsp_kind: DspKind,
    pub markers: Vec<Marker>,
    pub metronome: MetronomeSettings<S>,
    pub eq: EqSettings<S>,
    pub speed_ramp: SpeedRampSettings<S>,
}

/// Why a session cannot be used.
#[derive(Clone, Copy, Debug, PartialEq, Eq, Structural)]
pub enum SessionError {
    UnsupportedVersion { found: u32, expected: u32 },
}

impl<S> Session<S> {
    /// The only version of sessions that is read and written.
    pub const CURRENT_VERSION: u32 = 6;

    /// A session can be used if it is of the current version.
    pub fn check_version(version: u32) -> (r: Result<(), SessionError>)
        ensures
            r == if version == 6 {
                Ok::<(), SessionError>(())
            } else {
                Err::<(), SessionError>(
                    SessionError::UnsupportedVersion { found: version, expected: 6 },
                )
            },
    {
        if version == Self::CURRENT_VERSION {
            Ok(())
        } else {
            Err(
                SessionError::UnsupportedVersion {
                    found: version,
                    expected: Self::CURRENT_VERSION,
                },
            )
        }
    }
}

/// The hash of some bytes by the FNV-1a scheme: each byte in turn is mixed in
/// by an exclusive or and a multiplication.
pub open spec fn fnv1a(bytes: Seq<u8>) -> u64
    decreases bytes.len(),
{
    if bytes.len() == 0 {
        0xcbf29ce484222325
    } else {
        (fnv1a(bytes.drop_last()) ^ (bytes.last() as u64)).wrapping_mul(0x100000001b3)
    }
}

/// The hash of some bytes by the FNV-1a scheme.
pub fn fnv1a_64(bytes: &[u8]) -> (r: u64)
    ensures
        r == fnv1a(bytes@),
{
    let mut h: u64 = 0xcbf29ce484222325;
    let mut i: usize = 0;
    assert(bytes@.take(0).len() == 0);
    while i < bytes.len()
        invariant
            i <= bytes@.len(),
            h == fnv1a(bytes@.take(i as int)),
        decreases bytes@.len() - i,
    {
        assert(bytes@.take(i + 1).drop_last() =~= bytes@.take(i as int));
        h = (h ^ (bytes[i] as u64)).wrapping_mul(0x100000001b3);
        i = i + 1;
    }
    assert(bytes@.take(i as int) =~= bytes@);
    h
}

/// The name of the file that keeps a track's session: the hash of its path
/// in sixteen hexadecimal digits.
pub open spec fn session_file(track_path: Seq<char>) -> Seq<char> {
    numeral(fnv1a(vstd::utf8::encode_utf8(track_path)) as nat, 16, 16) + ".json"@
}

/// The name of the file that keeps a track's session.
pub fn file_name_for(track_path: &str) -> (r: String)
    ensures
        r@ == session_file(track_path@),
{
    let hash: u64 = fnv1a_64(track_path.as_bytes());
    let mut name: String = String::new();
    append_numeral(&mut name, hash, 16, 16);
    name.append(".json");
    assert(name@ =~= session_file(track_path@));
    name
}

/// A path below another one.
pub open spec fn below(base: Seq<char>, rest: Seq<char>) -> Seq<char> {
    if base.len() == 0 {
        rest
    } else if base.last() == '/' {
        base + rest
    } else {
        base + "/"@ + rest
    }
}

/// A path below another one.
fn join(base: &str, rest: &str) -> (r: String)
    ensures
        r@ == below(base@, rest@),
{
    let n: usize = base.unicode_len();
    if n == 0 {
        return rest.to_owned();
    }
    let mut path: String = base.to_owned();
    if base.get_char(n - 1) != '/' {
        path.append("/");
    }
    path.append(rest);
    path
}

/// The directory of all sessions, given where the user's data is kept and
/// where the user is at home.
pub open spec fn sessions_dir(data_home: Option<Seq<char>>, home: Option<Seq<char>>) -> Option<
    Seq<char>,
> {
    match (data_home, home) {
        (Some(d), _) if d.len() > 0 => Some(below(below(d, "loop-studio"@), "autosessions"@)),
        (_, Some(h)) => Some(
            below(below(below(h, ".local/share"@), "loop-studio"@), "autosessions"@),
        ),
        _ => None,
    }
}

/// What a text says, if there is one.
pub open spec fn said(s: Option<&str>) -> Option<Seq<char>> {
    match s {
        Some(t) => Some(t@),
        None => None,
    }
}

/// The directory of all sessions: below the user's data, or below the user's
/// home where that is not set or empty. There is none where neither is known.
pub fn dir(data_home: Option<&str>, home: Option<&str>) -> (r: Option<String>)
    ensures
        match r {
            Some(d) => sessions_dir(said(data_home), said(home)) == Some(d@),
            None => sessions_dir(said(data_home), said(home)) is None,
        },
{
    let base: String = match data_home {
        Some(d) if d.unicode_len() > 0 => d.to_owned(),
        _ => match home {
            Some(h) => join(h, ".local/share"),
            None => {
                return None;
            },
        },
    };
    let studio: String = join(base.as_str(), "loop-studio");
    Some(join(studio.as_str(), "autosessions"))
}

/// The path of the file that keeps a track's session.
pub fn path_for(track_path: &str, data_home: Option<&str>, home: Option<&str>) -> (r: Option<
    String,
>)
    ensures
        match r {
            Some(p) => sessions_dir(said(data_home), said(home)) is Some && p@ == below(
                sessions_dir(said(data_home), said(home))->0,
                session_file(track_path@),
            ),
            None => sessions_dir(said(data_home), said(home)) is None,
        },
{
    match dir(data_home, home) {
        Some(d) => {
            let name: String = file_name_for(track_path);
            Some(join(d.as_str(), name.as_str()))
        },
        None => None,
    }
}

/// A loop in a track of `total` frames: cut off at its end, and none where no
/// frame is left of it.
pub open spec fn loop_within(region: Option<LoopRegion>, total: u64) -> Option<LoopRegion> {
    match region {
        Some(l) => {
            let end = if l.end < total {
                l.end
            } else {
                total
            };
            if l.start < end {
                Some(LoopRegion { start: l.start, end })
            } else {
                None
            }
        },
        None => None,
    }
}

/// Fits a loop to a track of `total_frames` frames.
pub fn clamp_loop(region: Option<LoopRegion>, total_frames: u64) -> (r: Option<LoopRegion>)
    ensures
        r == loop_within(region, total_frames),
        r matches Some(l) ==> l.proper() && l.end <= total_frames,
{
    match region {
        Some(l) => {
            let end: u64 = if l.end < total_frames {
                l.end
            } else {
                total_frames
            };
            if l.start < end {
                Some(LoopRegion { start: l.start, end })
            } else {
                None
            }
        },
        None => None,
    }
}

/// The time between two automatic saves, in nanoseconds.
pub const AUTOSAVE_INTERVAL: u64 = 2_000_000_000;

/// Whether it is time to save again.
pub fn autosave_due(last: Option<u64>, now: u64) -> (r: bool)
    ensures
        r == match last {
            Some(t) => now - t >= AUTOSAVE_INTERVAL,
            None => true,
        },
{
    match last {
        Some(t) => now >= t && now - t >= AUTOSAVE_INTERVAL,
        None => true,
    }
}

/// The file name of a track's session is always of the same length.
pub proof fn session_files_are_uniform(track_path: Seq<char>)
    ensures
        session_file(track_path).len() == 21,
{
    reveal_strlit(".json");
    let hash = fnv1a(vstd::utf8::encode_utf8(track_path)) as nat;
    sixteen_to_sixteen();
    crate::text::numeral_length(hash, 16, 16, 0x1_0000_0000_0000_0000);
}

proof fn sixteen_to_sixteen()
    ensures
        vstd::arithmetic::power::pow(16, 16) == 0x1_0000_0000_0000_0000,
{
    let p1 = vstd::arithmetic::power::pow(16, 1);
    let p2 = vstd::arithmetic::power::pow(16, 2);
    let p4 = vstd::arithmetic::power::pow(16, 4);
    let p8 = vstd::arithmetic::power::pow(16, 8);
    vstd::arithmetic::power::lemma_pow1(16);
    vstd::arithmetic::power::lemma_pow_adds(16, 1, 1);
    vstd::arithmetic::power::lemma_pow_adds(16, 2, 2);
    vstd::arithmetic::power::lemma_pow_adds(16, 4, 4);
    vstd::arithmetic::power::lemma_pow_adds(16, 8, 8);
    assert(p2 == 256) by (nonlinear_arith)
        requires
            p1 == 16,
            p2 == p1 * p1,
    ;
    assert(p4 == 65536) by (nonlinear_arith)
        requires
            p2 == 256,
            p4 == p2 * p2,
    ;
    assert(p8 == 0x1_0000_0000) by (nonlinear_arith)
        requires
            p4 == 65536,
            p8 == p4 * p4,
    ;
    assert(p8 * p8 == 0x1_0000_0000_0000_0000) by (nonlinear_arith)
        requires
            p8 == 0x1_0000_0000,
    ;
}

} // verus!
