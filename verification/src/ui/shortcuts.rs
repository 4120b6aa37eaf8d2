//! What the keys do.

use vstd::prelude::*;

use crate::track::{LoopRegion, Marker};
use crate::ui::loops::{LoopDeck, LoopNews, LoopsAction};
use crate::ui::markers::{
    add_marker, back_anchor, last_before, marked, next_marker, nth_marker, ordered, previous_marker,
};

verus! {

/// One end of a loop.
#[derive(Clone, Copy, Debug, PartialEq, Eq, Structural)]
pub enum LoopEndpoint {
    Start(u64),
    End(u64),
}

/// A key, or keys, with a meaning.
#[derive(Clone, Copy, Debug, PartialEq, Eq, Structural)]
pub enum Press {
    /// Space.
    PlayPause,
    /// Left arrow; the small step is with Shift.
    Back { small: bool },
    /// Right arrow; the small step is with Shift.
    Forward { small: bool },
    Home,
    End,
    Escape,
    /// `[`.
    LoopStart,
    /// `]`.
    LoopEnd,
    /// `M`.
    AddMarker,
    /// `1` to `9`.
    JumpToMarker(usize),
    /// Control and right arrow.
    NextMarker,
    /// Control and left arrow.
    PreviousMarker,
    /// Shift and `1` to `9`.
    ActivateLoop(usize),
}

/// What is then to be done.
#[derive(Clone, Copy, Debug, PartialEq, Eq, Structural)]
pub enum KeyAction {
    Nothing,
    Play,
    Pause,
    Seek(u64),
    SetLoop(Option<LoopRegion>),
}

/// Where playback is.
#[derive(Clone, Copy, Debug, PartialEq, Eq, Structural)]
pub struct Playhead {
    pub position: u64,
    pub total_frames: u64,
    pub sample_rate: u32,
    pub playing: bool,
}

impl Playhead {
    /// The position, or the end of the track where it lies beyond.
    pub open spec fn place(self) -> u64 {
        if self.position < self.total_frames {
            self.position
        } else {
            self.total_frames
        }
    }
}

/// How many frames an arrow key goes: one second, or five.
pub open spec fn stride(sample_rate: u32, small: bool) -> int {
    if small {
        sample_rate as int
    } else {
        sample_rate * 5
    }
}

/// News for the engine as an action.
pub open spec fn as_action(news: LoopNews) -> KeyAction {
    match news {
        LoopNews::Nothing => KeyAction::Nothing,
        LoopNews::SetLoop(region) => KeyAction::SetLoop(region),
    }
}

fn to_action(news: LoopNews) -> (r: KeyAction)
    ensures
        r == as_action(news),
{
    match news {
        LoopNews::Nothing => KeyAction::Nothing,
        LoopNews::SetLoop(region) => KeyAction::SetLoop(region),
    }
}

/// A frame to seek to, where there is one.
fn seek_to(frame: Option<u64>) -> (r: KeyAction)
    ensures
        r == match frame {
            Some(f) => KeyAction::Seek(f),
            None => KeyAction::Nothing,
        },
{
    match frame {
        Some(f) => KeyAction::Seek(f),
        None => KeyAction::Nothing,
    }
}

/// What a key that only moves the playhead does.
pub open spec fn moves(press: Press, head: Playhead, region: Option<LoopRegion>) -> Option<
    KeyAction,
> {
    let at = head.place();
    match press {
        Press::PlayPause => Some(
            if head.playing {
                KeyAction::Pause
            } else {
                KeyAction::Play
            },
        ),
        Press::Back { small } => {
            let step = stride(head.sample_rate, small);
            Some(
                KeyAction::Seek(
                    if at < step {
                        0
                    } else {
                        (at - step) as u64
                    },
                ),
            )
        },
        Press::Forward { small } => {
            let step = stride(head.sample_rate, small);
            Some(
                KeyAction::Seek(
                    if at + step < head.total_frames {
                        (at + step) as u64
                    } else {
                        head.total_frames
                    },
                ),
            )
        },
        Press::Home => Some(
            KeyAction::Seek(
                match region {
                    Some(l) => l.start,
                    None => 0,
                },
            ),
        ),
        Press::End => Some(
            KeyAction::Seek(
                match region {
                    Some(l) => if l.end == 0 {
                        0
                    } else {
                        (l.end - 1) as u64
                    },
                    None => head.total_frames,
                },
            ),
        ),
        _ => None,
    }
}

/// Does what a key stands for.
pub fn handle(press: Press, head: Playhead, deck: &mut LoopDeck, markers: &mut Vec<Marker>) -> (r:
    KeyAction)
    requires
        old(deck).wf(),
        ordered(old(markers)@),
    ensures
        final(deck).wf(),
        ordered(final(markers)@),
        press != Press::AddMarker ==> final(markers)@ == old(markers)@,
        match press {
            Press::Escape | Press::LoopStart | Press::LoopEnd | Press::ActivateLoop(_) => true,
            _ => *final(deck) == *old(deck),
        },
        moves(press, head, old(deck).loop_region) matches Some(action) ==> r == action,
        match press {
            Press::Escape => {
                &&& r == if old(deck).loop_region is Some {
                    KeyAction::SetLoop(None)
                } else {
                    KeyAction::Nothing
                }
                &&& *final(deck) == (LoopDeck {
                    loop_region: None,
                    active_loop: None,
                    pending_loop: None,
                    ..*old(deck)
                })
            },
            Press::LoopStart => endpoint_applied(
                *old(deck),
                LoopEndpoint::Start(head.place()),
                *final(deck),
                r,
            ),
            Press::LoopEnd => endpoint_applied(
                *old(deck),
                LoopEndpoint::End(head.place()),
                *final(deck),
                r,
            ),
            Press::AddMarker => {
                &&& r == KeyAction::Nothing
                &&& marked(old(markers)@, head.place()) ==> final(markers)@ == old(markers)@
                &&& !marked(old(markers)@, head.place()) ==> exists|k: int|
                    {
                        &&& 0 <= k <= old(markers)@.len()
                        &&& final(markers)@.len() == old(markers)@.len() + 1
                        &&& #[trigger] final(markers)@.remove(k) == old(markers)@
                        &&& final(markers)@[k].frame == head.place()
                        &&& final(markers)@[k].label@ == Seq::<char>::empty()
                    }
            },
            Press::JumpToMarker(n) => r == if 1 <= n <= old(markers)@.len() {
                KeyAction::Seek(old(markers)@[n - 1].frame)
            } else {
                KeyAction::Nothing
            },
            Press::NextMarker => match r {
                KeyAction::Seek(f) => marked(old(markers)@, f) && f > head.place() && forall|i: int|
                    0 <= i < old(markers)@.len() && (#[trigger] old(markers)@[i]).frame
                        > head.place() ==> old(markers)@[i].frame >= f,
                KeyAction::Nothing => forall|i: int|
                    0 <= i < old(markers)@.len() ==> (#[trigger] old(markers)@[i]).frame
                        <= head.place(),
                _ => false,
            },
            Press::PreviousMarker => exists|anchor: u64|
                {
                    &&& #[trigger] back_anchor(
                        old(markers)@,
                        head.place(),
                        (head.sample_rate / 2) as u64,
                        anchor,
                    )
                    &&& match r {
                        KeyAction::Seek(f) => last_before(old(markers)@, anchor, f),
                        KeyAction::Nothing => forall|i: int|
                            0 <= i < old(markers)@.len() ==> (#[trigger] old(markers)@[i]).frame
                                >= anchor,
                        _ => false,
                    }
                },
            Press::ActivateLoop(n) => if 1 <= n <= old(deck).loops@.len() {
                let region = old(deck).loops@[n - 1].region_spec();
                &&& r == KeyAction::SetLoop(Some(region))
                &&& final(deck).loop_region == Some(region)
                &&& final(deck).active_loop == Some((n - 1) as usize)
                &&& final(deck).pending_loop is None
                &&& final(deck).loops@ == old(deck).loops@
            } else {
                r == KeyAction::Nothing && *final(deck) == *old(deck)
            },
            _ => true,
        },
{
    let at: u64 = if head.position < head.total_frames {
        head.position
    } else {
        head.total_frames
    };
    match press {
        Press::PlayPause => if head.playing {
            KeyAction::Pause
        } else {
            KeyAction::Play
        },
        Press::Back { small } => {
            let step: u64 = head.sample_rate as u64 * if small {
                1
            } else {
                5
            };
            KeyAction::Seek(at.saturating_sub(step))
        },
        Press::Forward { small } => {
            let step: u64 = head.sample_rate as u64 * if small {
                1
            } else {
                5
            };
            let wanted: u64 = at.saturating_add(step);
            KeyAction::Seek(
                if wanted < head.total_frames {
                    wanted
                } else {
                    head.total_frames
                },
            )
        },
        Press::Home => KeyAction::Seek(
            match deck.loop_region {
                Some(l) => l.start,
                None => 0,
            },
        ),
        Press::End => KeyAction::Seek(
            match deck.loop_region {
                Some(l) => l.end.saturating_sub(1),
                None => head.total_frames,
            },
        ),
        Press::Escape => to_action(deck.clear()),
        Press::LoopStart => to_action(deck.apply_endpoint(LoopEndpoint::Start(at))),
        Press::LoopEnd => to_action(deck.apply_endpoint(LoopEndpoint::End(at))),
        Press::AddMarker => {
            let _added: bool = add_marker(markers, at);
            KeyAction::Nothing
        },
        Press::JumpToMarker(n) => seek_to(nth_marker(markers, n)),
        Press::NextMarker => seek_to(next_marker(markers, at)),
        Press::PreviousMarker => seek_to(previous_marker(markers, at, head.sample_rate)),
        Press::ActivateLoop(n) => if n >= 1 {
            to_action(deck.act(LoopsAction::Activate(n - 1)))
        } else {
            KeyAction::Nothing
        },
    }
}

/// `after` and `r` are what one end of a loop makes of `before`.
pub open spec fn endpoint_applied(
    before: LoopDeck,
    new: LoopEndpoint,
    after: LoopDeck,
    r: KeyAction,
) -> bool {
    match crate::ui::loops::ends(before.loop_region, before.pending_loop, new) {
        None => r == KeyAction::Nothing && after == (LoopDeck {
            pending_loop: Some(new),
            ..before
        }),
        Some((a, b)) => match crate::track::region_between(a, b) {
            None => r == KeyAction::Nothing && after == before,
            Some(region) => {
                &&& r == KeyAction::SetLoop(Some(region))
                &&& after.loop_region == Some(region)
                &&& after.pending_loop is None
                &&& after.active_loop == before.active_loop
                &&& after.loops@ == match before.active_loop {
                    Some(i) => before.loops@.update(
                        i as int,
                        crate::ui::loops::moved(before.loops@[i as int], region),
                    ),
                    None => before.loops@,
                }
            },
        },
    }
}

} // verus!
