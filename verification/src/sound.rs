//! Requests to the sound mixer.
use crate::common::Pos3;
use vstd::prelude::*;

verus! {

/// The mixer layer a sound belongs to.
#[derive(Debug, Clone, Copy, PartialEq, Eq, Structural)]
pub enum SoundLayer {
    All,
    /// A layer of its own, by its number.
    Layer(u32),
}

/// What a positional sound does to one that already plays in its cell.
#[derive(Debug, Clone, Copy, PartialEq, Eq, Structural)]
pub enum Interrupt {
    Interrupt,
    Skip,
}

/// Names a sound that is moved or stopped later.
#[derive(Debug, Clone, Copy, PartialEq, Eq, Hash, Structural)]
pub struct SndHandle {
    pub id: u64,
}

/// One request. Sounds go by their key in the sound table.
#[allow(inconsistent_fields)]
#[derive(Debug)]
pub enum SndEvent {
    Play { key: String, layer: SoundLayer },
    Add { key: String, pos: Pos3, layer: SoundLayer, ifl: Interrupt },
    PlayAt { key: String, pos: Pos3, layer: SoundLayer, handle: Option<SndHandle> },
    PlayHandle { handle: SndHandle, key: String, pos: Pos3, layer: SoundLayer },
    ChangePos { handle: SndHandle, key: String, pos: Pos3 },
    Stop { handle: SndHandle },
    /// The volume as a single-precision bit pattern.
    MusicVolume(u32),
}

/// A request with its key as characters.
#[allow(inconsistent_fields)]
pub enum SndView {
    Play { key: Seq<char>, layer: SoundLayer },
    Add { key: Seq<char>, pos: Pos3, layer: SoundLayer, ifl: Interrupt },
    PlayAt { key: Seq<char>, pos: Pos3, layer: SoundLayer, handle: Option<SndHandle> },
    PlayHandle { handle: SndHandle, key: Seq<char>, pos: Pos3, layer: SoundLayer },
    ChangePos { handle: SndHandle, key: Seq<char>, pos: Pos3 },
    Stop { handle: SndHandle },
    MusicVolume(u32),
}

impl View for SndEvent {
    type V = SndView;

    open spec fn view(&self) -> SndView {
        match *self {
            SndEvent::Play { key, layer } => SndView::Play { key: key@, layer },
            SndEvent::Add { key, pos, layer, ifl } => SndView::Add { key: key@, pos, layer, ifl },
            SndEvent::PlayAt { key, pos, layer, handle } => SndView::PlayAt {
                key: key@,
                pos,
                layer,
                handle,
            },
            SndEvent::PlayHandle { handle, key, pos, layer } => SndView::PlayHandle {
                handle,
                key: key@,
                pos,
                layer,
            },
            SndEvent::ChangePos { handle, key, pos } => SndView::ChangePos {
                handle,
                key: key@,
                pos,
            },
            SndEvent::Stop { handle } => SndView::Stop { handle },
            SndEvent::MusicVolume(v) => SndView::MusicVolume(v),
        }
    }
}

/// The queue with the keys as characters.
pub open spec fn sound_views(q: Seq<SndEvent>) -> Seq<SndView> {
    Seq::new(q.len(), |i: int| q[i]@)
}

} // verus!
