//! What the publisher decides for each encoded frame: a stream opens with a
//! keyframe, whose bytes describe it to the receivers.

use crate::encoded::EncodedFrame;
use vstd::prelude::*;
use vstd::string::StringExecFns;

verus! {

/// Priority of the video track.
pub const VIDEO_PRIORITY: i8 = 2;

/// The H.265 profile, tier and level that the stream announces: main
/// profile, main tier, level 4.1.
#[derive(Clone, Copy, Debug, PartialEq, Eq)]
pub struct H265Profile {
    pub profile_space: u8,
    pub profile_idc: u8,
    pub profile_compatibility_flags: [u8; 4],
    pub tier_flag: bool,
    pub level_idc: u8,
    pub constraint_flags: [u8; 6],
}

/// What a video track is announced with.
#[derive(Clone, Debug)]
pub struct VideoInfo {
    pub name: String,
    pub priority: i8,
    pub codec: H265Profile,
    pub description: Vec<u8>,
    pub width: u32,
    pub height: u32,
    pub bitrate: u64,
}

/// What to do with an encoded frame.
#[derive(Clone, Debug)]
pub enum PublishAction {
    /// No track yet and no keyframe: the frame is dropped.
    WaitForKeyframe,
    /// No track yet and a keyframe: announce the track, then write the frame.
    CreateTrack(VideoInfo),
    /// The track exists: write the frame.
    Write,
}

/// What the publisher was set up with and whether its track exists.
pub struct PublisherView {
    pub has_track: bool,
    pub width: u32,
    pub height: u32,
    pub bitrate: u32,
}

/// The publisher's bookkeeping. The program holds the session and the track
/// next to it.
pub struct MoqPublisher {
    has_track: bool,
    width: u32,
    height: u32,
    bitrate: u32,
}

impl View for MoqPublisher {
    type V = PublisherView;

    closed spec fn view(&self) -> PublisherView {
        PublisherView {
            has_track: self.has_track,
            width: self.width,
            height: self.height,
            bitrate: self.bitrate,
        }
    }
}

/// The announced profile: main profile, main tier, level 4.1.
pub open spec fn main_profile() -> H265Profile {
    H265Profile {
        profile_space: 0,
        profile_idc: 1,
        profile_compatibility_flags: [0x60u8, 0u8, 0u8, 0u8],
        tier_flag: false,
        level_idc: 123,
        constraint_flags: [0u8, 0u8, 0u8, 0u8, 0u8, 0u8],
    }
}

impl MoqPublisher {
    /// A publisher without a track.
    pub fn new(width: u32, height: u32, bitrate: u32) -> (publisher: MoqPublisher)
        ensures
            publisher@ == (PublisherView { has_track: false, width, height, bitrate }),
    {
        MoqPublisher { has_track: false, width, height, bitrate }
    }

    /// Whether the video track has been announced.
    pub fn has_track(&self) -> (b: bool)
        ensures
            b == self@.has_track,
    {
        self.has_track
    }

    /// Records that the video track has been announced.
    pub fn track_created(&mut self)
        ensures
            final(self)@ == (PublisherView { has_track: true, ..old(self)@ }),
    {
        self.has_track = true;
    }

    /// Decides what becomes of an encoded frame.
    ///
    /// Until the track exists, frames that are no keyframes are dropped. The
    /// first keyframe opens the track: it is announced as track `video` with
    /// the publisher's size and bitrate and the main profile, and the bytes
    /// of the keyframe describe the stream. From then on every frame is
    /// written.
    pub fn publish_frame(&self, frame: &EncodedFrame) -> (action: PublishAction)
        ensures
            self@.has_track ==> action is Write,
            !self@.has_track && !frame.is_keyframe ==> action is WaitForKeyframe,
            !self@.has_track && frame.is_keyframe ==> {
                &&& action is CreateTrack
                &&& action->CreateTrack_0.name@ == "video"@
                &&& action->CreateTrack_0.priority == VIDEO_PRIORITY
                &&& action->CreateTrack_0.codec == main_profile()
                &&& action->CreateTrack_0.description@ == frame.data@
                &&& action->CreateTrack_0.width == self@.width
                &&& action->CreateTrack_0.height == self@.height
                &&& action->CreateTrack_0.bitrate == self@.bitrate
            },
    {
        if self.has_track {
            return PublishAction::Write;
        }
        if !frame.is_keyframe {
            return PublishAction::WaitForKeyframe;
        }
        let mut description: Vec<u8> = Vec::new();
        crate::bytes::append(&mut description, frame.data.as_slice());
        let codec = H265Profile {
            profile_space: 0,
            profile_idc: 1,
            profile_compatibility_flags: [0x60, 0, 0, 0],
            tier_flag: false,
            level_idc: 123,
            constraint_flags: [0, 0, 0, 0, 0, 0],
        };
        PublishAction::CreateTrack(
            VideoInfo {
                name: String::from_str("video"),
                priority: VIDEO_PRIORITY,
                codec,
                description,
                width: self.width,
                height: self.height,
                bitrate: self.bitrate as u64,
            },
        )
    }
}

} // verus!
