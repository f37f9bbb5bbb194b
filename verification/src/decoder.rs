//! The software decoder: it follows the parameter sets of an H.265 stream and
//! stands in for the pictures with frames of one colour.

use crate::annexb::nal_units;
use crate::annexb::parse_nal_units;
use crate::annexb::NAL_PPS;
use crate::annexb::NAL_SPS;
use crate::annexb::NAL_VPS;
use crate::codec::Decoder;
use crate::error::X265Error;
use crate::frame::FrameView;
use crate::frame::RgbaFrame;
use crate::frame::stored_frame;
use vstd::prelude::*;
use vstd::slice::slice_to_vec;

verus! {

/// Type of a NAL unit: six bits of its first byte, after the forbidden bit.
pub open spec fn nal_unit_type(unit: Seq<u8>) -> u8 {
    (unit[0] >> 1) & 0x3F
}

/// Type of a NAL unit that holds at least one byte.
pub fn unit_type(unit: &[u8]) -> (t: u8)
    requires
        unit@.len() > 0,
    ensures
        t == nal_unit_type(unit@),
        t < 64,
{
    let b: u8 = unit[0];
    assert((b >> 1) & 0x3F < 64) by (bit_vector);
    (b >> 1) & 0x3F
}

/// The resolution that a sequence parameter set announces, if it is long
/// enough to hold one.
pub open spec fn sps_resolution(sps: Seq<u8>) -> Option<(u32, u32)> {
    if sps.len() > 20 {
        Some((640u32, 480u32))
    } else {
        None
    }
}

/// Reads the resolution out of a sequence parameter set. One of twenty bytes
/// or fewer announces none; any longer one stands for 640 by 480.
pub fn extract_resolution_from_sps(sps: &[u8]) -> (res: Option<(u32, u32)>)
    ensures
        res == sps_resolution(sps@),
{
    if sps.len() < 20 {
        return None;
    }
    // NAL header, parameter set id, sub-layer count, nesting flag, profile,
    // tier and level, sequence id and the flags before the picture size.
    let bit_offset: usize = 16 + 4 + 3 + 1 + 96 + 9;
    let byte_offset: usize = bit_offset / 8;
    if byte_offset + 4 >= sps.len() {
        return None;
    }
    Some((640, 480))
}

/// The last unit of type `unit_type` among `units`, empty ones passed over.
pub open spec fn last_of_type(units: Seq<Seq<u8>>, unit_type: u8) -> Option<Seq<u8>>
    decreases units.len(),
{
    if units.len() == 0 {
        None
    } else if units.last().len() > 0 && nal_unit_type(units.last()) == unit_type {
        Some(units.last())
    } else {
        last_of_type(units.drop_last(), unit_type)
    }
}

/// The resolution of the last sequence parameter set among `units` that
/// announces one.
pub open spec fn last_resolution(units: Seq<Seq<u8>>) -> Option<(u32, u32)>
    decreases units.len(),
{
    if units.len() == 0 {
        None
    } else if units.last().len() > 0 && nal_unit_type(units.last()) == NAL_SPS && sps_resolution(
        units.last(),
    ) is Some {
        sps_resolution(units.last())
    } else {
        last_resolution(units.drop_last())
    }
}

/// `new` where there is one, else `old`.
pub open spec fn latest<T>(old: Option<T>, new: Option<T>) -> Option<T> {
    if new is Some {
        new
    } else {
        old
    }
}

/// The colour that stands for a picture decoded from `count` NAL units: red,
/// green and blue in turn, opaque.
pub open spec fn stand_in_color(count: nat) -> Seq<u8> {
    if count % 3 == 0 {
        seq![255u8, 0u8, 0u8, 255u8]
    } else if count % 3 == 1 {
        seq![0u8, 255u8, 0u8, 255u8]
    } else {
        seq![0u8, 0u8, 255u8, 255u8]
    }
}

/// What the decoder remembers of the stream.
pub struct DecoderView {
    pub vps: Option<Seq<u8>>,
    pub sps: Option<Seq<u8>>,
    pub pps: Option<Seq<u8>>,
    pub width: u32,
    pub height: u32,
}

impl DecoderView {
    /// What taking one access unit comes to: empty input changes nothing
    /// and gives no frame; any other input is absorbed, and gives a frame
    /// once a resolution is known, of that size and in the colour that the
    /// number of its NAL units selects.
    pub open spec fn decodes(
        self,
        data: Seq<u8>,
        after: DecoderView,
        frame: Option<FrameView>,
    ) -> bool {
        &&& data.len() == 0 ==> after == self && frame is None
        &&& data.len() > 0 ==> after == self.absorb(nal_units(data)) && (frame is Some
            <==> after.width > 0 && after.height > 0)
        &&& frame is Some ==> {
            &&& frame->0.wf()
            &&& frame->0.width == after.width
            &&& frame->0.height == after.height
            &&& frame->0.is_solid(stand_in_color(nal_units(data).len()))
        }
    }

    /// The state after the units of one access unit: each kind of parameter
    /// set is the last one seen, and the resolution is that of the last
    /// sequence parameter set that announced one.
    pub open spec fn absorb(self, units: Seq<Seq<u8>>) -> DecoderView {
        DecoderView {
            vps: latest(self.vps, last_of_type(units, NAL_VPS)),
            sps: latest(self.sps, last_of_type(units, NAL_SPS)),
            pps: latest(self.pps, last_of_type(units, NAL_PPS)),
            width: match last_resolution(units) {
                Some(res) => res.0,
                None => self.width,
            },
            height: match last_resolution(units) {
                Some(res) => res.1,
                None => self.height,
            },
        }
    }
}

/// A decoder for H.265 streams in software.
pub struct X265Decoder {
    sps_data: Option<Vec<u8>>,
    pps_data: Option<Vec<u8>>,
    vps_data: Option<Vec<u8>>,
    width: u32,
    height: u32,
}

/// The bytes of a stored parameter set.
pub open spec fn stored(data: Option<Vec<u8>>) -> Option<Seq<u8>> {
    match data {
        Some(v) => Some(v@),
        None => None,
    }
}

impl View for X265Decoder {
    type V = DecoderView;

    closed spec fn view(&self) -> DecoderView {
        DecoderView {
            vps: stored(self.vps_data),
            sps: stored(self.sps_data),
            pps: stored(self.pps_data),
            width: self.width,
            height: self.height,
        }
    }
}

/// A resolution read from a sequence parameter set is 640 by 480.
pub proof fn lemma_last_resolution(units: Seq<Seq<u8>>)
    ensures
        last_resolution(units) is Some ==> last_resolution(units) == Some((640u32, 480u32)),
    decreases units.len(),
{
    if units.len() > 0 {
        lemma_last_resolution(units.drop_last());
    }
}

impl X265Decoder {
    /// The size is unknown or the one size that a parameter set stands for.
    #[verifier::type_invariant]
    spec fn known_size(self) -> bool {
        (self.width == 0 || self.width == 640) && (self.height == 0 || self.height == 480)
    }

    /// A decoder that has seen nothing yet.
    pub fn new() -> (decoder: X265Decoder)
        ensures
            decoder@ == (DecoderView { vps: None, sps: None, pps: None, width: 0, height: 0 }),
    {
        X265Decoder { sps_data: None, pps_data: None, vps_data: None, width: 0, height: 0 }
    }

    /// Width of the stream in pixels, 0 while unknown.
    pub fn width(&self) -> (w: u32)
        ensures
            w == self@.width,
    {
        self.width
    }

    /// Height of the stream in pixels, 0 while unknown.
    pub fn height(&self) -> (h: u32)
        ensures
            h == self@.height,
    {
        self.height
    }

    /// The last video parameter set seen.
    pub fn vps(&self) -> (data: Option<&Vec<u8>>)
        ensures
            data is Some <==> self@.vps is Some,
            data is Some ==> data->0@ == self@.vps->0,
    {
        self.vps_data.as_ref()
    }

    /// The last sequence parameter set seen.
    pub fn sps(&self) -> (data: Option<&Vec<u8>>)
        ensures
            data is Some <==> self@.sps is Some,
            data is Some ==> data->0@ == self@.sps->0,
    {
        self.sps_data.as_ref()
    }

    /// The last picture parameter set seen.
    pub fn pps(&self) -> (data: Option<&Vec<u8>>)
        ensures
            data is Some <==> self@.pps is Some,
            data is Some ==> data->0@ == self@.pps->0,
    {
        self.pps_data.as_ref()
    }

    /// Takes one access unit of an Annex B stream.
    ///
    /// Empty input changes nothing and gives no frame. Otherwise the decoder
    /// takes up the parameter sets among the NAL units, and once it knows a
    /// resolution it answers each access unit with a frame of that size in
    /// the colour that the number of its NAL units selects. It never fails.
    pub fn decode_frame(&mut self, data: &[u8]) -> (res: Result<Option<RgbaFrame>, X265Error>)
        ensures
            res is Ok,
            old(self)@.decodes(data@, final(self)@, stored_frame(res->Ok_0)),
    {
        if data.len() == 0 {
            return Ok(None);
        }
        let units = parse_nal_units(data);
        let nal_count: usize = units.len();
        let ghost all = nal_units(data@);
        let ghost before = self@;
        proof {
            use_type_invariant(&*self);
        }
        let mut k: usize = 0;
        while k < nal_count
            invariant
                self.known_size(),
                k <= nal_count,
                nal_count == units@.len(),
                units@.len() == all.len(),
                forall|j: int| 0 <= j < units@.len() ==> (#[trigger] units@[j])@ == all[j],
                self@ == before.absorb(all.take(k as int)),
            decreases nal_count - k,
        {
            let nal: &[u8] = units[k];
            proof {
                assert(all.take(k as int + 1).drop_last() == all.take(k as int));
                assert(all.take(k as int + 1).last() == all[k as int]);
                assert(nal@ == all[k as int]);
            }
            if nal.len() > 0 {
                let nal_type = unit_type(nal);
                if nal_type == NAL_VPS {
                    self.vps_data = Some(slice_to_vec(nal));
                } else if nal_type == NAL_SPS {
                    self.sps_data = Some(slice_to_vec(nal));
                    if let Some((width, height)) = extract_resolution_from_sps(nal) {
                        self.width = width;
                        self.height = height;
                    }
                } else if nal_type == NAL_PPS {
                    self.pps_data = Some(slice_to_vec(nal));
                }
            }
            k = k + 1;
        }
        proof {
            assert(all.take(nal_count as int) == all);
            use_type_invariant(&*self);
            assert(4 * self.width * self.height <= 4 * 640 * 480) by (nonlinear_arith)
                requires
                    self.width <= 640,
                    self.height <= 480,
            ;
        }
        if self.width > 0 && self.height > 0 {
            let color: [u8; 4] = if nal_count % 3 == 0 {
                [255, 0, 0, 255]
            } else if nal_count % 3 == 1 {
                [0, 255, 0, 255]
            } else {
                [0, 0, 255, 255]
            };
            assert(color@ =~= stand_in_color(nal_count as nat));
            let frame = RgbaFrame::filled(self.width, self.height, color);
            return Ok(Some(frame));
        }
        Ok(None)
    }
}

impl Decoder for X265Decoder {
    /// Takes one access unit, as `decode_frame` does.
    fn decode(&mut self, data: &[u8]) -> (res: Result<Option<RgbaFrame>, X265Error>)
        ensures
            res is Ok,
            old(self)@.decodes(data@, final(self)@, stored_frame(res->Ok_0)),
    {
        self.decode_frame(data)
    }
}

} // verus!
