//! The pipeline orchestrator: one job from raw bytes to encoded bytes.
//!
//! A job decodes the input, corrects its orientation, sorts the pixels
//! and re-encodes the grid as JPEG, in that strict order, with a status
//! event announced for each stage and exactly one terminal result. The
//! orchestrator runs one job at a time to completion: events of
//! distinct jobs can never interleave. There is no retry and no partial
//! success: a job yields a complete encoded image or an error.

use vstd::prelude::*;

use crate::codec::{
    decode_image, decoded_rgba, encode_image, exif_orientation, get_orientation, jpeg_bytes,
    orientation_filter, pixels_of_rgba, rgba_of_pixels, PixelSortError,
};
use crate::grid::{
    apply_orientation, orient_spec, oriented_height, oriented_width, sort_img, sorted_pixels_spec,
};
use crate::settings::SortSettings;

verus! {

/// One job request: the encoded image bytes and the sort parameters.
#[derive(Debug, PartialEq, Eq)]
pub struct WorkerInput {
    pub img_data: Vec<u8>,
    pub settings: SortSettings,
}

/// The stage a job has reached, announced before the stage's work.
#[derive(Clone, Copy, Debug, PartialEq, Eq, Structural)]
pub enum WorkerStatus {
    Decoding,
    Sorting,
    Masking,
    Encoding,
}

/// One message of a job's response stream: a progress report, or the
/// final encoded bytes.
#[derive(Debug, PartialEq, Eq)]
pub enum WorkerOutput {
    StatusUpdate(WorkerStatus),
    Sorted(Vec<u8>),
}

/// The outcome of one job on given bytes and settings: the encoded
/// bytes of the sorted image, a `DecodeError` when the bytes are not a
/// valid image, or an `EncodeError` when the encoder fails internally.
pub open spec fn job_result(data: Seq<u8>, s: SortSettings) -> Result<Seq<u8>, PixelSortError> {
    match decoded_rgba(data) {
        None => Err(PixelSortError::DecodeError),
        Some((w0, h0, raw)) => {
            let code = orientation_filter(exif_orientation(data));
            let w = oriented_width(w0 as int, h0 as int, code);
            let h = oriented_height(w0 as int, h0 as int, code);
            let ps = orient_spec(w0 as int, h0 as int, pixels_of_rgba(raw), code);
            let sorted = sorted_pixels_spec(w, h, ps, s);
            match jpeg_bytes(w as u32, h as u32, rgba_of_pixels(sorted)) {
                Some(bytes) => Ok(bytes),
                None => Err(PixelSortError::EncodeError),
            }
        },
    }
}

/// Run one job to completion. On success the response stream is
/// exactly `StatusUpdate(Decoding)`, `StatusUpdate(Sorting)`,
/// `StatusUpdate(Encoding)`, then `Sorted(bytes)`, in that order. A
/// fatal decode or encode failure aborts the job: no `Sorted` event is
/// produced and the error is surfaced distinctly instead.
pub fn run_job(input: &WorkerInput) -> (r: Result<Vec<WorkerOutput>, PixelSortError>)
    requires
        input.settings.wf(),
    ensures
        r is Ok <==> job_result(input.img_data@, input.settings) is Ok,
        r matches Err(e) ==> job_result(input.img_data@, input.settings) == Err::<
            Seq<u8>,
            PixelSortError,
        >(e),
        r matches Ok(events) ==> {
            &&& events@.len() == 4
            &&& events@[0] == WorkerOutput::StatusUpdate(WorkerStatus::Decoding)
            &&& events@[1] == WorkerOutput::StatusUpdate(WorkerStatus::Sorting)
            &&& events@[2] == WorkerOutput::StatusUpdate(WorkerStatus::Encoding)
            &&& events@[3] matches WorkerOutput::Sorted(bytes) && bytes@ == job_result(
                input.img_data@,
                input.settings,
            ).unwrap()
        },
{
    let mut events: Vec<WorkerOutput> = Vec::new();
    events.push(WorkerOutput::StatusUpdate(WorkerStatus::Decoding));
    let decoded = match decode_image(&input.img_data) {
        Ok(g) => g,
        Err(e) => {
            return Err(e);
        },
    };
    let orientation = get_orientation(&input.img_data);
    let corrected = apply_orientation(&decoded, orientation);
    events.push(WorkerOutput::StatusUpdate(WorkerStatus::Sorting));
    let sorted = sort_img(&corrected, &input.settings);
    events.push(WorkerOutput::StatusUpdate(WorkerStatus::Encoding));
    let bytes = match encode_image(&sorted) {
        Ok(b) => b,
        Err(e) => {
            return Err(e);
        },
    };
    events.push(WorkerOutput::Sorted(bytes));
    Ok(events)
}

} // verus!
