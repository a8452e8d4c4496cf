//! Turns what the camera sent into a frame.

use vstd::prelude::*;
use vstd::string::*;

use crate::frame::RgbFrame;

verus! {

/// Why there is no frame.
#[derive(Debug, PartialEq, Eq)]
pub enum CaptureError {
    /// The camera did not answer.
    Http(String),
    /// What it sent is no image.
    Decode(String),
}

impl CaptureError {
    /// The message for this error.
    pub open spec fn spec_text(&self) -> Seq<char> {
        match self {
            CaptureError::Http(err) => "HTTP request failed: "@ + err@,
            CaptureError::Decode(err) => "image decode failed: "@ + err@,
        }
    }

    /// The message for this error.
    pub fn text(&self) -> (r: String)
        ensures
            r@ == self.spec_text(),
    {
        match self {
            CaptureError::Http(err) => {
                let mut s: String = String::from_str("HTTP request failed: ");
                s.append(err.as_str());
                s
            },
            CaptureError::Decode(err) => {
                let mut s: String = String::from_str("image decode failed: ");
                s.append(err.as_str());
                s
            },
        }
    }
}

/// The width, height and color bytes of the image in the encoded bytes, or
/// why there is none.
pub uninterp spec fn decoded(bytes: Seq<u8>) -> Result<(u32, u32, Seq<u8>), Seq<char>>;

/// The image in the encoded bytes, by `image::load_from_memory`, in the three
/// bytes per pixel of `to_rgb8`.
///
/// Taken on trust: the answer depends on the bytes alone, and an image has
/// bytes for every pixel.
#[verifier::external_body]
fn load_from_memory(bytes: &Vec<u8>) -> (r: Result<RgbFrame, String>)
    ensures
        match r {
            Ok(frame) => frame.is_whole() && decoded(bytes@) == Ok::<(u32, u32, Seq<u8>), Seq<char>>(
                (frame.width, frame.height, frame.pixels@),
            ),
            Err(err) => decoded(bytes@) == Err::<(u32, u32, Seq<u8>), Seq<char>>(err@),
        },
{
    match image::load_from_memory(bytes) {
        Ok(image) => {
            let rgb = image.to_rgb8();
            Ok(RgbFrame { width: rgb.width(), height: rgb.height(), pixels: rgb.into_raw() })
        },
        Err(err) => Err(format!("{err}")),
    }
}

/// The frame, where decoding succeeded.
pub fn decoded_frame(image: Result<RgbFrame, String>) -> (r: Result<RgbFrame, CaptureError>)
    ensures
        match image {
            Ok(frame) => r == Ok::<RgbFrame, CaptureError>(frame),
            Err(err) => r == Err::<RgbFrame, CaptureError>(CaptureError::Decode(err)),
        },
{
    match image {
        Ok(frame) => Ok(frame),
        Err(err) => Err(CaptureError::Decode(err)),
    }
}

/// The frame in the camera's answer. `answer` is the body of its answer, or
/// why there was none.
pub fn fetch_frame(answer: Result<Vec<u8>, String>) -> (r: Result<RgbFrame, CaptureError>)
    ensures
        match answer {
            Err(err) => r == Err::<RgbFrame, CaptureError>(CaptureError::Http(err)),
            Ok(bytes) => match decoded(bytes@) {
                Ok((width, height, pixels)) => r matches Ok(frame) && frame.is_whole()
                    && frame.width == width && frame.height == height && frame.pixels@ == pixels,
                Err(err) => r matches Err(CaptureError::Decode(text)) && text@ == err,
            },
        },
{
    match answer {
        Err(err) => Err(CaptureError::Http(err)),
        Ok(bytes) => decoded_frame(load_from_memory(&bytes)),
    }
}

} // verus!
