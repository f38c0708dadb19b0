//! Document format records: frame, clip and history records, document
//! metadata, the format's error type, and the sparse-cel document format.
use vstd::prelude::*;
use std::collections::HashMap;
use crate::sprite::ColorMode;

pub mod io;

verus! {

/// A stored document's metadata: format version, name, layer definitions,
/// clips, frames and the recent history (cel pixels are stored apart).
#[derive(Clone, Debug)]
pub struct nQDocumentFormat {
    pub version: u32,
    pub name: String,
    pub layers: Vec<nQLayerDef>,
    pub clips: Vec<nQAnimationClipData>,
    pub frames: Vec<nQFrameData>,
    pub history: Vec<nQCommandRecord>,
}

impl nQDocumentFormat {
    /// An empty document of the current version.
    pub fn new(name: &str) -> (f: nQDocumentFormat)
        ensures
            f.version == FORMAT_VERSION,
            f.name@ == name@,
            f.layers@.len() == 0,
            f.clips@.len() == 0,
            f.frames@.len() == 0,
            f.history@.len() == 0,
    {
        nQDocumentFormat {
            version: FORMAT_VERSION,
            name: String::from_str(name),
            layers: Vec::new(),
            clips: Vec::new(),
            frames: Vec::new(),
            history: Vec::new(),
        }
    }
}

/// A layer definition as stored: id, name, opacity (as the encoding of an
/// `f32`) and blend mode name (`Normal`, `Add`, `Multiply`, `Screen`).
#[derive(Clone, Debug)]
pub struct nQLayerDef {
    pub id: u32,
    pub name: String,
    pub default_opacity_bits: u32,
    pub default_blend_mode: String,
}

/// An animation clip: its name, frames and whether it loops.
#[derive(Clone, Debug)]
pub struct nQAnimationClipData {
    pub name: String,
    pub frames: Vec<nQFrameData>,
    pub looping: bool,
}

/// Frame metadata: number, duration, and the cel file of each layer
/// (layer id to file name).
#[derive(Clone, Debug)]
pub struct nQFrameData {
    pub frame_num: u32,
    pub duration_ms: u32,
    pub cels: HashMap<u32, String>,
}

/// Frame statistics.
#[derive(Clone, Debug)]
pub struct nQFrameMetadata {
    pub frame_num: u32,
    pub duration_ms: u32,
    pub layer_count: usize,
    pub total_pixels: u64,
}

/// One edit command of the history, as stored.
#[derive(Clone, Debug)]
pub struct nQCommandRecord {
    pub timestamp: u64,
    pub command_type: String,
    pub description: String,
}

/// Why a document could not be read or written.
#[derive(Clone, Debug)]
pub enum nQFormatError {
    InvalidVersion,
    MissingLayers,
    MissingClips,
    CorruptedMetadata(String),
    IOError(String),
}

/// The message of an error.
pub open spec fn format_error_message(e: nQFormatError) -> Seq<char> {
    match e {
        nQFormatError::InvalidVersion => "Unsupported file version"@,
        nQFormatError::MissingLayers => "No layers defined"@,
        nQFormatError::MissingClips => "No animation clips"@,
        nQFormatError::CorruptedMetadata(m) => "Corrupted metadata: "@ + m@,
        nQFormatError::IOError(m) => "IO error: "@ + m@,
    }
}

impl nQFormatError {
    /// The error's message.
    pub fn message(&self) -> (s: String)
        ensures
            s@ == format_error_message(*self),
    {
        match self {
            nQFormatError::InvalidVersion => String::from_str("Unsupported file version"),
            nQFormatError::MissingLayers => String::from_str("No layers defined"),
            nQFormatError::MissingClips => String::from_str("No animation clips"),
            nQFormatError::CorruptedMetadata(m) => {
                let mut s = String::from_str("Corrupted metadata: ");
                s.append(m.as_str());
                s
            },
            nQFormatError::IOError(m) => {
                let mut s = String::from_str("IO error: ");
                s.append(m.as_str());
                s
            },
        }
    }
}

/// The only document format version that can be read.
pub const FORMAT_VERSION: u32 = 1;

/// Accept a stored document of the supported version; any other version is
/// `InvalidVersion`.
pub fn check_version(version: u32) -> (r: Result<(), nQFormatError>)
    ensures
        r is Ok <==> version == FORMAT_VERSION,
        r is Err ==> r == Err::<(), nQFormatError>(nQFormatError::InvalidVersion),
{
    if version != FORMAT_VERSION {
        return Err(nQFormatError::InvalidVersion);
    }
    Ok(())
}

/// Document metadata.
#[derive(Clone, Debug)]
pub struct DocumentMetadata {
    pub name: String,
    pub width: u32,
    pub height: u32,
    pub frame_count: u32,
    pub version: u32,
}

/// An animation clip: its frame numbers, whether it loops, and the duration
/// of each frame (frame number to milliseconds).
#[derive(Clone, Debug)]
pub struct AnimationClipFormat {
    pub name: String,
    pub frame_numbers: Vec<u32>,
    pub looping: bool,
    pub frame_durations: HashMap<u32, u32>,
}

/// Version of the sparse-cel document format.
pub const SPARSE_FORMAT_VERSION: u32 = 2;

/// A layer definition of the sparse-cel format: its default opacity (an
/// `f32` encoding) and the name of its default blend mode.
#[derive(Clone, Debug)]
pub struct LayerDef {
    pub id: u32,
    pub name: String,
    pub default_opacity_bits: u32,
    pub default_blend_mode: String,
}

/// One stored cel with its pixels and the overrides it makes in its frame
/// (an opacity as an `f32` encoding, a blend mode by name).
#[derive(Clone, Debug)]
pub struct CelData {
    pub layer_id: u32,
    pub frame_num: u32,
    pub pixels: Vec<u8>,
    pub width: u32,
    pub height: u32,
    pub color_mode: ColorMode,
    pub visible: bool,
    pub opacity_override_bits: Option<u32>,
    pub blend_override: Option<String>,
}

/// A document in the sparse-cel format: only the cels that exist are
/// stored.
#[derive(Clone, Debug)]
pub struct DocumentFormat {
    pub metadata: DocumentMetadata,
    pub layers: Vec<LayerDef>,
    pub clips: Vec<AnimationClipFormat>,
    pub cel_data: Vec<CelData>,
}

impl DocumentFormat {
    /// An empty document of the given name and sprite size: no frames,
    /// layers, clips or cels, format version 2.
    pub fn new(name: &str, width: u32, height: u32) -> (f: DocumentFormat)
        ensures
            f.metadata.name@ == name@,
            f.metadata.width == width,
            f.metadata.height == height,
            f.metadata.frame_count == 0,
            f.metadata.version == SPARSE_FORMAT_VERSION,
            f.layers@.len() == 0,
            f.clips@.len() == 0,
            f.cel_data@.len() == 0,
    {
        DocumentFormat {
            metadata: DocumentMetadata {
                name: String::from_str(name),
                width,
                height,
                frame_count: 0,
                version: SPARSE_FORMAT_VERSION,
            },
            layers: Vec::new(),
            clips: Vec::new(),
            cel_data: Vec::new(),
        }
    }
}

} // verus!
