use vstd::prelude::*;

verus! {

/// Numeric sample encoding of a data plane.
#[derive(Clone, Copy, Debug, PartialEq, Eq, Structural)]
pub enum Encoding {
    /// 32-bit signed integer samples (nullable).
    I32,
    /// 32-bit unsigned integer samples (nullable).
    U32,
    /// 32-bit floating-point samples.
    F32,
    /// 64-bit floating-point samples.
    F64,
}

/// The errors this library reports. All are fatal: no error is retried and
/// no partial output is produced.
#[derive(Clone, Copy, Debug, PartialEq, Eq, Structural)]
pub enum Error {
    /// More than one grayscale-shaped extension in one input container.
    AmbiguousGrayscale,
    /// No grayscale-shaped extension in one input container.
    GrayscaleNotFound,
    /// The four input planes do not share one numeric encoding.
    EncodingMismatch,
    /// The input planes differ in pixel count, or a shape is malformed.
    ShapeMismatch,
    /// The underlying container cannot be opened or written.
    IoFailure,
}

/// Flat, row-major sample buffer of a plane. Integer encodings carry nullable
/// samples: `None` is the explicit "no data" marker, distinct from zero.
/// Floating-point samples are held as their raw bit patterns, which this
/// library moves and lays out but never interprets arithmetically.
pub enum PlaneData {
    I32(Vec<Option<i32>>),
    U32(Vec<Option<u32>>),
    F32(Vec<u32>),
    F64(Vec<u64>),
}

impl PlaneData {
    pub open spec fn spec_encoding(&self) -> Encoding {
        match self {
            PlaneData::I32(_) => Encoding::I32,
            PlaneData::U32(_) => Encoding::U32,
            PlaneData::F32(_) => Encoding::F32,
            PlaneData::F64(_) => Encoding::F64,
        }
    }

    pub open spec fn spec_len(&self) -> nat {
        match self {
            PlaneData::I32(v) => v@.len(),
            PlaneData::U32(v) => v@.len(),
            PlaneData::F32(v) => v@.len(),
            PlaneData::F64(v) => v@.len(),
        }
    }

    /// The encoding tag of this buffer.
    pub fn encoding(&self) -> (e: Encoding)
        ensures
            e == self.spec_encoding(),
    {
        match self {
            PlaneData::I32(_) => Encoding::I32,
            PlaneData::U32(_) => Encoding::U32,
            PlaneData::F32(_) => Encoding::F32,
            PlaneData::F64(_) => Encoding::F64,
        }
    }

    /// Number of samples in this buffer.
    pub fn len(&self) -> (n: usize)
        ensures
            n == self.spec_len(),
    {
        match self {
            PlaneData::I32(v) => v.len(),
            PlaneData::U32(v) => v.len(),
            PlaneData::F32(v) => v.len(),
            PlaneData::F64(v) => v.len(),
        }
    }
}

/// One rectangular grid of numeric samples: an ordered shape plus a flat,
/// row-major sample buffer.
pub struct ImagePlane {
    pub shape: Vec<usize>,
    pub data: PlaneData,
}

impl ImagePlane {
    /// The sample buffer covers exactly the first two shape extents: one
    /// sample per pixel of a `shape[0]` by `shape[1]` grid.
    pub open spec fn wf(&self) -> bool {
        &&& self.shape@.len() >= 2
        &&& self.data.spec_len() == self.shape@[0] * self.shape@[1]
    }
}

/// Flat output buffer of a composite. Unlike the input planes, integer
/// samples are plain here: pixels without a defined color are zero, never
/// a "no data" marker. Floating-point samples are raw bit patterns, as in
/// `PlaneData`.
pub enum CompositeData {
    I32(Vec<i32>),
    U32(Vec<u32>),
    F32(Vec<u32>),
    F64(Vec<u64>),
}

impl CompositeData {
    pub open spec fn spec_len(&self) -> nat {
        match self {
            CompositeData::I32(v) => v@.len(),
            CompositeData::U32(v) => v@.len(),
            CompositeData::F32(v) => v@.len(),
            CompositeData::F64(v) => v@.len(),
        }
    }
}

/// The color composite: three same-length planes (red, green, blue) stored
/// contiguously in planar order, of the same encoding as the inputs.
pub struct Composite {
    pub width: usize,
    pub height: usize,
    pub data: CompositeData,
}

impl Composite {
    pub open spec fn wf(&self) -> bool {
        self.data.spec_len() == 3 * (self.width * self.height)
    }

    /// Packs three planar blocks of `width * height` samples each into a
    /// composite.
    pub fn new(width: usize, height: usize, data: CompositeData) -> (c: Composite)
        requires
            data.spec_len() == 3 * (width * height),
        ensures
            c.wf(),
            c.width == width,
            c.height == height,
            c.data == data,
    {
        Composite { width, height, data }
    }

    /// The shape of the composite: always `[width, height, 3]`.
    pub fn shape(&self) -> (s: Vec<usize>)
        ensures
            s@.len() == 3,
            s@[0] == self.width,
            s@[1] == self.height,
            s@[2] == 3usize,
    {
        let mut s: Vec<usize> = Vec::new();
        s.push(self.width);
        s.push(self.height);
        s.push(3);
        s
    }
}

/// The five path-valued options of the command surface.
pub struct CmdOptions {
    /// input file for luminance channel
    pub lum_file: String,
    /// input file for red channel
    pub red_file: String,
    /// input file for green channel
    pub green_file: String,
    /// input file for blue channel
    pub blue_file: String,
    /// output file
    pub out_file: String,
}

} // verus!
