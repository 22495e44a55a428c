//! Frames in the pixel formats that cameras and virtual cameras exchange.

use vstd::prelude::*;

use crate::color::Yuv;
use crate::error::{check_len, CoreError};

verus! {

/// The dimensions of a frame.
#[verifier::ext_equal]
pub struct Dims {
    pub width: int,
    pub height: int,
}

impl Dims {
    /// Both dimensions are even and not zero.
    pub open spec fn valid(self) -> bool {
        &&& 0 < self.width <= u32::MAX
        &&& 0 < self.height <= u32::MAX
        &&& self.width % 2 == 0
        &&& self.height % 2 == 0
    }

    /// The number of pixels.
    pub open spec fn area(self) -> int {
        self.width * self.height
    }

    pub open spec fn chroma_width(self) -> int {
        self.width / 2
    }

    pub open spec fn chroma_height(self) -> int {
        self.height / 2
    }

    /// The number of chroma samples, each a pair of bytes.
    pub open spec fn chroma_area(self) -> int {
        self.chroma_width() * self.chroma_height()
    }

    pub open spec fn swapped(self) -> Dims {
        Dims { width: self.height, height: self.width }
    }

    /// A buffer of this many pixels, each of `bytes` bytes, can be addressed.
    pub open spec fn addressable(self, bytes: int) -> bool {
        self.area() * bytes <= usize::MAX
    }
}

/// The chroma plane of a frame is half as large as its luma plane.
pub proof fn lemma_chroma_is_half(size: Dims)
    requires
        size.valid(),
    ensures
        size.chroma_area() * 4 == size.area(),
        0 < size.chroma_area(),
        0 < size.area(),
{
    let w = size.chroma_width();
    let h = size.chroma_height();
    assert(size.width == 2 * w && size.height == 2 * h);
    assert((2 * w) * (2 * h) == 4 * (w * h) && 0 < w * h) by (nonlinear_arith)
        requires
            0 < w,
            0 < h,
    ;
}

/// Swapping the dimensions keeps the number of pixels.
pub proof fn lemma_swapped_area(size: Dims)
    ensures
        size.swapped().area() == size.area(),
        size.swapped().chroma_area() == size.chroma_area(),
        size.swapped().swapped() == size,
        size.valid() ==> size.swapped().valid(),
{
    assert(size.height * size.width == size.width * size.height) by (nonlinear_arith);
    let w = size.chroma_width();
    let h = size.chroma_height();
    assert(w * h == h * w) by (nonlinear_arith);
}

#[derive(Clone, Copy, Debug, PartialEq, Eq, Hash, Structural)]
pub struct FrameSize {
    width: u32,
    height: u32,
}

impl View for FrameSize {
    type V = Dims;

    closed spec fn view(&self) -> Dims {
        Dims { width: self.width as int, height: self.height as int }
    }
}

impl FrameSize {
    #[verifier::type_invariant]
    spec fn even_and_not_zero(self) -> bool {
        self@.valid()
    }

    /// A size is known by its dimensions.
    pub proof fn lemma_known_by_view(self, other: FrameSize)
        ensures
            self == other <==> self@ == other@,
    {
    }

    pub fn new(width: u32, height: u32) -> (result: Result<Self, CoreError>)
        ensures
            ({
                let size = Dims { width: width as int, height: height as int };
                match result {
                    Ok(made) => size.valid() && made@ == size,
                    Err(error) => !size.valid() && error == (CoreError::InvalidFrameSize {
                        width,
                        height,
                    }),
                }
            }),
    {
        if width == 0 || height == 0 || width % 2 != 0 || height % 2 != 0 {
            return Err(CoreError::InvalidFrameSize { width, height });
        }
        Ok(FrameSize { width, height })
    }

    pub fn width(self) -> (width: u32)
        ensures
            width == self@.width,
            self@.valid(),
    {
        proof {
            use_type_invariant(&self);
        }
        self.width
    }

    pub fn height(self) -> (height: u32)
        ensures
            height == self@.height,
            self@.valid(),
    {
        proof {
            use_type_invariant(&self);
        }
        self.height
    }

    pub fn chroma_width(self) -> (width: u32)
        ensures
            width == self@.chroma_width(),
            self@.valid(),
    {
        proof {
            use_type_invariant(&self);
        }
        self.width / 2
    }

    pub fn chroma_height(self) -> (height: u32)
        ensures
            height == self@.chroma_height(),
            self@.valid(),
    {
        proof {
            use_type_invariant(&self);
        }
        self.height / 2
    }

    /// The number of bytes of a luma plane.
    pub fn luma_len(self) -> (len: usize)
        requires
            self@.addressable(1),
        ensures
            len == self@.area(),
            self@.valid(),
    {
        proof {
            use_type_invariant(&self);
        }
        self.width as usize * self.height as usize
    }

    /// The number of bytes of a chroma plane.
    pub fn chroma_len(self) -> (len: usize)
        requires
            self@.addressable(1),
        ensures
            len == self@.chroma_area() * 2,
            len * 2 == self@.area(),
            self@.valid(),
    {
        proof {
            use_type_invariant(&self);
            lemma_chroma_is_half(self@);
        }
        self.chroma_width() as usize * self.chroma_height() as usize * 2
    }

    pub fn swapped(self) -> (size: Self)
        ensures
            size@ == self@.swapped(),
    {
        proof {
            use_type_invariant(&self);
        }
        FrameSize { width: self.height, height: self.width }
    }

    /// Accepts a frame of this size.
    pub fn ensure_eq(self, actual: FrameSize) -> (result: Result<(), CoreError>)
        ensures
            result == size_check(self@, actual@),
            self@.valid(),
    {
        proof {
            use_type_invariant(&self);
        }
        if self.width == actual.width && self.height == actual.height {
            return Ok(());
        }
        Err(
            CoreError::FrameSizeMismatch {
                expected_width: self.width,
                expected_height: self.height,
                actual_width: actual.width,
                actual_height: actual.height,
            },
        )
    }
}

/// What comparing an expected size with an actual one gives.
pub open spec fn size_check(expected: Dims, actual: Dims) -> Result<(), CoreError> {
    if expected == actual {
        Ok(())
    } else {
        Err(
            CoreError::FrameSizeMismatch {
                expected_width: expected.width as u32,
                expected_height: expected.height as u32,
                actual_width: actual.width as u32,
                actual_height: actual.height as u32,
            },
        )
    }
}

/// A frame with a luma byte for each pixel and a pair of chroma bytes for each
/// square of four.
#[verifier::ext_equal]
pub struct Nv12 {
    pub size: Dims,
    pub luma: Seq<u8>,
    pub chroma: Seq<u8>,
}

impl Nv12 {
    pub open spec fn valid(self) -> bool {
        &&& self.size.valid()
        &&& self.size.addressable(1)
        &&& self.luma.len() == self.size.area()
        &&& self.chroma.len() == self.size.chroma_area() * 2
    }

    /// The frame of one colour.
    pub open spec fn uniform(size: Dims, color: Yuv) -> Nv12 {
        Nv12 {
            size,
            luma: Seq::new(size.area() as nat, |i: int| color.y),
            chroma: Seq::new(
                (size.chroma_area() * 2) as nat,
                |i: int|
                    if i % 2 == 0 {
                        color.u
                    } else {
                        color.v
                    },
            ),
        }
    }
}

#[derive(Debug, PartialEq, Eq)]
pub struct Nv12Frame {
    size: FrameSize,
    luma: Vec<u8>,
    chroma: Vec<u8>,
}

impl View for Nv12Frame {
    type V = Nv12;

    closed spec fn view(&self) -> Nv12 {
        Nv12 { size: self.size@, luma: self.luma@, chroma: self.chroma@ }
    }
}

impl Clone for Nv12Frame {
    fn clone(&self) -> (frame: Self)
        ensures
            frame@ == self@,
    {
        let luma = copied(self.luma.as_slice());
        let chroma = copied(self.chroma.as_slice());
        Nv12Frame { size: self.size, luma, chroma }
    }
}

impl Nv12Frame {
    /// The planes have the lengths that the size asks for.
    pub open spec fn wf(&self) -> bool {
        self@.valid()
    }

    /// A black frame.
    pub fn new(size: FrameSize) -> (frame: Self)
        requires
            size@.addressable(1),
        ensures
            frame.wf(),
            frame@ == Nv12::uniform(size@, crate::color::yuv_black()),
    {
        Self::filled(size, Yuv::black())
    }

    /// A frame of one colour.
    pub fn filled(size: FrameSize, color: Yuv) -> (frame: Self)
        requires
            size@.addressable(1),
        ensures
            frame.wf(),
            frame@ == Nv12::uniform(size@, color),
    {
        let mut frame = Nv12Frame {
            size,
            luma: vec![0; size.luma_len()],
            chroma: vec![0; size.chroma_len()],
        };
        frame.fill(color);
        frame
    }

    pub fn from_planes(size: FrameSize, luma: Vec<u8>, chroma: Vec<u8>) -> (result: Result<
        Self,
        CoreError,
    >)
        requires
            size@.addressable(1),
        ensures
            match result {
                Ok(frame) => frame.wf() && frame@ == (Nv12 {
                    size: size@,
                    luma: luma@,
                    chroma: chroma@,
                }),
                Err(error) => if luma@.len() != size@.area() {
                    error == (CoreError::PlaneSizeMismatch {
                        expected: size@.area() as usize,
                        actual: luma@.len() as usize,
                    })
                } else {
                    &&& chroma@.len() != size@.chroma_area() * 2
                    &&& error == (CoreError::PlaneSizeMismatch {
                        expected: (size@.chroma_area() * 2) as usize,
                        actual: chroma@.len() as usize,
                    })
                },
            },
    {
        match check_len(size.luma_len(), luma.len()) {
            Ok(()) => {},
            Err(error) => return Err(error),
        }
        match check_len(size.chroma_len(), chroma.len()) {
            Ok(()) => {},
            Err(error) => return Err(error),
        }
        Ok(Nv12Frame { size, luma, chroma })
    }

    pub fn size(&self) -> (size: FrameSize)
        ensures
            size@ == self@.size,
    {
        self.size
    }

    pub fn luma(&self) -> (luma: &[u8])
        ensures
            luma@ == self@.luma,
    {
        self.luma.as_slice()
    }

    pub fn chroma(&self) -> (chroma: &[u8])
        ensures
            chroma@ == self@.chroma,
    {
        self.chroma.as_slice()
    }

    /// Both planes, to be written.
    pub fn planes_mut(&mut self) -> (planes: (&mut [u8], &mut [u8]))
        ensures
            planes.0@ == old(self)@.luma,
            planes.1@ == old(self)@.chroma,
            final(self)@ == (Nv12 {
                size: old(self)@.size,
                luma: final(planes.0)@,
                chroma: final(planes.1)@,
            }),
    {
        (self.luma.as_mut_slice(), self.chroma.as_mut_slice())
    }

    pub fn fill(&mut self, color: Yuv)
        requires
            old(self).wf(),
        ensures
            final(self).wf(),
            final(self)@ == Nv12::uniform(old(self)@.size, color),
    {
        let (luma, chroma) = self.planes_mut();
        let mut i: usize = 0;
        while i < luma.len()
            invariant
                i <= luma@.len(),
                luma@.len() == old(self)@.luma.len(),
                forall|j: int| 0 <= j < i ==> luma@[j] == color.y,
            decreases luma@.len() - i,
        {
            luma[i] = color.y;
            i = i + 1;
        }
        let mut k: usize = 0;
        while k < chroma.len()
            invariant
                k <= chroma@.len(),
                chroma@.len() == old(self)@.chroma.len(),
                forall|j: int|
                    0 <= j < k ==> chroma@[j] == if j % 2 == 0 {
                        color.u
                    } else {
                        color.v
                    },
            decreases chroma@.len() - k,
        {
            chroma[k] = if k % 2 == 0 {
                color.u
            } else {
                color.v
            };
            k = k + 1;
        }
        proof {
            assert(luma@ =~= Nv12::uniform(old(self)@.size, color).luma);
            assert(chroma@ =~= Nv12::uniform(old(self)@.size, color).chroma);
        }
    }

    /// Takes over the pixels of a frame of the same size.
    pub fn copy_from(&mut self, source: &Nv12Frame) -> (result: Result<(), CoreError>)
        requires
            old(self).wf(),
            source.wf(),
        ensures
            result == size_check(old(self)@.size, source@.size),
            final(self)@ == if result is Ok {
                source@
            } else {
                old(self)@
            },
    {
        match self.size.ensure_eq(source.size) {
            Ok(()) => {},
            Err(error) => return Err(error),
        }
        self.luma = copied(source.luma.as_slice());
        self.chroma = copied(source.chroma.as_slice());
        Ok(())
    }
}

/// A vector of the same bytes.
pub fn copied(bytes: &[u8]) -> (copy: Vec<u8>)
    ensures
        copy@ == bytes@,
{
    let mut copy: Vec<u8> = Vec::with_capacity(bytes.len());
    copy.extend_from_slice(bytes);
    proof {
        assert(copy@ =~= bytes@);
    }
    copy
}

/// Writes bytes over a buffer of the same length.
pub fn copy_bytes(source: &[u8], target: &mut [u8])
    requires
        source@.len() == old(target)@.len(),
    ensures
        final(target)@ == source@,
{
    let mut i: usize = 0;
    while i < source.len()
        invariant
            i <= source@.len(),
            target@.len() == source@.len(),
            forall|j: int| 0 <= j < i ==> target@[j] == source@[j],
        decreases source@.len() - i,
    {
        target[i] = source[i];
        i = i + 1;
    }
    proof {
        assert(target@ =~= source@);
    }
}

/// A frame of four bytes for each pixel: blue, green, red and alpha.
#[verifier::ext_equal]
pub struct Bgra {
    pub size: Dims,
    pub data: Seq<u8>,
}

impl Bgra {
    pub open spec fn valid(self) -> bool {
        &&& self.size.valid()
        &&& self.size.addressable(4)
        &&& self.data.len() == self.size.area() * 4
    }
}

#[derive(Debug, PartialEq, Eq)]
pub struct BgraFrame {
    size: FrameSize,
    data: Vec<u8>,
}

impl View for BgraFrame {
    type V = Bgra;

    closed spec fn view(&self) -> Bgra {
        Bgra { size: self.size@, data: self.data@ }
    }
}

impl Clone for BgraFrame {
    fn clone(&self) -> (frame: Self)
        ensures
            frame@ == self@,
    {
        BgraFrame { size: self.size, data: copied(self.data.as_slice()) }
    }
}

impl BgraFrame {
    pub open spec fn wf(&self) -> bool {
        self@.valid()
    }

    /// A transparent black frame.
    pub fn new(size: FrameSize) -> (frame: Self)
        requires
            size@.addressable(4),
        ensures
            frame.wf(),
            frame@ == (Bgra {
                size: size@,
                data: Seq::new((size@.area() * 4) as nat, |i: int| 0u8),
            }),
    {
        let frame = BgraFrame { size, data: vec![0; size.luma_len() * 4] };
        proof {
            assert(frame.data@ =~= Seq::new((size@.area() * 4) as nat, |i: int| 0u8));
        }
        frame
    }

    pub fn from_data(size: FrameSize, data: Vec<u8>) -> (result: Result<Self, CoreError>)
        requires
            size@.addressable(4),
        ensures
            match result {
                Ok(frame) => frame.wf() && frame@ == (Bgra { size: size@, data: data@ }),
                Err(error) => data@.len() != size@.area() * 4 && error == (
                CoreError::PlaneSizeMismatch {
                    expected: (size@.area() * 4) as usize,
                    actual: data@.len() as usize,
                }),
            },
    {
        match check_len(size.luma_len() * 4, data.len()) {
            Ok(()) => Ok(BgraFrame { size, data }),
            Err(error) => Err(error),
        }
    }

    pub fn size(&self) -> (size: FrameSize)
        ensures
            size@ == self@.size,
    {
        self.size
    }

    pub fn data(&self) -> (data: &[u8])
        ensures
            data@ == self@.data,
    {
        self.data.as_slice()
    }

    pub fn data_mut(&mut self) -> (data: &mut [u8])
        ensures
            data@ == old(self)@.data,
            final(self)@ == (Bgra { size: old(self)@.size, data: final(data)@ }),
    {
        self.data.as_mut_slice()
    }
}

/// A byte of opacity for each cell of a grid.
#[verifier::ext_equal]
pub struct Coverage {
    pub width: int,
    pub height: int,
    pub data: Seq<u8>,
}

impl Coverage {
    pub open spec fn valid(self) -> bool {
        &&& 0 <= self.width <= u32::MAX
        &&& 0 <= self.height <= u32::MAX
        &&& self.width * self.height <= usize::MAX
        &&& self.data.len() == self.width * self.height
    }
}

#[derive(Debug, PartialEq, Eq)]
pub struct Mask {
    width: u32,
    height: u32,
    data: Vec<u8>,
}

impl View for Mask {
    type V = Coverage;

    closed spec fn view(&self) -> Coverage {
        Coverage { width: self.width as int, height: self.height as int, data: self.data@ }
    }
}

impl Clone for Mask {
    fn clone(&self) -> (mask: Self)
        ensures
            mask@ == self@,
    {
        Mask { width: self.width, height: self.height, data: copied(self.data.as_slice()) }
    }
}

impl Mask {
    pub open spec fn wf(&self) -> bool {
        self@.valid()
    }

    /// A mask that covers nothing.
    pub fn new(width: u32, height: u32) -> (mask: Self)
        requires
            width * height <= usize::MAX,
        ensures
            mask.wf(),
            mask@ == (Coverage {
                width: width as int,
                height: height as int,
                data: Seq::new((width * height) as nat, |i: int| 0u8),
            }),
    {
        proof {
            crate::arith::lemma_product_nonnegative(width as int, height as int);
        }
        let mask = Mask { width, height, data: vec![0; width as usize * height as usize] };
        proof {
            assert(mask.data@ =~= Seq::new((width * height) as nat, |i: int| 0u8));
        }
        mask
    }

    pub fn from_data(width: u32, height: u32, data: Vec<u8>) -> (result: Result<Self, CoreError>)
        requires
            width * height <= usize::MAX,
        ensures
            match result {
                Ok(mask) => mask.wf() && mask@ == (Coverage {
                    width: width as int,
                    height: height as int,
                    data: data@,
                }),
                Err(error) => data@.len() != width * height && error == (
                CoreError::PlaneSizeMismatch {
                    expected: (width * height) as usize,
                    actual: data@.len() as usize,
                }),
            },
    {
        proof {
            crate::arith::lemma_product_nonnegative(width as int, height as int);
        }
        match check_len(width as usize * height as usize, data.len()) {
            Ok(()) => Ok(Mask { width, height, data }),
            Err(error) => Err(error),
        }
    }

    pub fn width(&self) -> (width: u32)
        ensures
            width == self@.width,
    {
        self.width
    }

    pub fn height(&self) -> (height: u32)
        ensures
            height == self@.height,
    {
        self.height
    }

    pub fn data(&self) -> (data: &[u8])
        ensures
            data@ == self@.data,
    {
        self.data.as_slice()
    }

    pub fn data_mut(&mut self) -> (data: &mut [u8])
        ensures
            data@ == old(self)@.data,
            final(self)@ == (Coverage {
                width: old(self)@.width,
                height: old(self)@.height,
                data: final(data)@,
            }),
    {
        self.data.as_mut_slice()
    }
}

} // verus!
