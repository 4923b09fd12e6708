//! Getting the content of a cursor element into a buffer that a cursor plane can show.

use vstd::prelude::*;
use crate::buffer::{FramebufferInfo, UnderlyingStorage};
use crate::element::ElementInfo;
use crate::float::F64;
use crate::fourcc::{argb8888, argb8888_code, linear_layout, linear_modifier};
use crate::geometry::{Size, Transform};

verus! {

// ---------------------------------------------------------------------------------------------
// Copying
// ---------------------------------------------------------------------------------------------

/// Whether a side of the buffer is shown at its own length. That is so exactly when the quotient
/// of the two lengths is one.
pub open spec fn unscaled(src: F64, len: i32) -> bool {
    len != 0 && src.same_spec(F64::from_i32_spec(len))
}

fn is_unscaled(src: F64, len: i32) -> (r: bool)
    ensures
        r == unscaled(src, len),
{
    len != 0 && src.same(F64::from_i32(len))
}

/// Whether the content can be copied as it is: without crop, scale or transform.
pub open spec fn copyable_spec(
    element: ElementInfo,
    element_size: Size,
    output_transform: Transform,
) -> bool {
    &&& element.storage.is_some()
    &&& element.src.x.same_spec(F64 { bits: 0 })
    &&& element.src.y.same_spec(F64 { bits: 0 })
    &&& unscaled(element.src.w, element_size.w)
    &&& unscaled(element.src.h, element_size.h)
    &&& element.transform == Transform::Normal
    &&& output_transform == Transform::Normal
}

pub fn copyable(element: &ElementInfo, element_size: Size, output_transform: Transform) -> (r: bool)
    ensures
        r == copyable_spec(*element, element_size, output_transform),
{
    element.storage.is_some() && element.src.x.same(F64::zero()) && element.src.y.same(F64::zero())
        && is_unscaled(element.src.w, element_size.w) && is_unscaled(element.src.h, element_size.h)
        && element.transform == Transform::Normal && output_transform == Transform::Normal
}

/// The pixels of a storage.
#[derive(Clone, Copy, Debug, PartialEq, Eq, Structural)]
pub struct PixelSource {
    /// The format, where it has a code.
    pub format: Option<u32>,
    /// Where the pixels begin.
    pub offset: usize,
    /// The bytes from one row to the next.
    pub stride: u32,
    pub rows: u32,
    /// The number of bytes there are.
    pub len: usize,
}

/// Which bytes are to be copied, and how.
#[derive(Clone, Copy, Debug, PartialEq, Eq, Structural)]
pub enum CopyPlan {
    /// All of them at once.
    Whole { offset: usize, len: usize },
    /// Row by row.
    Rows { offset: usize, stride: u32, rows: u32 },
}

pub open spec fn copy_plan_spec(
    source: PixelSource,
    target_format: u32,
    target_stride: u32,
) -> Option<CopyPlan> {
    if source.format != Some(target_format) {
        None
    } else if source.offset + source.stride * source.rows > source.len {
        None
    } else if source.stride == target_stride {
        Some(
            CopyPlan::Whole {
                offset: source.offset,
                len: (source.stride * source.rows) as usize,
            },
        )
    } else {
        Some(
            CopyPlan::Rows { offset: source.offset, stride: source.stride, rows: source.rows },
        )
    }
}

/// How the pixels get into the cursor buffer: not at all if the format is another one or there are
/// too few of them, at once if the rows are equally long.
pub fn copy_plan(source: PixelSource, target_format: u32, target_stride: u32) -> (r: Option<
    CopyPlan,
>)
    requires
        source.stride * source.rows <= i32::MAX,
        source.offset <= i32::MAX,
    ensures
        r == copy_plan_spec(source, target_format, target_stride),
{
    match source.format {
        Some(format) => if format != target_format {
            return None;
        },
        None => {
            return None;
        },
    }
    let expected: u32 = source.stride * source.rows;
    let end: u64 = source.offset as u64 + expected as u64;
    if end > source.len as u64 {
        return None;
    }
    if source.stride == target_stride {
        Some(CopyPlan::Whole { offset: source.offset, len: expected as usize })
    } else {
        Some(
            CopyPlan::Rows { offset: source.offset, stride: source.stride, rows: source.rows },
        )
    }
}

/// `dst` with `bytes` written over it from a position on.
pub open spec fn overwritten(dst: Seq<u8>, at: int, bytes: Seq<u8>) -> Seq<u8> {
    Seq::new(
        dst.len(),
        |i: int|
            if at <= i < at + bytes.len() {
                bytes[i - at]
            } else {
                dst[i]
            },
    )
}

/// `dst` after the first rows of `src` were copied into it one by one.
pub open spec fn rows_copied(
    src: Seq<u8>,
    dst: Seq<u8>,
    src_stride: int,
    dst_stride: int,
    rows: nat,
) -> Seq<u8>
    decreases rows,
{
    if rows == 0 {
        dst
    } else {
        overwritten(
            rows_copied(src, dst, src_stride, dst_stride, (rows - 1) as nat),
            (rows - 1) * dst_stride,
            src.subrange((rows - 1) * src_stride, (rows - 1) * src_stride + src_stride),
        )
    }
}

fn copy_row(src: &Vec<u8>, from: usize, dst: &mut Vec<u8>, to: usize, len: usize)
    requires
        from + len <= src.len(),
        to + len <= old(dst).len(),
    ensures
        final(dst)@ == overwritten(
            old(dst)@,
            to as int,
            src@.subrange(from as int, from as int + len as int),
        ),
{
    let mut i: usize = 0;
    while i < len
        invariant
            i <= len,
            from + len <= src.len(),
            to + len <= dst.len(),
            dst@ == overwritten(
                old(dst)@,
                to as int,
                src@.subrange(from as int, from as int + i as int),
            ),
            dst@.len() == old(dst)@.len(),
        decreases len - i,
    {
        dst.set(to + i, src[from + i]);
        assert(dst@ =~= overwritten(
            old(dst)@,
            to as int,
            src@.subrange(from as int, from as int + i as int + 1),
        ));
        i = i + 1;
    }
    assert(dst@ =~= overwritten(
        old(dst)@,
        to as int,
        src@.subrange(from as int, from as int + len as int),
    ));
}

/// Copies pixels row by row into a buffer whose rows may be longer.
pub fn copy_rows(src: &Vec<u8>, dst: &mut Vec<u8>, src_stride: usize, dst_stride: usize, rows: usize)
    requires
        rows * src_stride <= src.len(),
        rows * dst_stride + src_stride <= old(dst)@.len() + dst_stride,
        rows * dst_stride <= i32::MAX,
    ensures
        final(dst)@ == rows_copied(
            src@,
            old(dst)@,
            src_stride as int,
            dst_stride as int,
            rows as nat,
        ),
{
    let mut row: usize = 0;
    let mut from: usize = 0;
    let mut to: usize = 0;
    while row < rows
        invariant
            row <= rows,
            from == row * src_stride,
            to == row * dst_stride,
            rows * src_stride <= src.len(),
            rows * dst_stride + src_stride <= dst@.len() + dst_stride,
            rows * dst_stride <= i32::MAX,
            dst@.len() == old(dst)@.len(),
            dst@ == rows_copied(
                src@,
                old(dst)@,
                src_stride as int,
                dst_stride as int,
                row as nat,
            ),
        decreases rows - row,
    {
        assert((row + 1) * src_stride <= rows * src_stride) by (nonlinear_arith)
            requires
                row + 1 <= rows,
                src_stride >= 0,
        ;
        assert((row + 1) * dst_stride <= rows * dst_stride) by (nonlinear_arith)
            requires
                row + 1 <= rows,
                dst_stride >= 0,
        ;
        assert((row + 1) * src_stride == row * src_stride + src_stride) by (nonlinear_arith);
        assert((row + 1) * dst_stride == row * dst_stride + dst_stride) by (nonlinear_arith);
        copy_row(src, from, dst, to, src_stride);
        from = from + src_stride;
        to = to + dst_stride;
        row = row + 1;
    }
}

/// The content of a cursor buffer once the pixels were copied as planned.
pub open spec fn copied(pixels: Seq<u8>, bo: Seq<u8>, bo_stride: u32, plan: CopyPlan) -> Seq<u8> {
    match plan {
        CopyPlan::Whole { offset, len } => overwritten(
            bo,
            0,
            pixels.subrange(offset as int, offset as int + len as int),
        ),
        CopyPlan::Rows { offset, stride, rows } => rows_copied(
            pixels.subrange(offset as int, offset as int + stride * rows),
            bo,
            stride as int,
            bo_stride as int,
            rows as nat,
        ),
    }
}

/// Whether the copied pixels fit into the cursor buffer.
pub open spec fn plan_fits(plan: CopyPlan, bo_len: nat, bo_stride: u32) -> bool {
    match plan {
        CopyPlan::Whole { offset, len } => len <= bo_len,
        CopyPlan::Rows { offset, stride, rows } => rows * bo_stride + stride <= bo_len + bo_stride,
    }
}

fn subvec(bytes: &Vec<u8>, offset: usize, len: usize) -> (r: Vec<u8>)
    requires
        offset + len <= bytes.len(),
    ensures
        r@ == bytes@.subrange(offset as int, offset as int + len as int),
{
    let mut part: Vec<u8> = Vec::new();
    let mut i: usize = 0;
    while i < len
        invariant
            i <= len,
            offset + len <= bytes.len(),
            part@ == bytes@.subrange(offset as int, offset as int + i as int),
        decreases len - i,
    {
        part.push(bytes[offset + i]);
        assert(part@ =~= bytes@.subrange(offset as int, offset as int + i as int + 1));
        i = i + 1;
    }
    part
}

/// Copies the content of an element into a cursor buffer, if it can be copied as it is. Tells
/// whether that was so; otherwise the buffer stays as it was.
pub fn copy_element_to_cursor_bo(
    element: &ElementInfo,
    element_size: Size,
    output_transform: Transform,
    source: PixelSource,
    pixels: &Vec<u8>,
    bo: &mut Vec<u8>,
    bo_format: u32,
    bo_stride: u32,
) -> (r: bool)
    requires
        source.len == pixels.len(),
        source.stride * source.rows <= i32::MAX,
        source.offset <= i32::MAX,
        source.rows * bo_stride <= i32::MAX,
        copy_plan_spec(source, bo_format, bo_stride) matches Some(plan) ==> plan_fits(
            plan,
            old(bo)@.len(),
            bo_stride,
        ),
    ensures
        r == (copyable_spec(*element, element_size, output_transform) && copy_plan_spec(
            source,
            bo_format,
            bo_stride,
        ) is Some),
        final(bo)@ == (if r {
            copied(
                pixels@,
                old(bo)@,
                bo_stride,
                copy_plan_spec(source, bo_format, bo_stride)->0,
            )
        } else {
            old(bo)@
        }),
{
    if !copyable(element, element_size, output_transform) {
        return false;
    }
    match copy_plan(source, bo_format, bo_stride) {
        None => false,
        Some(CopyPlan::Whole { offset, len }) => {
            copy_row(pixels, offset, bo, 0, len);
            true
        },
        Some(CopyPlan::Rows { offset, stride, rows }) => {
            let len: usize = (stride * rows) as usize;
            let part = subvec(pixels, offset, len);
            proof {
                assert(rows * stride == stride * rows) by (nonlinear_arith);
            }
            copy_rows(&part, bo, stride as usize, bo_stride as usize, rows as usize);
            true
        },
    }
}

/// Where the rows of the target are at least as long as those of the source, every pixel is found
/// in its row and column, and everything beside the rows stays as it was.
pub proof fn copied_rows_are_in_place(
    src: Seq<u8>,
    dst: Seq<u8>,
    src_stride: int,
    dst_stride: int,
    rows: nat,
    row: int,
    column: int,
)
    requires
        0 <= src_stride <= dst_stride,
        rows * src_stride <= src.len(),
        rows * dst_stride <= dst.len(),
        0 <= row < rows,
        0 <= column < dst_stride,
    ensures
        rows_copied(src, dst, src_stride, dst_stride, rows).len() == dst.len(),
        rows_copied(src, dst, src_stride, dst_stride, rows)[row * dst_stride + column] == (if column
            < src_stride {
            src[row * src_stride + column]
        } else {
            dst[row * dst_stride + column]
        }),
    decreases rows,
{
    let last = rows - 1;
    let at = row * dst_stride + column;
    assert(last * dst_stride + dst_stride == rows * dst_stride) by (nonlinear_arith)
        requires
            last == rows - 1,
    ;
    assert(last * src_stride + src_stride == rows * src_stride) by (nonlinear_arith)
        requires
            last == rows - 1,
    ;
    assert(0 <= row * dst_stride && row * dst_stride <= last * dst_stride) by (nonlinear_arith)
        requires
            0 <= row <= last,
            dst_stride >= 0,
    ;
    assert(0 <= last * src_stride) by (nonlinear_arith)
        requires
            0 <= last,
            src_stride >= 0,
    ;
    lemma_len(src, dst, src_stride, dst_stride, (rows - 1) as nat);
    if row < last {
        copied_rows_are_in_place(
            src,
            dst,
            src_stride,
            dst_stride,
            (rows - 1) as nat,
            row,
            column,
        );
        assert((row + 1) * dst_stride <= last * dst_stride) by (nonlinear_arith)
            requires
                row + 1 <= last,
                dst_stride >= 0,
        ;
        assert((row + 1) * dst_stride == row * dst_stride + dst_stride) by (nonlinear_arith);
    } else {
        lemma_untouched(src, dst, src_stride, dst_stride, (rows - 1) as nat, at);
    }
}

proof fn lemma_len(src: Seq<u8>, dst: Seq<u8>, src_stride: int, dst_stride: int, rows: nat)
    ensures
        rows_copied(src, dst, src_stride, dst_stride, rows).len() == dst.len(),
    decreases rows,
{
    if rows > 0 {
        lemma_len(src, dst, src_stride, dst_stride, (rows - 1) as nat);
    }
}

proof fn lemma_untouched(
    src: Seq<u8>,
    dst: Seq<u8>,
    src_stride: int,
    dst_stride: int,
    rows: nat,
    at: int,
)
    requires
        0 <= src_stride <= dst_stride,
        rows * src_stride <= src.len(),
        rows * dst_stride <= at < dst.len(),
    ensures
        rows_copied(src, dst, src_stride, dst_stride, rows)[at] == dst[at],
    decreases rows,
{
    if rows > 0 {
        let last = rows - 1;
        assert(last * dst_stride + dst_stride == rows * dst_stride) by (nonlinear_arith)
            requires
                last == rows - 1,
        ;
        assert(last * src_stride + src_stride == rows * src_stride) by (nonlinear_arith)
            requires
                last == rows - 1,
        ;
        assert(0 <= last * src_stride) by (nonlinear_arith)
            requires
                0 <= last,
                src_stride >= 0,
        ;
        lemma_len(src, dst, src_stride, dst_stride, (rows - 1) as nat);
        lemma_untouched(src, dst, src_stride, dst_stride, (rows - 1) as nat, at);
    }
}

// ---------------------------------------------------------------------------------------------
// Drawing
// ---------------------------------------------------------------------------------------------

/// What the drawing of a cursor waits for.
#[derive(Clone, Copy, Debug, PartialEq, Eq)]
pub enum DrawPhase {
    /// A buffer of the size of the plane.
    Create,
    /// A framebuffer for the buffer.
    Export { buffer: u64 },
    /// The content to be copied.
    Copy { buffer: u64, framebuffer: Option<FramebufferInfo> },
    /// The content to be made available to the software renderer, out of a client buffer or out of
    /// memory.
    Import { buffer: u64, framebuffer: Option<FramebufferInfo>, from_memory: bool },
    /// The software renderer.
    Paint { buffer: u64, framebuffer: Option<FramebufferInfo> },
    /// Nothing any more: the buffer is drawn, or could not be drawn.
    Done(Option<(u64, Option<FramebufferInfo>)>),
}

/// The drawing of a cursor element into a new buffer. The content is copied where that is
/// possible, and otherwise drawn by a software renderer if there is one.
#[derive(Clone, Copy, Debug, PartialEq, Eq)]
pub struct CursorDrawing {
    pub element: ElementInfo,
    pub element_size: Size,
    pub plane_size: Size,
    pub output_transform: Transform,
    /// Whether the buffer has to be shown by a framebuffer.
    pub needs_framebuffer: bool,
    pub has_renderer: bool,
    /// Whether the software renderer can read the format of a storage in memory.
    pub memory_supported: bool,
    pub phase: DrawPhase,
}

/// What has to be done for a drawing.
#[derive(Clone, Copy, Debug, PartialEq, Eq)]
pub enum DrawRequest {
    CreateBuffer { size: Size, code: u32, modifier: u64 },
    ExportFramebuffer { buffer: u64 },
    CopyContent { buffer: u64 },
    ImportContent { from_memory: bool },
    Paint { buffer: u64, size: Size, transform: Transform },
    Finished(Option<(u64, Option<FramebufferInfo>)>),
}

impl CursorDrawing {
    /// How many steps a drawing takes at most from here.
    pub open spec fn steps_left(self) -> nat {
        match self.phase {
            DrawPhase::Create => 5,
            DrawPhase::Export { buffer } => 4,
            DrawPhase::Copy { buffer, framebuffer } => 3,
            DrawPhase::Import { buffer, framebuffer, from_memory } => 2,
            DrawPhase::Paint { buffer, framebuffer } => 1,
            DrawPhase::Done(_) => 0,
        }
    }

    /// Whether there is a framebuffer from where on there has to be one, and none otherwise.
    pub open spec fn framebuffer_matches(self) -> bool {
        match self.phase {
            DrawPhase::Create => true,
            DrawPhase::Export { buffer } => self.needs_framebuffer,
            DrawPhase::Copy { buffer, framebuffer } => framebuffer.is_some()
                == self.needs_framebuffer,
            DrawPhase::Import { buffer, framebuffer, from_memory } => framebuffer.is_some()
                == self.needs_framebuffer,
            DrawPhase::Paint { buffer, framebuffer } => framebuffer.is_some()
                == self.needs_framebuffer,
            DrawPhase::Done(Some((_, framebuffer))) => framebuffer.is_some()
                == self.needs_framebuffer,
            DrawPhase::Done(None) => true,
        }
    }

    /// The phase once the content could not be copied.
    pub open spec fn paint_phase(
        self,
        buffer: u64,
        framebuffer: Option<FramebufferInfo>,
    ) -> DrawPhase {
        match self.element.storage {
            None => DrawPhase::Done(None),
            Some(storage) => if !self.has_renderer {
                DrawPhase::Done(None)
            } else {
                match storage {
                    UnderlyingStorage::Wayland(_) => DrawPhase::Import {
                        buffer,
                        framebuffer,
                        from_memory: false,
                    },
                    UnderlyingStorage::Memory => if self.memory_supported {
                        DrawPhase::Import { buffer, framebuffer, from_memory: true }
                    } else {
                        DrawPhase::Done(None)
                    },
                }
            },
        }
    }

    fn to_paint(&self, buffer: u64, framebuffer: Option<FramebufferInfo>) -> (r: DrawPhase)
        ensures
            r == self.paint_phase(buffer, framebuffer),
    {
        match self.element.storage {
            None => DrawPhase::Done(None),
            Some(storage) => if !self.has_renderer {
                DrawPhase::Done(None)
            } else {
                match storage {
                    UnderlyingStorage::Wayland(_) => DrawPhase::Import {
                        buffer,
                        framebuffer,
                        from_memory: false,
                    },
                    UnderlyingStorage::Memory => if self.memory_supported {
                        DrawPhase::Import { buffer, framebuffer, from_memory: true }
                    } else {
                        DrawPhase::Done(None)
                    },
                }
            },
        }
    }

    /// The phase once the buffer is ready to be filled.
    pub open spec fn fill_phase(
        self,
        buffer: u64,
        framebuffer: Option<FramebufferInfo>,
    ) -> DrawPhase {
        if copyable_spec(self.element, self.element_size, self.output_transform) {
            DrawPhase::Copy { buffer, framebuffer }
        } else {
            self.paint_phase(buffer, framebuffer)
        }
    }

    fn to_fill(&self, buffer: u64, framebuffer: Option<FramebufferInfo>) -> (r: DrawPhase)
        ensures
            r == self.fill_phase(buffer, framebuffer),
    {
        if copyable(&self.element, self.element_size, self.output_transform) {
            DrawPhase::Copy { buffer, framebuffer }
        } else {
            self.to_paint(buffer, framebuffer)
        }
    }

    /// Starts a drawing.
    pub fn begin(
        element: ElementInfo,
        element_size: Size,
        plane_size: Size,
        output_transform: Transform,
        needs_framebuffer: bool,
        has_renderer: bool,
        memory_supported: bool,
    ) -> (r: CursorDrawing)
        ensures
            r == (CursorDrawing {
                element,
                element_size,
                plane_size,
                output_transform,
                needs_framebuffer,
                has_renderer,
                memory_supported,
                phase: DrawPhase::Create,
            }),
    {
        CursorDrawing {
            element,
            element_size,
            plane_size,
            output_transform,
            needs_framebuffer,
            has_renderer,
            memory_supported,
            phase: DrawPhase::Create,
        }
    }

    pub open spec fn after_create(self, buffer: Option<u64>) -> DrawPhase {
        match buffer {
            None => DrawPhase::Done(None),
            Some(buffer) => if self.needs_framebuffer {
                DrawPhase::Export { buffer }
            } else {
                self.fill_phase(buffer, None)
            },
        }
    }

    /// Takes the buffer, if it could be created.
    pub fn created(&mut self, buffer: Option<u64>)
        requires
            old(self).phase == DrawPhase::Create,
        ensures
            *final(self) == (CursorDrawing { phase: old(self).after_create(buffer), ..*old(self) }),
    {
        self.phase = match buffer {
            None => DrawPhase::Done(None),
            Some(buffer) => if self.needs_framebuffer {
                DrawPhase::Export { buffer }
            } else {
                self.to_fill(buffer, None)
            },
        };
    }

    /// Takes the framebuffer, if there is one.
    pub fn exported(&mut self, framebuffer: Option<FramebufferInfo>)
        requires
            old(self).phase is Export,
        ensures
            *final(self) == (CursorDrawing {
                phase: match framebuffer {
                    None => DrawPhase::Done(None),
                    Some(fb) => old(self).fill_phase(old(self).phase->Export_buffer, Some(fb)),
                },
                ..*old(self)
            }),
    {
        if let DrawPhase::Export { buffer } = self.phase {
            self.phase = match framebuffer {
                None => DrawPhase::Done(None),
                Some(fb) => self.to_fill(buffer, Some(fb)),
            };
        }
    }

    /// Takes note of whether the content was copied.
    pub fn copied(&mut self, succeeded: bool)
        requires
            old(self).phase is Copy,
        ensures
            old(self).phase matches DrawPhase::Copy { buffer, framebuffer } && *final(self) == (
            CursorDrawing {
                phase: if succeeded {
                    DrawPhase::Done(Some((buffer, framebuffer)))
                } else {
                    old(self).paint_phase(buffer, framebuffer)
                },
                ..*old(self)
            }),
    {
        if let DrawPhase::Copy { buffer, framebuffer } = self.phase {
            self.phase = if succeeded {
                DrawPhase::Done(Some((buffer, framebuffer)))
            } else {
                self.to_paint(buffer, framebuffer)
            };
        }
    }

    /// Takes note of whether the content was made available to the software renderer.
    pub fn imported(&mut self, succeeded: bool)
        requires
            old(self).phase is Import,
        ensures
            old(self).phase matches DrawPhase::Import { buffer, framebuffer, from_memory }
                && *final(self) == (CursorDrawing {
                phase: if succeeded {
                    DrawPhase::Paint { buffer, framebuffer }
                } else {
                    DrawPhase::Done(None)
                },
                ..*old(self)
            }),
    {
        if let DrawPhase::Import { buffer, framebuffer, from_memory: _ } = self.phase {
            self.phase = if succeeded {
                DrawPhase::Paint { buffer, framebuffer }
            } else {
                DrawPhase::Done(None)
            };
        }
    }

    /// Takes note of whether the software renderer drew the content.
    pub fn painted(&mut self, succeeded: bool)
        requires
            old(self).phase is Paint,
        ensures
            old(self).phase matches DrawPhase::Paint { buffer, framebuffer } && *final(self) == (
            CursorDrawing {
                phase: DrawPhase::Done(
                    if succeeded {
                        Some((buffer, framebuffer))
                    } else {
                        None
                    },
                ),
                ..*old(self)
            }),
    {
        if let DrawPhase::Paint { buffer, framebuffer } = self.phase {
            self.phase = DrawPhase::Done(
                if succeeded {
                    Some((buffer, framebuffer))
                } else {
                    None
                },
            );
        }
    }

    pub open spec fn request_spec(self) -> DrawRequest {
        match self.phase {
            DrawPhase::Create => DrawRequest::CreateBuffer {
                size: self.plane_size,
                code: argb8888_code(),
                modifier: linear_layout(),
            },
            DrawPhase::Export { buffer } => DrawRequest::ExportFramebuffer { buffer },
            DrawPhase::Copy { buffer, framebuffer } => DrawRequest::CopyContent { buffer },
            DrawPhase::Import { buffer, framebuffer, from_memory } => DrawRequest::ImportContent {
                from_memory,
            },
            DrawPhase::Paint { buffer, framebuffer } => DrawRequest::Paint {
                buffer,
                size: self.plane_size,
                transform: self.output_transform,
            },
            DrawPhase::Done(result) => DrawRequest::Finished(result),
        }
    }

    /// What has to be done next.
    pub fn request(&self) -> (r: DrawRequest)
        ensures
            r == self.request_spec(),
    {
        match self.phase {
            DrawPhase::Create => DrawRequest::CreateBuffer {
                size: self.plane_size,
                code: argb8888(),
                modifier: linear_modifier(),
            },
            DrawPhase::Export { buffer } => DrawRequest::ExportFramebuffer { buffer },
            DrawPhase::Copy { buffer, framebuffer: _ } => DrawRequest::CopyContent { buffer },
            DrawPhase::Import { buffer: _, framebuffer: _, from_memory } => {
                DrawRequest::ImportContent { from_memory }
            },
            DrawPhase::Paint { buffer, framebuffer: _ } => DrawRequest::Paint {
                buffer,
                size: self.plane_size,
                transform: self.output_transform,
            },
            DrawPhase::Done(result) => DrawRequest::Finished(result),
        }
    }
}

} // verus!
