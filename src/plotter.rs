//! The plan of the layered plot: one filled trace per file, with an opacity
//! that grows strictly along the collection so that later files lie visibly
//! over earlier ones.
//!
//! Opacities and the smoothing factor are written in thousandths: `SCALE`
//! stands for 1.0. An opacity handed to a trace is the exact fraction
//! `num / den`.
use vstd::prelude::*;
use crate::offset_calculator::LineOffsets;

verus! {

/// The unit of opacities and of the smoothing factor: 1000 thousandths.
pub const SCALE: u32 = 1000;

/// Opacity of the first trace, in thousandths.
pub const START_OPACITY: u32 = 200;

/// Smoothing factor of the curves, in thousandths.
pub const SMOOTHNESS: u32 = 1000;

/// Width of the image in pixels.
pub const DEFAULT_WIDTH: usize = 800;

/// Height of the image in pixels.
pub const DEFAULT_HEIGHT: usize = 600;

/// Red, green and blue of the curves.
pub const BASE_RED: u8 = 50;

pub const BASE_GREEN: u8 = 50;

pub const BASE_BLUE: u8 = 200;

/// Width and height of the image, in pixels.
#[derive(Clone, Copy, Debug, PartialEq, Eq)]
pub struct ResultDimension(pub usize, pub usize);

/// A color by red, green and blue.
#[derive(Clone, Copy, Debug, PartialEq, Eq)]
pub struct Rgb(pub u8, pub u8, pub u8);

/// An opacity as the exact fraction `num / den`.
#[derive(Clone, Copy, Debug, PartialEq, Eq)]
pub struct Opacity {
    pub num: u128,
    pub den: u128,
}

/// Numerator of the opacity of trace `index` among `total`, from start
/// opacity `start` (thousandths): `start + index * (SCALE - start) / total`
/// over the common denominator `SCALE * total`.
pub open spec fn opacity_num(index: int, total: int, start: int) -> int {
    start * total + index * (SCALE - start)
}

/// Denominator of the opacity of every trace among `total`.
pub open spec fn opacity_den(total: int) -> int {
    SCALE * total
}

/// Computes the opacity law for a collection of `elements` traces.
pub struct OpacityComputer {
    start_opacity: u32,
    elements: usize,
}

impl OpacityComputer {
    pub closed spec fn start(&self) -> int {
        self.start_opacity as int
    }

    pub closed spec fn elements(&self) -> int {
        self.elements as int
    }

    pub fn new(start_opacity: u32, elements: usize) -> (r: OpacityComputer)
        requires
            start_opacity <= SCALE,
        ensures
            r.start() == start_opacity,
            r.elements() == elements,
    {
        OpacityComputer { start_opacity, elements }
    }

    /// The opacity of trace `index`.
    pub fn opacity_at(&self, index: usize) -> (r: Opacity)
        requires
            self.start() <= SCALE,
            index < self.elements(),
        ensures
            r.num == opacity_num(index as int, self.elements(), self.start()),
            r.den == opacity_den(self.elements()),
    {
        let s = self.start_opacity as u128;
        let n = self.elements as u128;
        let i = index as u128;
        proof {
            assert(s * n <= 1000 * n) by (nonlinear_arith)
                requires
                    s <= 1000,
            ;
            assert(i * (1000 - s) <= n * (1000 - s)) by (nonlinear_arith)
                requires
                    i < n,
                    s <= 1000,
            ;
            assert(s * n + n * (1000 - s) == 1000 * n) by (nonlinear_arith);
        }
        Opacity { num: s * n + i * (1000 - s), den: 1000 * n }
    }
}

/// The opacity law makes a gradient: with a start opacity below 1, the
/// opacities of traces `0..total` strictly increase, none is below the start
/// opacity, and none exceeds 1.
pub proof fn lemma_opacity_gradient(total: int, start: int, i: int, j: int)
    requires
        1 <= total,
        0 <= start < SCALE,
        0 <= i < j < total,
    ensures
        opacity_num(i, total, start) < opacity_num(j, total, start),
        opacity_num(i, total, start) * SCALE >= start * opacity_den(total),
        opacity_num(j, total, start) <= opacity_den(total),
        opacity_num(0, total, start) * SCALE == start * opacity_den(total),
        opacity_den(total) > 0,
{
    assert(i * (1000 - start) < j * (1000 - start)) by (nonlinear_arith)
        requires
            i < j,
            start < 1000,
    ;
    assert(i * (1000 - start) >= 0) by (nonlinear_arith)
        requires
            i >= 0,
            start < 1000,
    ;
    assert(j * (1000 - start) <= total * (1000 - start)) by (nonlinear_arith)
        requires
            j < total,
            start < 1000,
    ;
    assert((start * total + i * (1000 - start)) * 1000 >= start * (1000 * total))
        by (nonlinear_arith)
        requires
            i * (1000 - start) >= 0,
    ;
    assert(start * total + total * (1000 - start) == 1000 * total) by (nonlinear_arith);
    assert((start * total + 0 * (1000 - start)) * 1000 == start * (1000 * total))
        by (nonlinear_arith);
}

/// A render configuration that cannot be built.
#[derive(Clone, Copy, Debug, PartialEq, Eq)]
pub enum ConfigError {
    /// The start opacity (thousandths) lies above `SCALE`, that is above 1.
    StartOpacityOutOfRange(u32),
}

/// One file's curve: x is the line index, y the line's offset, filled down to
/// zero, drawn in `color` at `opacity`, smoothed by `smoothing` (thousandths).
pub struct Trace {
    pub x: Vec<usize>,
    pub y: Vec<u16>,
    pub opacity: Opacity,
    pub color: Rgb,
    pub smoothing: u32,
}

/// The line indices `0..n`.
pub open spec fn line_indices(n: int) -> Seq<usize> {
    Seq::new(n as nat, |i: int| i as usize)
}

/// Renders offset collections as a layered silhouette; immutable once built.
pub struct Plotter {
    result_location: String,
    dimension: ResultDimension,
    smoothing: u32,
    start_opacity: u32,
    color: Rgb,
}

/// The value of a `Plotter`.
pub struct PlotterView {
    pub result_location: Seq<char>,
    pub dimension: ResultDimension,
    pub smoothing: u32,
    pub start_opacity: u32,
    pub color: Rgb,
}

impl View for Plotter {
    type V = PlotterView;

    closed spec fn view(&self) -> PlotterView {
        PlotterView {
            result_location: self.result_location@,
            dimension: self.dimension,
            smoothing: self.smoothing,
            start_opacity: self.start_opacity,
            color: self.color,
        }
    }
}

/// A copy of a sequence of offsets.
fn copy_offsets(v: &LineOffsets) -> (r: LineOffsets)
    ensures
        r@ == v@,
{
    let mut out: LineOffsets = Vec::new();
    let mut i: usize = 0;
    while i < v.len()
        invariant
            i <= v@.len(),
            out@ =~= v@.take(i as int),
        decreases v@.len() - i,
    {
        out.push(v[i]);
        i = i + 1;
    }
    assert(v@.take(v@.len() as int) =~= v@);
    out
}

impl Plotter {
    fn new(
        result_location: String,
        dimension: ResultDimension,
        smoothing: u32,
        start_opacity: u32,
        color: Rgb,
    ) -> (r: Plotter)
        ensures
            r@ == (PlotterView {
                result_location: result_location@,
                dimension,
                smoothing,
                start_opacity,
                color,
            }),
    {
        Plotter { result_location, dimension, smoothing, start_opacity, color }
    }

    /// A built plotter's start opacity is at most 1.
    pub open spec fn wf(&self) -> bool {
        self@.start_opacity <= SCALE
    }

    /// Where the image is written.
    pub fn result_location(&self) -> (r: &String)
        ensures
            r@ == self@.result_location,
    {
        &self.result_location
    }

    pub fn dimension(&self) -> (r: ResultDimension)
        ensures
            r == self@.dimension,
    {
        self.dimension
    }

    pub fn smoothing(&self) -> (r: u32)
        ensures
            r == self@.smoothing,
    {
        self.smoothing
    }

    pub fn start_opacity(&self) -> (r: u32)
        ensures
            r == self@.start_opacity,
    {
        self.start_opacity
    }

    pub fn color(&self) -> (r: Rgb)
        ensures
            r == self@.color,
    {
        self.color
    }

    /// The curve of one file at the opacity given.
    pub fn get_trace(&self, offset: &LineOffsets, opacity: Opacity) -> (r: Trace)
        ensures
            r.x@ == line_indices(offset@.len() as int),
            r.y@ == offset@,
            r.opacity == opacity,
            r.color == self@.color,
            r.smoothing == self@.smoothing,
    {
        let mut x: Vec<usize> = Vec::new();
        let mut i: usize = 0;
        while i < offset.len()
            invariant
                i <= offset@.len(),
                x@ =~= line_indices(i as int),
            decreases offset@.len() - i,
        {
            x.push(i);
            i = i + 1;
        }
        Trace { x, y: copy_offsets(offset), opacity, color: self.color, smoothing: self.smoothing }
    }

    /// The curves of a collection, one per offset sequence and in its order;
    /// trace `i` of `N` has the opacity `start + i * (1 - start) / N`. An empty
    /// collection gives no curve, that is a blank image.
    pub fn traces(&self, offsets: &Vec<LineOffsets>) -> (r: Vec<Trace>)
        requires
            self.wf(),
        ensures
            r@.len() == offsets@.len(),
            forall|i: int|
                0 <= i < r@.len() ==> {
                    &&& (#[trigger] r@[i]).x@ == line_indices(offsets@[i]@.len() as int)
                    &&& r@[i].y@ == offsets@[i]@
                    &&& r@[i].opacity.num == opacity_num(
                        i,
                        offsets@.len() as int,
                        self@.start_opacity as int,
                    )
                    &&& r@[i].opacity.den == opacity_den(offsets@.len() as int)
                    &&& r@[i].color == self@.color
                    &&& r@[i].smoothing == self@.smoothing
                },
    {
        let computer = OpacityComputer::new(self.start_opacity, offsets.len());
        let mut out: Vec<Trace> = Vec::new();
        let mut k: usize = 0;
        while k < offsets.len()
            invariant
                self.wf(),
                k <= offsets@.len(),
                out@.len() == k,
                computer.start() == self@.start_opacity,
                computer.elements() == offsets@.len(),
                forall|i: int|
                    0 <= i < k ==> {
                        &&& (#[trigger] out@[i]).x@ == line_indices(offsets@[i]@.len() as int)
                        &&& out@[i].y@ == offsets@[i]@
                        &&& out@[i].opacity.num == opacity_num(
                            i,
                            offsets@.len() as int,
                            self@.start_opacity as int,
                        )
                        &&& out@[i].opacity.den == opacity_den(offsets@.len() as int)
                        &&& out@[i].color == self@.color
                        &&& out@[i].smoothing == self@.smoothing
                    },
            decreases offsets@.len() - k,
        {
            let opacity = computer.opacity_at(k);
            let trace = self.get_trace(&offsets[k], opacity);
            out.push(trace);
            k = k + 1;
        }
        out
    }
}

/// Builds a `Plotter`: 800 by 600 pixels, smoothing 1, start opacity 0.2 and
/// the base color unless set otherwise.
pub struct PlotterBuilder {
    result_location: String,
    dimension: Option<ResultDimension>,
    smoothing: Option<u32>,
    start_opacity: Option<u32>,
    color: Option<Rgb>,
}

/// The value of a `PlotterBuilder`.
pub struct PlotterBuilderView {
    pub result_location: Seq<char>,
    pub dimension: Option<ResultDimension>,
    pub smoothing: Option<u32>,
    pub start_opacity: Option<u32>,
    pub color: Option<Rgb>,
}

impl View for PlotterBuilder {
    type V = PlotterBuilderView;

    closed spec fn view(&self) -> PlotterBuilderView {
        PlotterBuilderView {
            result_location: self.result_location@,
            dimension: self.dimension,
            smoothing: self.smoothing,
            start_opacity: self.start_opacity,
            color: self.color,
        }
    }
}

impl PlotterBuilder {
    pub fn new(result_location: String) -> (r: PlotterBuilder)
        ensures
            r@ == (PlotterBuilderView {
                result_location: result_location@,
                dimension: None,
                smoothing: None,
                start_opacity: None,
                color: None,
            }),
    {
        PlotterBuilder {
            result_location,
            dimension: None,
            smoothing: None,
            start_opacity: None,
            color: None,
        }
    }

    pub fn with_dimension(self, dimension: ResultDimension) -> (r: PlotterBuilder)
        ensures
            r@ == (PlotterBuilderView { dimension: Some(dimension), ..self@ }),
    {
        PlotterBuilder { dimension: Some(dimension), ..self }
    }

    /// The smoothing factor, in thousandths.
    pub fn with_smoothing(self, smoothing: u32) -> (r: PlotterBuilder)
        ensures
            r@ == (PlotterBuilderView { smoothing: Some(smoothing), ..self@ }),
    {
        PlotterBuilder { smoothing: Some(smoothing), ..self }
    }

    /// The opacity of the first trace, in thousandths; `build` refuses one
    /// above `SCALE`.
    pub fn with_start_opacity(self, start_opacity: u32) -> (r: PlotterBuilder)
        ensures
            r@ == (PlotterBuilderView { start_opacity: Some(start_opacity), ..self@ }),
    {
        PlotterBuilder { start_opacity: Some(start_opacity), ..self }
    }

    pub fn with_color(self, color: Rgb) -> (r: PlotterBuilder)
        ensures
            r@ == (PlotterBuilderView { color: Some(color), ..self@ }),
    {
        PlotterBuilder { color: Some(color), ..self }
    }

    /// The plotter, with the defaults for what was not set. Fails where the
    /// start opacity lies above 1.
    pub fn build(self) -> (r: Result<Plotter, ConfigError>)
        ensures
            ({
                let start = match self@.start_opacity {
                    Some(s) => s,
                    None => START_OPACITY,
                };
                match r {
                    Ok(p) => start <= SCALE && p.wf() && p@ == (PlotterView {
                        result_location: self@.result_location,
                        dimension: match self@.dimension {
                            Some(d) => d,
                            None => ResultDimension(DEFAULT_WIDTH, DEFAULT_HEIGHT),
                        },
                        smoothing: match self@.smoothing {
                            Some(s) => s,
                            None => SMOOTHNESS,
                        },
                        start_opacity: start,
                        color: match self@.color {
                            Some(c) => c,
                            None => Rgb(BASE_RED, BASE_GREEN, BASE_BLUE),
                        },
                    }),
                    Err(e) => start > SCALE && e == ConfigError::StartOpacityOutOfRange(start),
                }
            }),
    {
        let start = match self.start_opacity {
            Some(s) => s,
            None => START_OPACITY,
        };
        if start > SCALE {
            return Err(ConfigError::StartOpacityOutOfRange(start));
        }
        let dimension = match self.dimension {
            Some(d) => d,
            None => ResultDimension(DEFAULT_WIDTH, DEFAULT_HEIGHT),
        };
        let smoothing = match self.smoothing {
            Some(s) => s,
            None => SMOOTHNESS,
        };
        let color = match self.color {
            Some(c) => c,
            None => Rgb(BASE_RED, BASE_GREEN, BASE_BLUE),
        };
        Ok(Plotter::new(self.result_location, dimension, smoothing, start, color))
    }
}

} // verus!
