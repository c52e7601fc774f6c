//! One frame: take in the pending events, tick once, and colour every
//! pixel of the screen.

use crate::coloring::{palette_position, position_of, ColorMapping};
use crate::escape::{escape_time, evaluate};
use crate::fixed::{Fixed, SCALE};
use crate::navigation::{InputEvent, NavigationModel, NavigationState};
use crate::palette::{sample_color, Color, Palette};
use crate::viewport::{map_to_complex_plane, Viewport, ViewportModel};
use vstd::arithmetic::div_mod::lemma_fundamental_div_mod_converse;
use vstd::prelude::*;

verus! {

/// The normalized screen coordinate of the middle of cell `index` when an
/// axis of the screen is cut into `count` equal cells: cell 0 touches -1
/// and cell `count - 1` touches 1.
pub open spec fn normalized_coordinate(index: int, count: int) -> int {
    ((2 * index + 1) * SCALE) / count - SCALE
}

/// The colour of the point of the plane shown at the normalized screen
/// position `(nx, ny)`: the point is evaluated, its outcome placed on the
/// palette, and the palette sampled there.
pub open spec fn point_color(
    viewport: ViewportModel,
    palette: Seq<Color>,
    mapping: ColorMapping,
    max_iterations: nat,
    nx: int,
    ny: int,
) -> Color {
    sample_color(
        palette,
        position_of(
            escape_time(viewport.map(nx, ny), max_iterations),
            max_iterations as int,
            mapping,
        ),
    )
}

/// Mathematical content of a [`ColorBuffer`]: its pixels row by row, the
/// bottom row first and each row from left to right.
pub struct ColorBufferModel {
    pub width: nat,
    pub height: nat,
    pub pixels: Seq<Color>,
}

/// Mathematical content of a [`FrameDriver`].
pub struct FrameDriverModel {
    pub navigation: NavigationModel,
    pub palette: Seq<Color>,
    pub mapping: ColorMapping,
    pub max_iterations: nat,
}

impl FrameDriverModel {
    /// The colour of the pixel in the given column and row of a screen of
    /// `width` by `height` pixels.
    pub open spec fn pixel(self, column: int, row: int, width: int, height: int) -> Color {
        point_color(
            self.navigation.viewport,
            self.palette,
            self.mapping,
            self.max_iterations,
            normalized_coordinate(column, width),
            normalized_coordinate(row, height),
        )
    }

    /// Whether `buffer` is the picture of this state on a screen of
    /// `width` by `height` pixels.
    pub open spec fn draws(self, buffer: ColorBufferModel, width: int, height: int) -> bool {
        &&& buffer.width == width
        &&& buffer.height == height
        &&& buffer.pixels.len() == width * height
        &&& forall|i: int|
            0 <= i < buffer.pixels.len() ==> #[trigger] buffer.pixels[i] == self.pixel(
                i % width,
                i / width,
                width,
                height,
            )
    }

    /// The state after the events of one frame and its tick.
    pub open spec fn advanced(self, events: Seq<InputEvent>) -> FrameDriverModel {
        FrameDriverModel { navigation: self.navigation.after_events(events).ticked(), ..self }
    }
}

/// Whether the window was asked to close among `events`.
pub open spec fn close_requested(events: Seq<InputEvent>) -> bool {
    exists|i: int| 0 <= i < events.len() && events[i] == InputEvent::WindowClose
}

/// A grid of colours, one for each pixel of the screen.
#[derive(Debug)]
pub struct ColorBuffer {
    width: usize,
    height: usize,
    pixels: Vec<Color>,
}

impl View for ColorBuffer {
    type V = ColorBufferModel;

    closed spec fn view(&self) -> ColorBufferModel {
        ColorBufferModel {
            width: self.width as nat,
            height: self.height as nat,
            pixels: self.pixels@,
        }
    }
}

impl ColorBuffer {
    #[verifier::type_invariant]
    spec fn full(self) -> bool {
        self.pixels@.len() == self.width * self.height
    }

    /// The number of columns.
    pub fn width(&self) -> (w: usize)
        ensures
            w == self@.width,
    {
        self.width
    }

    /// The number of rows.
    pub fn height(&self) -> (h: usize)
        ensures
            h == self@.height,
    {
        self.height
    }

    /// All pixels, row by row from the bottom row up, each row from left
    /// to right.
    pub fn pixels(&self) -> (p: &Vec<Color>)
        ensures
            p@ == self@.pixels,
            p@.len() == self@.width * self@.height,
    {
        proof {
            use_type_invariant(self);
        }
        &self.pixels
    }

    /// The pixel in the given column and row, if the buffer has it.
    pub fn pixel(&self, column: usize, row: usize) -> (c: Option<Color>)
        ensures
            c == if column < self@.width && row < self@.height {
                Some(self@.pixels[row * self@.width + column])
            } else {
                None
            },
    {
        proof {
            use_type_invariant(self);
        }
        if column < self.width && row < self.height {
            let count = self.pixels.len();
            proof {
                lemma_cell_index(column as int, row as int, self.width as int, self.height as int);
                assert(count == self.width * self.height);
            }
            Some(self.pixels[row * self.width + column])
        } else {
            None
        }
    }
}

/// The cell in column `column` of row `row` has an index below the number
/// of cells, from which row and column can be read back.
pub proof fn lemma_cell_index(column: int, row: int, width: int, height: int)
    requires
        0 <= column < width,
        0 <= row < height,
    ensures
        0 <= row * width <= row * width + column < width * height,
        (row * width + column) / width == row,
        (row * width + column) % width == column,
{
    assert(0 <= row * width && row * width + width <= width * height) by (nonlinear_arith)
        requires
            0 <= row < height,
            0 < width,
    ;
    lemma_fundamental_div_mod_converse(row * width + column, width, row, column);
}

/// The normalized screen coordinate of the middle of cell `index` out of
/// `count`.
pub fn cell_coordinate(index: usize, count: usize) -> (r: Fixed)
    requires
        index < count,
    ensures
        r@ == normalized_coordinate(index as int, count as int),
        -SCALE <= r@ < SCALE,
{
    let doubled: u128 = 2 * (index as u128) + 1;
    let scaled: u128 = doubled * (SCALE as u128);
    let quotient: u128 = scaled / (count as u128);
    assert(0 <= quotient < 2 * SCALE) by (nonlinear_arith)
        requires
            quotient == scaled / (count as u128),
            scaled == doubled * 1_000_000_000,
            0 < doubled < 2 * count,
            SCALE == 1_000_000_000,
    ;
    Fixed { raw: quotient as i64 - SCALE }
}

/// The colour that `palette` gives to the point that `viewport` shows at
/// the normalized screen position `(nx, ny)`.
pub fn color_at(
    viewport: &Viewport,
    palette: &Palette,
    mapping: ColorMapping,
    max_iterations: u32,
    nx: Fixed,
    ny: Fixed,
) -> (c: Color)
    ensures
        c == point_color(viewport@, palette@, mapping, max_iterations as nat, nx@, ny@),
{
    let point = map_to_complex_plane(viewport, nx, ny);
    let outcome = evaluate(point, max_iterations);
    palette.sample(palette_position(outcome, max_iterations, mapping))
}

/// What one frame hands to the presentation layer.
#[derive(Debug)]
pub struct Frame {
    /// The picture to present.
    pub buffer: ColorBuffer,
    /// Whether the loop is to end once this frame has been presented.
    pub close_requested: bool,
}

/// The navigation state together with the fixed settings of a run.
#[derive(Debug)]
pub struct FrameDriver {
    navigation: NavigationState,
    palette: Palette,
    mapping: ColorMapping,
    max_iterations: u32,
}

impl View for FrameDriver {
    type V = FrameDriverModel;

    closed spec fn view(&self) -> FrameDriverModel {
        FrameDriverModel {
            navigation: self.navigation@,
            palette: self.palette@,
            mapping: self.mapping,
            max_iterations: self.max_iterations as nat,
        }
    }
}

impl FrameDriver {
    /// A driver that starts from `navigation` and colours with `palette`.
    pub fn new(
        navigation: NavigationState,
        palette: Palette,
        mapping: ColorMapping,
        max_iterations: u32,
    ) -> (d: FrameDriver)
        ensures
            d@ == (FrameDriverModel {
                navigation: navigation@,
                palette: palette@,
                mapping,
                max_iterations: max_iterations as nat,
            }),
    {
        FrameDriver { navigation, palette, mapping, max_iterations }
    }

    /// The navigation state as the last frame left it.
    pub fn navigation(&self) -> (n: &NavigationState)
        ensures
            n@ == self@.navigation,
    {
        &self.navigation
    }

    /// The viewport that the next picture will show.
    pub fn viewport(&self) -> (v: Viewport)
        ensures
            v@ == self@.navigation.viewport,
    {
        self.navigation.viewport()
    }

    /// Takes in the events that arrived since the last frame, in order of
    /// arrival, and then ticks exactly once. Says whether the window was
    /// asked to close.
    pub fn advance(&mut self, events: &Vec<InputEvent>) -> (close: bool)
        ensures
            final(self)@ == old(self)@.advanced(events@),
            close == close_requested(events@),
    {
        let ghost before = self@;
        let mut close = false;
        let mut i: usize = 0;
        assert(events@.subrange(0, 0) =~= Seq::<InputEvent>::empty());
        while i < events.len()
            invariant
                i <= events.len(),
                self@.navigation == before.navigation.after_events(events@.subrange(0, i as int)),
                self@.palette == before.palette,
                self@.mapping == before.mapping,
                self@.max_iterations == before.max_iterations,
                close == close_requested(events@.subrange(0, i as int)),
            decreases events.len() - i,
        {
            let event = events[i];
            proof {
                let shorter = events@.subrange(0, i as int);
                let longer = events@.subrange(0, i + 1);
                assert(longer.drop_last() =~= shorter);
                assert(longer.last() == event);
                if close_requested(shorter) {
                    let at = choose|k: int|
                        0 <= k < shorter.len() && shorter[k] == InputEvent::WindowClose;
                    assert(longer[at] == InputEvent::WindowClose);
                }
                if event == InputEvent::WindowClose {
                    assert(longer[i as int] == InputEvent::WindowClose);
                }
                if close_requested(longer) {
                    let at = choose|k: int|
                        0 <= k < longer.len() && longer[k] == InputEvent::WindowClose;
                    if at < i {
                        assert(shorter[at] == InputEvent::WindowClose);
                    }
                }
            }
            if event == InputEvent::WindowClose {
                close = true;
            }
            self.navigation.handle_event(event);
            i = i + 1;
        }
        assert(events@.subrange(0, i as int) =~= events@);
        self.navigation.tick();
        close
    }

    /// The picture of the current viewport on a screen of `width` by
    /// `height` pixels.
    pub fn render(&self, width: usize, height: usize) -> (buffer: ColorBuffer)
        requires
            width * height <= usize::MAX,
        ensures
            self@.draws(buffer@, width as int, height as int),
    {
        let viewport = self.navigation.viewport();
        let mut pixels: Vec<Color> = Vec::new();
        let mut row: usize = 0;
        while row < height
            invariant
                row <= height,
                viewport@ == self@.navigation.viewport,
                pixels@.len() == row * width,
                forall|i: int|
                    0 <= i < pixels@.len() ==> #[trigger] pixels@[i] == self@.pixel(
                        i % (width as int),
                        i / (width as int),
                        width as int,
                        height as int,
                    ),
            decreases height - row,
        {
            let ny = cell_coordinate(row, height);
            let mut column: usize = 0;
            while column < width
                invariant
                    row < height,
                    column <= width,
                    viewport@ == self@.navigation.viewport,
                    ny@ == normalized_coordinate(row as int, height as int),
                    pixels@.len() == row * width + column,
                    forall|i: int|
                        0 <= i < pixels@.len() ==> #[trigger] pixels@[i] == self@.pixel(
                            i % (width as int),
                            i / (width as int),
                            width as int,
                            height as int,
                        ),
                decreases width - column,
            {
                let nx = cell_coordinate(column, width);
                let color = color_at(
                    &viewport,
                    &self.palette,
                    self.mapping,
                    self.max_iterations,
                    nx,
                    ny,
                );
                proof {
                    lemma_cell_index(column as int, row as int, width as int, height as int);
                }
                pixels.push(color);
                column = column + 1;
            }
            proof {
                assert(row * width + width == (row + 1) * width) by (nonlinear_arith);
            }
            row = row + 1;
        }
        proof {
            assert(height * width == width * height) by (nonlinear_arith);
        }
        ColorBuffer { width, height, pixels }
    }

    /// One whole frame: the events are taken in, the view ticks once, and
    /// the resulting viewport is drawn. The frame is complete even when
    /// the window was asked to close.
    pub fn run_frame(&mut self, events: &Vec<InputEvent>, width: usize, height: usize) -> (frame:
        Frame)
        requires
            width * height <= usize::MAX,
        ensures
            final(self)@ == old(self)@.advanced(events@),
            final(self)@.draws(frame.buffer@, width as int, height as int),
            frame.close_requested == close_requested(events@),
    {
        let close = self.advance(events);
        let buffer = self.render(width, height);
        Frame { buffer, close_requested: close }
    }
}

} // verus!
