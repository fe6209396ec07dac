//! The chain of stages: how a command sequence becomes a pipeline, and how a
//! pipeline threads its current image from stage to stage.

use std::collections::VecDeque;
use vstd::prelude::*;
use vstd::string::*;
use crate::color::Color;
use crate::dithering::{
    dither_image, dithered, floyd_steinberg_weights, palette16, palette16_colors, DitheringKernel,
    KernelView,
};
use crate::error::{Argument, DecodeFailure, ErrorView, PipelineError, StageKind};
use crate::image_handling::{
    load_image_from_memory, loaded, rgb_of_pixels, save_image_to_file, Image, PngJob,
};
use crate::numeral::{parse_usize, parse_usize_token};
use crate::resizing::{accepts_all, resampled, resize_lanczos, Filter, SampleSite};

verus! {

/// Reads the image file at `path`; any current image is replaced.
#[derive(Debug)]
pub struct LoadStage {
    pub path: String,
}

/// Resamples the current image to `new_width x new_height` with a window of
/// `lobes` lobes.
#[derive(Debug)]
pub struct LanczosStage {
    pub new_width: usize,
    pub new_height: usize,
    pub lobes: usize,
}

/// Quantizes the current image to `palette`, diffusing the error with
/// `kernel`. The palette is never empty.
#[derive(Debug)]
pub struct DitheringStage {
    palette: Vec<Color>,
    kernel: DitheringKernel,
}

/// Writes the current image to `path` and leaves no image behind.
#[derive(Debug)]
pub struct SaveStage {
    pub path: String,
}

/// One operation of a pipeline.
#[derive(Debug)]
pub enum Stage {
    Load(LoadStage),
    Dithering(DitheringStage),
    Lanczos(LanczosStage),
    Save(SaveStage),
}

/// The mathematical content of a [`Stage`].
pub enum StageView {
    Load { path: Seq<char> },
    Dithering { kernel: KernelView, palette: Seq<Color> },
    Lanczos { new_width: usize, new_height: usize, lobes: usize },
    Save { path: Seq<char> },
}

impl StageView {
    /// The kind of this stage.
    pub open spec fn kind(self) -> StageKind {
        match self {
            StageView::Load { .. } => StageKind::Load,
            StageView::Dithering { .. } => StageKind::Dither,
            StageView::Lanczos { .. } => StageKind::Resize,
            StageView::Save { .. } => StageKind::Save,
        }
    }
}

impl DitheringStage {
    /// The colors this stage quantizes to, in palette order.
    pub closed spec fn palette_view(&self) -> Seq<Color> {
        self.palette@
    }

    /// The kernel this stage diffuses with.
    pub closed spec fn kernel_view(&self) -> KernelView {
        self.kernel@
    }

    /// What holds of every dithering stage.
    #[verifier::type_invariant]
    pub open spec fn inv(&self) -> bool {
        self.palette_view().len() > 0
    }

    /// A stage that dithers with `kernel` against `palette`; `None` when the
    /// palette is empty.
    pub fn new(kernel: DitheringKernel, palette: Vec<Color>) -> (r: Option<DitheringStage>)
        ensures
            r is Some <==> palette@.len() > 0,
            r matches Some(stage) ==> stage.kernel_view() == kernel@ && stage.palette_view()
                == palette@,
    {
        if palette.len() == 0 {
            None
        } else {
            Some(DitheringStage { palette, kernel })
        }
    }

    /// The kernel this stage diffuses with.
    pub fn kernel(&self) -> (kernel: &DitheringKernel)
        ensures
            kernel@ == self.kernel_view(),
    {
        &self.kernel
    }

    /// The colors this stage quantizes to, in palette order.
    pub fn palette(&self) -> (palette: &Vec<Color>)
        ensures
            palette@ == self.palette_view(),
            palette@.len() > 0,
    {
        proof {
            use_type_invariant(self);
        }
        &self.palette
    }
}

impl View for Stage {
    type V = StageView;

    open spec fn view(&self) -> StageView {
        match self {
            Stage::Load(stage) => StageView::Load { path: stage.path@ },
            Stage::Dithering(stage) => StageView::Dithering {
                kernel: stage.kernel_view(),
                palette: stage.palette_view(),
            },
            Stage::Lanczos(stage) => StageView::Lanczos {
                new_width: stage.new_width,
                new_height: stage.new_height,
                lobes: stage.lobes,
            },
            Stage::Save(stage) => StageView::Save { path: stage.path@ },
        }
    }
}

/// The window radius that `--lanczos` resizes with.
pub const DEFAULT_LOBES: usize = 3;

/// The stage kind that a stage token names, if it names one.
pub open spec fn stage_token(token: Seq<char>) -> Option<StageKind> {
    if token == "--load"@ {
        Some(StageKind::Load)
    } else if token == "--lanczos"@ {
        Some(StageKind::Resize)
    } else if token == "--dither"@ {
        Some(StageKind::Dither)
    } else if token == "--save"@ {
        Some(StageKind::Save)
    } else {
        None
    }
}

/// What reading one stage off the front of a token sequence gives: the
/// stage or the error, and how many tokens were taken off the front.
pub struct StageParse {
    pub result: Result<StageView, ErrorView>,
    pub consumed: nat,
}

/// Reads one stage off the front of `tokens`.
///
/// A stage token is taken together with the arguments that follow it. When
/// an argument is missing, everything up to the end has been taken; when a
/// number does not parse, the whole stage has been taken; an unknown token,
/// like an empty sequence, takes nothing.
pub open spec fn parse_stage(tokens: Seq<Seq<char>>) -> StageParse {
    if tokens.len() == 0 {
        StageParse { result: Err(ErrorView::MissingArgument(Argument::Stage)), consumed: 0 }
    } else {
        match stage_token(tokens[0]) {
            None => StageParse { result: Err(ErrorView::UnknownStage(tokens[0])), consumed: 0 },
            Some(StageKind::Load) => if tokens.len() < 2 {
                StageParse {
                    result: Err(ErrorView::MissingArgument(Argument::LoadPath)),
                    consumed: 1,
                }
            } else {
                StageParse { result: Ok(StageView::Load { path: tokens[1] }), consumed: 2 }
            },
            Some(StageKind::Save) => if tokens.len() < 2 {
                StageParse {
                    result: Err(ErrorView::MissingArgument(Argument::SavePath)),
                    consumed: 1,
                }
            } else {
                StageParse { result: Ok(StageView::Save { path: tokens[1] }), consumed: 2 }
            },
            Some(StageKind::Dither) => StageParse {
                result: Ok(
                    StageView::Dithering {
                        kernel: KernelView {
                            width: 3,
                            height: 3,
                            weights: floyd_steinberg_weights(),
                            divisor: 16,
                        },
                        palette: palette16_colors(),
                    },
                ),
                consumed: 1,
            },
            Some(StageKind::Resize) => if tokens.len() < 2 {
                StageParse {
                    result: Err(ErrorView::MissingArgument(Argument::ResizeWidth)),
                    consumed: 1,
                }
            } else if tokens.len() < 3 {
                StageParse {
                    result: Err(ErrorView::MissingArgument(Argument::ResizeHeight)),
                    consumed: 2,
                }
            } else {
                match (parse_usize(tokens[1]), parse_usize(tokens[2])) {
                    (None, _) => StageParse { result: Err(ErrorView::Parse(tokens[1])), consumed: 3 },
                    (Some(_), None) => StageParse {
                        result: Err(ErrorView::Parse(tokens[2])),
                        consumed: 3,
                    },
                    (Some(width), Some(height)) => StageParse {
                        result: Ok(
                            StageView::Lanczos {
                                new_width: width,
                                new_height: height,
                                lobes: DEFAULT_LOBES,
                            },
                        ),
                        consumed: 3,
                    },
                }
            },
        }
    }
}

/// Tells which stage `token` names.
fn classify(token: &String) -> (kind: Option<StageKind>)
    ensures
        kind == stage_token(token@),
{
    if *token == String::from_str("--load") {
        Some(StageKind::Load)
    } else if *token == String::from_str("--lanczos") {
        Some(StageKind::Resize)
    } else if *token == String::from_str("--dither") {
        Some(StageKind::Dither)
    } else if *token == String::from_str("--save") {
        Some(StageKind::Save)
    } else {
        None
    }
}

/// Takes the front token off `args`.
fn take_front(args: &mut VecDeque<String>) -> (front: Option<String>)
    ensures
        front is Some <==> old(args)@.len() > 0,
        front matches Some(token) ==> token@ == old(args).deep_view()[0],
        front is Some ==> final(args).deep_view() == old(args).deep_view().skip(1),
        front is None ==> final(args)@ == old(args)@,
{
    let front = args.pop_front();
    proof {
        if front is Some {
            assert(final(args).deep_view() =~= old(args).deep_view().skip(1));
        }
    }
    front
}

impl Stage {
    /// The kind of this stage.
    pub fn kind(&self) -> (kind: StageKind)
        ensures
            kind == self@.kind(),
    {
        match self {
            Stage::Load(_) => StageKind::Load,
            Stage::Dithering(_) => StageKind::Dither,
            Stage::Lanczos(_) => StageKind::Resize,
            Stage::Save(_) => StageKind::Save,
        }
    }

    /// Reads one stage off the front of `args`, removing the tokens it takes.
    pub fn consume_args_and_create(args: &mut VecDeque<String>) -> (r: Result<Stage, PipelineError>)
        ensures
            final(args).deep_view() == old(args).deep_view().skip(
                parse_stage(old(args).deep_view()).consumed as int,
            ),
            r matches Ok(stage) ==> parse_stage(old(args).deep_view()).result == Ok::<
                StageView,
                ErrorView,
            >(stage@),
            r matches Err(e) ==> parse_stage(old(args).deep_view()).result == Err::<
                StageView,
                ErrorView,
            >(e@),
    {
        let ghost tokens = args.deep_view();
        assert(tokens.skip(0) =~= tokens);
        if args.len() == 0 {
            return Err(PipelineError::MissingArgument(Argument::Stage));
        }
        let kind = classify(&args[0]);
        match kind {
            None => Err(PipelineError::UnknownStage(args[0].clone())),
            Some(StageKind::Load) => {
                let _ = take_front(args);
                proof {
                    if tokens.len() >= 2 {
                        assert(tokens.skip(1).skip(1) =~= tokens.skip(2));
                    }
                }
                match take_front(args) {
                    Some(path) => Ok(Stage::Load(LoadStage { path })),
                    None => Err(PipelineError::MissingArgument(Argument::LoadPath)),
                }
            },
            Some(StageKind::Save) => {
                let _ = take_front(args);
                proof {
                    if tokens.len() >= 2 {
                        assert(tokens.skip(1).skip(1) =~= tokens.skip(2));
                    }
                }
                match take_front(args) {
                    Some(path) => Ok(Stage::Save(SaveStage { path })),
                    None => Err(PipelineError::MissingArgument(Argument::SavePath)),
                }
            },
            Some(StageKind::Dither) => {
                let _ = take_front(args);
                Ok(
                    Stage::Dithering(
                        DitheringStage {
                            palette: palette16(),
                            kernel: DitheringKernel::floyd_steinberg(),
                        },
                    ),
                )
            },
            Some(StageKind::Resize) => {
                let _ = take_front(args);
                proof {
                    if tokens.len() >= 2 {
                        assert(tokens.skip(1).skip(1) =~= tokens.skip(2));
                    }
                    if tokens.len() >= 3 {
                        assert(tokens.skip(2).skip(1) =~= tokens.skip(3));
                    }
                }
                let width = match take_front(args) {
                    Some(width) => width,
                    None => {
                        return Err(PipelineError::MissingArgument(Argument::ResizeWidth));
                    },
                };
                let height = match take_front(args) {
                    Some(height) => height,
                    None => {
                        return Err(PipelineError::MissingArgument(Argument::ResizeHeight));
                    },
                };
                let new_width = match parse_usize_token(width.as_str()) {
                    Some(n) => n,
                    None => {
                        return Err(PipelineError::Parse(width));
                    },
                };
                let new_height = match parse_usize_token(height.as_str()) {
                    Some(n) => n,
                    None => {
                        return Err(PipelineError::Parse(height));
                    },
                };
                Ok(Stage::Lanczos(LanczosStage { new_width, new_height, lobes: DEFAULT_LOBES }))
            },
        }
    }
}

/// What the caller reports of the outside work that the last step asked
/// for.
#[derive(Debug)]
pub enum Reply {
    /// Nothing was asked for, or nothing has been done yet.
    Nothing,
    /// The file was read; these are its bytes.
    Contents(Vec<u8>),
    /// The file could not be read.
    Unreadable,
    /// The image was written.
    Written,
    /// The image could not be written.
    NotWritten,
}

/// What running a stage comes to, short of an error.
#[derive(Debug)]
pub enum Step {
    /// The stage is done and hands this on to the next stage.
    Done(Option<Image>),
    /// The stage needs the bytes of the file at this path.
    Read(String),
    /// The stage needs this image written.
    Write(PngJob),
}

impl LoadStage {
    /// What `run` returns for `reply`.
    pub open spec fn ran(&self, reply: Reply, r: Result<Step, PipelineError>) -> bool {
        match reply {
            Reply::Contents(bytes) => match r {
                Ok(Step::Done(Some(image))) => loaded(Ok(image)),
                Err(e) => loaded(Err(e)),
                _ => false,
            },
            Reply::Unreadable => r == Err::<Step, PipelineError>(
                PipelineError::Decode(DecodeFailure::Unreadable),
            ),
            _ => r matches Ok(Step::Read(path)) && path@ == self.path@,
        }
    }

    /// Loads the image. Whatever image there was is ignored and replaced.
    ///
    /// Without the file's bytes the stage asks for them. With them it
    /// decodes the image; told that the file cannot be read, it fails.
    pub fn run(&self, reply: Reply) -> (r: Result<Step, PipelineError>)
        ensures
            self.ran(reply, r),
    {
        match reply {
            Reply::Contents(bytes) => match load_image_from_memory(bytes.as_slice()) {
                Ok(image) => Ok(Step::Done(Some(image))),
                Err(e) => Err(e),
            },
            Reply::Unreadable => Err(PipelineError::Decode(DecodeFailure::Unreadable)),
            _ => Ok(Step::Read(self.path.clone())),
        }
    }
}

impl LanczosStage {
    /// What `run` returns for `input`, given the filter `filter`.
    pub open spec fn ran<
        A: Copy,
        Acc: Fn(A, &SampleSite, usize, usize, Color) -> A,
        Fin: Fn(A) -> Option<Color>,
    >(
        &self,
        input: Option<&Image>,
        filter: &Filter<A, Acc, Fin>,
        r: Result<Option<Image>, PipelineError>,
    ) -> bool {
        match input {
            None => r == Err::<Option<Image>, PipelineError>(
                PipelineError::MissingInput(StageKind::Resize),
            ),
            Some(image) => match r {
                Ok(Some(out)) => resampled(
                    image@,
                    self.new_width,
                    self.new_height,
                    self.lobes,
                    filter,
                    Ok(out),
                ),
                Ok(None) => false,
                Err(e) => resampled(
                    image@,
                    self.new_width,
                    self.new_height,
                    self.lobes,
                    filter,
                    Err(e),
                ),
            },
        }
    }

    /// Resizes the input image with `filter`; fails with `MissingInput`
    /// when there is none.
    pub fn run<
        A: Copy,
        Acc: Fn(A, &SampleSite, usize, usize, Color) -> A,
        Fin: Fn(A) -> Option<Color>,
    >(
        &self,
        input: Option<&Image>,
        filter: &Filter<A, Acc, Fin>,
    ) -> (r: Result<Option<Image>, PipelineError>)
        requires
            accepts_all(filter),
        ensures
            self.ran(input, filter, r),
    {
        match input {
            Some(image) => {
                match resize_lanczos(image, self.new_width, self.new_height, self.lobes, filter) {
                    Ok(out) => Ok(Some(out)),
                    Err(e) => Err(e),
                }
            },
            None => Err(PipelineError::MissingInput(StageKind::Resize)),
        }
    }
}

impl DitheringStage {
    /// What `run` returns for `input`.
    pub open spec fn ran(&self, input: Option<&Image>, r: Result<Option<Image>, PipelineError>) -> bool {
        match input {
            None => r == Err::<Option<Image>, PipelineError>(
                PipelineError::MissingInput(StageKind::Dither),
            ),
            Some(image) => {
                &&& r matches Ok(Some(out))
                &&& out@.width == image@.width
                &&& out@.height == image@.height
                &&& out@.pixels == dithered(
                    image@.pixels,
                    image@.width as int,
                    self.kernel_view(),
                    self.palette_view(),
                )
            },
        }
    }

    /// Dithers the input image; fails with `MissingInput` when there is
    /// none.
    pub fn run(&self, input: Option<&Image>) -> (r: Result<Option<Image>, PipelineError>)
        ensures
            self.ran(input, r),
    {
        proof {
            use_type_invariant(self);
        }
        match input {
            Some(image) => Ok(Some(dither_image(image, &self.kernel, self.palette.as_slice()))),
            None => Err(PipelineError::MissingInput(StageKind::Dither)),
        }
    }
}

impl SaveStage {
    /// What `run` returns for `input` and `reply`.
    pub open spec fn ran(&self, input: Option<&Image>, reply: Reply, r: Result<Step, PipelineError>) -> bool {
        match input {
            None => r == Err::<Step, PipelineError>(PipelineError::MissingInput(StageKind::Save)),
            Some(image) => match reply {
                Reply::Written => r == Ok::<Step, PipelineError>(Step::Done(None)),
                Reply::NotWritten => r matches Err(e) && e@ == ErrorView::Encode(self.path@),
                _ => if 3 * image@.pixels.len() <= usize::MAX {
                    &&& r matches Ok(Step::Write(job))
                    &&& job.path@ == self.path@
                    &&& job.width == image@.width
                    &&& job.height == image@.height
                    &&& job.rgb@ == rgb_of_pixels(image@.pixels)
                } else {
                    r matches Err(e) && e@ == ErrorView::Encode(self.path@)
                },
            },
        }
    }

    /// Saves the input image and hands no image on; fails with
    /// `MissingInput` when there is none.
    ///
    /// Before the write the stage asks for it, with the image laid out for
    /// the encoder. Told that the image was written, it is done; told that
    /// it was not, it fails with `Encode`.
    pub fn run(&self, input: Option<&Image>, reply: Reply) -> (r: Result<Step, PipelineError>)
        ensures
            self.ran(input, reply, r),
    {
        let image = match input {
            Some(image) => image,
            None => {
                return Err(PipelineError::MissingInput(StageKind::Save));
            },
        };
        match reply {
            Reply::Written => Ok(Step::Done(None)),
            Reply::NotWritten => Err(PipelineError::Encode(self.path.clone())),
            _ => {
                let job = save_image_to_file(image, self.path.as_str())?;
                Ok(Step::Write(job))
            },
        }
    }
}

impl Stage {
    /// What `run` returns for `input` and `reply`, given the filter
    /// `filter`.
    pub open spec fn ran<
        A: Copy,
        Acc: Fn(A, &SampleSite, usize, usize, Color) -> A,
        Fin: Fn(A) -> Option<Color>,
    >(
        &self,
        input: Option<&Image>,
        reply: Reply,
        filter: &Filter<A, Acc, Fin>,
        r: Result<Step, PipelineError>,
    ) -> bool {
        match self {
            Stage::Load(stage) => stage.ran(reply, r),
            Stage::Save(stage) => stage.ran(input, reply, r),
            Stage::Dithering(stage) => match r {
                Ok(Step::Done(output)) => stage.ran(input, Ok(output)),
                Ok(_) => false,
                Err(e) => stage.ran(input, Err(e)),
            },
            Stage::Lanczos(stage) => match r {
                Ok(Step::Done(output)) => stage.ran(input, filter, Ok(output)),
                Ok(_) => false,
                Err(e) => stage.ran(input, filter, Err(e)),
            },
        }
    }

    /// Runs this stage on `input`. A resize reconstructs with `filter`.
    ///
    /// A stage that only computes is done at once. One that reads or writes
    /// a file first asks for that, and is done when it is run again with
    /// the reply.
    pub fn run<
        A: Copy,
        Acc: Fn(A, &SampleSite, usize, usize, Color) -> A,
        Fin: Fn(A) -> Option<Color>,
    >(
        &self,
        input: Option<&Image>,
        reply: Reply,
        filter: &Filter<A, Acc, Fin>,
    ) -> (r: Result<Step, PipelineError>)
        requires
            accepts_all(filter),
        ensures
            self.ran(input, reply, filter, r),
    {
        match self {
            Stage::Load(stage) => stage.run(reply),
            Stage::Dithering(stage) => match stage.run(input) {
                Ok(output) => Ok(Step::Done(output)),
                Err(e) => Err(e),
            },
            Stage::Lanczos(stage) => match stage.run(input, filter) {
                Ok(output) => Ok(Step::Done(output)),
                Err(e) => Err(e),
            },
            Stage::Save(stage) => stage.run(input, reply),
        }
    }
}

/// No stage asks twice: run again with the answer to what it asked for, a
/// stage is done or has failed.
pub proof fn lemma_answer_settles_stage<
    A: Copy,
    Acc: Fn(A, &SampleSite, usize, usize, Color) -> A,
    Fin: Fn(A) -> Option<Color>,
>(
    stage: Stage,
    input: Option<&Image>,
    filter: &Filter<A, Acc, Fin>,
    asked: Step,
    answer: Reply,
    r: Result<Step, PipelineError>,
)
    requires
        stage.ran(input, Reply::Nothing, filter, Ok(asked)),
        asked is Read ==> answer is Contents || answer is Unreadable,
        asked is Write ==> answer is Written || answer is NotWritten,
        asked !is Done,
        stage.ran(input, answer, filter, r),
    ensures
        r is Err || r matches Ok(Step::Done(_)),
{
}

/// An ordered chain of stages.
#[derive(Debug)]
pub struct Pipeline {
    stages: Vec<Stage>,
}

/// What reading a whole token sequence gives: the stages in order, or the
/// first error; and the tokens left over, none unless there was an error.
pub struct PipelineParse {
    pub result: Result<Seq<StageView>, ErrorView>,
    pub rest: Seq<Seq<char>>,
}

/// Reads stages off the front of `tokens`, left to right, until none are
/// left or one fails to parse.
pub open spec fn parse_pipeline(tokens: Seq<Seq<char>>) -> PipelineParse
    decreases tokens.len(),
{
    if tokens.len() == 0 {
        PipelineParse { result: Ok(Seq::empty()), rest: tokens }
    } else {
        let first = parse_stage(tokens);
        match first.result {
            Err(e) => PipelineParse { result: Err(e), rest: tokens.skip(first.consumed as int) },
            Ok(stage) => {
                let others = parse_pipeline(tokens.skip(first.consumed as int));
                match others.result {
                    Ok(stages) => PipelineParse {
                        result: Ok(seq![stage] + stages),
                        rest: others.rest,
                    },
                    Err(e) => PipelineParse { result: Err(e), rest: others.rest },
                }
            },
        }
    }
}

/// A stage that parses takes at least its own token and no more tokens
/// than there are.
pub proof fn lemma_parsed_stage_consumes(tokens: Seq<Seq<char>>)
    requires
        parse_stage(tokens).result is Ok,
    ensures
        0 < parse_stage(tokens).consumed <= tokens.len(),
{
}

/// A stage that parses does not look past its own tokens: with more tokens
/// behind them it parses to the same stage.
pub proof fn lemma_parsed_stage_ignores_rest(tokens: Seq<Seq<char>>, more: Seq<Seq<char>>)
    requires
        parse_stage(tokens).result is Ok,
    ensures
        parse_stage(tokens + more) == parse_stage(tokens),
        (tokens + more).skip(parse_stage(tokens).consumed as int) == tokens.skip(
            parse_stage(tokens).consumed as int,
        ) + more,
{
    let all = tokens + more;
    assert(all[0] == tokens[0]);
    if tokens.len() >= 2 {
        assert(all[1] == tokens[1]);
    }
    if tokens.len() >= 3 {
        assert(all[2] == tokens[2]);
    }
    assert(all.skip(parse_stage(tokens).consumed as int) =~= tokens.skip(
        parse_stage(tokens).consumed as int,
    ) + more);
}

/// A token that names no stage, where a stage is expected, fails the parse
/// with `UnknownStage` naming that token, wherever in the sequence it
/// stands: after any tokens that parse as whole stages, and whatever
/// follows it.
pub proof fn lemma_unknown_token_fails(
    before: Seq<Seq<char>>,
    token: Seq<char>,
    after: Seq<Seq<char>>,
)
    requires
        parse_pipeline(before).result is Ok,
        stage_token(token) is None,
    ensures
        parse_pipeline(before + seq![token] + after).result == Err::<Seq<StageView>, ErrorView>(
            ErrorView::UnknownStage(token),
        ),
    decreases before.len(),
{
    let tail = seq![token] + after;
    assert(before + seq![token] + after =~= before + tail);
    if before.len() == 0 {
        assert(before + tail =~= tail);
        assert(tail[0] == token);
    } else {
        let first = parse_stage(before);
        lemma_parsed_stage_consumes(before);
        lemma_parsed_stage_ignores_rest(before, tail);
        let remaining = before.skip(first.consumed as int);
        lemma_unknown_token_fails(remaining, token, after);
        assert(remaining + seq![token] + after =~= remaining + tail);
    }
}

/// Where a run stands: the index of the stage to run next, and the current
/// image, if there is one.
#[derive(Debug)]
pub struct Progress {
    pub position: usize,
    pub image: Option<Image>,
}

/// What the caller of a step has to do next.
#[derive(Debug)]
pub enum Action {
    /// Nothing outside: take the next step.
    Continue,
    /// Read the file at this path, and take the next step with its bytes.
    Read(String),
    /// Write this image, and take the next step with the outcome.
    Write(PngJob),
    /// Every stage has run: the pipeline has succeeded.
    Finished,
    /// A stage has failed, and the pipeline with it.
    Failed(PipelineError),
}

impl View for Pipeline {
    type V = Seq<StageView>;

    open spec fn view(&self) -> Seq<StageView> {
        Seq::new(self.stages().len(), |i: int| self.stages()[i]@)
    }
}

impl Pipeline {
    /// The stages, in the order in which they run.
    pub closed spec fn stages(&self) -> Seq<Stage> {
        self.stages@
    }

    /// Builds the pipeline that `args` spells out, taking the tokens off
    /// `args` as they are read. Stops at the first stage that fails to
    /// parse, leaving in `args` what that stage did not take.
    pub fn from_args(args: &mut VecDeque<String>) -> (r: Result<Pipeline, PipelineError>)
        ensures
            final(args).deep_view() == parse_pipeline(old(args).deep_view()).rest,
            r matches Ok(pipeline) ==> parse_pipeline(old(args).deep_view()).result == Ok::<
                Seq<StageView>,
                ErrorView,
            >(pipeline@),
            r matches Err(e) ==> parse_pipeline(old(args).deep_view()).result == Err::<
                Seq<StageView>,
                ErrorView,
            >(e@),
    {
        let mut stages: Vec<Stage> = Vec::new();
        let ghost all = args.deep_view();
        let ghost mut done: Seq<StageView> = Seq::empty();
        assert(seq_prepend(done, parse_pipeline(all)) == parse_pipeline(all)) by {
            lemma_prepend_nothing(parse_pipeline(all));
        }
        while args.len() > 0
            invariant
                all == old(args).deep_view(),
                done.len() == stages@.len(),
                forall|i: int| 0 <= i < done.len() ==> done[i] == #[trigger] stages@[i]@,
                parse_pipeline(all) == seq_prepend(done, parse_pipeline(args.deep_view())),
            decreases args@.len(),
        {
            let ghost tokens = args.deep_view();
            let parsed = Stage::consume_args_and_create(args);
            match parsed {
                Ok(stage) => {
                    proof {
                        lemma_parsed_stage_consumes(tokens);
                        lemma_prepend_step(done, stage@, parse_pipeline(args.deep_view()));
                        done = done.push(stage@);
                    }
                    stages.push(stage);
                },
                Err(e) => {
                    assert(parse_pipeline(tokens).result == Err::<Seq<StageView>, ErrorView>(e@));
                    return Err(e);
                },
            }
        }
        let pipeline = Pipeline { stages };
        proof {
            assert(pipeline@ =~= done);
            assert(done + Seq::<StageView>::empty() =~= done);
        }
        Ok(pipeline)
    }

    /// The state in which a run starts: before the first stage, with no
    /// image.
    pub fn start() -> (progress: Progress)
        ensures
            progress.position == 0,
            progress.image is None,
    {
        Progress { position: 0, image: None }
    }

    /// The number of stages.
    pub fn len(&self) -> (n: usize)
        ensures
            n == self.stages().len(),
    {
        self.stages.len()
    }

    /// The stage at `index`, counting from 0 in running order.
    pub fn stage(&self, index: usize) -> (stage: Option<&Stage>)
        ensures
            stage is Some <==> index < self.stages().len(),
            stage matches Some(s) ==> *s == self.stages()[index as int],
    {
        if index < self.stages.len() {
            Some(&self.stages[index])
        } else {
            None
        }
    }

    /// What `run` returns from `progress` for `reply`, given the filter
    /// `filter`.
    ///
    /// Past the last stage the run is finished. Before that the stage at
    /// `progress.position` runs on the current image: when it is done the
    /// run moves on with what the stage hands on; when it asks for outside
    /// work or fails, the run stays where it is.
    pub open spec fn stepped<
        A: Copy,
        Acc: Fn(A, &SampleSite, usize, usize, Color) -> A,
        Fin: Fn(A) -> Option<Color>,
    >(
        &self,
        progress: Progress,
        reply: Reply,
        filter: &Filter<A, Acc, Fin>,
        r: (Progress, Action),
    ) -> bool {
        if progress.position >= self.stages().len() {
            r.0 == progress && r.1 is Finished
        } else {
            let stage = self.stages()[progress.position as int];
            let input = match progress.image {
                Some(image) => Some(&image),
                None => None,
            };
            match r.1 {
                Action::Continue => {
                    &&& r.0.position == progress.position + 1
                    &&& stage.ran(input, reply, filter, Ok(Step::Done(r.0.image)))
                },
                Action::Read(path) => r.0 == progress && stage.ran(
                    input,
                    reply,
                    filter,
                    Ok(Step::Read(path)),
                ),
                Action::Write(job) => r.0 == progress && stage.ran(
                    input,
                    reply,
                    filter,
                    Ok(Step::Write(job)),
                ),
                Action::Failed(e) => r.0 == progress && stage.ran(input, reply, filter, Err(e)),
                Action::Finished => false,
            }
        }
    }

    /// Takes one step of a run: runs the stage that `progress` points at on
    /// the current image, with `reply` as the outcome of the outside work
    /// that the step before asked for, and tells what to do next.
    ///
    /// Stages run in order, each on what the one before handed on. The run
    /// starts from `Pipeline::start()` with `Reply::Nothing`, and ends with
    /// `Action::Finished` or, at the first stage that fails, with
    /// `Action::Failed`.
    pub fn run<
        A: Copy,
        Acc: Fn(A, &SampleSite, usize, usize, Color) -> A,
        Fin: Fn(A) -> Option<Color>,
    >(
        &self,
        progress: Progress,
        reply: Reply,
        filter: &Filter<A, Acc, Fin>,
    ) -> (r: (Progress, Action))
        requires
            accepts_all(filter),
        ensures
            self.stepped(progress, reply, filter, r),
    {
        if progress.position >= self.stages.len() {
            return (progress, Action::Finished);
        }
        let outcome = self.stages[progress.position].run(progress.image.as_ref(), reply, filter);
        match outcome {
            Ok(Step::Done(image)) => (
                Progress { position: progress.position + 1, image },
                Action::Continue,
            ),
            Ok(Step::Read(path)) => (progress, Action::Read(path)),
            Ok(Step::Write(job)) => (progress, Action::Write(job)),
            Err(e) => (progress, Action::Failed(e)),
        }
    }
}

/// `parse` with the stages `done` put before its own.
spec fn seq_prepend(done: Seq<StageView>, parse: PipelineParse) -> PipelineParse {
    match parse.result {
        Ok(stages) => PipelineParse { result: Ok(done + stages), rest: parse.rest },
        Err(e) => parse,
    }
}

proof fn lemma_prepend_nothing(parse: PipelineParse)
    ensures
        seq_prepend(Seq::empty(), parse) == parse,
{
    match parse.result {
        Ok(stages) => {
            assert(Seq::<StageView>::empty() + stages =~= stages);
        },
        Err(e) => {},
    }
}

proof fn lemma_prepend_step(done: Seq<StageView>, stage: StageView, parse: PipelineParse)
    ensures
        seq_prepend(
            done,
            match parse.result {
                Ok(stages) => PipelineParse { result: Ok(seq![stage] + stages), rest: parse.rest },
                Err(e) => parse,
            },
        ) == seq_prepend(done.push(stage), parse),
{
    match parse.result {
        Ok(stages) => {
            assert(done + (seq![stage] + stages) =~= done.push(stage) + stages);
        },
        Err(e) => {},
    }
}

} // verus!
