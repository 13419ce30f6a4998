//! A whole run of resizing: what each texture becomes, and what is counted.

use vstd::prelude::*;
use crate::texture_resize::{DecodedModel, DecodedTexture, RasterImage, RasterModel, ResizeSummary, ResizeTotals, TextureKind, MAX_RESIZE_ERRORS};
use crate::batch;
use crate::geodata_plan;
use crate::paths;
use crate::text;
use crate::texture_resize;

verus! {

/// The texture that a file holds.
pub open spec fn texture_read(path: Seq<char>, file: Seq<u8>) -> Result<DecodedModel, Seq<char>> {
    if paths::has_extension_of(path, "tga"@) || texture_resize::is_countable_dds(file) {
        texture_resize::decoded_from(
            path,
            texture_resize::tga_image(file),
            texture_resize::dds_format_read(file),
            texture_resize::dds_image(file),
        )
    } else {
        Err("DDS inválido em "@ + path + ": dimensões muito grandes"@)
    }
}

/// Whether a texture of one size becomes a file: the source byte for byte, or, if
/// it has that size and is to have another, a picture of the new size in the kind
/// of the source.
pub open spec fn is_output_of(
    path: Seq<char>,
    source: Seq<u8>,
    from: u32,
    to: u32,
    file: Seq<u8>,
    resized: bool,
) -> bool {
    &&& texture_read(path, source) matches Ok(texture)
    &&& resized == texture_resize::is_resized(texture.image, from, to)
    &&& resized ==> texture_resize::shows_size(texture.kind, to, to, file)
    &&& !resized ==> file == source
}

/// A texture that was read, and whether it is to be resized.
#[derive(Debug)]
pub struct ResizeJob {
    pub path: String,
    pub source: Vec<u8>,
    pub texture: DecodedTexture,
    pub resized: bool,
    pub from: u32,
    pub to: u32,
}

impl ResizeJob {
    pub open spec fn wf(&self) -> bool {
        &&& texture_read(self.path@, self.source@) == Ok::<DecodedModel, Seq<char>>(self.texture@)
        &&& self.resized == texture_resize::is_resized(self.texture@.image, self.from, self.to)
        &&& texture_resize::is_filled(self.texture@.image)
        &&& texture_resize::supported(self.to)
    }

    /// Reads a texture.
    pub fn start(path: &str, source: Vec<u8>, from: u32, to: u32) -> (r: Result<Self, String>)
        requires
            texture_resize::supported(to),
        ensures
            match r {
                Ok(job) => {
                    &&& job.wf()
                    &&& job.path@ == path@
                    &&& job.source@ == source@
                    &&& job.from == from
                    &&& job.to == to
                },
                Err(message) => texture_read(path@, source@) == Err::<DecodedModel, Seq<char>>(
                    message@,
                ),
            },
    {
        if !paths::has_extension(path, "tga") && !texture_resize::has_countable_rows(
            source.as_slice(),
        ) {
            return Err(text::join3("DDS inválido em ", path, ": dimensões muito grandes"));
        }
        let texture = texture_resize::decode_texture(path, source.as_slice())?;
        let resized = texture_resize::should_resize(&texture.image, from, to);
        Ok(ResizeJob { path: path.to_owned(), source, texture, resized, from, to })
    }

    /// The file that the texture becomes. A texture that is to be resized is given
    /// the picture of its new size.
    pub fn finish(self, scaled: Option<RasterImage>) -> (r: Result<FinishedTexture, String>)
        requires
            self.wf(),
            self.resized == scaled is Some,
            scaled matches Some(image) ==> image.width == self.to && image.height == self.to
                && texture_resize::is_filled(image@),
        ensures
            r matches Ok(done) && {
                &&& done.wf()
                &&& done.path@ == self.path@
                &&& done.source@ == self.source@
                &&& done.from == self.from
                &&& done.to == self.to
                &&& done.replaced is Some == self.resized
                &&& scaled matches Some(image) ==> is_picture(
                    image@,
                    self.texture.kind,
                    done.contents(),
                )
            },
    {
        let kind: TextureKind = self.texture.kind;
        let replaced = match scaled {
            None => None,
            Some(image) => {
                proof {
                    let side = self.to as int;
                    assert(side * side * 4 <= 2048 * 2048 * 4) by (nonlinear_arith)
                        requires
                            0 <= side <= 2048,
                    ;
                }
                Some(texture_resize::output_file(Vec::new(), kind, Some(image))?)
            },
        };
        Ok(
            FinishedTexture {
                path: self.path,
                source: self.source,
                replaced,
                from: self.from,
                to: self.to,
            },
        )
    }
}

/// Whether a file of a kind is what the encoder makes of an image.
pub open spec fn is_picture(image: RasterModel, kind: TextureKind, file: Seq<u8>) -> bool {
    match kind {
        TextureKind::Tga => texture_resize::tga_encoded(image.width, image.height, image.pixels)
            == Ok::<Seq<u8>, Seq<char>>(file),
        TextureKind::Dds(format) => texture_resize::is_dds_of(image, format, file),
    }
}

/// A texture and the file that it becomes: another one, or the source.
#[derive(Debug)]
pub struct FinishedTexture {
    pub path: String,
    pub source: Vec<u8>,
    pub replaced: Option<Vec<u8>>,
    pub from: u32,
    pub to: u32,
}

impl FinishedTexture {
    pub open spec fn contents(&self) -> Seq<u8> {
        match self.replaced {
            Some(file) => file@,
            None => self.source@,
        }
    }

    pub open spec fn wf(&self) -> bool {
        is_output_of(
            self.path@,
            self.source@,
            self.from,
            self.to,
            self.contents(),
            self.replaced is Some,
        )
    }

    /// What is written.
    pub fn file(&self) -> (r: &[u8])
        ensures
            r@ == self.contents(),
    {
        match &self.replaced {
            Some(file) => file.as_slice(),
            None => self.source.as_slice(),
        }
    }
}

/// A texture that was written.
pub struct WrittenTexture {
    pub source: Seq<u8>,
    pub file: Seq<u8>,
    pub resized: bool,
    pub copied: bool,
}

/// What became of one texture of a run.
pub struct RunOutcome {
    pub path: Seq<char>,
    pub result: Result<WrittenTexture, Seq<char>>,
}

/// Whether every texture that did not fail became what it has to.
pub open spec fn are_outputs(outcomes: Seq<RunOutcome>, from: u32, to: u32) -> bool {
    forall|i: int|
        0 <= i < outcomes.len() ==> {
            let one = #[trigger] outcomes[i];
            one.result matches Ok(written) ==> is_output_of(
                one.path,
                written.source,
                from,
                to,
                written.file,
                written.resized,
            )
        }
}

/// An outcome as it is counted.
pub open spec fn counted_outcome(one: RunOutcome) -> (
    Seq<char>,
    Result<(bool, bool), Seq<char>>,
) {
    (
        one.path,
        match one.result {
            Ok(written) => Ok((written.resized, written.copied)),
            Err(error) => Err(error),
        },
    )
}

pub open spec fn counted_outcomes(outcomes: Seq<RunOutcome>) -> Seq<
    (Seq<char>, Result<(bool, bool), Seq<char>>),
> {
    outcomes.map_values(|one: RunOutcome| counted_outcome(one))
}

/// A run over the textures of a folder.
pub struct ResizeRun {
    pub from: u32,
    pub to: u32,
    pub totals: ResizeTotals,
    pub outcomes: Ghost<Seq<RunOutcome>>,
}

impl ResizeRun {
    /// The totals are those of the outcomes so far, and every texture that did not
    /// fail became what it has to.
    pub open spec fn wf(&self) -> bool {
        &&& texture_resize::supported(self.from)
        &&& texture_resize::supported(self.to)
        &&& self.totals@ == texture_resize::run_totals(counted_outcomes(self.outcomes@))
        &&& are_outputs(self.outcomes@, self.from, self.to)
    }

    /// Starts a run from one size to another.
    pub fn start(from: u32, to: u32) -> (r: Result<Self, String>)
        ensures
            match r {
                Ok(run) => {
                    &&& texture_resize::supported(from) && texture_resize::supported(to)
                    &&& run.wf()
                    &&& run.from == from
                    &&& run.to == to
                    &&& run.outcomes@ == Seq::<RunOutcome>::empty()
                },
                Err(message) => !(texture_resize::supported(from) && texture_resize::supported(to))
                    && message@
                    == "A resolução deve ser uma potência de dois entre 4 e 2048 pixels."@,
            },
    {
        texture_resize::validate_resolution(from)?;
        texture_resize::validate_resolution(to)?;
        let run = ResizeRun {
            from,
            to,
            totals: ResizeTotals::empty(),
            outcomes: Ghost(Seq::empty()),
        };
        assert(counted_outcomes(run.outcomes@) =~= Seq::empty());
        Ok(run)
    }

    /// Counts a texture that was written.
    pub fn record_texture(&mut self, done: &FinishedTexture, copied: bool)
        requires
            old(self).wf(),
            done.wf(),
            done.from == old(self).from,
            done.to == old(self).to,
            old(self).totals.resized_files < usize::MAX,
            old(self).totals.preserved_files < usize::MAX,
            old(self).totals.copied_metadata < usize::MAX,
            old(self).totals.failed_files < usize::MAX,
        ensures
            final(self).wf(),
            final(self).from == old(self).from,
            final(self).to == old(self).to,
            final(self).outcomes@ == old(self).outcomes@.push(
                RunOutcome {
                    path: done.path@,
                    result: Ok(
                        WrittenTexture {
                            source: done.source@,
                            file: done.contents(),
                            resized: done.replaced is Some,
                            copied,
                        },
                    ),
                },
            ),
    {
        let resized = done.replaced.is_some();
        self.totals.record(done.path.as_str(), Ok((resized, copied)));
        let ghost one = RunOutcome {
            path: done.path@,
            result: Ok(
                WrittenTexture {
                    source: done.source@,
                    file: done.contents(),
                    resized: done.replaced is Some,
                    copied,
                },
            ),
        };
        let ghost before = self.outcomes@;
        self.outcomes = Ghost(before.push(one));
        proof {
            counted_in_turn(before, one);
        }
    }

    /// Counts a texture that failed.
    pub fn record_failure(&mut self, path: &str, error: String)
        requires
            old(self).wf(),
            old(self).totals.resized_files < usize::MAX,
            old(self).totals.preserved_files < usize::MAX,
            old(self).totals.copied_metadata < usize::MAX,
            old(self).totals.failed_files < usize::MAX,
        ensures
            final(self).wf(),
            final(self).from == old(self).from,
            final(self).to == old(self).to,
            final(self).outcomes@ == old(self).outcomes@.push(
                RunOutcome { path: path@, result: Err(error@) },
            ),
    {
        let ghost one = RunOutcome { path: path@, result: Err(error@) };
        self.totals.record(path, Err(error));
        let ghost before = self.outcomes@;
        self.outcomes = Ghost(before.push(one));
        proof {
            counted_in_turn(before, one);
        }
    }

    /// Sums a run of `total_files` textures up: each was resized, was preserved or
    /// failed, and of the failures the first thirty are told.
    pub fn summary(self, output_directory: &str, total_files: usize) -> (r: ResizeSummary)
        requires
            self.wf(),
            total_files == self.outcomes@.len(),
        ensures
            r.output_directory@ == geodata_plan::shown_path(output_directory@),
            r.total_files == total_files,
            r.resized_files + r.preserved_files + r.failed_files == r.total_files,
            r.copied_metadata <= r.resized_files + r.preserved_files,
            ({
                let outcomes = counted_outcomes(self.outcomes@);
                let totals = texture_resize::run_totals(outcomes);
                let failed = texture_resize::failures(outcomes);
                &&& r.resized_files == totals.resized
                &&& r.preserved_files == totals.preserved
                &&& r.copied_metadata == totals.copied
                &&& r.failed_files == totals.failed == failed.len()
                &&& batch::texts_of(r.errors@) == failed.take(
                    if failed.len() < MAX_RESIZE_ERRORS {
                        failed.len() as int
                    } else {
                        MAX_RESIZE_ERRORS as int
                    },
                )
            }),
    {
        proof {
            texture_resize::every_texture_is_counted(counted_outcomes(self.outcomes@));
        }
        self.totals.summary(output_directory, total_files)
    }
}

proof fn counted_in_turn(outcomes: Seq<RunOutcome>, one: RunOutcome)
    ensures
        counted_outcomes(outcomes.push(one)).len() > 0,
        counted_outcomes(outcomes.push(one)).drop_last() == counted_outcomes(outcomes),
        counted_outcomes(outcomes.push(one)).last() == counted_outcome(one),
{
    assert(counted_outcomes(outcomes.push(one)).drop_last() =~= counted_outcomes(outcomes));
}

/// The number of textures of a run that were resized, and of those that kept their
/// size.
pub open spec fn written_count(outcomes: Seq<RunOutcome>, resized: bool) -> int
    decreases outcomes.len(),
{
    if outcomes.len() == 0 {
        0
    } else {
        written_count(outcomes.drop_last(), resized) + match outcomes.last().result {
            Ok(written) => if written.resized == resized {
                1int
            } else {
                0
            },
            Err(_) => 0,
        }
    }
}

/// After a run from one size to another, every texture that did not fail is there
/// byte for byte if it has another size or the two sizes are the same, and else as
/// a picture of the new size in its own kind. The counts say how many of each there
/// are.
pub proof fn runs_keep_or_resize(outcomes: Seq<RunOutcome>, from: u32, to: u32)
    requires
        are_outputs(outcomes, from, to),
    ensures
        forall|i: int|
            0 <= i < outcomes.len() ==> {
                let one = #[trigger] outcomes[i];
                one.result matches Ok(written) ==> {
                    &&& texture_read(one.path, written.source) matches Ok(texture)
                    &&& if texture.image.width == from && texture.image.height == from && from
                        != to {
                        texture_resize::shows_size(texture.kind, to, to, written.file)
                    } else {
                        written.file == written.source
                    }
                }
            },
        texture_resize::run_totals(counted_outcomes(outcomes)).resized == written_count(
            outcomes,
            true,
        ),
        texture_resize::run_totals(counted_outcomes(outcomes)).preserved == written_count(
            outcomes,
            false,
        ),
    decreases outcomes.len(),
{
    if outcomes.len() > 0 {
        let front = outcomes.drop_last();
        runs_keep_or_resize(front, from, to);
        counted_in_turn(front, outcomes.last());
        assert(front.push(outcomes.last()) =~= outcomes);
    } else {
        assert(counted_outcomes(outcomes) =~= Seq::empty());
    }
}

} // verus!
