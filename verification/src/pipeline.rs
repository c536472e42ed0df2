//! The processors that run on each sealed segment.
use crate::writer::{Disk, WriterMode};
use std::marker::PhantomData;
use vstd::prelude::*;

verus! {

/// Where segments are uploaded.
#[derive(Debug)]
pub struct S3Config {
    /// The entries that describe the upload's origin: bucket, service name,
    /// instance path and boot id.
    pub metadata: Vec<(String, String)>,
}

impl S3Config {
    /// The entries to write into every segment.
    pub fn as_metadata(&self) -> (r: Vec<(String, String)>)
        ensures
            r@ == self.metadata@,
    {
        let mut r: Vec<(String, String)> = Vec::new();
        let mut i: usize = 0;
        while i < self.metadata.len()
            invariant
                i <= self.metadata@.len(),
                r@ =~= self.metadata@.take(i as int),
            decreases self.metadata@.len() - i,
        {
            r.push((self.metadata[i].0.clone(), self.metadata[i].1.clone()));
            i = i + 1;
        }
        r
    }
}

/// Uploads segments, with a client if one was given.
#[derive(Debug)]
pub struct S3PipelineUploader {
    pub config: S3Config,
    /// The client, by its number.
    pub client: Option<u64>,
}

/// A step that each sealed segment goes through.
#[derive(Debug)]
pub enum Processor {
    /// Resolves addresses to symbols.
    Symbolize,
    /// Compresses the segment.
    Gzip,
    /// Writes the processed segment back to disk.
    WriteBack,
    /// Uploads the segment.
    S3(S3PipelineUploader),
    /// A processor of the user, by its number.
    User(u64),
}

/// How the processors are chosen.
#[derive(Debug)]
pub enum PipelineConfig {
    /// Not chosen.
    Unset,
    /// The upload preset.
    S3(S3PipelineUploader),
    /// Exactly the given processors.
    Custom(Vec<Processor>),
}

/// The processors that a choice gives.
///
/// The presets symbolize first if CPU profiling is on. Without a choice and
/// without CPU profiling there are none. A custom pipeline is taken as it is.
pub open spec fn assembled(cpu_profiling: bool, disk: bool, pipeline: PipelineConfig) -> Seq<
    Processor,
> {
    let symbolize = if cpu_profiling {
        seq![Processor::Symbolize]
    } else {
        Seq::empty()
    };
    match pipeline {
        PipelineConfig::Unset => if !cpu_profiling {
            Seq::empty()
        } else if disk {
            symbolize + seq![Processor::Gzip, Processor::WriteBack]
        } else {
            symbolize + seq![Processor::Gzip]
        },
        PipelineConfig::S3(uploader) => symbolize + seq![
            Processor::Gzip,
            Processor::S3(uploader),
        ],
        PipelineConfig::Custom(user) => user@,
    }
}

/// Builds the list of processors.
pub fn assemble_processors(cpu_profiling: bool, disk: bool, pipeline: PipelineConfig) -> (r: Vec<
    Processor,
>)
    ensures
        r@ == assembled(cpu_profiling, disk, pipeline),
{
    let mut processors: Vec<Processor> = Vec::new();
    match pipeline {
        PipelineConfig::Unset => {
            if cpu_profiling {
                processors.push(Processor::Symbolize);
                processors.push(Processor::Gzip);
                if disk {
                    processors.push(Processor::WriteBack);
                }
            }
            assert(processors@ =~= assembled(cpu_profiling, disk, pipeline));
        },
        PipelineConfig::S3(uploader) => {
            if cpu_profiling {
                processors.push(Processor::Symbolize);
            }
            processors.push(Processor::Gzip);
            processors.push(Processor::S3(uploader));
            assert(processors@ =~= assembled(cpu_profiling, disk, pipeline));
        },
        PipelineConfig::Custom(user) => {
            processors = user;
        },
    }
    processors
}

/// Handing an assembled list on as a custom pipeline changes nothing.
pub proof fn law_an_assembled_pipeline_is_final(
    cpu_profiling: bool,
    disk: bool,
    pipeline: PipelineConfig,
    list: Vec<Processor>,
)
    requires
        list@ == assembled(cpu_profiling, disk, pipeline),
    ensures
        assembled(cpu_profiling, disk, PipelineConfig::Custom(list)) == assembled(
            cpu_profiling,
            disk,
            pipeline,
        ),
{
}

/// Only a disk writer's presets write segments back.
pub proof fn law_presets_write_back_only_to_disk(cpu_profiling: bool, disk: bool, i: int)
    requires
        0 <= i < assembled(cpu_profiling, disk, PipelineConfig::Unset).len(),
        assembled(cpu_profiling, disk, PipelineConfig::Unset)[i] is WriteBack,
    ensures
        disk,
        cpu_profiling,
{
}

/// Chooses the processors of a custom pipeline, for a kind of writer.
#[derive(Debug)]
pub struct PipelineBuilder<Mode: WriterMode> {
    pub processors: Vec<Processor>,
    pub mode: PhantomData<Mode>,
}

impl<Mode: WriterMode> PipelineBuilder<Mode> {
    /// A pipeline without processors.
    pub fn new() -> (r: Self)
        ensures
            r.processors@ == Seq::<Processor>::empty(),
    {
        PipelineBuilder { processors: Vec::new(), mode: PhantomData }
    }

    fn with(self, processor: Processor) -> (r: Self)
        ensures
            r.processors@ == self.processors@.push(processor),
    {
        let mut next = self;
        next.processors.push(processor);
        next
    }

    /// Appends symbolization.
    pub fn symbolize(self) -> (r: Self)
        ensures
            r.processors@ == self.processors@.push(Processor::Symbolize),
    {
        self.with(Processor::Symbolize)
    }

    /// Appends compression.
    pub fn gzip(self) -> (r: Self)
        ensures
            r.processors@ == self.processors@.push(Processor::Gzip),
    {
        self.with(Processor::Gzip)
    }

    /// Appends an upload.
    pub fn s3(self, config: S3Config) -> (r: Self)
        ensures
            r.processors@ == self.processors@.push(
                Processor::S3(S3PipelineUploader { config, client: None }),
            ),
    {
        self.with(Processor::S3(S3PipelineUploader { config, client: None }))
    }

    /// Appends a processor of the user.
    pub fn pipe(self, id: u64) -> (r: Self)
        ensures
            r.processors@ == self.processors@.push(Processor::User(id)),
    {
        self.with(Processor::User(id))
    }

    /// The processors, in order.
    pub fn into_processors(self) -> (r: Vec<Processor>)
        ensures
            r == self.processors,
    {
        self.processors
    }
}

impl PipelineBuilder<Disk> {
    /// Appends writing the segment back to disk.
    pub fn write_back(self) -> (r: Self)
        ensures
            r.processors@ == self.processors@.push(Processor::WriteBack),
    {
        self.with(Processor::WriteBack)
    }
}

/// With CPU profiling every preset symbolizes, first and once; without it none
/// does, and there is nothing to do at all unless segments are uploaded. The
/// upload preset ends with compression and then the upload.
pub proof fn law_presets_symbolize_for_profiles(
    cpu_profiling: bool,
    disk: bool,
    uploader: S3PipelineUploader,
)
    ensures
        ({
            let none = assembled(cpu_profiling, disk, PipelineConfig::Unset);
            let upload = assembled(cpu_profiling, disk, PipelineConfig::S3(uploader));
            &&& !cpu_profiling ==> none.len() == 0 && upload.len() == 2
            &&& cpu_profiling ==> {
                &&& none[0] is Symbolize
                &&& none[1] is Gzip
                &&& disk ==> none.len() == 3 && none[2] is WriteBack
                &&& !disk ==> none.len() == 2
                &&& upload.len() == 3
                &&& upload[0] is Symbolize
            }
            &&& upload[upload.len() - 2] is Gzip
            &&& upload[upload.len() - 1] == Processor::S3(uploader)
        }),
{
}

/// A custom pipeline has the processors that were given, and no others.
pub proof fn law_a_custom_pipeline_is_taken_as_it_is(
    cpu_profiling: bool,
    disk: bool,
    list: Vec<Processor>,
)
    ensures
        assembled(cpu_profiling, disk, PipelineConfig::Custom(list)) == list@,
{
}

} // verus!
