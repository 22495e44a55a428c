//! Which device processes the frames.

use vstd::prelude::*;

use crate::pipeline::{CpuPipeline, ModelProvider, PipelineSettings};
use crate::segmentation::InferenceDevice;

verus! {

/// How many threads a model gets where the graphics card cannot be used.
pub const CPU_FALLBACK_THREADS: usize = 2;

/// A pipeline on the graphics card with the name of the card, or one on the
/// processor.
pub enum Processor<G, P: ModelProvider> {
    Gpu(G, String),
    Cpu(CpuPipeline<P>),
}

/// Settings that run on the processor.
pub open spec fn on_processor(settings: PipelineSettings) -> PipelineSettings {
    match settings.segmentation.device {
        InferenceDevice::DirectMl { .. } => PipelineSettings {
            segmentation: crate::pipeline::SegmentationSettings {
                device: InferenceDevice::Cpu { threads: CPU_FALLBACK_THREADS },
                ..settings.segmentation
            },
            ..settings
        },
        InferenceDevice::Cpu { .. } => settings,
    }
}

/// The graphics card that settings ask for.
pub fn wanted_adapter(settings: &PipelineSettings) -> (adapter: Option<u32>)
    ensures
        adapter == match settings.segmentation.device {
            InferenceDevice::DirectMl { adapter_index } => Some(adapter_index),
            InferenceDevice::Cpu { .. } => None,
        },
{
    match settings.segmentation.device {
        InferenceDevice::DirectMl { adapter_index } => Some(adapter_index),
        InferenceDevice::Cpu { .. } => None,
    }
}

impl<G, P: ModelProvider> Processor<G, P> {
    /// Takes the pipeline on the graphics card where it was asked for and could
    /// be had, else one on the processor.
    pub fn create(gpu: Option<(G, String)>, provider: P, settings: PipelineSettings) -> (processor:
        Self)
        requires
            settings.wf(),
        ensures
            processor.suits(settings.segmentation.device) <==> (settings.segmentation.device is Cpu
                || gpu is Some),
            match (settings.segmentation.device, gpu) {
                (InferenceDevice::DirectMl { .. }, Some((pipeline, adapter))) => {
                    processor == Processor::<G, P>::Gpu(pipeline, adapter)
                },
                _ => {
                    &&& processor matches Processor::Cpu(pipeline)
                    &&& pipeline.wf()
                    &&& pipeline.current() == on_processor(settings)
                    &&& pipeline.source() == provider
                    &&& pipeline.loaded() is None
                    &&& pipeline.held() is None
                },
            },
    {
        let mut settings = settings;
        if let InferenceDevice::DirectMl { .. } = settings.segmentation.device {
            if let Some((pipeline, adapter)) = gpu {
                return Processor::Gpu(pipeline, adapter);
            }
            settings.segmentation.device = InferenceDevice::Cpu { threads: CPU_FALLBACK_THREADS };
        }
        Processor::Cpu(CpuPipeline::new(provider, settings))
    }

    /// Runs on the kind of device that is asked for.
    pub open spec fn suits(&self, device: InferenceDevice) -> bool {
        (self is Gpu) == (device is DirectMl)
    }

    pub fn runs_on(&self, device: InferenceDevice) -> (runs: bool)
        ensures
            runs == self.suits(device),
    {
        match (self, device) {
            (Processor::Gpu(_, _), InferenceDevice::DirectMl { .. }) => true,
            (Processor::Cpu(_), InferenceDevice::Cpu { .. }) => true,
            _ => false,
        }
    }

    /// The device in words.
    pub fn backend(&self) -> (backend: String)
        ensures
            backend@ == match *self {
                Processor::Gpu(_, adapter) => "GPU: "@ + adapter@,
                Processor::Cpu(_) => "CPU"@,
            },
    {
        let mut backend = String::new();
        match self {
            Processor::Gpu(_, adapter) => {
                backend.append("GPU: ");
                backend.append(adapter.as_str());
                proof {
                    assert(backend@ =~= "GPU: "@ + adapter@);
                }
            },
            Processor::Cpu(_) => {
                backend.append("CPU");
                proof {
                    assert(backend@ =~= "CPU"@);
                }
            },
        }
        backend
    }
}

} // verus!
