//! Configuration of the cognitive engine.
use crate::enrichment::EnrichmentConfig;
use crate::entity_extraction::EntityExtractionConfig;
use crate::float::Single;
use vstd::prelude::*;

verus! {

/// Configuration for the cognitive engine subsystems.
#[derive(Clone, Copy, Debug)]
pub struct CognitiveConfig {
    /// Whether write inference (auto-edges, contradiction detection) is enabled on store.
    pub write_inference: bool,
    /// Whether salience decay is applied during retrieval.
    pub decay_on_recall: bool,
    /// Whether pain tracking is enabled.
    pub pain_tracking: bool,
    /// Whether interference detection is available.
    pub interference_detection: bool,
    /// Whether phantom tracking is enabled.
    pub phantom_tracking: bool,
    /// Whether speculative caching is enabled.
    pub speculative_cache: bool,
    /// Whether archival evaluation is available.
    pub archival_evaluation: bool,
    /// Configuration for enrichment between conversations.
    pub enrichment_config: EnrichmentConfig,
    /// Configuration for deterministic entity linking and entity-aware recall.
    pub entity_extraction_config: EntityExtractionConfig,
    /// Similarity threshold for interference detection.
    pub interference_threshold: Single,
    /// Maximum trajectory turns to track.
    pub trajectory_max_turns: usize,
    /// Maximum speculative cache entries.
    pub speculative_cache_size: usize,
    /// Maximum pain signals to retain.
    pub pain_max_warnings: usize,
}

impl Default for CognitiveConfig {
    /// Everything is on; the interference threshold is 0.8.
    fn default() -> (res: Self)
        ensures
            res == (CognitiveConfig {
                write_inference: true,
                decay_on_recall: true,
                pain_tracking: true,
                interference_detection: true,
                phantom_tracking: true,
                speculative_cache: true,
                archival_evaluation: true,
                enrichment_config: EnrichmentConfig::standard(),
                entity_extraction_config: EntityExtractionConfig::standard(),
                interference_threshold: Single { bits: 0x3f4c_cccd },
                trajectory_max_turns: 100,
                speculative_cache_size: 10,
                pain_max_warnings: 5,
            }),
    {
        CognitiveConfig {
            write_inference: true,
            decay_on_recall: true,
            pain_tracking: true,
            interference_detection: true,
            phantom_tracking: true,
            speculative_cache: true,
            archival_evaluation: true,
            enrichment_config: EnrichmentConfig::default(),
            entity_extraction_config: EntityExtractionConfig::default(),
            interference_threshold: Single { bits: 0x3f4c_cccd },
            trajectory_max_turns: 100,
            speculative_cache_size: 10,
            pain_max_warnings: 5,
        }
    }
}

} // verus!
