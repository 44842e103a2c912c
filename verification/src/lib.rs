//! A causal decoder: layers over rows, prompts, tokens one after the other or guessed
//! ahead, several streams at once, weights from files, and programs for a device.

pub mod adaptive;
pub mod affine;
pub mod append_check;
pub mod archive;
pub mod attend;
pub mod attention;
pub mod batching;
pub mod bookkeeping;
pub mod by_name;
pub mod capture;
pub mod checkpoint;
pub mod cold;
pub mod config;
pub mod context;
pub mod decode;
pub mod decoder;
pub mod device;
pub mod dflash;
pub mod dflash_exactness;
pub mod duo;
pub mod duo_streams;
pub mod error;
pub mod exactness;
pub mod experts;
pub mod firsthand;
pub mod flags;
pub mod formulas;
pub mod guesses;
pub mod heads;
pub mod kernel;
pub mod kv;
pub mod layer;
pub mod layer_route;
pub mod lightbatch;
pub mod lightbatch_exactness;
pub mod lightbatch_order;
pub mod linear;
pub mod loading;
pub mod model;
pub mod mtp;
pub mod mtp_head;
pub mod names;
pub mod numbers;
pub mod options;
pub mod origins;
pub mod pipeline;
pub mod prefill;
pub mod prefix_cache;
pub mod prompts;
pub mod reports;
pub mod resident;
pub mod resident_apart;
pub mod resident_decode;
pub mod resident_drafts;
pub mod resident_fold;
pub mod resident_head;
pub mod resident_lanes;
pub mod resident_prefill;
pub mod resident_rounds;
pub mod resident_spec;
pub mod resident_verify;
pub mod rollback;
pub mod rows;
pub mod sampling;
pub mod settings;
pub mod sidecar;
pub mod sight;
pub mod sink;
pub mod snapshot;
pub mod solo_route;
pub mod speculation;
pub mod stats;
pub mod stops;
pub mod store;
pub mod stored_head;
pub mod tensor;
pub mod transparency;
pub mod verdicts;
pub mod warmth;
pub mod weights;
pub mod wiring;
pub mod xray;
