//! Which way the tokens of a generation are taken: on a device as a whole, with the keys and
//! values there, or on the host.

use vstd::prelude::*;
use crate::kernel::{functional, Kernel};
use crate::model::DecoderModel;
use crate::options::{greedy, is_greedy, GenerationOptions};
use crate::resident_decode::{drawable, drawable_on_device};

verus! {

/// What tokens are taken for.
#[derive(Clone, Copy, PartialEq, Eq, Structural, Debug)]
pub enum DecodeUse {
    /// One generation.
    Solo,
    /// One of several generations in turn.
    Stream,
    /// A generation with guesses of a draft head.
    Guesses,
}

/// What is switched on, and what stands in the way of tokens in flight.
#[derive(Clone, Copy, Debug)]
pub struct SoloSwitches {
    /// The whole decoder may stand on a device.
    pub full: bool,
    /// The keys and values of its full layers may.
    pub layers: bool,
    /// The caller can do without hearing of each token before the next is taken.
    pub allow_pipelined: bool,
    /// Tokens may be in flight together.
    pub pipeline: bool,
    /// Some time has to pass between two tokens.
    pub throttled: bool,
    /// Logits are written down for each token.
    pub dumps: bool,
}

/// The way that the tokens of one generation are taken.
#[derive(Clone, Copy, PartialEq, Eq, Structural, Debug)]
pub enum SoloRoute {
    /// On a device, which chooses them too; with several in flight where `pipelined`.
    Full { pipelined: bool },
    /// On the host, with the keys and values of full layers on a device.
    Layers,
    Host,
}

/// Room for the whole decoder is asked for on a device: that is switched on, the device can
/// take the decoder, and it can choose the tokens, which it does not where they are guided.
/// Guesses are checked there only against the best tokens.
pub open spec fn full_wanted<K: Kernel>(m: DecoderModel<K>, options: GenerationOptions<K::Cell>, wanted: DecodeUse, full: bool, supported: bool) -> bool {
    &&& full
    &&& supported
    &&& match wanted {
        DecodeUse::Solo => !options.guided && (greedy(m.kernel, options) || drawable(m, options)),
        DecodeUse::Stream => greedy(m.kernel, options) || drawable(m, options),
        DecodeUse::Guesses => greedy(m.kernel, options),
    }
}

/// Room for the keys and values of full layers is asked for on a device: that is switched
/// on, and the whole decoder does not stand there.
pub open spec fn layers_wanted<C: Copy>(options: GenerationOptions<C>, wanted: DecodeUse, layers: bool, ready: bool) -> bool {
    layers && !ready && (wanted is Solo ==> !options.guided)
}

/// Tokens go through a decoder that stands on a device with several in flight.
pub open spec fn in_flight<K: Kernel>(m: DecoderModel<K>, options: GenerationOptions<K::Cell>, switches: SoloSwitches) -> bool {
    &&& switches.allow_pipelined
    &&& switches.pipeline
    &&& !switches.throttled
    &&& options.stop_sequences@.len() == 0
    &&& !switches.dumps
    &&& greedy(m.kernel, options) || drawable_on_device(m, options)
}

impl<K: Kernel> DecoderModel<K> {
    /// Whether room for the whole decoder is asked for on a device that can take it where
    /// `supported`.
    pub fn wants_full(&self, options: &GenerationOptions<K::Cell>, wanted: DecodeUse, full: bool, supported: bool) -> (yes: bool)
        ensures
            functional(self.kernel) ==> yes == full_wanted(*self, *options, wanted, full, supported),
            yes ==> full && supported && (wanted is Solo ==> !options.guided),
    {
        if !full || !supported {
            return false;
        }
        let best: bool = is_greedy(&self.kernel, options);
        match wanted {
            DecodeUse::Solo => !options.guided && (best || self.resident_sampling_supported(options)),
            DecodeUse::Stream => best || self.resident_sampling_supported(options),
            DecodeUse::Guesses => best,
        }
    }

    /// Whether room for the keys and values of full layers is asked for on a device, where
    /// the whole decoder stands there if `ready`.
    pub fn wants_layers(&self, options: &GenerationOptions<K::Cell>, wanted: DecodeUse, layers: bool, ready: bool) -> (yes: bool)
        ensures
            yes == layers_wanted(*options, wanted, layers, ready),
    {
        let open: bool = match wanted {
            DecodeUse::Solo => !options.guided,
            _ => true,
        };
        layers && !ready && open
    }

    /// The way that the tokens of one generation are taken. The device can take the decoder
    /// where `supported`, and room was made for it where `ready`.
    pub fn solo_route(&self, options: &GenerationOptions<K::Cell>, switches: &SoloSwitches, supported: bool, ready: bool) -> (route: SoloRoute)
        ensures
            functional(self.kernel) ==> route == if full_wanted(*self, *options, DecodeUse::Solo, switches.full, supported) && ready {
                SoloRoute::Full { pipelined: in_flight(*self, *options, *switches) }
            } else if layers_wanted(*options, DecodeUse::Solo, switches.layers, false) {
                SoloRoute::Layers
            } else {
                SoloRoute::Host
            },
            route is Full ==> switches.full && supported && ready && !options.guided,
            route is Layers ==> switches.layers && !options.guided,
    {
        if ready && self.wants_full(options, DecodeUse::Solo, switches.full, supported) {
            let choosable: bool = is_greedy(&self.kernel, options) || self.resident_sampling_on_device(options);
            let pipelined: bool = switches.allow_pipelined && switches.pipeline && !switches.throttled && options.stop_sequences.len() == 0
                && !switches.dumps && choosable;
            return SoloRoute::Full { pipelined };
        }
        if self.wants_layers(options, DecodeUse::Solo, switches.layers, false) {
            SoloRoute::Layers
        } else {
            SoloRoute::Host
        }
    }
}

} // verus!
