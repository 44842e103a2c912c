//! A decoder read from a file of dense tensors.

use vstd::prelude::*;
use safetensors::SafeTensors;
use crate::archive::{archive_names, archive_tensor, contents, in_range, is_in_range, parsed, read_archive};
use crate::config::CausalDecoderConfig;
use crate::decoder::CausalDecoder;
use crate::error::{Fault, InferError};
use crate::flags::DecoderFlags;
use crate::kernel::{functional, Kernel};
use crate::loading::{all_parts, fetch_model, ModelParts};
use crate::prefix_cache::EntryView;
use crate::sidecar::{decode_tensor, lists, numbers_of, tensor_numbers, Numbers};
use crate::store::{DecoderTensor, Taken, TensorStore};

verus! {

/// Weights by name hold the numbers of a file, each under its name.
pub open spec fn holds_file<K: Kernel>(k: K, files: Map<Seq<char>, (Seq<char>, Seq<usize>, Seq<u8>)>, store: Map<Seq<char>, DecoderTensor<K::Cell>>) -> bool {
    &&& store.dom() =~= files.dom()
    &&& forall|name: Seq<char>| #[trigger] store.contains_key(name) ==> is_stored(k, files, store, name)
}

pub open spec fn is_stored<K: Kernel>(k: K, files: Map<Seq<char>, (Seq<char>, Seq<usize>, Seq<u8>)>, store: Map<Seq<char>, DecoderTensor<K::Cell>>, name: Seq<char>) -> bool {
    store[name] matches DecoderTensor::Dense(tensor) && numbers_of(k, files[name]) == Result::<Numbers<K::Cell>, Fault>::Ok(tensor_numbers(tensor))
}

/// A tensor of a file is refused with this fault.
pub open spec fn is_refused<K: Kernel>(k: K, files: Map<Seq<char>, (Seq<char>, Seq<usize>, Seq<u8>)>, name: Seq<char>, fault: Fault) -> bool {
    files.contains_key(name) && numbers_of(k, files[name]) == Result::<Numbers<K::Cell>, Fault>::Err(fault)
}

fn load_store<K: Kernel>(k: &K, archive: &SafeTensors<'_>, names: &Vec<String>) -> (out: Result<TensorStore<K::Cell>, InferError>)
    requires
        lists(names@, contents(*archive)),
    ensures
        out matches Ok(store) ==> store.wf(),
        functional(*k) ==> match out {
            Ok(store) => holds_file(*k, contents(*archive), store@),
            Err(error) => exists|name: Seq<char>| #[trigger] is_refused(*k, contents(*archive), name, error.fault()),
        },
{
    let ghost files = contents(*archive);
    let mut store: TensorStore<K::Cell> = TensorStore::new();
    let n: usize = names.len();
    for i in 0..n
        invariant
            n == names@.len(),
            files == contents(*archive),
            lists(names@, files),
            store.wf(),
            forall|j: int| 0 <= j < i ==> store@.contains_key((#[trigger] names@[j])@),
            forall|name: Seq<char>| #[trigger] store@.contains_key(name) ==> files.contains_key(name),
            functional(*k) ==> forall|name: Seq<char>| #[trigger] store@.contains_key(name) ==> is_stored(*k, files, store@, name),
    {
        let name: String = names[i].clone();
        assert(files.contains_key(names@[i as int]@));
        match archive_tensor(archive, &name) {
            Ok((format, shape, data)) => match decode_tensor(k, &format, shape, &data) {
                Ok(tensor) => {
                    let ghost before = store@;
                    let ghost key = name@;
                    store.insert(name, DecoderTensor::Dense(tensor));
                    assert forall|other: Seq<char>| functional(*k) && #[trigger] store@.contains_key(other) implies is_stored(*k, files, store@, other) by {
                        if other != key {
                            assert(before.contains_key(other));
                            assert(is_stored(*k, files, before, other));
                        }
                    }
                },
                Err(error) => {
                    assert(functional(*k) ==> is_refused(*k, files, name@, error.fault()));
                    return Err(error);
                },
            },
            Err(_) => {
                assert(false);
                return Err(InferError::MissingWeight(name));
            },
        }
    }
    assert forall|name: Seq<char>| files.dom().contains(name) implies #[trigger] store@.dom().contains(name) by {
        assert(files.contains_key(name));
        let i = choose|i: int| 0 <= i < names@.len() && (#[trigger] names@[i])@ == name;
        assert(store@.contains_key(names@[i]@));
    }
    assert forall|name: Seq<char>| #[trigger] store@.dom().contains(name) implies files.dom().contains(name) by {
        assert(store@.contains_key(name));
    }
    assert(store@.dom() =~= files.dom());
    Ok(store)
}

/// The decoder has the numbers that a store gives its configuration.
#[verifier::opaque]
pub open spec fn is_decoder<K: Kernel>(k: K, config: CausalDecoderConfig<K::Cell>, files: Map<Seq<char>, (Seq<char>, Seq<usize>, Seq<u8>)>, store: Map<Seq<char>, DecoderTensor<K::Cell>>, decoder: CausalDecoder<K>) -> bool {
    &&& holds_file(k, files, store)
    &&& fetch_model(k, config, store) matches Ok((_, parts)) && parts == (ModelParts {
        embed_tokens: decoder.model.embed_tokens,
        layers: all_parts(decoder.model.layers@),
        final_norm: decoder.model.final_norm,
        lm_head: decoder.model.lm_head,
    })
}

/// No decoder comes of a store of the numbers of a file.
#[verifier::opaque]
pub open spec fn no_decoder<K: Kernel>(k: K, config: CausalDecoderConfig<K::Cell>, files: Map<Seq<char>, (Seq<char>, Seq<usize>, Seq<u8>)>, store: Map<Seq<char>, DecoderTensor<K::Cell>>, fault: Fault) -> bool {
    holds_file(k, files, store) && fetch_model(k, config, store) == Taken::<K::Cell, ModelParts<K::Cell>>::Err(fault)
}

/// A decoder as it comes from its weights: without a draft head, and with no prompts kept.
pub open spec fn fresh_decoder<K: Kernel>(decoder: CausalDecoder<K>, kernel: K, config: CausalDecoderConfig<K::Cell>, flags: DecoderFlags) -> bool {
    &&& decoder.wf()
    &&& decoder.model.kernel == kernel
    &&& decoder.model.config == config
    &&& decoder.model.flags == flags
    &&& decoder.model.mtp is None
    &&& decoder.model.mtp_draft_lm_head is None
    &&& decoder.model.layers@.len() == config.num_hidden_layers
    &&& decoder.prefix_cache@ == Seq::<EntryView<K::Cell>>::empty()
}

fn assemble<K: Kernel>(
    kernel: K,
    store: TensorStore<K::Cell>,
    config: CausalDecoderConfig<K::Cell>,
    flags: DecoderFlags,
    Ghost(files): Ghost<Map<Seq<char>, (Seq<char>, Seq<usize>, Seq<u8>)>>,
) -> (out: Result<CausalDecoder<K>, InferError>)
    requires
        store.wf(),
        functional(kernel) ==> holds_file(kernel, files, store@),
    ensures
        out matches Ok(decoder) ==> fresh_decoder(decoder, kernel, config, flags),
        functional(kernel) ==> match out {
            Ok(decoder) => is_decoder(kernel, config, files, store@, decoder),
            Err(error) => no_decoder(kernel, config, files, store@, error.fault()),
        },
{
    reveal(is_decoder);
    reveal(no_decoder);
    CausalDecoder::from_tensors(kernel, store, config, flags)
}

impl<K: Kernel> CausalDecoder<K> {
    /// A decoder from the bytes of a file of dense tensors. Refused where they are not a
    /// file of tensors, where their header speaks of a file beyond the machine's range, where
    /// a tensor cannot be read, or where a weight is missing or does not fit.
    pub fn from_safetensors(kernel: K, bytes: &Vec<u8>, config: CausalDecoderConfig<K::Cell>, flags: DecoderFlags) -> (out: Result<CausalDecoder<K>, InferError>)
        ensures
            out matches Ok(decoder) ==> fresh_decoder(decoder, kernel, config, flags),
            !in_range(bytes@) || parsed(bytes@) is None ==> (out matches Err(error) && error is Config),
            functional(kernel) && in_range(bytes@) && parsed(bytes@) is Some ==> match out {
                Ok(decoder) => exists|store: Map<Seq<char>, DecoderTensor<K::Cell>>| #[trigger]
                    is_decoder(kernel, config, parsed(bytes@)->0, store, decoder),
                Err(error) => {
                    ||| exists|name: Seq<char>| #[trigger] is_refused(kernel, parsed(bytes@)->0, name, error.fault())
                    ||| exists|store: Map<Seq<char>, DecoderTensor<K::Cell>>| #[trigger]
                        no_decoder(kernel, config, parsed(bytes@)->0, store, error.fault())
                },
            },
    {
        if !is_in_range(bytes) {
            return Err(InferError::Config("header of the model out of range"));
        }
        match read_archive(bytes) {
            Ok(archive) => {
                let names: Vec<String> = archive_names(&archive);
                assert(lists(names@, contents(archive)));
                let ghost files = contents(archive);
                assert(parsed(bytes@)->0 == files);
                match load_store(&kernel, &archive, &names) {
                    Ok(store) => {
                        let ghost weights = store@;
                        let out: Result<CausalDecoder<K>, InferError> = assemble(kernel, store, config, flags, Ghost(files));
                        assert(functional(kernel) && out is Ok ==> is_decoder(kernel, config, files, weights, out->Ok_0));
                        assert(functional(kernel) && out is Err ==> no_decoder(kernel, config, files, weights, (out->Err_0).fault()));
                        out
                    },
                    Err(error) => {
                        assert(functional(kernel) ==> exists|name: Seq<char>| #[trigger] is_refused(kernel, files, name, error.fault()));
                        Err(error)
                    },
                }
            },
            Err(_) => Err(InferError::Config("model is not a file of tensors")),
        }
    }
}

} // verus!
