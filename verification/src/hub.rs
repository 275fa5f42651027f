//! Picking files out of a model repository: which files hold weights, which
//! belong to an adapter, and in which order adapters are loaded.
//!
//! Names and paths are compared as bytes, with `/` between the parts of a
//! path.

use vstd::prelude::*;
use vstd::string::StringSliceAdditionalSpecFns;
use crate::pipeline::text_bytes;
use crate::text::{matches_at, occurs_at};

verus! {

/// The byte that separates the parts of a path.
pub const SLASH: u8 = 0x2F;

/// The byte that separates a file name from its extension.
pub const DOT: u8 = 0x2E;

/// `text` ends with `suffix`.
pub open spec fn ends_with(text: Seq<u8>, suffix: Seq<u8>) -> bool {
    suffix.len() <= text.len() && occurs_at(text, suffix, text.len() - suffix.len())
}

/// `pat` occurs somewhere in `text`.
pub open spec fn contains(text: Seq<u8>, pat: Seq<u8>) -> bool {
    exists|i: int| occurs_at(text, pat, i)
}

/// The place of the last `byte` among the first `n` bytes of `text`.
pub open spec fn last_index_of(text: Seq<u8>, byte: u8, n: int) -> Option<int>
    decreases n,
{
    if n <= 0 || n > text.len() {
        None
    } else if text[n - 1] == byte {
        Some(n - 1)
    } else {
        last_index_of(text, byte, n - 1)
    }
}

/// Where the last part of a path starts: behind its last slash.
pub open spec fn file_name_start(path: Seq<u8>) -> int {
    match last_index_of(path, SLASH, path.len() as int) {
        Some(i) => i + 1,
        None => 0,
    }
}

/// The extension of a path: what follows the last dot of its last part.
/// A last part without a dot, or with its only dot in front, has none.
pub open spec fn extension(path: Seq<u8>) -> Option<Seq<u8>> {
    match last_index_of(path, DOT, path.len() as int) {
        Some(dot) => if dot > file_name_start(path) {
            Some(path.skip(dot + 1))
        } else {
            None
        },
        None => None,
    }
}

/// The name of the adapter that a file of a repository belongs to: the part
/// of its path in front of the file name. A path without a slash belongs to
/// none.
pub open spec fn adapter_of(path: Seq<u8>) -> Option<Seq<u8>> {
    match last_index_of(path, SLASH, path.len() as int) {
        None => None,
        Some(last) => Some(
            match last_index_of(path, SLASH, last) {
                Some(before) => path.subrange(before + 1, last),
                None => path.take(last),
            },
        ),
    }
}

/// `last_index_of` gives the last place of the byte, if the byte is there.
pub proof fn lemma_last_index_of(text: Seq<u8>, byte: u8, n: int)
    requires
        0 <= n <= text.len(),
    ensures
        match last_index_of(text, byte, n) {
            Some(i) => 0 <= i < n && text[i] == byte && forall|j: int| i < j < n ==> text[j] != byte,
            None => forall|j: int| 0 <= j < n ==> text[j] != byte,
        },
    decreases n,
{
    if n > 0 && text[n - 1] != byte {
        lemma_last_index_of(text, byte, n - 1);
    }
}

/// Whether `text` ends with `suffix`.
pub fn bytes_end_with(text: &Vec<u8>, suffix: &Vec<u8>) -> (b: bool)
    ensures
        b == ends_with(text@, suffix@),
{
    if suffix.len() > text.len() {
        return false;
    }
    matches_at(text, suffix, text.len() - suffix.len())
}

/// Whether `pat` occurs somewhere in `text`.
pub fn bytes_contain(text: &Vec<u8>, pat: &Vec<u8>) -> (b: bool)
    ensures
        b == contains(text@, pat@),
{
    let mut i: usize = 0;
    while i < text.len()
        invariant
            i <= text.len(),
            forall|j: int| 0 <= j < i ==> !occurs_at(text@, pat@, j),
        decreases text.len() - i,
    {
        if matches_at(text, pat, i) {
            return true;
        }
        i = i + 1;
    }
    // only an empty pattern occurs behind the last byte
    matches_at(text, pat, i)
}

/// The place of the last `byte` among the first `n` bytes of `text`.
pub fn find_last(text: &Vec<u8>, byte: u8, n: usize) -> (r: Option<usize>)
    ensures
        match r {
            Some(i) => last_index_of(text@, byte, n as int) == Some(i as int) && i < n <= text.len(),
            None => last_index_of(text@, byte, n as int) is None,
        },
{
    if n > text.len() {
        return None;
    }
    let mut k: usize = n;
    while k > 0
        invariant
            k <= n <= text.len(),
            last_index_of(text@, byte, n as int) == last_index_of(text@, byte, k as int),
        decreases k,
    {
        if text[k - 1] == byte {
            return Some(k - 1);
        }
        k = k - 1;
    }
    None
}

fn copy_range(text: &Vec<u8>, from: usize, to: usize) -> (part: Vec<u8>)
    requires
        from <= to <= text.len(),
    ensures
        part@ == text@.subrange(from as int, to as int),
{
    let mut part: Vec<u8> = Vec::new();
    let mut i: usize = from;
    while i < to
        invariant
            from <= i <= to <= text.len(),
            part@ == text@.subrange(from as int, i as int),
        decreases to - i,
    {
        part.push(text[i]);
        proof {
            assert(text@.subrange(from as int, i + 1) =~= text@.subrange(
                from as int,
                i as int,
            ).push(text@[i as int]));
        }
        i = i + 1;
    }
    part
}

/// The extension of a path, if it has one.
pub fn path_extension(path: &Vec<u8>) -> (r: Option<Vec<u8>>)
    ensures
        match r {
            Some(ext) => extension(path@) == Some(ext@),
            None => extension(path@) is None,
        },
{
    let start = match find_last(path, SLASH, path.len()) {
        Some(i) => i + 1,
        None => 0,
    };
    match find_last(path, DOT, path.len()) {
        Some(dot) => {
            if dot > start {
                let ext = copy_range(path, dot + 1, path.len());
                proof {
                    assert(path@.subrange(dot + 1, path.len() as int) =~= path@.skip(dot + 1));
                }
                Some(ext)
            } else {
                None
            }
        },
        None => None,
    }
}

/// The name of the adapter that a file of a repository belongs to.
pub fn adapter_name(path: &Vec<u8>) -> (r: Option<Vec<u8>>)
    ensures
        match r {
            Some(name) => adapter_of(path@) == Some(name@),
            None => adapter_of(path@) is None,
        },
{
    match find_last(path, SLASH, path.len()) {
        None => None,
        Some(last) => {
            let from = match find_last(path, SLASH, last) {
                Some(before) => before + 1,
                None => 0,
            };
            let name = copy_range(path, from, last);
            proof {
                assert(path@.subrange(0, last as int) =~= path@.take(last as int));
            }
            Some(name)
        },
    }
}

/// Whether a file of a repository holds model weights: its name ends with
/// `.safetensors`.
pub fn is_weight_file(name: &str) -> (b: bool)
    ensures
        b == ends_with(name.spec_bytes(), ".safetensors".spec_bytes()),
{
    bytes_end_with(&text_bytes(name), &text_bytes(".safetensors"))
}

/// Whether a file of a repository is the classifier of an adapter mixture.
pub fn is_classifier_file(name: &str) -> (b: bool)
    ensures
        b == contains(name.spec_bytes(), "xlora_classifier.safetensors".spec_bytes()),
{
    bytes_contain(&text_bytes(name), &text_bytes("xlora_classifier.safetensors"))
}

/// Whether a file of a repository is the configuration of an adapter
/// mixture.
pub fn is_mixture_config_file(name: &str) -> (b: bool)
    ensures
        b == contains(name.spec_bytes(), "xlora_config.json".spec_bytes()),
{
    bytes_contain(&text_bytes(name), &text_bytes("xlora_config.json"))
}

/// Whether a file of a repository belongs to an adapter.
pub fn is_adapter_file(name: &str) -> (b: bool)
    ensures
        b == contains(name.spec_bytes(), "/adapter_".spec_bytes()),
{
    bytes_contain(&text_bytes(name), &text_bytes("/adapter_"))
}

/// Where the weights of a model come from.
#[derive(Clone, Debug)]
pub enum WeightSource {
    /// One quantized file on this machine.
    LocalFile(String),
    /// One quantized file of another repository.
    RemoteFile { repo: String, file: String },
    /// Every weight file of the model's own repository.
    Repository,
}

/// Where the weights come from: without a quantized file, from the model's
/// repository; with one, from this machine if the quantized repository is
/// the empty string, and from that repository otherwise.
pub fn weight_source(quantized_model_id: &Option<String>, quantized_filename: &Option<String>) -> (r:
    WeightSource)
    requires
        quantized_filename is Some ==> quantized_model_id is Some,
    ensures
        match (*quantized_filename, *quantized_model_id) {
            (None, _) => r is Repository,
            (Some(file), Some(id)) => if id@.len() == 0 {
                r matches WeightSource::LocalFile(f) && f@ == file@
            } else {
                r matches WeightSource::RemoteFile { repo, file: f } && repo@ == id@ && f@
                    == file@
            },
            (Some(_), None) => true,
        },
{
    match quantized_filename {
        None => WeightSource::Repository,
        Some(file) => match quantized_model_id {
            Some(id) => {
                if id.as_str().is_empty() {
                    WeightSource::LocalFile(file.clone())
                } else {
                    WeightSource::RemoteFile { repo: id.clone(), file: file.clone() }
                }
            },
            None => WeightSource::Repository,
        },
    }
}

/// The order in which adapters are loaded: the one of the mixture's
/// configuration if it names one, else the one of the ordering file.
/// Nothing if neither names one.
pub fn adapter_order(configured: Option<Vec<String>>, ordered: Option<Vec<String>>) -> (r: Option<
    Vec<String>,
>)
    ensures
        r == match configured {
            Some(names) => Some(names),
            None => ordered,
        },
{
    match configured {
        Some(names) => Some(names),
        None => ordered,
    }
}

/// The files of the adapters, in loading order.
pub struct AdapterFiles {
    /// For each weight file the place of its adapter in the order, and the
    /// place of the file among the files given.
    pub safetensors: Vec<(usize, usize)>,
    /// The same for each configuration file.
    pub configs: Vec<(usize, usize)>,
}

/// The files with the given kind of extension that belong to the first
/// `n - 1` adapters of `order`, followed by those among the first `m` files
/// that belong to adapter `n - 1`; each as a pair of the adapter's place and
/// the file's place. So the files come adapter by adapter, and for one
/// adapter in the order in which they were given.
pub open spec fn files_of(
    files: Seq<Seq<u8>>,
    order: Seq<Seq<u8>>,
    weights: bool,
    n: int,
    m: int,
) -> Seq<(usize, usize)>
    decreases n, m,
{
    if n <= 0 {
        Seq::empty()
    } else if m <= 0 {
        files_of(files, order, weights, n - 1, files.len() as int)
    } else {
        let before = files_of(files, order, weights, n, m - 1);
        if adapter_of(files[m - 1]) == Some(order[n - 1]) && is_weights(files[m - 1]) == weights {
            before.push(((n - 1) as usize, (m - 1) as usize))
        } else {
            before
        }
    }
}

/// Whether a path has the extension of a weight file.
pub open spec fn is_weights(path: Seq<u8>) -> bool {
    extension(path) == Some("safetensors".spec_bytes())
}

/// Whether some file belongs to the adapter `name`.
pub open spec fn has_files(files: Seq<Seq<u8>>, name: Seq<u8>) -> bool {
    exists|k: int| 0 <= k < files.len() && adapter_of(#[trigger] files[k]) == Some(name)
}

fn same_bytes(a: &Vec<u8>, b: &Vec<u8>) -> (eq: bool)
    ensures
        eq == (a@ == b@),
{
    if a.len() != b.len() {
        return false;
    }
    let eq = matches_at(a, b, 0);
    proof {
        assert(a@.subrange(0, a@.len() as int) =~= a@);
    }
    eq
}

/// Sorts the files of the adapters into loading order, weights and
/// configurations apart. A file belongs to the adapter that the part of its
/// path in front of the file name names. Fails with the place of the first
/// adapter of the order that has no file.
pub fn order_adapter_files(files: &Vec<Vec<u8>>, order: &Vec<Vec<u8>>) -> (r: Result<
    AdapterFiles,
    usize,
>)
    ensures
        match r {
            Ok(sorted) => sorted.safetensors@ == files_of(
                files.deep_view(),
                order.deep_view(),
                true,
                order.len() as int,
                files.len() as int,
            ) && sorted.configs@ == files_of(
                files.deep_view(),
                order.deep_view(),
                false,
                order.len() as int,
                files.len() as int,
            ) && forall|n: int|
                0 <= n < order.len() ==> has_files(files.deep_view(), #[trigger] order.deep_view()[n]),
            Err(n) => n < order.len() && !has_files(files.deep_view(), order.deep_view()[n as int])
                && forall|k: int|
                0 <= k < n ==> has_files(files.deep_view(), #[trigger] order.deep_view()[k]),
        },
{
    let weights_ext = text_bytes("safetensors");
    let mut safetensors: Vec<(usize, usize)> = Vec::new();
    let mut configs: Vec<(usize, usize)> = Vec::new();
    let ghost fs = files.deep_view();
    let ghost os = order.deep_view();
    let mut n: usize = 0;
    while n < order.len()
        invariant
            n <= order.len(),
            fs == files.deep_view(),
            os == order.deep_view(),
            weights_ext@ == "safetensors".spec_bytes(),
            safetensors@ == files_of(fs, os, true, n as int, files.len() as int),
            configs@ == files_of(fs, os, false, n as int, files.len() as int),
            forall|k: int| 0 <= k < n ==> has_files(fs, #[trigger] os[k]),
        decreases order.len() - n,
    {
        let mut found = false;
        let mut m: usize = 0;
        proof {
            assert(os[n as int] == order[n as int]@);
        }
        while m < files.len()
            invariant
                m <= files.len(),
                n < order.len(),
                fs == files.deep_view(),
                os == order.deep_view(),
                os[n as int] == order[n as int]@,
                weights_ext@ == "safetensors".spec_bytes(),
                safetensors@ == files_of(fs, os, true, n + 1, m as int),
                configs@ == files_of(fs, os, false, n + 1, m as int),
                found <==> exists|k: int|
                    0 <= k < m && adapter_of(#[trigger] fs[k]) == Some(os[n as int]),
            decreases files.len() - m,
        {
            proof {
                assert(fs[m as int] == files[m as int]@);
            }
            let belongs = match adapter_name(&files[m]) {
                Some(name) => same_bytes(&name, &order[n]),
                None => false,
            };
            if belongs {
                found = true;
                let is_weight_path = match path_extension(&files[m]) {
                    Some(ext) => same_bytes(&ext, &weights_ext),
                    None => false,
                };
                if is_weight_path {
                    safetensors.push((n, m));
                } else {
                    configs.push((n, m));
                }
            }
            m = m + 1;
        }
        if !found {
            return Err(n);
        }
        n = n + 1;
    }
    Ok(AdapterFiles { safetensors, configs })
}

} // verus!
