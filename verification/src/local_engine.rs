//! The local language model: which file or repository a model id loads
//! from, the cached shards of a quantized model, and the load estimates.

use vstd::prelude::*;

use crate::config::{join_path, path_join};
use crate::text::{
    between, ends_with, has_suffix, parse_u32, parse_u32_spec, str_eq, strip_between, trim,
    trimmed, views,
};

verus! {

/// How a model is loaded.
#[derive(Debug, Clone)]
pub enum ModelSource {
    /// A pre-quantized GGUF file in the LLM models directory.
    Gguf { filename: String },
    /// A HuggingFace repository, quantized on load and cached.
    HfIsq { hf_repo: String },
}

/// HuggingFace repository of the models quantized on load.
pub open spec fn hf_repo_of(model_id: Seq<char>) -> Option<Seq<char>> {
    if model_id == "gemma-4-e2b"@ {
        Some("google/gemma-4-E2B-it"@)
    } else if model_id == "gemma-4-e4b"@ {
        Some("google/gemma-4-E4B-it"@)
    } else {
        None
    }
}

/// GGUF file of the catalog models.
pub open spec fn catalog_file_of(model_id: Seq<char>) -> Option<Seq<char>> {
    if model_id == "qwen3-0.6b"@ {
        Some("Qwen3-0.6B-Q4_K_M.gguf"@)
    } else if model_id == "qwen3-1.7b"@ {
        Some("Qwen3-1.7B-Q4_K_M.gguf"@)
    } else if model_id == "qwen3-4b"@ {
        Some("Qwen3-4B-Q4_K_M.gguf"@)
    } else if model_id == "qwen3-8b"@ {
        Some("Qwen3-8B-Q4_K_M.gguf"@)
    } else if model_id == "llama-3.2-3b"@ {
        Some("Llama-3.2-3B-Instruct-Q4_K_M.gguf"@)
    } else if model_id == "phi3-mini-q4"@ {
        Some("Phi-3-mini-4k-instruct-Q4_K_M.gguf"@)
    } else if model_id == "mistral-7b-q4"@ {
        Some("Mistral-7B-Instruct-v0.3-Q4_K_M.gguf"@)
    } else {
        None
    }
}

/// File name of a model that is not in the catalog: the id itself when it
/// ends in `.gguf`, else the id with `.gguf` appended.
pub open spec fn custom_file_of(model_id: Seq<char>) -> Seq<char> {
    if ends_with(model_id, ".gguf"@) {
        model_id
    } else {
        model_id + ".gguf"@
    }
}

/// The GGUF file in the LLM models directory that holds a model; `None`
/// for the models loaded from HuggingFace.
pub open spec fn model_file_of(model_id: Seq<char>) -> Option<Seq<char>> {
    if hf_repo_of(model_id) is Some {
        None
    } else if catalog_file_of(model_id) is Some {
        catalog_file_of(model_id)
    } else {
        Some(custom_file_of(model_id))
    }
}

fn hf_repo(model_id: &str) -> (r: Option<&'static str>)
    ensures
        match r {
            Some(x) => hf_repo_of(model_id@) == Some(x@),
            None => hf_repo_of(model_id@) is None,
        },
{
    if str_eq(model_id, "gemma-4-e2b") {
        Some("google/gemma-4-E2B-it")
    } else if str_eq(model_id, "gemma-4-e4b") {
        Some("google/gemma-4-E4B-it")
    } else {
        None
    }
}

fn catalog_file(model_id: &str) -> (r: Option<&'static str>)
    ensures
        match r {
            Some(x) => catalog_file_of(model_id@) == Some(x@),
            None => catalog_file_of(model_id@) is None,
        },
{
    if str_eq(model_id, "qwen3-0.6b") {
        Some("Qwen3-0.6B-Q4_K_M.gguf")
    } else if str_eq(model_id, "qwen3-1.7b") {
        Some("Qwen3-1.7B-Q4_K_M.gguf")
    } else if str_eq(model_id, "qwen3-4b") {
        Some("Qwen3-4B-Q4_K_M.gguf")
    } else if str_eq(model_id, "qwen3-8b") {
        Some("Qwen3-8B-Q4_K_M.gguf")
    } else if str_eq(model_id, "llama-3.2-3b") {
        Some("Llama-3.2-3B-Instruct-Q4_K_M.gguf")
    } else if str_eq(model_id, "phi3-mini-q4") {
        Some("Phi-3-mini-4k-instruct-Q4_K_M.gguf")
    } else if str_eq(model_id, "mistral-7b-q4") {
        Some("Mistral-7B-Instruct-v0.3-Q4_K_M.gguf")
    } else {
        None
    }
}

fn custom_file(model_id: &str) -> (r: String)
    ensures
        r@ == custom_file_of(model_id@),
{
    if has_suffix(model_id, ".gguf") {
        model_id.to_owned()
    } else {
        let mut r = model_id.to_owned();
        r.append(".gguf");
        r
    }
}

/// The GGUF file in the LLM models directory whose presence decides
/// whether a model can load; `None` for the models loaded from
/// HuggingFace, which need no file.
pub fn model_file(model_id: &str) -> (r: Option<String>)
    ensures
        match r {
            Some(f) => model_file_of(model_id@) == Some(f@),
            None => model_file_of(model_id@) is None,
        },
{
    if hf_repo(model_id).is_some() {
        None
    } else {
        match catalog_file(model_id) {
            Some(f) => Some(f.to_owned()),
            None => Some(custom_file(model_id)),
        }
    }
}

pub open spec fn missing_file_message(llm_dir: Seq<char>, file: Seq<char>) -> Seq<char> {
    "LLM model file not found: "@ + path_join(llm_dir, file)
        + ". Download it first via Settings → Models."@
}

pub open spec fn unknown_model_message(model_id: Seq<char>) -> Seq<char> {
    "Unknown LLM model: "@ + model_id + ". Download it first via Settings → Models."@
}

/// How a model loads, or why it cannot: a HuggingFace model always loads
/// from its repository; a catalog or custom model loads from its file in
/// `llm_dir` when `file_exists` says the file (see [`model_file`]) is there.
pub open spec fn model_source_of(model_id: Seq<char>, llm_dir: Seq<char>, file_exists: bool) -> Result<
    (bool, Seq<char>),
    Seq<char>,
> {
    if hf_repo_of(model_id) is Some {
        Ok((true, hf_repo_of(model_id).unwrap()))
    } else if catalog_file_of(model_id) is Some {
        if file_exists {
            Ok((false, catalog_file_of(model_id).unwrap()))
        } else {
            Err(missing_file_message(llm_dir, catalog_file_of(model_id).unwrap()))
        }
    } else if file_exists {
        Ok((false, custom_file_of(model_id)))
    } else {
        Err(unknown_model_message(model_id))
    }
}

/// A source by whether it is a HuggingFace repository, and its name.
pub open spec fn source_view(s: ModelSource) -> (bool, Seq<char>) {
    match s {
        ModelSource::Gguf { filename } => (false, filename@),
        ModelSource::HfIsq { hf_repo } => (true, hf_repo@),
    }
}

/// Resolves how to load `model_id`; `file_exists` tells whether its file
/// (see [`model_file`]) is present in the LLM models directory `llm_dir`.
pub fn resolve_model_source(model_id: &str, llm_dir: &str, file_exists: bool) -> (r: Result<
    ModelSource,
    String,
>)
    ensures
        match r {
            Ok(s) => model_source_of(model_id@, llm_dir@, file_exists) == Ok::<
                (bool, Seq<char>),
                Seq<char>,
            >(source_view(s)),
            Err(m) => model_source_of(model_id@, llm_dir@, file_exists) == Err::<
                (bool, Seq<char>),
                Seq<char>,
            >(m@),
        },
{
    if let Some(repo) = hf_repo(model_id) {
        return Ok(ModelSource::HfIsq { hf_repo: repo.to_owned() });
    }
    if let Some(fname) = catalog_file(model_id) {
        if !file_exists {
            let path = join_path(llm_dir, fname);
            let mut m = "LLM model file not found: ".to_owned();
            m.append(path.as_str());
            m.append(". Download it first via Settings → Models.");
            return Err(m);
        }
        return Ok(ModelSource::Gguf { filename: fname.to_owned() });
    }
    if file_exists {
        return Ok(ModelSource::Gguf { filename: custom_file(model_id) });
    }
    let mut m = "Unknown LLM model: ".to_owned();
    m.append(model_id);
    m.append(". Download it first via Settings → Models.");
    Err(m)
}

/// Checks that a model id can be loaded (see [`resolve_model_source`]).
pub fn validate_model(model_id: &str, llm_dir: &str, file_exists: bool) -> (r: Result<(), String>)
    ensures
        r is Ok <==> model_source_of(model_id@, llm_dir@, file_exists) is Ok,
        r matches Err(m) ==> model_source_of(model_id@, llm_dir@, file_exists) == Err::<
            (bool, Seq<char>),
            Seq<char>,
        >(m@),
{
    match resolve_model_source(model_id, llm_dir, file_exists) {
        Ok(_) => Ok(()),
        Err(m) => Err(m),
    }
}

/// Bytes of the HuggingFace cache of a model once downloaded, a little
/// under the real total.
pub open spec fn expected_cache_bytes_of(model_id: Seq<char>) -> Option<u64> {
    if model_id == "gemma-4-e2b"@ {
        Some(9_500_000_000)
    } else if model_id == "gemma-4-e4b"@ {
        Some(15_500_000_000)
    } else {
        None
    }
}

pub fn expected_hf_cache_bytes(model_id: &str) -> (r: Option<u64>)
    ensures
        r == expected_cache_bytes_of(model_id@),
{
    if str_eq(model_id, "gemma-4-e2b") {
        Some(9_500_000_000)
    } else if str_eq(model_id, "gemma-4-e4b") {
        Some(15_500_000_000)
    } else {
        None
    }
}

/// Directory name of a model's repository in the HuggingFace cache.
pub open spec fn hf_cache_repo_of(model_id: Seq<char>) -> Option<Seq<char>> {
    if model_id == "gemma-4-e2b"@ {
        Some("models--google--gemma-4-E2B-it"@)
    } else if model_id == "gemma-4-e4b"@ {
        Some("models--google--gemma-4-E4B-it"@)
    } else {
        None
    }
}

pub fn hf_cache_repo(model_id: &str) -> (r: Option<&'static str>)
    ensures
        match r {
            Some(x) => hf_cache_repo_of(model_id@) == Some(x@),
            None => hf_cache_repo_of(model_id@) is None,
        },
{
    if str_eq(model_id, "gemma-4-e2b") {
        Some("models--google--gemma-4-E2B-it")
    } else if str_eq(model_id, "gemma-4-e4b") {
        Some("models--google--gemma-4-E4B-it")
    } else {
        None
    }
}

/// Seconds a load usually takes: several minutes the first time a model is
/// quantized, under a minute from the cache.
pub open spec fn typical_eta_of(is_first_run: bool, model_id: Seq<char>) -> u64 {
    if is_first_run {
        if model_id == "gemma-4-e4b"@ {
            360
        } else {
            240
        }
    } else {
        50
    }
}

pub fn typical_eta_seconds(is_first_run: bool, model_id: &str) -> (r: u64)
    ensures
        r == typical_eta_of(is_first_run, model_id@),
{
    if is_first_run {
        if str_eq(model_id, "gemma-4-e4b") {
            360
        } else {
            240
        }
    } else {
        50
    }
}

/// The shard index of a cache file name `<model>-<index>.uqff`.
pub open spec fn shard_index_of(name: Seq<char>, model_id: Seq<char>) -> Option<int> {
    match between(name, model_id + "-"@, ".uqff"@) {
        Some(mid) => parse_u32_spec(mid),
        None => None,
    }
}

/// Index of the cache shard `name` of `model_id`, if it is one.
pub fn shard_index(name: &str, model_id: &str) -> (r: Option<u32>)
    ensures
        match r {
            Some(i) => shard_index_of(name@, model_id@) == Some(i as int),
            None => shard_index_of(name@, model_id@) is None,
        },
{
    let mut prefix = model_id.to_owned();
    prefix.append("-");
    match strip_between(name, prefix.as_str(), ".uqff") {
        Some(mid) => parse_u32(mid.as_slice()),
        None => None,
    }
}

/// Insert `x` into a list sorted by increasing index, after every entry
/// whose index is not larger (so equal indices keep their order).
pub open spec fn insert_by_index(sorted: Seq<(u32, Seq<char>)>, x: (u32, Seq<char>)) -> Seq<(u32, Seq<char>)>
    decreases sorted.len(),
{
    if sorted.len() == 0 {
        seq![x]
    } else if sorted.last().0 <= x.0 {
        sorted.push(x)
    } else {
        insert_by_index(sorted.drop_last(), x).push(sorted.last())
    }
}

/// Stable sort by increasing index.
pub open spec fn sort_by_index(s: Seq<(u32, Seq<char>)>) -> Seq<(u32, Seq<char>)>
    decreases s.len(),
{
    if s.len() == 0 {
        Seq::empty()
    } else {
        insert_by_index(sort_by_index(s.drop_last()), s.last())
    }
}

/// The cache shards among `names`, each with its index, in the order given.
pub open spec fn shards_in(names: Seq<Seq<char>>, model_id: Seq<char>) -> Seq<(u32, Seq<char>)>
    decreases names.len(),
{
    if names.len() == 0 {
        Seq::empty()
    } else {
        let rest = shards_in(names.drop_last(), model_id);
        match shard_index_of(names.last(), model_id) {
            Some(i) => rest.push((i as u32, names.last())),
            None => rest,
        }
    }
}

/// The cache shards of `model_id` among the file names `names`, in order of
/// shard index.
pub open spec fn ordered_shards(names: Seq<Seq<char>>, model_id: Seq<char>) -> Seq<Seq<char>> {
    sort_by_index(shards_in(names, model_id)).map_values(|e: (u32, Seq<char>)| e.1)
}

pub open spec fn entries_view(v: Seq<(u32, String)>) -> Seq<(u32, Seq<char>)> {
    v.map_values(|e: (u32, String)| (e.0, e.1@))
}

fn insert_shard(res: &mut Vec<(u32, String)>, x: (u32, String))
    ensures
        entries_view(final(res)@) == insert_by_index(entries_view(old(res)@), (x.0, x.1@)),
{
    let ghost s = entries_view(res@);
    let ghost xv = (x.0, x.1@);
    let mut p = res.len();
    assert(s.subrange(0, p as int) =~= s);
    assert(insert_by_index(s, xv) + Seq::<(u32, Seq<char>)>::empty() =~= insert_by_index(s, xv));
    while p > 0 && res[p - 1].0 > x.0
        invariant
            p <= res@.len(),
            s == entries_view(res@),
            xv == (x.0, x.1@),
            insert_by_index(s, xv) == insert_by_index(s.subrange(0, p as int), xv) + s.subrange(
                p as int,
                s.len() as int,
            ),
        decreases p,
    {
        let ghost q = s.subrange(0, p as int);
        assert(q.last() == s[p - 1]);
        assert(q.drop_last() =~= s.subrange(0, p - 1));
        assert(insert_by_index(s.subrange(0, p - 1), xv).push(s[p - 1]) + s.subrange(
            p as int,
            s.len() as int,
        ) =~= insert_by_index(s.subrange(0, p - 1), xv) + s.subrange(p - 1, s.len() as int));
        p -= 1;
    }
    proof {
        let q = s.subrange(0, p as int);
        if p > 0 {
            assert(q.last() == s[p - 1]);
            assert(insert_by_index(q, xv) == q.push(xv));
        } else {
            assert(insert_by_index(q, xv) == seq![xv]);
            assert(q.push(xv) =~= seq![xv]);
        }
        assert(insert_by_index(s, xv) =~= s.insert(p as int, xv));
    }
    res.insert(p, x);
    proof {
        assert(entries_view(res@) =~= s.insert(p as int, xv));
    }
}

/// The cache shards of `model_id` among the file names of the cache
/// directory: the names `<model_id>-<index>.uqff`, ordered by index.
pub fn collect_uqff_shards(names: &Vec<String>, model_id: &str) -> (r: Vec<String>)
    ensures
        views(r@) == ordered_shards(views(names@), model_id@),
{
    let ghost ns = views(names@);
    let mut sorted: Vec<(u32, String)> = Vec::new();
    let mut k: usize = 0;
    while k < names.len()
        invariant
            k <= names@.len(),
            ns == views(names@),
            entries_view(sorted@) == sort_by_index(shards_in(ns.subrange(0, k as int), model_id@)),
        decreases names@.len() - k,
    {
        let ghost before = ns.subrange(0, k as int);
        assert(ns.subrange(0, k + 1).drop_last() =~= before);
        assert(ns.subrange(0, k + 1).last() == names@[k as int]@);
        match shard_index(names[k].as_str(), model_id) {
            Some(i) => {
                let ghost sh = shards_in(before, model_id@);
                let ghost e = (i, names@[k as int]@);
                assert(shards_in(ns.subrange(0, k + 1), model_id@) == sh.push(e));
                assert(sh.push(e).drop_last() =~= sh);
                assert(sort_by_index(sh.push(e)) == insert_by_index(sort_by_index(sh), e));
                insert_shard(&mut sorted, (i, names[k].as_str().to_owned()));
            },
            None => {},
        }
        k += 1;
    }
    assert(ns.subrange(0, k as int) =~= ns);
    let mut out: Vec<String> = Vec::new();
    let mut j: usize = 0;
    let ghost es = entries_view(sorted@);
    while j < sorted.len()
        invariant
            j <= sorted@.len(),
            es == entries_view(sorted@),
            views(out@) == es.subrange(0, j as int).map_values(|e: (u32, Seq<char>)| e.1),
        decreases sorted@.len() - j,
    {
        let x = sorted[j].1.as_str().to_owned();
        proof {
            crate::text::lemma_views_push(out@, x);
        }
        out.push(x);
        assert(views(out@) =~= es.subrange(0, j + 1).map_values(|e: (u32, Seq<char>)| e.1));
        j += 1;
    }
    assert(es.subrange(0, j as int) =~= es);
    out
}

/// What the model answered, trimmed; an empty answer is an error.
pub open spec fn reply_of(content: Option<Seq<char>>) -> Result<Seq<char>, Seq<char>> {
    let t = match content {
        Some(c) => trim(c),
        None => Seq::empty(),
    };
    if t.len() == 0 {
        Err("Local LLM returned empty response"@)
    } else {
        Ok(t)
    }
}

/// The reply of a chat completion from the content of its first choice.
pub fn reply_text(content: Option<&str>) -> (r: Result<String, String>)
    ensures
        match r {
            Ok(t) => reply_of(
                match content {
                    Some(c) => Some(c@),
                    None => None,
                },
            ) == Ok::<Seq<char>, Seq<char>>(t@),
            Err(m) => reply_of(
                match content {
                    Some(c) => Some(c@),
                    None => None,
                },
            ) == Err::<Seq<char>, Seq<char>>(m@),
        },
{
    let t = match content {
        Some(c) => trimmed(c),
        None => String::new(),
    };
    if t.as_str().is_empty() {
        Err("Local LLM returned empty response".to_owned())
    } else {
        Ok(t)
    }
}


/// Entries in order of nondecreasing index.
pub open spec fn sorted_by_index(s: Seq<(u32, Seq<char>)>) -> bool {
    forall|i: int, j: int| 0 <= i < j < s.len() ==> s[i].0 <= s[j].0
}

proof fn lemma_insert_by_index(s: Seq<(u32, Seq<char>)>, x: (u32, Seq<char>))
    requires
        sorted_by_index(s),
    ensures
        sorted_by_index(insert_by_index(s, x)),
        insert_by_index(s, x).to_multiset() == s.to_multiset().insert(x),
    decreases s.len(),
{
    broadcast use vstd::seq_lib::group_to_multiset_ensures;
    if s.len() == 0 {
        assert(seq![x] =~= Seq::<(u32, Seq<char>)>::empty().push(x));
    } else if s.last().0 <= x.0 {
    } else {
        let d = s.drop_last();
        assert(sorted_by_index(d));
        lemma_insert_by_index(d, x);
        let t = insert_by_index(d, x);
        assert(s =~= d.push(s.last()));
        assert forall|i: int| 0 <= i < t.len() implies t[i].0 <= s.last().0 by {
            assert(t.to_multiset().contains(t[i]));
            assert(t.to_multiset().count(t[i]) > 0);
            if t[i] != x {
                assert(d.to_multiset().count(t[i]) > 0);
                assert(d.contains(t[i]));
                let k = choose|k: int| 0 <= k < d.len() && d[k] == t[i];
                assert(s[k] == d[k]);
            }
        }
        assert(s.to_multiset() == d.to_multiset().insert(s.last()));
    }
}

/// Sorting by index orders the shards by nondecreasing index and keeps
/// every entry, each as many times as it was there.
pub proof fn lemma_sort_by_index(s: Seq<(u32, Seq<char>)>)
    ensures
        sorted_by_index(sort_by_index(s)),
        sort_by_index(s).to_multiset() == s.to_multiset(),
    decreases s.len(),
{
    broadcast use vstd::seq_lib::group_to_multiset_ensures;
    if s.len() > 0 {
        lemma_sort_by_index(s.drop_last());
        lemma_insert_by_index(sort_by_index(s.drop_last()), s.last());
        assert(s =~= s.drop_last().push(s.last()));
    }
}

/// Where chat requests go: the local engine running a model, or an
/// OpenAI-compatible HTTP endpoint.
#[derive(Debug, Clone)]
pub enum LlmBackend {
    Local { model_id: String },
    Api { base_url: String, model: String, api_key: Option<String> },
}

pub open spec fn unknown_provider_message(provider: Seq<char>) -> Seq<char> {
    "Unknown LLM provider: '"@ + provider + "'. Use 'local' or 'api'."@
}

/// The backend a provider setting selects: `local` when its model can load
/// (see [`validate_model`]), `api` with the key kept only when it is not
/// empty, and an error for any other provider.
pub open spec fn backend_of(
    provider: Seq<char>,
    local_model: Seq<char>,
    llm_dir: Seq<char>,
    file_exists: bool,
    base_url: Seq<char>,
    model: Seq<char>,
    api_key: Option<Seq<char>>,
) -> Result<(bool, Seq<char>, Seq<char>, Option<Seq<char>>), Seq<char>> {
    if provider == "local"@ {
        match model_source_of(local_model, llm_dir, file_exists) {
            Ok(_) => Ok((true, local_model, Seq::empty(), None)),
            Err(m) => Err(m),
        }
    } else if provider == "api"@ {
        Ok((
            false,
            base_url,
            model,
            match api_key {
                Some(k) => if k.len() > 0 { Some(k) } else { None },
                None => None,
            },
        ))
    } else {
        Err(unknown_provider_message(provider))
    }
}

pub open spec fn backend_view(b: LlmBackend) -> (bool, Seq<char>, Seq<char>, Option<Seq<char>>) {
    match b {
        LlmBackend::Local { model_id } => (true, model_id@, Seq::empty(), None),
        LlmBackend::Api { base_url, model, api_key } => (
            false,
            base_url@,
            model@,
            match api_key {
                Some(k) => Some(k@),
                None => None,
            },
        ),
    }
}

impl LlmBackend {
    /// The backend for the LLM settings; `file_exists` tells whether the
    /// local model's file (see [`model_file`]) is in `llm_dir`.
    pub fn new(
        provider: &str,
        local_model: &str,
        llm_dir: &str,
        file_exists: bool,
        base_url: &str,
        model: &str,
        api_key: Option<&str>,
    ) -> (r: Result<LlmBackend, String>)
        ensures
            match r {
                Ok(b) => backend_of(
                    provider@,
                    local_model@,
                    llm_dir@,
                    file_exists,
                    base_url@,
                    model@,
                    match api_key {
                        Some(k) => Some(k@),
                        None => None,
                    },
                ) == Ok::<(bool, Seq<char>, Seq<char>, Option<Seq<char>>), Seq<char>>(backend_view(b)),
                Err(m) => backend_of(
                    provider@,
                    local_model@,
                    llm_dir@,
                    file_exists,
                    base_url@,
                    model@,
                    match api_key {
                        Some(k) => Some(k@),
                        None => None,
                    },
                ) == Err::<(bool, Seq<char>, Seq<char>, Option<Seq<char>>), Seq<char>>(m@),
            },
    {
        if str_eq(provider, "local") {
            match validate_model(local_model, llm_dir, file_exists) {
                Ok(_) => Ok(LlmBackend::Local { model_id: local_model.to_owned() }),
                Err(m) => Err(m),
            }
        } else if str_eq(provider, "api") {
            let key = match api_key {
                Some(k) => if k.is_empty() {
                    None
                } else {
                    Some(k.to_owned())
                },
                None => None,
            };
            Ok(LlmBackend::Api { base_url: base_url.to_owned(), model: model.to_owned(), api_key: key })
        } else {
            let mut m = "Unknown LLM provider: '".to_owned();
            m.append(provider);
            m.append("'. Use 'local' or 'api'.");
            Err(m)
        }
    }
}

/// An inference error that means the local engine died (its channel
/// closed or a lock was poisoned), so it must be unloaded.
pub open spec fn is_dead_engine_error_text(e: Seq<char>) -> bool {
    crate::text::contains(e, "channel"@) || crate::text::contains(e, "poison"@)
        || crate::text::contains(e, "closed"@)
}

pub fn is_dead_engine_error(e: &str) -> (r: bool)
    ensures
        r == is_dead_engine_error_text(e@),
{
    let v = crate::text::to_chars(e);
    crate::text::contains_chars(v.as_slice(), crate::text::to_chars("channel").as_slice())
        || crate::text::contains_chars(v.as_slice(), crate::text::to_chars("poison").as_slice())
        || crate::text::contains_chars(v.as_slice(), crate::text::to_chars("closed").as_slice())
}

/// The chat completions URL of an API base URL.
pub fn completions_url(base_url: &str) -> (r: String)
    ensures
        r@ == base_url@ + "/chat/completions"@,
{
    let mut r = base_url.to_owned();
    r.append("/chat/completions");
    r
}

/// What the API answered, trimmed; an empty answer is an error.
pub open spec fn api_reply_of(content: Option<Seq<char>>) -> Result<Seq<char>, Seq<char>> {
    let t = match content {
        Some(c) => trim(c),
        None => Seq::empty(),
    };
    if t.len() == 0 {
        Err("LLM returned empty response"@)
    } else {
        Ok(t)
    }
}

/// The reply of an API chat completion, from the content of its first
/// choice when that is a string.
pub fn api_reply(content: Option<&str>) -> (r: Result<String, String>)
    ensures
        match r {
            Ok(t) => api_reply_of(
                match content {
                    Some(c) => Some(c@),
                    None => None,
                },
            ) == Ok::<Seq<char>, Seq<char>>(t@),
            Err(m) => api_reply_of(
                match content {
                    Some(c) => Some(c@),
                    None => None,
                },
            ) == Err::<Seq<char>, Seq<char>>(m@),
        },
{
    let t = match content {
        Some(c) => trimmed(c),
        None => String::new(),
    };
    if t.as_str().is_empty() {
        Err("LLM returned empty response".to_owned())
    } else {
        Ok(t)
    }
}

/// How a request for a model is served by the engine slot.
#[derive(Debug, Clone)]
pub enum LoadPlan {
    /// The model is already loaded.
    Reuse,
    /// Load it: whether this is the slow first run (download and
    /// quantize), the expected seconds, the status to announce, and the
    /// message that goes with it.
    Load { first_run: bool, eta_seconds: u64, status: String, message: Option<String> },
}

pub open spec fn first_run_message() -> Seq<char> {
    "First use of this model — downloading and quantizing. This takes ~2–5 minutes depending on the model size and is cached afterwards."@
}

/// The plan for `model_id` when `loaded` is the model in the slot: reuse
/// it when it is the same; otherwise load, the first time (a HuggingFace
/// model with no cached shards) announced as `first_run` with its message,
/// else as `loading`.
pub open spec fn load_plan_of(loaded: Option<Seq<char>>, model_id: Seq<char>, from_hf: bool, cached_shards: nat) -> (bool, bool, u64, Seq<char>, Option<Seq<char>>) {
    if loaded == Some(model_id) {
        (true, false, 0, Seq::empty(), None)
    } else {
        let first = from_hf && cached_shards == 0;
        (
            false,
            first,
            typical_eta_of(first, model_id),
            if first { "first_run"@ } else { "loading"@ },
            if first { Some(first_run_message()) } else { None },
        )
    }
}

pub open spec fn plan_view(p: LoadPlan) -> (bool, bool, u64, Seq<char>, Option<Seq<char>>) {
    match p {
        LoadPlan::Reuse => (true, false, 0, Seq::empty(), None),
        LoadPlan::Load { first_run, eta_seconds, status, message } => (
            false,
            first_run,
            eta_seconds,
            status@,
            match message {
                Some(m) => Some(m@),
                None => None,
            },
        ),
    }
}

/// Decides how to serve a request for `model_id` (see [`load_plan_of`]).
pub fn load_plan(loaded: Option<&str>, model_id: &str, from_hf: bool, cached_shards: usize) -> (r: LoadPlan)
    ensures
        plan_view(r) == load_plan_of(
            match loaded {
                Some(l) => Some(l@),
                None => None,
            },
            model_id@,
            from_hf,
            cached_shards as nat,
        ),
{
    if let Some(l) = loaded {
        if str_eq(l, model_id) {
            return LoadPlan::Reuse;
        }
    }
    let first = from_hf && cached_shards == 0;
    let eta = typical_eta_seconds(first, model_id);
    if first {
        LoadPlan::Load {
            first_run: true,
            eta_seconds: eta,
            status: "first_run".to_owned(),
            message: Some(
                "First use of this model — downloading and quantizing. This takes ~2–5 minutes depending on the model size and is cached afterwards.".to_owned(),
            ),
        }
    } else {
        LoadPlan::Load { first_run: false, eta_seconds: eta, status: "loading".to_owned(), message: None }
    }
}

} // verus!
