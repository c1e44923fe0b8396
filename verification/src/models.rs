//! The models that transcribe on this machine.

use crate::text::{chars_of, lowercase, lowered, owned, same_str, str_view, string_of};
use vstd::prelude::*;
use vstd::string::StringExecFns;

verus! {

/// Where a model stands.
pub enum ModelStatus {
    NotDownloaded,
    /// How far the download is, in percent with one decimal.
    Downloading { progress: String },
    Downloaded,
    Error { message: String },
}

/// A model, as a window shows it. `N` is a number.
pub struct ModelInfoResponse<N> {
    pub id: String,
    pub name: String,
    pub description: String,
    pub engine_type: String,
    pub total_size_bytes: u64,
    pub accuracy_score: N,
    pub speed_score: N,
    pub status: String,
}

/// A model that can be had, with the name of its kind of engine as it is written in code.
pub struct ModelInfo<N> {
    pub id: String,
    pub name: String,
    pub description: String,
    pub engine_type: String,
    pub total_size_bytes: u64,
    pub accuracy_score: N,
    pub speed_score: N,
}

/// The words for where a model stands.
pub open spec fn status_words(status: ModelStatus) -> Seq<char> {
    match status {
        ModelStatus::NotDownloaded => "not_downloaded"@,
        ModelStatus::Downloading { progress } => "downloading:"@ + progress@,
        ModelStatus::Downloaded => "downloaded"@,
        ModelStatus::Error { message } => "error:"@ + message@,
    }
}

/// Says where a model stands.
pub fn get_model_status(status: &ModelStatus) -> (r: String)
    ensures
        r@ == status_words(*status),
{
    match status {
        ModelStatus::NotDownloaded => owned("not_downloaded"),
        ModelStatus::Downloading { progress } => {
            let mut words = owned("downloading:");
            words.append(progress.as_str());
            words
        },
        ModelStatus::Downloaded => owned("downloaded"),
        ModelStatus::Error { message } => {
            let mut words = owned("error:");
            words.append(message.as_str());
            words
        },
    }
}

/// The response shows the model at its status: the kind of engine in lower case, and
/// everything else as it is.
pub open spec fn shows<N>(
    response: ModelInfoResponse<N>,
    model: ModelInfo<N>,
    status: ModelStatus,
) -> bool {
    &&& response.id@ == model.id@
    &&& response.name@ == model.name@
    &&& response.description@ == model.description@
    &&& response.engine_type@ == lowercase(model.engine_type@)
    &&& response.total_size_bytes == model.total_size_bytes
    &&& response.accuracy_score == model.accuracy_score
    &&& response.speed_score == model.speed_score
    &&& response.status@ == status_words(status)
}

/// Describes a model at its status.
pub fn describe_model<N: Copy>(model: &ModelInfo<N>, status: &ModelStatus) -> (r:
    ModelInfoResponse<N>)
    ensures
        shows(r, *model, *status),
{
    let engine = chars_of(model.engine_type.as_str());
    ModelInfoResponse {
        id: model.id.clone(),
        name: model.name.clone(),
        description: model.description.clone(),
        engine_type: string_of(lowered(&engine).as_slice()),
        total_size_bytes: model.total_size_bytes,
        accuracy_score: model.accuracy_score,
        speed_score: model.speed_score,
        status: get_model_status(status),
    }
}

/// Lists the models with their status, in order.
pub fn list_available_models<N: Copy>(models: &[(ModelInfo<N>, ModelStatus)]) -> (r: Vec<
    ModelInfoResponse<N>,
>)
    ensures
        r@.len() == models@.len(),
        forall|i: int|
            0 <= i < models@.len() ==> shows(#[trigger] r@[i], models@[i].0, models@[i].1),
{
    let mut out: Vec<ModelInfoResponse<N>> = Vec::new();
    let mut i: usize = 0;
    while i < models.len()
        invariant
            i <= models@.len(),
            out@.len() == i,
            forall|j: int| 0 <= j < i ==> shows(#[trigger] out@[j], models@[j].0, models@[j].1),
        decreases models@.len() - i,
    {
        out.push(describe_model(&models[i].0, &models[i].1));
        i += 1;
    }
    out
}

/// Tells whether any model has been downloaded.
pub fn any_downloaded(downloaded: &[bool]) -> (r: bool)
    ensures
        r == downloaded@.contains(true),
{
    let mut i: usize = 0;
    while i < downloaded.len()
        invariant
            i <= downloaded@.len(),
            forall|j: int| 0 <= j < i ==> !(#[trigger] downloaded@[j]),
        decreases downloaded@.len() - i,
    {
        if downloaded[i] {
            assert(downloaded@[i as int]);
            return true;
        }
        i += 1;
    }
    false
}

/// Tells whether a model has to be taken out of memory before it is deleted.
pub fn must_unload(loaded: Option<&str>, deleted: &str) -> (r: bool)
    ensures
        r == (str_view(loaded) == Some(deleted@)),
{
    match loaded {
        Some(loaded) => same_str(loaded, deleted),
        None => false,
    }
}

/// The model that is downloaded where none is named: the smallest and fastest.
pub fn default_model_id() -> (r: String)
    ensures
        r@ == "moonshine-base"@,
{
    owned("moonshine-base")
}

/// The words for where a model stands end in what is known of it, as it is: how far its
/// download is, or what went wrong.
pub proof fn a_status_keeps_what_is_known(progress: String, message: String)
    ensures
        status_words(ModelStatus::Downloading { progress }).take(12) == "downloading:"@,
        status_words(ModelStatus::Downloading { progress }).skip(12) == progress@,
        status_words(ModelStatus::Error { message }).take(6) == "error:"@,
        status_words(ModelStatus::Error { message }).skip(6) == message@,
        status_words(ModelStatus::Downloaded) == "downloaded"@,
        status_words(ModelStatus::NotDownloaded) == "not_"@ + status_words(
            ModelStatus::Downloaded,
        ),
{
    reveal_strlit("downloading:");
    reveal_strlit("error:");
    reveal_strlit("downloaded");
    reveal_strlit("not_downloaded");
    reveal_strlit("not_");
    let words = status_words(ModelStatus::Downloading { progress });
    assert(words.take(12) =~= "downloading:"@);
    assert(words.skip(12) =~= progress@);
    let error = status_words(ModelStatus::Error { message });
    assert(error.take(6) =~= "error:"@);
    assert(error.skip(6) =~= message@);
    assert("not_downloaded"@ =~= "not_"@ + "downloaded"@);
}

/// A window shows of a model what is known of it, each part in its own place.
pub proof fn a_model_is_shown_as_it_is<N>(
    response: ModelInfoResponse<N>,
    model: ModelInfo<N>,
    status: ModelStatus,
)
    requires
        shows(response, model, status),
    ensures
        response.id@ == model.id@,
        response.name@ == model.name@,
        response.description@ == model.description@,
        lowercase(model.engine_type@) == model.engine_type@ ==> response.engine_type@
            == model.engine_type@,
        response.engine_type@ == lowercase(model.engine_type@),
        response.total_size_bytes == model.total_size_bytes,
        response.accuracy_score == model.accuracy_score,
        response.speed_score == model.speed_score,
        response.status@ == status_words(status),
{
}

} // verus!
